//! Names for the files that pages are saved under: derived from the URL,
//! made safe for any file system, and kept apart from names already taken.

use vstd::prelude::*;
use vstd::relations::injective_on;
use vstd::set_lib::{lemma_int_range, lemma_len_subset, lemma_map_size, set_int_range};
use crate::errors::{CrawlerError, FileOperationError};
use crate::text::{
    contains_string, decimal, decimal_of, from_chars, lemma_decimal_injective, lemma_decimal_len, push_all,
    push_str, slice_of, to_chars, views,
};
use crate::urls::{split_url, url_parts, UrlParts};

verus! {

/// A character that stays as it is in a file name: an ASCII letter or
/// digit, `_`, `-` or `.`.
pub open spec fn is_safe_char(c: char) -> bool {
    ('a' <= c && c <= 'z') || ('A' <= c && c <= 'Z') || ('0' <= c && c <= '9') || c == '_' || c
        == '-' || c == '.'
}

/// `name` with every character that is not safe replaced by `_`.
pub open spec fn sanitized(name: Seq<char>) -> Seq<char> {
    name.map_values(
        |c: char|
            if is_safe_char(c) {
                c
            } else {
                '_'
            },
    )
}

/// The longest that the stem of a file name gets.
pub const MAX_STEM_LEN: usize = 200;

/// A sanitized name made a stem: `page_` is put in front where it starts
/// with `.` or `-`, it is cut to 200 characters, and it is `page` where
/// nothing is left.
pub open spec fn capped(s: Seq<char>) -> Seq<char> {
    let p = if s.len() > 0 && (s[0] == '.' || s[0] == '-') {
        "page_"@ + s
    } else {
        s
    };
    let t = if p.len() > MAX_STEM_LEN {
        p.take(MAX_STEM_LEN as int)
    } else {
        p
    };
    if t.len() == 0 {
        "page"@
    } else {
        t
    }
}

/// The stem of the file name made of `name`.
pub open spec fn stem_of(name: Seq<char>) -> Seq<char> {
    capped(sanitized(name))
}

/// The pieces of `s` between the separators `sep`.
pub open spec fn split_on(s: Seq<char>, sep: char) -> Seq<Seq<char>>
    decreases s.len(),
{
    if s.len() == 0 {
        seq![Seq::empty()]
    } else {
        let p = split_on(s.drop_last(), sep);
        if s.last() == sep {
            p.push(Seq::empty())
        } else {
            p.drop_last().push(p.last().push(s.last()))
        }
    }
}

/// The pieces of `parts` that are not empty, joined by `sep`.
pub open spec fn join_non_empty(parts: Seq<Seq<char>>, sep: char) -> Seq<char>
    decreases parts.len(),
{
    if parts.len() == 0 {
        Seq::empty()
    } else {
        let before = join_non_empty(parts.drop_last(), sep);
        if parts.last().len() == 0 {
            before
        } else if before.len() == 0 {
            parts.last()
        } else {
            before.push(sep) + parts.last()
        }
    }
}

/// The name that the parts of a URL give, before it is made safe: the
/// segments of the path that are not empty, joined by `_`; for a URL
/// without such a segment, the host followed by `_index`; for a text that
/// is no URL, `unknown_page`.
pub open spec fn name_from_parts(parts: Option<(Option<Seq<char>>, Seq<char>)>) -> Seq<char> {
    match parts {
        None => "unknown_page"@,
        Some((host, path)) => {
            let joined = join_non_empty(split_on(path, '/'), '_');
            if joined.len() == 0 {
                (match host {
                    Some(h) => h,
                    None => "unknown"@,
                }) + "_index"@
            } else {
                joined
            }
        },
    }
}

/// The stem of the file that the page at `url` is saved under.
pub open spec fn stem_for_url(url: Seq<char>) -> Seq<char> {
    stem_of(name_from_parts(url_parts(url)))
}

/// The index of the last `.` of `name` before index `j`, or `name.len()`
/// where there is none.
pub open spec fn last_dot(name: Seq<char>, j: int) -> int
    decreases j,
{
    if j <= 0 || j > name.len() {
        name.len() as int
    } else if name[j - 1] == '.' {
        j - 1
    } else {
        last_dot(name, j - 1)
    }
}

/// Where the extension of `name` begins: at its last `.`, or at its end.
pub open spec fn extension_start(name: Seq<char>) -> int {
    last_dot(name, name.len() as int)
}

/// The `n`-th name to try for `name`: `name` itself, then `name` with `_1`,
/// `_2` and so on before its extension.
pub open spec fn numbered(name: Seq<char>, n: nat) -> Seq<char> {
    if n == 0 {
        name
    } else {
        name.take(extension_start(name)) + "_"@ + decimal(n) + name.skip(extension_start(name))
    }
}

/// `n` is the first number for which the name to try is not taken.
pub open spec fn is_first_free(taken: Seq<Seq<char>>, name: Seq<char>, n: nat) -> bool {
    &&& !taken.contains(numbered(name, n))
    &&& forall|j: nat| j < n ==> taken.contains(#[trigger] numbered(name, j))
}

/// A stem is fit to be a file name on any file system: it is not empty,
/// no longer than 200 characters, made of safe characters only, and starts
/// with neither `.` nor `-`.
pub proof fn lemma_stem_is_safe(name: Seq<char>)
    ensures
        0 < stem_of(name).len() <= MAX_STEM_LEN,
        forall|i: int| 0 <= i < stem_of(name).len() ==> is_safe_char(#[trigger] stem_of(name)[i]),
        stem_of(name)[0] != '.',
        stem_of(name)[0] != '-',
{
    reveal_strlit("page_");
    reveal_strlit("page");
    let s = sanitized(name);
    assert forall|i: int| 0 <= i < s.len() implies is_safe_char(#[trigger] s[i]) by {}
    let p = if s.len() > 0 && (s[0] == '.' || s[0] == '-') {
        "page_"@ + s
    } else {
        s
    };
    assert forall|i: int| 0 <= i < p.len() implies is_safe_char(#[trigger] p[i]) by {
        if s.len() > 0 && (s[0] == '.' || s[0] == '-') {
            if i >= 5 {
                assert(p[i] == s[i - 5]);
            }
        }
    }
}

/// A name that is fit to be a stem is its own stem: one that is not
/// empty, no longer than 200 characters, made of safe characters, and
/// starts with neither `.` nor `-`.
pub proof fn lemma_safe_name_is_its_stem(name: Seq<char>)
    requires
        0 < name.len() <= MAX_STEM_LEN,
        forall|i: int| 0 <= i < name.len() ==> is_safe_char(name[i]),
        name[0] != '.',
        name[0] != '-',
    ensures
        stem_of(name) == name,
{
    assert(sanitized(name) =~= name);
}

/// A text without separators is one piece, and a text that ends a longer
/// one adds to its last piece.
pub proof fn lemma_split_append(s: Seq<char>, x: Seq<char>, sep: char)
    requires
        forall|i: int| 0 <= i < x.len() ==> x[i] != sep,
    ensures
        split_on(s, sep).len() > 0,
        split_on(s + x, sep) == split_on(s, sep).drop_last().push(split_on(s, sep).last() + x),
    decreases x.len(),
{
    lemma_split_has_pieces(s, sep);
    let pieces = split_on(s, sep);
    if x.len() == 0 {
        assert(s + x =~= s);
        assert(pieces.last() + x =~= pieces.last());
        assert(pieces.drop_last().push(pieces.last()) =~= pieces);
    } else {
        let init = x.drop_last();
        lemma_split_append(s, init, sep);
        assert((s + x).drop_last() =~= s + init);
        assert((s + x).last() == x.last());
        let before = pieces.drop_last().push(pieces.last() + init);
        assert(before.drop_last() =~= pieces.drop_last());
        assert((pieces.last() + init).push(x.last()) =~= pieces.last() + x);
    }
}

/// A text always splits into at least one piece.
pub proof fn lemma_split_has_pieces(s: Seq<char>, sep: char)
    ensures
        split_on(s, sep).len() > 0,
    decreases s.len(),
{
    if s.len() > 0 {
        lemma_split_has_pieces(s.drop_last(), sep);
    }
}

/// The page at the root of a site is named after the host.
pub proof fn lemma_root_page_name(host: Seq<char>)
    ensures
        name_from_parts(Some((Some(host), "/"@))) == host + "_index"@,
{
    reveal_strlit("/");
    let path = "/"@;
    let none = Seq::<char>::empty();
    assert(path.drop_last() =~= none);
    assert(split_on(none, '/') == seq![none]);
    assert(split_on(path, '/') =~= seq![none, none]);
    let pieces = seq![none, none];
    assert(pieces.drop_last() =~= seq![none]);
    assert(seq![none].drop_last() =~= Seq::<Seq<char>>::empty());
    assert(join_non_empty(Seq::<Seq<char>>::empty(), '_') == none);
    assert(join_non_empty(seq![none], '_') == none);
    assert(join_non_empty(pieces, '_') == none);
}

/// A page two segments down is named after both, joined by `_`.
pub proof fn lemma_two_segment_name(host: Option<Seq<char>>, a: Seq<char>, b: Seq<char>)
    requires
        a.len() > 0,
        b.len() > 0,
        forall|i: int| 0 <= i < a.len() ==> a[i] != '/',
        forall|i: int| 0 <= i < b.len() ==> b[i] != '/',
    ensures
        name_from_parts(Some((host, seq!['/'] + a + seq!['/'] + b))) == a.push('_') + b,
{
    let none = Seq::<char>::empty();
    let slash = seq!['/'];
    assert(slash.drop_last() =~= none);
    assert(split_on(none, '/') == seq![none]);
    assert(split_on(slash, '/') =~= seq![none, none]);
    lemma_split_append(slash, a, '/');
    assert(none + a =~= a);
    assert(split_on(slash + a, '/') =~= seq![none, a]);
    let upto = slash + a + slash;
    assert(upto.drop_last() =~= slash + a);
    assert(split_on(upto, '/') =~= seq![none, a, none]);
    lemma_split_append(upto, b, '/');
    assert(none + b =~= b);
    let pieces = seq![none, a, b];
    assert(split_on(upto + b, '/') =~= pieces);
    assert(pieces.drop_last() =~= seq![none, a]);
    assert(seq![none, a].drop_last() =~= seq![none]);
    assert(seq![none].drop_last() =~= Seq::<Seq<char>>::empty());
    assert(join_non_empty(Seq::<Seq<char>>::empty(), '_') == none);
    assert(join_non_empty(seq![none], '_') == none);
    assert(join_non_empty(seq![none, a], '_') == a);
    assert(join_non_empty(pieces, '_') == a.push('_') + b);
}

/// The root page of `example.com` is saved as `example.com_index.md`, and
/// the page at `/docs/start` as `docs_start.md`.
pub proof fn lemma_sample_file_names()
    ensures
        stem_of(name_from_parts(Some((Some("example.com"@), "/"@)))) + ".md"@
            == "example.com_index.md"@,
        stem_of(name_from_parts(Some((Some("example.com"@), "/docs/start"@)))) + ".md"@
            == "docs_start.md"@,
{
    reveal_strlit("example.com");
    reveal_strlit("_index");
    reveal_strlit("example.com_index");
    reveal_strlit("example.com_index.md");
    reveal_strlit(".md");
    reveal_strlit("/docs/start");
    reveal_strlit("docs");
    reveal_strlit("start");
    reveal_strlit("docs_start");
    reveal_strlit("docs_start.md");
    lemma_root_page_name("example.com"@);
    assert("example.com"@ + "_index"@ =~= "example.com_index"@);
    lemma_safe_name_is_its_stem("example.com_index"@);
    assert("example.com_index"@ + ".md"@ =~= "example.com_index.md"@);
    lemma_two_segment_name(Some("example.com"@), "docs"@, "start"@);
    assert(seq!['/'] + "docs"@ + seq!['/'] + "start"@ =~= "/docs/start"@);
    assert("docs"@.push('_') + "start"@ =~= "docs_start"@);
    lemma_safe_name_is_its_stem("docs_start"@);
    assert("docs_start"@ + ".md"@ =~= "docs_start.md"@);
}

/// The first number for which the name to try is not taken.
pub open spec fn first_free(taken: Seq<Seq<char>>, name: Seq<char>) -> nat {
    choose|n: nat| is_first_free(taken, name, n)
}

/// The name that `name` is given where the names `taken` are taken: the
/// first of `name`, `name` with `_1` before its extension, `name` with
/// `_2`, and so on, that is not among them.
pub open spec fn unique_name(taken: Seq<Seq<char>>, name: Seq<char>) -> Seq<char> {
    numbered(name, first_free(taken, name))
}

/// The extension begins within the name.
pub proof fn lemma_last_dot(name: Seq<char>, j: int)
    requires
        0 <= j <= name.len(),
    ensures
        0 <= last_dot(name, j) <= name.len(),
    decreases j,
{
    if j > 0 && name[j - 1] != '.' {
        lemma_last_dot(name, j - 1);
    }
}

/// Different numbers give different names to try.
pub proof fn lemma_numbered_injective(name: Seq<char>, a: nat, b: nat)
    requires
        numbered(name, a) == numbered(name, b),
    ensures
        a == b,
{
    reveal_strlit("_");
    lemma_last_dot(name, name.len() as int);
    lemma_decimal_len(a);
    lemma_decimal_len(b);
    let e = extension_start(name);
    let head = name.take(e) + "_"@;
    let tail = name.skip(e);
    if a != 0 && b != 0 {
        let x = numbered(name, a);
        let y = numbered(name, b);
        assert(x.len() == head.len() + decimal(a).len() + tail.len());
        assert(y.len() == head.len() + decimal(b).len() + tail.len());
        assert(x.subrange(head.len() as int, (head.len() + decimal(a).len()) as int) =~= decimal(a));
        assert(y.subrange(head.len() as int, (head.len() + decimal(b).len()) as int) =~= decimal(b));
        lemma_decimal_injective(a, b);
    } else if a != 0 {
        assert(numbered(name, a).len() == head.len() + decimal(a).len() + tail.len());
    } else if b != 0 {
        assert(numbered(name, b).len() == head.len() + decimal(b).len() + tail.len());
    }
}

/// Where the first `n` names to try are all taken, at least `n` names are taken.
pub proof fn lemma_taken_bound(taken: Seq<Seq<char>>, name: Seq<char>, n: nat)
    requires
        forall|j: nat| j < n ==> taken.contains(#[trigger] numbered(name, j)),
    ensures
        n <= taken.len(),
{
    let numbers = set_int_range(0, n as int);
    let f = |j: int| numbered(name, j as nat);
    let tried = numbers.map(f);
    lemma_int_range(0, n as int);
    assert(injective_on(f, numbers)) by {
        assert forall|x1: int, x2: int|
            numbers.contains(x1) && numbers.contains(x2) && #[trigger] f(x1) == #[trigger] f(
                x2,
            ) implies x1 == x2 by {
            lemma_numbered_injective(name, x1 as nat, x2 as nat);
        }
    }
    lemma_map_size(numbers, tried, f);
    assert(tried.subset_of(taken.to_set())) by {
        assert forall|x: Seq<char>| tried.contains(x) implies taken.to_set().contains(x) by {
            let j = choose|j: int| numbers.contains(j) && f(j) == x;
            assert(taken.contains(numbered(name, j as nat)));
        }
    }
    broadcast use vstd::seq_lib::seq_to_set_is_finite;

    lemma_len_subset(tried, taken.to_set());
    taken.lemma_cardinality_of_set();
}

/// The number whose name to try is the first that is not taken is unique.
pub proof fn lemma_first_free_unique(taken: Seq<Seq<char>>, name: Seq<char>, a: nat, b: nat)
    requires
        is_first_free(taken, name, a),
        is_first_free(taken, name, b),
    ensures
        a == b,
{
    if a < b {
        assert(taken.contains(numbered(name, a)));
    } else if b < a {
        assert(taken.contains(numbered(name, b)));
    }
}

/// A name that is free is given as it is, and the same name asked for
/// once more is given with `_1` before its extension, where that is free.
pub proof fn lemma_second_gets_one(taken: Seq<Seq<char>>, name: Seq<char>)
    requires
        !taken.contains(name),
        !taken.contains(numbered(name, 1)),
    ensures
        unique_name(taken, name) == name,
        unique_name(taken.push(name), name) == numbered(name, 1),
{
    assert(is_first_free(taken, name, 0));
    lemma_first_free_unique(taken, name, 0, first_free(taken, name));
    let more = taken.push(name);
    assert(more[more.len() - 1] == name);
    assert(more.contains(numbered(name, 0)));
    assert(!more.contains(numbered(name, 1))) by {
        if more.contains(numbered(name, 1)) {
            let k = choose|k: int| 0 <= k < more.len() && more[k] == numbered(name, 1);
            if k < taken.len() {
                assert(taken[k] == numbered(name, 1));
            } else {
                lemma_numbered_injective(name, 0, 1);
            }
        }
    }
    assert(is_first_free(more, name, 1)) by {
        assert forall|j: nat| j < 1 implies more.contains(#[trigger] numbered(name, j)) by {
            assert(j == 0);
        }
    }
    lemma_first_free_unique(more, name, 1, first_free(more, name));
}

/// `name` with every character that is not safe replaced by `_`.
pub fn sanitize_chars(name: &Vec<char>) -> (r: Vec<char>)
    ensures
        r@ == sanitized(name@),
{
    let mut r: Vec<char> = Vec::new();
    let mut i: usize = 0;
    while i < name.len()
        invariant
            i <= name.len(),
            r@ == sanitized(name@).take(i as int),
        decreases name.len() - i,
    {
        let c = name[i];
        let safe = ('a' <= c && c <= 'z') || ('A' <= c && c <= 'Z') || ('0' <= c && c <= '9') || c
            == '_' || c == '-' || c == '.';
        if safe {
            r.push(c);
        } else {
            r.push('_');
        }
        i += 1;
        assert(r@ =~= sanitized(name@).take(i as int));
    }
    assert(sanitized(name@).take(name.len() as int) =~= sanitized(name@));
    r
}

/// The stem of the file name made of `name`.
pub fn stem_chars(name: &Vec<char>) -> (r: Vec<char>)
    ensures
        r@ == stem_of(name@),
{
    let s = sanitize_chars(name);
    let p = if s.len() > 0 && (s[0] == '.' || s[0] == '-') {
        let mut p = to_chars("page_");
        push_all(&mut p, &s);
        p
    } else {
        s
    };
    let t = if p.len() > MAX_STEM_LEN {
        slice_of(&p, 0, MAX_STEM_LEN)
    } else {
        p
    };
    if t.len() == 0 {
        to_chars("page")
    } else {
        t
    }
}

/// The pieces of `s` between the separators `sep` that are not empty, joined by `joint`.
fn join_segments(s: &Vec<char>, sep: char, joint: char) -> (r: Vec<char>)
    ensures
        r@ == join_non_empty(split_on(s@, sep), joint),
{
    // `done` holds the joined pieces that are complete, `piece` the one being read.
    let mut done: Vec<char> = Vec::new();
    let mut piece: Vec<char> = Vec::new();
    let mut i: usize = 0;
    proof {
        assert(s@.take(0) =~= Seq::<char>::empty());
        let parts = split_on(s@.take(0), sep);
        assert(parts.drop_last() =~= Seq::<Seq<char>>::empty());
    }
    while i < s.len()
        invariant
            i <= s.len(),
            split_on(s@.take(i as int), sep).len() > 0,
            piece@ == split_on(s@.take(i as int), sep).last(),
            done@ == join_non_empty(split_on(s@.take(i as int), sep).drop_last(), joint),
        decreases s.len() - i,
    {
        let ghost parts = split_on(s@.take(i as int), sep);
        proof {
            assert(s@.take(i + 1).drop_last() =~= s@.take(i as int));
        }
        let c = s[i];
        if c == sep {
            proof {
                assert(parts.push(Seq::empty()).drop_last() =~= parts);
                assert(parts.drop_last().push(parts.last()) =~= parts);
            }
            if piece.len() > 0 {
                if done.len() > 0 {
                    done.push(joint);
                }
                push_all(&mut done, &piece);
                piece = Vec::new();
            }
        } else {
            piece.push(c);
            proof {
                let next = parts.drop_last().push(parts.last().push(c));
                assert(next.drop_last() =~= parts.drop_last());
            }
        }
        i += 1;
    }
    proof {
        assert(s@.take(s.len() as int) =~= s@);
        let parts = split_on(s@, sep);
        assert(parts.drop_last().push(parts.last()) =~= parts);
    }
    if piece.len() > 0 {
        if done.len() > 0 {
            done.push(joint);
        }
        push_all(&mut done, &piece);
    }
    done
}

/// The stem of the file that a page is saved under, from the parts of its
/// URL, or from nothing where its URL did not parse.
pub fn stem_from_parts(parts: Option<&UrlParts>) -> (r: String)
    ensures
        r@ == stem_of(
            name_from_parts(
                match parts {
                    Some(p) => Some(p@),
                    None => None,
                },
            ),
        ),
{
    let name = match parts {
        None => to_chars("unknown_page"),
        Some(p) => {
            let path = to_chars(p.path.as_str());
            let joined = join_segments(&path, '/', '_');
            if joined.len() == 0 {
                let mut n = match &p.host {
                    Some(h) => to_chars(h.as_str()),
                    None => to_chars("unknown"),
                };
                push_str(&mut n, "_index");
                n
            } else {
                joined
            }
        },
    };
    let stem = stem_chars(&name);
    from_chars(&stem)
}

/// Where the extension of `name` begins.
fn find_extension(name: &Vec<char>) -> (r: usize)
    ensures
        r == extension_start(name@),
        r <= name.len(),
{
    let mut j: usize = name.len();
    proof {
        lemma_last_dot(name@, name.len() as int);
    }
    while j > 0
        invariant
            j <= name.len(),
            extension_start(name@) == last_dot(name@, j as int),
        decreases j,
    {
        if name[j - 1] == '.' {
            return j - 1;
        }
        j -= 1;
    }
    name.len()
}

/// The `n`-th name to try for `name`.
fn numbered_name(name: &Vec<char>, n: usize) -> (r: String)
    ensures
        r@ == numbered(name@, n as nat),
{
    if n == 0 {
        from_chars(name)
    } else {
        let e = find_extension(name);
        let mut r = slice_of(name, 0, e);
        push_str(&mut r, "_");
        let digits = decimal_of(n);
        push_all(&mut r, &digits);
        let ext = slice_of(name, e, name.len());
        push_all(&mut r, &ext);
        from_chars(&r)
    }
}

/// Gives pages their file names and keeps the names apart.
pub struct FileManager {
    output_dir: String,
    taken: Vec<String>,
}

impl FileManager {
    /// The directory that files go to.
    pub closed spec fn output_dir(self) -> Seq<char> {
        self.output_dir@
    }

    /// The names that are taken, oldest first.
    pub closed spec fn taken(self) -> Seq<Seq<char>> {
        views(self.taken@)
    }

    /// A manager for the directory `output_dir`, with no name taken. An
    /// empty `output_dir` is refused as an invalid path.
    pub fn new(output_dir: &str) -> (r: Result<Self, CrawlerError>)
        ensures
            match r {
                Ok(m) => output_dir@.len() > 0 && m.output_dir() == output_dir@ && m.taken()
                    == Seq::<Seq<char>>::empty(),
                Err(e) => output_dir@.len() == 0 && (e matches CrawlerError::FileOperation(
                    FileOperationError::InvalidPath(t),
                ) && t@ == "Empty path"@),
            },
    {
        if output_dir.unicode_len() == 0 {
            return Err(
                CrawlerError::FileOperation(
                    FileOperationError::InvalidPath(String::from_str("Empty path")),
                ),
            );
        }
        let m = FileManager { output_dir: String::from_str(output_dir), taken: Vec::new() };
        assert(views(m.taken@) =~= Seq::<Seq<char>>::empty());
        Ok(m)
    }

    /// The directory that files go to.
    pub fn get_output_dir(&self) -> (r: String)
        ensures
            r@ == self.output_dir(),
    {
        self.output_dir.clone()
    }

    /// The Markdown file name made of `filename`: its stem followed by `.md`.
    pub fn sanitize_filename(&self, filename: &str) -> (r: String)
        ensures
            r@ == stem_of(filename@) + ".md"@,
    {
        let name = to_chars(filename);
        let mut stem = stem_chars(&name);
        push_str(&mut stem, ".md");
        from_chars(&stem)
    }

    /// The name of the Markdown file for the page at `url`.
    pub fn generate_filename(&self, url: &str) -> (r: String)
        ensures
            r@ == stem_for_url(url@) + ".md"@,
    {
        let mut stem = match split_url(url) {
            Ok(parts) => stem_from_parts(Some(&parts)),
            Err(_) => stem_from_parts(None),
        };
        stem.append(".md");
        stem
    }

    /// The name of the file that the raw page at `url` is saved under when
    /// it cannot be rendered.
    pub fn generate_raw_filename(&self, url: &str) -> (r: String)
        ensures
            r@ == stem_for_url(url@) + ".html"@,
    {
        let mut stem = match split_url(url) {
            Ok(parts) => stem_from_parts(Some(&parts)),
            Err(_) => stem_from_parts(None),
        };
        stem.append(".html");
        stem
    }

    /// Marks `filename` as taken, as for a file that is in the directory already.
    pub fn mark_taken(&mut self, filename: &str)
        ensures
            final(self).output_dir() == old(self).output_dir(),
            final(self).taken() == old(self).taken().push(filename@),
    {
        let ghost before = views(self.taken@);
        self.taken.push(String::from_str(filename));
        assert(views(self.taken@) =~= before.push(filename@));
    }

    /// A name for `filename` that is not taken, and takes it: `filename`
    /// itself if it is free, else the first of `filename` with `_1`, `_2`
    /// and so on before its extension that is.
    pub fn ensure_unique_filename(&mut self, filename: &str) -> (r: String)
        ensures
            final(self).output_dir() == old(self).output_dir(),
            final(self).taken() == old(self).taken().push(r@),
            !old(self).taken().contains(r@),
            is_first_free(old(self).taken(), filename@, first_free(old(self).taken(), filename@)),
            r@ == unique_name(old(self).taken(), filename@),
    {
        let name = to_chars(filename);
        let mut n: usize = 0;
        let ghost taken = views(self.taken@);
        loop
            invariant_except_break
                forall|j: nat| j < n ==> taken.contains(#[trigger] numbered(name@, j)),
            invariant
                name@ == filename@,
                taken == views(self.taken@),
                self.taken@ == old(self).taken@,
                self.output_dir == old(self).output_dir,
                n <= taken.len(),
            ensures
                is_first_free(taken, name@, n as nat),
            decreases taken.len() - n,
        {
            let candidate = numbered_name(&name, n);
            if !contains_string(&self.taken, &candidate) {
                break ;
            }
            proof {
                assert forall|j: nat| j < n + 1 implies taken.contains(
                    #[trigger] numbered(name@, j),
                ) by {
                    if j == n {
                    }
                }
                lemma_taken_bound(taken, name@, (n + 1) as nat);
                assert(taken.len() == self.taken@.len());
            }
            let count = self.taken.len();
            assert(n + 1 <= count);
            n += 1;
        }
        proof {
            lemma_first_free_unique(taken, name@, n as nat, first_free(taken, name@));
        }
        let r = numbered_name(&name, n);
        self.taken.push(r.clone());
        assert(views(self.taken@) =~= taken.push(r@));
        r
    }
}

} // verus!
