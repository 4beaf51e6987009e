//! Character-sequence utilities shared by the parsers and the renderer.
//!
//! Text is processed as `Vec<char>`; every function here is specified over
//! the `Seq<char>` view of its arguments.

use vstd::prelude::*;

verus! {

/// Whether `c` is alphabetic or numeric in Unicode terms, as `char::is_alphanumeric` decides it.
pub uninterp spec fn is_alphanumeric_char(c: char) -> bool;

/// The Unicode lowercase form of `s`, as `str::to_lowercase` computes it.
pub uninterp spec fn lowercase(s: Seq<char>) -> Seq<char>;

/// Calls `char::is_alphanumeric`. The result is a function of `c` alone and is
/// known to contracts only under the name `is_alphanumeric_char`.
#[verifier::external_body]
pub(crate) fn char_is_alphanumeric(c: char) -> (r: bool)
    ensures
        r == is_alphanumeric_char(c),
{
    c.is_alphanumeric()
}

/// Calls `str::to_lowercase`. The result is a function of the characters of
/// `s` alone and is known to contracts only under the name `lowercase`.
#[verifier::external_body]
pub(crate) fn str_to_lowercase(s: &str) -> (r: String)
    ensures
        r@ == lowercase(s@),
{
    s.to_lowercase()
}

/// Calls `String::push`, which appends one character to the end of the string.
#[verifier::external_body]
pub(crate) fn string_push(s: &mut String, c: char)
    ensures
        final(s)@ == old(s)@.push(c),
{
    s.push(c)
}

/// Whether `c` is whitespace: one of the code points with the Unicode
/// property `White_Space`. These are U+0009 to U+000D, U+0020, U+0085,
/// U+00A0, U+1680, U+2000 to U+200A, U+2028, U+2029, U+202F, U+205F and
/// U+3000.
pub open spec fn is_whitespace_char(c: char) -> bool {
    let n = c as u32;
    (0x09 <= n && n <= 0x0D) || n == 0x20 || n == 0x85 || n == 0xA0 || n == 0x1680 || (0x2000
        <= n && n <= 0x200A) || n == 0x2028 || n == 0x2029 || n == 0x202F || n == 0x205F || n
        == 0x3000
}

/// Whether `c` is whitespace.
pub fn char_is_whitespace(c: char) -> (r: bool)
    ensures
        r == is_whitespace_char(c),
{
    let n = c as u32;
    (0x09 <= n && n <= 0x0D) || n == 0x20 || n == 0x85 || n == 0xA0 || n == 0x1680 || (0x2000
        <= n && n <= 0x200A) || n == 0x2028 || n == 0x2029 || n == 0x202F || n == 0x205F || n
        == 0x3000
}

/// The characters of `s`, in order.
pub fn to_chars(s: &str) -> (v: Vec<char>)
    ensures
        v@ == s@,
{
    let mut v: Vec<char> = Vec::new();
    let it = s.chars();
    for c in iter: it
        invariant
            v@ == iter.seq().take(iter.index() as int),
            iter.seq() == s@,
    {
        v.push(c);
    }
    v
}

/// A string made of the characters of `v`, in order.
pub fn from_chars(v: &Vec<char>) -> (s: String)
    ensures
        s@ == v@,
{
    let mut s = String::new();
    let mut i: usize = 0;
    while i < v.len()
        invariant
            i <= v.len(),
            s@ == v@.take(i as int),
        decreases v.len() - i,
    {
        string_push(&mut s, v[i]);
        i += 1;
        assert(v@.take(i as int) == v@.take(i as int - 1).push(v@[i as int - 1]));
    }
    assert(v@.take(v.len() as int) == v@);
    s
}

/// The views of a list of strings.
pub open spec fn views(v: Seq<String>) -> Seq<Seq<char>> {
    v.map_values(|s: String| s@)
}

/// Whether `text` is one of `list`.
pub fn contains_string(list: &Vec<String>, text: &String) -> (r: bool)
    ensures
        r == views(list@).contains(text@),
{
    let mut i: usize = 0;
    while i < list.len()
        invariant
            i <= list.len(),
            forall|k: int| 0 <= k < i ==> views(list@)[k] != text@,
        decreases list.len() - i,
    {
        if list[i] == *text {
            assert(views(list@)[i as int] == text@);
            return true;
        }
        i += 1;
    }
    false
}

/// A copy of `list`.
pub fn clone_strings(list: &Vec<String>) -> (r: Vec<String>)
    ensures
        views(r@) == views(list@),
{
    let mut r: Vec<String> = Vec::new();
    let mut i: usize = 0;
    while i < list.len()
        invariant
            i <= list.len(),
            views(r@) == views(list@).take(i as int),
        decreases list.len() - i,
    {
        let ghost before = views(r@);
        let item = list[i].clone();
        assert(item@ == views(list@)[i as int]);
        r.push(item);
        i += 1;
        assert(views(r@) =~= before.push(views(list@)[i - 1]));
        assert(views(r@) =~= views(list@).take(i as int));
    }
    assert(views(list@).take(list.len() as int) =~= views(list@));
    r
}

/// Appends the characters of `tail` to `v`.
pub fn push_all(v: &mut Vec<char>, tail: &Vec<char>)
    ensures
        final(v)@ == old(v)@ + tail@,
{
    let mut i: usize = 0;
    while i < tail.len()
        invariant
            i <= tail.len(),
            v@ == old(v)@ + tail@.take(i as int),
        decreases tail.len() - i,
    {
        v.push(tail[i]);
        i += 1;
        assert(tail@.take(i as int) == tail@.take(i as int - 1).push(tail@[i as int - 1]));
    }
    assert(tail@.take(tail.len() as int) == tail@);
}

/// Appends the characters of the string `tail` to `v`.
pub fn push_str(v: &mut Vec<char>, tail: &str)
    ensures
        final(v)@ == old(v)@ + tail@,
{
    let t = to_chars(tail);
    push_all(v, &t);
}

/// A copy of `v[from..to]`.
pub fn slice_of(v: &Vec<char>, from: usize, to: usize) -> (r: Vec<char>)
    requires
        from <= to <= v.len(),
    ensures
        r@ == v@.subrange(from as int, to as int),
{
    let mut r: Vec<char> = Vec::new();
    let mut i: usize = from;
    while i < to
        invariant
            from <= i <= to <= v.len(),
            r@ == v@.subrange(from as int, i as int),
        decreases to - i,
    {
        r.push(v[i]);
        i += 1;
        assert(v@.subrange(from as int, i as int) == v@.subrange(from as int, i as int - 1).push(
            v@[i as int - 1],
        ));
    }
    r
}

/// Whether the two sequences hold the same characters.
pub fn same_chars(a: &Vec<char>, b: &Vec<char>) -> (r: bool)
    ensures
        r == (a@ == b@),
{
    if a.len() != b.len() {
        return false;
    }
    let mut i: usize = 0;
    while i < a.len()
        invariant
            i <= a.len(),
            a.len() == b.len(),
            a@.take(i as int) == b@.take(i as int),
        decreases a.len() - i,
    {
        if a[i] != b[i] {
            return false;
        }
        i += 1;
        assert(a@.take(i as int) == a@.take(i as int - 1).push(a@[i as int - 1]));
        assert(b@.take(i as int) == b@.take(i as int - 1).push(b@[i as int - 1]));
    }
    assert(a@.take(a.len() as int) == a@);
    assert(b@.take(b.len() as int) == b@);
    true
}

/// Whether `v` holds exactly the characters of `lit`.
pub fn is_str(v: &Vec<char>, lit: &str) -> (r: bool)
    ensures
        r == (v@ == lit@),
{
    let l = to_chars(lit);
    same_chars(v, &l)
}

/// `p` occurs in `s` at index `i`.
pub open spec fn has_prefix_at(s: Seq<char>, i: int, p: Seq<char>) -> bool {
    0 <= i && i + p.len() <= s.len() && s.subrange(i, i + p.len()) == p
}

/// Whether `p` occurs in `s` at index `i`.
pub fn starts_with_at(s: &Vec<char>, i: usize, p: &Vec<char>) -> (r: bool)
    ensures
        r == has_prefix_at(s@, i as int, p@),
{
    if i > s.len() || p.len() > s.len() - i {
        return false;
    }
    let mut k: usize = 0;
    while k < p.len()
        invariant
            k <= p.len(),
            i + p.len() <= s.len(),
            s@.subrange(i as int, i + k) == p@.take(k as int),
        decreases p.len() - k,
    {
        if s[i + k] != p[k] {
            assert(s@.subrange(i as int, i + p.len())[k as int] != p@[k as int]);
            return false;
        }
        k += 1;
        assert(s@.subrange(i as int, i + k) == s@.subrange(i as int, i + k - 1).push(
            s@[i + k - 1],
        ));
        assert(p@.take(k as int) == p@.take(k as int - 1).push(p@[k as int - 1]));
    }
    assert(p@.take(p.len() as int) == p@);
    true
}

/// `s` ends with `p`.
pub open spec fn has_suffix(s: Seq<char>, p: Seq<char>) -> bool {
    p.len() <= s.len() && has_prefix_at(s, s.len() - p.len(), p)
}

/// Whether `s` ends with `p`.
pub fn ends_with(s: &Vec<char>, p: &Vec<char>) -> (r: bool)
    ensures
        r == has_suffix(s@, p@),
{
    if p.len() > s.len() {
        return false;
    }
    starts_with_at(s, s.len() - p.len(), p)
}

/// The least index `j >= i` at which `p` occurs in `s`, or `s.len()` if there is none.
pub open spec fn find_from(s: Seq<char>, p: Seq<char>, i: int) -> int
    decreases s.len() - i,
{
    if i < 0 || i >= s.len() {
        s.len() as int
    } else if has_prefix_at(s, i, p) {
        i
    } else {
        find_from(s, p, i + 1)
    }
}

/// `find_from` stays within `i..=s.len()`, names an occurrence unless it is
/// `s.len()`, and no occurrence lies before it.
pub proof fn lemma_find_from(s: Seq<char>, p: Seq<char>, i: int)
    requires
        0 <= i <= s.len(),
    ensures
        i <= find_from(s, p, i) <= s.len(),
        find_from(s, p, i) < s.len() ==> has_prefix_at(s, find_from(s, p, i), p),
        forall|j: int| i <= j < find_from(s, p, i) ==> !has_prefix_at(s, j, p),
    decreases s.len() - i,
{
    if i < s.len() && !has_prefix_at(s, i, p) {
        lemma_find_from(s, p, i + 1);
    }
}

/// The least index `j >= i` at which `p` occurs in `s`, or `s.len()` if there is none.
pub fn find(s: &Vec<char>, p: &Vec<char>, i: usize) -> (r: usize)
    requires
        i <= s.len(),
    ensures
        r == find_from(s@, p@, i as int),
        i <= r <= s.len(),
{
    let mut j: usize = i;
    while j < s.len()
        invariant
            i <= j <= s.len(),
            find_from(s@, p@, i as int) == find_from(s@, p@, j as int),
        decreases s.len() - j,
    {
        if starts_with_at(s, j, p) {
            return j;
        }
        j += 1;
    }
    j
}

/// Whether `p` occurs somewhere in `s`.
pub open spec fn contains_seq(s: Seq<char>, p: Seq<char>) -> bool {
    find_from(s, p, 0) < s.len()
}

/// The least index `j >= i` with `s[j] == c`, or `s.len()` if there is none.
pub open spec fn find_char_from(s: Seq<char>, c: char, i: int) -> int
    decreases s.len() - i,
{
    if i < 0 || i >= s.len() {
        s.len() as int
    } else if s[i] == c {
        i
    } else {
        find_char_from(s, c, i + 1)
    }
}

/// `find_char_from` stays within `i..=s.len()`, names an occurrence unless it
/// is `s.len()`, and no occurrence lies before it.
pub proof fn lemma_find_char_from(s: Seq<char>, c: char, i: int)
    requires
        0 <= i <= s.len(),
    ensures
        i <= find_char_from(s, c, i) <= s.len(),
        find_char_from(s, c, i) < s.len() ==> s[find_char_from(s, c, i)] == c,
        forall|j: int| i <= j < find_char_from(s, c, i) ==> s[j] != c,
    decreases s.len() - i,
{
    if i < s.len() && s[i] != c {
        lemma_find_char_from(s, c, i + 1);
    }
}

/// The least index `j >= i` with `s[j] == c`, or `s.len()` if there is none.
pub fn find_char(s: &Vec<char>, c: char, i: usize) -> (r: usize)
    requires
        i <= s.len(),
    ensures
        r == find_char_from(s@, c, i as int),
        i <= r <= s.len(),
{
    let mut j: usize = i;
    while j < s.len()
        invariant
            i <= j <= s.len(),
            find_char_from(s@, c, i as int) == find_char_from(s@, c, j as int),
        decreases s.len() - j,
    {
        if s[j] == c {
            return j;
        }
        j += 1;
    }
    j
}

/// How many times `c` occurs in `s`.
pub open spec fn count_char(s: Seq<char>, c: char) -> nat
    decreases s.len(),
{
    if s.len() == 0 {
        0
    } else {
        count_char(s.drop_last(), c) + if s.last() == c {
            1nat
        } else {
            0nat
        }
    }
}

/// How many times `c` occurs in `s`.
pub fn count_of(s: &Vec<char>, c: char) -> (n: usize)
    ensures
        n == count_char(s@, c),
{
    let mut n: usize = 0;
    let mut i: usize = 0;
    while i < s.len()
        invariant
            i <= s.len(),
            n == count_char(s@.take(i as int), c),
            n <= i,
        decreases s.len() - i,
    {
        assert(s@.take(i + 1).drop_last() == s@.take(i as int));
        if s[i] == c {
            n += 1;
        }
        i += 1;
    }
    assert(s@.take(s.len() as int) == s@);
    n
}

/// The index of the first character at or after `i` that is not whitespace, or `s.len()`.
pub open spec fn skip_ws(s: Seq<char>, i: int) -> int
    decreases s.len() - i,
{
    if 0 <= i < s.len() && is_whitespace_char(s[i]) {
        skip_ws(s, i + 1)
    } else {
        i
    }
}

/// The end of the text that is left of `s[..j]` once trailing whitespace is dropped.
pub open spec fn skip_ws_back(s: Seq<char>, j: int) -> int
    decreases j,
{
    if 0 < j <= s.len() && is_whitespace_char(s[j - 1]) {
        skip_ws_back(s, j - 1)
    } else {
        j
    }
}

/// `skip_ws` moves forward only, stays within bounds, passes whitespace only
/// and stops at the end or at a character that is not whitespace.
pub proof fn lemma_skip_ws(s: Seq<char>, i: int)
    requires
        0 <= i <= s.len(),
    ensures
        i <= skip_ws(s, i) <= s.len(),
        forall|k: int| i <= k < skip_ws(s, i) ==> is_whitespace_char(s[k]),
        skip_ws(s, i) < s.len() ==> !is_whitespace_char(s[skip_ws(s, i)]),
    decreases s.len() - i,
{
    if i < s.len() && is_whitespace_char(s[i]) {
        lemma_skip_ws(s, i + 1);
    }
}

/// `skip_ws_back` moves backward only, stays within bounds, passes whitespace
/// only and stops at the start or after a character that is not whitespace.
pub proof fn lemma_skip_ws_back(s: Seq<char>, j: int)
    requires
        0 <= j <= s.len(),
    ensures
        0 <= skip_ws_back(s, j) <= j,
        forall|k: int| skip_ws_back(s, j) <= k < j ==> is_whitespace_char(s[k]),
        skip_ws_back(s, j) > 0 ==> !is_whitespace_char(s[skip_ws_back(s, j) - 1]),
    decreases j,
{
    if 0 < j && is_whitespace_char(s[j - 1]) {
        lemma_skip_ws_back(s, j - 1);
    }
}

/// `s` without its leading and trailing whitespace.
pub open spec fn trim(s: Seq<char>) -> Seq<char> {
    let a = skip_ws(s, 0);
    let b = skip_ws_back(s, s.len() as int);
    if a < b {
        s.subrange(a, b)
    } else {
        Seq::empty()
    }
}

/// Every character of `s` is whitespace (true of the empty sequence).
pub open spec fn is_blank(s: Seq<char>) -> bool {
    skip_ws(s, 0) >= s.len()
}

/// A blank text is one whose characters are all whitespace, and exactly such
/// a text trims to nothing.
pub proof fn lemma_blank(s: Seq<char>)
    ensures
        is_blank(s) <==> (forall|k: int| 0 <= k < s.len() ==> is_whitespace_char(s[k])),
        is_blank(s) <==> trim(s).len() == 0,
{
    lemma_skip_ws(s, 0);
    lemma_skip_ws_back(s, s.len() as int);
    let a = skip_ws(s, 0);
    let b = skip_ws_back(s, s.len() as int);
    if a < s.len() {
        assert(!is_whitespace_char(s[a]));
        assert(a < b) by {
            if b <= a {
                assert(is_whitespace_char(s[a]));
            }
        }
    }
}

/// The index of the first character at or after `i` that is not whitespace, or `s.len()`.
pub fn skip_whitespace(s: &Vec<char>, i: usize) -> (r: usize)
    requires
        i <= s.len(),
    ensures
        r == skip_ws(s@, i as int),
        i <= r <= s.len(),
{
    let mut j: usize = i;
    while j < s.len() && char_is_whitespace(s[j])
        invariant
            i <= j <= s.len(),
            skip_ws(s@, i as int) == skip_ws(s@, j as int),
        decreases s.len() - j,
    {
        j += 1;
    }
    j
}

/// `s` without its leading and trailing whitespace.
pub fn trimmed(s: &Vec<char>) -> (r: Vec<char>)
    ensures
        r@ == trim(s@),
{
    let a = skip_whitespace(s, 0);
    let mut b: usize = s.len();
    while b > 0 && char_is_whitespace(s[b - 1])
        invariant
            b <= s.len(),
            skip_ws_back(s@, s.len() as int) == skip_ws_back(s@, b as int),
        decreases b,
    {
        b -= 1;
    }
    if a < b {
        slice_of(s, a, b)
    } else {
        Vec::new()
    }
}

/// Whether every character of `s` is whitespace.
pub fn blank(s: &Vec<char>) -> (r: bool)
    ensures
        r == is_blank(s@),
{
    skip_whitespace(s, 0) >= s.len()
}

/// `s` with every maximal run of whitespace replaced by a single space.
pub open spec fn collapse_ws(s: Seq<char>) -> Seq<char>
    decreases s.len(),
{
    if s.len() == 0 {
        s
    } else {
        let p = collapse_ws(s.drop_last());
        let c = s.last();
        if !is_whitespace_char(c) {
            p.push(c)
        } else if s.len() >= 2 && is_whitespace_char(s[s.len() - 2]) {
            p
        } else {
            p.push(' ')
        }
    }
}

/// `s` with every maximal run of whitespace replaced by a single space.
pub fn collapse_whitespace(s: &Vec<char>) -> (r: Vec<char>)
    ensures
        r@ == collapse_ws(s@),
{
    let mut r: Vec<char> = Vec::new();
    let mut prev_ws = false;
    let mut i: usize = 0;
    while i < s.len()
        invariant
            i <= s.len(),
            r@ == collapse_ws(s@.take(i as int)),
            prev_ws == (i > 0 && is_whitespace_char(s@[i - 1])),
        decreases s.len() - i,
    {
        assert(s@.take(i + 1).drop_last() == s@.take(i as int));
        let c = s[i];
        let ws = char_is_whitespace(c);
        if !ws {
            r.push(c);
        } else if !prev_ws {
            r.push(' ');
        }
        prev_ws = ws;
        i += 1;
    }
    assert(s@.take(s.len() as int) == s@);
    r
}

/// `s` with every run of three or more line feeds cut down to two.
pub open spec fn collapse_newlines(s: Seq<char>) -> Seq<char>
    decreases s.len(),
{
    if s.len() == 0 {
        s
    } else {
        let p = collapse_newlines(s.drop_last());
        let n = s.len() as int;
        if s[n - 1] == '\n' && n >= 3 && s[n - 2] == '\n' && s[n - 3] == '\n' {
            p
        } else {
            p.push(s[n - 1])
        }
    }
}

/// `s` with every run of three or more line feeds cut down to two.
pub fn collapse_blank_lines(s: &Vec<char>) -> (r: Vec<char>)
    ensures
        r@ == collapse_newlines(s@),
{
    let mut r: Vec<char> = Vec::new();
    let mut i: usize = 0;
    while i < s.len()
        invariant
            i <= s.len(),
            r@ == collapse_newlines(s@.take(i as int)),
        decreases s.len() - i,
    {
        assert(s@.take(i + 1).drop_last() == s@.take(i as int));
        let c = s[i];
        if !(c == '\n' && i >= 2 && s[i - 1] == '\n' && s[i - 2] == '\n') {
            r.push(c);
        }
        i += 1;
    }
    assert(s@.take(s.len() as int) == s@);
    r
}

/// Three line feeds in a row start at index `i` of `s`.
pub open spec fn blank_run_at(s: Seq<char>, i: int) -> bool {
    0 <= i && i + 2 < s.len() && s[i] == '\n' && s[i + 1] == '\n' && s[i + 2] == '\n'
}

/// Collapsing keeps the last character, and leaves two line feeds at the
/// end only where there were two.
pub proof fn lemma_collapse_newlines_end(s: Seq<char>)
    requires
        s.len() > 0,
    ensures
        collapse_newlines(s).len() > 0,
        collapse_newlines(s).len() <= s.len(),
        collapse_newlines(s).last() == s.last(),
        collapse_newlines(s).len() >= 2 && collapse_newlines(s)[collapse_newlines(s).len() - 2]
            == '\n' && collapse_newlines(s).last() == '\n' ==> s.len() >= 2 && s[s.len() - 2]
            == '\n',
    decreases s.len(),
{
    let init = s.drop_last();
    if s.len() > 1 {
        lemma_collapse_newlines_end(init);
        let p = collapse_newlines(init);
        assert(p.last() == s[s.len() - 2]);
    } else {
        assert(collapse_newlines(init) =~= Seq::<char>::empty());
        assert(collapse_newlines(s) =~= seq![s[0]]);
    }
}

/// What is left after collapsing holds no three line feeds in a row.
pub proof fn lemma_collapse_newlines_leaves_no_run(s: Seq<char>)
    ensures
        forall|i: int| !blank_run_at(collapse_newlines(s), i),
    decreases s.len(),
{
    if s.len() > 0 {
        let init = s.drop_last();
        lemma_collapse_newlines_leaves_no_run(init);
        let p = collapse_newlines(init);
        let out = collapse_newlines(s);
        if init.len() > 0 {
            lemma_collapse_newlines_end(init);
        }
        assert forall|i: int| !blank_run_at(out, i) by {
            if blank_run_at(out, i) {
                if out == p {
                    assert(blank_run_at(p, i));
                } else if i + 2 < p.len() {
                    assert(blank_run_at(p, i));
                } else {
                    assert(p[p.len() - 2] == '\n' && p[p.len() - 1] == '\n');
                }
            }
        }
    }
}

/// A trimmed text neither starts nor ends with whitespace.
pub proof fn lemma_trim_is_tight(s: Seq<char>)
    ensures
        trim(s).len() > 0 ==> !is_whitespace_char(trim(s)[0]) && !is_whitespace_char(
            trim(s).last(),
        ),
        trim(s).len() <= s.len(),
{
    lemma_skip_ws(s, 0);
    lemma_skip_ws_back(s, s.len() as int);
}

/// Trimming a text without three line feeds in a row leaves it so.
pub proof fn lemma_trim_keeps_no_run(s: Seq<char>)
    requires
        forall|i: int| !blank_run_at(s, i),
    ensures
        forall|i: int| !blank_run_at(trim(s), i),
{
    lemma_skip_ws(s, 0);
    lemma_skip_ws_back(s, s.len() as int);
    let a = skip_ws(s, 0);
    assert forall|i: int| !blank_run_at(trim(s), i) by {
        if blank_run_at(trim(s), i) {
            assert(blank_run_at(s, a + i));
        }
    }
}

/// `s` from index `i` on, with each occurrence of `pat` replaced by `rep`,
/// occurrences taken from the left and not overlapping.
pub open spec fn replace_from(s: Seq<char>, pat: Seq<char>, rep: Seq<char>, i: int) -> Seq<char>
    decreases s.len() - i,
{
    if i < 0 || i >= s.len() {
        Seq::empty()
    } else if pat.len() > 0 && has_prefix_at(s, i, pat) {
        rep + replace_from(s, pat, rep, i + pat.len())
    } else {
        seq![s[i]] + replace_from(s, pat, rep, i + 1)
    }
}

/// `s` with each occurrence of `pat` replaced by `rep`, occurrences taken
/// from the left and not overlapping. An empty `pat` changes nothing.
pub open spec fn replace_all(s: Seq<char>, pat: Seq<char>, rep: Seq<char>) -> Seq<char> {
    replace_from(s, pat, rep, 0)
}

/// `s` with each occurrence of `pat` replaced by `rep`.
pub fn replaced(s: &Vec<char>, pat: &Vec<char>, rep: &Vec<char>) -> (r: Vec<char>)
    ensures
        r@ == replace_all(s@, pat@, rep@),
{
    let mut r: Vec<char> = Vec::new();
    let mut i: usize = 0;
    while i < s.len()
        invariant
            i <= s.len(),
            replace_all(s@, pat@, rep@) == r@ + replace_from(s@, pat@, rep@, i as int),
        decreases s.len() - i,
    {
        if pat.len() > 0 && starts_with_at(s, i, pat) {
            push_all(&mut r, rep);
            i += pat.len();
        } else {
            r.push(s[i]);
            i += 1;
        }
    }
    r
}

/// `s` with each occurrence of the string `pat` replaced by the string `rep`.
pub fn replaced_str(s: &Vec<char>, pat: &str, rep: &str) -> (r: Vec<char>)
    ensures
        r@ == replace_all(s@, pat@, rep@),
{
    let p = to_chars(pat);
    let q = to_chars(rep);
    replaced(s, &p, &q)
}

/// The lowercase form of an ASCII capital letter; any other character unchanged.
pub open spec fn ascii_lower(c: char) -> char {
    if 'A' <= c <= 'Z' {
        ((c as u8) + 32) as char
    } else {
        c
    }
}

/// The lowercase form of an ASCII capital letter; any other character unchanged.
pub fn to_ascii_lower(c: char) -> (r: char)
    ensures
        r == ascii_lower(c),
{
    if 'A' <= c && c <= 'Z' {
        ((c as u8) + 32) as char
    } else {
        c
    }
}

/// `p` occurs in `s` at index `i` when ASCII letters are compared without
/// regard to case.
pub open spec fn has_prefix_ignore_case_at(s: Seq<char>, i: int, p: Seq<char>) -> bool {
    0 <= i && i + p.len() <= s.len() && forall|k: int|
        0 <= k < p.len() ==> ascii_lower(#[trigger] s[i + k]) == ascii_lower(p[k])
}

/// Whether `p` occurs in `s` at index `i`, ASCII letters compared without regard to case.
pub fn starts_with_ignore_case_at(s: &Vec<char>, i: usize, p: &Vec<char>) -> (r: bool)
    ensures
        r == has_prefix_ignore_case_at(s@, i as int, p@),
{
    if i > s.len() || p.len() > s.len() - i {
        return false;
    }
    let mut k: usize = 0;
    while k < p.len()
        invariant
            k <= p.len(),
            i + p.len() <= s.len(),
            forall|j: int| 0 <= j < k ==> ascii_lower(#[trigger] s@[i + j]) == ascii_lower(p@[j]),
        decreases p.len() - k,
    {
        if to_ascii_lower(s[i + k]) != to_ascii_lower(p[k]) {
            return false;
        }
        k += 1;
    }
    true
}

/// The least index `j >= i` at which `p` occurs in `s` without regard to the
/// case of ASCII letters, or `s.len()` if there is none.
pub open spec fn find_ignore_case_from(s: Seq<char>, p: Seq<char>, i: int) -> int
    decreases s.len() - i,
{
    if i < 0 || i >= s.len() {
        s.len() as int
    } else if has_prefix_ignore_case_at(s, i, p) {
        i
    } else {
        find_ignore_case_from(s, p, i + 1)
    }
}

/// `find_ignore_case_from` stays within `i..=s.len()`.
pub proof fn lemma_find_ignore_case_from(s: Seq<char>, p: Seq<char>, i: int)
    requires
        0 <= i <= s.len(),
    ensures
        i <= find_ignore_case_from(s, p, i) <= s.len(),
        find_ignore_case_from(s, p, i) < s.len() ==> has_prefix_ignore_case_at(
            s,
            find_ignore_case_from(s, p, i),
            p,
        ),
    decreases s.len() - i,
{
    if i < s.len() && !has_prefix_ignore_case_at(s, i, p) {
        lemma_find_ignore_case_from(s, p, i + 1);
    }
}

/// The least index `j >= i` at which `p` occurs in `s` without regard to the
/// case of ASCII letters, or `s.len()` if there is none.
pub fn find_ignore_case(s: &Vec<char>, p: &Vec<char>, i: usize) -> (r: usize)
    requires
        i <= s.len(),
    ensures
        r == find_ignore_case_from(s@, p@, i as int),
        i <= r <= s.len(),
{
    let mut j: usize = i;
    while j < s.len()
        invariant
            i <= j <= s.len(),
            find_ignore_case_from(s@, p@, i as int) == find_ignore_case_from(s@, p@, j as int),
        decreases s.len() - j,
    {
        if starts_with_ignore_case_at(s, j, p) {
            return j;
        }
        j += 1;
    }
    j
}

/// The decimal digit for `d`, which is below ten.
pub open spec fn digit_char(d: nat) -> char {
    (('0' as u8) + d) as char
}

/// `n` written in decimal, without leading zeros.
pub open spec fn decimal(n: nat) -> Seq<char>
    decreases n,
{
    if n < 10 {
        seq![digit_char(n)]
    } else {
        decimal(n / 10).push(digit_char(n % 10))
    }
}

/// `n` written in decimal, without leading zeros.
pub fn decimal_of(n: usize) -> (r: Vec<char>)
    ensures
        r@ == decimal(n as nat),
    decreases n,
{
    if n < 10 {
        let mut r: Vec<char> = Vec::new();
        r.push((('0' as u8) + (n as u8)) as char);
        assert(r@ =~= seq![digit_char(n as nat)]);
        r
    } else {
        let mut r = decimal_of(n / 10);
        r.push((('0' as u8) + ((n % 10) as u8)) as char);
        r
    }
}

/// A number below ten is written with one digit, any other with more.
pub proof fn lemma_decimal_len(n: nat)
    ensures
        decimal(n).len() >= 1,
        n >= 10 ==> decimal(n).len() >= 2,
        n < 10 ==> decimal(n).len() == 1,
    decreases n,
{
    if n >= 10 {
        lemma_decimal_len(n / 10);
    }
}

/// Different numbers are written differently.
pub proof fn lemma_decimal_injective(a: nat, b: nat)
    requires
        decimal(a) == decimal(b),
    ensures
        a == b,
    decreases a,
{
    lemma_decimal_len(a);
    lemma_decimal_len(b);
    if a < 10 {
        assert(decimal(a)[0] == digit_char(a));
        assert(decimal(b)[0] == digit_char(b));
    } else {
        let x = decimal(a / 10).push(digit_char(a % 10));
        let y = decimal(b / 10).push(digit_char(b % 10));
        assert(x.last() == y.last());
        assert(x.drop_last() =~= decimal(a / 10));
        assert(y.drop_last() =~= decimal(b / 10));
        lemma_decimal_injective(a / 10, b / 10);
    }
}

/// Where `c` does not occur in `s[i..j]`, and `j` is the end of `s` or
/// holds `c`, the search for `c` from `i` ends at `j`.
pub proof fn lemma_find_char_is(s: Seq<char>, c: char, i: int, j: int)
    requires
        0 <= i <= j <= s.len(),
        forall|k: int| i <= k < j ==> s[k] != c,
        j < s.len() ==> s[j] == c,
    ensures
        find_char_from(s, c, i) == j,
    decreases j - i,
{
    if i < j {
        lemma_find_char_is(s, c, i + 1, j);
    }
}

/// Where `s[i..j]` is whitespace, and `j` is the end of `s` or holds none,
/// skipping whitespace from `i` ends at `j`.
pub proof fn lemma_skip_ws_is(s: Seq<char>, i: int, j: int)
    requires
        0 <= i <= j <= s.len(),
        forall|k: int| i <= k < j ==> is_whitespace_char(s[k]),
        j < s.len() ==> !is_whitespace_char(s[j]),
    ensures
        skip_ws(s, i) == j,
    decreases j - i,
{
    if i < j {
        lemma_skip_ws_is(s, i + 1, j);
    }
}

/// Where `s[i..j]` is whitespace, and `i` is the start of `s` or follows a
/// character that is none, skipping whitespace back from `j` ends at `i`.
pub proof fn lemma_skip_ws_back_is(s: Seq<char>, i: int, j: int)
    requires
        0 <= i <= j <= s.len(),
        forall|k: int| i <= k < j ==> is_whitespace_char(s[k]),
        i > 0 ==> !is_whitespace_char(s[i - 1]),
    ensures
        skip_ws_back(s, j) == i,
    decreases j - i,
{
    if i < j {
        lemma_skip_ws_back_is(s, i, j - 1);
    }
}

/// A text without whitespace is left as it is when whitespace is collapsed.
pub proof fn lemma_collapse_ws_plain(s: Seq<char>)
    requires
        forall|k: int| 0 <= k < s.len() ==> !is_whitespace_char(s[k]),
    ensures
        collapse_ws(s) == s,
    decreases s.len(),
{
    if s.len() > 0 {
        lemma_collapse_ws_plain(s.drop_last());
        assert(s.drop_last().push(s.last()) =~= s);
    }
}

/// A text without three line feeds in a row is left as it is when line
/// feeds are collapsed.
pub proof fn lemma_collapse_newlines_plain(s: Seq<char>)
    requires
        forall|i: int| !blank_run_at(s, i),
    ensures
        collapse_newlines(s) == s,
    decreases s.len(),
{
    if s.len() > 0 {
        let init = s.drop_last();
        assert forall|i: int| !blank_run_at(init, i) by {
            if blank_run_at(init, i) {
                assert(blank_run_at(s, i));
            }
        }
        lemma_collapse_newlines_plain(init);
        assert(!blank_run_at(s, s.len() - 3));
        assert(init.push(s.last()) =~= s);
    }
}

/// A text in which `pat` does not occur is left as it is when `pat` is replaced.
pub proof fn lemma_replace_absent(s: Seq<char>, pat: Seq<char>, rep: Seq<char>, i: int)
    requires
        0 <= i <= s.len(),
        forall|k: int| i <= k < s.len() ==> !has_prefix_at(s, k, pat),
    ensures
        replace_from(s, pat, rep, i) == s.skip(i),
    decreases s.len() - i,
{
    if i < s.len() {
        lemma_replace_absent(s, pat, rep, i + 1);
        assert(seq![s[i]] + s.skip(i + 1) =~= s.skip(i));
    } else {
        assert(s.skip(i) =~= Seq::<char>::empty());
    }
}

/// A text that does not hold the first character of `pat` is left as it is
/// when `pat` is replaced.
pub proof fn lemma_replace_without_first(s: Seq<char>, pat: Seq<char>, rep: Seq<char>)
    requires
        pat.len() > 0,
        forall|k: int| 0 <= k < s.len() ==> s[k] != pat[0],
    ensures
        replace_all(s, pat, rep) == s,
{
    assert forall|k: int| 0 <= k < s.len() implies !has_prefix_at(s, k, pat) by {
        if has_prefix_at(s, k, pat) {
            assert(s.subrange(k, k + pat.len())[0] == pat[0]);
        }
    }
    lemma_replace_absent(s, pat, rep, 0);
    assert(s.skip(0) =~= s);
}

/// Where `c` stands in `s` at the indices `at`, listed in rising order,
/// and nowhere else, it occurs as often as there are indices.
pub proof fn lemma_count_char_at(s: Seq<char>, c: char, at: Seq<int>)
    requires
        forall|j: int, k: int| 0 <= j < k < at.len() ==> at[j] < at[k],
        forall|j: int| 0 <= j < at.len() ==> 0 <= #[trigger] at[j] < s.len() && s[at[j]] == c,
        forall|i: int| 0 <= i < s.len() && s[i] == c ==> at.contains(i),
    ensures
        count_char(s, c) == at.len(),
    decreases s.len(),
{
    if s.len() == 0 {
        if at.len() > 0 {
            assert(0 <= at[0] < s.len());
        }
    } else {
        let init = s.drop_last();
        let end = s.len() - 1;
        if s.last() == c {
            assert(at.contains(end));
            let k = choose|k: int| 0 <= k < at.len() && at[k] == end;
            assert(k == at.len() - 1) by {
                if k < at.len() - 1 {
                    assert(at[k] < at[at.len() - 1]);
                }
            }
            let fewer = at.drop_last();
            assert forall|j: int| 0 <= j < fewer.len() implies 0 <= #[trigger] fewer[j]
                < init.len() && init[fewer[j]] == c by {
                assert(fewer[j] == at[j]);
                assert(at[j] < at[at.len() - 1]);
            }
            assert forall|i: int| 0 <= i < init.len() && init[i] == c implies fewer.contains(
                i,
            ) by {
                assert(s[i] == c);
                let j = choose|j: int| 0 <= j < at.len() && at[j] == i;
                assert(fewer[j] == i);
            }
            lemma_count_char_at(init, c, fewer);
        } else {
            assert forall|j: int| 0 <= j < at.len() implies 0 <= #[trigger] at[j] < init.len()
                && init[at[j]] == c by {
                assert(s[at[j]] == c);
            }
            assert forall|i: int| 0 <= i < init.len() && init[i] == c implies at.contains(i) by {
                assert(s[i] == c);
            }
            lemma_count_char_at(init, c, at);
        }
    }
}

/// A text that neither starts nor ends with whitespace is left as it is
/// when it is trimmed.
pub proof fn lemma_trim_plain(s: Seq<char>)
    requires
        s.len() > 0,
        !is_whitespace_char(s[0]),
        !is_whitespace_char(s.last()),
    ensures
        trim(s) == s,
{
    lemma_skip_ws_is(s, 0, 0);
    lemma_skip_ws_back_is(s, s.len() as int, s.len() as int);
    assert(s.subrange(0, s.len() as int) =~= s);
}

} // verus!
