//! What a robots.txt names and what a sitemap document lists.

use vstd::prelude::*;
use crate::text::{
    contains_seq, ends_with, find, find_char, find_char_from, find_ignore_case,
    find_ignore_case_from, from_chars, has_prefix_ignore_case_at, has_suffix, lemma_find_char_from,
    lemma_find_ignore_case_from, slice_of, starts_with_ignore_case_at, to_chars, trim, trimmed,
    views,
};

verus! {

/// The sitemap URL that one line of a robots.txt names, if it names one: the
/// line, trimmed, starts with `sitemap:` in any case, and what follows is
/// not blank.
pub open spec fn sitemap_directive(line: Seq<char>) -> Option<Seq<char>> {
    let t = trim(line);
    let key = "sitemap:"@;
    if has_prefix_ignore_case_at(t, 0, key) {
        let value = trim(t.skip(key.len() as int));
        if value.len() > 0 {
            Some(value)
        } else {
            None
        }
    } else {
        None
    }
}

/// The sitemap URLs named by the lines of `s` that start at index `i` or later,
/// in order. `i` is the start of a line.
pub open spec fn robots_sitemaps_from(s: Seq<char>, i: int) -> Seq<Seq<char>>
    decreases s.len() - i,
{
    if i < 0 || i >= s.len() {
        Seq::empty()
    } else {
        let e = find_char_from(s, '\n', i);
        proof {
            lemma_find_char_from(s, '\n', i);
        }
        let rest = if e >= s.len() {
            Seq::empty()
        } else {
            robots_sitemaps_from(s, e + 1)
        };
        match sitemap_directive(s.subrange(i, e)) {
            Some(v) => seq![v] + rest,
            None => rest,
        }
    }
}

/// The sitemap URLs that a robots.txt body names, in line order.
pub open spec fn robots_sitemaps(body: Seq<char>) -> Seq<Seq<char>> {
    robots_sitemaps_from(body, 0)
}

/// The sitemap URLs that a robots.txt body names, in line order.
pub fn parse_robots(body: &str) -> (r: Vec<String>)
    ensures
        views(r@) == robots_sitemaps(body@),
{
    let s = to_chars(body);
    let key = to_chars("sitemap:");
    let mut r: Vec<String> = Vec::new();
    let mut i: usize = 0;
    while i < s.len()
        invariant
            i <= s.len(),
            key@ == "sitemap:"@,
            robots_sitemaps(s@) == views(r@) + robots_sitemaps_from(s@, i as int),
        decreases s.len() - i,
    {
        let e = find_char(&s, '\n', i);
        let line = slice_of(&s, i, e);
        let t = trimmed(&line);
        let ghost before = views(r@);
        if starts_with_ignore_case_at(&t, 0, &key) {
            let rest = slice_of(&t, key.len(), t.len());
            assert(rest@ == t@.skip(key@.len() as int));
            let value = trimmed(&rest);
            if value.len() > 0 {
                let url = from_chars(&value);
                r.push(url);
                assert(views(r@) == before + seq![value@]);
            }
        }
        assert(robots_sitemaps_from(s@, s@.len() as int) == Seq::<Seq<char>>::empty());
        if e < s.len() {
            i = e + 1;
        } else {
            i = e;
        }
    }
    r
}

/// The texts between `<loc ...>` and `</loc>` in `s` from index `i` on,
/// trimmed, blank ones left out, in document order. Tag names are matched
/// without regard to the case of ASCII letters. An opening that is not
/// closed ends the scan.
pub open spec fn sitemap_locs_from(s: Seq<char>, i: int) -> Seq<Seq<char>>
    decreases s.len() - i,
{
    if i < 0 || i >= s.len() {
        Seq::empty()
    } else {
        let start = find_ignore_case_from(s, "<loc"@, i);
        let gt = find_char_from(s, '>', start);
        let ce = find_ignore_case_from(s, "</loc>"@, gt + 1);
        if start >= s.len() || gt >= s.len() || ce >= s.len() {
            Seq::empty()
        } else {
            proof {
                lemma_find_ignore_case_from(s, "<loc"@, i);
                lemma_find_char_from(s, '>', start);
                lemma_find_ignore_case_from(s, "</loc>"@, gt + 1);
            }
            let text = trim(s.subrange(gt + 1, ce));
            let rest = sitemap_locs_from(s, ce + 1);
            if text.len() > 0 {
                seq![text] + rest
            } else {
                rest
            }
        }
    }
}

/// The URLs that a sitemap document lists, in document order.
pub open spec fn sitemap_locs(body: Seq<char>) -> Seq<Seq<char>> {
    sitemap_locs_from(body, 0)
}

/// The URLs that a sitemap document lists, in document order.
pub fn extract_locs(body: &str) -> (r: Vec<String>)
    ensures
        views(r@) == sitemap_locs(body@),
{
    let s = to_chars(body);
    let open = to_chars("<loc");
    let close = to_chars("</loc>");
    let mut r: Vec<String> = Vec::new();
    let mut i: usize = 0;
    while i < s.len()
        invariant
            i <= s.len(),
            open@ == "<loc"@,
            close@ == "</loc>"@,
            sitemap_locs(s@) == views(r@) + sitemap_locs_from(s@, i as int),
        decreases s.len() - i,
    {
        let start = find_ignore_case(&s, &open, i);
        let gt = find_char(&s, '>', start);
        let ce = if gt < s.len() {
            find_ignore_case(&s, &close, gt + 1)
        } else {
            s.len()
        };
        assert(sitemap_locs_from(s@, s@.len() as int) == Seq::<Seq<char>>::empty());
        if start >= s.len() || gt >= s.len() || ce >= s.len() {
            i = s.len();
        } else {
            let inner = slice_of(&s, gt + 1, ce);
            let text = trimmed(&inner);
            let ghost before = views(r@);
            if text.len() > 0 {
                let url = from_chars(&text);
                r.push(url);
                assert(views(r@) == before + seq![text@]);
            }
            i = ce + 1;
        }
    }
    r
}

/// Whether a listed URL points to a further sitemap rather than to a page:
/// it ends with `.xml` or holds `.xml?`.
pub open spec fn is_sitemap_index(url: Seq<char>) -> bool {
    has_suffix(url, ".xml"@) || contains_seq(url, ".xml?"@)
}

/// Whether a listed URL points to a further sitemap rather than to a page.
pub fn is_sitemap_index_url(url: &str) -> (r: bool)
    ensures
        r == is_sitemap_index(url@),
{
    let u = to_chars(url);
    let suffix = to_chars(".xml");
    let query = to_chars(".xml?");
    ends_with(&u, &suffix) || find(&u, &query, 0) < u.len()
}

} // verus!
