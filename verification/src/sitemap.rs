//! The walk over nested sitemap indices, as mathematics and as a machine
//! that asks for one document at a time.

use vstd::prelude::*;
use crate::errors::{CrawlerError, DiscoveryError, ValidationError};
use crate::robots::{
    extract_locs, is_sitemap_index, is_sitemap_index_url, parse_robots, robots_sitemaps,
    sitemap_locs,
};
use crate::text::{
    clone_strings, contains_string, has_prefix_at, starts_with_at, to_chars, views,
};
use crate::urls::{join_url, url_error_text, url_join};

verus! {

/// The body that `web` answers with for `url`, if it answers.
pub open spec fn lookup(web: Map<Seq<char>, Seq<char>>, url: Seq<char>) -> Option<Seq<char>> {
    if web.dom().contains(url) {
        Some(web[url])
    } else {
        None
    }
}

/// The listed URLs that point to pages, in order.
pub open spec fn page_urls(locs: Seq<Seq<char>>) -> Seq<Seq<char>>
    decreases locs.len(),
{
    if locs.len() == 0 {
        Seq::empty()
    } else if is_sitemap_index(locs[0]) {
        page_urls(locs.drop_first())
    } else {
        seq![locs[0]] + page_urls(locs.drop_first())
    }
}

/// The listed URLs that point to further sitemaps, in order.
pub open spec fn index_urls(locs: Seq<Seq<char>>) -> Seq<Seq<char>>
    decreases locs.len(),
{
    if locs.len() == 0 {
        Seq::empty()
    } else if is_sitemap_index(locs[0]) {
        seq![locs[0]] + index_urls(locs.drop_first())
    } else {
        index_urls(locs.drop_first())
    }
}

/// What expanding sitemaps yields: the page URLs in discovery order, the
/// sitemap URLs expanded so far, and how many documents were asked for.
pub struct Expansion {
    pub pages: Seq<Seq<char>>,
    pub visited: Seq<Seq<char>>,
    pub fetches: nat,
}

/// An expansion that adds nothing to `visited`.
pub open spec fn nothing(visited: Seq<Seq<char>>) -> Expansion {
    Expansion { pages: Seq::empty(), visited, fetches: 0 }
}

/// One expansion followed by another that started from where the first ended.
pub open spec fn then(a: Expansion, b: Expansion) -> Expansion {
    Expansion { pages: a.pages + b.pages, visited: b.visited, fetches: a.fetches + b.fetches }
}

/// Expands the sitemap at `url`, found at nesting level `depth`: nothing if
/// it was expanded before or lies deeper than `max_depth`; otherwise the
/// URL counts as visited, and if its document can be had, the pages it
/// lists come first and the expansions of the sitemaps it lists follow.
pub open spec fn expand(
    web: Map<Seq<char>, Seq<char>>,
    url: Seq<char>,
    depth: nat,
    max_depth: nat,
    visited: Seq<Seq<char>>,
) -> Expansion
    decreases max_depth + 1 - depth, 1nat, 0nat,
{
    if visited.contains(url) || depth > max_depth {
        nothing(visited)
    } else {
        let e = after_fetch(web, lookup(web, url), depth, max_depth, visited.push(url));
        Expansion { pages: e.pages, visited: e.visited, fetches: e.fetches + 1 }
    }
}

/// What the document `body`, asked for at nesting level `depth`, adds: its
/// pages, then the expansions of the sitemaps it lists, one level deeper.
/// A document that could not be had adds nothing.
pub open spec fn after_fetch(
    web: Map<Seq<char>, Seq<char>>,
    body: Option<Seq<char>>,
    depth: nat,
    max_depth: nat,
    visited: Seq<Seq<char>>,
) -> Expansion
    decreases max_depth + 1 - depth, 0nat, 0nat,
{
    match body {
        None => nothing(visited),
        Some(b) => {
            let locs = sitemap_locs(b);
            let own = Expansion { pages: page_urls(locs), visited, fetches: 0 };
            if depth < max_depth {
                then(own, expand_all(web, index_urls(locs), depth + 1, max_depth, visited))
            } else {
                own
            }
        },
    }
}

/// Expands the sitemaps at `urls` one after the other, all at nesting level
/// `depth`, each starting from what the one before it left as visited.
pub open spec fn expand_all(
    web: Map<Seq<char>, Seq<char>>,
    urls: Seq<Seq<char>>,
    depth: nat,
    max_depth: nat,
    visited: Seq<Seq<char>>,
) -> Expansion
    decreases max_depth + 1 - depth, 2nat, urls.len(),
{
    if urls.len() == 0 {
        nothing(visited)
    } else {
        let first = expand(web, urls[0], depth, max_depth, visited);
        then(first, expand_all(web, urls.drop_first(), depth, max_depth, first.visited))
    }
}

/// The first `max` distinct URLs of `pages`, in order of first appearance.
pub open spec fn frontier(pages: Seq<Seq<char>>, max: nat) -> Seq<Seq<char>>
    decreases pages.len(),
{
    if pages.len() == 0 {
        Seq::empty()
    } else {
        let f = frontier(pages.drop_last(), max);
        if f.len() < max && !f.contains(pages.last()) {
            f.push(pages.last())
        } else {
            f
        }
    }
}

/// Whether the frontier leaves out a page for want of room: some URL of
/// `pages` came when the frontier was full and did not hold it.
pub open spec fn truncated(pages: Seq<Seq<char>>, max: nat) -> bool
    decreases pages.len(),
{
    if pages.len() == 0 {
        false
    } else {
        let f = frontier(pages.drop_last(), max);
        truncated(pages.drop_last(), max) || (f.len() >= max && !f.contains(pages.last()))
    }
}

/// The sitemaps to start from: those that robots.txt names, or the site's
/// own sitemap.xml where robots.txt cannot be had or names none.
pub open spec fn candidates(
    web: Map<Seq<char>, Seq<char>>,
    robots_url: Seq<char>,
    sitemap_url: Seq<char>,
) -> Seq<Seq<char>> {
    match lookup(web, robots_url) {
        Some(b) => if robots_sitemaps(b).len() > 0 {
            robots_sitemaps(b)
        } else {
            seq![sitemap_url]
        },
        None => seq![sitemap_url],
    }
}

/// Whether discovery fell back to the site's own sitemap.xml.
pub open spec fn fell_back(web: Map<Seq<char>, Seq<char>>, robots_url: Seq<char>) -> bool {
    match lookup(web, robots_url) {
        Some(b) => robots_sitemaps(b).len() == 0,
        None => true,
    }
}

/// Every page URL that discovery comes across, in discovery order.
pub open spec fn discovered(
    web: Map<Seq<char>, Seq<char>>,
    robots_url: Seq<char>,
    sitemap_url: Seq<char>,
    max_depth: nat,
) -> Seq<Seq<char>> {
    expand_all(web, candidates(web, robots_url, sitemap_url), 0, max_depth, Seq::empty()).pages
}

/// The frontier of a site: the first `max_urls` distinct pages discovered,
/// or `NoSitemapFound` where discovery fell back to sitemap.xml and that
/// led to no page either.
pub open spec fn discover(
    web: Map<Seq<char>, Seq<char>>,
    robots_url: Seq<char>,
    sitemap_url: Seq<char>,
    max_depth: nat,
    max_urls: nat,
) -> Result<Seq<Seq<char>>, DiscoveryError> {
    let pages = discovered(web, robots_url, sitemap_url, max_depth);
    if fell_back(web, robots_url) && pages.len() == 0 {
        Err(DiscoveryError::NoSitemapFound)
    } else {
        Ok(frontier(pages, max_urls))
    }
}

/// A frontier never holds more than `max` URLs, holds none twice, and holds
/// only URLs of `pages`.
pub proof fn lemma_frontier_bounded(pages: Seq<Seq<char>>, max: nat)
    ensures
        frontier(pages, max).len() <= max,
        frontier(pages, max).len() <= pages.len(),
        frontier(pages, max).no_duplicates(),
        forall|u: Seq<char>| frontier(pages, max).contains(u) ==> pages.contains(u),
    decreases pages.len(),
{
    if pages.len() > 0 {
        let init = pages.drop_last();
        lemma_frontier_bounded(init, max);
        let f = frontier(init, max);
        assert forall|u: Seq<char>| frontier(pages, max).contains(u) implies pages.contains(u) by {
            if f.contains(u) {
                assert(init.contains(u));
                let k = choose|k: int| 0 <= k < init.len() && init[k] == u;
                assert(pages[k] == u);
            } else {
                assert(u == pages.last());
                assert(pages[pages.len() - 1] == u);
            }
        }
    }
}

/// A frontier that leaves out a page for want of room is full.
pub proof fn lemma_truncated_is_full(pages: Seq<Seq<char>>, max: nat)
    requires
        truncated(pages, max),
    ensures
        frontier(pages, max).len() >= max,
    decreases pages.len(),
{
    if truncated(pages.drop_last(), max) {
        lemma_truncated_is_full(pages.drop_last(), max);
    }
}

/// A frontier is truncated exactly when some page that was discovered is
/// not in it.
pub proof fn lemma_truncated_means_dropped(pages: Seq<Seq<char>>, max: nat)
    ensures
        truncated(pages, max) <==> exists|i: int|
            0 <= i < pages.len() && !frontier(pages, max).contains(#[trigger] pages[i]),
    decreases pages.len(),
{
    if pages.len() > 0 {
        let init = pages.drop_last();
        let f = frontier(init, max);
        let whole = frontier(pages, max);
        let last = pages.last();
        lemma_truncated_means_dropped(init, max);
        assert forall|u: Seq<char>| f.contains(u) implies whole.contains(u) by {
            let k = choose|k: int| 0 <= k < f.len() && f[k] == u;
            assert(whole[k] == u);
        }
        if truncated(pages, max) {
            if truncated(init, max) {
                lemma_truncated_is_full(init, max);
                let i = choose|i: int| 0 <= i < init.len() && !f.contains(#[trigger] init[i]);
                assert(pages[i] == init[i]);
                assert(whole == f);
            } else {
                assert(whole == f);
                assert(pages[pages.len() - 1] == last);
            }
        }
        if exists|i: int| 0 <= i < pages.len() && !whole.contains(#[trigger] pages[i]) {
            let i = choose|i: int| 0 <= i < pages.len() && !whole.contains(#[trigger] pages[i]);
            if i == pages.len() - 1 {
                if f.len() < max && !f.contains(last) {
                    assert(whole[whole.len() - 1] == last);
                }
            } else {
                assert(init[i] == pages[i]);
                assert(!f.contains(init[i]));
            }
        }
    }
}

/// Where no URL occurs twice and all fit, the frontier is the list itself.
pub proof fn lemma_frontier_of_distinct(pages: Seq<Seq<char>>, max: nat)
    requires
        pages.no_duplicates(),
        pages.len() <= max,
    ensures
        frontier(pages, max) == pages,
    decreases pages.len(),
{
    if pages.len() > 0 {
        let init = pages.drop_last();
        lemma_frontier_of_distinct(init, max);
        assert(!init.contains(pages.last()));
        assert(init.push(pages.last()) == pages);
    }
}

/// Sitemaps that lie deeper than `max_depth` expand to nothing.
pub proof fn lemma_expand_all_too_deep(
    web: Map<Seq<char>, Seq<char>>,
    urls: Seq<Seq<char>>,
    depth: nat,
    max_depth: nat,
    visited: Seq<Seq<char>>,
)
    requires
        depth > max_depth,
    ensures
        expand_all(web, urls, depth, max_depth, visited) == nothing(visited),
    decreases urls.len(),
{
    if urls.len() > 0 {
        lemma_expand_all_too_deep(web, urls.drop_first(), depth, max_depth, visited);
        assert(expand(web, urls[0], depth, max_depth, visited) == nothing(visited));
        assert(Seq::<Seq<char>>::empty() + Seq::<Seq<char>>::empty() =~= Seq::<Seq<char>>::empty());
    }
}

/// Where a listing holds no sitemap index, its pages are the listing itself.
pub proof fn lemma_pages_only(locs: Seq<Seq<char>>)
    requires
        forall|i: int| 0 <= i < locs.len() ==> !is_sitemap_index(#[trigger] locs[i]),
    ensures
        page_urls(locs) == locs,
        index_urls(locs) == Seq::<Seq<char>>::empty(),
    decreases locs.len(),
{
    if locs.len() > 0 {
        let rest = locs.drop_first();
        assert forall|i: int| 0 <= i < rest.len() implies !is_sitemap_index(#[trigger] rest[i]) by {
            assert(rest[i] == locs[i + 1]);
        }
        lemma_pages_only(rest);
        assert(seq![locs[0]] + rest == locs);
    }
}

/// A sitemap that lists pages only, none of them twice and no more than
/// fit, gives exactly those pages as the frontier, in document order. It is
/// the one sitemap that discovery starts from, be it named by robots.txt or
/// the site's own sitemap.xml.
pub proof fn lemma_flat_sitemap(
    web: Map<Seq<char>, Seq<char>>,
    robots_url: Seq<char>,
    sitemap_url: Seq<char>,
    max_depth: nat,
    max_urls: nat,
    sitemap: Seq<char>,
)
    requires
        candidates(web, robots_url, sitemap_url) == seq![sitemap],
        lookup(web, sitemap) is Some,
        forall|i: int|
            0 <= i < sitemap_locs(web[sitemap]).len() ==> !is_sitemap_index(
                #[trigger] sitemap_locs(web[sitemap])[i],
            ),
        sitemap_locs(web[sitemap]).no_duplicates(),
        sitemap_locs(web[sitemap]).len() <= max_urls,
        sitemap_locs(web[sitemap]).len() > 0 || !fell_back(web, robots_url),
    ensures
        discover(web, robots_url, sitemap_url, max_depth, max_urls) == Ok::<
            Seq<Seq<char>>,
            DiscoveryError,
        >(sitemap_locs(web[sitemap])),
{
    let locs = sitemap_locs(web[sitemap]);
    let urls = seq![sitemap];
    let none = Seq::<Seq<char>>::empty();
    lemma_pages_only(locs);
    lemma_frontier_of_distinct(locs, max_urls);
    assert(urls.drop_first() =~= none);
    let seen = none.push(sitemap);
    if 0 < max_depth {
        assert(expand_all(web, none, 1, max_depth, seen) == nothing(seen));
    }
    let first = expand(web, sitemap, 0, max_depth, none);
    assert(first.pages =~= locs) by {
        assert(locs + none =~= locs);
    }
    assert(expand_all(web, urls.drop_first(), 0, max_depth, first.visited) == nothing(
        first.visited,
    ));
    assert(expand_all(web, urls, 0, max_depth, none).pages =~= locs) by {
        assert(locs + none =~= locs);
    }
}

/// A sitemap that was expanded before expands to nothing.
pub proof fn lemma_revisit_is_empty(
    web: Map<Seq<char>, Seq<char>>,
    url: Seq<char>,
    depth: nat,
    max_depth: nat,
    visited: Seq<Seq<char>>,
)
    requires
        visited.contains(url),
    ensures
        expand(web, url, depth, max_depth, visited) == nothing(visited),
{
}

/// No sitemap is asked for twice: an expansion visits each sitemap it asks
/// for for the first time, so what it leaves as visited is what it started
/// from, followed by as many new URLs as it asked for documents, none of
/// them twice.
pub proof fn lemma_expand_visits_once(
    web: Map<Seq<char>, Seq<char>>,
    url: Seq<char>,
    depth: nat,
    max_depth: nat,
    visited: Seq<Seq<char>>,
)
    requires
        visited.no_duplicates(),
    ensures
        expand(web, url, depth, max_depth, visited).visited.no_duplicates(),
        expand(web, url, depth, max_depth, visited).visited.len() == visited.len() + expand(
            web,
            url,
            depth,
            max_depth,
            visited,
        ).fetches,
        visited.is_prefix_of(expand(web, url, depth, max_depth, visited).visited),
    decreases max_depth + 1 - depth, 1nat, 0nat,
{
    if !(visited.contains(url) || depth > max_depth) {
        let seen = visited.push(url);
        assert(seen.no_duplicates());
        assert(visited.is_prefix_of(seen));
        match lookup(web, url) {
            None => {},
            Some(b) => {
                if depth < max_depth {
                    lemma_expand_all_visits_once(
                        web,
                        index_urls(sitemap_locs(b)),
                        depth + 1,
                        max_depth,
                        seen,
                    );
                }
            },
        }
    }
}

/// No sitemap is asked for twice, for a list of sitemaps expanded in turn.
pub proof fn lemma_expand_all_visits_once(
    web: Map<Seq<char>, Seq<char>>,
    urls: Seq<Seq<char>>,
    depth: nat,
    max_depth: nat,
    visited: Seq<Seq<char>>,
)
    requires
        visited.no_duplicates(),
    ensures
        expand_all(web, urls, depth, max_depth, visited).visited.no_duplicates(),
        expand_all(web, urls, depth, max_depth, visited).visited.len() == visited.len()
            + expand_all(web, urls, depth, max_depth, visited).fetches,
        visited.is_prefix_of(expand_all(web, urls, depth, max_depth, visited).visited),
    decreases max_depth + 1 - depth, 2nat, urls.len(),
{
    if urls.len() > 0 {
        lemma_expand_visits_once(web, urls[0], depth, max_depth, visited);
        let first = expand(web, urls[0], depth, max_depth, visited);
        lemma_expand_all_visits_once(web, urls.drop_first(), depth, max_depth, first.visited);
    }
}

/// A sitemap index that lists itself is asked for once and yields its own
/// pages only.
pub proof fn lemma_self_reference(
    web: Map<Seq<char>, Seq<char>>,
    url: Seq<char>,
    depth: nat,
    max_depth: nat,
    visited: Seq<Seq<char>>,
)
    requires
        !visited.contains(url),
        depth <= max_depth,
        lookup(web, url) is Some,
        index_urls(sitemap_locs(web[url])) == seq![url],
    ensures
        expand(web, url, depth, max_depth, visited) == (Expansion {
            pages: page_urls(sitemap_locs(web[url])),
            visited: visited.push(url),
            fetches: 1,
        }),
{
    let seen = visited.push(url);
    let own = page_urls(sitemap_locs(web[url]));
    assert(seen[seen.len() - 1] == url);
    if depth < max_depth {
        let urls = seq![url];
        assert(urls.drop_first() =~= Seq::<Seq<char>>::empty());
        assert(expand(web, url, depth + 1, max_depth, seen) == nothing(seen));
        assert(expand_all(web, urls.drop_first(), depth + 1, max_depth, seen) == nothing(seen));
        assert(expand_all(web, urls, depth + 1, max_depth, seen).pages =~= Seq::<
            Seq<char>,
        >::empty());
        assert(own + Seq::<Seq<char>>::empty() =~= own);
    }
}

/// Two sitemap indices that list each other are each asked for once, and
/// yield the pages of the first followed by the pages of the second.
pub proof fn lemma_mutual_reference(
    web: Map<Seq<char>, Seq<char>>,
    a: Seq<char>,
    b: Seq<char>,
    depth: nat,
    max_depth: nat,
    visited: Seq<Seq<char>>,
)
    requires
        a != b,
        !visited.contains(a),
        !visited.contains(b),
        depth < max_depth,
        lookup(web, a) is Some,
        lookup(web, b) is Some,
        index_urls(sitemap_locs(web[a])) == seq![b],
        index_urls(sitemap_locs(web[b])) == seq![a],
    ensures
        expand(web, a, depth, max_depth, visited) == (Expansion {
            pages: page_urls(sitemap_locs(web[a])) + page_urls(sitemap_locs(web[b])),
            visited: visited.push(a).push(b),
            fetches: 2,
        }),
{
    let none = Seq::<Seq<char>>::empty();
    let seen_a = visited.push(a);
    let seen_ab = seen_a.push(b);
    let pages_a = page_urls(sitemap_locs(web[a]));
    let pages_b = page_urls(sitemap_locs(web[b]));
    assert(seen_a[seen_a.len() - 1] == a);
    assert(seen_ab[seen_ab.len() - 2] == a);
    assert(!seen_a.contains(b));
    let only_a = seq![a];
    let only_b = seq![b];
    assert(only_a.drop_first() =~= none);
    assert(only_b.drop_first() =~= none);
    // the second sitemap, one level down
    let second = expand(web, b, depth + 1, max_depth, seen_a);
    if depth + 1 < max_depth {
        assert(expand(web, a, depth + 2, max_depth, seen_ab) == nothing(seen_ab));
        assert(expand_all(web, only_a.drop_first(), depth + 2, max_depth, seen_ab) == nothing(
            seen_ab,
        ));
        assert(expand_all(web, only_a, depth + 2, max_depth, seen_ab).pages =~= none);
        assert(pages_b + none =~= pages_b);
    }
    assert(second.pages =~= pages_b);
    assert(second.visited == seen_ab);
    assert(second.fetches == 1);
    assert(expand_all(web, only_b.drop_first(), depth + 1, max_depth, seen_ab) == nothing(
        seen_ab,
    ));
    assert(expand_all(web, only_b, depth + 1, max_depth, seen_a).pages =~= pages_b) by {
        assert(pages_b + none =~= pages_b);
    }
}

/// The page lists `pages[from..to]` one after the other.
pub open spec fn concat_pages(pages: Seq<Seq<Seq<char>>>, from: nat, to: nat) -> Seq<Seq<char>>
    decreases to - from,
{
    if from >= to || to > pages.len() {
        Seq::empty()
    } else {
        pages[from as int] + concat_pages(pages, from + 1, to)
    }
}

/// A chain of sitemap indices: `urls[i]` answers with a document that lists
/// the pages `pages[i]` and, unless it is the last, the one sitemap
/// `urls[i + 1]`.
pub open spec fn is_chain(
    web: Map<Seq<char>, Seq<char>>,
    urls: Seq<Seq<char>>,
    pages: Seq<Seq<Seq<char>>>,
) -> bool {
    &&& urls.no_duplicates()
    &&& pages.len() == urls.len()
    &&& forall|i: int|
        0 <= i < urls.len() ==> {
            &&& lookup(web, #[trigger] urls[i]) is Some
            &&& page_urls(sitemap_locs(web[urls[i]])) == pages[i]
            &&& index_urls(sitemap_locs(web[urls[i]])) == if i + 1 < urls.len() {
                seq![urls[i + 1]]
            } else {
                Seq::<Seq<char>>::empty()
            }
        }
}

/// In a chain of sitemap indices longer than the depth allowed, expanding
/// link `i` at nesting level `i` yields the pages of the links from `i` to
/// `max_depth`, and nothing from deeper down.
pub proof fn lemma_chain_from(
    web: Map<Seq<char>, Seq<char>>,
    urls: Seq<Seq<char>>,
    pages: Seq<Seq<Seq<char>>>,
    max_depth: nat,
    i: nat,
)
    requires
        is_chain(web, urls, pages),
        max_depth < urls.len(),
        i <= max_depth,
    ensures
        expand(web, urls[i as int], i, max_depth, urls.take(i as int)).pages == concat_pages(
            pages,
            i,
            max_depth + 1,
        ),
        expand(web, urls[i as int], i, max_depth, urls.take(i as int)).fetches == max_depth + 1
            - i,
    decreases max_depth - i,
{
    let none = Seq::<Seq<char>>::empty();
    let visited = urls.take(i as int);
    let url = urls[i as int];
    assert(!visited.contains(url)) by {
        if visited.contains(url) {
            let k = choose|k: int| 0 <= k < visited.len() && visited[k] == url;
            assert(urls[k] == urls[i as int]);
        }
    }
    let seen = visited.push(url);
    assert(seen =~= urls.take(i as int + 1));
    assert(concat_pages(pages, max_depth + 1, max_depth + 1) =~= none);
    if i < max_depth {
        lemma_chain_from(web, urls, pages, max_depth, i + 1);
        let next = seq![urls[i as int + 1]];
        assert(next.drop_first() =~= none);
        let deeper = expand(web, urls[i as int + 1], i + 1, max_depth, seen);
        assert(expand_all(web, next.drop_first(), i + 1, max_depth, deeper.visited) == nothing(
            deeper.visited,
        ));
        assert(deeper.pages + none =~= deeper.pages);
        assert(expand_all(web, next, i + 1, max_depth, seen).pages =~= deeper.pages);
    } else {
        assert(pages[i as int] + none =~= pages[i as int]);
    }
}

/// A chain of sitemap indices longer than the depth allowed yields the
/// pages of its first `max_depth + 1` links, in order, and no error comes
/// of the cut: the frontier is made of those pages.
pub proof fn lemma_chain(
    web: Map<Seq<char>, Seq<char>>,
    robots_url: Seq<char>,
    sitemap_url: Seq<char>,
    urls: Seq<Seq<char>>,
    pages: Seq<Seq<Seq<char>>>,
    max_depth: nat,
    max_urls: nat,
)
    requires
        is_chain(web, urls, pages),
        max_depth < urls.len(),
        candidates(web, robots_url, sitemap_url) == seq![urls[0]],
        pages[0].len() > 0,
    ensures
        discover(web, robots_url, sitemap_url, max_depth, max_urls) == Ok::<
            Seq<Seq<char>>,
            DiscoveryError,
        >(frontier(concat_pages(pages, 0, max_depth + 1), max_urls)),
{
    let none = Seq::<Seq<char>>::empty();
    lemma_chain_from(web, urls, pages, max_depth, 0);
    assert(urls.take(0) =~= none);
    let start = seq![urls[0]];
    assert(start.drop_first() =~= none);
    let first = expand(web, urls[0], 0, max_depth, none);
    assert(expand_all(web, start.drop_first(), 0, max_depth, first.visited) == nothing(
        first.visited,
    ));
    assert(first.pages + none =~= first.pages);
    assert(expand_all(web, start, 0, max_depth, none).pages =~= first.pages);
    assert(first.pages.len() > 0) by {
        assert(first.pages == pages[0] + concat_pages(pages, 1, max_depth + 1));
    }
}

/// Where a sitemap walk stands.
#[derive(Debug, Clone, Copy, PartialEq, Eq, Structural)]
pub enum ResolverPhase {
    /// Nothing was asked for yet.
    Idle,
    /// robots.txt was asked for.
    Robots,
    /// A sitemap document was asked for.
    Expanding,
    /// The walk is over.
    Finished,
}

/// The state of a sitemap walk.
pub struct ResolverState {
    pub phase: ResolverPhase,
    pub robots_url: Seq<char>,
    pub sitemap_url: Seq<char>,
    pub max_depth: nat,
    pub max_urls: nat,
    /// Whether the walk started from the site's own sitemap.xml.
    pub fallback: bool,
    /// The sitemap URLs expanded so far.
    pub visited: Seq<Seq<char>>,
    /// The sitemaps still to expand, with their nesting levels; the last is next.
    pub stack: Seq<(Seq<char>, nat)>,
    /// Every page URL discovered so far, in discovery order.
    pub pages: Seq<Seq<char>>,
    /// The sitemap that was asked for, and its nesting level.
    pub current: (Seq<char>, nat),
}

/// What is handed to a walk.
pub enum ResolverInput {
    /// The request to begin.
    Start,
    /// The body of the document last asked for, or `None` if it could not be had.
    Fetched(Option<Seq<char>>),
}

/// What a walk asks for, or what it ends with.
pub enum ResolverOutput {
    /// Fetch the document at this URL and hand back its body.
    Fetch(Seq<char>),
    /// The frontier, or the reason why there is none.
    Done(Result<Seq<Seq<char>>, DiscoveryError>),
}

/// `urls` as stack entries at nesting level `depth`, so that the first URL ends up on top.
pub open spec fn entries_rev(urls: Seq<Seq<char>>, depth: nat) -> Seq<(Seq<char>, nat)>
    decreases urls.len(),
{
    if urls.len() == 0 {
        Seq::empty()
    } else {
        entries_rev(urls.drop_first(), depth).push((urls[0], depth))
    }
}

/// The state before anything was asked for.
pub open spec fn initial_state(
    robots_url: Seq<char>,
    sitemap_url: Seq<char>,
    max_depth: nat,
    max_urls: nat,
) -> ResolverState {
    ResolverState {
        phase: ResolverPhase::Idle,
        robots_url,
        sitemap_url,
        max_depth,
        max_urls,
        fallback: false,
        visited: Seq::empty(),
        stack: Seq::empty(),
        pages: Seq::empty(),
        current: (Seq::empty(), 0),
    }
}

/// The state once robots.txt has answered: the sitemaps it names wait on
/// the stack, or the site's own sitemap.xml where it names none.
pub open spec fn with_robots(st: ResolverState, body: Option<Seq<char>>) -> ResolverState {
    let named = match body {
        Some(b) => robots_sitemaps(b),
        None => Seq::empty(),
    };
    if named.len() > 0 {
        ResolverState { stack: entries_rev(named, 0), fallback: false, ..st }
    } else {
        ResolverState { stack: seq![(st.sitemap_url, 0nat)], fallback: true, ..st }
    }
}

/// The state once the current sitemap has answered: its pages are
/// discovered, and the sitemaps it lists wait on the stack, one level
/// deeper, unless that would be deeper than allowed.
pub open spec fn with_document(st: ResolverState, body: Option<Seq<char>>) -> ResolverState {
    match body {
        None => st,
        Some(b) => {
            let locs = sitemap_locs(b);
            ResolverState {
                pages: st.pages + page_urls(locs),
                stack: if st.current.1 < st.max_depth {
                    st.stack + entries_rev(index_urls(locs), st.current.1 + 1)
                } else {
                    st.stack
                },
                ..st
            }
        },
    }
}

/// Takes sitemaps off the stack until one is neither visited nor too deep,
/// and makes it the current one; the walk is finished if none is left.
pub open spec fn advance(st: ResolverState) -> ResolverState
    decreases st.stack.len(),
{
    if st.stack.len() == 0 {
        ResolverState { phase: ResolverPhase::Finished, ..st }
    } else {
        let top = st.stack.last();
        let rest = st.stack.drop_last();
        if st.visited.contains(top.0) || top.1 > st.max_depth {
            advance(ResolverState { stack: rest, ..st })
        } else {
            ResolverState {
                phase: ResolverPhase::Expanding,
                stack: rest,
                visited: st.visited.push(top.0),
                current: top,
                ..st
            }
        }
    }
}

/// The state that follows `st` on `input`. An input that does not fit the
/// phase changes nothing.
pub open spec fn next_state(st: ResolverState, input: ResolverInput) -> ResolverState {
    match st.phase {
        ResolverPhase::Idle => ResolverState { phase: ResolverPhase::Robots, ..st },
        ResolverPhase::Robots => match input {
            ResolverInput::Fetched(body) => advance(with_robots(st, body)),
            ResolverInput::Start => st,
        },
        ResolverPhase::Expanding => match input {
            ResolverInput::Fetched(body) => advance(with_document(st, body)),
            ResolverInput::Start => st,
        },
        ResolverPhase::Finished => st,
    }
}

/// What a finished walk ends with.
pub open spec fn outcome(st: ResolverState) -> Result<Seq<Seq<char>>, DiscoveryError> {
    if st.fallback && st.pages.len() == 0 {
        Err(DiscoveryError::NoSitemapFound)
    } else {
        Ok(frontier(st.pages, st.max_urls))
    }
}

/// What the walk asks for in state `st`, or ends with.
pub open spec fn output_of(st: ResolverState) -> ResolverOutput {
    match st.phase {
        ResolverPhase::Idle => ResolverOutput::Fetch(st.robots_url),
        ResolverPhase::Robots => ResolverOutput::Fetch(st.robots_url),
        ResolverPhase::Expanding => ResolverOutput::Fetch(st.current.0),
        ResolverPhase::Finished => ResolverOutput::Done(outcome(st)),
    }
}

/// Expands the sitemaps on `stack`, the last first, each starting from what
/// the one before it left as visited.
pub open spec fn run_stack(
    web: Map<Seq<char>, Seq<char>>,
    stack: Seq<(Seq<char>, nat)>,
    max_depth: nat,
    visited: Seq<Seq<char>>,
) -> Expansion
    decreases stack.len(),
{
    if stack.len() == 0 {
        nothing(visited)
    } else {
        let first = expand(web, stack.last().0, stack.last().1, max_depth, visited);
        then(first, run_stack(web, stack.drop_last(), max_depth, first.visited))
    }
}

/// What is still to come in state `st` on the site `web`: the pages that
/// the rest of the walk discovers, and the documents it asks for, the one
/// being waited for included.
pub open spec fn outstanding(web: Map<Seq<char>, Seq<char>>, st: ResolverState) -> Expansion {
    match st.phase {
        ResolverPhase::Idle | ResolverPhase::Robots => {
            let e = run_stack(
                web,
                with_robots(st, lookup(web, st.robots_url)).stack,
                st.max_depth,
                st.visited,
            );
            Expansion { fetches: e.fetches + 1, ..e }
        },
        ResolverPhase::Expanding => {
            let e = then(
                after_fetch(
                    web,
                    lookup(web, st.current.0),
                    st.current.1,
                    st.max_depth,
                    st.visited,
                ),
                run_stack(
                    web,
                    st.stack,
                    st.max_depth,
                    after_fetch(
                        web,
                        lookup(web, st.current.0),
                        st.current.1,
                        st.max_depth,
                        st.visited,
                    ).visited,
                ),
            );
            Expansion { fetches: e.fetches + 1, ..e }
        },
        ResolverPhase::Finished => nothing(st.visited),
    }
}

/// Pushing `urls` on a stack, the first on top, has them expanded in order
/// before what was on the stack.
pub proof fn lemma_run_stack_pushed(
    web: Map<Seq<char>, Seq<char>>,
    stack: Seq<(Seq<char>, nat)>,
    urls: Seq<Seq<char>>,
    depth: nat,
    max_depth: nat,
    visited: Seq<Seq<char>>,
)
    ensures
        run_stack(web, stack + entries_rev(urls, depth), max_depth, visited) == then(
            expand_all(web, urls, depth, max_depth, visited),
            run_stack(
                web,
                stack,
                max_depth,
                expand_all(web, urls, depth, max_depth, visited).visited,
            ),
        ),
    decreases urls.len(),
{
    let whole = stack + entries_rev(urls, depth);
    if urls.len() == 0 {
        assert(whole =~= stack);
        let r = run_stack(web, stack, max_depth, visited);
        assert(Seq::<Seq<char>>::empty() + r.pages =~= r.pages);
    } else {
        let rest = urls.drop_first();
        let first = expand(web, urls[0], depth, max_depth, visited);
        assert(whole.last() == (urls[0], depth));
        assert(whole.drop_last() =~= stack + entries_rev(rest, depth));
        lemma_run_stack_pushed(web, stack, rest, depth, max_depth, first.visited);
        let all_rest = expand_all(web, rest, depth, max_depth, first.visited);
        let below = run_stack(web, stack, max_depth, all_rest.visited);
        assert(first.pages + (all_rest.pages + below.pages) =~= (first.pages + all_rest.pages)
            + below.pages);
    }
}

/// Advancing changes neither what was discovered nor what is still to come:
/// what the stack of `st` stood for is what is outstanding afterwards.
pub proof fn lemma_advance(web: Map<Seq<char>, Seq<char>>, st: ResolverState)
    ensures
        advance(st).pages == st.pages,
        advance(st).fallback == st.fallback,
        advance(st).max_urls == st.max_urls,
        advance(st).max_depth == st.max_depth,
        advance(st).robots_url == st.robots_url,
        advance(st).sitemap_url == st.sitemap_url,
        advance(st).phase is Expanding || advance(st).phase is Finished,
        outstanding(web, advance(st)).pages == run_stack(
            web,
            st.stack,
            st.max_depth,
            st.visited,
        ).pages,
        outstanding(web, advance(st)).fetches == run_stack(
            web,
            st.stack,
            st.max_depth,
            st.visited,
        ).fetches,
    decreases st.stack.len(),
{
    if st.stack.len() > 0 {
        let top = st.stack.last();
        let rest = st.stack.drop_last();
        if st.visited.contains(top.0) || top.1 > st.max_depth {
            let st1 = ResolverState { stack: rest, ..st };
            lemma_advance(web, st1);
            let r = run_stack(web, rest, st.max_depth, st.visited);
            assert(Seq::<Seq<char>>::empty() + r.pages =~= r.pages);
        }
    }
}

/// One answer of the site takes the walk one document further: what was
/// discovered together with what is still to come stays the same, and one
/// document less is left to ask for.
pub proof fn lemma_step(web: Map<Seq<char>, Seq<char>>, st: ResolverState)
    requires
        st.phase is Robots || st.phase is Expanding,
        st.phase is Robots ==> st.visited.len() == 0 && st.pages.len() == 0,
    ensures
        ({
            let url = output_of(st)->Fetch_0;
            let next = next_state(st, ResolverInput::Fetched(lookup(web, url)));
            &&& next.pages + outstanding(web, next).pages == st.pages + outstanding(web, st).pages
            &&& outstanding(web, next).fetches + 1 == outstanding(web, st).fetches
            &&& next.phase is Expanding || next.phase is Finished
            &&& next.max_urls == st.max_urls
            &&& next.max_depth == st.max_depth
            &&& next.robots_url == st.robots_url
            &&& next.sitemap_url == st.sitemap_url
            &&& st.phase is Expanding ==> next.fallback == st.fallback
            &&& st.phase is Robots ==> next.fallback == with_robots(
                st,
                lookup(web, st.robots_url),
            ).fallback
        }),
{
    if st.phase is Robots {
        let st1 = with_robots(st, lookup(web, st.robots_url));
        lemma_advance(web, st1);
    } else {
        let body = lookup(web, st.current.0);
        let st1 = with_document(st, body);
        lemma_advance(web, st1);
        let own = after_fetch(web, body, st.current.1, st.max_depth, st.visited);
        let below = run_stack(web, st.stack, st.max_depth, own.visited);
        match body {
            None => {
                assert(st.pages + (Seq::<Seq<char>>::empty() + below.pages) =~= st.pages
                    + below.pages);
            },
            Some(b) => {
                let locs = sitemap_locs(b);
                if st.current.1 < st.max_depth {
                    lemma_run_stack_pushed(
                        web,
                        st.stack,
                        index_urls(locs),
                        st.current.1 + 1,
                        st.max_depth,
                        st.visited,
                    );
                    let nested = expand_all(
                        web,
                        index_urls(locs),
                        st.current.1 + 1,
                        st.max_depth,
                        st.visited,
                    );
                    assert((st.pages + page_urls(locs)) + (nested.pages + below.pages) =~= st.pages
                        + ((page_urls(locs) + nested.pages) + below.pages));
                } else {
                    assert((st.pages + page_urls(locs)) + below.pages =~= st.pages + (page_urls(
                        locs,
                    ) + below.pages));
                }
            },
        }
    }
}

/// No document is asked for from deeper down than allowed: the sitemap
/// that advancing makes the current one lies within the depth limit and
/// was not visited before.
pub proof fn lemma_never_too_deep(st: ResolverState)
    ensures
        advance(st).phase is Expanding ==> advance(st).current.1 <= st.max_depth
            && !st.visited.contains(advance(st).current.0) && advance(st).visited
            == st.visited.push(advance(st).current.0),
    decreases st.stack.len(),
{
    if st.stack.len() > 0 {
        let top = st.stack.last();
        if st.visited.contains(top.0) || top.1 > st.max_depth {
            lemma_never_too_deep(ResolverState { stack: st.stack.drop_last(), ..st });
        }
    }
}

/// A step changes neither the limits of a walk nor where it looks for
/// robots.txt and sitemap.xml.
pub proof fn lemma_next_state_keeps_limits(st: ResolverState, input: ResolverInput)
    ensures
        next_state(st, input).max_urls == st.max_urls,
        next_state(st, input).max_depth == st.max_depth,
        next_state(st, input).robots_url == st.robots_url,
        next_state(st, input).sitemap_url == st.sitemap_url,
{
    let web = Map::<Seq<char>, Seq<char>>::empty();
    if let ResolverInput::Fetched(body) = input {
        if st.phase is Robots {
            lemma_advance(web, with_robots(st, body));
        } else if st.phase is Expanding {
            lemma_advance(web, with_document(st, body));
        }
    }
}

/// What is outstanding once robots.txt was asked for is what discovery yields.
pub proof fn lemma_started(
    web: Map<Seq<char>, Seq<char>>,
    robots_url: Seq<char>,
    sitemap_url: Seq<char>,
    max_depth: nat,
    max_urls: nat,
)
    ensures
        ({
            let st = next_state(
                initial_state(robots_url, sitemap_url, max_depth, max_urls),
                ResolverInput::Start,
            );
            &&& st.phase is Robots
            &&& st.pages.len() == 0
            &&& st.visited.len() == 0
            &&& outstanding(web, st).pages == discovered(web, robots_url, sitemap_url, max_depth)
            &&& with_robots(st, lookup(web, robots_url)).fallback == fell_back(web, robots_url)
        }),
{
    let st = next_state(
        initial_state(robots_url, sitemap_url, max_depth, max_urls),
        ResolverInput::Start,
    );
    let urls = candidates(web, robots_url, sitemap_url);
    let st1 = with_robots(st, lookup(web, robots_url));
    assert(st1.stack =~= Seq::<(Seq<char>, nat)>::empty() + entries_rev(urls, 0)) by {
        if fell_back(web, robots_url) {
            assert(urls == seq![sitemap_url]);
            assert(urls.drop_first() =~= Seq::<Seq<char>>::empty());
            assert(entries_rev(urls.drop_first(), 0) =~= Seq::<(Seq<char>, nat)>::empty());
            assert(entries_rev(urls, 0) =~= seq![(sitemap_url, 0nat)]);
        }
    }
    lemma_run_stack_pushed(web, Seq::empty(), urls, 0, max_depth, Seq::empty());
    let e = expand_all(web, urls, 0, max_depth, Seq::empty());
    assert(e.pages + Seq::<Seq<char>>::empty() =~= e.pages);
}

/// A walk on the site `web`: each state follows from the one before it on
/// the body that `web` answers with for the document asked for.
pub open spec fn is_walk(web: Map<Seq<char>, Seq<char>>, states: Seq<ResolverState>) -> bool {
    &&& states.len() > 0
    &&& states[0] == next_state(
        initial_state(
            states[0].robots_url,
            states[0].sitemap_url,
            states[0].max_depth,
            states[0].max_urls,
        ),
        ResolverInput::Start,
    )
    &&& forall|i: int|
        0 <= i < states.len() - 1 ==> !(states[i].phase is Finished) && #[trigger] states[i + 1]
            == next_state(
            states[i],
            ResolverInput::Fetched(lookup(web, output_of(states[i])->Fetch_0)),
        )
}

/// Along a walk, what was discovered together with what is still to come
/// is what discovery yields, and each step leaves one document less to
/// ask for.
pub proof fn lemma_walk_invariant(
    web: Map<Seq<char>, Seq<char>>,
    states: Seq<ResolverState>,
    k: int,
)
    requires
        is_walk(web, states),
        0 <= k < states.len(),
    ensures
        states[k].robots_url == states[0].robots_url,
        states[k].sitemap_url == states[0].sitemap_url,
        states[k].max_depth == states[0].max_depth,
        states[k].max_urls == states[0].max_urls,
        states[k].pages + outstanding(web, states[k]).pages == discovered(
            web,
            states[0].robots_url,
            states[0].sitemap_url,
            states[0].max_depth,
        ),
        outstanding(web, states[k]).fetches + k == outstanding(web, states[0]).fetches,
        k > 0 ==> states[k].fallback == fell_back(web, states[0].robots_url),
        k > 0 ==> states[k].phase is Expanding || states[k].phase is Finished,
        k == 0 ==> states[k].phase is Robots && states[k].pages.len() == 0
            && states[k].visited.len() == 0,
    decreases k,
{
    let first = states[0];
    lemma_started(web, first.robots_url, first.sitemap_url, first.max_depth, first.max_urls);
    if k == 0 {
        let o = outstanding(web, first);
        assert(first.pages + o.pages =~= o.pages);
    } else {
        lemma_walk_invariant(web, states, k - 1);
        let prev = states[k - 1];
        assert(states[(k - 1) + 1] == next_state(
            prev,
            ResolverInput::Fetched(lookup(web, output_of(prev)->Fetch_0)),
        ));
        lemma_step(web, prev);
    }
}

/// A walk that has finished ends with what discovery yields, and it has
/// asked for no more documents than the expansion of the site counts.
pub proof fn lemma_walk_result(web: Map<Seq<char>, Seq<char>>, states: Seq<ResolverState>)
    requires
        is_walk(web, states),
        states.last().phase is Finished,
    ensures
        output_of(states.last()) == ResolverOutput::Done(
            discover(
                web,
                states[0].robots_url,
                states[0].sitemap_url,
                states[0].max_depth,
                states[0].max_urls,
            ),
        ),
        states.len() - 1 == outstanding(web, states[0]).fetches,
{
    let k = states.len() - 1;
    lemma_walk_invariant(web, states, k);
    let last = states[k];
    assert(last.pages + Seq::<Seq<char>>::empty() =~= last.pages);
}

/// No walk is longer than the expansion of the site allows: every step asks
/// for one of a finite number of documents, so a walk cannot go on for ever.
pub proof fn lemma_walk_terminates(web: Map<Seq<char>, Seq<char>>, states: Seq<ResolverState>)
    requires
        is_walk(web, states),
    ensures
        states.len() <= 1 + outstanding(web, states[0]).fetches,
{
    lemma_walk_invariant(web, states, states.len() - 1);
}

/// The URL that robots.txt and sitemap.xml of `domain` are looked for
/// under: `domain` itself where it starts with `http://` or `https://`,
/// else `domain` with `https://` in front.
pub open spec fn site_base(domain: Seq<char>) -> Seq<char> {
    if has_prefix_at(domain, 0, "http://"@) || has_prefix_at(domain, 0, "https://"@) {
        domain
    } else {
        "https://"@ + domain
    }
}

/// Where the robots.txt of `domain` is, if `domain` names a site.
pub open spec fn robots_location(domain: Seq<char>) -> Option<Seq<char>> {
    url_join(site_base(domain), "/robots.txt"@)
}

/// Where the sitemap.xml of `domain` is, if `domain` names a site.
pub open spec fn sitemap_location(domain: Seq<char>) -> Option<Seq<char>> {
    url_join(site_base(domain), "/sitemap.xml"@)
}

/// The URL that robots.txt and sitemap.xml of `domain` are looked for under.
pub fn site_base_of(domain: &str) -> (r: String)
    ensures
        r@ == site_base(domain@),
{
    let v = to_chars(domain);
    let http = to_chars("http://");
    let https = to_chars("https://");
    if starts_with_at(&v, 0, &http) || starts_with_at(&v, 0, &https) {
        String::from_str(domain)
    } else {
        let mut r = String::from_str("https://");
        r.append(domain);
        r
    }
}

/// What is handed to a [`SitemapResolver`].
#[derive(Debug)]
pub enum ResolverEvent {
    /// The request to begin.
    Start,
    /// The body of the document last asked for, or `None` if it could not be had.
    Fetched(Option<String>),
}

impl ResolverEvent {
    pub open spec fn view(self) -> ResolverInput {
        match self {
            ResolverEvent::Start => ResolverInput::Start,
            ResolverEvent::Fetched(Some(b)) => ResolverInput::Fetched(Some(b@)),
            ResolverEvent::Fetched(None) => ResolverInput::Fetched(None),
        }
    }
}

/// What a [`SitemapResolver`] asks for, or ends with.
#[derive(Debug)]
pub enum ResolverAction {
    /// Fetch the document at this URL and hand back its body.
    Fetch(String),
    /// The frontier, or the reason why there is none.
    Done(Result<Vec<String>, DiscoveryError>),
}

impl ResolverAction {
    pub open spec fn view(self) -> ResolverOutput {
        match self {
            ResolverAction::Fetch(u) => ResolverOutput::Fetch(u@),
            ResolverAction::Done(Ok(f)) => ResolverOutput::Done(Ok(views(f@))),
            ResolverAction::Done(Err(e)) => ResolverOutput::Done(Err(e)),
        }
    }
}

/// Stack entries as the model has them.
pub open spec fn entry_views(stack: Seq<(String, usize)>) -> Seq<(Seq<char>, nat)> {
    stack.map_values(|e: (String, usize)| (e.0@, e.1 as nat))
}

/// Pushes `urls` on `stack` at nesting level `depth`, the last first, so
/// that the first ends up on top.
fn push_reversed(stack: &mut Vec<(String, usize)>, urls: &Vec<String>, depth: usize)
    ensures
        entry_views(final(stack)@) == entry_views(old(stack)@) + entries_rev(
            views(urls@),
            depth as nat,
        ),
{
    let mut i: usize = urls.len();
    assert(views(urls@).skip(i as int) =~= Seq::<Seq<char>>::empty());
    assert(entry_views(stack@) + Seq::<(Seq<char>, nat)>::empty() =~= entry_views(stack@));
    while i > 0
        invariant
            i <= urls.len(),
            entry_views(stack@) == entry_views(old(stack)@) + entries_rev(
                views(urls@).skip(i as int),
                depth as nat,
            ),
        decreases i,
    {
        i -= 1;
        let ghost before = entry_views(stack@);
        stack.push((urls[i].clone(), depth));
        proof {
            let tail = views(urls@).skip(i as int);
            assert(tail.drop_first() =~= views(urls@).skip(i + 1));
            assert(tail[0] == urls@[i as int]@);
            assert(entry_views(stack@) =~= before.push((urls@[i as int]@, depth as nat)));
            assert(entry_views(stack@) =~= entry_views(old(stack)@) + entries_rev(
                tail,
                depth as nat,
            ));
        }
    }
    assert(views(urls@).skip(0) =~= views(urls@));
}

/// Walks the sitemaps of a site one document at a time. The caller fetches
/// what the walk asks for and hands the body back; the walk decides what
/// to ask for next and what the frontier is.
pub struct SitemapResolver {
    robots_url: String,
    sitemap_url: String,
    max_depth: usize,
    max_urls: usize,
    phase: ResolverPhase,
    fallback: bool,
    visited: Vec<String>,
    stack: Vec<(String, usize)>,
    frontier: Vec<String>,
    any_page: bool,
    truncated: bool,
    discovered: Ghost<Seq<Seq<char>>>,
    current_url: String,
    current_depth: usize,
}

impl SitemapResolver {
    /// The state of the walk.
    pub closed spec fn view(self) -> ResolverState {
        ResolverState {
            phase: self.phase,
            robots_url: self.robots_url@,
            sitemap_url: self.sitemap_url@,
            max_depth: self.max_depth as nat,
            max_urls: self.max_urls as nat,
            fallback: self.fallback,
            visited: views(self.visited@),
            stack: entry_views(self.stack@),
            pages: self.discovered@,
            current: (self.current_url@, self.current_depth as nat),
        }
    }

    /// The frontier is kept up to date with what was discovered.
    pub closed spec fn wf(self) -> bool {
        &&& views(self.frontier@) == frontier(self.discovered@, self.max_urls as nat)
        &&& self.any_page == (self.discovered@.len() > 0)
        &&& self.truncated == truncated(self.discovered@, self.max_urls as nat)
    }

    /// A walk that has asked for nothing yet. `robots_url` is where the
    /// site's robots.txt is, `sitemap_url` where its own sitemap.xml is.
    pub fn new(robots_url: String, sitemap_url: String, max_depth: usize, max_urls: usize) -> (r:
        Self)
        ensures
            r.wf(),
            r@ == initial_state(robots_url@, sitemap_url@, max_depth as nat, max_urls as nat),
    {
        let r = SitemapResolver {
            robots_url,
            sitemap_url,
            max_depth,
            max_urls,
            phase: ResolverPhase::Idle,
            fallback: false,
            visited: Vec::new(),
            stack: Vec::new(),
            frontier: Vec::new(),
            any_page: false,
            truncated: false,
            discovered: Ghost(Seq::empty()),
            current_url: String::new(),
            current_depth: 0,
        };
        assert(views(r.visited@) =~= Seq::<Seq<char>>::empty());
        assert(views(r.frontier@) =~= Seq::<Seq<char>>::empty());
        assert(entry_views(r.stack@) =~= Seq::<(Seq<char>, nat)>::empty());
        r
    }

    /// A walk for the site at `domain`, a URL or a bare host: robots.txt
    /// and sitemap.xml are looked for at the root of its host. A `domain`
    /// that names no site is refused as an invalid URL.
    pub fn for_domain(domain: &str, max_depth: usize, max_urls: usize) -> (r: Result<
        Self,
        CrawlerError,
    >)
        ensures
            r is Ok <==> robots_location(domain@) is Some && sitemap_location(domain@) is Some,
            r matches Ok(w) ==> w.wf() && w@ == initial_state(
                robots_location(domain@)->0,
                sitemap_location(domain@)->0,
                max_depth as nat,
                max_urls as nat,
            ),
            r matches Err(e) ==> e is Validation && e->Validation_0 is InvalidUrl,
    {
        let base = site_base_of(domain);
        let domain = base.as_str();
        let robots_url = match join_url(domain, "/robots.txt") {
            Ok(u) => u,
            Err(e) => {
                return Err(
                    CrawlerError::Validation(ValidationError::InvalidUrl(url_error_text(&e))),
                );
            },
        };
        let sitemap_url = match join_url(domain, "/sitemap.xml") {
            Ok(u) => u,
            Err(e) => {
                return Err(
                    CrawlerError::Validation(ValidationError::InvalidUrl(url_error_text(&e))),
                );
            },
        };
        Ok(Self::new(robots_url, sitemap_url, max_depth, max_urls))
    }

    /// Records the pages among `locs` as discovered and returns the
    /// sitemaps among them.
    fn record_pages(&mut self, locs: &Vec<String>) -> (nested: Vec<String>)
        requires
            old(self).wf(),
        ensures
            final(self).wf(),
            final(self)@ == (ResolverState {
                pages: old(self)@.pages + page_urls(views(locs@)),
                ..old(self)@
            }),
            views(nested@) == index_urls(views(locs@)),
    {
        let mut nested: Vec<String> = Vec::new();
        let mut i: usize = 0;
        let ghost all = views(locs@);
        assert(all.skip(0) =~= all);
        assert(self.discovered@ + Seq::<Seq<char>>::empty() =~= self.discovered@);
        assert(views(nested@) =~= Seq::<Seq<char>>::empty());
        while i < locs.len()
            invariant
                i <= locs.len(),
                all == views(locs@),
                self.wf(),
                self@ == (ResolverState { pages: self@.pages, ..old(self)@ }),
                old(self)@.pages + page_urls(all) == self@.pages + page_urls(all.skip(i as int)),
                index_urls(all) == views(nested@) + index_urls(all.skip(i as int)),
            decreases locs.len() - i,
        {
            let url = locs[i].clone();
            proof {
                assert(all.skip(i as int).drop_first() =~= all.skip(i + 1));
                assert(all.skip(i as int)[0] == url@);
            }
            if is_sitemap_index_url(url.as_str()) {
                let ghost before = views(nested@);
                nested.push(url);
                assert(views(nested@) =~= before.push(all[i as int]));
                assert(views(nested@) + index_urls(all.skip(i + 1)) =~= before + (seq![all[i as int]]
                    + index_urls(all.skip(i + 1))));
            } else {
                let ghost found = self.discovered@;
                let ghost kept = views(self.frontier@);
                if !contains_string(&self.frontier, &url) {
                    if self.frontier.len() < self.max_urls {
                        self.frontier.push(url);
                        assert(views(self.frontier@) =~= kept.push(all[i as int]));
                    } else {
                        self.truncated = true;
                    }
                }
                self.any_page = true;
                self.discovered = Ghost(found.push(all[i as int]));
                proof {
                    assert(found.push(all[i as int]).drop_last() =~= found);
                    assert(found.push(all[i as int]) + page_urls(all.skip(i + 1)) =~= found + (
                    seq![all[i as int]] + page_urls(all.skip(i + 1))));
                }
            }
            i += 1;
        }
        proof {
            assert(all.skip(all.len() as int) =~= Seq::<Seq<char>>::empty());
            assert(self@.pages + Seq::<Seq<char>>::empty() =~= self@.pages);
            assert(views(nested@) + Seq::<Seq<char>>::empty() =~= views(nested@));
        }
        nested
    }

    /// Takes sitemaps off the stack until one is neither visited nor too
    /// deep, and makes it the current one.
    fn advance(&mut self)
        requires
            old(self).wf(),
        ensures
            final(self).wf(),
            final(self)@ == advance(old(self)@),
    {
        loop
            invariant_except_break
                advance(self@) == advance(old(self)@),
            invariant
                self.wf(),
            ensures
                self.wf(),
                self@ == advance(old(self)@),
            decreases self.stack.len(),
        {
            let ghost st = self@;
            match self.stack.pop() {
                None => {
                    self.phase = ResolverPhase::Finished;
                    assert(self@ == advance(st));
                    break;
                },
                Some(top) => {
                    assert(entry_views(self.stack@) =~= st.stack.drop_last());
                    assert(st.stack.last() == (top.0@, top.1 as nat));
                    if !contains_string(&self.visited, &top.0) && top.1 <= self.max_depth {
                        let ghost seen = views(self.visited@);
                        self.visited.push(top.0.clone());
                        assert(views(self.visited@) =~= seen.push(top.0@));
                        self.current_url = top.0;
                        self.current_depth = top.1;
                        self.phase = ResolverPhase::Expanding;
                        assert(self@ == advance(st));
                        break;
                    }
                    assert(self@ == (ResolverState { stack: st.stack.drop_last(), ..st }));
                },
            }
        }
    }

    /// What the walk asks for in its present state, or ends with.
    pub fn action(&self) -> (action: ResolverAction)
        requires
            self.wf(),
        ensures
            action@ == output_of(self@),
    {
        match self.phase {
            ResolverPhase::Idle => ResolverAction::Fetch(self.robots_url.clone()),
            ResolverPhase::Robots => ResolverAction::Fetch(self.robots_url.clone()),
            ResolverPhase::Expanding => ResolverAction::Fetch(self.current_url.clone()),
            ResolverPhase::Finished => {
                if self.fallback && !self.any_page {
                    ResolverAction::Done(Err(DiscoveryError::NoSitemapFound))
                } else {
                    ResolverAction::Done(Ok(clone_strings(&self.frontier)))
                }
            },
        }
    }

    /// Takes the walk one step further on `event` and says what to fetch
    /// next, or what the walk ends with.
    pub fn step(&mut self, event: ResolverEvent) -> (action: ResolverAction)
        requires
            old(self).wf(),
        ensures
            final(self).wf(),
            final(self)@ == next_state(old(self)@, event@),
            action@ == output_of(final(self)@),
    {
        match self.phase {
            ResolverPhase::Idle => {
                self.phase = ResolverPhase::Robots;
            },
            ResolverPhase::Robots => {
                if let ResolverEvent::Fetched(body) = event {
                    let named = match body {
                        Some(b) => parse_robots(b.as_str()),
                        None => Vec::new(),
                    };
                    assert(body is None ==> views(named@) =~= Seq::<Seq<char>>::empty());
                    let ghost st = self@;
                    if named.len() > 0 {
                        self.stack = Vec::new();
                        assert(entry_views(self.stack@) =~= Seq::<(Seq<char>, nat)>::empty());
                        push_reversed(&mut self.stack, &named, 0);
                        assert(entry_views(self.stack@) =~= entries_rev(views(named@), 0));
                        self.fallback = false;
                    } else {
                        self.stack = Vec::new();
                        self.stack.push((self.sitemap_url.clone(), 0));
                        assert(entry_views(self.stack@) =~= seq![(self.sitemap_url@, 0nat)]);
                        self.fallback = true;
                    }
                    assert(self@ == with_robots(st, event@->Fetched_0));
                    self.advance();
                }
            },
            ResolverPhase::Expanding => {
                if let ResolverEvent::Fetched(body) = event {
                    let ghost st = self@;
                    if let Some(b) = body {
                        let locs = extract_locs(b.as_str());
                        let nested = self.record_pages(&locs);
                        if self.current_depth < self.max_depth {
                            push_reversed(&mut self.stack, &nested, self.current_depth + 1);
                        }
                    }
                    assert(self@ == with_document(st, event@->Fetched_0));
                    self.advance();
                }
            },
            ResolverPhase::Finished => {},
        }
        self.action()
    }

    /// Whether the frontier leaves out a page for want of room.
    pub fn was_truncated(&self) -> (r: bool)
        requires
            self.wf(),
        ensures
            r == truncated(self@.pages, self@.max_urls),
    {
        self.truncated
    }

    /// Where the walk stands.
    pub fn phase(&self) -> (p: ResolverPhase)
        ensures
            p == self@.phase,
    {
        self.phase
    }
}

} // verus!
