use site_harvest::errors::{CrawlerError, DiscoveryError, ValidationError};
use site_harvest::robots::{extract_locs, is_sitemap_index_url, parse_robots};
use site_harvest::sitemap::{
    site_base_of, ResolverAction, ResolverEvent, ResolverPhase, SitemapResolver,
};
use std::collections::HashMap;

fn sitemap_of(urls: &[&str]) -> String {
    let mut body = String::from("<?xml version=\"1.0\"?>\n<urlset>\n");
    for u in urls {
        body.push_str(&format!("  <url><loc>{}</loc></url>\n", u));
    }
    body.push_str("</urlset>\n");
    body
}

/// Runs a walk against `web` and returns what it ends with and what it fetched.
fn walk(
    web: &HashMap<String, String>,
    domain: &str,
    max_depth: usize,
    max_urls: usize,
) -> (Result<Vec<String>, DiscoveryError>, Vec<String>) {
    let mut resolver = SitemapResolver::for_domain(domain, max_depth, max_urls).unwrap();
    let mut fetched = Vec::new();
    let mut action = resolver.step(ResolverEvent::Start);
    for _ in 0..10_000 {
        match action {
            ResolverAction::Fetch(url) => {
                let body = web.get(&url).cloned();
                fetched.push(url);
                action = resolver.step(ResolverEvent::Fetched(body));
            }
            ResolverAction::Done(result) => {
                assert_eq!(resolver.phase(), ResolverPhase::Finished);
                return (result, fetched);
            }
        }
    }
    panic!("the walk did not end");
}

fn web_of(entries: &[(&str, String)]) -> HashMap<String, String> {
    entries.iter().map(|(k, v)| (k.to_string(), v.clone())).collect()
}

#[test]
fn robots_directives() {
    let body = "User-agent: *\nDisallow: /private\nSitemap: https://example.com/sitemap.xml\n  sitemap:https://example.com/other.xml  \r\nSITEMAP:   https://example.com/third.xml\nSitemap:\nSitemap:   \nNot-Sitemap: https://example.com/no.xml\n# Sitemap: https://example.com/comment.xml";
    assert_eq!(
        parse_robots(body),
        vec![
            "https://example.com/sitemap.xml".to_string(),
            "https://example.com/other.xml".to_string(),
            "https://example.com/third.xml".to_string(),
        ]
    );
    assert!(parse_robots("").is_empty());
    assert!(parse_robots("User-agent: *\nDisallow: /").is_empty());
    assert_eq!(parse_robots("Sitemap: a"), vec!["a".to_string()]);
}

#[test]
fn loc_extraction() {
    assert_eq!(
        extract_locs("<urlset><url><loc> https://a.example/1 </loc></url><url><LOC>https://a.example/2</LOC></url></urlset>"),
        vec!["https://a.example/1".to_string(), "https://a.example/2".to_string()]
    );
    // an opening that is never closed ends the scan without losing what came before
    assert_eq!(
        extract_locs("<loc>https://a.example/1</loc><loc>https://a.example/2"),
        vec!["https://a.example/1".to_string()]
    );
    assert_eq!(extract_locs("<loc>one</loc><loc"), vec!["one".to_string()]);
    // blank entries are left out
    assert_eq!(extract_locs("<loc>  </loc><loc>x</loc>"), vec!["x".to_string()]);
    assert!(extract_locs("no sitemap here").is_empty());
    assert!(extract_locs("").is_empty());
}

#[test]
fn index_or_page() {
    assert!(is_sitemap_index_url("https://example.com/sitemap.xml"));
    assert!(is_sitemap_index_url("https://example.com/sitemap.xml?page=2"));
    assert!(!is_sitemap_index_url("https://example.com/page.html"));
    assert!(!is_sitemap_index_url("https://example.com/xml"));
    assert!(!is_sitemap_index_url("https://example.com/sitemap.xml.gz"));
    assert!(!is_sitemap_index_url(""));
}

#[test]
fn locations_are_resolved_against_the_host() {
    let web = HashMap::new();
    let (_, fetched) = walk(&web, "https://www.example.com/some/page?x=1", 5, 100);
    assert_eq!(
        fetched,
        vec![
            "https://www.example.com/robots.txt".to_string(),
            "https://www.example.com/sitemap.xml".to_string(),
        ]
    );
    let (_, fetched) = walk(&web, "docs.example.com", 5, 100);
    assert_eq!(
        fetched,
        vec![
            "https://docs.example.com/robots.txt".to_string(),
            "https://docs.example.com/sitemap.xml".to_string(),
        ]
    );
    assert_eq!(site_base_of("http://example.com"), "http://example.com");
    assert_eq!(site_base_of("example.com"), "https://example.com");
}

#[test]
fn a_domain_that_names_no_site_is_refused() {
    match SitemapResolver::for_domain("https://", 5, 100) {
        Err(CrawlerError::Validation(ValidationError::InvalidUrl(_))) => {}
        _ => panic!("expected InvalidUrl"),
    }
}

#[test]
fn flat_sitemap_gives_its_pages_in_order() {
    let pages =
        ["https://example.com/c", "https://example.com/a", "https://example.com/b", "https://example.com/d"];
    let web = web_of(&[
        ("https://example.com/robots.txt", "Sitemap: https://example.com/map.xml\n".to_string()),
        ("https://example.com/map.xml", sitemap_of(&pages)),
    ]);
    let (result, fetched) = walk(&web, "https://example.com", 5, 100);
    assert_eq!(result.unwrap(), pages.iter().map(|p| p.to_string()).collect::<Vec<_>>());
    assert_eq!(fetched.len(), 2);
}

#[test]
fn missing_robots_falls_back_to_sitemap_xml() {
    let pages = ["https://example.com/a", "https://example.com/b"];
    let web = web_of(&[("https://example.com/sitemap.xml", sitemap_of(&pages))]);
    let (result, _) = walk(&web, "https://example.com", 5, 100);
    assert_eq!(result.unwrap(), vec!["https://example.com/a".to_string(), "https://example.com/b".to_string()]);

    // a robots.txt that names no sitemap falls back too
    let web = web_of(&[
        ("https://example.com/robots.txt", "User-agent: *\n".to_string()),
        ("https://example.com/sitemap.xml", sitemap_of(&pages)),
    ]);
    let (result, _) = walk(&web, "https://example.com", 5, 100);
    assert_eq!(result.unwrap().len(), 2);
}

#[test]
fn nothing_found_is_reported() {
    let web = HashMap::new();
    let (result, _) = walk(&web, "https://example.com", 5, 100);
    assert_eq!(result, Err(DiscoveryError::NoSitemapFound));

    let web = web_of(&[("https://example.com/sitemap.xml", sitemap_of(&[]))]);
    let (result, _) = walk(&web, "https://example.com", 5, 100);
    assert_eq!(result, Err(DiscoveryError::NoSitemapFound));

    // sitemaps that robots.txt names and that lead nowhere give an empty frontier
    let web = web_of(&[(
        "https://example.com/robots.txt",
        "Sitemap: https://example.com/gone.xml\n".to_string(),
    )]);
    let (result, _) = walk(&web, "https://example.com", 5, 100);
    assert_eq!(result, Ok(vec![]));
}

#[test]
fn self_referencing_index_ends() {
    let web = web_of(&[(
        "https://example.com/sitemap.xml",
        sitemap_of(&["https://example.com/p1", "https://example.com/sitemap.xml", "https://example.com/p2"]),
    )]);
    let (result, fetched) = walk(&web, "https://example.com", 50, 100);
    assert_eq!(result.unwrap(), vec!["https://example.com/p1".to_string(), "https://example.com/p2".to_string()]);
    assert_eq!(fetched.iter().filter(|u| u.ends_with("sitemap.xml")).count(), 1);
}

#[test]
fn mutually_referencing_indices_end() {
    let web = web_of(&[
        (
            "https://example.com/sitemap.xml",
            sitemap_of(&["https://example.com/a1", "https://example.com/b.xml"]),
        ),
        (
            "https://example.com/b.xml",
            sitemap_of(&["https://example.com/sitemap.xml", "https://example.com/b1"]),
        ),
    ]);
    let (result, fetched) = walk(&web, "https://example.com", 50, 100);
    assert_eq!(result.unwrap(), vec!["https://example.com/a1".to_string(), "https://example.com/b1".to_string()]);
    assert_eq!(fetched.len(), 3);
}

#[test]
fn depth_limit_cuts_a_chain_without_error() {
    // level 0 lists level 1, which lists level 2, and so on, five levels in all
    let mut entries = Vec::new();
    for level in 0..5 {
        let name = if level == 0 {
            "https://example.com/sitemap.xml".to_string()
        } else {
            format!("https://example.com/level{}.xml", level)
        };
        let page = format!("https://example.com/page{}", level);
        let next = format!("https://example.com/level{}.xml", level + 1);
        let body = if level < 4 { sitemap_of(&[&next, &page]) } else { sitemap_of(&[&page]) };
        entries.push((name, body));
    }
    let web: HashMap<String, String> = entries.into_iter().collect();
    for max_depth in 0..5 {
        let (result, fetched) = walk(&web, "https://example.com", max_depth, 100);
        let expected: Vec<String> =
            (0..=max_depth).map(|l| format!("https://example.com/page{}", l)).collect();
        assert_eq!(result.unwrap(), expected);
        // robots.txt and one document per level
        assert_eq!(fetched.len(), max_depth + 2);
    }
    let (result, _) = walk(&web, "https://example.com", 9, 100);
    assert_eq!(result.unwrap().len(), 5);
}

#[test]
fn pages_come_before_nested_sitemaps_and_siblings_in_order() {
    let web = web_of(&[
        (
            "https://example.com/robots.txt",
            "Sitemap: https://example.com/one.xml\nSitemap: https://example.com/two.xml\n".to_string(),
        ),
        (
            "https://example.com/one.xml",
            sitemap_of(&["https://example.com/one-a.xml", "https://example.com/1", "https://example.com/one-b.xml", "https://example.com/2"]),
        ),
        ("https://example.com/one-a.xml", sitemap_of(&["https://example.com/3"])),
        ("https://example.com/one-b.xml", sitemap_of(&["https://example.com/4"])),
        ("https://example.com/two.xml", sitemap_of(&["https://example.com/5"])),
    ]);
    let (result, fetched) = walk(&web, "https://example.com", 5, 100);
    assert_eq!(
        result.unwrap(),
        ["1", "2", "3", "4", "5"].iter().map(|n| format!("https://example.com/{}", n)).collect::<Vec<_>>()
    );
    assert_eq!(
        fetched,
        ["robots.txt", "one.xml", "one-a.xml", "one-b.xml", "two.xml"]
            .iter()
            .map(|n| format!("https://example.com/{}", n))
            .collect::<Vec<_>>()
    );
}

#[test]
fn frontier_is_deduplicated_and_capped() {
    let web = web_of(&[(
        "https://example.com/sitemap.xml",
        sitemap_of(&[
            "https://example.com/a",
            "https://example.com/b",
            "https://example.com/a",
            "https://example.com/c",
            "https://example.com/b",
            "https://example.com/d",
        ]),
    )]);
    let (result, _) = walk(&web, "https://example.com", 5, 100);
    assert_eq!(
        result.unwrap(),
        ["a", "b", "c", "d"].iter().map(|n| format!("https://example.com/{}", n)).collect::<Vec<_>>()
    );
    let (result, _) = walk(&web, "https://example.com", 5, 3);
    assert_eq!(
        result.unwrap(),
        ["a", "b", "c"].iter().map(|n| format!("https://example.com/{}", n)).collect::<Vec<_>>()
    );
    let (result, _) = walk(&web, "https://example.com", 5, 0);
    assert_eq!(result, Ok(vec![]));
}

#[test]
fn truncation_is_noticed() {
    let body = sitemap_of(&["https://example.com/a", "https://example.com/b", "https://example.com/a", "https://example.com/c"]);
    for (max_urls, expected) in [(10usize, false), (3, false), (2, true), (0, true)] {
        let mut resolver = SitemapResolver::for_domain("https://example.com", 5, max_urls).unwrap();
        resolver.step(ResolverEvent::Start);
        resolver.step(ResolverEvent::Fetched(None));
        resolver.step(ResolverEvent::Fetched(Some(body.clone())));
        assert_eq!(resolver.phase(), ResolverPhase::Finished);
        assert_eq!(resolver.was_truncated(), expected, "max_urls = {}", max_urls);
    }
}

#[test]
fn a_failing_branch_does_not_stop_its_siblings() {
    let web = web_of(&[
        (
            "https://example.com/sitemap.xml",
            sitemap_of(&["https://example.com/gone.xml", "https://example.com/here.xml"]),
        ),
        ("https://example.com/here.xml", sitemap_of(&["https://example.com/p"])),
    ]);
    let (result, fetched) = walk(&web, "https://example.com", 5, 100);
    assert_eq!(result.unwrap(), vec!["https://example.com/p".to_string()]);
    assert_eq!(fetched.len(), 4);
}

#[test]
fn events_that_do_not_fit_change_nothing() {
    let mut resolver = SitemapResolver::for_domain("https://example.com", 5, 100).unwrap();
    assert_eq!(resolver.phase(), ResolverPhase::Idle);
    match resolver.step(ResolverEvent::Start) {
        ResolverAction::Fetch(u) => assert_eq!(u, "https://example.com/robots.txt"),
        _ => panic!(),
    }
    match resolver.step(ResolverEvent::Start) {
        ResolverAction::Fetch(u) => assert_eq!(u, "https://example.com/robots.txt"),
        _ => panic!(),
    }
    assert_eq!(resolver.phase(), ResolverPhase::Robots);
    match resolver.step(ResolverEvent::Fetched(None)) {
        ResolverAction::Fetch(u) => assert_eq!(u, "https://example.com/sitemap.xml"),
        _ => panic!(),
    }
    match resolver.step(ResolverEvent::Fetched(None)) {
        ResolverAction::Done(r) => assert_eq!(r, Err(DiscoveryError::NoSitemapFound)),
        _ => panic!(),
    }
    match resolver.step(ResolverEvent::Fetched(Some("<loc>x</loc>".to_string()))) {
        ResolverAction::Done(r) => assert_eq!(r, Err(DiscoveryError::NoSitemapFound)),
        _ => panic!(),
    }
}
