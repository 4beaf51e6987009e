use site_harvest::dom::{parse_html, DomNode, MAX_NESTING};
use site_harvest::domain_detector::DomainDetector;
use site_harvest::file_manager::FileManager;
use site_harvest::html_converter::HtmlConverter;
use site_harvest::html_to_markdown::html_to_markdown;
use site_harvest::robots::{extract_locs, parse_robots};
use site_harvest::text::char_is_whitespace;

fn depth(node: &DomNode) -> usize {
    match node {
        DomNode::Text { .. } => 0,
        DomNode::Element { children, .. } => 1 + children.iter().map(depth).max().unwrap_or(0),
    }
}

/// A small generator of repeatable noise.
struct Noise(u64);

impl Noise {
    fn next(&mut self) -> u64 {
        self.0 ^= self.0 << 13;
        self.0 ^= self.0 >> 7;
        self.0 ^= self.0 << 17;
        self.0
    }

    fn text(&mut self, len: usize) -> String {
        let alphabet: Vec<char> =
            "<>/=\"' \n\t!-?&;#abcpliuhr12é日.:_*|\\".chars().collect();
        (0..len).map(|_| alphabet[(self.next() % alphabet.len() as u64) as usize]).collect()
    }
}

#[test]
fn deep_nesting_is_flattened() {
    let levels = 100_000;
    let html = format!("{}deep{}", "<div>".repeat(levels), "</div>".repeat(levels));
    let nodes = parse_html(&html);
    let deepest = nodes.iter().map(depth).max().unwrap_or(0);
    assert!(deepest <= MAX_NESTING + 1, "depth {}", deepest);
    assert_eq!(HtmlConverter::new().convert_to_markdown(&html).unwrap(), "deep");

    let unclosed = format!("{}deep", "<b>".repeat(50_000));
    let out = html_to_markdown("u", &unclosed);
    assert!(out.contains("deep"));
}

#[test]
fn nesting_within_the_limit_is_kept() {
    let levels = MAX_NESTING;
    let html = format!("{}x{}", "<div>".repeat(levels), "</div>".repeat(levels));
    let nodes = parse_html(&html);
    assert_eq!(nodes.len(), 1);
    assert_eq!(depth(&nodes[0]), MAX_NESTING);
}

#[test]
fn noise_is_taken_in_without_fault() {
    let mut noise = Noise(0x9E37_79B9_7F4A_7C15);
    let converter = HtmlConverter::new();
    let mut detector = DomainDetector::new();
    let files = FileManager::new("out").unwrap();
    for round in 0..400 {
        let text = noise.text(round % 97 + 1);
        let _ = converter.convert_to_markdown(&text);
        let _ = converter.convert_to_markdown_with_recovery(&text);
        let _ = converter.render_with_recovery(&text, &text);
        let out = html_to_markdown("label", &text);
        assert!(out.ends_with('\n'));
        assert!(!out.trim().is_empty());
        let _ = parse_robots(&text);
        let _ = extract_locs(&text);
        let _ = detector.get_fetch_mode(&text);
        let _ = detector.get_fetch_mode_safe(&text);
        let name = files.sanitize_filename(&text);
        assert!(name.ends_with(".md"));
        assert!(name.chars().count() <= 203);
        assert!(name
            .chars()
            .all(|c| c.is_ascii_alphanumeric() || c == '_' || c == '-' || c == '.'));
        let _ = files.generate_filename(&text);
    }
}

#[test]
fn large_documents_are_handled() {
    let mut html = String::from("<html><body>");
    for i in 0..5_000 {
        html.push_str(&format!(
            "<h2>Section {i}</h2><p>Paragraph <em>{i}</em> with a <a href=\"/p/{i}\">link</a>.</p><ul><li>a</li><li>b</li></ul>"
        ));
    }
    html.push_str("</body></html>");
    let out = HtmlConverter::new().convert_to_markdown(&html).unwrap();
    assert!(out.starts_with("## Section 0\n\nParagraph *0* with a [link](/p/0) .\n\n- a\n- b\n\n## Section 1"));
    assert!(out.ends_with("- a\n- b"));

    let mut sitemap = String::from("<urlset>");
    for i in 0..20_000 {
        sitemap.push_str(&format!("<url><loc>https://example.com/{}</loc></url>", i));
    }
    sitemap.push_str("</urlset>");
    assert_eq!(extract_locs(&sitemap).len(), 20_000);
}

#[test]
fn whitespace_is_what_the_standard_library_calls_whitespace() {
    for n in 0..=0x10FFFFu32 {
        if let Some(c) = char::from_u32(n) {
            assert_eq!(char_is_whitespace(c), c.is_whitespace(), "U+{:04X}", n);
        }
    }
}
