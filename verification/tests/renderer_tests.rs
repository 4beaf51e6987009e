use site_harvest::dom::{parse_html, DomNode};
use site_harvest::errors::{CrawlerError, HtmlConversionError};
use site_harvest::html_converter::HtmlConverter;
use site_harvest::text::{from_chars, to_chars};

fn md(html: &str) -> String {
    HtmlConverter::new().convert_to_markdown(html).unwrap()
}

fn text(v: &Vec<char>) -> String {
    from_chars(v)
}

#[test]
fn headings() {
    assert_eq!(md("<h1>One</h1>"), "# One");
    assert_eq!(md("<h2>Two</h2>"), "## Two");
    assert_eq!(md("<h1>  Spaced   out  </h1>"), "# Spaced out");
    // other heading levels are not marked up
    assert_eq!(md("<h3>Three</h3>"), "Three");
    assert_eq!(md("<H1>Upper</H1>"), "Upper");
}

#[test]
fn paragraphs_and_runs() {
    assert_eq!(md("<p>One</p><p>Two</p>"), "One\n\nTwo");
    assert_eq!(md("<p></p><p>Two</p>"), "Two");
    assert_eq!(md("loose <b>text</b> here"), "loose **text** here");
    assert_eq!(md("a<p>b</p>c"), "a\n\nb\n\nc");
    assert_eq!(md("<div>a</div><div>b</div>"), "a\n\nb");
    assert_eq!(md("<p>tabs\tand\nnewlines   collapse</p>"), "tabs and newlines collapse");
}

#[test]
fn emphasis() {
    assert_eq!(md("<p><strong>s</strong> <b>b</b> <em>e</em> <i>i</i></p>"), "**s** **b** *e* *i*");
    assert_eq!(md("<p>x<strong></strong>y</p>"), "x **** y");
}

#[test]
fn links_and_images() {
    assert_eq!(md(r#"<a href="https://e.x/">text</a>"#), "[text](https://e.x/)");
    assert_eq!(md("<a href='single'>text</a>"), "[text](single)");
    assert_eq!(md("<a href=bare>text</a>"), "[text](bare)");
    assert_eq!(md("<a>text</a>"), "[text](#)");
    assert_eq!(md(r#"<p>before <a href="u"></a> after</p>"#), "before after");
    assert_eq!(md(r#"<a class="c" href="u" id="i">t</a>"#), "[t](u)");
    assert_eq!(md(r#"<img src="s.png" alt="An image">"#), "![An image](s.png)");
    assert_eq!(md(r#"<img src="s.png"/>"#), "![](s.png)");
    assert_eq!(md(r#"<p>x <img alt="no source"> y</p>"#), "x y");
    assert_eq!(md(r#"<a href="u"><img src="s" alt="a"></a>"#), "[![a](s)](u)");
}

#[test]
fn lists() {
    assert_eq!(md("<ul><li>a</li><li>b</li></ul>"), "- a\n- b");
    assert_eq!(md("<ol><li>a</li><li>b</li><li>c</li></ol>"), "1. a\n2. b\n3. c");
    assert_eq!(md("<ul>\n <li>a</li>\n text \n<li><em>b</em> c</li>\n</ul><p>after</p>"), "- a\n- *b* c\n\nafter");
    assert_eq!(md("<li>alone</li>"), "- alone");
    assert_eq!(md("<p>x</p><li></li><p>y</p>"), "x\n\ny");
    let many: String = (0..12).map(|i| format!("<li>i{}</li>", i)).collect();
    let out = md(&format!("<ol>{}</ol>", many));
    assert!(out.ends_with("10. i9\n11. i10\n12. i11"));
}

#[test]
fn line_breaks_and_quotes() {
    assert_eq!(md("one<br>two"), "one  \ntwo");
    assert_eq!(md("<p>one<br/>two<br />three</p>"), "one  \ntwo  \nthree");
    assert_eq!(md("<p><br>edge<br></p>"), "edge");
    assert_eq!(md("<blockquote>quote</blockquote>"), "> quote");
    assert_eq!(md("<blockquote>one<br>two</blockquote><p>p</p>"), "> one  \n> two\n\np");
    assert_eq!(md("<p>x</p><blockquote>  </blockquote>"), "x");
}

#[test]
fn stripped_elements() {
    assert_eq!(md("<p>a</p><script>var x = 1;</script><style>p {}</style><noscript>no</noscript><p>b</p>"), "a\n\nb");
    assert_eq!(md("<p>a <script>x</script> b</p>"), "a b");
    assert_eq!(md("<p>kept</p><script>never closed"), "kept");
}

#[test]
fn comments_and_declarations() {
    assert_eq!(md("<!DOCTYPE html><p>a</p><!-- gone --><p>b</p>"), "a\n\nb");
    assert_eq!(md("<p>a</p><!-- never closed >b"), "a");
    assert_eq!(md("<p>a</p><!-- < with > inside -->b"), "a\n\nb");
    assert_eq!(md("<?xml version=\"1.0\"?><p>a</p>"), "a");
}

#[test]
fn entities() {
    assert_eq!(md("<p>&amp; &lt; &gt; &quot; x&nbsp;y</p>"), "& < > \" x y");
    assert_eq!(md("<p>&amp;lt;</p>"), "<");
    assert_eq!(md("<p>&copy; &unknown;</p>"), "&copy; &unknown;");
}

#[test]
fn blank_lines_are_collapsed() {
    assert_eq!(md("<h1></h1><h1></h1><p>x</p>"), "# \n\n# \n\nx");
    assert_eq!(md("<ul></ul><ul></ul><p>x</p>"), "x");
    assert_eq!(md("<p>a</p><ul></ul><ul></ul><ul></ul><p>b</p>"), "a\n\nb");
}

#[test]
fn unclosed_and_stray_tags() {
    assert_eq!(md("<p>open <b>bold"), "open **bold**");
    assert_eq!(md("<div><p>a</div>b"), "a\n\nb");
    assert_eq!(md("a</p>b"), "a b");
    assert_eq!(md("<b>x</i>y</b>"), "**x y**");
}

#[test]
fn validation() {
    let c = HtmlConverter::new();
    for input in ["", "   ", "\n\t \r\n"] {
        match c.convert_to_markdown(input) {
            Err(CrawlerError::HtmlConversion(HtmlConversionError::EmptyContent)) => {}
            other => panic!("unexpected {:?}", other),
        }
        match c.render(input, "l") {
            Err(CrawlerError::HtmlConversion(HtmlConversionError::EmptyContent)) => {}
            other => panic!("unexpected {:?}", other),
        }
    }
    for input in ["<p", "a > b", "<p>x</p><", "<<p>>x</p>>>"] {
        match c.convert_to_markdown(input) {
            Err(CrawlerError::HtmlConversion(HtmlConversionError::InvalidHtml(m))) => {
                assert_eq!(m, "Malformed HTML structure")
            }
            other => panic!("unexpected {:?} for {:?}", other, input),
        }
    }
    assert_eq!(c.convert_to_markdown("plain text").unwrap(), "plain text");
    assert_eq!(c.convert_to_markdown("<p>a").unwrap(), "a");
    assert_eq!(c.convert_to_markdown("<>").unwrap(), "");
    assert_eq!(c.render("<>", "label").unwrap(), "# label\n");
}

#[test]
fn recovery() {
    let c = HtmlConverter::new();
    // a dangling `<` at the end is dropped
    assert_eq!(c.convert_to_markdown_with_recovery("<p>x</p><").unwrap(), "x");
    assert_eq!(c.convert_to_markdown_with_recovery("<p>x</p><<<").unwrap(), "x");
    // a leading `>` is dropped
    assert_eq!(c.convert_to_markdown_with_recovery("><p>x</p>").unwrap(), "x");
    // doubled brackets are halved
    assert_eq!(c.convert_to_markdown_with_recovery("<<p>x</p>").unwrap(), "x");
    assert_eq!(c.render_with_recovery("<p>x</p>>", "l").unwrap(), "x\n");
    // each pattern is replaced in one pass, so three in a row leave two
    assert!(c.render_with_recovery("<p>x</p>>>", "l").is_err());
    // markup that is fine is not touched
    assert_eq!(c.convert_to_markdown_with_recovery("<p>a <> b</p>").unwrap(), "a b");
    // what cannot be repaired gives the first error
    match c.convert_to_markdown_with_recovery("<p>a < b</p>") {
        Err(CrawlerError::HtmlConversion(HtmlConversionError::InvalidHtml(_))) => {}
        other => panic!("unexpected {:?}", other),
    }
    match c.convert_to_markdown_with_recovery("") {
        Err(CrawlerError::HtmlConversion(HtmlConversionError::EmptyContent)) => {}
        other => panic!("unexpected {:?}", other),
    }
    // cleaning may leave nothing; the first error stands
    match c.render_with_recovery("<", "l") {
        Err(CrawlerError::HtmlConversion(HtmlConversionError::InvalidHtml(_))) => {}
        other => panic!("unexpected {:?}", other),
    }
    let recoverable = "<html><body><h1>Title</h1><p>Content<</body></html>";
    assert!(c.convert_to_markdown(recoverable).is_err());
}

#[test]
fn same_input_same_output() {
    let html = "<h1>T</h1><ul><li>a</li><li>b</li></ul><p>x <a href='u'>y</a></p>";
    let first = md(html);
    for _ in 0..5 {
        assert_eq!(md(html), first);
    }
}

#[test]
fn parsed_tree() {
    let nodes = parse_html(r#"<div id="a" hidden>hi<br><span class='x y'>there</span></div>tail"#);
    assert_eq!(nodes.len(), 2);
    match &nodes[0] {
        DomNode::Element { tag, attrs, children } => {
            assert_eq!(text(tag), "div");
            let attrs: Vec<(String, String)> =
                attrs.iter().map(|(n, v)| (text(n), text(v))).collect();
            assert_eq!(
                attrs,
                vec![("id".to_string(), "a".to_string()), ("hidden".to_string(), String::new())]
            );
            assert_eq!(children.len(), 3);
            match &children[0] {
                DomNode::Text { content } => assert_eq!(text(content), "hi"),
                _ => panic!(),
            }
            match &children[1] {
                DomNode::Element { tag, children, .. } => {
                    assert_eq!(text(tag), "br");
                    assert!(children.is_empty());
                }
                _ => panic!(),
            }
            match &children[2] {
                DomNode::Element { tag, attrs, children } => {
                    assert_eq!(text(tag), "span");
                    assert_eq!(text(&attrs[0].0), "class");
                    assert_eq!(text(&attrs[0].1), "x y");
                    assert_eq!(children.len(), 1);
                }
                _ => panic!(),
            }
        }
        _ => panic!(),
    }
    match &nodes[1] {
        DomNode::Text { content } => assert_eq!(text(content), "tail"),
        _ => panic!(),
    }
    assert_eq!(to_chars("añb").len(), 3);
}
