use site_harvest::html_converter::HtmlConverter;

#[test]
fn test_convert_headings() {
    let converter = HtmlConverter::new();
    let html = "<h1>Title</h1><h2>Subtitle</h2>";
    let result = converter.convert_to_markdown(html).unwrap();
    assert!(result.contains("# Title"));
    assert!(result.contains("## Subtitle"));
}

#[test]
fn test_convert_paragraphs() {
    let converter = HtmlConverter::new();
    let html = "<p>First paragraph</p><p>Second paragraph</p>";
    let result = converter.convert_to_markdown(html).unwrap();
    assert!(result.contains("First paragraph"));
    assert!(result.contains("Second paragraph"));
}

#[test]
fn test_convert_lists() {
    let converter = HtmlConverter::new();
    let html = "<ul><li>Item 1</li><li>Item 2</li></ul>";
    let result = converter.convert_to_markdown(html).unwrap();
    assert!(result.contains("- Item 1"));
    assert!(result.contains("- Item 2"));
}

#[test]
fn test_convert_links() {
    let converter = HtmlConverter::new();
    let html = r#"<a href="https://example.com">Example Link</a>"#;
    let result = converter.convert_to_markdown(html).unwrap();
    assert!(result.contains("[Example Link](https://example.com)"));
}

#[test]
fn test_convert_images() {
    let converter = HtmlConverter::new();
    let html = r#"<img src="image.jpg" alt="Test Image">"#;
    let result = converter.convert_to_markdown(html).unwrap();
    assert!(result.contains("![Test Image](image.jpg)"));
}

#[test]
fn test_convert_formatting() {
    let converter = HtmlConverter::new();
    let html = "<strong>Bold text</strong> and <em>italic text</em>";
    let result = converter.convert_to_markdown(html).unwrap();
    assert!(result.contains("**Bold text**"));
    assert!(result.contains("*italic text*"));
}

#[test]
fn test_convert_blockquotes() {
    let converter = HtmlConverter::new();
    let html = "<blockquote>This is a quote</blockquote>";
    let result = converter.convert_to_markdown(html).unwrap();
    assert!(result.contains("> This is a quote"));
}

#[test]
fn test_convert_line_breaks() {
    let converter = HtmlConverter::new();
    let html = "Line 1<br>Line 2<br/>Line 3";
    let result = converter.convert_to_markdown(html).unwrap();
    println!("{:?}", result);
    assert!(result.contains("Line 1  \nLine 2  \nLine 3"));
}

#[test]
fn test_empty_html() {
    let converter = HtmlConverter::new();
    let result = converter.convert_to_markdown("");
    assert!(result.is_err(), "Empty HTML should return an error");

    let empty_valid_html = "<html><body></body></html>";
    let result = converter.convert_to_markdown(empty_valid_html).unwrap();
    assert!(
        result.is_empty() || result.trim().is_empty(),
        "Empty valid HTML should return empty or whitespace-only content"
    );
}

#[test]
fn test_remove_script_tags() {
    let converter = HtmlConverter::new();
    let html = "<p>Content</p><script>alert('test');</script><p>More content</p>";
    let result = converter.convert_to_markdown(html).unwrap();
    assert!(!result.contains("alert"));
    assert!(result.contains("Content"));
    assert!(result.contains("More content"));
}

#[test]
fn render_heading_and_paragraph_exactly() {
    let converter = HtmlConverter::new();
    let out = converter.render("<h1>A</h1><p>B <strong>C</strong></p>", "label").unwrap();
    assert_eq!(out, "# A\n\nB **C**\n");
}

#[test]
fn render_unclosed_tags_keeps_text() {
    let converter = HtmlConverter::new();
    let out = converter.render("<h1>Title<p>Body", "src").unwrap();
    assert!(out.contains("Title"));
    assert!(out.contains("Body"));
    assert_eq!(out, "# Title Body\n");
}

#[test]
fn show_full_document() {
    let converter = HtmlConverter::new();
    let html = r#"
    <!DOCTYPE html>
    <html lang="en">
    <head>
        <title>Test Document</title>
        <meta charset="UTF-8">
        <style>body { color: blue; }</style>
        <script>console.log('test');</script>
    </head>
    <body>
        <h1>Main Title</h1>
        <h2>Subtitle with <strong>bold</strong> text</h2>
        <p>This is a paragraph with <em>italic text</em> and <strong>bold text</strong>.</p>
        <ul>
            <li>First unordered item</li>
            <li>Second item with <strong>formatting</strong></li>
        </ul>
        <ol>
            <li>First ordered item</li>
            <li>Second ordered item</li>
        </ol>
        <blockquote>
            This is an important quote with <em>emphasis</em>.
        </blockquote>
        <p>Image example: <img src="/images/test.jpg" alt="Test Image"></p>
        <p>Line break example:<br>New line after break<br/>Another line</p>
        <!-- This comment should be ignored -->
        <div>Content in div should be preserved &amp; more</div>
    </body>
    </html>
    "#;
    let out = converter.render(html, "x").unwrap();
    println!("{}", out);
    assert_eq!(
        out,
        "Test Document\n\n# Main Title\n\n## Subtitle with **bold** text\n\nThis is a paragraph with *italic text* and **bold text** .\n\n- First unordered item\n- Second item with **formatting**\n\n1. First ordered item\n2. Second ordered item\n\n> This is an important quote with *emphasis* .\n\nImage example: ![Test Image](/images/test.jpg)\n\nLine break example:  \nNew line after break  \nAnother line\n\nContent in div should be preserved & more\n"
    );
}
