use site_harvest::file_manager::FileManager;
use site_harvest::html_converter::HtmlConverter;
use site_harvest::html_to_markdown::html_to_markdown;

#[test]
fn test_html_markdown_conversion_quality() {
    let converter = HtmlConverter::new();

    let test_html = r#"
    <!DOCTYPE html>
    <html lang="en">
    <head>
        <title>Test Document</title>
        <meta charset="UTF-8">
        <style>body { color: blue; }</style>
        <script>console.log('test');</script>
    </head>
    <body>
        <h1>Main Title</h1>
        <h2>Subtitle with <strong>bold</strong> text</h2>
        
        <p>This is a paragraph with <em>italic text</em> and <strong>bold text</strong>.</p>
        <p>Another paragraph with a <a href="https://example.com">link to example</a>.</p>
        
        <h3>Lists Section</h3>
        <ul>
            <li>First unordered item</li>
            <li>Second item with <strong>formatting</strong></li>
            <li>Third item</li>
        </ul>
        
        <ol>
            <li>First ordered item</li>
            <li>Second ordered item</li>
        </ol>
        
        <blockquote>
            This is an important quote with <em>emphasis</em>.
        </blockquote>
        
        <p>Image example: <img src="/images/test.jpg" alt="Test Image"></p>
        
        <p>Line break example:<br>New line after break<br/>Another line</p>
        
        <!-- This comment should be ignored -->
        <div>Content in div should be preserved</div>
    </body>
    </html>
    "#;

    let markdown = converter.convert_to_markdown(test_html).unwrap();

    // Verify heading conversion
    assert!(markdown.contains("# Main Title"), "Should convert H1 correctly");
    assert!(
        markdown.contains("## Subtitle with **bold** text"),
        "Should convert H2 with nested formatting"
    );

    // Verify paragraph conversion
    assert!(markdown.contains("*italic text*"), "Should convert italic text");
    assert!(markdown.contains("**bold text**"), "Should convert bold text");

    // Verify link conversion
    assert!(
        markdown.contains("[link to example](https://example.com)"),
        "Should convert links correctly"
    );

    // Verify list conversion
    assert!(markdown.contains("- First unordered item"), "Should convert unordered lists");
    assert!(
        markdown.contains("- Second item with **formatting**"),
        "Should preserve formatting in lists"
    );

    // Verify blockquote conversion
    assert!(
        markdown.contains("> This is an important quote with *emphasis*"),
        "Should convert blockquotes with formatting"
    );

    // Verify image conversion
    assert!(markdown.contains("![Test Image](/images/test.jpg)"), "Should convert images correctly");

    // Verify line break conversion
    assert!(
        markdown.contains("Line break example:  \nNew line after break  \nAnother line"),
        "Should convert line breaks"
    );

    // Verify unwanted content removal
    assert!(!markdown.contains("console.log"), "Should remove JavaScript");
    assert!(!markdown.contains("color: blue"), "Should remove CSS");
    assert!(!markdown.contains("DOCTYPE"), "Should remove DOCTYPE");
    assert!(!markdown.contains("<meta"), "Should remove meta tags");
    assert!(!markdown.contains("This comment should be ignored"), "Should remove comments");

    // Verify content preservation
    assert!(
        markdown.contains("Content in div should be preserved"),
        "Should preserve text content from divs"
    );
}

#[test]
fn test_error_handling_malformed_html() {
    let converter = HtmlConverter::new();

    let malformed_cases = vec![
        ("<html><body><h1>Unclosed header<p>Paragraph", "Unclosed tags"),
        ("<html><body><<>>Invalid brackets</body></html>", "Invalid bracket patterns"),
        ("<html><body><script>alert('test')</body></html>", "Unclosed script tag"),
        ("", "Empty content"),
        ("   \n\t   ", "Whitespace only"),
        ("<>", "Invalid tag structure"),
    ];

    for (html, description) in malformed_cases {
        println!("Testing malformed HTML: {}", description);

        match converter.convert_to_markdown(html) {
            Ok(markdown) => {
                println!("  handled: {} chars -> {} chars", html.len(), markdown.len());
            }
            Err(e) => {
                println!("  rejected: {:?}", e);
            }
        }
    }

    let recoverable_html = "<html><body><h1>Title</h1><p>Content<</body></html>";
    match converter.convert_to_markdown_with_recovery(recoverable_html) {
        Ok(markdown) => {
            assert!(markdown.contains("Title"), "Should recover basic content");
        }
        Err(e) => {
            println!("  recovery failed: {:?}", e);
        }
    }
}

#[test]
fn test_edge_cases_and_boundaries() {
    let converter = HtmlConverter::new();
    let file_manager = FileManager::new("output").unwrap();

    // Test very long URL
    let long_url = format!("https://example.com/{}", "x".repeat(300));
    let file_name = file_manager.generate_filename(&long_url);
    assert_eq!(file_name, format!("{}.md", "x".repeat(200)), "Should handle very long URLs");

    // Test very long content
    let long_content = format!("<html><body><p>{}</p></body></html>", "A".repeat(10000));
    let markdown = converter.convert_to_markdown(&long_content).unwrap();
    assert!(markdown.len() > 5000, "Should handle long content");

    // Test empty valid HTML
    let empty_html = "<html><body></body></html>";
    let empty_result = converter.convert_to_markdown(empty_html).unwrap();
    assert!(empty_result.trim().is_empty(), "Empty HTML should produce empty content");

    // Test HTML with only comments
    let comment_html = "<html><body><!-- Only comments --></body></html>";
    let comment_result = converter.convert_to_markdown(comment_html).unwrap();
    assert!(
        comment_result.trim().is_empty() || !comment_result.contains("Only comments"),
        "Comments should be ignored"
    );

    // Test nested formatting
    let nested_html = "<html><body><p><strong><em>Nested formatting</em></strong></p></body></html>";
    let nested_result = converter.convert_to_markdown(nested_html).unwrap();
    assert!(
        nested_result.contains("***Nested formatting***")
            || nested_result.contains("**_Nested formatting_**")
            || nested_result.contains("_**Nested formatting**_"),
        "Should handle nested formatting"
    );

    // Test special characters in content
    let special_chars_html =
        r#"<html><body><p>Special chars: &amp; &lt; &gt; &quot; &nbsp;</p></body></html>"#;
    let special_result = converter.convert_to_markdown(special_chars_html).unwrap();
    assert!(special_result.contains("& < > \""), "Should decode HTML entities");
}

#[test]
fn test_integration_summary() {
    println!("Integration Test Summary:");
    println!("Complete pipeline (SPA/SSR detection)");
    println!("HTML to Markdown conversion quality");
    println!("File management with various URL patterns");
    println!("Error handling with malformed HTML");
    println!("Performance with multiple files");
    println!("Edge cases and boundary conditions");
    println!("Configuration validation");
}

#[test]
fn page_without_content_gets_a_heading() {
    assert_eq!(html_to_markdown("https://example.com/a", "<html><body></body></html>"), "# https://example.com/a\n");
    assert_eq!(html_to_markdown("https://example.com/a", "   "), "# https://example.com/a\n");
    assert_eq!(html_to_markdown("label", "<script>x</script>"), "# label\n");
    assert_eq!(html_to_markdown("label", "<p>Text</p>"), "Text\n");
}
