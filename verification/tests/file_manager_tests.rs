use site_harvest::errors::{CrawlerError, FileOperationError};
use site_harvest::file_manager::FileManager;

#[test]
fn test_generate_filename_from_root_url() {
    let file_manager = FileManager::new("test").unwrap();
    let filename = file_manager.generate_filename("https://example.com/");

    assert_eq!(filename, "example.com_index.md");
}

#[test]
fn test_generate_filename_from_path_url() {
    let file_manager = FileManager::new("test").unwrap();
    let filename = file_manager.generate_filename("https://example.com/docs/getting-started");

    assert_eq!(filename, "docs_getting-started.md");
}

#[test]
fn test_sanitize_filename_removes_invalid_chars() {
    let file_manager = FileManager::new("test").unwrap();
    let sanitized = file_manager.sanitize_filename("file<>:\"name|?*");

    assert_eq!(sanitized, "file____name___.md");
}

#[test]
fn test_sanitize_filename_handles_dots_and_hyphens() {
    let file_manager = FileManager::new("test").unwrap();
    let sanitized = file_manager.sanitize_filename(".hidden-file");

    assert_eq!(sanitized, "page_.hidden-file.md");
}

#[test]
fn filenames_from_urls() {
    let m = FileManager::new("out").unwrap();
    assert_eq!(m.generate_filename("https://example.com/docs/start"), "docs_start.md");
    assert_eq!(m.generate_filename("https://example.com"), "example.com_index.md");
    assert_eq!(m.generate_filename("https://example.com//"), "example.com_index.md");
    assert_eq!(m.generate_filename("https://api.example.com/v1/users"), "v1_users.md");
    assert_eq!(m.generate_filename("https://blog.example.com/2023/12/my-post/"), "2023_12_my-post.md");
    assert_eq!(m.generate_filename("not a url"), "unknown_page.md");
    assert_eq!(m.generate_filename("https://example.com/a b"), "a_20b.md");
    assert_eq!(m.generate_raw_filename("https://example.com/docs/start"), "docs_start.html");
    assert_eq!(m.generate_raw_filename("https://example.com/"), "example.com_index.html");
}

#[test]
fn sanitizing_edge_cases() {
    let m = FileManager::new("out").unwrap();
    assert_eq!(m.sanitize_filename(""), "page.md");
    assert_eq!(m.sanitize_filename("-x"), "page_-x.md");
    assert_eq!(m.sanitize_filename("a/b\\c"), "a_b_c.md");
    assert_eq!(m.sanitize_filename("héllo wörld"), "h_llo_w_rld.md");
    assert_eq!(m.sanitize_filename(&"x".repeat(300)), format!("{}.md", "x".repeat(200)));
    assert_eq!(m.sanitize_filename(&"x".repeat(200)), format!("{}.md", "x".repeat(200)));
    let dotted = format!(".{}", "y".repeat(250));
    assert_eq!(m.sanitize_filename(&dotted), format!("page_.{}.md", "y".repeat(194)));
}

#[test]
fn colliding_names_are_numbered() {
    let mut m = FileManager::new("out").unwrap();
    assert_eq!(m.ensure_unique_filename("test.md"), "test.md");
    assert_eq!(m.ensure_unique_filename("test.md"), "test_1.md");
    assert_eq!(m.ensure_unique_filename("test.md"), "test_2.md");
    assert_eq!(m.ensure_unique_filename("other.md"), "other.md");
    m.mark_taken("other_1.md");
    assert_eq!(m.ensure_unique_filename("other.md"), "other_2.md");
    assert_eq!(m.ensure_unique_filename("noext"), "noext");
    assert_eq!(m.ensure_unique_filename("noext"), "noext_1");
    assert_eq!(m.ensure_unique_filename("a.b.html"), "a.b.html");
    assert_eq!(m.ensure_unique_filename("a.b.html"), "a.b_1.html");
    for n in 3..12 {
        assert_eq!(m.ensure_unique_filename("test.md"), format!("test_{}.md", n));
    }
}

#[test]
fn empty_output_directory_is_refused() {
    match FileManager::new("") {
        Err(CrawlerError::FileOperation(FileOperationError::InvalidPath(m))) => {
            assert_eq!(m, "Empty path")
        }
        _ => panic!("expected InvalidPath"),
    }
    assert_eq!(FileManager::new("out").unwrap().get_output_dir(), "out");
}
