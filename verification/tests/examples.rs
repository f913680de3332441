use mem_core::parser::{extract_links, extract_tags};
use mem_core::search::{extract_snippet, highlight_match};
use mem_core::util::generate_slug;

#[test]
fn slug_basic() {
    assert_eq!(generate_slug("Hello World"), "hello-world");
    assert_eq!(generate_slug("  Multi  -- Spaces  "), "multi-spaces");
    assert_eq!(generate_slug("Тест 123"), "тест-123");
}

#[test]
fn highlight_case_insensitive() {
    assert_eq!(highlight_match("Hello World", "world"), "Hello <m>World</m>");
    assert_eq!(highlight_match("SQL query", "sql"), "<m>SQL</m> query");
}

#[test]
fn highlight_substring() {
    assert_eq!(highlight_match("postgresql", "sql"), "postgre<m>sql</m>");
}

#[test]
fn highlight_no_match() {
    assert_eq!(highlight_match("hello", "xyz"), "hello");
}

#[test]
fn snippet_basic() {
    let content = "This is a test document about SQL databases and queries.";
    let snippet = extract_snippet(content, "SQL", 15);
    assert!(snippet.contains("<m>SQL</m>"));
}

#[test]
fn snippet_at_start() {
    let content = "SQL is great for data";
    let snippet = extract_snippet(content, "SQL", 20);
    assert!(snippet.starts_with("<m>SQL</m>"));
}

#[test]
fn snippet_case_insensitive() {
    let content = "Working with PostgreSQL is fun";
    let snippet = extract_snippet(content, "sql", 15);
    assert!(snippet.contains("<m>SQL</m>"));
}

#[test]
fn test_extract_tags() {
    let text = "Hello #world and #rust_lang, also check out #World again.";
    let mut tags = extract_tags(text);
    tags.sort();
    assert_eq!(tags, vec!["rust_lang", "world"]);
}

#[test]
fn test_extract_links() {
    let text = "See [[My Note]] and [[Other-Note]] or [[ My Note ]]";
    let links = extract_links(text);
    assert_eq!(links, vec!["My Note", "Other-Note"]);
}
