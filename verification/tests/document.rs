use daft_html::document::{
    extract_links_str, extract_meta_str, get_title_str, strip_html_str, text_ratio_parts,
    try_extract_links_str, try_extract_meta_str, try_get_title_str,
};
use daft_html::tables::{extract_tables_str, rows_to_markdown, try_extract_tables_str};

fn text_ratio_str(html: &str) -> f64 {
    let (visible, total) = text_ratio_parts(html);
    if total == 0 {
        return 0.0;
    }
    visible as f64 / total as f64
}

#[test]
fn test_strip_html_basic() {
    assert_eq!(strip_html_str("<p>Hello world</p>"), "Hello world");
}

#[test]
fn test_strip_html_script_removed() {
    let result = strip_html_str("<p>text</p><script>alert(1)</script>");
    assert_eq!(result, "text");
}

#[test]
fn test_strip_html_nested() {
    let result = strip_html_str("<div><p>Hello</p><p>World</p></div>");
    assert!(result.contains("Hello"), "got: {result:?}");
    assert!(result.contains("World"), "got: {result:?}");
}

#[test]
fn test_strip_html_empty() {
    assert_eq!(strip_html_str(""), "");
}

#[test]
fn test_get_title_found() {
    assert_eq!(
        get_title_str("<html><head><title>My Page</title></head></html>"),
        Some("My Page".to_string())
    );
}

#[test]
fn test_get_title_missing() {
    assert_eq!(
        get_title_str("<html><body><p>no title</p></body></html>"),
        None
    );
}

#[test]
fn test_get_title_whitespace_trimmed() {
    assert_eq!(
        get_title_str("<title>  spaces  </title>"),
        Some("spaces".to_string())
    );
}

#[test]
fn test_text_ratio_high() {
    let ratio = text_ratio_str("<p>hello world</p>");
    assert!(ratio > 0.3, "got: {ratio}");
}

#[test]
fn test_text_ratio_low() {
    let ratio = text_ratio_str("<div><span><a href='x'></a></span></div>");
    assert!(ratio < 0.1, "got: {ratio}");
}

#[test]
fn test_text_ratio_empty() {
    assert_eq!(text_ratio_str(""), 0.0);
}

#[test]
fn test_extract_meta_description() {
    let html = r#"<meta name="description" content="A great page">"#;
    assert_eq!(
        extract_meta_str(html, "description"),
        Some("A great page".to_string())
    );
}

#[test]
fn test_extract_meta_og_property() {
    let html = r#"<meta property="og:title" content="OG Title">"#;
    assert_eq!(
        extract_meta_str(html, "og:title"),
        Some("OG Title".to_string())
    );
}

#[test]
fn test_extract_meta_missing() {
    assert_eq!(extract_meta_str("<p>no meta</p>", "description"), None);
}

#[test]
fn test_extract_links_basic() {
    let html = r#"<a href="https://example.com">link</a><a href="/path">local</a>"#;
    let links = extract_links_str(html);
    assert_eq!(links, vec!["https://example.com", "/path"]);
}

#[test]
fn test_extract_links_no_href_skipped() {
    let html = r#"<a name="anchor">no href</a><a href="https://x.com">yes</a>"#;
    let links = extract_links_str(html);
    assert_eq!(links, vec!["https://x.com"]);
}

#[test]
fn test_extract_links_empty() {
    assert!(extract_links_str("<p>no links here</p>").is_empty());
}

#[test]
fn test_extract_tables_basic() {
    let html = r#"
        <table>
          <tr><th>Name</th><th>Score</th></tr>
          <tr><td>Alice</td><td>95</td></tr>
          <tr><td>Bob</td><td>87</td></tr>
        </table>
    "#;
    let tables = extract_tables_str(html);
    assert_eq!(tables.len(), 1);
    let md = &tables[0];
    assert!(md.contains("Name"), "header missing: {md}");
    assert!(md.contains("Score"), "header missing: {md}");
    assert!(md.contains("Alice"), "data missing: {md}");
    assert!(md.contains("---|"), "separator missing: {md}");
}

#[test]
fn test_extract_tables_multiple() {
    let html = r#"
        <table><tr><td>T1</td></tr></table>
        <p>between</p>
        <table><tr><td>T2</td></tr></table>
    "#;
    let tables = extract_tables_str(html);
    assert_eq!(tables.len(), 2);
    assert!(tables[0].contains("T1"));
    assert!(tables[1].contains("T2"));
}

#[test]
fn test_extract_tables_nested_outer_only() {
    let html = r#"
        <table>
          <tr><td>outer<table><tr><td>inner</td></tr></table></td></tr>
        </table>
    "#;
    let tables = extract_tables_str(html);
    assert_eq!(tables.len(), 1);
}

#[test]
fn test_extract_tables_empty_doc() {
    assert!(extract_tables_str("<p>no tables</p>").is_empty());
}

// ── Further cases ───────────────────────────────────────────────────────────

#[test]
fn readme_example_rows() {
    let first = "<html><head><title>Hello</title></head><body><p>World</p></body></html>";
    let second = "<p>Just <b>text</b> here. <a href='https://example.com'>link</a></p>";
    assert_eq!(strip_html_str(first), "World");
    assert_eq!(get_title_str(first), Some("Hello".to_string()));
    assert!(extract_links_str(first).is_empty());
    assert_eq!(strip_html_str(second), "Just text here.");
    assert_eq!(get_title_str(second), None);
    assert_eq!(extract_links_str(second), vec!["https://example.com"]);
}

#[test]
fn strip_html_block_elements_break_lines() {
    assert_eq!(strip_html_str("<div><p>Hello</p><p>World</p></div>"), "Hello\nWorld");
    assert_eq!(strip_html_str("a<br>b"), "a\nb");
}

#[test]
fn strip_html_skips_style_and_noscript() {
    let html = "<style>p{}</style><p>seen</p><noscript>hidden</noscript>";
    assert_eq!(strip_html_str(html), "seen");
}

#[test]
fn strip_html_leaves_out_link_labels() {
    assert_eq!(strip_html_str(r#"<p>see <a href="/x">here</a> now</p>"#), "see  now");
    assert_eq!(strip_html_str(r#"<a href="/x"><b>all link</b></a>"#), "");
}

#[test]
fn strip_html_result_is_trimmed() {
    let out = strip_html_str("<p>   padded   </p>");
    assert_eq!(out, "padded");
}

#[test]
fn strip_html_decodes_entities() {
    assert_eq!(strip_html_str("<p>a &amp; b</p>"), "a & b");
}

#[test]
fn text_ratio_parts_exact() {
    assert_eq!(text_ratio_parts("<p>hello world</p>"), (10, 18));
    assert_eq!(text_ratio_parts(""), (0, 0));
    assert_eq!(text_ratio_parts("<p>é</p>"), (1, 9));
}

#[test]
fn title_blank_is_none() {
    assert_eq!(get_title_str("<title>   </title>"), None);
}

#[test]
fn title_first_of_two() {
    assert_eq!(
        get_title_str("<title>One</title><title>Two</title>"),
        Some("One".to_string())
    );
}

#[test]
fn meta_without_content_is_skipped() {
    let html = r#"<meta name="d"><meta name="d" content="second">"#;
    assert_eq!(extract_meta_str(html, "d"), Some("second".to_string()));
}

#[test]
fn meta_first_match_wins() {
    let html = r#"<meta property="x" content="1"><meta name="x" content="2">"#;
    assert_eq!(extract_meta_str(html, "x"), Some("1".to_string()));
}

#[test]
fn links_keep_empty_href() {
    assert_eq!(extract_links_str(r#"<a href="">e</a>"#), vec![""]);
}

#[test]
fn checked_variants_agree() {
    let html = r#"<title>T</title><meta name="n" content="c"><a href="h">x</a><table><tr><td>1</td></tr></table>"#;
    assert_eq!(try_get_title_str(html).ok().unwrap(), get_title_str(html));
    assert_eq!(try_extract_meta_str(html, "n").ok().unwrap(), extract_meta_str(html, "n"));
    assert_eq!(try_extract_links_str(html).ok().unwrap(), extract_links_str(html));
    assert_eq!(try_extract_tables_str(html).ok().unwrap(), extract_tables_str(html));
}

#[test]
fn tables_markdown_exact() {
    let html = "<table><tr><th>A</th><th>B</th></tr><tr><td>1</td></tr></table>";
    let tables = extract_tables_str(html);
    assert_eq!(tables, vec!["| A | B |\n|---|---|\n| 1 |  |\n"]);
}

#[test]
fn tables_pipe_escaped() {
    let tables = extract_tables_str("<table><tr><td>a|b</td></tr></table>");
    assert_eq!(tables, vec!["| a\\|b |\n"]);
}

#[test]
fn tables_without_cells_dropped() {
    assert!(extract_tables_str("<table><tr></tr></table>").is_empty());
}

#[test]
fn rows_to_markdown_cases() {
    let empty: Vec<Vec<(String, bool)>> = vec![];
    assert_eq!(rows_to_markdown(&empty), "");
    let rows = vec![
        vec![("x".to_string(), false)],
        vec![("h1".to_string(), true), ("h2".to_string(), true)],
        vec![("h3".to_string(), true)],
    ];
    assert_eq!(
        rows_to_markdown(&rows),
        "| x |  |\n| h1 | h2 |\n|---|---|\n| h3 |  |\n"
    );
    let no_cells = vec![vec![], vec![]];
    assert_eq!(rows_to_markdown(&no_cells), "");
}
