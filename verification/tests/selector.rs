use daft_html::scrape::CssSelector;
use daft_html::selector::{count_elements_str, extract_text_str, get_attribute_str, has_element_str};

fn sel(s: &str) -> CssSelector {
    match CssSelector::new(s) {
        Ok(s) => s,
        Err(e) => panic!("selector {s:?} refused: {}", e.message),
    }
}

#[test]
fn test_extract_text_basic() {
    let text = extract_text_str(r#"<div id="main"><p>Hello CSS</p></div>"#, &sel("#main p"));
    assert_eq!(text.as_deref(), Some("Hello CSS"));
}

#[test]
fn test_extract_text_missing() {
    let html = "<p>no match</p>";
    let s = sel(".nonexistent");
    assert!(extract_text_str(html, &s).is_none());
    assert!(!has_element_str(html, &s));
}

#[test]
fn test_get_attribute_basic() {
    let src = get_attribute_str(r#"<img src="photo.jpg" alt="a photo">"#, &sel("img"), "src");
    assert_eq!(src.as_deref(), Some("photo.jpg"));
}

#[test]
fn test_has_element_true() {
    assert!(has_element_str(r#"<div class="hero"><h1>Title</h1></div>"#, &sel(".hero")));
}

#[test]
fn test_has_element_false() {
    assert!(!has_element_str("<p>no hero here</p>", &sel(".hero")));
}

#[test]
fn test_count_elements() {
    assert_eq!(count_elements_str("<ul><li>a</li><li>b</li><li>c</li></ul>", &sel("li")), 3);
}

#[test]
fn test_count_elements_zero() {
    assert_eq!(count_elements_str("<p>no list</p>", &sel("li")), 0);
}

// ── Further cases ───────────────────────────────────────────────────────────

#[test]
fn invalid_selector_is_refused() {
    let r = CssSelector::new("p[");
    assert!(r.is_err());
    let r = CssSelector::new("");
    assert!(r.is_err());
}

#[test]
fn selector_keeps_source() {
    assert_eq!(sel("div > p").source(), "div > p");
}

#[test]
fn extract_text_blank_is_none() {
    assert_eq!(extract_text_str("<p>  </p>", &sel("p")), None);
}

#[test]
fn extract_text_first_match_and_nested_text() {
    let html = "<p>one <b>two</b></p><p>three</p>";
    assert_eq!(extract_text_str(html, &sel("p")).as_deref(), Some("one two"));
}

#[test]
fn get_attribute_missing_attribute() {
    assert_eq!(get_attribute_str("<img alt=x>", &sel("img"), "src"), None);
    assert_eq!(get_attribute_str("<p>x</p>", &sel("img"), "src"), None);
}

#[test]
fn has_element_agrees_with_count() {
    for (html, s) in [("<p>a</p><p>b</p>", "p"), ("<p>a</p>", "li"), ("", "html")] {
        let s = sel(s);
        assert_eq!(has_element_str(html, &s), count_elements_str(html, &s) > 0);
    }
}

#[test]
fn invalid_selector_reports_text() {
    match CssSelector::new("p[") {
        Ok(_) => panic!("accepted an unterminated attribute selector"),
        Err(e) => assert!(!e.message.is_empty()),
    }
}
