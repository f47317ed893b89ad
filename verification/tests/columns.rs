use daft_html::columns::{
    count_elements_column, extract_links_column, extract_meta_column, extract_tables_column,
    extract_text_column, get_attribute_column, get_title_column, has_element_column,
    html_to_text_column, text_ratio_column,
};
use daft_html::scrape::CssSelector;

fn sel(s: &str) -> CssSelector {
    match CssSelector::new(s) {
        Ok(s) => s,
        Err(e) => panic!("selector {s:?} refused: {}", e.message),
    }
}

fn rows() -> Vec<Option<String>> {
    vec![
        Some(r#"<title>T</title><meta name="n" content="c"><p>body</p><a href="u">l</a><table><tr><td>1</td></tr></table>"#.to_string()),
        None,
        Some(String::new()),
    ]
}

#[test]
fn columns_keep_length_and_nulls() {
    let r = rows();
    assert_eq!(
        html_to_text_column(&r),
        vec![Some("body\n1".to_string()), None, Some(String::new())]
    );
    assert_eq!(get_title_column(&r, &sel("title")), vec![Some("T".to_string()), None, None]);
    assert_eq!(extract_meta_column(&r, &sel("meta"), "n"), vec![Some("c".to_string()), None, None]);
    assert_eq!(
        extract_links_column(&r, &sel("a[href]")),
        vec![Some(vec!["u".to_string()]), None, Some(vec![])]
    );
    assert_eq!(
        extract_tables_column(&r, &sel("table")),
        vec![Some(vec!["| 1 |\n".to_string()]), None, Some(vec![])]
    );
    let ratio = text_ratio_column(&r);
    assert_eq!(ratio[1], None);
    assert_eq!(ratio[2], Some((0, 0)));
    assert_eq!(text_ratio_column(&vec![Some("<p>ab c</p>".to_string())]), vec![Some((3, 11))]);
    let p = sel("p");
    assert_eq!(extract_text_column(&r, &p), vec![Some("body".to_string()), None, None]);
    assert_eq!(get_attribute_column(&r, &sel("a"), "href"), vec![Some("u".to_string()), None, None]);
    assert_eq!(has_element_column(&r, &p), vec![Some(true), None, Some(false)]);
    assert_eq!(count_elements_column(&r, &p), vec![Some(1), None, Some(0)]);
}

#[test]
fn to_text_column_matches_rows() {
    let r = vec![Some("<p>x</p>".to_string()), None];
    assert_eq!(html_to_text_column(&r), vec![Some("x".to_string()), None]);
}
