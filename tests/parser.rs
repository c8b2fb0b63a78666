use webcrawler::parser::find_anchors;

#[test]
fn test_normal_case() {
    let html = r#"
        <a href="e">E</a>
    "#;
    let index = 0;
    let max_index = 1;
    let hrefs: Vec<String> = find_anchors(html, index, max_index);
    assert_eq!(hrefs, vec!["e",]);
}

#[test]
fn test_empty_html() {
    let html = "";
    let index = 0;
    let max_index = 1;
    let hrefs: Vec<String> = find_anchors(html, index, max_index);
    assert!(hrefs.is_empty());
}

#[test]
fn test_no_anchor_tags() {
    let html = r#"
        <div>No anchor tags here</div>
        <p>Just some text</p>
    "#;
    let index = 0;
    let max_index = 1;
    let hrefs: Vec<String> = find_anchors(html, index, max_index);
    assert!(hrefs.is_empty());
}

#[test]
fn test_malformed_html_missing_closing_tag() {
    let html = r#"
        <a href="https://example.com">Example
    "#;
    let index = 0;
    let max_index = 1;
    let hrefs: Vec<String> = find_anchors(html, index, max_index);
    // The parser should not yield the href since there's no closing </a> tag
    assert!(hrefs.is_empty());
}

#[test]
fn test_different_index_and_max_index() {
    let html = r#"
        <a href="https://example1.com">Example 1</a>
        <a href="https://example2.com">Example 2</a>
        <a href="https://example3.com">Example 3</a>
        <a href="https://example4.com">Example 4</a>
    "#;

    // Worker 0
    let index = 0;
    let max_index = 2;
    let hrefs_worker_0: Vec<String> = find_anchors(html, index, max_index);
    assert_eq!(
        hrefs_worker_0,
        vec!["https://example1.com", "https://example3.com"]
    );

    // Worker 1
    let index = 1;
    let hrefs_worker_1: Vec<String> = find_anchors(html, index, max_index);
    assert_eq!(
        hrefs_worker_1,
        vec!["https://example2.com", "https://example4.com"]
    );
}

#[test]
fn test_attributes_in_different_order() {
    let html = r#"
        <a id="link1" href="https://example.com">Example</a>
        <a href="https://example.org" class="external">Example Org</a>
    "#;
    let index = 0;
    let max_index = 1;
    let hrefs: Vec<String> = find_anchors(html, index, max_index);
    assert_eq!(hrefs, vec!["https://example.com", "https://example.org"]);
}

#[test]
fn test_anchor_tags_without_href() {
    let html = r#"
        <a>Missing href</a>
        <a href="https://example.com">Valid Link</a>
        <a>No href again</a>
    "#;
    let index = 0;
    let max_index = 1;
    let hrefs: Vec<String> = find_anchors(html, index, max_index);
    assert_eq!(hrefs, vec!["https://example.com"]);
}

#[test]
fn test_nested_anchor_tags() {
    let html = r#"
        <div>
            <a href="https://example.com">
                <span>Example</span>
            </a>
        </div>
    "#;
    let index = 0;
    let max_index = 1;
    let hrefs: Vec<String> = find_anchors(html, index, max_index);
    assert_eq!(hrefs, vec!["https://example.com"]);
}

#[test]
fn test_anchor_tags_with_single_quotes() {
    let html = r#"
        <a href='https://example.com'>Example</a>
        <a href='https://example.org'>Example Org</a>
    "#;
    let index = 0;
    let max_index = 1;
    let hrefs: Vec<String> = find_anchors(html, index, max_index);
    assert_eq!(hrefs, vec!["https://example.com", "https://example.org"]);
}

#[test]
fn test_large_html() {
    let mut html = String::new();
    for i in 1..=1000 {
        html.push_str(&format!(
            r#"<a href="https://example{}.com">Example {}</a>"#,
            i, i
        ));
    }
    let index = 0;
    let max_index = 1;
    let hrefs: Vec<String> = find_anchors(&html, index, max_index);
    assert_eq!(hrefs.len(), 1000);
    assert_eq!(hrefs[0], "https://example1.com");
    assert_eq!(hrefs[999], "https://example1000.com");
}

#[test]
fn test_unicode_in_href() {
    let html = r#"
        <a href="https://пример.рф">Unicode Domain</a>
        <a href="https://example.com/路径">Unicode Path</a>
    "#;
    let index = 0;
    let max_index = 1;
    let hrefs: Vec<String> = find_anchors(html, index, max_index);
    assert_eq!(hrefs, vec!["https://пример.рф", "https://example.com/路径"]);
}

#[test]
fn test_special_characters_in_attributes() {
    let html = r#"
        <a href="https://example.com?param=1&other=2">Example</a>
        <a href="https://example.org/#fragment">Example Org</a>
    "#;
    let index = 0;
    let max_index = 1;
    let hrefs: Vec<String> = find_anchors(html, index, max_index);
    assert_eq!(
        hrefs,
        vec![
            "https://example.com?param=1&other=2",
            "https://example.org/#fragment"
        ]
    );
}

#[test]
fn test_multiple_attributes_before_href() {
    let html = r#"
        <a class="link" data-id="123" href="https://example.com">Example</a>
        <a id="link2" href="https://example.org" title="Example Org">Example Org</a>
    "#;
    let index = 0;
    let max_index = 1;
    let hrefs: Vec<String> = find_anchors(html, index, max_index);
    assert_eq!(hrefs, vec!["https://example.com", "https://example.org"]);
}

#[test]
fn test_max_index_greater_than_number_of_anchors() {
    let html = r#"
        <a href="https://example1.com">Example 1</a>
        <a href="https://example2.com">Example 2</a>
    "#;
    let index = 0;
    let max_index = 5; // Greater than the number of anchors
    let hrefs: Vec<String> = find_anchors(html, index, max_index);
    // Only process anchor tags where (anchor_tag_counter % 5) == 0
    assert_eq!(hrefs, vec!["https://example1.com"]);
}

#[test]
fn test_invalid_index() {
    let html = r#"
        <a href="https://example.com">Example</a>
    "#;
    // Since usize cannot be negative, we'll test with an invalid index
    let index = usize::MAX;
    let max_index = 1;
    let hrefs: Vec<String> = find_anchors(html, index, max_index);
    assert!(hrefs.is_empty());
}
