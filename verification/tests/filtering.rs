//! Content sanitizer behavior.

use ledge_ai_feed::content_filter::filter_content;

#[test]
fn test_remove_small_image_attribution() {
    let content = "Some text :::small\n画像の出典：GPT-4oによりLedge.aiが生成\n::: more text";
    let expected = "Some text  more text";
    let result = filter_content(content);
    assert_eq!(result, expected);
}

#[test]
fn test_remove_box_related_articles() {
    let content = "Some text :::box\n関連記事：NECとさくらインターネットが協業、生成AIプラットフォーム分野でcotomiを拡張\n::: more text";
    let expected = "Some text  more text";
    let result = filter_content(content);
    assert_eq!(result, expected);
}

#[test]
fn test_remove_target_blank_attributes() {
    let content = "Check this [link](https://example.com){target=\"_blank\"} for more info";
    let expected = "Check this [link](https://example.com) for more info";
    let result = filter_content(content);
    assert_eq!(result, expected);
}

#[test]
fn test_remove_multiple_patterns() {
    let content = r#"
Some content here.

:::small
画像の出典：GPT-4oによりLedge.aiが生成
:::

More content with a [link](https://example.com){target="_blank"} here.

:::box
関連記事：NECとさくらインターネットが協業、生成AIプラットフォーム分野でcotomiを拡張
:::

Final content.
        "#;
    let expected = r#"
Some content here.



More content with a [link](https://example.com) here.



Final content.
        "#;
    let result = filter_content(content);
    assert_eq!(result, expected);
}

#[test]
fn test_preserve_normal_content() {
    let content = "This is normal content with no special patterns.";
    let expected = "This is normal content with no special patterns.";
    let result = filter_content(content);
    assert_eq!(result, expected);
}

#[test]
fn test_debug_actual_patterns() {
    let content = r#"[発表](https://example.com){target="_blank"}した"#;
    let expected = r#"[発表](https://example.com)した"#;
    let result = filter_content(content);
    assert_eq!(result, expected);
}

#[test]
fn test_remove_html_encoded_target_blank() {
    let content = r#"<a href="https://example.com">link</a>{target=&quot;_blank&quot;} text"#;
    let expected = r#"<a href="https://example.com">link</a> text"#;
    let result = filter_content(content);
    assert_eq!(result, expected);
}

#[test]
fn test_remove_double_encoded_target_blank() {
    let content = r#"<a href="https://example.com">発表</a>{target=&amp;quot;_blank&amp;quot;}した"#;
    let expected = r#"<a href="https://example.com">発表</a>した"#;
    let result = filter_content(content);
    assert_eq!(result, expected);
}

#[test]
fn test_remove_all_target_blank_variants() {
    let content = r#"Link1{target="_blank"} Link2{target=&quot;_blank&quot;} Link3{target=&amp;quot;_blank&amp;quot;} end"#;
    let expected = r#"Link1 Link2 Link3 end"#;
    let result = filter_content(content);
    assert_eq!(result, expected);
}

#[test]
fn test_filter_content_is_idempotent() {
    let content = "Top :::small\nattribution\n::: mid [link](https://x.test){target=\"_blank\"} :::box\nrelated\n::: end";
    let once = filter_content(content);
    let twice = filter_content(&once);
    assert_eq!(once, twice);
    assert_eq!(once, "Top  mid [link](https://x.test)  end");
}

#[test]
fn test_filter_content_unterminated_span_kept() {
    let content = "Intro :::small no closing marker follows";
    let result = filter_content(content);
    assert_eq!(result, "Intro :::small no closing marker follows");
}

#[test]
fn test_filter_content_repeated_passes_reach_stability() {
    let content = ":::sm:::box x :::all y :::";
    let once = filter_content(content);
    let twice = filter_content(&once);
    assert_eq!(once, twice);
    assert!(!twice.contains(":::small"));
}
