//! Body extraction, markdown preprocessing and rendering.

use ledge_ai_feed::article_extractor::{
    extract_article_content, markdown_to_html, preprocess_markdown_content,
};

#[test]
fn test_extract_article_content() {
    let html = r###"
            <html>
                <head>
                    <script>
                        var data = {"body": "# Test Article\\n\\nThis is a test article with sufficient content to pass the length check. This content is long enough to be considered substantial and will be extracted successfully by our content extraction algorithm. Additional content to ensure it meets the 300 character minimum requirement for our regex pattern matching system."};
                    </script>
                </head>
                <body>
                    <div>Navigation</div>
                    <main>Article content with enough text to pass the 300 character minimum requirement for substantial content extraction in our HTML parsing function. This main content area contains substantial text that should be extracted when script extraction fails. Additional text to ensure length requirements are met.</main>
                </body>
            </html>
        "###;

    let content = extract_article_content(html).unwrap();
    assert!(content.len() > 100);
    assert!(content.contains("Test Article") || content.contains("Article content"));
}

#[test]
fn test_extract_article_content_nothing_viable() {
    let html = "<html><body><p>Short.</p></body></html>";
    let result = extract_article_content(html);
    assert_eq!(result.unwrap_err(), ledge_ai_feed::ExtractError::NoBodyFound);
}

#[test]
fn test_extract_article_content_from_script_payload() {
    let filler = "word ".repeat(80);
    let html = format!(
        r#"<html><head><script>window.__NUXT__={{"article":{{"body":"{}"}}}};</script></head><body></body></html>"#,
        filler
    );
    let content = extract_article_content(&html).unwrap();
    assert!(content.contains("word"));
    assert!(content.len() > 300);
}

#[test]
fn test_markdown_to_html() {
    let markdown = "# Title\n\nThis is **bold** text.";
    let html = markdown_to_html(markdown);
    assert!(html.contains("<h1>Title</h1>"));
    assert!(html.contains("<strong>bold</strong>"));
}

#[test]
fn test_markdown_to_html_with_target_blank() {
    let markdown = r#"Check this [link](https://example.com){target="_blank"} for more info."#;
    let html = markdown_to_html(markdown);
    assert!(!html.contains(r#"{target="_blank"}"#));
    assert!(html.contains(r#"<a href="https://example.com">link</a>"#));
}

#[test]
fn test_preprocess_markdown_content_removes_target_blank() {
    let markdown = r#"Here is a [link](https://example.com){target="_blank"} and another [link](https://other.com){target="_blank"}."#;
    let result = preprocess_markdown_content(markdown);
    let expected = r#"Here is a [link](https://example.com) and another [link](https://other.com)."#;
    assert_eq!(result, expected);
}

#[test]
fn test_preprocess_markdown_content_handles_standalone_target_blank() {
    let markdown = r#"Some text [link](https://example.com){target="_blank"} and then {target="_blank"} more text"#;
    let result = preprocess_markdown_content(markdown);
    let expected = r#"Some text [link](https://example.com) and then  more text"#;
    assert_eq!(result, expected);
}

#[test]
fn test_preprocess_markdown_content_handles_mixed_patterns() {
    let markdown = r#"Check [this](https://example.com){target="_blank"} and{target="_blank"}that{target="_blank"}"#;
    let result = preprocess_markdown_content(markdown);
    let expected = r#"Check [this](https://example.com) andthat"#;
    assert_eq!(result, expected);
}

#[test]
fn test_preprocess_markdown_content_integrates_all_filtering() {
    let markdown = r#"
Some content here.

:::small
画像の出典：GPT-4oによりLedge.aiが生成
:::

More content with a [link](https://example.com){target="_blank"} here.

:::box
関連記事：NECとさくらインターネットが協業、生成AIプラットフォーム分野でcotomiを拡張
:::

Text with{target="_blank"}standalone pattern.

Final content.
        "#;
    let result = preprocess_markdown_content(markdown);
    let expected = r#"
Some content here.



More content with a [link](https://example.com) here.



Text withstandalone pattern.

Final content.
        "#;
    assert_eq!(result, expected);
}

#[test]
fn test_preprocess_markdown_content_removes_small_patterns() {
    let markdown = "Some text :::small\n画像の出典：GPT-4oによりLedge.aiが生成\n::: more text";
    let result = preprocess_markdown_content(markdown);
    let expected = "Some text  more text";
    assert_eq!(result, expected);
}

#[test]
fn test_preprocess_markdown_content_removes_box_patterns() {
    let markdown = "Some text :::box\n関連記事：NECとさくらインターネットが協業\n::: more text";
    let result = preprocess_markdown_content(markdown);
    let expected = "Some text  more text";
    assert_eq!(result, expected);
}

#[test]
fn test_pulldown_cmark_with_special_characters() {
    let markdown =
        r#"Check this [link](https://www.nedo.go.jp/koubo/CD3_100397.html) for more info."#;
    let html = markdown_to_html(markdown);
    assert!(!html.contains(r#"{target="_blank"}"#));
    assert!(html.contains(r#"<a href="https://www.nedo.go.jp/koubo/CD3_100397.html">link</a>"#));
}

#[test]
fn test_markdown_with_japanese_and_encoded_urls() {
    let markdown = r#"今回の公募には43件が応募し、最終的に24件が採択された。楽天グループと野村総合研究所（NRI）を含む13件が新規採択で、第1期・第2期に採択されていなかった新顔の参画が加速している。"#;
    let html = markdown_to_html(markdown);
    assert!(!html.contains(r#"{target="_blank"}"#));
}

#[test]
fn test_preprocess_markdown_content_handles_unicode_escaped_urls() {
    let markdown = r#"NEDOは、生成AI開発支援プロジェクト「GENIAC」の第3期採択結果を[発表](https:\u002F\u002Fwww.nedo.go.jp\u002Fkoubo\u002FCD3_100397.html){target="_blank"}した。"#;
    let result = preprocess_markdown_content(markdown);
    let expected = r#"NEDOは、生成AI開発支援プロジェクト「GENIAC」の第3期採択結果を[発表](https:\u002F\u002Fwww.nedo.go.jp\u002Fkoubo\u002FCD3_100397.html)した。"#;
    assert_eq!(result, expected);
}

#[test]
fn test_preprocess_markdown_content_handles_multiple_unicode_escapes() {
    let markdown = r#"Check this [link](https:\u002F\u002Fexample.com\u002Fpath\u002Fto\u002Ffile){target="_blank"} for more info."#;
    let result = preprocess_markdown_content(markdown);
    let expected = r#"Check this [link](https:\u002F\u002Fexample.com\u002Fpath\u002Fto\u002Ffile) for more info."#;
    assert_eq!(result, expected);
}

#[test]
fn test_preprocess_markdown_content_exact_geniac_pattern() {
    let markdown = r#"NEDOは、生成AI開発支援プロジェクト「GENIAC」の第3期採択結果を[発表](https:\u002F\u002Fwww.nedo.go.jp\u002Fkoubo\u002FCD3_100397.html){target="_blank"}した。"#;
    let result = preprocess_markdown_content(markdown);
    let expected = r#"NEDOは、生成AI開発支援プロジェクト「GENIAC」の第3期採択結果を[発表](https:\u002F\u002Fwww.nedo.go.jp\u002Fkoubo\u002FCD3_100397.html)した。"#;
    assert_eq!(result, expected);
}

#[test]
fn test_sanitize_then_render_keeps_link_clean() {
    let markdown = r#"Check this [link](https://x.test){target="_blank"} now."#;
    let sanitized = preprocess_markdown_content(markdown);
    assert_eq!(sanitized, "Check this [link](https://x.test) now.");
    let html = markdown_to_html(markdown);
    assert!(!html.contains("{target="));
    assert!(html.contains(r#"<a href="https://x.test">link</a>"#));
}
