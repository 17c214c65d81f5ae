//! Listing extraction from home-page markup and embedded state.

use ledge_ai_feed::html_parser::{
    extract_from_nuxt_data, parse_articles_from_html, parse_single_article,
};
use ledge_ai_feed::json::JsonValue;

#[test]
fn test_parse_articles_from_html_static() {
    let html = r#"
            <html>
                <body>
                    <div class="article-item">
                        <a href="/articles/test1">Test Article 1</a>
                    </div>
                    <div class="article-item">
                        <a href="/articles/test2">Test Article 2</a>
                    </div>
                </body>
            </html>
        "#;

    let articles = parse_articles_from_html(html).unwrap();
    assert_eq!(articles.len(), 2);

    assert_eq!(articles[0].title, "Test Article 1");
    assert_eq!(articles[0].url, "https://ledge.ai/articles/test1");
    assert_eq!(articles[0].date, "2025/01/14 [MON]");

    assert_eq!(articles[1].title, "Test Article 2");
    assert_eq!(articles[1].url, "https://ledge.ai/articles/test2");
    assert_eq!(articles[1].date, "2025/01/14 [MON]");
}

#[test]
fn test_parse_articles_from_nuxt_data() {
    let script_content = format!(
        r#"const articles = {{"title":"世界最強AI「Grok 4」公開", "slug":"grok4_xai_ai_model_launch"}}, {{"title":"Hugging Face、「SmolLM 3」公開", "slug":"smollm3_128k_multilingual_reasoning_model"}}; {}"#,
        "// padding comment ".repeat(100)
    );

    let html = format!(
        r#"
            <html>
                <head>
                    <script>
                        {}
                    </script>
                </head>
                <body></body>
            </html>
        "#,
        script_content
    );

    let articles = parse_articles_from_html(&html).unwrap();
    assert_eq!(articles.len(), 2);

    assert_eq!(articles[0].title, "世界最強AI「Grok 4」公開");
    assert_eq!(articles[0].url, "https://ledge.ai/articles/grok4_xai_ai_model_launch");
    assert_eq!(articles[0].date, "2025/01/14 [MON]");

    assert_eq!(articles[1].title, "Hugging Face、「SmolLM 3」公開");
    assert_eq!(
        articles[1].url,
        "https://ledge.ai/articles/smollm3_128k_multilingual_reasoning_model"
    );
    assert_eq!(articles[1].date, "2025/01/14 [MON]");
}

#[test]
fn test_parse_single_article() {
    let article_json = JsonValue::Object(vec![
        ("title".to_string(), JsonValue::Text("Test Article".to_string())),
        ("slug".to_string(), JsonValue::Text("test-article-slug".to_string())),
        ("publishedAt".to_string(), JsonValue::Text("2025/01/14 [TUE]".to_string())),
    ]);

    let article_info = parse_single_article(&article_json).unwrap();
    assert_eq!(article_info.title, "Test Article");
    assert_eq!(article_info.url, "https://ledge.ai/articles/test-article-slug");
    assert_eq!(article_info.date, "2025/01/14 [TUE]");
}

#[test]
fn test_parse_single_article_with_path() {
    let article_json = JsonValue::Object(vec![
        ("title".to_string(), JsonValue::Text("Test Article with Path".to_string())),
        ("path".to_string(), JsonValue::Text("/articles/test-path".to_string())),
        ("createdAt".to_string(), JsonValue::Text("2025/01/15 [WED]".to_string())),
    ]);

    let article_info = parse_single_article(&article_json).unwrap();
    assert_eq!(article_info.title, "Test Article with Path");
    assert_eq!(article_info.url, "https://ledge.ai/articles/test-path");
    assert_eq!(article_info.date, "2025/01/15 [WED]");
}

#[test]
fn test_extract_from_nuxt_data_not_found() {
    let html = r#"
            <html>
                <head>
                    <script>
                        console.log("No NUXT data here");
                    </script>
                </head>
                <body></body>
            </html>
        "#;

    let result = extract_from_nuxt_data(html);
    assert!(result.is_err());
}

#[test]
fn test_parse_articles_never_repeats_a_url() {
    let html = r#"
            <html>
                <body>
                    <a href="/articles/dup">Duplicate Article Label</a>
                    <a href="/articles/dup">Duplicate Article Again</a>
                    <a href="/articles/other">Another Article Here</a>
                </body>
            </html>
        "#;

    let articles = parse_articles_from_html(html).unwrap();
    assert_eq!(articles.len(), 2);
    for i in 0..articles.len() {
        for j in 0..articles.len() {
            if i != j {
                assert_ne!(articles[i].url, articles[j].url);
            }
        }
    }
}

#[test]
fn test_parse_articles_from_html_nothing_found() {
    let html = "<html><body><p>No links at all</p></body></html>";
    let result = parse_articles_from_html(html);
    assert_eq!(result.unwrap_err(), ledge_ai_feed::ExtractError::NoListingFound);
}

#[test]
fn test_static_listing_sorted_by_url() {
    let html = r#"
            <html>
                <body>
                    <a href="/articles/zeta">Zeta Article Title</a>
                    <a href="/articles/alpha">Alpha Article Title</a>
                </body>
            </html>
        "#;

    let articles = parse_articles_from_html(html).unwrap();
    assert_eq!(articles[0].url, "https://ledge.ai/articles/alpha");
    assert_eq!(articles[1].url, "https://ledge.ai/articles/zeta");
}

#[test]
fn test_static_listing_rejects_short_labels() {
    let html = r#"
            <html>
                <body>
                    <a href="/articles/short">tiny</a>
                    <a href="/articles/long-enough">A proper article title</a>
                </body>
            </html>
        "#;

    let articles = parse_articles_from_html(html).unwrap();
    assert_eq!(articles.len(), 1);
    assert_eq!(articles[0].url, "https://ledge.ai/articles/long-enough");
}
