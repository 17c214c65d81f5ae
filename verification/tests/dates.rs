//! Date resolution and timestamp parsing.

use ledge_ai_feed::date_resolver::{extract_article_date, extract_date_from_nuxt_script};
use ledge_ai_feed::feed::parse_iso_date;

#[test]
fn test_extract_article_date_from_meta_tags() {
    let html = r###"
            <html>
                <head>
                    <meta property="article:published_time" content="2025-07-14T07:50:00.000Z">
                    <title>Test Article</title>
                </head>
                <body>
                    <h1>Test Article</h1>
                    <p>Content</p>
                </body>
            </html>
        "###;

    let date = extract_article_date(html);
    assert!(date.is_some());
    assert_eq!(date.unwrap(), "2025-07-14T07:50:00.000Z");
}

#[test]
fn test_extract_article_date_from_time_element() {
    let html = r###"
            <html>
                <head>
                    <title>Test Article</title>
                </head>
                <body>
                    <h1>Test Article</h1>
                    <time datetime="2025-07-14T07:50:00.000Z">July 14, 2025</time>
                    <p>Content</p>
                </body>
            </html>
        "###;

    let date = extract_article_date(html);
    assert!(date.is_some());
    assert_eq!(date.unwrap(), "2025-07-14T07:50:00.000Z");
}

#[test]
fn test_extract_article_date_from_json_ld() {
    let html = r###"
            <html>
                <head>
                    <title>Test Article</title>
                    <script type="application/ld+json">
                    {
                        "@context": "https://schema.org",
                        "@type": "Article",
                        "headline": "Test Article",
                        "datePublished": "2025-07-14T07:50:00.000Z",
                        "author": "Test Author"
                    }
                    </script>
                </head>
                <body>
                    <h1>Test Article</h1>
                    <p>Content</p>
                </body>
            </html>
        "###;

    let date = extract_article_date(html);
    assert!(date.is_some());
    assert_eq!(date.unwrap(), "2025-07-14T07:50:00.000Z");
}

#[test]
fn test_extract_article_date_no_date_found() {
    let html = r###"
            <html>
                <head>
                    <title>Test Article</title>
                </head>
                <body>
                    <h1>Test Article</h1>
                    <p>Content without any date information</p>
                </body>
            </html>
        "###;

    let date = extract_article_date(html);
    assert!(date.is_none());
}

#[test]
fn test_extract_article_date_og_property() {
    let html = r###"
            <html>
                <head>
                    <meta property="og:published_time" content="2025-07-15T10:30:00.000Z">
                    <title>Test Article with OG tags</title>
                </head>
                <body>
                    <h1>Test Article</h1>
                    <p>Content</p>
                </body>
            </html>
        "###;

    let date = extract_article_date(html);
    assert!(date.is_some());
    assert_eq!(date.unwrap(), "2025-07-15T10:30:00.000Z");
}

#[test]
fn test_extract_date_from_nuxt_object() {
    let html = r###"
            <html>
                <head>
                    <title>Test Article</title>
                </head>
                <body>
                    <script>
                        window.__NUXT__={attributes:{title:"Test Article",slug:"test-article",publishedAt:"2025-07-13T04:50:00.014Z",createdAt:"2025-07-11T09:46:20.383Z",updatedAt:"2025-07-13T04:50:00.087Z",scheduled_at:"2025-07-13T04:50:00.000Z"}};
                    </script>
                    <h1>Test Article</h1>
                    <p>Content</p>
                </body>
            </html>
        "###;

    let date = extract_article_date(html);
    assert!(date.is_some());
    assert_eq!(date.unwrap(), "2025-07-13T04:50:00.014Z");
}

#[test]
fn test_extract_date_from_nuxt_script() {
    let script_text = r###"
            window.__NUXT__={attributes:{title:"Test Article",slug:"test-article",publishedAt:"2025-07-13T04:50:00.014Z",createdAt:"2025-07-11T09:46:20.383Z",updatedAt:"2025-07-13T04:50:00.087Z",scheduled_at:"2025-07-13T04:50:00.000Z"}};
        "###;

    let date = extract_date_from_nuxt_script(script_text);
    assert!(date.is_some());
    assert_eq!(date.unwrap(), "2025-07-13T04:50:00.014Z");
}

#[test]
fn test_extract_date_from_nuxt_script_with_multiple_articles() {
    let script_text = r###"
            window.__NUXT__={
                tags:[
                    {id:1,attributes:{name:"tag1",publishedAt:"2024-01-01T00:00:00.000Z"}},
                    {id:2,attributes:{name:"tag2",publishedAt:"2024-02-01T00:00:00.000Z"}}
                ],
                article:{id:123,attributes:{title:"Main Article",slug:"main-article",scheduled_at:"2025-07-13T04:50:00.000Z",publishedAt:"2025-07-13T04:50:00.014Z",createdAt:"2025-07-11T09:46:20.383Z"}}
            };
        "###;

    let date = extract_date_from_nuxt_script(script_text);
    assert!(date.is_some());
    assert_eq!(date.unwrap(), "2025-07-13T04:50:00.014Z");
}

#[test]
fn test_meta_tag_wins_over_json_ld() {
    let html = r###"
            <html>
                <head>
                    <meta property="article:published_time" content="2025-07-14T07:50:00.000Z">
                    <script type="application/ld+json">
                    {"datePublished": "1999-01-01T00:00:00.000Z"}
                    </script>
                </head>
                <body><p>Content</p></body>
            </html>
        "###;

    let date = extract_article_date(html);
    assert_eq!(date.unwrap(), "2025-07-14T07:50:00.000Z");
}

#[test]
fn test_time_datetime_wins_over_visible_text() {
    let html = r###"
            <html>
                <body>
                    <time datetime="2025-07-14T07:50:00.000Z">July 14, 2025, a long visible label</time>
                </body>
            </html>
        "###;

    let date = extract_article_date(html);
    assert_eq!(date.unwrap(), "2025-07-14T07:50:00.000Z");
}

#[test]
fn test_parse_iso_date() {
    let date_str = "2025/1/14 [TUE]";
    let parsed = parse_iso_date(date_str).unwrap();
    let formatted = chrono::DateTime::from_timestamp_millis(parsed.millis)
        .unwrap()
        .format("%Y-%m-%d")
        .to_string();
    assert_eq!(formatted, "2025-01-14");
}

#[test]
fn test_parse_iso_date_invalid() {
    let date_str = "invalid date";
    let parsed = parse_iso_date(date_str);
    assert!(parsed.is_none());
}

#[test]
fn test_parse_iso_date_iso8601() {
    let date_str = "2025-07-14T07:50:00.000Z";
    let parsed = parse_iso_date(date_str).unwrap();
    let formatted = chrono::DateTime::from_timestamp_millis(parsed.millis)
        .unwrap()
        .format("%Y-%m-%d %H:%M:%S")
        .to_string();
    assert_eq!(formatted, "2025-07-14 07:50:00");
}

#[test]
fn test_parse_iso_date_with_zone_offset() {
    let utc = parse_iso_date("2025-01-14T10:00:00Z").unwrap();
    let plus9 = parse_iso_date("2025-01-14T19:00:00+09:00").unwrap();
    assert_eq!(utc.millis, plus9.millis);
}

#[test]
fn test_parse_iso_date_agrees_with_reference_parser() {
    let inputs = vec![
        "2025-07-14T07:50:00.000Z",
        "2025-07-13T04:50:00.014Z",
        "2025-01-14T19:00:00+09:00",
        "2024-02-29T23:59:59.999Z",
        "2025-01-14T10:00:00-05:30",
    ];
    for s in inputs {
        let ours = parse_iso_date(s).unwrap();
        let reference = chrono::DateTime::parse_from_rfc3339(s).unwrap();
        assert_eq!(ours.millis, reference.timestamp_millis(), "disagreement on {}", s);
    }
}

#[test]
fn test_parse_iso_date_rejects_invalid_calendar_day() {
    assert!(parse_iso_date("2025-02-29T00:00:00Z").is_none());
    assert!(parse_iso_date("2025-13-01T00:00:00Z").is_none());
    assert!(parse_iso_date("2025/2/30").is_none());
}
