//! Feed entries, their assembly, and their ordering.

use ledge_ai_feed::feed::{build_feed_entry, parse_iso_date, sort_items_by_date, RssItem, Timestamp};

fn entry(title: &str, millis: i64) -> RssItem {
    RssItem {
        title: title.to_string(),
        link: format!("https://ledge.ai/articles/{}", title),
        description: "<p>body</p>".to_string(),
        pub_date: Timestamp { millis },
    }
}

#[test]
fn test_rss_item_has_required_fields() {
    let test_date = parse_iso_date("2025-01-14T12:00:00Z").unwrap();

    let item = RssItem {
        title: "Test Title".to_string(),
        link: "https://example.com".to_string(),
        description: "Test Description".to_string(),
        pub_date: test_date,
    };

    assert_eq!(item.title, "Test Title");
    assert_eq!(item.link, "https://example.com");
    assert_eq!(item.description, "Test Description");
    assert_eq!(item.pub_date, test_date);
}

#[test]
fn test_sort_items_newest_first() {
    let items = vec![entry("old", 100), entry("newest", 300), entry("mid", 200)];
    let sorted = sort_items_by_date(&items);
    assert_eq!(sorted[0].title, "newest");
    assert_eq!(sorted[1].title, "mid");
    assert_eq!(sorted[2].title, "old");
}

#[test]
fn test_sort_items_ties_keep_discovery_order() {
    let items = vec![entry("first", 200), entry("second", 200), entry("later", 500)];
    let sorted = sort_items_by_date(&items);
    assert_eq!(sorted[0].title, "later");
    assert_eq!(sorted[1].title, "first");
    assert_eq!(sorted[2].title, "second");
}

#[test]
fn test_build_feed_entry_uses_resolved_date() {
    let filler = "word ".repeat(80);
    let page = format!(
        r#"<html><head>
            <meta property="article:published_time" content="2025-07-14T07:50:00.000Z">
            <script>window.__NUXT__={{"article":{{"body":"{}"}}}};</script>
        </head><body></body></html>"#,
        filler
    );
    let title = "An Article".to_string();
    let link = "https://ledge.ai/articles/an-article".to_string();
    let advisory = "2025/01/14 [MON]".to_string();
    let now = Timestamp { millis: 7 };

    let item = build_feed_entry(&title, &link, &page, &advisory, now).unwrap();
    assert_eq!(item.title, "An Article");
    assert_eq!(item.link, "https://ledge.ai/articles/an-article");
    let expected = parse_iso_date("2025-07-14T07:50:00.000Z").unwrap();
    assert_eq!(item.pub_date, expected);
    assert!(item.description.contains("word"));
}

#[test]
fn test_build_feed_entry_substitutes_advisory_date() {
    let filler = "word ".repeat(80);
    let page = format!(
        r#"<html><head>
            <script>window.__NUXT__={{"article":{{"body":"{}"}}}};</script>
        </head><body></body></html>"#,
        filler
    );
    let title = "An Article".to_string();
    let link = "https://ledge.ai/articles/an-article".to_string();
    let advisory = "2025/01/14 [MON]".to_string();
    let now = Timestamp { millis: 7 };

    let item = build_feed_entry(&title, &link, &page, &advisory, now).unwrap();
    let expected = parse_iso_date("2025/01/14 [MON]").unwrap();
    assert_eq!(item.pub_date, expected);
}

#[test]
fn test_build_feed_entry_falls_back_to_now() {
    let filler = "word ".repeat(80);
    let page = format!(
        r#"<html><head>
            <script>window.__NUXT__={{"article":{{"body":"{}"}}}};</script>
        </head><body></body></html>"#,
        filler
    );
    let title = "An Article".to_string();
    let link = "https://ledge.ai/articles/an-article".to_string();
    let advisory = "no date here".to_string();
    let now = Timestamp { millis: 123456789 };

    let item = build_feed_entry(&title, &link, &page, &advisory, now).unwrap();
    assert_eq!(item.pub_date, now);
}

#[test]
fn test_build_feed_entry_skips_bodyless_page() {
    let page = "<html><body><p>Too short.</p></body></html>";
    let title = "An Article".to_string();
    let link = "https://ledge.ai/articles/an-article".to_string();
    let advisory = "2025/01/14 [MON]".to_string();
    let now = Timestamp { millis: 7 };

    assert!(build_feed_entry(&title, &link, page, &advisory, now).is_none());
}
