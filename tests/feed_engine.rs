use czytaj::{
    extract_first_image_from_html, extract_image_url, parse_feed, summarize_feed, EntryRecord,
    FeedDocument, FeedError, MediaRecord,
};

fn entry(title: Option<&str>, links: &[&str]) -> EntryRecord {
    EntryRecord {
        title: title.map(|t| t.to_string()),
        links: links.iter().map(|l| l.to_string()).collect(),
        summary: None,
        content_body: None,
        media: Vec::new(),
    }
}

#[test]
fn first_image_is_found() {
    let html = r#"<p>x</p><img alt="a" src="https://e.com/1.png"><img src="https://e.com/2.png">"#;
    assert_eq!(extract_first_image_from_html(html), Some("https://e.com/1.png".to_string()));
}

#[test]
fn first_image_accepts_single_quotes_and_upper_case() {
    assert_eq!(extract_first_image_from_html("<IMG SRC='a.jpg'>"), Some("a.jpg".to_string()));
}

#[test]
fn first_image_takes_the_last_src_within_the_tag() {
    assert_eq!(
        extract_first_image_from_html(r#"<img data-src="lazy.png" src="real.png">"#),
        Some("real.png".to_string())
    );
}

#[test]
fn no_image_gives_none() {
    assert_eq!(extract_first_image_from_html("<p>no pictures</p>"), None);
    assert_eq!(extract_first_image_from_html("<imgsrc=\"x\">"), None);
    assert_eq!(extract_first_image_from_html("<img src=\"\">"), None);
}

#[test]
fn media_content_comes_before_thumbnail_and_body() {
    let mut e = entry(Some("t"), &["l"]);
    e.content_body = Some("<img src=\"body.png\">".to_string());
    e.media = vec![MediaRecord {
        content_urls: vec![Some("media.png".to_string())],
        thumbnails: vec!["thumb.png".to_string()],
    }];
    assert_eq!(extract_image_url(&e), Some("media.png".to_string()));
    e.media[0].content_urls = vec![None];
    assert_eq!(extract_image_url(&e), Some("thumb.png".to_string()));
    e.media[0].thumbnails.clear();
    assert_eq!(extract_image_url(&e), Some("body.png".to_string()));
    e.content_body = None;
    assert_eq!(extract_image_url(&e), None);
}

#[test]
fn entry_without_title_or_link_gets_defaults() {
    let doc = FeedDocument { title: Some("F".to_string()), entries: vec![entry(None, &[])] };
    let data = summarize_feed(&doc, "https://example.com/feed.xml");
    assert_eq!(data.articles.len(), 1);
    assert_eq!(data.articles[0].title, "Untitled");
    assert_eq!(data.articles[0].link, "No link");
}

#[test]
fn entry_without_summary_or_content_has_no_excerpt() {
    let doc = FeedDocument { title: None, entries: vec![entry(Some("A"), &["https://e.com/a"])] };
    let data = summarize_feed(&doc, "u");
    assert_eq!(data.articles.len(), 1);
    assert_eq!(data.articles[0].title, "A");
    assert_eq!(data.articles[0].link, "https://e.com/a");
    assert_eq!(data.articles[0].excerpt, None);
}

#[test]
fn summary_is_preferred_to_content_and_sanitized() {
    let mut e = entry(Some("A"), &["x", "y"]);
    e.summary = Some("<b>Sum</b> &amp; more".to_string());
    e.content_body = Some("Body".to_string());
    let doc = FeedDocument { title: None, entries: vec![e.clone()] };
    assert_eq!(summarize_feed(&doc, "u").articles[0].excerpt, Some("Sum & more".to_string()));
    assert_eq!(summarize_feed(&doc, "u").articles[0].link, "x");
    e.summary = None;
    let doc = FeedDocument { title: None, entries: vec![e] };
    assert_eq!(summarize_feed(&doc, "u").articles[0].excerpt, Some("Body".to_string()));
}

#[test]
fn feed_title_falls_back_to_url_and_order_is_kept() {
    let doc = FeedDocument {
        title: None,
        entries: vec![entry(Some("1"), &[]), entry(Some("2"), &[]), entry(Some("3"), &[])],
    };
    let data = summarize_feed(&doc, "https://example.com/feed.xml");
    assert_eq!(data.title, "https://example.com/feed.xml");
    let titles: Vec<&str> = data.articles.iter().map(|a| a.title.as_str()).collect();
    assert_eq!(titles, vec!["1", "2", "3"]);
}

#[test]
fn rss_document_is_parsed() {
    let xml = r#"<?xml version="1.0"?>
<rss version="2.0"><channel><title>News</title>
<item><title>One</title><link>https://e.com/1</link></item>
<item><description>&lt;p&gt;Hi &lt;img src="https://e.com/i.png"&gt;&lt;/p&gt;</description></item>
</channel></rss>"#;
    let data = parse_feed(xml, "https://e.com/feed").unwrap();
    assert_eq!(data.title, "News");
    assert_eq!(data.articles.len(), 2);
    assert_eq!(data.articles[0].title, "One");
    assert_eq!(data.articles[0].link, "https://e.com/1");
    assert_eq!(data.articles[0].excerpt, None);
    assert_eq!(data.articles[1].title, "Untitled");
    assert_eq!(data.articles[1].link, "No link");
    assert_eq!(data.articles[1].excerpt, Some("Hi".to_string()));
}

#[test]
fn untitled_feed_is_named_by_its_url() {
    let xml = r#"<rss version="2.0"><channel><item><title>x</title></item></channel></rss>"#;
    let data = parse_feed(xml, "https://example.com/feed.xml").unwrap();
    assert_eq!(data.title, "https://example.com/feed.xml");
}

#[test]
fn media_attachment_of_a_parsed_entry_is_the_image() {
    let xml = r#"<rss version="2.0" xmlns:media="http://search.yahoo.com/mrss/"><channel><title>M</title>
<item><title>P</title><link>https://e.com/p</link><media:thumbnail url="https://e.com/t.jpg"/></item>
</channel></rss>"#;
    let data = parse_feed(xml, "u").unwrap();
    assert_eq!(data.articles[0].image_url, Some("https://e.com/t.jpg".to_string()));
}

#[test]
fn html_page_is_not_a_feed() {
    let html = "<html><head><title>Home</title></head><body><p>Hello</p></body></html>";
    match parse_feed(html, "https://example.com/") {
        Err(FeedError::Parse(_)) => {}
        other => panic!("expected a parse error, got {:?}", other),
    }
    match parse_feed("just text", "u") {
        Err(FeedError::Parse(cause)) => assert!(!cause.is_empty()),
        other => panic!("expected a parse error, got {:?}", other),
    }
}

#[test]
fn error_messages_name_their_cause() {
    assert_eq!(FeedError::Fetch("timeout".to_string()).message(), "Failed to fetch feed: timeout");
    assert_eq!(FeedError::Decode("bad".to_string()).message(), "Failed to read feed content: bad");
    assert_eq!(FeedError::Parse("no root".to_string()).message(), "Failed to parse feed: no root");
}

#[test]
fn many_image_tags_without_sources_are_scanned_quickly() {
    let html = format!("{}<img src=\"last.png\">", "<img alt=x ".repeat(50_000));
    assert_eq!(extract_first_image_from_html(&html), Some("last.png".to_string()));
    assert_eq!(extract_first_image_from_html(&"<img".repeat(50_000)), None);
}

fn rss_with_thumbnail(time: &str, decl: &str) -> String {
    format!(
        r#"{}<rss version="2.0" xmlns:media="http://search.yahoo.com/mrss/"><channel><title>M</title>
<item><title>P</title><media:thumbnail url="https://e.com/t.jpg" time="{}"/></item>
</channel></rss>"#,
        decl, time
    )
}

#[test]
fn play_time_too_long_for_the_parser_is_refused() {
    let xml = rss_with_thumbnail("99999999999999999999999", "");
    assert!(matches!(parse_feed(&xml, "u"), Err(FeedError::Parse(_))));
    let xml = rss_with_thumbnail("\u{663}", "");
    assert!(matches!(parse_feed(&xml, "u"), Err(FeedError::Parse(_))));
    let xml = rss_with_thumbnail("&#57;", "");
    assert!(matches!(parse_feed(&xml, "u"), Err(FeedError::Parse(_))));
}

#[test]
fn ordinary_play_times_and_encodings_are_read() {
    let decl = r#"<?xml version="1.0" encoding="UTF-8"?>"#;
    let data = parse_feed(&rss_with_thumbnail("1:02:03.5", decl), "u").unwrap();
    assert_eq!(data.articles[0].image_url, Some("https://e.com/t.jpg".to_string()));
    let decl = r#"<?xml version="1.0" encoding="ISO-8859-1"?>"#;
    assert!(parse_feed(&rss_with_thumbnail("123456789012345", decl), "u").is_ok());
}

#[test]
fn other_declared_encodings_and_nul_are_refused() {
    let decl = r#"<?xml version="1.0" encoding="UTF-16"?>"#;
    assert!(matches!(parse_feed(&rss_with_thumbnail("5", decl), "u"), Err(FeedError::Parse(_))));
    let xml = format!("{}\u{0}", rss_with_thumbnail("5", ""));
    assert!(matches!(parse_feed(&xml, "u"), Err(FeedError::Parse(_))));
}

#[test]
fn itunes_duration_too_long_for_the_parser_is_refused() {
    let xml = r#"<rss version="2.0" xmlns:itunes="http://www.itunes.com/dtds/podcast-1.0.dtd"><channel><title>P</title>
<item><title>E</title><itunes:duration>123456789012345678901234</itunes:duration></item>
</channel></rss>"#;
    assert!(matches!(parse_feed(xml, "u"), Err(FeedError::Parse(_))));
    let split = xml.replace("123456789012345678901234", "12345678901<!-- -->2345678901234");
    assert!(matches!(parse_feed(&split, "u"), Err(FeedError::Parse(_))));
    let ok = xml.replace("123456789012345678901234", "01:02:03");
    assert_eq!(parse_feed(&ok, "u").unwrap().articles[0].title, "E");
}

#[test]
fn play_time_words_elsewhere_do_not_refuse_a_feed() {
    let xml = "<rss version=\"2.0\"><channel><title>T</title>
<item><title>the end=near</title><link>https://e.com/v?time=5&amp;start=30</link>
<description>&lt;ol start=&quot;3&quot;&gt;&lt;li&gt;caf\u{e9} duration 99999999999999999999&lt;/li&gt;&lt;/ol&gt;</description></item>
</channel></rss>";
    let data = parse_feed(xml, "u").unwrap();
    assert_eq!(data.articles[0].title, "the end=near");
    assert_eq!(data.articles[0].link, "https://e.com/v?time=5&start=30");
}
