use feed_digest::date::{parse_feed_date, Timestamp};
use feed_digest::fetch::{fetch_outcome, fetch_step, should_attempt, FetchEvent, FetchState};
use feed_digest::model::{Channel, Entry, ConfigError, ParseError};
use feed_digest::order::sort_entries;
use feed_digest::outline::{channels_of_outline, OutlineChild, OutlineItem};
use feed_digest::partition::split_by_group;
use feed_digest::pipeline::{file_stem, recency_cutoff, run_pipeline};
use feed_digest::render::render_digest;

fn ts(secs: i64, year: i32, month: u32, day: u32) -> Timestamp {
    Timestamp { secs, year, month, day }
}

fn entry(title: &str, author: &str, t: Timestamp, url: &str, group: &str) -> Entry {
    Entry {
        title: title.to_string(),
        author: author.to_string(),
        published: t,
        url: url.to_string(),
        group: group.to_string(),
    }
}

fn rss_payload(items: &str) -> Vec<u8> {
    format!(
        "<?xml version=\"1.0\"?><rss version=\"2.0\"><channel>\
         <title>t</title><link>l</link><description>d</description>{}\
         </channel></rss>",
        items
    )
    .into_bytes()
}

fn atom_payload(entries: &str) -> Vec<u8> {
    format!(
        "<?xml version=\"1.0\"?><feed xmlns=\"http://www.w3.org/2005/Atom\">\
         <title>t</title><id>i</id><updated>2024-01-01T00:00:00Z</updated>{}\
         </feed>",
        entries
    )
    .into_bytes()
}

fn channel(url: &str, author: &str, group: &str) -> Channel {
    Channel {
        url: url.to_string(),
        author: author.to_string(),
        group: group.to_string(),
    }
}

#[test]
fn parses_rfc2822_date() {
    let t = parse_feed_date("Mon, 01 Jan 2024 00:00:00 +0000").expect("should parse");
    assert_eq!(t.year, 2024);
    assert_eq!(t.month, 1);
    assert_eq!(t.day, 1);
    assert_eq!(t.secs, 1704067200);
}

#[test]
fn date_keeps_local_calendar_fields() {
    let t = parse_feed_date("2024-06-30T23:30:00+02:00").expect("should parse");
    assert_eq!((t.year, t.month, t.day), (2024, 6, 30));
    // the instant is the UTC one
    assert_eq!(t.secs, 1719783000);
}

#[test]
fn unparsable_date_is_none() {
    assert!(parse_feed_date("Yesterday").is_none());
    assert!(parse_feed_date("").is_none());
}

#[test]
fn rss_payload_parses_to_entries() {
    let ch = channel("http://feed", "Alice", "Tech");
    let payload = rss_payload(
        "<item><title>A</title><link>http://a</link>\
         <pubDate>Wed, 01 May 2024 12:00:00 +0000</pubDate></item>",
    );
    let entries = run_parse(&payload, &ch).expect("rss should parse");
    assert_eq!(entries.len(), 1);
    assert_eq!(entries[0].title, "A");
    assert_eq!(entries[0].author, "Alice");
    assert_eq!(entries[0].group, "Tech");
    assert_eq!(entries[0].url, "http://a");
    assert_eq!(entries[0].published.year, 2024);
    assert_eq!(entries[0].published.month, 5);
}

fn run_parse(payload: &[u8], ch: &Channel) -> Result<Vec<Entry>, ParseError> {
    feed_digest::feed::parse_payload(payload, ch)
}

#[test]
fn rss_item_without_date_fails_channel() {
    let ch = channel("http://feed", "Alice", "");
    let payload = rss_payload("<item><title>A</title><link>http://a</link></item>");
    assert!(matches!(run_parse(&payload, &ch), Err(ParseError::MissingDate)));
}

#[test]
fn rss_item_with_bad_date_is_skipped() {
    let ch = channel("http://feed", "Alice", "");
    let payload = rss_payload(
        "<item><title>A</title><link>http://a</link><pubDate>nonsense</pubDate></item>\
         <item><title>B</title><link>http://b</link>\
         <pubDate>Wed, 01 May 2024 12:00:00 +0000</pubDate></item>",
    );
    let entries = run_parse(&payload, &ch).expect("channel should still parse");
    assert_eq!(entries.len(), 1);
    assert_eq!(entries[0].title, "B");
}

#[test]
fn rss_item_without_link_fails_channel() {
    let ch = channel("http://feed", "Alice", "");
    let payload = rss_payload(
        "<item><title>A</title><pubDate>Wed, 01 May 2024 12:00:00 +0000</pubDate></item>",
    );
    assert!(matches!(run_parse(&payload, &ch), Err(ParseError::MissingLink)));
}

#[test]
fn atom_payload_parses_as_fallback() {
    let ch = channel("http://feed", "Bob", "");
    let payload = atom_payload(
        "<entry><title>E</title><id>e1</id>\
         <updated>2022-03-02T08:00:00Z</updated><link href=\"http://e\"/></entry>",
    );
    let entries = run_parse(&payload, &ch).expect("atom should parse");
    assert_eq!(entries.len(), 1);
    assert_eq!(entries[0].title, "E");
    assert_eq!(entries[0].url, "http://e");
    assert_eq!(entries[0].published.year, 2022);
    assert_eq!(entries[0].published.month, 3);
    assert_eq!(entries[0].author, "Bob");
}

#[test]
fn atom_prefers_published_over_updated() {
    let ch = channel("http://feed", "Bob", "");
    let payload = atom_payload(
        "<entry><title>E</title><id>e1</id>\
         <updated>2024-01-01T00:00:00Z</updated>\
         <published>2023-06-15T00:00:00Z</published>\
         <link href=\"http://e\"/></entry>",
    );
    let entries = run_parse(&payload, &ch).expect("atom should parse");
    assert_eq!(entries[0].published.year, 2023);
    assert_eq!(entries[0].published.month, 6);
}

#[test]
fn unknown_format_yields_parse_error() {
    let ch = channel("http://feed", "Alice", "");
    let payload = b"this is not a feed at all".to_vec();
    assert!(matches!(run_parse(&payload, &ch), Err(ParseError::UnknownFormat)));
}

#[test]
fn sort_orders_most_recent_first() {
    let v = vec![
        entry("a", "x", ts(100, 2001, 1, 1), "u", ""),
        entry("b", "x", ts(300, 2003, 1, 1), "u", ""),
        entry("c", "x", ts(200, 2002, 1, 1), "u", ""),
    ];
    let sorted = sort_entries(v);
    let titles: Vec<&str> = sorted.iter().map(|e| e.title.as_str()).collect();
    assert_eq!(titles, vec!["b", "c", "a"]);
}

#[test]
fn empty_bucket_key_holds_every_entry() {
    let v = vec![
        entry("a", "x", ts(300, 2024, 1, 1), "u", "Tech"),
        entry("b", "y", ts(200, 2023, 1, 1), "u", ""),
    ];
    let buckets = split_by_group(&v, 250);
    let all = buckets.iter().find(|b| b.key.is_empty()).expect("all bucket");
    assert_eq!(all.entries.len(), 2);
    assert_eq!(all.entries[0].title, "a");
    assert_eq!(all.entries[1].title, "b");
}

#[test]
fn group_bucket_holds_exactly_its_group() {
    let v = vec![
        entry("a", "x", ts(300, 2024, 1, 1), "u", "Tech"),
        entry("b", "y", ts(200, 2023, 1, 1), "u", ""),
    ];
    let buckets = split_by_group(&v, 250);
    let tech = buckets.iter().find(|b| b.key == "Tech").expect("group bucket");
    assert_eq!(tech.entries.len(), 1);
    assert_eq!(tech.entries[0].title, "a");
    // the ungrouped author gets no bucket of its own
    assert!(buckets.iter().all(|b| b.key != "y" && b.key != "b"));
}

#[test]
fn recency_bucket_splits_on_cutoff_inclusive() {
    let v = vec![
        entry("new", "x", ts(250, 2024, 1, 1), "u", ""),
        entry("old", "x", ts(249, 2023, 1, 1), "u", ""),
    ];
    let buckets = split_by_group(&v, 250);
    let recent = buckets.iter().find(|b| b.key == "this-year").expect("recency bucket");
    assert_eq!(recent.entries.len(), 1);
    assert_eq!(recent.entries[0].title, "new");
}

#[test]
fn no_recency_bucket_without_recent_entries() {
    let v = vec![entry("old", "x", ts(100, 2020, 1, 1), "u", "")];
    let buckets = split_by_group(&v, 250);
    assert!(buckets.iter().all(|b| b.key != "this-year"));
}

#[test]
fn render_empty_is_empty_string() {
    let v: Vec<Entry> = Vec::new();
    assert_eq!(render_digest(&v), "");
}

#[test]
fn render_two_years_has_one_heading_each() {
    let v = vec![
        entry("A", "Alice", ts(300, 2024, 5, 1), "http://a", ""),
        entry("B", "Bob", ts(200, 2022, 3, 2), "http://b", ""),
    ];
    let text = render_digest(&v);
    assert_eq!(
        text,
        "# 2024\n\n2024-05-01 @Alice [A](http://a)\n\n# 2022\n\n2022-03-02 @Bob [B](http://b)"
    );
}

#[test]
fn render_groups_consecutive_same_year() {
    let v = vec![
        entry("A", "x", ts(300, 2024, 5, 1), "u1", ""),
        entry("B", "x", ts(200, 2024, 2, 9), "u2", ""),
    ];
    let text = render_digest(&v);
    assert_eq!(
        text,
        "# 2024\n\n2024-05-01 @x [A](u1)\n\n2024-02-09 @x [B](u2)"
    );
}

#[test]
fn render_is_idempotent() {
    let v = vec![
        entry("A", "Alice", ts(300, 2024, 5, 1), "http://a", ""),
        entry("B", "Bob", ts(200, 2022, 3, 2), "http://b", ""),
    ];
    let first = render_digest(&v);
    let second = render_digest(&v);
    assert_eq!(first, second);
}

#[test]
fn fetch_fails_only_after_both_attempts_fail() {
    assert_eq!(
        fetch_outcome(FetchEvent::Errored, FetchEvent::Errored),
        FetchState::Failed
    );
    assert_eq!(
        fetch_outcome(FetchEvent::Errored, FetchEvent::Delivered),
        FetchState::Succeeded
    );
    assert_eq!(
        fetch_outcome(FetchEvent::Delivered, FetchEvent::Errored),
        FetchState::Succeeded
    );
}

#[test]
fn fetch_retries_exactly_once() {
    let s = fetch_step(FetchState::Pending, FetchEvent::Errored);
    assert_eq!(s, FetchState::RetryPending);
    assert!(should_attempt(s));
    let s = fetch_step(s, FetchEvent::Errored);
    assert_eq!(s, FetchState::Failed);
    assert!(!should_attempt(s));
}

#[test]
fn outline_flattens_groups_and_singletons() {
    let items = vec![
        OutlineItem {
            feed_type: Some("rss".to_string()),
            text: "ignored".to_string(),
            xml_url: Some("http://solo".to_string()),
            title: Some("Solo".to_string()),
            children: Vec::new(),
        },
        OutlineItem {
            feed_type: None,
            text: "Tech".to_string(),
            xml_url: None,
            title: None,
            children: vec![OutlineChild {
                feed_type: Some("rss".to_string()),
                xml_url: Some("http://tech".to_string()),
                title: Some("Alice".to_string()),
            }],
        },
    ];
    let channels = channels_of_outline(&items).expect("outline should load");
    assert_eq!(channels.len(), 2);
    assert_eq!(channels[0].url, "http://solo");
    assert_eq!(channels[0].author, "Solo");
    assert_eq!(channels[0].group, "");
    assert_eq!(channels[1].url, "http://tech");
    assert_eq!(channels[1].author, "Alice");
    assert_eq!(channels[1].group, "Tech");
}

#[test]
fn outline_rejects_wrong_type() {
    let items = vec![OutlineItem {
        feed_type: Some("atom".to_string()),
        text: String::new(),
        xml_url: Some("http://x".to_string()),
        title: Some("X".to_string()),
        children: Vec::new(),
    }];
    assert!(matches!(channels_of_outline(&items), Err(ConfigError::NotFeedType)));
}

#[test]
fn outline_rejects_untyped_child() {
    let items = vec![OutlineItem {
        feed_type: None,
        text: "G".to_string(),
        xml_url: None,
        title: None,
        children: vec![OutlineChild {
            feed_type: None,
            xml_url: Some("http://x".to_string()),
            title: Some("X".to_string()),
        }],
    }];
    assert!(matches!(channels_of_outline(&items), Err(ConfigError::MissingType)));
}

#[test]
fn outline_rejects_missing_url_and_title() {
    let no_url = vec![OutlineItem {
        feed_type: Some("rss".to_string()),
        text: String::new(),
        xml_url: None,
        title: Some("X".to_string()),
        children: Vec::new(),
    }];
    assert!(matches!(channels_of_outline(&no_url), Err(ConfigError::MissingUrl)));
    let no_title = vec![OutlineItem {
        feed_type: Some("rss".to_string()),
        text: String::new(),
        xml_url: Some("http://x".to_string()),
        title: None,
        children: Vec::new(),
    }];
    assert!(matches!(channels_of_outline(&no_title), Err(ConfigError::MissingTitle)));
}

#[test]
fn recency_cutoff_is_365_days() {
    assert_eq!(recency_cutoff(31536000), 0);
    assert_eq!(recency_cutoff(1704067200), 1704067200 - 365 * 86400);
    assert_eq!(recency_cutoff(i64::MIN), i64::MIN);
}

#[test]
fn file_stem_maps_empty_key_to_all() {
    assert_eq!(file_stem(&String::new()), "all");
    assert_eq!(file_stem(&"Tech".to_string()), "Tech");
}

#[test]
fn pipeline_end_to_end_two_channels() {
    let channels = vec![
        channel("http://tech", "Alice", "Tech"),
        channel("http://solo", "Bob", ""),
    ];
    // Alice's item is recent, Bob's is two years older
    let payloads = vec![
        Some(rss_payload(
            "<item><title>A</title><link>http://a</link>\
             <pubDate>Wed, 01 May 2024 12:00:00 +0000</pubDate></item>",
        )),
        Some(rss_payload(
            "<item><title>B</title><link>http://b</link>\
             <pubDate>Wed, 02 Mar 2022 08:00:00 +0000</pubDate></item>",
        )),
    ];
    // a cutoff between the two publication instants
    let cutoff = recency_cutoff(parse_feed_date("Thu, 01 Aug 2024 00:00:00 +0000")
        .unwrap()
        .secs);
    let digests = run_pipeline(&channels, &payloads, cutoff);
    let names: Vec<&str> = digests.iter().map(|d| d.name.as_str()).collect();
    assert!(names.contains(&"all"));
    assert!(names.contains(&"Tech"));
    assert!(names.contains(&"this-year"));
    assert!(!names.contains(&"Bob"));
    assert_eq!(digests.len(), 3);

    let all = digests.iter().find(|d| d.name == "all").unwrap();
    assert_eq!(
        all.text,
        "# 2024\n\n2024-05-01 @Alice [A](http://a)\n\n# 2022\n\n2022-03-02 @Bob [B](http://b)"
    );
    let tech = digests.iter().find(|d| d.name == "Tech").unwrap();
    assert_eq!(tech.text, "# 2024\n\n2024-05-01 @Alice [A](http://a)");
    let recent = digests.iter().find(|d| d.name == "this-year").unwrap();
    assert_eq!(recent.text, "# 2024\n\n2024-05-01 @Alice [A](http://a)");
}

#[test]
fn pipeline_failed_fetch_contributes_nothing() {
    let channels = vec![
        channel("http://dead", "Ghost", "Gone"),
        channel("http://live", "Alice", ""),
    ];
    let payloads = vec![
        None,
        Some(rss_payload(
            "<item><title>A</title><link>http://a</link>\
             <pubDate>Wed, 01 May 2024 12:00:00 +0000</pubDate></item>",
        )),
    ];
    let digests = run_pipeline(&channels, &payloads, 0);
    assert!(digests.iter().all(|d| d.name != "Gone"));
    let all = digests.iter().find(|d| d.name == "all").unwrap();
    assert_eq!(all.text, "# 2024\n\n2024-05-01 @Alice [A](http://a)");
}

#[test]
fn pipeline_unparsable_payload_contributes_nothing() {
    let channels = vec![
        channel("http://junk", "J", "Junk"),
        channel("http://live", "Alice", ""),
    ];
    let payloads = vec![
        Some(b"not a feed".to_vec()),
        Some(rss_payload(
            "<item><title>A</title><link>http://a</link>\
             <pubDate>Wed, 01 May 2024 12:00:00 +0000</pubDate></item>",
        )),
    ];
    let digests = run_pipeline(&channels, &payloads, 0);
    assert!(digests.iter().all(|d| d.name != "Junk"));
    let all = digests.iter().find(|d| d.name == "all").unwrap();
    assert_eq!(all.text, "# 2024\n\n2024-05-01 @Alice [A](http://a)");
}
