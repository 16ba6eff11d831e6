use news::batch::{write_batches, WriteOutcome};
use news::dates::Timestamp;
use news::dedupe::dedupe;
use news::model::{parse_entries, EntryFields, NormalizedFeedRecord, RawFeedEntry};
use news::pipeline::run_ingestion;
use news::store::FeedStore;

fn ts(year: u32, month: u32, day: u32, hour: u32, minute: u32, second: u32) -> Timestamp {
    Timestamp { year, month, day, hour, minute, second, offset_seconds: 0 }
}

fn rec(title: &str, link: Option<&str>, published: Option<Timestamp>) -> NormalizedFeedRecord {
    NormalizedFeedRecord {
        title: title.to_string(),
        link: link.map(|l| l.to_string()),
        description: None,
        content: None,
        author: Some("someone".to_string()),
        image: None,
        published,
    }
}

fn titles(records: &[NormalizedFeedRecord]) -> Vec<String> {
    records.iter().map(|r| r.title.clone()).collect()
}

#[test]
fn dedupe_excludes_empty_titles() {
    let incoming = vec![rec("", Some("http://a"), None), rec("kept", Some("http://b"), None)];
    let existing: Vec<String> = Vec::new();
    let out = dedupe(incoming, &existing);
    assert_eq!(titles(&out), vec!["kept".to_string()]);
}

#[test]
fn dedupe_excludes_known_links_and_keeps_fresh_in_order() {
    let incoming = vec![
        rec("first", Some("http://new1"), None),
        rec("dup", Some("http://old"), None),
        rec("second", Some("http://new2"), None),
        rec("unlinked", None, None),
    ];
    let existing = vec!["http://old".to_string(), "http://other".to_string()];
    let out = dedupe(incoming, &existing);
    assert_eq!(
        titles(&out),
        vec!["first".to_string(), "second".to_string(), "unlinked".to_string()]
    );
}

#[test]
fn dedupe_does_not_self_dedupe_a_batch() {
    let incoming = vec![rec("a", Some("http://same"), None), rec("b", Some("http://same"), None)];
    let existing: Vec<String> = Vec::new();
    let out = dedupe(incoming, &existing);
    assert_eq!(out.len(), 2);
}

#[test]
fn batch_writer_on_zero_records_is_a_noop_success() {
    let mut store = FeedStore::new();
    let outcome = write_batches(&mut store, Vec::new());
    assert_eq!(outcome, WriteOutcome::NoNewRecords);
    assert_eq!(store.items.len(), 0);
    assert_eq!(store.next_id, 0);
}

#[test]
fn batch_writer_on_eight_records_writes_each_exactly_once() {
    let mut store = FeedStore::new();
    let records: Vec<NormalizedFeedRecord> =
        (0..8).map(|i| rec(&format!("t{}", i), Some(&format!("http://{}", i)), None)).collect();
    let outcome = write_batches(&mut store, records);
    assert_eq!(outcome, WriteOutcome::Wrote);
    assert_eq!(store.items.len(), 8);
    for (i, item) in store.items.iter().enumerate() {
        assert_eq!(item.id, i as u64);
        assert_eq!(item.record.title, format!("t{}", i));
    }
}

#[test]
fn batch_writer_leaves_the_tail_beyond_eight_chunks_unflushed() {
    // With nine records the eighth-length chunk is one, so eight single
    // writes happen and the ninth record is never flushed.
    let mut store = FeedStore::new();
    let records: Vec<NormalizedFeedRecord> =
        (0..9).map(|i| rec(&format!("t{}", i), Some(&format!("http://{}", i)), None)).collect();
    let outcome = write_batches(&mut store, records);
    assert_eq!(outcome, WriteOutcome::Wrote);
    assert_eq!(store.items.len(), 8);
}

#[test]
fn batch_writer_under_eight_records_writes_nothing() {
    // Fewer than eight records make the chunk length zero: the loop
    // performs eight empty writes and flushes nothing.
    let mut store = FeedStore::new();
    let records: Vec<NormalizedFeedRecord> =
        (0..5).map(|i| rec(&format!("t{}", i), Some(&format!("http://{}", i)), None)).collect();
    let outcome = write_batches(&mut store, records);
    assert_eq!(outcome, WriteOutcome::Wrote);
    assert_eq!(store.items.len(), 0);
}

#[test]
fn select_all_orders_published_desc_with_unpublished_last() {
    let mut store = FeedStore::new();
    let t1 = ts(2024, 3, 1, 12, 0, 0);
    let t2 = ts(2024, 2, 1, 12, 0, 0);
    store.insert_many(vec![
        rec("older", Some("http://2"), Some(t2)),
        rec("no-date", Some("http://3"), None),
        rec("newest", Some("http://1"), Some(t1)),
    ]);
    let out = store.select_all(10);
    let got: Vec<String> = out.iter().map(|i| i.record.title.clone()).collect();
    assert_eq!(
        got,
        vec!["newest".to_string(), "older".to_string(), "no-date".to_string()]
    );
}

#[test]
fn select_all_respects_the_limit() {
    let mut store = FeedStore::new();
    store.insert_many(vec![
        rec("a", Some("http://1"), Some(ts(2024, 1, 1, 0, 0, 0))),
        rec("b", Some("http://2"), Some(ts(2024, 1, 2, 0, 0, 0))),
        rec("c", Some("http://3"), Some(ts(2024, 1, 3, 0, 0, 0))),
    ]);
    let out = store.select_all(2);
    assert_eq!(out.len(), 2);
    assert_eq!(out[0].record.title, "c");
    assert_eq!(out[1].record.title, "b");
}

#[test]
fn search_is_case_insensitive_over_title() {
    let mut store = FeedStore::new();
    store.insert_many(vec![
        rec("Breaking News", Some("http://1"), None),
        rec("weather", Some("http://2"), None),
    ]);
    let out = store.search("breaking", 10);
    assert_eq!(out.len(), 1);
    assert_eq!(out[0].record.title, "Breaking News");
}

#[test]
fn search_matches_description_and_orders_by_id_descending() {
    let mut store = FeedStore::new();
    let mut with_desc = rec("plain title", Some("http://1"), None);
    with_desc.description = Some("THE Market report".to_string());
    store.insert_many(vec![
        with_desc,
        rec("market watch", Some("http://2"), None),
        rec("unrelated", Some("http://3"), None),
    ]);
    let out = store.search("market", 10);
    assert_eq!(out.len(), 2);
    assert_eq!(out[0].record.title, "market watch");
    assert_eq!(out[1].record.title, "plain title");
}

#[test]
fn search_misses_return_empty() {
    let mut store = FeedStore::new();
    store.insert_many(vec![rec("Breaking News", Some("http://1"), None)]);
    assert_eq!(store.search("sports", 10).len(), 0);
}

#[test]
fn select_by_id_finds_exactly_the_item() {
    let mut store = FeedStore::new();
    store.insert_many(vec![rec("a", Some("http://1"), None), rec("b", Some("http://2"), None)]);
    let out = store.select_by_id(1, 10);
    assert_eq!(out.len(), 1);
    assert_eq!(out[0].record.title, "b");
    assert_eq!(store.select_by_id(7, 10).len(), 0);
}

fn entry(title: &str, link: &str, published: Option<&str>) -> RawFeedEntry {
    RawFeedEntry {
        title: title.to_string(),
        link: link.to_string(),
        description: Some(format!("<p>{} &amp; more</p>", title)),
        author: "author".to_string(),
        guid: format!("guid-{}", link),
        images: None,
        published: published.map(|p| p.to_string()),
        content: None,
    }
}

#[test]
fn run_ingestion_normalizes_dedupes_and_writes() {
    let mut store = FeedStore::new();
    store.insert_many(vec![rec("already there", Some("http://old"), None)]);
    let mut entries: Vec<RawFeedEntry> = (0..8)
        .map(|i| entry(&format!("fresh{}", i), &format!("http://f{}", i), Some("2024-01-15 10:30:00")))
        .collect();
    entries.push(entry("dup", "http://old", None));
    entries.push(entry("", "http://empty-title", None));
    // ten entries, two dropped by dedupe, eight written in full
    let outcome = run_ingestion(&mut store, entries).unwrap();
    assert_eq!(outcome, WriteOutcome::Wrote);
    assert_eq!(store.items.len(), 9);
    assert_eq!(store.items[1].record.title, "fresh0");
    assert_eq!(
        store.items[1].record.description,
        Some("fresh0 & more".to_string())
    );
    let p = store.items[1].record.published.unwrap();
    assert_eq!((p.year, p.month, p.day), (2024, 1, 15));
}

#[test]
fn run_ingestion_fails_hard_on_unresolvable_dates() {
    let mut store = FeedStore::new();
    let entries = vec![entry("bad", "http://b", Some("not-a-date"))];
    assert!(run_ingestion(&mut store, entries).is_err());
    assert_eq!(store.items.len(), 0);
}

#[test]
fn run_ingestion_reports_no_new_records_when_all_are_known() {
    let mut store = FeedStore::new();
    store.insert_many(vec![rec("old", Some("http://old"), None)]);
    let entries = vec![entry("dup", "http://old", None)];
    let outcome = run_ingestion(&mut store, entries).unwrap();
    assert_eq!(outcome, WriteOutcome::NoNewRecords);
    assert_eq!(store.items.len(), 1);
}

#[test]
fn parse_entries_keeps_order_and_defaults_missing_fields() {
    let fields = vec![
        EntryFields {
            title: Some("one".to_string()),
            link: Some("http://1".to_string()),
            description: None,
            author: None,
            guid: None,
            images: None,
            published: Some("2024-01-15 10:30:00".to_string()),
            content: None,
        },
        EntryFields {
            title: None,
            link: None,
            description: Some("d".to_string()),
            author: Some("a".to_string()),
            guid: Some("g".to_string()),
            images: Some("i".to_string()),
            published: None,
            content: Some("c".to_string()),
        },
    ];
    let entries = parse_entries(fields);
    assert_eq!(entries.len(), 2);
    assert_eq!(entries[0].title, "one");
    assert_eq!(entries[0].link, "http://1");
    assert_eq!(entries[1].title, "");
    assert_eq!(entries[1].link, "");
    assert_eq!(entries[1].author, "a");
    assert_eq!(entries[1].images, Some("i".to_string()));
}
