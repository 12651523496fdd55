use chrono::{DateTime, Utc};
use timesince::clock::{format_timestamp, parse_timestamp};
use timesince::humanize::{human_readable, time_since_text};
use timesince::store::{AddOutcome, EventStore};
use timesince::timestamp::{Timestamp, MAX_SECS, MIN_SECS};

fn ts(text: &str) -> Timestamp {
    parse_timestamp(text).unwrap()
}

fn stamp(d: DateTime<Utc>) -> Timestamp {
    Timestamp::from_parts(d.timestamp(), d.timestamp_subsec_nanos()).unwrap()
}

fn reload(store: &EventStore) -> EventStore {
    let text = store.to_json_text();
    EventStore::from_json_text(&text).unwrap()
}

#[test]
fn test_human_readable() {
    assert_eq!(human_readable(3600), "1 hour");
}

#[test]
fn test_add_event() {
    let mut store = EventStore::from_json_text("{}").unwrap();
    let event_name = "test_event".to_string();
    let timestamp = stamp(Utc::now());

    store.add_event(&event_name, timestamp);

    let events = reload(&store);
    assert_eq!(events.get(&event_name), Some(timestamp));
}

#[test]
fn test_remove_event() {
    let mut store = EventStore::new();
    let event_name_a = "event_a".to_string();
    let event_name_b = "event_b".to_string();
    let timestamp = stamp(Utc::now());

    store.add_event(&event_name_a, timestamp);
    store.add_event(&event_name_b, timestamp);
    let mut store = reload(&store);

    store.remove_event(&event_name_b);

    let events = reload(&store);
    assert_eq!(events.get(&event_name_a), Some(timestamp));
    assert_eq!(events.get(&event_name_b), None);
}

#[test]
fn test_mark_event() {
    let mut store = EventStore::new();
    let event_name = "mark_test".to_string();
    let start = stamp(Utc::now());
    let ten_days_ago = Timestamp::from_parts(start.secs - 10 * 86_400, start.nanos).unwrap();

    store.add_event(&event_name, ten_days_ago);
    let mut store = reload(&store);

    store.mark_event(&event_name, stamp(Utc::now()));

    let events = reload(&store);
    let later = stamp(Utc::now());
    let updated = events.get(&event_name).unwrap();
    assert!(later.seconds_since(&updated) < 5);
}

#[test]
fn workout_example_phrase() {
    let store = EventStore::from_json_text("{\"workout\": \"2024-01-01T00:00:00Z\"}").unwrap();
    let at = ts("2024-01-04T01:00:00Z");
    let name = "workout".to_string();
    assert_eq!(at.seconds_since(&store.get(&name).unwrap()), 3 * 86_400 + 3600);
    assert_eq!(store.time_since(&name, &at), Some("3 days and 1 hour".to_string()));
    assert_eq!(store.time_since(&"reading".to_string(), &at), None);
}

#[test]
fn add_twice_keeps_first_instant() {
    let mut store = EventStore::new();
    let name = "walk".to_string();
    let first = ts("2024-01-01T00:00:00Z");
    let second = ts("2024-02-01T00:00:00Z");
    assert_eq!(store.add_event(&name, first), AddOutcome::Added);
    assert_eq!(store.add_event(&name, second), AddOutcome::AlreadyExists);
    assert_eq!(store.get(&name), Some(first));
    assert_eq!(store.len(), 1);
}

#[test]
fn mark_absent_leaves_store_unchanged() {
    let mut store = EventStore::new();
    let name = "walk".to_string();
    let at = ts("2024-01-01T00:00:00Z");
    store.add_event(&name, at);
    assert!(!store.mark_event(&"swim".to_string(), ts("2024-03-01T00:00:00Z")));
    assert_eq!(store.len(), 1);
    assert_eq!(store.get(&name), Some(at));
    assert!(!store.contains(&"swim".to_string()));
}

#[test]
fn mark_present_overwrites_instant() {
    let mut store = EventStore::new();
    let name = "walk".to_string();
    store.add_event(&name, ts("2024-01-01T00:00:00Z"));
    let later = ts("2024-03-01T12:30:00Z");
    assert!(store.mark_event(&name, later));
    assert_eq!(store.get(&name), Some(later));
}

#[test]
fn remove_present_and_absent() {
    let mut store = EventStore::new();
    let name = "walk".to_string();
    store.add_event(&name, ts("2024-01-01T00:00:00Z"));
    assert!(!store.remove_event(&"swim".to_string()));
    assert_eq!(store.len(), 1);
    assert!(store.remove_event(&name));
    assert!(store.is_empty());
    assert!(!store.remove_event(&name));
}

#[test]
fn round_trip_keeps_every_entry() {
    let mut store = EventStore::new();
    let a = ts("2024-01-01T00:00:00Z");
    let b = ts("2023-06-15T08:09:10.123456789Z");
    let c = ts("1969-12-31T23:59:59.5Z");
    store.add_event(&"a \"quoted\" name".to_string(), a);
    store.add_event(&"b".to_string(), b);
    store.add_event(&"c\\d".to_string(), c);
    let back = reload(&store);
    assert_eq!(back.len(), 3);
    assert_eq!(back.get(&"a \"quoted\" name".to_string()), Some(a));
    assert_eq!(back.get(&"b".to_string()), Some(b));
    assert_eq!(back.get(&"c\\d".to_string()), Some(c));
}

#[test]
fn load_twice_gives_same_store() {
    let text = "{\"x\": \"2024-01-01T00:00:00Z\", \"y\": \"2020-05-05T05:05:05Z\"}";
    let one = EventStore::from_json_text(text).unwrap();
    let two = EventStore::from_json_text(text).unwrap();
    assert_eq!(one.len(), two.len());
    for name in ["x", "y"] {
        assert_eq!(one.get(&name.to_string()), two.get(&name.to_string()));
    }
}

#[test]
fn add_then_query_is_zero_seconds() {
    let mut store = EventStore::new();
    let name = "now".to_string();
    let at = ts("2024-01-01T00:00:00.250Z");
    store.add_event(&name, at);
    let query = ts("2024-01-01T00:00:01.200Z");
    assert_eq!(query.seconds_since(&store.get(&name).unwrap()), 0);
    assert_eq!(store.time_since(&name, &query), Some("0 seconds".to_string()));
}

#[test]
fn written_text_is_flat_pretty_object() {
    let mut store = EventStore::new();
    store.add_event(&"workout".to_string(), ts("2024-01-01T00:00:00Z"));
    assert_eq!(store.to_json_text(), "{\n  \"workout\": \"2024-01-01T00:00:00Z\"\n}");
    assert_eq!(EventStore::new().to_json_text(), "{}");
}

#[test]
fn unreadable_texts_are_refused() {
    assert!(EventStore::from_json_text("").is_none());
    assert!(EventStore::from_json_text("[]").is_none());
    assert!(EventStore::from_json_text("{\"x\": 5}").is_none());
    assert!(EventStore::from_json_text("{\"x\": \"yesterday\"}").is_none());
    assert!(EventStore::from_json_text("{\"x\": {\"y\": \"2024-01-01T00:00:00Z\"}}").is_none());
    assert!(EventStore::from_json_text("{}").unwrap().is_empty());
}

#[test]
fn listing_has_one_row_per_event() {
    let mut store = EventStore::new();
    store.add_event(&"a".to_string(), ts("2024-01-01T00:00:00Z"));
    store.add_event(&"b".to_string(), ts("2024-01-03T00:00:00Z"));
    let mut rows = store.listing(&ts("2024-01-04T00:00:00Z"));
    rows.sort();
    assert_eq!(
        rows,
        vec![("a".to_string(), "3 days".to_string()), ("b".to_string(), "1 day".to_string())]
    );
    assert!(EventStore::new().listing(&ts("2024-01-04T00:00:00Z")).is_empty());
}

#[test]
fn phrases_grow_with_the_span() {
    assert_eq!(human_readable(0), "0 seconds");
    assert_eq!(human_readable(1), "1 second");
    assert_eq!(human_readable(59), "59 seconds");
    assert_eq!(human_readable(60), "1 minute");
    assert_eq!(human_readable(3599), "59 minutes and 59 seconds");
    assert_eq!(human_readable(90_000), "1 day and 1 hour");
}

#[test]
fn seconds_since_truncates_toward_zero() {
    let a = Timestamp::from_parts(10, 900_000_000).unwrap();
    let b = Timestamp::from_parts(12, 100_000_000).unwrap();
    assert_eq!(b.seconds_since(&a), 1);
    assert_eq!(a.seconds_since(&b), -1);
    assert_eq!(a.seconds_since(&a), 0);
    let c = Timestamp::from_parts(-5, 0).unwrap();
    assert_eq!(a.seconds_since(&c), 15);
    assert_eq!(c.seconds_since(&a), -15);
}

#[test]
fn time_since_text_uses_whole_seconds() {
    let then = ts("2024-01-01T00:00:00Z");
    let now_ = ts("2024-01-01T01:00:00.999Z");
    assert_eq!(time_since_text(&now_, &then), "1 hour");
}

#[test]
fn timestamps_read_and_write_rfc3339() {
    assert_eq!(ts("2024-01-01T00:00:00+01:00"), Timestamp::from_parts(1_704_063_600, 0).unwrap());
    assert_eq!(ts("1970-01-01T00:00:01.5Z"), Timestamp::from_parts(1, 500_000_000).unwrap());
    assert!(parse_timestamp("2024-13-01T00:00:00Z").is_none());
    let t = Timestamp::from_parts(1_704_063_600, 0).unwrap();
    assert_eq!(format_timestamp(&t).unwrap(), "2023-12-31T23:00:00Z");
    let u = Timestamp::from_parts(0, 500_000_000).unwrap();
    assert_eq!(format_timestamp(&u).unwrap(), "1970-01-01T00:00:00.500Z");
}

#[test]
fn instants_out_of_range_are_refused() {
    assert!(Timestamp::from_parts(0, 1_000_000_000).is_none());
    assert!(Timestamp::from_parts(i64::MAX, 0).is_none());
    assert!(Timestamp::from_parts(-1, 999_999_999).unwrap().is_valid());
}

#[test]
fn extreme_instants_are_written_and_read_back() {
    let last = Timestamp::from_parts(MAX_SECS, 999_999_999).unwrap();
    let first = Timestamp::from_parts(MIN_SECS, 0).unwrap();
    assert_eq!(format_timestamp(&last).unwrap(), "+262142-12-31T23:59:59.999999999Z");
    assert_eq!(format_timestamp(&first).unwrap(), "-262143-01-01T00:00:00Z");
    let mut store = EventStore::new();
    store.add_event(&"last".to_string(), last);
    store.add_event(&"first".to_string(), first);
    let back = reload(&store);
    assert_eq!(back.get(&"last".to_string()), Some(last));
    assert_eq!(back.get(&"first".to_string()), Some(first));
    assert!(Timestamp::from_parts(MAX_SECS + 1, 0).is_none());
    assert!(Timestamp::from_parts(MIN_SECS - 1, 0).is_none());
}

#[test]
fn relaxed_rfc3339_is_read() {
    assert_eq!(ts("2024-01-01 00:00:00Z"), ts("2024-01-01T00:00:00Z"));
}
