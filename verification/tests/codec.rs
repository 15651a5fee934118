use review_tracker::{
    find_previous_storage, load_storage, load_topics, Date, LoadError, PreviousStorage,
    ReviewTopic, Storage, Timestamp,
};

fn ts(year: u16, month: u8, day: u8, offset_minutes: i16) -> Timestamp {
    Timestamp {
        date: Date { year, month, day },
        hour: 23,
        minute: 59,
        second: 7,
        nanosecond: 123_456_789,
        offset_minutes,
    }
}

fn storage_with(names_and_times: &[(&str, Timestamp)]) -> Storage {
    let mut storage = Storage::new(PreviousStorage::No, None);
    let today = Date { year: 2025, month: 1, day: 1 };
    for (name, at) in names_and_times {
        storage.add_review_topic_at(ReviewTopic::new_at(name.to_string(), *at), &today);
    }
    storage
}

#[test]
fn test_read_write() {
    let storage = Storage::new(
        PreviousStorage::No,
        Some("./data/test_storage.json".to_string()),
    );
    let written = storage.save_bytes();
    let reloaded = load_storage("./data/test_storage.json".to_string(), Some(&written))
        .expect("what was written must read back");
    assert_eq!(storage.get_review_topic_list(), reloaded.get_review_topic_list());
}

#[test]
fn round_trip_empty() {
    let storage = storage_with(&[]);
    let bytes = storage.save_bytes();
    let loaded = load_topics(&bytes).expect("saved bytes must load");
    assert_eq!(loaded, storage.get_review_topic_list());
    assert_eq!(loaded.len(), 0);
}

#[test]
fn round_trip_single() {
    let storage = storage_with(&[("algebra", ts(2024, 12, 31, 90))]);
    let bytes = storage.save_bytes();
    let loaded = load_topics(&bytes).expect("saved bytes must load");
    assert_eq!(loaded, storage.get_review_topic_list());
}

#[test]
fn round_trip_many() {
    let storage = storage_with(&[
        ("algebra", ts(2024, 12, 31, 90)),
        ("calculus", ts(2025, 2, 28, -330)),
        ("geometry", ts(2023, 1, 1, 0)),
    ]);
    let bytes = storage.save_bytes();
    let loaded = load_topics(&bytes).expect("saved bytes must load");
    assert_eq!(loaded, storage.get_review_topic_list());
    assert_eq!(loaded.len(), 3);
}

#[test]
fn round_trip_escaped_and_unicode_names() {
    let storage = storage_with(&[
        ("with \"quotes\" and \\slashes\\", ts(2025, 3, 3, 60)),
        ("tab\there\nand newline", ts(2025, 3, 4, 60)),
        ("ünïcødé §ymbols", ts(2025, 3, 5, 60)),
    ]);
    let bytes = storage.save_bytes();
    let loaded = load_topics(&bytes).expect("saved bytes must load");
    assert_eq!(loaded, storage.get_review_topic_list());
}

#[test]
fn saved_form_is_the_documented_record() {
    let storage = storage_with(&[("algebra", ts(2024, 12, 31, 90))]);
    let bytes = storage.save_bytes();
    let text = String::from_utf8(bytes).expect("saved bytes are UTF-8");
    assert_eq!(
        text,
        "{\"review_topic_list\":[{\"topic_name\":\"algebra\",\
         \"last_reviewed\":\"2024-12-31T23:59:07.123456789+01:30\",\
         \"next_review_gap\":\"Day\"}]}"
    );
}

#[test]
fn negative_offset_is_saved_with_minus_sign() {
    let storage = storage_with(&[("west", ts(2025, 6, 1, -150))]);
    let bytes = storage.save_bytes();
    let text = String::from_utf8(bytes.clone()).expect("saved bytes are UTF-8");
    assert!(text.contains("2025-06-01T23:59:07.123456789-02:30"));
    let loaded = load_topics(&bytes).expect("saved bytes must load");
    assert_eq!(loaded[0].last_reviewed.offset_minutes, -150);
}

#[test]
fn tier_words_round_trip() {
    let today = Date { year: 2025, month: 1, day: 1 };
    let mut storage = Storage::new(PreviousStorage::No, None);
    let mut week = ReviewTopic::new_at("week".to_string(), ts(2025, 1, 1, 0));
    week.review_at(ts(2025, 1, 2, 0));
    let mut month = ReviewTopic::new_at("month".to_string(), ts(2025, 1, 1, 0));
    month.review_at(ts(2025, 1, 2, 0));
    month.review_at(ts(2025, 1, 3, 0));
    storage.add_review_topic_at(week, &today);
    storage.add_review_topic_at(month, &today);
    let bytes = storage.save_bytes();
    let text = String::from_utf8(bytes.clone()).expect("saved bytes are UTF-8");
    assert!(text.contains("\"next_review_gap\":\"Week\""));
    assert!(text.contains("\"next_review_gap\":\"Month\""));
    let loaded = load_topics(&bytes).expect("saved bytes must load");
    assert_eq!(loaded, storage.get_review_topic_list());
}

#[test]
fn saving_a_loaded_collection_reproduces_the_bytes() {
    let storage = storage_with(&[
        ("algebra", ts(2024, 12, 31, 90)),
        ("calculus", ts(2025, 2, 28, -330)),
    ]);
    let bytes = storage.save_bytes();
    let reloaded = load_storage("./data/storage.json".to_string(), Some(&bytes))
        .expect("saved bytes must load");
    assert_eq!(reloaded.save_bytes(), bytes);
}

#[test]
fn garbage_does_not_load() {
    assert!(load_topics(&b"not a saved record".to_vec()).is_none());
    assert!(load_topics(&b"{\"review_topic_list\":[".to_vec()).is_none());
    assert!(load_topics(&b"{\"review_topic_list\":[]}trailing".to_vec()).is_none());
    assert!(load_topics(&b"".to_vec()).is_none());
}

#[test]
fn empty_topic_name_does_not_load() {
    let bytes = b"{\"review_topic_list\":[{\"topic_name\":\"\",\
        \"last_reviewed\":\"2024-12-31T23:59:07.123456789+01:30\",\
        \"next_review_gap\":\"Day\"}]}"
        .to_vec();
    assert!(load_topics(&bytes).is_none());
}

#[test]
fn invalid_date_does_not_load() {
    let bytes = b"{\"review_topic_list\":[{\"topic_name\":\"x\",\
        \"last_reviewed\":\"2023-02-29T23:59:07.123456789+01:30\",\
        \"next_review_gap\":\"Day\"}]}"
        .to_vec();
    assert!(load_topics(&bytes).is_none());
}

#[test]
fn load_storage_without_prior_save_is_empty() {
    let r = load_storage("./data/storage.json".to_string(), None);
    let storage = r.expect("no prior save means an empty collection");
    assert_eq!(storage.get_review_topic_list().len(), 0);
}

#[test]
fn load_storage_round_trips_save() {
    let storage = storage_with(&[("algebra", ts(2024, 12, 31, 90))]);
    let bytes = storage.save_bytes();
    let reloaded = load_storage("./data/storage.json".to_string(), Some(&bytes))
        .expect("saved bytes must load");
    assert_eq!(reloaded.get_review_topic_list(), storage.get_review_topic_list());
}

#[test]
fn load_storage_reports_corruption() {
    let r = load_storage("./data/storage.json".to_string(), Some(&b"{broken".to_vec()));
    assert_eq!(r.err(), Some(LoadError::Corrupt));
}

#[test]
fn previous_storage_is_found_only_when_read() {
    assert!(find_previous_storage(&Some(b"{}".to_vec())));
    assert!(!find_previous_storage(&None));
}

#[test]
fn non_utf8_name_bytes_do_not_load() {
    let mut bytes = b"{\"review_topic_list\":[{\"topic_name\":\"".to_vec();
    bytes.push(0xFF);
    bytes.extend_from_slice(
        b"\",\"last_reviewed\":\"2024-12-31T23:59:07.123456789+01:30\",\
          \"next_review_gap\":\"Day\"}]}",
    );
    assert!(load_topics(&bytes).is_none());
}
