use review_tracker::{
    now_timestamp, Date, PreviousStorage, RenameError, ReviewTopic, Storage, Timestamp,
};

fn ts(year: u16, month: u8, day: u8) -> Timestamp {
    Timestamp {
        date: Date { year, month, day },
        hour: 8,
        minute: 0,
        second: 0,
        nanosecond: 0,
        offset_minutes: 0,
    }
}

#[test]
fn update_today_reviews() {
    let test_storage_file_path = "./data/test_storage.json".to_string();
    let mut storage: Storage = Storage::new(PreviousStorage::No, test_storage_file_path.into());

    let mut test_1 = ReviewTopic::new("test_1".to_string());
    test_1.sub_days(2);
    storage.add_review_topic(test_1.clone());
    storage.add_review_topic(ReviewTopic::new("test2".to_string()));

    let mut today_topics: Vec<ReviewTopic> = Vec::new();
    let review_list = storage.get_review_topic_list();
    review_list.iter().for_each(|topic| {
        if topic.is_time_to_review() {
            today_topics.push(topic.clone())
        }
    });

    assert_eq!(1, today_topics.len());
    assert_eq!(test_1.topic_name, today_topics.pop().unwrap().topic_name);
}

#[test]
fn test_renaming_topics() {
    let mut storage = Storage::new(PreviousStorage::No, "./data/test_storage.json".to_string().into());
    let review_topic = ReviewTopic::new("Test1".to_string());
    storage.add_review_topic(review_topic);
    assert!(storage
        .rename_review_topic("Test1".to_string(), "Test1_edited".to_string())
        .is_ok());
    let _ = storage.save_bytes();
    assert!(storage
        .find_review_topic("Test1_edited".to_string())
        .is_some());
}

#[test]
fn adding_duplicate_name_changes_nothing() {
    let mut storage = Storage::new(PreviousStorage::No, None);
    let today = Date { year: 2025, month: 6, day: 15 };
    storage.add_review_topic_at(ReviewTopic::new_at("laplace".to_string(), ts(2025, 6, 10)), &today);
    storage.add_review_topic_at(ReviewTopic::new_at("fourier".to_string(), ts(2025, 6, 12)), &today);
    let before = storage.get_review_topic_list();

    // Same name, different timestamp: the add is cancelled silently.
    storage.add_review_topic_at(ReviewTopic::new_at("laplace".to_string(), ts(2025, 6, 14)), &today);
    let after = storage.get_review_topic_list();

    assert_eq!(before.len(), after.len());
    assert_eq!(before, after);
}

#[test]
fn tie_break_orders_by_name() {
    let mut storage = Storage::new(PreviousStorage::No, None);
    let today = Date { year: 2025, month: 6, day: 15 };
    // Both topics were last reviewed two days ago on the Day tier, so
    // both are due in -1 days; "a" must come before "b".
    storage.add_review_topic_at(ReviewTopic::new_at("b".to_string(), ts(2025, 6, 13)), &today);
    storage.add_review_topic_at(ReviewTopic::new_at("a".to_string(), ts(2025, 6, 13)), &today);
    let list = storage.get_review_topic_list();
    assert_eq!(list.len(), 2);
    assert_eq!(list[0].topic_name, "a");
    assert_eq!(list[1].topic_name, "b");
    assert_eq!(-1, list[0].days_until_review_on(&today));
    assert_eq!(-1, list[1].days_until_review_on(&today));
}

#[test]
fn storage_order_ranks_by_urgency() {
    let mut storage = Storage::new(PreviousStorage::No, None);
    let today = Date { year: 2025, month: 6, day: 15 };
    let mut month_topic = ReviewTopic::new_at("slow".to_string(), ts(2025, 6, 1));
    month_topic.review_at(ts(2025, 6, 1));
    month_topic.review_at(ts(2025, 6, 1));
    assert_eq!(month_topic.next_review_gap, review_tracker::NextReviewGap::Month);
    storage.add_review_topic_at(month_topic, &today);
    storage.add_review_topic_at(ReviewTopic::new_at("soon".to_string(), ts(2025, 6, 14)), &today);
    let list = storage.get_review_topic_list();
    assert_eq!(list[0].topic_name, "soon");
    assert_eq!(list[1].topic_name, "slow");
}

#[test]
fn rename_missing_topic_reports_not_found() {
    let mut storage = Storage::new(PreviousStorage::No, None);
    let today = Date { year: 2025, month: 6, day: 15 };
    storage.add_review_topic_at(ReviewTopic::new_at("algebra".to_string(), ts(2025, 6, 10)), &today);
    let before = storage.get_review_topic_list();

    let r = storage.rename_review_topic("missing".to_string(), "x".to_string());
    assert_eq!(r, Err(RenameError::NotFound));
    assert_eq!(before, storage.get_review_topic_list());
}

#[test]
fn rename_changes_the_key() {
    let mut storage = Storage::new(PreviousStorage::No, None);
    let today = Date { year: 2025, month: 6, day: 15 };
    storage.add_review_topic_at(ReviewTopic::new_at("algebra".to_string(), ts(2025, 6, 10)), &today);

    let r = storage.rename_review_topic("algebra".to_string(), "calculus".to_string());
    assert!(r.is_ok());
    assert!(storage.find_review_topic("algebra".to_string()).is_none());
    assert!(storage.find_review_topic("calculus".to_string()).is_some());
}

#[test]
fn rename_to_existing_name_is_refused() {
    let mut storage = Storage::new(PreviousStorage::No, None);
    let today = Date { year: 2025, month: 6, day: 15 };
    storage.add_review_topic_at(ReviewTopic::new_at("algebra".to_string(), ts(2025, 6, 10)), &today);
    storage.add_review_topic_at(ReviewTopic::new_at("calculus".to_string(), ts(2025, 6, 11)), &today);
    let before = storage.get_review_topic_list();

    let r = storage.rename_review_topic("algebra".to_string(), "calculus".to_string());
    assert_eq!(r, Err(RenameError::DuplicateName));
    assert_eq!(before, storage.get_review_topic_list());
}

#[test]
fn remove_deletes_by_name() {
    let mut storage = Storage::new(PreviousStorage::No, None);
    let today = Date { year: 2025, month: 6, day: 15 };
    let topic = ReviewTopic::new_at("gone".to_string(), ts(2025, 6, 10));
    storage.add_review_topic_at(topic.clone(), &today);
    storage.add_review_topic_at(ReviewTopic::new_at("kept".to_string(), ts(2025, 6, 10)), &today);

    storage.remove_review_topic(&topic);
    let list = storage.get_review_topic_list();
    assert_eq!(list.len(), 1);
    assert_eq!(list[0].topic_name, "kept");
}

#[test]
fn review_by_name_advances_and_restamps() {
    let mut storage = Storage::new(PreviousStorage::No, None);
    let today = Date { year: 2025, month: 6, day: 15 };
    storage.add_review_topic_at(ReviewTopic::new_at("theta".to_string(), ts(2025, 6, 1)), &today);

    let now = ts(2025, 6, 15);
    assert!(storage.review_topic_at("theta".to_string(), &now));
    let list = storage.get_review_topic_list();
    assert_eq!(list[0].next_review_gap, review_tracker::NextReviewGap::Week);
    assert_eq!(list[0].last_reviewed, now);

    let before = storage.get_review_topic_list();
    assert!(!storage.review_topic_at("missing".to_string(), &now));
    assert_eq!(before, storage.get_review_topic_list());
}

#[test]
fn review_by_clock_reports_found() {
    let mut storage = Storage::new(PreviousStorage::No, None);
    storage.add_review_topic(ReviewTopic::new("phi".to_string()));
    assert!(storage.review_topic("phi".to_string()));
    assert!(!storage.review_topic("psi".to_string()));
    let _ = now_timestamp();
}
