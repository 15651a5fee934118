use review_tracker::{now_timestamp, Date, NextReviewGap, ReviewTopic, Timestamp};

fn ts(year: u16, month: u8, day: u8) -> Timestamp {
    Timestamp {
        date: Date { year, month, day },
        hour: 12,
        minute: 30,
        second: 15,
        nanosecond: 500_000_000,
        offset_minutes: 120,
    }
}

#[test]
fn test_default_topic() {
    let default_review_topic: ReviewTopic = ReviewTopic::new(String::from("test"));

    let topic_name_is_not_empty = !default_review_topic.topic_name.is_empty();
    assert!(topic_name_is_not_empty);

    let is_not_time_to_review = !default_review_topic.is_time_to_review();
    assert!(is_not_time_to_review);
}

#[test]
fn test_updating_review_gap() {
    let mut review_topic: ReviewTopic = ReviewTopic::new(String::from("Review Topic Name"));

    assert_eq!(review_topic.next_review_gap, NextReviewGap::Day);
    review_topic.review();
    assert_eq!(review_topic.next_review_gap, NextReviewGap::Week);
    review_topic.review();
    assert_eq!(review_topic.next_review_gap, NextReviewGap::Month);
}

#[test]
fn test_changing_days() {
    let mut review_topic: ReviewTopic = ReviewTopic::new("test_topic".to_string());

    assert_eq!(now_timestamp().date, review_topic.last_reviewed.date);

    review_topic.sub_days(1);

    let delta_time = review_topic.days_since_last_reviewed(&now_timestamp());
    assert_eq!(1, delta_time);

    review_topic.add_days(1);

    let delta_time = review_topic.days_since_last_reviewed(&now_timestamp());
    assert_eq!(0, delta_time);
}

#[test]
fn test_review() {
    let mut review_topic: ReviewTopic = ReviewTopic::new("test1".to_owned());
    review_topic.review();
    assert_eq!(NextReviewGap::Week, review_topic.next_review_gap);
}

#[test]
fn test_compare_review_gaps() {
    assert!(NextReviewGap::Day < NextReviewGap::Week);
    assert!(NextReviewGap::Week < NextReviewGap::Month);
    assert_eq!(NextReviewGap::Day, NextReviewGap::Day);

    let mut topic1: ReviewTopic = ReviewTopic::new("z".to_owned());
    topic1.review();

    let topic2: ReviewTopic = ReviewTopic::new("a".to_owned());

    // topic1 now waits a week, topic2 only a day: topic2 is more urgent.
    let today = now_timestamp().date;
    assert!(topic2.comes_before_or_equal(&topic1, &today));
    assert!(!topic1.comes_before_or_equal(&topic2, &today));
}

#[test]
fn test_is_review_day() {
    let mut topic = ReviewTopic::new("topic".to_owned());
    assert_eq!(1, topic.days_until_review());
    assert!(!topic.is_time_to_review());

    topic.sub_days(1);
    assert_eq!(0, topic.days_until_review());
    assert!(topic.is_time_to_review());
}

#[test]
fn test_days_until_review() {}

#[test]
fn fresh_topic_due_after_one_simulated_day() {
    let mut topic = ReviewTopic::new("algebra".to_string());
    assert_eq!(topic.next_review_gap, NextReviewGap::Day);
    assert!(!topic.is_time_to_review());

    topic.sub_days(1);
    assert!(topic.is_time_to_review());
    assert_eq!(0, topic.days_until_review());
}

#[test]
fn three_reviews_reach_month_and_stay_there() {
    let t1 = ts(2024, 3, 1);
    let t2 = ts(2024, 3, 2);
    let t3 = ts(2024, 3, 10);
    let t4 = ts(2024, 4, 10);
    let mut topic = ReviewTopic::new_at("fresh".to_string(), t1);

    topic.review_at(t2);
    topic.review_at(t3);
    topic.review_at(t3);
    assert_eq!(topic.next_review_gap, NextReviewGap::Month);
    assert_eq!(topic.last_reviewed, t3);

    topic.review_at(t4);
    assert_eq!(topic.next_review_gap, NextReviewGap::Month);
    assert_eq!(topic.last_reviewed, t4);
}

#[test]
fn tier_offsets_are_one_seven_thirty() {
    assert_eq!(NextReviewGap::Day.tier_offset_days(), 1);
    assert_eq!(NextReviewGap::Week.tier_offset_days(), 7);
    assert_eq!(NextReviewGap::Month.tier_offset_days(), 30);
    assert_eq!(NextReviewGap::Day.advanced(), NextReviewGap::Week);
    assert_eq!(NextReviewGap::Week.advanced(), NextReviewGap::Month);
    assert_eq!(NextReviewGap::Month.advanced(), NextReviewGap::Month);
}

#[test]
fn days_until_review_uses_calendar_dates() {
    // Last reviewed at the end of February of a leap year, on the Week
    // tier: due seven days later, across the month boundary.
    let mut topic = ReviewTopic::new_at("rollover".to_string(), ts(2024, 2, 28));
    topic.review_at(ts(2024, 2, 28));
    assert_eq!(topic.next_review_gap, NextReviewGap::Week);
    let today = Date { year: 2024, month: 3, day: 6 };
    assert_eq!(0, topic.days_until_review_on(&today));
    assert!(topic.is_time_to_review_on(&today));
    let day_before = Date { year: 2024, month: 3, day: 5 };
    assert_eq!(1, topic.days_until_review_on(&day_before));
    assert!(!topic.is_time_to_review_on(&day_before));
}
