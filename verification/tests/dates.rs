use review_tracker::{
    date_minus_days, date_plus_days, day_number, days_between, days_in_month, is_leap_year,
    next_day, prev_day, Date, Timestamp,
};

#[test]
fn leap_years_follow_the_gregorian_rule() {
    assert!(is_leap_year(2024));
    assert!(!is_leap_year(2023));
    assert!(!is_leap_year(1900));
    assert!(is_leap_year(2000));
    assert_eq!(days_in_month(2024, 2), 29);
    assert_eq!(days_in_month(2023, 2), 28);
    assert_eq!(days_in_month(2025, 4), 30);
    assert_eq!(days_in_month(2025, 12), 31);
}

#[test]
fn day_numbers_start_at_the_calendar_origin() {
    assert_eq!(day_number(&Date { year: 1, month: 1, day: 1 }), 0);
    assert_eq!(day_number(&Date { year: 1, month: 1, day: 2 }), 1);
    assert_eq!(day_number(&Date { year: 2, month: 1, day: 1 }), 365);
}

#[test]
fn date_shifts_roll_over_months_and_years() {
    let feb28 = Date { year: 2024, month: 2, day: 28 };
    assert_eq!(next_day(&feb28), Date { year: 2024, month: 2, day: 29 });
    assert_eq!(
        date_plus_days(&feb28, 2),
        Date { year: 2024, month: 3, day: 1 }
    );
    let dec31 = Date { year: 2023, month: 12, day: 31 };
    assert_eq!(next_day(&dec31), Date { year: 2024, month: 1, day: 1 });
    let jan1 = Date { year: 2024, month: 1, day: 1 };
    assert_eq!(prev_day(&jan1), dec31);
    assert_eq!(
        date_minus_days(&Date { year: 2024, month: 3, day: 1 }, 1),
        Date { year: 2024, month: 2, day: 29 }
    );
}

#[test]
fn shifts_beyond_the_calendar_leave_the_date_alone() {
    let d = Date { year: 9999, month: 12, day: 30 };
    assert_eq!(date_plus_days(&d, 1), Date { year: 9999, month: 12, day: 31 });
    assert_eq!(date_plus_days(&d, 2), d);
    let first = Date { year: 1, month: 1, day: 1 };
    assert_eq!(date_minus_days(&first, 1), first);
}

#[test]
fn whole_days_between_timestamps_truncate_towards_zero() {
    let base = Timestamp {
        date: Date { year: 2025, month: 6, day: 15 },
        hour: 12,
        minute: 0,
        second: 0,
        nanosecond: 0,
        offset_minutes: 0,
    };
    let next_morning = Timestamp {
        date: Date { year: 2025, month: 6, day: 16 },
        hour: 11,
        minute: 59,
        second: 59,
        nanosecond: 999_999_999,
        offset_minutes: 0,
    };
    // Just under a day apart: zero whole days, in either direction.
    assert_eq!(days_between(&next_morning, &base), 0);
    assert_eq!(days_between(&base, &next_morning), 0);

    let next_noon = Timestamp { date: Date { year: 2025, month: 6, day: 16 }, ..base };
    assert_eq!(days_between(&next_noon, &base), 1);
    assert_eq!(days_between(&base, &next_noon), -1);

    // Offsets shift the instant: noon at +02:00 is before noon at +00:00.
    let east = Timestamp { offset_minutes: 120, ..next_noon };
    assert_eq!(days_between(&east, &base), 0);
}
