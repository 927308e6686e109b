use timecard::model::{Date, Time, TimeRange};
use timecard::numfmt::format_minutes;

#[test]
fn date_new_accepts_every_valid_pair() {
    for m in 1..=12u32 {
        for d in 1..=31u32 {
            let date = Date::new(m, d).unwrap();
            assert_eq!(date.month, m);
            assert_eq!(date.day, d);
        }
    }
}

#[test]
fn date_new_rejects_out_of_range() {
    assert!(Date::new(0, 1).is_err());
    assert!(Date::new(13, 1).is_err());
    assert!(Date::new(1, 0).is_err());
    assert!(Date::new(1, 32).is_err());
    assert_eq!(Date::new(13, 1).unwrap_err(), "invalid date \"13/1\"");
    assert_eq!(Date::new(1, 32).unwrap_err(), "invalid date \"1/32\"");
}

#[test]
fn time_new_accepts_every_valid_pair() {
    for h in 1..=12u32 {
        for min in 0..=59u32 {
            let t = Time::new(h, min).unwrap();
            assert_eq!(t.hours, h);
            assert_eq!(t.minutes, min);
        }
    }
}

#[test]
fn time_new_rejects_out_of_range() {
    assert!(Time::new(0, 0).is_err());
    assert!(Time::new(13, 0).is_err());
    assert!(Time::new(1, 60).is_err());
    assert_eq!(Time::new(13, 0).unwrap_err(), "invalid time \"13:0\"");
    assert_eq!(Time::new(1, 60).unwrap_err(), "invalid time \"1:60\"");
}

#[test]
fn in_minutes_maps_hour_twelve_to_the_bottom() {
    assert_eq!(Time::new(12, 0).unwrap().in_minutes(), 0);
    assert_eq!(Time::new(12, 59).unwrap().in_minutes(), 59);
    assert_eq!(Time::new(1, 0).unwrap().in_minutes(), 60);
    assert_eq!(Time::new(11, 59).unwrap().in_minutes(), 719);
}

#[test]
fn duration_plain_difference() {
    assert_eq!(TimeRange::new(1, 15, 2, 45).unwrap().minutes(), 90);
}

#[test]
fn duration_rollover() {
    assert_eq!(TimeRange::new(12, 45, 1, 15).unwrap().minutes(), 30);
}

#[test]
fn duration_equal_endpoints_is_zero() {
    assert_eq!(TimeRange::new(3, 0, 3, 0).unwrap().minutes(), 0);
}

#[test]
fn time_range_reports_bad_start_first() {
    assert_eq!(
        TimeRange::new(13, 0, 14, 0).unwrap_err(),
        "invalid time \"13:0\""
    );
    assert_eq!(
        TimeRange::new(1, 0, 1, 60).unwrap_err(),
        "invalid time \"1:60\""
    );
}

#[test]
fn date_to_s() {
    assert_eq!(Date::new(1, 3).unwrap().to_s(), "1/3");
    assert_eq!(Date::new(12, 15).unwrap().to_s(), "12/15");
}

#[test]
fn format_minutes_examples() {
    assert_eq!(format_minutes(90), "1.50 hrs");
    assert_eq!(format_minutes(0), "0.00 hrs");
    assert_eq!(format_minutes(45), "0.75 hrs");
    assert_eq!(format_minutes(4), "0.07 hrs");
    assert_eq!(format_minutes(94), "1.57 hrs");
    assert_eq!(format_minutes(60), "1.00 hrs");
}

#[test]
fn format_minutes_is_pure() {
    for m in [0u64, 1, 4, 45, 59, 60, 90, 94, 719, 100000] {
        assert_eq!(format_minutes(m), format_minutes(m));
    }
}
