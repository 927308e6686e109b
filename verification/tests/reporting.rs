use timecard::model::{Date, Entry, Time, TimeRange};
use timecard::numfmt::format_minutes;
use timecard::parse::parse_user_input;
use timecard::report::{entries_wf, process_entries};

fn range(sh: u32, sm: u32, eh: u32, em: u32) -> Entry {
    Entry::TimeRangeEntry(TimeRange {
        start: Time {
            hours: sh,
            minutes: sm,
        },
        end: Time {
            hours: eh,
            minutes: em,
        },
    })
}

fn date(m: u32, d: u32) -> Entry {
    Entry::DateEntry(Date { month: m, day: d })
}

#[test]
fn full_scenario_three_days() {
    let input = "1/3\n\n1:23-1:27\n12/4\n3:45-4:45\n12/15\n12:45-1:15";
    let entries = parse_user_input(String::from(input)).unwrap();
    assert!(entries_wf(&entries));
    let (days, total) = process_entries(&entries);
    assert_eq!(days, "  1/3: 0.07 hrs\n 12/4: 1.00 hrs\n12/15: 0.50 hrs\n");
    assert_eq!(total, 94);
    assert_eq!(format_minutes(total), "1.57 hrs");
}

#[test]
fn no_entries_no_report() {
    let entries: Vec<Entry> = Vec::new();
    let (days, total) = process_entries(&entries);
    assert_eq!(days, "");
    assert_eq!(total, 0);
}

#[test]
fn ranges_before_any_date_still_count() {
    let entries = vec![range(1, 0, 2, 0), date(1, 3), range(2, 0, 2, 30)];
    let (days, total) = process_entries(&entries);
    assert_eq!(days, "1.00 hrs\n  1/3: 0.50 hrs\n");
    assert_eq!(total, 90);
}

#[test]
fn zero_minute_day_emits_no_total() {
    let entries = vec![date(1, 3), date(1, 4), range(1, 0, 2, 0)];
    let (days, total) = process_entries(&entries);
    assert_eq!(days, "  1/3:   1/4: 1.00 hrs\n");
    assert_eq!(total, 60);
}

#[test]
fn zero_length_range_leaves_day_unreported() {
    let entries = vec![date(1, 3), range(3, 0, 3, 0)];
    let (days, total) = process_entries(&entries);
    assert_eq!(days, "  1/3: ");
    assert_eq!(total, 0);
}

#[test]
fn rollover_contributes_to_the_day() {
    let entries = vec![date(12, 15), range(12, 45, 1, 15)];
    let (days, total) = process_entries(&entries);
    assert_eq!(days, "12/15: 0.50 hrs\n");
    assert_eq!(total, 30);
}

#[test]
fn wide_label_is_not_truncated() {
    let entries = vec![date(12, 31), range(1, 0, 2, 0)];
    let (days, _) = process_entries(&entries);
    assert_eq!(days, "12/31: 1.00 hrs\n");
}
