use timecard::model::Entry;
use timecard::parse::parse_user_input;

fn parse(s: &str) -> Result<Vec<Entry>, timecard::parse::ParseError> {
    parse_user_input(String::from(s))
}

#[test]
fn empty_input_yields_no_entries() {
    assert!(parse("").unwrap().is_empty());
}

#[test]
fn blank_lines_yield_no_entries() {
    assert!(parse("\n  \n\t\n").unwrap().is_empty());
}

#[test]
fn date_line_is_parsed() {
    let entries = parse("12/4").unwrap();
    assert_eq!(entries.len(), 1);
    match entries[0] {
        Entry::DateEntry(d) => {
            assert_eq!(d.month, 12);
            assert_eq!(d.day, 4);
        }
        _ => panic!("expected a date entry"),
    }
}

#[test]
fn time_range_line_is_parsed() {
    let entries = parse("1:23-1:27").unwrap();
    assert_eq!(entries.len(), 1);
    match entries[0] {
        Entry::TimeRangeEntry(tr) => {
            assert_eq!(tr.start.hours, 1);
            assert_eq!(tr.start.minutes, 23);
            assert_eq!(tr.end.hours, 1);
            assert_eq!(tr.end.minutes, 27);
        }
        _ => panic!("expected a time range entry"),
    }
}

#[test]
fn interior_whitespace_is_tolerated() {
    let entries = parse("  12 / 4  \n12:45 - 1:15\n1:23- 1:27").unwrap();
    assert_eq!(entries.len(), 3);
    assert!(matches!(entries[0], Entry::DateEntry(_)));
    assert!(matches!(entries[1], Entry::TimeRangeEntry(_)));
    assert!(matches!(entries[2], Entry::TimeRangeEntry(_)));
}

#[test]
fn carriage_returns_are_trimmed() {
    let entries = parse("1/3\r\n1:00-2:00\r\n").unwrap();
    assert_eq!(entries.len(), 2);
}

#[test]
fn invalid_date_is_fatal_with_line_number() {
    let e = parse("13/1\n1:00-2:00").unwrap_err();
    assert_eq!(e.line_no, 1);
    assert_eq!(e.line, "13/1");
    assert_eq!(e.msg, "invalid date \"13/1\"");
}

#[test]
fn invalid_time_end_is_reported() {
    let e = parse("1:00-13:00").unwrap_err();
    assert_eq!(e.line_no, 1);
    assert_eq!(e.line, "1:00-13:00");
    assert_eq!(e.msg, "invalid time \"13:0\"");
}

#[test]
fn invalid_time_minute_is_reported() {
    let e = parse("1:60-2:00").unwrap_err();
    assert_eq!(e.msg, "invalid time \"1:60\"");
}

#[test]
fn unrecognized_line_is_fatal() {
    let e = parse("1/3\nwhat is this").unwrap_err();
    assert_eq!(e.line_no, 2);
    assert_eq!(e.line, "what is this");
    assert_eq!(e.msg, "Doesn't look like date or time range");
}

#[test]
fn almost_a_date_is_unrecognized() {
    let e = parse("1/2/3").unwrap_err();
    assert_eq!(e.msg, "Doesn't look like date or time range");
    let e = parse("123/4").unwrap_err();
    assert_eq!(e.msg, "Doesn't look like date or time range");
    let e = parse("1:00").unwrap_err();
    assert_eq!(e.msg, "Doesn't look like date or time range");
}

#[test]
fn error_line_text_is_trimmed() {
    let e = parse("1/3\n   nonsense   ").unwrap_err();
    assert_eq!(e.line_no, 2);
    assert_eq!(e.line, "nonsense");
}

#[test]
fn entries_preserve_input_order() {
    let entries = parse("1/3\n\n1:23-1:27\n12/4\n3:45-4:45").unwrap();
    assert_eq!(entries.len(), 4);
    assert!(matches!(entries[0], Entry::DateEntry(_)));
    assert!(matches!(entries[1], Entry::TimeRangeEntry(_)));
    assert!(matches!(entries[2], Entry::DateEntry(_)));
    assert!(matches!(entries[3], Entry::TimeRangeEntry(_)));
}
