use ntu_timetable_ics::course::{
    parse_exam, parse_period, parse_weekday, parse_weeks, ExamPart,
};
use ntu_timetable_ics::date::Weekday;

#[test]
fn parse_weekday_accepts_the_seven_names() {
    assert_eq!(parse_weekday("Mon").unwrap(), Weekday::Mon);
    assert_eq!(parse_weekday("Tue").unwrap(), Weekday::Tue);
    assert_eq!(parse_weekday("Wed").unwrap(), Weekday::Wed);
    assert_eq!(parse_weekday("Thu").unwrap(), Weekday::Thu);
    assert_eq!(parse_weekday("Fri").unwrap(), Weekday::Fri);
    assert_eq!(parse_weekday("Sat").unwrap(), Weekday::Sat);
    assert_eq!(parse_weekday("Sun").unwrap(), Weekday::Sun);
}

#[test]
fn parse_weekday_rejects_other_spellings() {
    assert!(parse_weekday("mon").is_err());
    assert!(parse_weekday("Monday").is_err());
    assert!(parse_weekday("MON").is_err());
    assert!(parse_weekday("").is_err());
    let e = parse_weekday("Mo").unwrap_err();
    assert_eq!(e.token, "Mo");
}

#[test]
fn parse_period_reads_start_and_end() {
    let p = parse_period("0900to1030").unwrap();
    assert_eq!(p.start.hour, 9);
    assert_eq!(p.start.minute, 0);
    assert_eq!(p.end.hour, 10);
    assert_eq!(p.end.minute, 30);
}

#[test]
fn parse_period_rejects_hour_out_of_range() {
    let e = parse_period("2500to1030").unwrap_err();
    assert_eq!(e.token, "2500to1030");
    assert!(parse_period("0900to1060").is_err());
    assert!(parse_period("2400to0100").is_err());
}

#[test]
fn parse_period_rejects_bad_shapes() {
    assert!(parse_period("0900-1030").is_err());
    assert!(parse_period("900to1030").is_err());
    assert!(parse_period("0900to103").is_err());
    assert!(parse_period("0900TO1030").is_err());
    assert!(parse_period("").is_err());
    assert!(parse_period("0900to1030 ").is_err());
}

#[test]
fn parse_period_boundary_times() {
    let p = parse_period("0000to2359").unwrap();
    assert_eq!(p.start.hour, 0);
    assert_eq!(p.start.minute, 0);
    assert_eq!(p.end.hour, 23);
    assert_eq!(p.end.minute, 59);
}

#[test]
fn parse_weeks_below_recess_unchanged() {
    let w = parse_weeks("Teaching Wk3-5,7", 8).unwrap();
    assert_eq!(w, vec![3, 4, 5, 7]);
}

#[test]
fn parse_weeks_shifts_at_and_above_recess() {
    let w = parse_weeks("Teaching Wk6,7,8,9,10", 8).unwrap();
    assert_eq!(w, vec![6, 7, 9, 10, 11]);
}

#[test]
fn parse_weeks_single_number() {
    assert_eq!(parse_weeks("Teaching Wk13", 8).unwrap(), vec![14]);
}

#[test]
fn parse_weeks_marker_may_follow_other_text() {
    assert_eq!(parse_weeks("Online Teaching Wk1-2", 8).unwrap(), vec![1, 2]);
}

#[test]
fn parse_weeks_requires_the_marker() {
    let e = parse_weeks("Wk3-5", 8).unwrap_err();
    assert_eq!(e.token, "Wk3-5");
    assert!(parse_weeks("", 8).is_err());
}

#[test]
fn parse_weeks_rejects_bad_entries() {
    assert!(parse_weeks("Teaching Wk3,x", 8).is_err());
    assert!(parse_weeks("Teaching Wk3,,5", 8).is_err());
    assert!(parse_weeks("Teaching Wk3-", 8).is_err());
    assert!(parse_weeks("Teaching Wk-3", 8).is_err());
    assert!(parse_weeks("Teaching Wk3-5-7", 8).is_err());
}

#[test]
fn parse_weeks_rejects_descending_ranges() {
    assert!(parse_weeks("Teaching Wk5-3", 8).is_err());
}

#[test]
fn parse_weeks_rejects_values_that_overflow() {
    assert!(parse_weeks("Teaching Wk4294967296", 8).is_err());
    // the largest u32 week shifted past the recess week no longer fits
    assert!(parse_weeks("Teaching Wk4294967295", 1).is_err());
    assert_eq!(
        parse_weeks("Teaching Wk4294967294", 1).unwrap(),
        vec![4294967295]
    );
}

#[test]
fn parse_exam_reads_date_and_period() {
    let ex = parse_exam("01-Dec-2023 0900to1100").unwrap();
    assert_eq!(ex.date.year, 2023);
    assert_eq!(ex.date.month, 12);
    assert_eq!(ex.date.day, 1);
    assert_eq!(ex.period.start.hour, 9);
    assert_eq!(ex.period.start.minute, 0);
    assert_eq!(ex.period.end.hour, 11);
    assert_eq!(ex.period.end.minute, 0);
}

#[test]
fn parse_exam_blames_the_pattern() {
    let e = parse_exam("1-Dec-2023 0900to1100").unwrap_err();
    assert_eq!(e.part, ExamPart::Pattern);
    assert_eq!(e.token, "1-Dec-2023 0900to1100");
    assert_eq!(parse_exam("01-DEC-2023 0900to1100").unwrap_err().part, ExamPart::Pattern);
    assert_eq!(parse_exam("").unwrap_err().part, ExamPart::Pattern);
}

#[test]
fn parse_exam_blames_the_month() {
    let e = parse_exam("01-Abc-2023 0900to1100").unwrap_err();
    assert_eq!(e.part, ExamPart::Month);
}

#[test]
fn parse_exam_blames_the_date() {
    let e = parse_exam("31-Feb-2023 0900to1100").unwrap_err();
    assert_eq!(e.part, ExamPart::Date);
    assert_eq!(parse_exam("00-Dec-2023 0900to1100").unwrap_err().part, ExamPart::Date);
}

#[test]
fn parse_exam_blames_the_time() {
    let e = parse_exam("01-Dec-2023 2500to1100").unwrap_err();
    assert_eq!(e.part, ExamPart::Time);
}

#[test]
fn parse_exam_knows_leap_years() {
    assert!(parse_exam("29-Feb-2024 0900to1100").is_ok());
    assert_eq!(parse_exam("29-Feb-2023 0900to1100").unwrap_err().part, ExamPart::Date);
}
