use ntu_timetable_ics::course::{Course, ParseTableError};
use ntu_timetable_ics::date::Weekday;

/// One 16-column record from the named cells, everything else empty.
fn record(
    code: &str,
    title: &str,
    class_type: &str,
    group: &str,
    weekday: &str,
    period: &str,
    venue: &str,
    weeks: &str,
    exam: &str,
) -> Vec<String> {
    let mut cells = vec![String::new(); 16];
    cells[0] = code.to_string();
    cells[1] = title.to_string();
    if !code.is_empty() {
        cells[2] = "3.0".to_string();
        cells[3] = "Core".to_string();
        cells[6] = "10001".to_string();
        cells[7] = "Registered".to_string();
    }
    cells[9] = class_type.to_string();
    cells[10] = group.to_string();
    cells[11] = weekday.to_string();
    cells[12] = period.to_string();
    cells[13] = venue.to_string();
    cells[14] = weeks.to_string();
    cells[15] = exam.to_string();
    cells
}

fn table_of(records: Vec<Vec<String>>) -> String {
    records
        .into_iter()
        .flatten()
        .collect::<Vec<String>>()
        .join("\t")
}

#[test]
fn two_courses_with_classes_in_row_order() {
    let text = table_of(vec![
        record("CZ1003", "Intro", "LEC", "G1", "Mon", "0900to1030", "LT1", "Teaching Wk1-3", ""),
        record("", "", "TUT", "G1", "Wed", "1030to1130", "TR5", "Teaching Wk2,4", ""),
        record("CZ2001", "Algo", "LEC", "G2", "Fri", "1430to1630", "LT2", "Teaching Wk1", ""),
    ]);
    let courses = Course::parse_from_table(text, 8).unwrap();
    assert_eq!(courses.len(), 2);
    assert_eq!(courses[0].code, "CZ1003");
    assert_eq!(courses[0].title, "Intro");
    assert_eq!(courses[0].au, "3.0");
    assert_eq!(courses[0].course_type, "Core");
    assert_eq!(courses[0].index, "10001");
    assert_eq!(courses[0].status, "Registered");
    assert_eq!(courses[0].classes.len(), 2);
    assert_eq!(courses[0].classes[0].weekday, Weekday::Mon);
    assert_eq!(courses[0].classes[0].weeks, vec![1, 2, 3]);
    assert_eq!(courses[0].classes[0].venue, "LT1");
    assert_eq!(courses[0].classes[0].group, "G1");
    assert_eq!(courses[0].classes[0].class_type, "LEC");
    assert_eq!(courses[0].classes[1].weekday, Weekday::Wed);
    assert_eq!(courses[0].classes[1].weeks, vec![2, 4]);
    assert!(courses[0].exam.is_none());
    assert_eq!(courses[1].code, "CZ2001");
    assert_eq!(courses[1].classes.len(), 1);
    assert_eq!(courses[1].classes[0].weekday, Weekday::Fri);
}

#[test]
fn trailing_chunk_of_fifteen_tokens_fails() {
    let mut cells = record(
        "CZ1003", "Intro", "LEC", "G1", "Mon", "0900to1030", "LT1", "Teaching Wk1", "",
    );
    cells.extend(vec![String::new(); 15]);
    let text = cells.join("\t");
    match Course::parse_from_table(text, 8).unwrap_err() {
        ParseTableError::MissingValues { chunk_index, found } => {
            assert_eq!(chunk_index, 1);
            assert_eq!(found, 15);
        }
        other => panic!("expected MissingValues, got {:?}", other),
    }
}

#[test]
fn fifteen_tokens_alone_fail_at_chunk_zero() {
    let text = vec![""; 15].join("\t");
    match Course::parse_from_table(text, 8).unwrap_err() {
        ParseTableError::MissingValues { chunk_index, found } => {
            assert_eq!(chunk_index, 0);
            assert_eq!(found, 15);
        }
        other => panic!("expected MissingValues, got {:?}", other),
    }
}

#[test]
fn empty_input_is_one_short_token() {
    match Course::parse_from_table(String::new(), 8).unwrap_err() {
        ParseTableError::MissingValues { chunk_index, found } => {
            assert_eq!(chunk_index, 0);
            assert_eq!(found, 1);
        }
        other => panic!("expected MissingValues, got {:?}", other),
    }
}

#[test]
fn class_before_any_header_fails() {
    let text = table_of(vec![record(
        "", "", "LEC", "G1", "Mon", "0900to1030", "LT1", "Teaching Wk1", "",
    )]);
    match Course::parse_from_table(text, 8).unwrap_err() {
        ParseTableError::UnknownCourse { class } => {
            assert_eq!(class.weekday, Weekday::Mon);
            assert_eq!(class.class_type, "LEC");
            assert_eq!(class.venue, "LT1");
            assert_eq!(class.weeks, vec![1]);
        }
        other => panic!("expected UnknownCourse, got {:?}", other),
    }
}

#[test]
fn exam_attaches_to_the_current_course() {
    let text = table_of(vec![
        record("CZ1003", "Intro", "LEC", "G1", "Mon", "0900to1030", "LT1", "Teaching Wk1", ""),
        record("", "", "", "", "", "", "", "", "01-Dec-2023 0900to1100"),
    ]);
    let courses = Course::parse_from_table(text, 8).unwrap();
    assert_eq!(courses.len(), 1);
    let exam = courses[0].exam.unwrap();
    assert_eq!(exam.date.year, 2023);
    assert_eq!(exam.date.month, 12);
    assert_eq!(exam.date.day, 1);
    assert_eq!(exam.period.start.hour, 9);
    assert_eq!(exam.period.end.hour, 11);
}

#[test]
fn not_applicable_exam_is_ignored() {
    let text = table_of(vec![record(
        "CZ1003", "Intro", "LEC", "G1", "Mon", "0900to1030", "LT1", "Teaching Wk1",
        "Not Applicable",
    )]);
    let courses = Course::parse_from_table(text, 8).unwrap();
    assert!(courses[0].exam.is_none());
}

#[test]
fn malformed_exam_fails_the_parse() {
    let text = table_of(vec![record(
        "CZ1003", "Intro", "", "", "", "", "", "", "01-Dec-2023",
    )]);
    match Course::parse_from_table(text, 8).unwrap_err() {
        ParseTableError::Exam(e) => assert_eq!(e.token, "01-Dec-2023"),
        other => panic!("expected Exam error, got {:?}", other),
    }
}

#[test]
fn exam_on_a_headerless_record_before_any_course_is_skipped() {
    // no current course: the exam cell is not even parsed
    let text = table_of(vec![record("", "", "", "", "", "", "", "", "garbage")]);
    let courses = Course::parse_from_table(text, 8).unwrap();
    assert!(courses.is_empty());
}

#[test]
fn bad_period_is_reported_as_a_period_error() {
    let text = table_of(vec![record(
        "CZ1003", "Intro", "LEC", "G1", "Mon", "0900-1030", "LT1", "Teaching Wk1", "",
    )]);
    match Course::parse_from_table(text, 8).unwrap_err() {
        ParseTableError::Period(e) => assert_eq!(e.token, "0900-1030"),
        other => panic!("expected Period error, got {:?}", other),
    }
}

#[test]
fn bad_weekday_is_reported_first() {
    let text = table_of(vec![record(
        "CZ1003", "Intro", "LEC", "G1", "Monday", "0900-1030", "LT1", "nope", "",
    )]);
    match Course::parse_from_table(text, 8).unwrap_err() {
        ParseTableError::Weekday(e) => assert_eq!(e.token, "Monday"),
        other => panic!("expected Weekday error, got {:?}", other),
    }
}

#[test]
fn bad_week_list_is_reported_as_a_weeks_error() {
    let text = table_of(vec![record(
        "CZ1003", "Intro", "LEC", "G1", "Mon", "0900to1030", "LT1", "Wk1-3", "",
    )]);
    match Course::parse_from_table(text, 8).unwrap_err() {
        ParseTableError::Weeks(e) => assert_eq!(e.token, "Wk1-3"),
        other => panic!("expected Weeks error, got {:?}", other),
    }
}

#[test]
fn newlines_inside_cells_are_joined() {
    let mut rec = record(
        "CZ1003", "Intro", "LEC", "G1", "Mon", "0900to1030", "LT1", "Teaching Wk1", "",
    );
    rec[1] = "Intro to\nComputing".to_string();
    let text = table_of(vec![rec]);
    let courses = Course::parse_from_table(text, 8).unwrap();
    assert_eq!(courses[0].title, "Intro toComputing");
}

#[test]
fn cells_are_trimmed() {
    let mut rec = record(
        "CZ1003", "Intro", "LEC", "G1", "Mon", "0900to1030", "LT1", "Teaching Wk1", "",
    );
    rec[0] = "  CZ1003 ".to_string();
    rec[11] = " Mon\r".to_string();
    let text = table_of(vec![rec]);
    let courses = Course::parse_from_table(text, 8).unwrap();
    assert_eq!(courses[0].code, "CZ1003");
    assert_eq!(courses[0].classes[0].weekday, Weekday::Mon);
}

#[test]
fn header_only_record_has_no_class() {
    let text = table_of(vec![record(
        "CZ1003", "Intro", "", "", "", "", "", "", "",
    )]);
    let courses = Course::parse_from_table(text, 8).unwrap();
    assert_eq!(courses.len(), 1);
    assert!(courses[0].classes.is_empty());
}

#[test]
fn course_new_requires_all_header_fields() {
    assert!(Course::new(
        "C".into(),
        "T".into(),
        "3".into(),
        "Core".into(),
        "1".into(),
        "Reg".into()
    )
    .is_ok());
    assert!(Course::new(
        "".into(),
        "T".into(),
        "3".into(),
        "Core".into(),
        "1".into(),
        "Reg".into()
    )
    .is_err());
}
