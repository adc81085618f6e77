use ntu_timetable_ics::cal::{
    generate_class_events, generate_events, generate_exam_event, to_rfc5545_datetime_with_utc,
};
use ntu_timetable_ics::course::{Class, Course, Exam, Period};
use ntu_timetable_ics::date::{Date, TimeOfDay, UtcDateTime, Weekday};

fn period(sh: u32, sm: u32, eh: u32, em: u32) -> Period {
    Period {
        start: TimeOfDay { hour: sh, minute: sm },
        end: TimeOfDay { hour: eh, minute: em },
    }
}

fn class(weekday: Weekday, weeks: Vec<u32>, p: Period, venue: &str, class_type: &str) -> Class {
    Class {
        weekday,
        period: p,
        venue: venue.to_string(),
        group: "G1".to_string(),
        weeks,
        class_type: class_type.to_string(),
    }
}

fn course(code: &str, title: &str, classes: Vec<Class>, exam: Option<Exam>) -> Course {
    Course {
        code: code.to_string(),
        title: title.to_string(),
        au: "3.0".to_string(),
        course_type: "Core".to_string(),
        index: "10001".to_string(),
        status: "Registered".to_string(),
        classes,
        exam,
    }
}

#[test]
fn monday_weeks_one_and_three_are_fourteen_days_apart() {
    // 2023-08-14 was a Monday
    let sem = Date { year: 2023, month: 8, day: 14 };
    let c = course(
        "CZ1003",
        "Intro",
        vec![class(Weekday::Mon, vec![1, 3], period(9, 0, 10, 30), "LT1", "LEC")],
        None,
    );
    let events = generate_events(&vec![c], sem, 0).unwrap();
    assert_eq!(events.len(), 2);
    // wall-clock time at offset 0 equals the period start
    assert_eq!(events[0].start.date, Date { year: 2023, month: 8, day: 14 });
    assert_eq!(events[0].start.hour, 9);
    assert_eq!(events[0].start.minute, 0);
    assert_eq!(events[0].end.hour, 10);
    assert_eq!(events[0].end.minute, 30);
    // week 3 is exactly fourteen days later
    assert_eq!(events[1].start.date, Date { year: 2023, month: 8, day: 28 });
    assert_eq!(events[1].start.hour, 9);
    let d0 = chrono::NaiveDate::from_ymd_opt(2023, 8, 14).unwrap();
    let d1 = chrono::NaiveDate::from_ymd_opt(
        events[1].start.date.year,
        events[1].start.date.month,
        events[1].start.date.day,
    )
    .unwrap();
    assert_eq!((d1 - d0).num_days(), 14);
}

#[test]
fn first_occurrence_is_resolved_within_the_iso_week() {
    // 2023-08-16 was a Wednesday; the Monday of that ISO week is 2023-08-14
    let sem = Date { year: 2023, month: 8, day: 16 };
    let c = course(
        "CZ1003",
        "Intro",
        vec![class(Weekday::Mon, vec![1], period(9, 0, 10, 0), "LT1", "LEC")],
        None,
    );
    let events = generate_events(&vec![c], sem, 0).unwrap();
    assert_eq!(events[0].start.date, Date { year: 2023, month: 8, day: 14 });
}

#[test]
fn event_count_and_order_follow_the_course_list() {
    let sem = Date { year: 2023, month: 8, day: 14 };
    let exam = Exam {
        date: Date { year: 2023, month: 12, day: 1 },
        period: period(9, 0, 11, 0),
    };
    let c1 = course(
        "CZ1003",
        "Intro",
        vec![
            class(Weekday::Mon, vec![1, 2], period(9, 0, 10, 0), "LT1", "LEC"),
            class(Weekday::Wed, vec![3], period(11, 0, 12, 0), "TR5", "TUT"),
        ],
        Some(exam),
    );
    let c2 = course(
        "CZ2001",
        "Algo",
        vec![class(Weekday::Fri, vec![1], period(14, 30, 16, 30), "LT2", "LEC")],
        None,
    );
    // N = 4 class-week pairs, E = 1 exam-bearing course
    let events = generate_events(&vec![c1, c2], sem, 0).unwrap();
    assert_eq!(events.len(), 5);
    assert_eq!(events[0].summary, "CZ1003 - Intro LEC");
    assert_eq!(events[0].category, "LEC");
    assert_eq!(events[0].location.as_deref(), Some("LT1"));
    assert_eq!(events[1].summary, "CZ1003 - Intro LEC");
    assert_eq!(events[2].summary, "CZ1003 - Intro TUT");
    assert_eq!(events[3].summary, "CZ1003 - Intro Exam");
    assert_eq!(events[3].category, "Exam");
    assert!(events[3].location.is_none());
    assert_eq!(events[3].start.date, Date { year: 2023, month: 12, day: 1 });
    assert_eq!(events[4].summary, "CZ2001 - Algo LEC");
    // class events of one class come week-ascending
    assert_eq!(events[0].start.date, Date { year: 2023, month: 8, day: 14 });
    assert_eq!(events[1].start.date, Date { year: 2023, month: 8, day: 21 });
}

#[test]
fn creation_stamps_are_valid_instants() {
    let sem = Date { year: 2023, month: 8, day: 14 };
    let c = course(
        "CZ1003",
        "Intro",
        vec![class(Weekday::Mon, vec![1], period(9, 0, 10, 0), "LT1", "LEC")],
        None,
    );
    let events = generate_events(&vec![c], sem, 0).unwrap();
    let created = &events[0].created;
    assert!(created.date.year >= 2020 && created.date.year <= 9999);
    assert!(created.date.month >= 1 && created.date.month <= 12);
    assert!(created.date.day >= 1 && created.date.day <= 31);
    assert!(created.hour < 24 && created.minute < 60 && created.second < 60);
}

#[test]
fn identifiers_are_scoped_by_the_course_code() {
    let sem = Date { year: 2023, month: 8, day: 14 };
    let c = course(
        "CZ1003",
        "Intro",
        vec![class(Weekday::Mon, vec![1, 2], period(9, 0, 10, 0), "LT1", "LEC")],
        None,
    );
    let events = generate_events(&vec![c], sem, 0).unwrap();
    assert!(events[0].uid.starts_with("CZ1003-"));
    assert!(events[1].uid.starts_with("CZ1003-"));
    assert_ne!(events[0].uid, events[1].uid);
}

#[test]
fn positive_offset_moves_the_instant_back() {
    let sem = Date { year: 2023, month: 8, day: 14 };
    let c = course(
        "CZ1003",
        "Intro",
        vec![class(Weekday::Mon, vec![1], period(9, 0, 10, 0), "LT1", "LEC")],
        None,
    );
    // +08:00 local: 09:00 local is 01:00 UTC
    let events = generate_events(&vec![c], sem, 480).unwrap();
    assert_eq!(events[0].start.date, Date { year: 2023, month: 8, day: 14 });
    assert_eq!(events[0].start.hour, 1);
    assert_eq!(events[0].start.minute, 0);
}

#[test]
fn offset_can_carry_the_date_across_midnight() {
    let sem = Date { year: 2023, month: 8, day: 14 };
    let c = course(
        "CZ1003",
        "Intro",
        vec![class(Weekday::Mon, vec![1], period(0, 30, 1, 30), "LT1", "LEC")],
        None,
    );
    // 00:30 local at +01:00 is 23:30 UTC the previous day
    let events = generate_events(&vec![c], sem, 60).unwrap();
    assert_eq!(events[0].start.date, Date { year: 2023, month: 8, day: 13 });
    assert_eq!(events[0].start.hour, 23);
    assert_eq!(events[0].start.minute, 30);
    // and a negative offset can push it forward
    let c2 = course(
        "CZ1003",
        "Intro",
        vec![class(Weekday::Mon, vec![1], period(23, 30, 23, 45), "LT1", "LEC")],
        None,
    );
    let events2 = generate_events(&vec![c2], sem, -60).unwrap();
    assert_eq!(events2[0].start.date, Date { year: 2023, month: 8, day: 15 });
    assert_eq!(events2[0].start.hour, 0);
    assert_eq!(events2[0].start.minute, 30);
}

#[test]
fn occurrences_can_cross_a_year_boundary() {
    // 2023-12-25 was a Monday; week 2 falls on 2024-01-01
    let sem = Date { year: 2023, month: 12, day: 25 };
    let c = course(
        "CZ1003",
        "Intro",
        vec![class(Weekday::Mon, vec![1, 2], period(9, 0, 10, 0), "LT1", "LEC")],
        None,
    );
    let events = generate_events(&vec![c], sem, 0).unwrap();
    assert_eq!(events[0].start.date, Date { year: 2023, month: 12, day: 25 });
    assert_eq!(events[1].start.date, Date { year: 2024, month: 1, day: 1 });
}

#[test]
fn week_zero_cannot_be_dated() {
    let sem = Date { year: 2023, month: 8, day: 14 };
    let cl = class(Weekday::Mon, vec![0], period(9, 0, 10, 0), "LT1", "LEC");
    let err = generate_class_events(
        &"CZ1003".to_string(),
        &"Intro".to_string(),
        &cl,
        sem,
        0,
    )
    .unwrap_err();
    assert_eq!(err.year, 2023);
    assert_eq!(err.week, 33);
    assert_eq!(err.weekday, Weekday::Mon);
}

#[test]
fn exam_event_carries_the_exam_summary() {
    let exam = Exam {
        date: Date { year: 2023, month: 12, day: 1 },
        period: period(9, 0, 11, 0),
    };
    let ev = generate_exam_event(&"CZ1003".to_string(), &"Intro".to_string(), &exam, 480);
    assert_eq!(ev.summary, "CZ1003 - Intro Exam");
    assert_eq!(ev.category, "Exam");
    assert!(ev.location.is_none());
    assert_eq!(ev.start.date, Date { year: 2023, month: 12, day: 1 });
    assert_eq!(ev.start.hour, 1);
    assert_eq!(ev.end.hour, 3);
}

#[test]
fn timestamps_take_the_basic_utc_form() {
    let u = UtcDateTime {
        date: Date { year: 2023, month: 12, day: 1 },
        hour: 9,
        minute: 0,
        second: 0,
    };
    assert_eq!(to_rfc5545_datetime_with_utc(&u), "20231201T090000Z");
    let u2 = UtcDateTime {
        date: Date { year: 987, month: 1, day: 31 },
        hour: 23,
        minute: 59,
        second: 5,
    };
    assert_eq!(to_rfc5545_datetime_with_utc(&u2), "09870131T235905Z");
}

#[test]
fn parse_then_expand_round_trip() {
    let cells: Vec<String> = {
        let mut v = vec![String::new(); 16];
        v[0] = "CZ1003".to_string();
        v[1] = "Intro".to_string();
        v[2] = "3.0".to_string();
        v[3] = "Core".to_string();
        v[6] = "10001".to_string();
        v[7] = "Registered".to_string();
        v[9] = "LEC".to_string();
        v[10] = "G1".to_string();
        v[11] = "Mon".to_string();
        v[12] = "0900to1030".to_string();
        v[13] = "LT1".to_string();
        v[14] = "Teaching Wk1,3".to_string();
        v[15] = "01-Dec-2023 0900to1100".to_string();
        v
    };
    let courses = Course::parse_from_table(cells.join("\t"), 8).unwrap();
    let sem = Date { year: 2023, month: 8, day: 14 };
    let events = generate_events(&courses, sem, 480).unwrap();
    // two class-week pairs plus one exam
    assert_eq!(events.len(), 3);
    assert_eq!(events[2].summary, "CZ1003 - Intro Exam");
}
