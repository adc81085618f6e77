//! The course model and the table parser: courses with their classes and
//! exams, the field parsers for the micro-grammars of single table cells
//! (weekday, period, week list, exam string), and the parser that folds the
//! tab-delimited table into a course list.

use vstd::prelude::*;

use crate::date::{valid_md, Date, TimeOfDay, Weekday};
use crate::text::{
    all_digits, digit_val, digits_val, find_ch, is_digit, lemma_digits_val_prefix, lemma_find_ch,
    split_on, trim,
};

verus! {

/// Number of columns in one logical record of the exported table.
pub const NUM_COLUMNS: usize = 16;

/// A start/end pair of times of day.
#[derive(Clone, Copy, Debug, PartialEq, Eq, Structural)]
pub struct Period {
    pub start: TimeOfDay,
    pub end: TimeOfDay,
}

/// One exam sitting: an absolute date and its period.
#[derive(Clone, Copy, Debug, PartialEq, Eq, Structural)]
pub struct Exam {
    pub date: Date,
    pub period: Period,
}

/// One weekly-recurring class of a course.
#[derive(Debug)]
pub struct Class {
    pub weekday: Weekday,
    pub period: Period,
    pub venue: String,
    pub group: String,
    pub weeks: Vec<u32>,
    pub class_type: String,
}

/// A course: its header fields, its classes in table order, and an optional
/// exam.
#[derive(Debug)]
pub struct Course {
    pub code: String,
    pub title: String,
    pub au: String,
    pub course_type: String,
    pub index: String,
    pub status: String,
    pub classes: Vec<Class>,
    pub exam: Option<Exam>,
}

#[verifier::ext_equal]
pub struct ClassView {
    pub weekday: Weekday,
    pub period: Period,
    pub venue: Seq<char>,
    pub group: Seq<char>,
    pub weeks: Seq<u32>,
    pub class_type: Seq<char>,
}

#[verifier::ext_equal]
pub struct CourseView {
    pub code: Seq<char>,
    pub title: Seq<char>,
    pub au: Seq<char>,
    pub course_type: Seq<char>,
    pub index: Seq<char>,
    pub status: Seq<char>,
    pub classes: Seq<ClassView>,
    pub exam: Option<Exam>,
}

impl View for Class {
    type V = ClassView;

    open spec fn view(&self) -> ClassView {
        ClassView {
            weekday: self.weekday,
            period: self.period,
            venue: self.venue@,
            group: self.group@,
            weeks: self.weeks@,
            class_type: self.class_type@,
        }
    }
}

impl View for Course {
    type V = CourseView;

    open spec fn view(&self) -> CourseView {
        CourseView {
            code: self.code@,
            title: self.title@,
            au: self.au@,
            course_type: self.course_type@,
            index: self.index@,
            status: self.status@,
            classes: self.classes@.map_values(|c: Class| c@),
            exam: self.exam,
        }
    }
}

// ---------------------------------------------------------------------------
// errors
// ---------------------------------------------------------------------------

/// A weekday cell that is not one of the seven three-letter names.
#[derive(Debug)]
pub struct ParseWeekdayError {
    pub token: String,
}

/// A period cell that does not resolve to two valid times of day.
#[derive(Debug)]
pub struct ParsePeriodError {
    pub token: String,
}

/// A week-list cell without the teaching-week marker or with a malformed
/// entry.
#[derive(Debug)]
pub struct ParseWeeksError {
    pub token: String,
}

/// The sub-component of an exam cell that failed.
#[derive(Clone, Copy, Debug, PartialEq, Eq, Structural)]
pub enum ExamPart {
    /// The cell does not have the `DD-Mon-YYYY HHMMtoHHMM` shape.
    Pattern,
    /// The three letters in month position name no month.
    Month,
    /// Day, month and year do not combine into a calendar date.
    Date,
    /// A time of day is out of range.
    Time,
}

/// An exam cell that does not resolve to a dated period.
#[derive(Debug)]
pub struct ParseExamError {
    pub token: String,
    pub part: ExamPart,
}

/// A course header with an empty required field.
#[derive(Debug)]
pub struct ParseCourseError;

/// Why parsing the whole table was aborted.
#[derive(Debug)]
pub enum ParseTableError {
    /// The final chunk has fewer than `NUM_COLUMNS` tokens; carries the chunk
    /// index and the width found.
    MissingValues { chunk_index: usize, found: usize },
    /// A class row appeared before any course header; carries the parsed
    /// class.
    UnknownCourse { class: Class },
    Weekday(ParseWeekdayError),
    Period(ParsePeriodError),
    Weeks(ParseWeeksError),
    Exam(ParseExamError),
}

#[verifier::ext_equal]
pub enum TableErrView {
    MissingValues { chunk_index: int, found: int },
    UnknownCourse { class: ClassView },
    Weekday(Seq<char>),
    Period(Seq<char>),
    Weeks(Seq<char>),
    Exam(Seq<char>, ExamPart),
}

impl View for ParseTableError {
    type V = TableErrView;

    open spec fn view(&self) -> TableErrView {
        match self {
            ParseTableError::MissingValues { chunk_index, found } => TableErrView::MissingValues {
                chunk_index: *chunk_index as int,
                found: *found as int,
            },
            ParseTableError::UnknownCourse { class } => TableErrView::UnknownCourse {
                class: class@,
            },
            ParseTableError::Weekday(e) => TableErrView::Weekday(e.token@),
            ParseTableError::Period(e) => TableErrView::Period(e.token@),
            ParseTableError::Weeks(e) => TableErrView::Weeks(e.token@),
            ParseTableError::Exam(e) => TableErrView::Exam(e.token@, e.part),
        }
    }
}

// ---------------------------------------------------------------------------
// weekday cells
// ---------------------------------------------------------------------------

/// The weekday named by a cell: exactly the seven three-letter names.
pub open spec fn weekday_of(s: Seq<char>) -> Option<Weekday> {
    if s == seq!['M', 'o', 'n'] {
        Some(Weekday::Mon)
    } else if s == seq!['T', 'u', 'e'] {
        Some(Weekday::Tue)
    } else if s == seq!['W', 'e', 'd'] {
        Some(Weekday::Wed)
    } else if s == seq!['T', 'h', 'u'] {
        Some(Weekday::Thu)
    } else if s == seq!['F', 'r', 'i'] {
        Some(Weekday::Fri)
    } else if s == seq!['S', 'a', 't'] {
        Some(Weekday::Sat)
    } else if s == seq!['S', 'u', 'n'] {
        Some(Weekday::Sun)
    } else {
        None
    }
}

/// Parse a weekday cell. Accepts exactly `Mon` through `Sun`, case-sensitive.
pub fn parse_weekday(token: &str) -> (r: Result<Weekday, ParseWeekdayError>)
    ensures
        match r {
            Ok(wd) => weekday_of(token@) == Some(wd),
            Err(e) => weekday_of(token@) is None && e.token@ == token@,
        },
{
    let n: usize = token.unicode_len();
    if n != 3 {
        proof {
            assert(forall|wd: Weekday| weekday_of(token@) != Some(wd)) by {
                assert(token@.len() != 3);
            }
        }
        return Err(ParseWeekdayError { token: token.to_owned() });
    }
    let c0 = token.get_char(0);
    let c1 = token.get_char(1);
    let c2 = token.get_char(2);
    proof {
        assert(token@ =~= seq![c0, c1, c2]);
    }
    if c0 == 'M' && c1 == 'o' && c2 == 'n' {
        Ok(Weekday::Mon)
    } else if c0 == 'T' && c1 == 'u' && c2 == 'e' {
        Ok(Weekday::Tue)
    } else if c0 == 'W' && c1 == 'e' && c2 == 'd' {
        Ok(Weekday::Wed)
    } else if c0 == 'T' && c1 == 'h' && c2 == 'u' {
        Ok(Weekday::Thu)
    } else if c0 == 'F' && c1 == 'r' && c2 == 'i' {
        Ok(Weekday::Fri)
    } else if c0 == 'S' && c1 == 'a' && c2 == 't' {
        Ok(Weekday::Sat)
    } else if c0 == 'S' && c1 == 'u' && c2 == 'n' {
        Ok(Weekday::Sun)
    } else {
        Err(ParseWeekdayError { token: token.to_owned() })
    }
}

// ---------------------------------------------------------------------------
// period cells
// ---------------------------------------------------------------------------

/// The `HHMMtoHHMM` shape: four digits, the letters `to`, four digits.
pub open spec fn period_shape_ok(s: Seq<char>) -> bool {
    s.len() == 10 && is_digit(s[0]) && is_digit(s[1]) && is_digit(s[2]) && is_digit(s[3]) && s[4]
        == 't' && s[5] == 'o' && is_digit(s[6]) && is_digit(s[7]) && is_digit(s[8]) && is_digit(
        s[9],
    )
}

pub open spec fn time_at(s: Seq<char>, i: int) -> TimeOfDay {
    TimeOfDay {
        hour: (10 * digit_val(s[i]) + digit_val(s[i + 1])) as u32,
        minute: (10 * digit_val(s[i + 2]) + digit_val(s[i + 3])) as u32,
    }
}

/// Both times of a well-shaped period cell are valid times of day.
pub open spec fn period_range_ok(s: Seq<char>) -> bool {
    time_at(s, 0).hour <= 23 && time_at(s, 0).minute <= 59 && time_at(s, 6).hour <= 23 && time_at(
        s,
        6,
    ).minute <= 59
}

pub open spec fn period_token_ok(s: Seq<char>) -> bool {
    period_shape_ok(s) && period_range_ok(s)
}

pub open spec fn period_of(s: Seq<char>) -> Period {
    Period { start: time_at(s, 0), end: time_at(s, 6) }
}

/// Read two decimal digits at position `i` as a number.
fn two_digits_at(s: &str, i: usize) -> (r: u32)
    requires
        i + 2 <= s@.len(),
        i <= usize::MAX - 2,
        is_digit(s@[i as int]),
        is_digit(s@[i as int + 1]),
    ensures
        r == 10 * digit_val(s@[i as int]) + digit_val(s@[i as int + 1]),
        r <= 99,
{
    let hi: u32 = s.get_char(i) as u32 - 48;
    let lo: u32 = s.get_char(i + 1) as u32 - 48;
    10 * hi + lo
}

/// Parse a period cell of the shape `HHMMtoHHMM` into its two times of day.
pub fn parse_period(token: &str) -> (r: Result<Period, ParsePeriodError>)
    ensures
        match r {
            Ok(p) => period_token_ok(token@) && p == period_of(token@),
            Err(e) => !period_token_ok(token@) && e.token@ == token@,
        },
{
    let n: usize = token.unicode_len();
    if n != 10 {
        return Err(ParsePeriodError { token: token.to_owned() });
    }
    let mut shape: bool = token.get_char(4) == 't' && token.get_char(5) == 'o';
    let mut j: usize = 0;
    while j < 10
        invariant
            token@.len() == 10,
            j <= 10,
            shape == (token@[4] == 't' && token@[5] == 'o' && forall|i: int|
                0 <= i < j && i != 4 && i != 5 ==> is_digit(#[trigger] token@[i])),
        decreases 10 - j,
    {
        if j != 4 && j != 5 {
            let c = token.get_char(j);
            shape = shape && crate::text::char_is_digit(c);
        }
        j += 1;
    }
    if !shape {
        proof {
            assert(!period_shape_ok(token@));
        }
        return Err(ParsePeriodError { token: token.to_owned() });
    }
    proof {
        assert(period_shape_ok(token@));
    }
    let sh = two_digits_at(token, 0);
    let sm = two_digits_at(token, 2);
    let eh = two_digits_at(token, 6);
    let em = two_digits_at(token, 8);
    if sh > 23 || sm > 59 || eh > 23 || em > 59 {
        return Err(ParsePeriodError { token: token.to_owned() });
    }
    Ok(
        Period {
            start: TimeOfDay { hour: sh, minute: sm },
            end: TimeOfDay { hour: eh, minute: em },
        },
    )
}

// ---------------------------------------------------------------------------
// exam cells
// ---------------------------------------------------------------------------

pub open spec fn is_upper(c: char) -> bool {
    65 <= c as u32 && c as u32 <= 90
}

pub open spec fn is_lower(c: char) -> bool {
    97 <= c as u32 && c as u32 <= 122
}

/// The month named by a three-letter title-case abbreviation, or 0.
pub open spec fn month_num(s: Seq<char>) -> int {
    if s == seq!['J', 'a', 'n'] {
        1
    } else if s == seq!['F', 'e', 'b'] {
        2
    } else if s == seq!['M', 'a', 'r'] {
        3
    } else if s == seq!['A', 'p', 'r'] {
        4
    } else if s == seq!['M', 'a', 'y'] {
        5
    } else if s == seq!['J', 'u', 'n'] {
        6
    } else if s == seq!['J', 'u', 'l'] {
        7
    } else if s == seq!['A', 'u', 'g'] {
        8
    } else if s == seq!['S', 'e', 'p'] {
        9
    } else if s == seq!['O', 'c', 't'] {
        10
    } else if s == seq!['N', 'o', 'v'] {
        11
    } else if s == seq!['D', 'e', 'c'] {
        12
    } else {
        0
    }
}

/// The `DD-Mon-YYYY HHMMtoHHMM` shape, title-case month letters included.
pub open spec fn exam_shape_ok(s: Seq<char>) -> bool {
    s.len() == 22 && is_digit(s[0]) && is_digit(s[1]) && s[2] == '-' && is_upper(s[3]) && is_lower(
        s[4],
    ) && is_lower(s[5]) && s[6] == '-' && is_digit(s[7]) && is_digit(s[8]) && is_digit(s[9])
        && is_digit(s[10]) && s[11] == ' ' && period_shape_ok(s.subrange(12, 22))
}

pub open spec fn exam_year(s: Seq<char>) -> int {
    digits_val(s.subrange(7, 11))
}

pub open spec fn exam_day(s: Seq<char>) -> int {
    digits_val(s.subrange(0, 2))
}

pub open spec fn exam_month(s: Seq<char>) -> int {
    month_num(s.subrange(3, 6))
}

pub open spec fn exam_token_ok(s: Seq<char>) -> bool {
    exam_shape_ok(s) && exam_month(s) != 0 && valid_md(exam_year(s), exam_month(s), exam_day(s))
        && period_range_ok(s.subrange(12, 22))
}

/// The sub-component blamed when an exam cell fails: the first of pattern,
/// month name, calendar date and time range that does not hold.
pub open spec fn exam_err_part(s: Seq<char>) -> ExamPart {
    if !exam_shape_ok(s) {
        ExamPart::Pattern
    } else if exam_month(s) == 0 {
        ExamPart::Month
    } else if !valid_md(exam_year(s), exam_month(s), exam_day(s)) {
        ExamPart::Date
    } else {
        ExamPart::Time
    }
}

pub open spec fn exam_of(s: Seq<char>) -> Exam {
    Exam {
        date: Date {
            year: exam_year(s) as i32,
            month: exam_month(s) as u32,
            day: exam_day(s) as u32,
        },
        period: period_of(s.subrange(12, 22)),
    }
}

/// Month lookup on three characters already known to be letters.
fn month_lookup(c0: char, c1: char, c2: char) -> (r: u32)
    ensures
        r == month_num(seq![c0, c1, c2]),
        r <= 12,
{
    proof {
        assert(seq![c0, c1, c2].len() == 3);
    }
    if c0 == 'J' && c1 == 'a' && c2 == 'n' {
        1
    } else if c0 == 'F' && c1 == 'e' && c2 == 'b' {
        2
    } else if c0 == 'M' && c1 == 'a' && c2 == 'r' {
        3
    } else if c0 == 'A' && c1 == 'p' && c2 == 'r' {
        4
    } else if c0 == 'M' && c1 == 'a' && c2 == 'y' {
        5
    } else if c0 == 'J' && c1 == 'u' && c2 == 'n' {
        6
    } else if c0 == 'J' && c1 == 'u' && c2 == 'l' {
        7
    } else if c0 == 'A' && c1 == 'u' && c2 == 'g' {
        8
    } else if c0 == 'S' && c1 == 'e' && c2 == 'p' {
        9
    } else if c0 == 'O' && c1 == 'c' && c2 == 't' {
        10
    } else if c0 == 'N' && c1 == 'o' && c2 == 'v' {
        11
    } else if c0 == 'D' && c1 == 'e' && c2 == 'c' {
        12
    } else {
        0
    }
}

/// Parse an exam cell of the shape `DD-Mon-YYYY HHMMtoHHMM` into its date and
/// period. On failure the error blames the first failing sub-component.
pub fn parse_exam(token: &str) -> (r: Result<Exam, ParseExamError>)
    ensures
        match r {
            Ok(ex) => exam_token_ok(token@) && ex == exam_of(token@),
            Err(e) => !exam_token_ok(token@) && e.token@ == token@ && e.part == exam_err_part(
                token@,
            ),
        },
{
    let n: usize = token.unicode_len();
    if n != 22 {
        return Err(ParseExamError { token: token.to_owned(), part: ExamPart::Pattern });
    }
    let c3 = token.get_char(3);
    let c4 = token.get_char(4);
    let c5 = token.get_char(5);
    let mut shape: bool = token.get_char(2) == '-' && token.get_char(6) == '-' && token.get_char(11)
        == ' ' && token.get_char(16) == 't' && token.get_char(17) == 'o';
    {
        let u3: u32 = c3 as u32;
        let u4: u32 = c4 as u32;
        let u5: u32 = c5 as u32;
        shape = shape && 65 <= u3 && u3 <= 90 && 97 <= u4 && u4 <= 122 && 97 <= u5 && u5 <= 122;
    }
    let mut j: usize = 0;
    while j < 22
        invariant
            token@.len() == 22,
            j <= 22,
            shape == (token@[2] == '-' && token@[6] == '-' && token@[11] == ' ' && token@[16] == 't'
                && token@[17] == 'o' && is_upper(token@[3]) && is_lower(token@[4]) && is_lower(
                token@[5],
            ) && forall|i: int|
                0 <= i < j && digit_pos(i) ==> is_digit(#[trigger] token@[i])),
        decreases 22 - j,
    {
        if j < 2 || (7 <= j && j < 11) || (12 <= j && j < 16) || (18 <= j && j < 22) {
            let c = token.get_char(j);
            shape = shape && crate::text::char_is_digit(c);
            proof {
                assert(digit_pos(j as int));
            }
        } else {
            proof {
                assert(!digit_pos(j as int));
            }
        }
        j += 1;
    }
    proof {
        let sub = token@.subrange(12, 22);
        assert forall|i: int| 0 <= i < 10 implies sub[i] == token@[12 + i] by {}
        assert(shape == exam_shape_ok(token@));
    }
    if !shape {
        return Err(ParseExamError { token: token.to_owned(), part: ExamPart::Pattern });
    }
    let month = month_lookup(c3, c4, c5);
    proof {
        assert(seq![c3, c4, c5] =~= token@.subrange(3, 6));
    }
    if month == 0 {
        return Err(ParseExamError { token: token.to_owned(), part: ExamPart::Month });
    }
    let day = two_digits_at(token, 0);
    let y_hi = two_digits_at(token, 7);
    let y_lo = two_digits_at(token, 9);
    let year: u32 = y_hi * 100 + y_lo;
    proof {
        reveal_with_fuel(digits_val, 5);
        let ys = token@.subrange(7, 11);
        assert(ys.len() == 4);
        assert(ys.drop_last() =~= token@.subrange(7, 10));
        assert(ys.drop_last().drop_last() =~= token@.subrange(7, 9));
        assert(ys.drop_last().drop_last().drop_last() =~= token@.subrange(7, 8));
        assert(ys.drop_last().drop_last().drop_last().drop_last() =~= Seq::<char>::empty());
        assert(year == exam_year(token@));
        let ds = token@.subrange(0, 2);
        assert(ds.drop_last() =~= token@.subrange(0, 1));
        assert(ds.drop_last().drop_last() =~= Seq::<char>::empty());
        assert(day == exam_day(token@));
    }
    let dim = crate::date::month_days(year as i32, month);
    if day < 1 || day > dim {
        return Err(ParseExamError { token: token.to_owned(), part: ExamPart::Date });
    }
    let sh = two_digits_at(token, 12);
    let sm = two_digits_at(token, 14);
    let eh = two_digits_at(token, 18);
    let em = two_digits_at(token, 20);
    proof {
        let sub = token@.subrange(12, 22);
        assert(sub[0] == token@[12] && sub[1] == token@[13] && sub[2] == token@[14] && sub[3]
            == token@[15] && sub[6] == token@[18] && sub[7] == token@[19] && sub[8] == token@[20]
            && sub[9] == token@[21]);
    }
    if sh > 23 || sm > 59 || eh > 23 || em > 59 {
        return Err(ParseExamError { token: token.to_owned(), part: ExamPart::Time });
    }
    Ok(
        Exam {
            date: Date { year: year as i32, month, day },
            period: Period {
                start: TimeOfDay { hour: sh, minute: sm },
                end: TimeOfDay { hour: eh, minute: em },
            },
        },
    )
}

/// Positions that must hold a digit in an exam cell.
pub open spec fn digit_pos(i: int) -> bool {
    (0 <= i < 2) || (7 <= i < 11) || (12 <= i < 16) || (18 <= i < 22)
}

// ---------------------------------------------------------------------------
// week-list cells
// ---------------------------------------------------------------------------

/// The literal marker that precedes the week list.
pub open spec fn wk_marker() -> Seq<char> {
    seq!['T', 'e', 'a', 'c', 'h', 'i', 'n', 'g', ' ', 'W', 'k']
}

pub open spec fn is_marker_at(s: Seq<char>, i: int) -> bool {
    0 <= i && i + 11 <= s.len() && s.subrange(i, i + 11) == wk_marker()
}

/// Index of the first occurrence of the marker, or -1 when absent.
pub open spec fn find_marker(s: Seq<char>) -> int
    decreases s.len(),
{
    if s.len() < 11 {
        -1
    } else if s.subrange(0, 11) == wk_marker() {
        0
    } else if find_marker(s.drop_first()) < 0 {
        -1
    } else {
        1 + find_marker(s.drop_first())
    }
}

pub proof fn lemma_find_marker(s: Seq<char>)
    ensures
        find_marker(s) == -1 ==> forall|i: int| !is_marker_at(s, i),
        find_marker(s) >= 0 ==> is_marker_at(s, find_marker(s)) && forall|i: int|
            0 <= i < find_marker(s) ==> !is_marker_at(s, i),
    decreases s.len(),
{
    if s.len() < 11 {
        assert(forall|i: int| !is_marker_at(s, i));
    } else if s.subrange(0, 11) == wk_marker() {
    } else {
        let t = s.drop_first();
        lemma_find_marker(t);
        assert forall|i: int| 1 <= i implies is_marker_at(s, i) == is_marker_at(t, i - 1) by {
            if i + 11 <= s.len() {
                assert(s.subrange(i, i + 11) =~= t.subrange(i - 1, i + 10));
            }
        }
        let j = find_marker(t);
        if j == -1 {
            assert forall|i: int| !is_marker_at(s, i) by {
                if i == 0 {
                    assert(s.subrange(0, 11) != wk_marker());
                } else if i >= 1 {
                    assert(!is_marker_at(t, i - 1));
                }
            }
        } else {
            assert(is_marker_at(t, j));
            assert(is_marker_at(s, 1 + j));
            assert forall|i: int| 0 <= i < 1 + j implies !is_marker_at(s, i) by {
                if i == 0 {
                    assert(s.subrange(0, 11) != wk_marker());
                } else {
                    assert(!is_marker_at(t, i - 1));
                }
            }
        }
    }
}

/// How far one list entry reaches: a bare integer gives itself, a range
/// `a-b` with `a <= b` gives every integer from `a` to `b`; values must fit
/// a `u32`. `None` for anything else.
pub open spec fn entry_expand(e: Seq<char>) -> Option<Seq<int>> {
    let k = find_ch(e, '-');
    if k < 0 {
        if e.len() >= 1 && all_digits(e) && digits_val(e) <= u32::MAX {
            Some(seq![digits_val(e)])
        } else {
            None
        }
    } else {
        let a = e.subrange(0, k);
        let b = e.subrange(k + 1, e.len() as int);
        if a.len() >= 1 && b.len() >= 1 && all_digits(a) && all_digits(b) && digits_val(a)
            <= digits_val(b) && digits_val(b) <= u32::MAX {
            Some(Seq::new((digits_val(b) - digits_val(a) + 1) as nat, |j: int| digits_val(a) + j))
        } else {
            None
        }
    }
}

/// The concatenation of all entry expansions, or `None` on a bad entry.
pub open spec fn weeks_concat(entries: Seq<Seq<char>>) -> Option<Seq<int>>
    decreases entries.len(),
{
    if entries.len() == 0 {
        Some(Seq::empty())
    } else {
        match (entry_expand(entries[0]), weeks_concat(entries.drop_first())) {
            (Some(h), Some(t)) => Some(h + t),
            _ => None,
        }
    }
}

/// The recess-week remap: weeks at or above the recess week shift up by one.
pub open spec fn week_adj(w: int, recess: int) -> int {
    if w < recess {
        w
    } else {
        w + 1
    }
}

pub open spec fn weeks_suffix(s: Seq<char>) -> Seq<char> {
    s.subrange(find_marker(s) + 11, s.len() as int)
}

/// The week numbers a cell lists, before the recess remap.
pub open spec fn weeks_values(s: Seq<char>) -> Seq<int> {
    weeks_concat(split_on(weeks_suffix(s), ',')).unwrap()
}

/// A week-list cell parses: the marker occurs, every comma-separated entry is
/// a bare integer or an ascending range, and every remapped week fits a
/// `u32`.
pub open spec fn weeks_token_ok(s: Seq<char>, recess: int) -> bool {
    &&& find_marker(s) >= 0
    &&& weeks_concat(split_on(weeks_suffix(s), ',')) is Some
    &&& forall|i: int|
        0 <= i < weeks_values(s).len() ==> week_adj(#[trigger] weeks_values(s)[i], recess)
            <= u32::MAX
}

pub open spec fn weeks_of(s: Seq<char>, recess: int) -> Seq<u32> {
    weeks_values(s).map_values(|w: int| week_adj(w, recess) as u32)
}

/// Expand one list entry, mirroring `entry_expand`.
fn expand_entry(e: &Vec<char>) -> (r: Option<Vec<u32>>)
    ensures
        match r {
            Some(v) => entry_expand(e@) == Some(v@.map_values(|x: u32| x as int)),
            None => entry_expand(e@) is None,
        },
{
    let n: usize = e.len();
    let mut k: usize = 0;
    while k < n && e[k] != '-'
        invariant
            k <= n,
            n == e@.len(),
            forall|j: int| 0 <= j < k ==> e@[j] != '-',
        decreases n - k,
    {
        k += 1;
    }
    proof {
        lemma_find_ch(e@, '-');
    }
    if k == n {
        // no dash: a bare integer
        proof {
            assert(find_ch(e@, '-') < 0);
        }
        if n == 0 {
            return None;
        }
        let mut j: usize = 0;
        while j < n && crate::text::char_is_digit(e[j])
            invariant
                j <= n,
                n == e@.len(),
                forall|i: int| 0 <= i < j ==> is_digit(#[trigger] e@[i]),
            decreases n - j,
        {
            j += 1;
        }
        if j < n {
            proof {
                assert(!all_digits(e@));
            }
            return None;
        }
        proof {
            assert(all_digits(e@));
            assert(e@.subrange(0, n as int) =~= e@);
        }
        match crate::text::digits_value(e, 0, n) {
            Some(x) => {
                let mut v: Vec<u32> = Vec::new();
                v.push(x);
                proof {
                    assert(v@.map_values(|y: u32| y as int) =~= seq![digits_val(e@)]);
                }
                Some(v)
            },
            None => None,
        }
    } else {
        // dash at k: a range
        proof {
            assert(e@[k as int] == '-');
            assert(find_ch(e@, '-') == k);
        }
        if k == 0 || k + 1 >= n {
            proof {
                let b = e@.subrange(k as int + 1, n as int);
                assert(k == 0 || b.len() == 0);
            }
            return None;
        }
        let mut j: usize = 0;
        while j < k && crate::text::char_is_digit(e[j])
            invariant
                j <= k < n,
                n == e@.len(),
                forall|i: int| 0 <= i < j ==> is_digit(#[trigger] e@[i]),
            decreases k - j,
        {
            j += 1;
        }
        if j < k {
            proof {
                let a = e@.subrange(0, k as int);
                assert(a[j as int] == e@[j as int]);
                assert(!all_digits(a));
            }
            return None;
        }
        let mut j2: usize = k + 1;
        while j2 < n && crate::text::char_is_digit(e[j2])
            invariant
                k + 1 <= j2 <= n,
                n == e@.len(),
                forall|i: int| k + 1 <= i < j2 ==> is_digit(#[trigger] e@[i]),
            decreases n - j2,
        {
            j2 += 1;
        }
        if j2 < n {
            proof {
                let b = e@.subrange(k as int + 1, n as int);
                assert(b[j2 - (k as int + 1)] == e@[j2 as int]);
                assert(!all_digits(b));
            }
            return None;
        }
        proof {
            let a = e@.subrange(0, k as int);
            let b = e@.subrange(k as int + 1, n as int);
            assert(forall|i: int| 0 <= i < a.len() ==> a[i] == e@[i]);
            assert(forall|i: int| 0 <= i < b.len() ==> b[i] == e@[k as int + 1 + i]);
            assert(all_digits(a));
            assert(all_digits(b));
        }
        let av = match crate::text::digits_value(e, 0, k) {
            Some(x) => x,
            None => {
                return None;
            },
        };
        let bv = match crate::text::digits_value(e, k + 1, n) {
            Some(x) => x,
            None => {
                proof {
                    lemma_digits_val_prefix(e@.subrange(0, k as int), k as int);
                }
                return None;
            },
        };
        if av > bv {
            return None;
        }
        let count: u64 = (bv - av) as u64 + 1;
        let mut v: Vec<u32> = Vec::new();
        let mut off: u64 = 0;
        while off < count
            invariant
                off <= count,
                count == bv - av + 1,
                av <= bv <= u32::MAX,
                v@.len() == off,
                forall|j: int| 0 <= j < off ==> (#[trigger] v@[j]) as int == av as int + j,
            decreases count - off,
        {
            let ghost v0 = v@;
            v.push(av + off as u32);
            proof {
                assert forall|j: int| 0 <= j < off + 1 implies (#[trigger] v@[j]) as int
                    == av as int + j by {
                    if j < off {
                        assert(v@[j] == v0[j]);
                    }
                }
            }
            off += 1;
        }
        proof {
            let a = e@.subrange(0, k as int);
            let b = e@.subrange(k as int + 1, n as int);
            let expect = Seq::new(
                (digits_val(b) - digits_val(a) + 1) as nat,
                |j: int| digits_val(a) + j,
            );
            assert(entry_expand(e@) == Some(expect));
            assert(v@.map_values(|x: u32| x as int) =~= expect) by {
                assert(v@.len() == expect.len());
                assert forall|j: int| 0 <= j < expect.len() implies v@.map_values(
                    |x: u32| x as int,
                )[j] == expect[j] by {
                    assert(v@[j] as int == av as int + j);
                    assert(expect[j] == digits_val(a) + j);
                }
            }
        }
        Some(v)
    }
}

/// Parse a week-list cell: the text after the first `Teaching Wk` marker is a
/// comma-separated list of week numbers and ascending ranges; each week at or
/// above `recess_week` is shifted up by one.
pub fn parse_weeks(token: &str, recess_week: u32) -> (r: Result<Vec<u32>, ParseWeeksError>)
    ensures
        match r {
            Ok(v) => weeks_token_ok(token@, recess_week as int) && v@ == weeks_of(
                token@,
                recess_week as int,
            ),
            Err(e) => !weeks_token_ok(token@, recess_week as int) && e.token@ == token@,
        },
{
    let n: usize = token.unicode_len();
    if n < 11 {
        proof {
            lemma_find_marker(token@);
            assert(forall|j: int| !is_marker_at(token@, j));
        }
        return Err(ParseWeeksError { token: token.to_owned() });
    }
    let last_start: usize = n - 11;
    let mut idx: usize = 0;
    let mut found: bool = false;
    while !found && idx <= last_start
        invariant
            idx <= last_start + 1,
            last_start == n - 11,
            n == token@.len(),
            found ==> idx <= last_start && is_marker_at(token@, idx as int),
            forall|j: int| 0 <= j < idx ==> !is_marker_at(token@, j),
        decreases (if found {
            0int
        } else {
            n - idx + 1
        }),
    {
        if marker_at(token, idx) {
            found = true;
        } else {
            idx += 1;
        }
    }
    proof {
        lemma_find_marker(token@);
        if found {
            assert(find_marker(token@) == idx as int);
        } else {
            assert(forall|j: int| idx <= j ==> !is_marker_at(token@, j)) by {
                assert(forall|j: int| j + 11 > n ==> !is_marker_at(token@, j));
            }
            assert(find_marker(token@) == -1);
            assert(!weeks_token_ok(token@, recess_week as int));
        }
    }
    if !found {
        return Err(ParseWeeksError { token: token.to_owned() });
    }
    let start: usize = idx + 11;
    let mut rest: Vec<char> = Vec::new();
    let mut j: usize = start;
    proof {
        assert(rest@ =~= token@.subrange(start as int, start as int));
    }
    while j < n
        invariant
            start <= j <= n,
            n == token@.len(),
            rest@ == token@.subrange(start as int, j as int),
        decreases n - j,
    {
        rest.push(token.get_char(j));
        proof {
            assert(token@.subrange(start as int, j as int + 1) =~= token@.subrange(
                start as int,
                j as int,
            ).push(token@[j as int]));
        }
        j += 1;
    }
    proof {
        assert(rest@ == weeks_suffix(token@));
    }
    let entries = crate::text::split_chars(&rest, ',');
    let ghost evs = split_on(rest@, ',');
    let m: usize = entries.len();
    let mut raw: Vec<u32> = Vec::new();
    let mut k: usize = 0;
    proof {
        assert(evs.subrange(0, m as int) =~= evs);
        assert(entries@.map_values(|t: Vec<char>| t@) == evs);
    }
    while k < m
        invariant
            k <= m,
            m == entries@.len(),
            entries@.map_values(|t: Vec<char>| t@) == evs,
            evs == split_on(weeks_suffix(token@), ','),
            find_marker(token@) >= 0,
            weeks_concat(evs) == match weeks_concat(evs.subrange(k as int, m as int)) {
                Some(t) => Some(raw@.map_values(|x: u32| x as int) + t),
                None => None::<Seq<int>>,
            },
        decreases m - k,
    {
        proof {
            let tail = evs.subrange(k as int, m as int);
            assert(tail[0] == evs[k as int]);
            assert(tail.drop_first() =~= evs.subrange(k as int + 1, m as int));
            assert(evs[k as int] == entries@[k as int]@);
        }
        match expand_entry(&entries[k]) {
            Some(h) => {
                let ghost raw0 = raw@;
                let hn: usize = h.len();
                let mut hi: usize = 0;
                while hi < hn
                    invariant
                        hi <= hn,
                        hn == h@.len(),
                        raw@ == raw0 + h@.subrange(0, hi as int),
                    decreases hn - hi,
                {
                    raw.push(h[hi]);
                    proof {
                        assert(raw0 + h@.subrange(0, hi as int + 1) =~= (raw0 + h@.subrange(
                            0,
                            hi as int,
                        )).push(h@[hi as int]));
                    }
                    hi += 1;
                }
                proof {
                    assert(h@.subrange(0, hn as int) =~= h@);
                    assert(raw@ == raw0 + h@);
                    assert(raw@.map_values(|x: u32| x as int) =~= raw0.map_values(|x: u32| x as int)
                        + h@.map_values(|x: u32| x as int));
                }
            },
            None => {
                proof {
                    assert(weeks_concat(evs.subrange(k as int, m as int)) is None);
                    assert(weeks_concat(evs) is None);
                    assert(split_on(weeks_suffix(token@), ',') == evs);
                    assert(!weeks_token_ok(token@, recess_week as int));
                }
                return Err(ParseWeeksError { token: token.to_owned() });
            },
        }
        k += 1;
    }
    proof {
        assert(evs.subrange(m as int, m as int) =~= Seq::<Seq<char>>::empty());
        assert(weeks_concat(evs.subrange(m as int, m as int)) == Some(Seq::<int>::empty()));
        assert(raw@.map_values(|x: u32| x as int) + Seq::<int>::empty() =~= raw@.map_values(
            |x: u32| x as int,
        ));
        assert(weeks_concat(evs) == Some(raw@.map_values(|x: u32| x as int)));
    }
    proof {
        assert(split_on(weeks_suffix(token@), ',') == evs);
        assert(weeks_values(token@) == raw@.map_values(|x: u32| x as int));
    }
    let ghost ws = raw@.map_values(|x: u32| x as int);
    let rn: usize = raw.len();
    let mut out: Vec<u32> = Vec::new();
    let mut i: usize = 0;
    while i < rn
        invariant
            i <= rn,
            rn == raw@.len(),
            ws == raw@.map_values(|x: u32| x as int),
            find_marker(token@) >= 0,
            weeks_concat(split_on(weeks_suffix(token@), ',')) is Some,
            weeks_values(token@) == ws,
            out@.len() == i,
            forall|j: int| 0 <= j < i ==> week_adj(#[trigger] weeks_values(token@)[j],
                recess_week as int,
            ) <= u32::MAX,
            forall|j: int| 0 <= j < i ==> (#[trigger] out@[j]) as int == week_adj(
                ws[j],
                recess_week as int,
            ),
        decreases rn - i,
    {
        let w = raw[i];
        let ghost out0 = out@;
        proof {
            assert(ws[i as int] == raw@[i as int] as int);
        }
        if w < recess_week {
            out.push(w);
        } else if w == u32::MAX {
            proof {
                assert(week_adj(weeks_values(token@)[i as int], recess_week as int) > u32::MAX);
                assert(!weeks_token_ok(token@, recess_week as int));
            }
            return Err(ParseWeeksError { token: token.to_owned() });
        } else {
            out.push(w + 1);
        }
        proof {
            assert(out@ == out0.push(out@[i as int]));
            assert(out@[i as int] as int == week_adj(ws[i as int], recess_week as int));
            assert(week_adj(weeks_values(token@)[i as int], recess_week as int) <= u32::MAX);
            assert forall|j: int| 0 <= j < i + 1 implies (#[trigger] out@[j]) as int == week_adj(
                ws[j],
                recess_week as int,
            ) by {
                if j < i {
                    assert(out@[j] == out0[j]);
                    assert(out0[j] as int == week_adj(ws[j], recess_week as int));
                }
            }
        }
        i += 1;
    }
    proof {
        assert(weeks_token_ok(token@, recess_week as int));
        let wo = weeks_of(token@, recess_week as int);
        assert(wo == ws.map_values(|w: int| week_adj(w, recess_week as int) as u32));
        assert(out@ =~= wo) by {
            assert(out@.len() == wo.len());
            assert forall|j: int| 0 <= j < wo.len() implies out@[j] == wo[j] by {
                assert(wo[j] == week_adj(ws[j], recess_week as int) as u32);
                assert(out@[j] as int == week_adj(ws[j], recess_week as int));
            }
        }
    }
    Ok(out)
}

// ---------------------------------------------------------------------------
// the table parser
// ---------------------------------------------------------------------------

/// The tokens of the table text: newlines stripped, split on tabs, each token
/// trimmed.
pub open spec fn tokens_of(text: Seq<char>) -> Seq<Seq<char>> {
    split_on(crate::text::strip_nl(text), '\t').map_values(|t: Seq<char>| trim(t))
}

pub open spec fn row_tok(toks: Seq<Seq<char>>, k: int, j: int) -> Seq<char> {
    toks[16 * k + j]
}

/// A record opens a new course when all six header cells are non-empty.
pub open spec fn row_has_header(toks: Seq<Seq<char>>, k: int) -> bool {
    row_tok(toks, k, 0).len() > 0 && row_tok(toks, k, 1).len() > 0 && row_tok(toks, k, 2).len() > 0
        && row_tok(toks, k, 3).len() > 0 && row_tok(toks, k, 6).len() > 0 && row_tok(
        toks,
        k,
        7,
    ).len() > 0
}

pub open spec fn header_course(toks: Seq<Seq<char>>, k: int) -> CourseView {
    CourseView {
        code: row_tok(toks, k, 0),
        title: row_tok(toks, k, 1),
        au: row_tok(toks, k, 2),
        course_type: row_tok(toks, k, 3),
        index: row_tok(toks, k, 6),
        status: row_tok(toks, k, 7),
        classes: Seq::empty(),
        exam: None,
    }
}

/// The literal that marks a course without an exam.
pub open spec fn na_lit() -> Seq<char> {
    seq!['N', 'o', 't', ' ', 'A', 'p', 'p', 'l', 'i', 'c', 'a', 'b', 'l', 'e']
}

/// The last course of `acc`, with its exam set.
pub open spec fn with_exam(acc: Seq<CourseView>, ex: Exam) -> Seq<CourseView> {
    acc.update(
        acc.len() - 1,
        CourseView {
            code: acc.last().code,
            title: acc.last().title,
            au: acc.last().au,
            course_type: acc.last().course_type,
            index: acc.last().index,
            status: acc.last().status,
            classes: acc.last().classes,
            exam: Some(ex),
        },
    )
}

/// The last course of `acc`, with one more class.
pub open spec fn with_class(acc: Seq<CourseView>, cl: ClassView) -> Seq<CourseView> {
    acc.update(
        acc.len() - 1,
        CourseView {
            code: acc.last().code,
            title: acc.last().title,
            au: acc.last().au,
            course_type: acc.last().course_type,
            index: acc.last().index,
            status: acc.last().status,
            classes: acc.last().classes.push(cl),
            exam: acc.last().exam,
        },
    )
}

pub open spec fn row_class(toks: Seq<Seq<char>>, k: int, recess: int) -> ClassView {
    ClassView {
        weekday: weekday_of(row_tok(toks, k, 11)).unwrap(),
        period: period_of(row_tok(toks, k, 12)),
        venue: row_tok(toks, k, 13),
        group: row_tok(toks, k, 10),
        weeks: weeks_of(row_tok(toks, k, 14), recess),
        class_type: row_tok(toks, k, 9),
    }
}

/// The class part of one record: nothing without a class type, else the
/// parsed class appended to the current course, or the first field error.
pub open spec fn class_step(toks: Seq<Seq<char>>, k: int, recess: int, acc: Seq<CourseView>) -> Result<
    Seq<CourseView>,
    TableErrView,
> {
    if row_tok(toks, k, 9).len() == 0 {
        Ok(acc)
    } else if weekday_of(row_tok(toks, k, 11)) is None {
        Err(TableErrView::Weekday(row_tok(toks, k, 11)))
    } else if !period_token_ok(row_tok(toks, k, 12)) {
        Err(TableErrView::Period(row_tok(toks, k, 12)))
    } else if !weeks_token_ok(row_tok(toks, k, 14), recess) {
        Err(TableErrView::Weeks(row_tok(toks, k, 14)))
    } else if acc.len() == 0 {
        Err(TableErrView::UnknownCourse { class: row_class(toks, k, recess) })
    } else {
        Ok(with_class(acc, row_class(toks, k, recess)))
    }
}

/// One record folded into the accumulated course list: a new course when the
/// header cells are filled, then the exam cell, then the class cells.
pub open spec fn record_step(toks: Seq<Seq<char>>, k: int, recess: int, acc: Seq<CourseView>) -> Result<
    Seq<CourseView>,
    TableErrView,
> {
    let acc1 = if row_has_header(toks, k) {
        acc.push(header_course(toks, k))
    } else {
        acc
    };
    let ex = row_tok(toks, k, 15);
    if ex.len() > 0 && ex != na_lit() && acc1.len() > 0 {
        if exam_token_ok(ex) {
            class_step(toks, k, recess, with_exam(acc1, exam_of(ex)))
        } else {
            Err(TableErrView::Exam(ex, exam_err_part(ex)))
        }
    } else {
        class_step(toks, k, recess, acc1)
    }
}

/// The whole fold from record `k` on: stops at the first error, and fails on
/// a trailing chunk narrower than sixteen tokens.
pub open spec fn fold_records(
    toks: Seq<Seq<char>>,
    recess: int,
    k: int,
    acc: Seq<CourseView>,
) -> Result<Seq<CourseView>, TableErrView>
    decreases toks.len() - 16 * k,
{
    if toks.len() <= 16 * k {
        Ok(acc)
    } else if toks.len() - 16 * k < 16 {
        Err(TableErrView::MissingValues { chunk_index: k, found: toks.len() - 16 * k })
    } else {
        match record_step(toks, k, recess, acc) {
            Ok(acc2) => fold_records(toks, recess, k + 1, acc2),
            Err(e) => Err(e),
        }
    }
}

/// What parsing the table text yields: the folded course list, or the first
/// error.
pub open spec fn table_spec(text: Seq<char>, recess: int) -> Result<Seq<CourseView>, TableErrView> {
    fold_records(tokens_of(text), recess, 0, Seq::empty())
}

/// Tokenize the table text, mirroring `tokens_of`.
fn tokenize(table: &str) -> (toks: Vec<String>)
    ensures
        toks@.map_values(|t: String| t@) == tokens_of(table@),
{
    let cleaned = crate::text::remove_newlines(table);
    let raw = crate::text::split_chars(&cleaned, '\t');
    let m: usize = raw.len();
    let mut toks: Vec<String> = Vec::new();
    let mut k: usize = 0;
    while k < m
        invariant
            k <= m,
            m == raw@.len(),
            toks@.len() == k,
            raw@.map_values(|t: Vec<char>| t@) == split_on(crate::text::strip_nl(table@), '\t'),
            forall|j: int| 0 <= j < k ==> (#[trigger] toks@[j])@ == trim(raw@[j]@),
        decreases m - k,
    {
        let trimmed = crate::text::trim_chars(&raw[k]);
        let s = crate::text::chars_to_string(&trimmed);
        let ghost toks0 = toks@;
        toks.push(s);
        proof {
            assert(forall|j: int| 0 <= j < k ==> toks@[j] == toks0[j]);
        }
        k += 1;
    }
    proof {
        let sp = split_on(crate::text::strip_nl(table@), '\t');
        let lhs = toks@.map_values(|t: String| t@);
        let rhs = sp.map_values(|t: Seq<char>| trim(t));
        assert(lhs.len() == rhs.len());
        assert forall|j: int| 0 <= j < m implies #[trigger] lhs[j] == rhs[j] by {
            assert(lhs[j] == toks@[j]@);
            assert(toks@[j]@ == trim(raw@[j]@));
            assert(raw@[j]@ == raw@.map_values(|t: Vec<char>| t@)[j]);
            assert(rhs[j] == trim(sp[j]));
        }
        assert(lhs =~= rhs);
    }
    toks
}

impl Course {
    /// A course from its six header fields; every field must be non-empty.
    pub fn new(
        code: String,
        title: String,
        au: String,
        course_type: String,
        index: String,
        status: String,
    ) -> (r: Result<Course, ParseCourseError>)
        ensures
            r is Ok <==> (code@.len() > 0 && title@.len() > 0 && au@.len() > 0 && course_type@.len()
                > 0 && index@.len() > 0 && status@.len() > 0),
            r matches Ok(c) ==> c@ == (CourseView {
                code: code@,
                title: title@,
                au: au@,
                course_type: course_type@,
                index: index@,
                status: status@,
                classes: Seq::empty(),
                exam: None,
            }),
    {
        if code.as_str().is_empty() || title.as_str().is_empty() || au.as_str().is_empty()
            || course_type.as_str().is_empty() || index.as_str().is_empty()
            || status.as_str().is_empty() {
            Err(ParseCourseError)
        } else {
            let c = Course {
                code,
                title,
                au,
                course_type,
                index,
                status,
                classes: Vec::new(),
                exam: None,
            };
            proof {
                assert(c@.classes =~= Seq::<ClassView>::empty());
            }
            Ok(c)
        }
    }
}

/// Fold one record into the course list, mirroring `record_step`.
fn process_record(
    toks: &Vec<String>,
    base: usize,
    recess_week: u32,
    courses: &mut Vec<Course>,
    Ghost(tv): Ghost<Seq<Seq<char>>>,
    Ghost(k): Ghost<int>,
) -> (r: Result<(), ParseTableError>)
    requires
        tv == toks@.map_values(|t: String| t@),
        0 <= k,
        base == 16 * k,
        base + 16 <= toks@.len(),
    ensures
        match r {
            Ok(_) => record_step(
                tv,
                k,
                recess_week as int,
                old(courses)@.map_values(|c: Course| c@),
            ) == Ok::<Seq<CourseView>, TableErrView>(final (courses)@.map_values(|c: Course| c@)),
            Err(e) => record_step(
                tv,
                k,
                recess_week as int,
                old(courses)@.map_values(|c: Course| c@),
            ) == Err::<Seq<CourseView>, TableErrView>(e@),
        },
{
    let ghost acc0 = courses@.map_values(|c: Course| c@);
    proof {
        assert forall|j: int| 0 <= j < 16 implies #[trigger] row_tok(tv, k, j) == toks@[base + j]@
            by {
            assert(tv[16 * k + j] == toks@[16 * k + j]@);
        }
    }
    // header cells: a new course when all six are filled
    let hdr = !toks[base].as_str().is_empty() && !toks[base + 1].as_str().is_empty() && !toks[base
        + 2].as_str().is_empty() && !toks[base + 3].as_str().is_empty() && !toks[base
        + 6].as_str().is_empty() && !toks[base + 7].as_str().is_empty();
    proof {
        assert(hdr == row_has_header(tv, k));
    }
    if hdr {
        let nc = Course {
            code: toks[base].clone(),
            title: toks[base + 1].clone(),
            au: toks[base + 2].clone(),
            course_type: toks[base + 3].clone(),
            index: toks[base + 6].clone(),
            status: toks[base + 7].clone(),
            classes: Vec::new(),
            exam: None,
        };
        proof {
            assert(nc@.classes =~= Seq::<ClassView>::empty());
            assert(nc@ == header_course(tv, k));
        }
        courses.push(nc);
        proof {
            assert(courses@.map_values(|c: Course| c@) =~= acc0.push(header_course(tv, k)));
        }
    }
    let ghost acc1 = if row_has_header(tv, k) {
        acc0.push(header_course(tv, k))
    } else {
        acc0
    };
    proof {
        assert(courses@.map_values(|c: Course| c@) == acc1);
    }
    // exam cell
    let ghost ex_tok = row_tok(tv, k, 15);
    let ex_nonempty = !toks[base + 15].as_str().is_empty();
    let ex_not_na = !crate::text::str_eq(toks[base + 15].as_str(), "Not Applicable");
    proof {
        reveal_strlit("Not Applicable");
        assert("Not Applicable"@ =~= na_lit());
        assert(ex_not_na == (ex_tok != na_lit()));
    }
    if ex_nonempty && ex_not_na && courses.len() > 0 {
        match parse_exam(toks[base + 15].as_str()) {
            Ok(exam) => {
                proof {
                    assert(exam == exam_of(ex_tok));
                }
                let mut lastc = courses.pop().unwrap();
                lastc.exam = Some(exam);
                courses.push(lastc);
                proof {
                    assert(courses@.map_values(|c: Course| c@) =~= with_exam(
                        acc1,
                        exam_of(ex_tok),
                    ));
                }
            },
            Err(e) => {
                proof {
                    assert(record_step(tv, k, recess_week as int, acc0)
                        == Err::<Seq<CourseView>, TableErrView>(
                        TableErrView::Exam(ex_tok, exam_err_part(ex_tok)),
                    ));
                }
                return Err(ParseTableError::Exam(e));
            },
        }
    }
    let ghost acc2 = if ex_tok.len() > 0 && ex_tok != na_lit() && acc1.len() > 0 {
        with_exam(acc1, exam_of(ex_tok))
    } else {
        acc1
    };
    proof {
        assert(courses@.map_values(|c: Course| c@) == acc2);
    }
    // class cells
    if toks[base + 9].as_str().is_empty() {
        proof {
            assert(record_step(tv, k, recess_week as int, acc0) == Ok::<
                Seq<CourseView>,
                TableErrView,
            >(acc2));
        }
        return Ok(());
    }
    let wd = match parse_weekday(toks[base + 11].as_str()) {
        Ok(w) => w,
        Err(e) => {
            return Err(ParseTableError::Weekday(e));
        },
    };
    let period = match parse_period(toks[base + 12].as_str()) {
        Ok(p) => p,
        Err(e) => {
            return Err(ParseTableError::Period(e));
        },
    };
    let weeks = match parse_weeks(toks[base + 14].as_str(), recess_week) {
        Ok(w) => w,
        Err(e) => {
            return Err(ParseTableError::Weeks(e));
        },
    };
    let cl = Class {
        weekday: wd,
        period,
        venue: toks[base + 13].clone(),
        group: toks[base + 10].clone(),
        weeks,
        class_type: toks[base + 9].clone(),
    };
    proof {
        assert(cl@ == row_class(tv, k, recess_week as int));
    }
    if courses.len() == 0 {
        proof {
            assert(acc2.len() == 0);
        }
        return Err(ParseTableError::UnknownCourse { class: cl });
    }
    let mut lastc = courses.pop().unwrap();
    let ghost last0 = lastc;
    lastc.classes.push(cl);
    proof {
        assert(lastc@.classes =~= last0@.classes.push(row_class(tv, k, recess_week as int)));
        assert(lastc@ =~= (CourseView {
            code: last0@.code,
            title: last0@.title,
            au: last0@.au,
            course_type: last0@.course_type,
            index: last0@.index,
            status: last0@.status,
            classes: last0@.classes.push(row_class(tv, k, recess_week as int)),
            exam: last0@.exam,
        }));
    }
    courses.push(lastc);
    proof {
        assert(courses@.map_values(|c: Course| c@) =~= with_class(
            acc2,
            row_class(tv, k, recess_week as int),
        ));
    }
    Ok(())
}

impl Course {
    /// Parse the whole exported table: strip newlines, split on tabs, frame
    /// the tokens into sixteen-column records, and fold each record into the
    /// course list. The first error aborts the parse.
    pub fn parse_from_table(table: String, recess_week: u32) -> (r: Result<
        Vec<Course>,
        ParseTableError,
    >)
        ensures
            match r {
                Ok(cs) => table_spec(table@, recess_week as int) == Ok::<
                    Seq<CourseView>,
                    TableErrView,
                >(cs@.map_values(|c: Course| c@)),
                Err(e) => table_spec(table@, recess_week as int) == Err::<
                    Seq<CourseView>,
                    TableErrView,
                >(e@),
            },
    {
        let toks = tokenize(table.as_str());
        let ghost tv = toks@.map_values(|t: String| t@);
        let n: usize = toks.len();
        let full: usize = n / 16;
        let mut courses: Vec<Course> = Vec::new();
        let mut k: usize = 0;
        proof {
            vstd::arithmetic::div_mod::lemma_fundamental_div_mod(n as int, 16);
            assert(courses@.map_values(|c: Course| c@) =~= Seq::<CourseView>::empty());
        }
        while k < full
            invariant
                k <= full,
                full == n as int / 16,
                16 * full <= n,
                n == toks@.len(),
                tv == toks@.map_values(|t: String| t@),
                tv == tokens_of(table@),
                fold_records(
                    tv,
                    recess_week as int,
                    k as int,
                    courses@.map_values(|c: Course| c@),
                ) == table_spec(table@, recess_week as int),
            decreases full - k,
        {
            let base: usize = 16 * k;
            let ghost acc0 = courses@.map_values(|c: Course| c@);
            proof {
                assert(base + 16 <= n);
            }
            match process_record(&toks, base, recess_week, &mut courses, Ghost(tv), Ghost(k as int)) {
                Ok(_) => {
                    proof {
                        assert(fold_records(tv, recess_week as int, k as int, acc0) == fold_records(
                            tv,
                            recess_week as int,
                            k as int + 1,
                            courses@.map_values(|c: Course| c@),
                        ));
                    }
                },
                Err(e) => {
                    proof {
                        assert(fold_records(tv, recess_week as int, k as int, acc0) == Err::<
                            Seq<CourseView>,
                            TableErrView,
                        >(e@));
                    }
                    return Err(e);
                },
            }
            k += 1;
        }
        proof {
            vstd::arithmetic::div_mod::lemma_fundamental_div_mod(n as int, 16);
        }
        if n % 16 != 0 {
            proof {
                assert(n - 16 * full == n as int % 16);
                assert(0 < n - 16 * (full as int) < 16);
                assert(fold_records(
                    tv,
                    recess_week as int,
                    full as int,
                    courses@.map_values(|c: Course| c@),
                ) == Err::<Seq<CourseView>, TableErrView>(
                    TableErrView::MissingValues {
                        chunk_index: full as int,
                        found: n as int % 16,
                    },
                ));
            }
            return Err(ParseTableError::MissingValues { chunk_index: full, found: n % 16 });
        }
        proof {
            assert(n == 16 * (full as int));
            assert(fold_records(
                tv,
                recess_week as int,
                full as int,
                courses@.map_values(|c: Course| c@),
            ) == Ok::<Seq<CourseView>, TableErrView>(courses@.map_values(|c: Course| c@)));
        }
        Ok(courses)
    }
}

// ---------------------------------------------------------------------------
// well-formed input parses
// ---------------------------------------------------------------------------

/// Every cell of record `k` that the parser reads is well-formed.
pub open spec fn record_wf(toks: Seq<Seq<char>>, k: int, recess: int) -> bool {
    &&& (row_tok(toks, k, 15).len() > 0 && row_tok(toks, k, 15) != na_lit()) ==> exam_token_ok(
        row_tok(toks, k, 15),
    )
    &&& row_tok(toks, k, 9).len() > 0 ==> (weekday_of(row_tok(toks, k, 11)) is Some
        && period_token_ok(row_tok(toks, k, 12)) && weeks_token_ok(row_tok(toks, k, 14), recess))
}

/// A class-bearing record is preceded by (or carries) a course header.
pub open spec fn class_preceded(toks: Seq<Seq<char>>, k: int) -> bool {
    row_tok(toks, k, 9).len() > 0 ==> exists|j: int| 0 <= j <= k && row_has_header(toks, j)
}

/// A well-formed table: a whole number of records, every cell well-formed,
/// and no class before a course header.
pub open spec fn input_wf(toks: Seq<Seq<char>>, recess: int) -> bool {
    &&& toks.len() % 16 == 0
    &&& forall|k: int| 0 <= k < toks.len() / 16 ==> record_wf(toks, k, recess)
    &&& forall|k: int| 0 <= k < toks.len() / 16 ==> class_preceded(toks, k)
}

/// How many records in `[k, end)` open a new course.
pub open spec fn header_count(toks: Seq<Seq<char>>, k: int, end: int) -> int
    decreases end - k,
{
    if k >= end {
        0
    } else {
        (if row_has_header(toks, k) {
            1int
        } else {
            0int
        }) + header_count(toks, k + 1, end)
    }
}

proof fn lemma_fold_wf(toks: Seq<Seq<char>>, recess: int, m: int, k: int, acc: Seq<CourseView>)
    requires
        toks.len() == 16 * m,
        0 <= k <= m,
        forall|j: int| k <= j < m ==> record_wf(toks, j, recess),
        forall|j: int| k <= j < m ==> class_preceded(toks, j),
        (exists|j: int| 0 <= j < k && row_has_header(toks, j)) ==> acc.len() > 0,
    ensures
        fold_records(toks, recess, k, acc) matches Ok(cs) && cs.len() == acc.len() + header_count(
            toks,
            k,
            m,
        ),
    decreases m - k,
{
    if k >= m {
        assert(toks.len() <= 16 * k);
        assert(fold_records(toks, recess, k, acc) == Ok::<Seq<CourseView>, TableErrView>(acc));
    } else {
        assert(record_wf(toks, k, recess));
        assert(class_preceded(toks, k));
        let acc1 = if row_has_header(toks, k) {
            acc.push(header_course(toks, k))
        } else {
            acc
        };
        let ex = row_tok(toks, k, 15);
        let acc2 = if ex.len() > 0 && ex != na_lit() && acc1.len() > 0 {
            with_exam(acc1, exam_of(ex))
        } else {
            acc1
        };
        assert(acc2.len() == acc1.len());
        let step = record_step(toks, k, recess, acc);
        if row_tok(toks, k, 9).len() == 0 {
            assert(step == Ok::<Seq<CourseView>, TableErrView>(acc2));
        } else {
            let j = choose|j: int| 0 <= j <= k && row_has_header(toks, j);
            assert(acc1.len() > 0) by {
                if j == k {
                    assert(row_has_header(toks, k));
                } else {
                    assert(acc.len() > 0);
                }
            }
            assert(step == Ok::<Seq<CourseView>, TableErrView>(
                with_class(acc2, row_class(toks, k, recess)),
            ));
        }
        let accn = step->Ok_0;
        assert(accn.len() == acc1.len());
        assert((exists|j: int| 0 <= j < k + 1 && row_has_header(toks, j)) ==> accn.len() > 0) by {
            if exists|j: int| 0 <= j < k + 1 && row_has_header(toks, j) {
                let j = choose|j: int| 0 <= j < k + 1 && row_has_header(toks, j);
                if j == k {
                    assert(acc1.len() == acc.len() + 1);
                } else {
                    assert(exists|j2: int| 0 <= j2 < k && row_has_header(toks, j2));
                }
            }
        }
        lemma_fold_wf(toks, recess, m, k + 1, accn);
        assert(16 * k + 16 <= 16 * m);
        assert(fold_records(toks, recess, k, acc) == fold_records(toks, recess, k + 1, accn));
    }
}

/// Law: a well-formed table parses, and yields exactly one course per record
/// whose header cells are all filled.
pub proof fn lemma_parse_well_formed(text: Seq<char>, recess: int)
    requires
        input_wf(tokens_of(text), recess),
    ensures
        table_spec(text, recess) matches Ok(cs) && cs.len() == header_count(
            tokens_of(text),
            0,
            tokens_of(text).len() as int / 16,
        ),
{
    let toks = tokens_of(text);
    let n = toks.len() as int;
    vstd::arithmetic::div_mod::lemma_fundamental_div_mod(n, 16);
    let m = n / 16;
    assert(n == 16 * m);
    lemma_fold_wf(toks, recess, m, 0, Seq::empty());
}

/// Whether the marker occurs at position `i`.
fn marker_at(s: &str, i: usize) -> (r: bool)
    requires
        i + 11 <= s@.len(),
        i <= usize::MAX - 11,
    ensures
        r == is_marker_at(s@, i as int),
{
    let r = s.get_char(i) == 'T' && s.get_char(i + 1) == 'e' && s.get_char(i + 2) == 'a'
        && s.get_char(i + 3) == 'c' && s.get_char(i + 4) == 'h' && s.get_char(i + 5) == 'i'
        && s.get_char(i + 6) == 'n' && s.get_char(i + 7) == 'g' && s.get_char(i + 8) == ' '
        && s.get_char(i + 9) == 'W' && s.get_char(i + 10) == 'k';
    proof {
        let sub = s@.subrange(i as int, i as int + 11);
        assert(sub.len() == 11);
        assert(forall|j: int| 0 <= j < 11 ==> sub[j] == s@[i as int + j]);
        if r {
            assert(sub =~= wk_marker());
        } else {
            assert(sub != wk_marker()) by {
                if sub == wk_marker() {
                    assert(sub[0] == 'T' && sub[1] == 'e' && sub[2] == 'a' && sub[3] == 'c'
                        && sub[4] == 'h' && sub[5] == 'i' && sub[6] == 'n' && sub[7] == 'g'
                        && sub[8] == ' ' && sub[9] == 'W' && sub[10] == 'k');
                }
            }
        }
    }
    r
}

} // verus!
