//! The event expander: each course's weekly classes become one dated event
//! per teaching week, anchored at the ISO week of the semester start date,
//! and each exam becomes one event after its course's class events. All
//! instants are converted from local wall-clock time at a fixed UTC offset
//! to UTC.

use vstd::prelude::*;

use crate::course::{Class, Course, CourseView, ClassView, Exam, Period};
use crate::date::{
    date_plus, date_valid, iso_week_of, iso_year_of, iso_ywd_date, local_to_utc, time_valid,
    utc_valid, Date, UtcDateTime, Weekday,
};

verus! {

/// A class whose first occurrence cannot be dated: the ISO week of the
/// semester start does not resolve to a calendar date on the class's
/// weekday, or an occurrence falls outside the supported year range.
/// Carries the ISO (week-year, week, weekday) triple.
#[derive(Clone, Copy, Debug, PartialEq, Eq, Structural)]
pub struct DateTimeError {
    pub year: i32,
    pub week: u32,
    pub weekday: Weekday,
}

/// One calendar event handed to the encoder: a class occurrence or an exam.
#[derive(Debug)]
pub struct EventRecord {
    pub uid: String,
    pub created: UtcDateTime,
    pub summary: String,
    pub start: UtcDateTime,
    pub end: UtcDateTime,
    pub category: String,
    pub location: Option<String>,
}

#[verifier::ext_equal]
pub struct EventRecView {
    pub uid: Seq<char>,
    pub created: UtcDateTime,
    pub summary: Seq<char>,
    pub start: UtcDateTime,
    pub end: UtcDateTime,
    pub category: Seq<char>,
    pub location: Option<Seq<char>>,
}

impl View for EventRecord {
    type V = EventRecView;

    open spec fn view(&self) -> EventRecView {
        EventRecView {
            uid: self.uid@,
            created: self.created,
            summary: self.summary@,
            start: self.start,
            end: self.end,
            category: self.category@,
            location: match self.location {
                Some(l) => Some(l@),
                None => None,
            },
        }
    }
}

/// The deterministic shape of one produced event; the identifier suffix and
/// the creation stamp are not functions of the input.
#[verifier::ext_equal]
pub struct EventSkel {
    pub uid_prefix: Seq<char>,
    pub summary: Seq<char>,
    pub start: UtcDateTime,
    pub end: UtcDateTime,
    pub category: Seq<char>,
    pub location: Option<Seq<char>>,
}

/// An event record realises a skeleton: every deterministic field agrees,
/// the identifier is scoped by the skeleton's prefix, and every instant is
/// representable.
pub open spec fn matches_skel(e: EventRecView, s: EventSkel) -> bool {
    &&& e.summary == s.summary
    &&& e.start == s.start
    &&& e.end == s.end
    &&& e.category == s.category
    &&& e.location == s.location
    &&& utc_valid(e.created)
    &&& utc_valid(e.start)
    &&& utc_valid(e.end)
    &&& e.uid.len() >= s.uid_prefix.len()
    &&& e.uid.subrange(0, s.uid_prefix.len() as int) == s.uid_prefix
}

pub open spec fn uid_prefix_of(code: Seq<char>) -> Seq<char> {
    code + seq!['-']
}

/// `"<code> - <title> <tail>"`.
pub open spec fn summary_text(code: Seq<char>, title: Seq<char>, tail: Seq<char>) -> Seq<char> {
    code + seq![' ', '-', ' '] + title + seq![' '] + tail
}

pub open spec fn exam_lit() -> Seq<char> {
    seq!['E', 'x', 'a', 'm']
}

/// The date of the class's first occurrence: the semester start's ISO week
/// resolved to the class's weekday, if it exists and is representable.
pub open spec fn first_date_of(sem: Date, wd: Weekday) -> Option<Date> {
    match iso_ywd_date(iso_year_of(sem), iso_week_of(sem), wd) {
        Some(d) => if date_valid(d) {
            Some(d)
        } else {
            None
        },
        None => None,
    }
}

pub open spec fn resolution_err(sem: Date, wd: Weekday) -> DateTimeError {
    DateTimeError { year: iso_year_of(sem), week: iso_week_of(sem), weekday: wd }
}

/// The date of the occurrence in teaching week `w`: the first occurrence
/// advanced by seven days per week beyond the first.
pub open spec fn occurrence_date(first: Date, w: u32) -> Option<Date> {
    if w >= 1 {
        date_plus(first, (7 * (w - 1)) as nat)
    } else {
        None
    }
}

/// Law: teaching weeks lie a whole number of weeks apart: the occurrence of
/// week `w + k` is the occurrence of week `w` advanced by `7 * k` days.
pub proof fn lemma_occurrence_spacing(first: Date, w: u32, k: u32)
    requires
        1 <= w,
        w + k <= u32::MAX,
    ensures
        occurrence_date(first, (w + k) as u32) == (match occurrence_date(first, w) {
            Some(x) => date_plus(x, (7 * k) as nat),
            None => None,
        }),
{
    crate::date::lemma_date_plus_add(first, (7 * (w - 1)) as nat, (7 * k) as nat);
    assert(7 * ((w + k) as u32 - 1) == 7 * (w - 1) + 7 * k);
}

/// Both endpoints of a period on a date, as UTC instants.
pub open spec fn event_times(d: Date, p: Period, off: int) -> Option<(UtcDateTime, UtcDateTime)> {
    match (local_to_utc(d, p.start, off), local_to_utc(d, p.end, off)) {
        (Some(s), Some(e)) => Some((s, e)),
        _ => None,
    }
}

pub open spec fn class_skel_at(
    code: Seq<char>,
    title: Seq<char>,
    c: ClassView,
    ts: (UtcDateTime, UtcDateTime),
) -> EventSkel {
    EventSkel {
        uid_prefix: uid_prefix_of(code),
        summary: summary_text(code, title, c.class_type),
        start: ts.0,
        end: ts.1,
        category: c.class_type,
        location: Some(c.venue),
    }
}

/// The class's events from week index `i` on, or the date error.
pub open spec fn class_skels_from(
    code: Seq<char>,
    title: Seq<char>,
    c: ClassView,
    first: Date,
    off: int,
    err: DateTimeError,
    i: int,
) -> Result<Seq<EventSkel>, DateTimeError>
    decreases c.weeks.len() - i,
{
    if i < 0 || i >= c.weeks.len() {
        Ok(Seq::empty())
    } else {
        match occurrence_date(first, c.weeks[i]) {
            None => Err(err),
            Some(occ) => match event_times(occ, c.period, off) {
                None => Err(err),
                Some(ts) => match class_skels_from(code, title, c, first, off, err, i + 1) {
                    Ok(rest) => Ok(seq![class_skel_at(code, title, c, ts)] + rest),
                    Err(e) => Err(e),
                },
            },
        }
    }
}

/// All events of one class, week-ascending over its week list.
pub open spec fn class_skels(
    code: Seq<char>,
    title: Seq<char>,
    c: ClassView,
    sem: Date,
    off: int,
) -> Result<Seq<EventSkel>, DateTimeError> {
    match first_date_of(sem, c.weekday) {
        None => Err(resolution_err(sem, c.weekday)),
        Some(fd) => class_skels_from(code, title, c, fd, off, resolution_err(sem, c.weekday), 0),
    }
}

/// The exam's one event; meaningful when its times convert.
pub open spec fn exam_skel(code: Seq<char>, title: Seq<char>, ex: Exam, off: int) -> EventSkel {
    EventSkel {
        uid_prefix: uid_prefix_of(code),
        summary: summary_text(code, title, exam_lit()),
        start: event_times(ex.date, ex.period, off).unwrap().0,
        end: event_times(ex.date, ex.period, off).unwrap().1,
        category: exam_lit(),
        location: None,
    }
}

/// The class events of one course from class index `i` on.
pub open spec fn course_class_skels(c: CourseView, sem: Date, off: int, i: int) -> Result<
    Seq<EventSkel>,
    DateTimeError,
>
    decreases c.classes.len() - i,
{
    if i < 0 || i >= c.classes.len() {
        Ok(Seq::empty())
    } else {
        match class_skels(c.code, c.title, c.classes[i], sem, off) {
            Err(e) => Err(e),
            Ok(h) => match course_class_skels(c, sem, off, i + 1) {
                Err(e) => Err(e),
                Ok(t) => Ok(h + t),
            },
        }
    }
}

/// All events of one course: its class events in class order, then its exam
/// event, if any.
pub open spec fn course_skels(c: CourseView, sem: Date, off: int) -> Result<
    Seq<EventSkel>,
    DateTimeError,
> {
    match course_class_skels(c, sem, off, 0) {
        Err(e) => Err(e),
        Ok(evs) => match c.exam {
            None => Ok(evs),
            Some(ex) => Ok(evs.push(exam_skel(c.code, c.title, ex, off))),
        },
    }
}

/// All events of the course list from index `i` on, in course order.
pub open spec fn events_spec(cs: Seq<CourseView>, sem: Date, off: int, i: int) -> Result<
    Seq<EventSkel>,
    DateTimeError,
>
    decreases cs.len() - i,
{
    if i < 0 || i >= cs.len() {
        Ok(Seq::empty())
    } else {
        match course_skels(cs[i], sem, off) {
            Err(e) => Err(e),
            Ok(h) => match events_spec(cs, sem, off, i + 1) {
                Err(e) => Err(e),
                Ok(t) => Ok(h + t),
            },
        }
    }
}

/// A class the expander can work on: its period times are times of day.
pub open spec fn class_wf(c: ClassView) -> bool {
    time_valid(c.period.start) && time_valid(c.period.end)
}

/// A course the expander can work on: every class is well-formed, and an
/// exam, if present, carries a representable date whose instants convert.
pub open spec fn course_wf(c: CourseView, off: int) -> bool {
    &&& forall|j: int| 0 <= j < c.classes.len() ==> class_wf(#[trigger] c.classes[j])
    &&& match c.exam {
        Some(ex) => date_valid(ex.date) && time_valid(ex.period.start) && time_valid(
            ex.period.end,
        ) && event_times(ex.date, ex.period, off) is Some,
        None => true,
    }
}

// ---------------------------------------------------------------------------
// the timestamp form
// ---------------------------------------------------------------------------

pub open spec fn digit_char(d: int) -> char {
    ((48 + d) as u8) as char
}

pub open spec fn two_digits(n: int) -> Seq<char> {
    seq![digit_char(n / 10), digit_char(n % 10)]
}

pub open spec fn four_digits(n: int) -> Seq<char> {
    two_digits(n / 100) + two_digits(n % 100)
}

/// The basic UTC timestamp form `YYYYMMDDTHHMMSSZ`.
pub open spec fn rfc5545_of(u: UtcDateTime) -> Seq<char> {
    four_digits(u.date.year as int) + two_digits(u.date.month as int) + two_digits(
        u.date.day as int,
    ) + seq!['T'] + two_digits(u.hour as int) + two_digits(u.minute as int) + two_digits(
        u.second as int,
    ) + seq!['Z']
}

/// Append a zero-padded two-digit number.
fn push_two(v: &mut Vec<char>, n: u32)
    requires
        n < 100,
    ensures
        final (v)@ == old(v)@ + two_digits(n as int),
{
    let hi: u32 = n / 10;
    let lo: u32 = n % 10;
    v.push(((48 + hi) as u8) as char);
    v.push(((48 + lo) as u8) as char);
    proof {
        assert(v@ =~= old(v)@ + two_digits(n as int));
    }
}

/// Format a UTC instant in the basic timestamp form `YYYYMMDDTHHMMSSZ`.
pub fn to_rfc5545_datetime_with_utc(datetime: &UtcDateTime) -> (r: String)
    requires
        utc_valid(*datetime),
    ensures
        r@ == rfc5545_of(*datetime),
{
    let mut v: Vec<char> = Vec::new();
    let y: u32 = datetime.date.year as u32;
    push_two(&mut v, y / 100);
    push_two(&mut v, y % 100);
    push_two(&mut v, datetime.date.month);
    push_two(&mut v, datetime.date.day);
    v.push('T');
    push_two(&mut v, datetime.hour);
    push_two(&mut v, datetime.minute);
    push_two(&mut v, datetime.second);
    v.push('Z');
    let s = crate::text::chars_to_string(&v);
    proof {
        assert(v@ =~= rfc5545_of(*datetime));
    }
    s
}

// ---------------------------------------------------------------------------
// trusted wrapper around uuid
// ---------------------------------------------------------------------------

/// Relies on uuid's `Uuid::new_v4` and its string form: a freshly generated
/// random token. Nothing can be promised of a random value.
#[verifier::external_body]
fn fresh_token() -> String {
    uuid::Uuid::new_v4().to_string()
}

// ---------------------------------------------------------------------------
// building events
// ---------------------------------------------------------------------------

/// `"<code> - <title> <tail>"`, as the event summary.
fn build_summary(code: &String, title: &String, tail: &String) -> (s: String)
    ensures
        s@ == summary_text(code@, title@, tail@),
{
    let mut s = code.clone();
    s.append(" - ");
    s.append(title.as_str());
    s.append(" ");
    s.append(tail.as_str());
    proof {
        reveal_strlit(" - ");
        reveal_strlit(" ");
        assert(" - "@ =~= seq![' ', '-', ' ']);
        assert(" "@ =~= seq![' ']);
        assert(s@ =~= summary_text(code@, title@, tail@));
    }
    s
}

/// Assemble one event record: a fresh identifier scoped by the course code,
/// the current clock reading, and the given fields.
fn make_event(
    code: &String,
    summary: String,
    start: UtcDateTime,
    end: UtcDateTime,
    category: String,
    location: Option<String>,
) -> (ev: EventRecord)
    ensures
        ev@.uid.len() >= code@.len() + 1,
        ev@.uid.subrange(0, code@.len() as int + 1) == uid_prefix_of(code@),
        utc_valid(ev.created),
        ev@.summary == summary@,
        ev.start == start,
        ev.end == end,
        ev@.category == category@,
        ev@.location == (match location {
            Some(l) => Some(l@),
            None => None::<Seq<char>>,
        }),
{
    let mut uid = code.clone();
    uid.append("-");
    let tok = fresh_token();
    uid.append(tok.as_str());
    proof {
        reveal_strlit("-");
        assert("-"@ =~= seq!['-']);
        assert(uid@.subrange(0, code@.len() as int + 1) =~= uid_prefix_of(code@));
    }
    EventRecord { uid, created: crate::date::creation_stamp(), summary, start, end, category, location }
}

/// Generate the dated events of one class: one per teaching week, anchored
/// at the semester start's ISO week resolved to the class's weekday.
pub fn generate_class_events(
    course_code: &String,
    course_title: &String,
    class: &Class,
    semester_start_date: Date,
    offset_minutes: i32,
) -> (r: Result<Vec<EventRecord>, DateTimeError>)
    requires
        date_valid(semester_start_date),
        -1440 < offset_minutes < 1440,
        class_wf(class@),
    ensures
        match r {
            Ok(evs) => class_skels(
                course_code@,
                course_title@,
                class@,
                semester_start_date,
                offset_minutes as int,
            ) matches Ok(skels) && evs@.len() == skels.len() && forall|i: int|
                0 <= i < skels.len() ==> matches_skel(#[trigger] evs@[i]@, skels[i]),
            Err(e) => class_skels(
                course_code@,
                course_title@,
                class@,
                semester_start_date,
                offset_minutes as int,
            ) == Err::<Seq<EventSkel>, DateTimeError>(e),
        },
{
    let (iy, iw) = crate::date::iso_week_fields(&semester_start_date);
    let err = DateTimeError { year: iy, week: iw, weekday: class.weekday };
    proof {
        assert(err == resolution_err(semester_start_date, class.weekday));
    }
    let first = match crate::date::resolve_iso_ywd(iy, iw, class.weekday) {
        Some(d) => d,
        None => {
            return Err(err);
        },
    };
    if first.year < 0 || first.year > 9999 {
        proof {
            assert(first_date_of(semester_start_date, class.weekday) is None);
        }
        return Err(err);
    }
    proof {
        assert(date_valid(first));
        assert(first_date_of(semester_start_date, class.weekday) == Some(first));
    }
    let ghost code = course_code@;
    let ghost title = course_title@;
    let ghost cv = class@;
    let wn: usize = class.weeks.len();
    let mut evs: Vec<EventRecord> = Vec::new();
    let ghost mut built: Seq<EventSkel> = Seq::empty();
    let mut i: usize = 0;
    proof {
        assert(Seq::<EventSkel>::empty() + Seq::<EventSkel>::empty() =~= Seq::<
            EventSkel,
        >::empty());
    }
    while i < wn
        invariant
            i <= wn,
            wn == class.weeks@.len(),
            cv == class@,
            code == course_code@,
            title == course_title@,
            date_valid(semester_start_date),
            -1440 < offset_minutes < 1440,
            class_wf(cv),
            date_valid(first),
            first_date_of(semester_start_date, class.weekday) == Some(first),
            err == resolution_err(semester_start_date, class.weekday),
            evs@.len() == i,
            built.len() == i,
            forall|j: int| 0 <= j < i ==> matches_skel(#[trigger] evs@[j]@, built[j]),
            class_skels_from(code, title, cv, first, offset_minutes as int, err, 0) == (match class_skels_from(
                code,
                title,
                cv,
                first,
                offset_minutes as int,
                err,
                i as int,
            ) {
                Ok(rest) => Ok::<Seq<EventSkel>, DateTimeError>(built + rest),
                Err(e) => Err::<Seq<EventSkel>, DateTimeError>(e),
            }),
        decreases wn - i,
    {
        let w = class.weeks[i];
        if w == 0 {
            proof {
                assert(occurrence_date(first, cv.weeks[i as int]) is None);
                assert(class_skels_from(code, title, cv, first, offset_minutes as int, err, 0)
                    == Err::<Seq<EventSkel>, DateTimeError>(err));
            }
            return Err(err);
        }
        let ndays: u64 = (w as u64 - 1) * 7;
        proof {
            assert(ndays as nat == (7 * (w - 1)) as nat);
        }
        let occ = match crate::date::add_days(first, ndays) {
            Some(d) => d,
            None => {
                proof {
                    assert(occurrence_date(first, cv.weeks[i as int]) is None);
                    assert(class_skels_from(code, title, cv, first, offset_minutes as int, err, 0)
                        == Err::<Seq<EventSkel>, DateTimeError>(err));
                }
                return Err(err);
            },
        };
        proof {
            assert(occurrence_date(first, cv.weeks[i as int]) == Some(occ));
        }
        let st = match crate::date::convert_local(occ, class.period.start, offset_minutes) {
            Some(u) => u,
            None => {
                proof {
                    assert(event_times(occ, cv.period, offset_minutes as int) is None);
                    assert(class_skels_from(code, title, cv, first, offset_minutes as int, err, 0)
                        == Err::<Seq<EventSkel>, DateTimeError>(err));
                }
                return Err(err);
            },
        };
        let en = match crate::date::convert_local(occ, class.period.end, offset_minutes) {
            Some(u) => u,
            None => {
                proof {
                    assert(event_times(occ, cv.period, offset_minutes as int) is None);
                    assert(class_skels_from(code, title, cv, first, offset_minutes as int, err, 0)
                        == Err::<Seq<EventSkel>, DateTimeError>(err));
                }
                return Err(err);
            },
        };
        proof {
            assert(event_times(occ, cv.period, offset_minutes as int) == Some((st, en)));
        }
        let summary = build_summary(course_code, course_title, &class.class_type);
        let ev = make_event(
            course_code,
            summary,
            st,
            en,
            class.class_type.clone(),
            Some(class.venue.clone()),
        );
        let ghost skel = class_skel_at(code, title, cv, (st, en));
        proof {
            assert(matches_skel(ev@, skel));
        }
        let ghost evs0 = evs@;
        evs.push(ev);
        proof {
            let built0 = built;
            built = built.push(skel);
            assert(evs@ == evs0.push(ev));
            assert forall|j: int| 0 <= j < i + 1 implies matches_skel(
                #[trigger] evs@[j]@,
                built[j],
            ) by {
                if j < i {
                    assert(evs@[j] == evs0[j]);
                    assert(built[j] == built0[j]);
                    assert(matches_skel(evs0[j]@, built0[j]));
                } else {
                    assert(evs@[j] == ev);
                    assert(built[j] == skel);
                }
            }
            let tail_i = class_skels_from(code, title, cv, first, offset_minutes as int, err, i as int);
            let tail_i1 = class_skels_from(
                code,
                title,
                cv,
                first,
                offset_minutes as int,
                err,
                i as int + 1,
            );
            match tail_i1 {
                Ok(rest) => {
                    assert(tail_i == Ok::<Seq<EventSkel>, DateTimeError>(seq![skel] + rest));
                    assert(built0 + (seq![skel] + rest) =~= built + rest);
                },
                Err(e) => {
                    assert(tail_i == Err::<Seq<EventSkel>, DateTimeError>(e));
                },
            }
        }
        i += 1;
    }
    proof {
        assert(class_skels_from(code, title, cv, first, offset_minutes as int, err, wn as int)
            == Ok::<Seq<EventSkel>, DateTimeError>(Seq::empty()));
        assert(built + Seq::<EventSkel>::empty() =~= built);
        assert(class_skels(code, title, cv, semester_start_date, offset_minutes as int) == Ok::<
            Seq<EventSkel>,
            DateTimeError,
        >(built));
    }
    Ok(evs)
}

/// Generate the one event of a course's exam.
pub fn generate_exam_event(
    course_code: &String,
    course_title: &String,
    exam: &Exam,
    offset_minutes: i32,
) -> (ev: EventRecord)
    requires
        date_valid(exam.date),
        time_valid(exam.period.start),
        time_valid(exam.period.end),
        -1440 < offset_minutes < 1440,
        event_times(exam.date, exam.period, offset_minutes as int) is Some,
    ensures
        matches_skel(ev@, exam_skel(course_code@, course_title@, *exam, offset_minutes as int)),
{
    let st = crate::date::convert_local(exam.date, exam.period.start, offset_minutes).unwrap();
    let en = crate::date::convert_local(exam.date, exam.period.end, offset_minutes).unwrap();
    let tail = String::from_str("Exam");
    proof {
        reveal_strlit("Exam");
        assert(tail@ =~= exam_lit());
    }
    let summary = build_summary(course_code, course_title, &tail);
    let cat = String::from_str("Exam");
    proof {
        reveal_strlit("Exam");
        assert(cat@ =~= exam_lit());
    }
    make_event(course_code, summary, st, en, cat, None)
}

/// Generate every event of one course: its class events in class order and
/// week order, then its exam event, if any.
pub fn generate_course_events(course: &Course, semester_start_date: Date, offset_minutes: i32) -> (r:
    Result<Vec<EventRecord>, DateTimeError>)
    requires
        date_valid(semester_start_date),
        -1440 < offset_minutes < 1440,
        course_wf(course@, offset_minutes as int),
    ensures
        match r {
            Ok(evs) => course_skels(course@, semester_start_date, offset_minutes as int) matches Ok(
                skels,
            ) && evs@.len() == skels.len() && forall|i: int|
                0 <= i < skels.len() ==> matches_skel(#[trigger] evs@[i]@, skels[i]),
            Err(e) => course_skels(course@, semester_start_date, offset_minutes as int) == Err::<
                Seq<EventSkel>,
                DateTimeError,
            >(e),
        },
{
    let ghost c = course@;
    let kn: usize = course.classes.len();
    let ghost mut cbuilt: Seq<EventSkel> = Seq::empty();
    let mut cevs: Vec<EventRecord> = Vec::new();
    let mut kj: usize = 0;
    while kj < kn
        invariant
            kj <= kn,
            kn == course.classes@.len(),
            c == course@,
            date_valid(semester_start_date),
            -1440 < offset_minutes < 1440,
            course_wf(c, offset_minutes as int),
            cevs@.len() == cbuilt.len(),
            forall|j: int| 0 <= j < cbuilt.len() ==> matches_skel(#[trigger] cevs@[j]@, cbuilt[j]),
            course_class_skels(c, semester_start_date, offset_minutes as int, 0) == (match course_class_skels(
                c,
                semester_start_date,
                offset_minutes as int,
                kj as int,
            ) {
                Ok(rest) => Ok::<Seq<EventSkel>, DateTimeError>(cbuilt + rest),
                Err(e) => Err::<Seq<EventSkel>, DateTimeError>(e),
            }),
        decreases kn - kj,
    {
        proof {
            assert(c.classes[kj as int] == course.classes@[kj as int]@);
            assert(class_wf(c.classes[kj as int]));
        }
        match generate_class_events(
            &course.code,
            &course.title,
            &course.classes[kj],
            semester_start_date,
            offset_minutes,
        ) {
            Ok(mut sub) => {
                let ghost skels = class_skels(
                    c.code,
                    c.title,
                    c.classes[kj as int],
                    semester_start_date,
                    offset_minutes as int,
                ).unwrap();
                let ghost cevs0 = cevs@;
                let ghost sub0 = sub@;
                cevs.append(&mut sub);
                proof {
                    let cb1 = cbuilt + skels;
                    assert(cevs@ == cevs0 + sub0);
                    assert forall|j: int| 0 <= j < cb1.len() implies matches_skel(
                        #[trigger] cevs@[j]@,
                        cb1[j],
                    ) by {
                        if j < cbuilt.len() {
                            assert(cevs@[j] == cevs0[j]);
                            assert(cb1[j] == cbuilt[j]);
                        } else {
                            assert(cevs@[j] == sub0[j - cbuilt.len()]);
                            assert(cb1[j] == skels[j - cbuilt.len()]);
                        }
                    }
                    let tail_k = course_class_skels(
                        c,
                        semester_start_date,
                        offset_minutes as int,
                        kj as int,
                    );
                    let tail_k1 = course_class_skels(
                        c,
                        semester_start_date,
                        offset_minutes as int,
                        kj as int + 1,
                    );
                    match tail_k1 {
                        Ok(rest) => {
                            assert(tail_k == Ok::<Seq<EventSkel>, DateTimeError>(skels + rest));
                            assert(cbuilt + (skels + rest) =~= (cbuilt + skels) + rest);
                        },
                        Err(e) => {
                            assert(tail_k == Err::<Seq<EventSkel>, DateTimeError>(e));
                        },
                    }
                    cbuilt = cb1;
                }
            },
            Err(e) => {
                proof {
                    assert(course_class_skels(
                        c,
                        semester_start_date,
                        offset_minutes as int,
                        kj as int,
                    ) == Err::<Seq<EventSkel>, DateTimeError>(e));
                    assert(course_skels(c, semester_start_date, offset_minutes as int) == Err::<
                        Seq<EventSkel>,
                        DateTimeError,
                    >(e));
                }
                return Err(e);
            },
        }
        kj += 1;
    }
    proof {
        assert(course_class_skels(c, semester_start_date, offset_minutes as int, kn as int) == Ok::<
            Seq<EventSkel>,
            DateTimeError,
        >(Seq::empty()));
        assert(cbuilt + Seq::<EventSkel>::empty() =~= cbuilt);
        assert(course_class_skels(c, semester_start_date, offset_minutes as int, 0) == Ok::<
            Seq<EventSkel>,
            DateTimeError,
        >(cbuilt));
    }
    // the exam event, if any
    match &course.exam {
        Some(ex) => {
            let ev = generate_exam_event(&course.code, &course.title, ex, offset_minutes);
            let ghost cevs1 = cevs@;
            cevs.push(ev);
            proof {
                let sk = exam_skel(c.code, c.title, *ex, offset_minutes as int);
                let cfull = cbuilt.push(sk);
                assert(c.exam == Some(*ex));
                assert forall|j: int| 0 <= j < cfull.len() implies matches_skel(
                    #[trigger] cevs@[j]@,
                    cfull[j],
                ) by {
                    if j < cbuilt.len() {
                        assert(cevs@[j] == cevs1[j]);
                        assert(cfull[j] == cbuilt[j]);
                    } else {
                        assert(cevs@[j] == ev);
                        assert(cfull[j] == sk);
                    }
                }
                assert(course_skels(c, semester_start_date, offset_minutes as int) == Ok::<
                    Seq<EventSkel>,
                    DateTimeError,
                >(cfull));
            }
        },
        None => {
            proof {
                assert(course_skels(c, semester_start_date, offset_minutes as int) == Ok::<
                    Seq<EventSkel>,
                    DateTimeError,
                >(cbuilt));
            }
        },
    }
    Ok(cevs)
}

/// Generate every event of the course list: for each course its class events
/// in class order and week order, then its exam event, courses in table
/// order. Fails with the ISO triple of the first class whose occurrences
/// cannot be dated.
pub fn generate_events(
    courses: &Vec<Course>,
    semester_start_date: Date,
    offset_minutes: i32,
) -> (r: Result<Vec<EventRecord>, DateTimeError>)
    requires
        date_valid(semester_start_date),
        -1440 < offset_minutes < 1440,
        forall|i: int|
            0 <= i < courses@.len() ==> course_wf((#[trigger] courses@[i])@, offset_minutes as int),
    ensures
        match r {
            Ok(evs) => events_spec(
                courses@.map_values(|c: Course| c@),
                semester_start_date,
                offset_minutes as int,
                0,
            ) matches Ok(skels) && evs@.len() == skels.len() && forall|i: int|
                0 <= i < skels.len() ==> matches_skel(#[trigger] evs@[i]@, skels[i]),
            Err(e) => events_spec(
                courses@.map_values(|c: Course| c@),
                semester_start_date,
                offset_minutes as int,
                0,
            ) == Err::<Seq<EventSkel>, DateTimeError>(e),
        },
{
    let ghost cs = courses@.map_values(|c: Course| c@);
    let cn: usize = courses.len();
    let mut evs: Vec<EventRecord> = Vec::new();
    let ghost mut built: Seq<EventSkel> = Seq::empty();
    let mut ci: usize = 0;
    while ci < cn
        invariant
            ci <= cn,
            cn == courses@.len(),
            cs == courses@.map_values(|c: Course| c@),
            date_valid(semester_start_date),
            -1440 < offset_minutes < 1440,
            forall|i: int|
                0 <= i < courses@.len() ==> course_wf(
                    (#[trigger] courses@[i])@,
                    offset_minutes as int,
                ),
            evs@.len() == built.len(),
            forall|j: int| 0 <= j < built.len() ==> matches_skel(#[trigger] evs@[j]@, built[j]),
            events_spec(cs, semester_start_date, offset_minutes as int, 0) == (match events_spec(
                cs,
                semester_start_date,
                offset_minutes as int,
                ci as int,
            ) {
                Ok(rest) => Ok::<Seq<EventSkel>, DateTimeError>(built + rest),
                Err(e) => Err::<Seq<EventSkel>, DateTimeError>(e),
            }),
        decreases cn - ci,
    {
        let course = &courses[ci];
        let ghost c = cs[ci as int];
        proof {
            assert(c == course@);
            assert(course_wf(c, offset_minutes as int));
        }
        match generate_course_events(course, semester_start_date, offset_minutes) {
            Ok(mut cevs) => {
                let ghost cskels = course_skels(
                    c,
                    semester_start_date,
                    offset_minutes as int,
                ).unwrap();
                let ghost evs0 = evs@;
                let ghost cevs0 = cevs@;
                evs.append(&mut cevs);
                proof {
                    let b1 = built + cskels;
                    assert(evs@ == evs0 + cevs0);
                    assert forall|j: int| 0 <= j < b1.len() implies matches_skel(
                        #[trigger] evs@[j]@,
                        b1[j],
                    ) by {
                        if j < built.len() {
                            assert(evs@[j] == evs0[j]);
                            assert(b1[j] == built[j]);
                        } else {
                            assert(evs@[j] == cevs0[j - built.len()]);
                            assert(b1[j] == cskels[j - built.len()]);
                        }
                    }
                    let tail_c = events_spec(
                        cs,
                        semester_start_date,
                        offset_minutes as int,
                        ci as int,
                    );
                    let tail_c1 = events_spec(
                        cs,
                        semester_start_date,
                        offset_minutes as int,
                        ci as int + 1,
                    );
                    match tail_c1 {
                        Ok(rest) => {
                            assert(tail_c == Ok::<Seq<EventSkel>, DateTimeError>(cskels + rest));
                            assert(built + (cskels + rest) =~= (built + cskels) + rest);
                        },
                        Err(e) => {
                            assert(tail_c == Err::<Seq<EventSkel>, DateTimeError>(e));
                        },
                    }
                    built = b1;
                }
            },
            Err(e) => {
                proof {
                    assert(events_spec(cs, semester_start_date, offset_minutes as int, ci as int)
                        == Err::<Seq<EventSkel>, DateTimeError>(e));
                }
                return Err(e);
            },
        }
        ci += 1;
    }
    proof {
        assert(events_spec(cs, semester_start_date, offset_minutes as int, cn as int) == Ok::<
            Seq<EventSkel>,
            DateTimeError,
        >(Seq::empty()));
        assert(built + Seq::<EventSkel>::empty() =~= built);
        assert(events_spec(cs, semester_start_date, offset_minutes as int, 0) == Ok::<
            Seq<EventSkel>,
            DateTimeError,
        >(built));
    }
    Ok(evs)
}

// ---------------------------------------------------------------------------
// how many events an expansion yields
// ---------------------------------------------------------------------------

/// Class-week pairs of one course, from class index `i` on.
pub open spec fn pairs_in_course(c: CourseView, i: int) -> int
    decreases c.classes.len() - i,
{
    if i < 0 || i >= c.classes.len() {
        0
    } else {
        c.classes[i].weeks.len() + pairs_in_course(c, i + 1)
    }
}

/// Class-week pairs of the course list, from course index `i` on.
pub open spec fn pairs_total(cs: Seq<CourseView>, i: int) -> int
    decreases cs.len() - i,
{
    if i < 0 || i >= cs.len() {
        0
    } else {
        pairs_in_course(cs[i], 0) + pairs_total(cs, i + 1)
    }
}

/// Exam-bearing courses of the list, from course index `i` on.
pub open spec fn exams_total(cs: Seq<CourseView>, i: int) -> int
    decreases cs.len() - i,
{
    if i < 0 || i >= cs.len() {
        0
    } else {
        (if cs[i].exam is Some {
            1int
        } else {
            0int
        }) + exams_total(cs, i + 1)
    }
}

proof fn lemma_class_skels_from_len(
    code: Seq<char>,
    title: Seq<char>,
    c: ClassView,
    first: Date,
    off: int,
    err: DateTimeError,
    i: int,
)
    requires
        0 <= i <= c.weeks.len(),
    ensures
        class_skels_from(code, title, c, first, off, err, i) matches Ok(s) ==> s.len()
            == c.weeks.len() - i,
    decreases c.weeks.len() - i,
{
    if i < c.weeks.len() {
        lemma_class_skels_from_len(code, title, c, first, off, err, i + 1);
    }
}

proof fn lemma_course_class_skels_len(c: CourseView, sem: Date, off: int, i: int)
    requires
        0 <= i <= c.classes.len(),
    ensures
        course_class_skels(c, sem, off, i) matches Ok(s) ==> s.len() == pairs_in_course(c, i),
    decreases c.classes.len() - i,
{
    if i < c.classes.len() {
        lemma_course_class_skels_len(c, sem, off, i + 1);
        match class_skels(c.code, c.title, c.classes[i], sem, off) {
            Ok(h) => {
                match first_date_of(sem, c.classes[i].weekday) {
                    Some(fd) => {
                        lemma_class_skels_from_len(
                            c.code,
                            c.title,
                            c.classes[i],
                            fd,
                            off,
                            resolution_err(sem, c.classes[i].weekday),
                            0,
                        );
                    },
                    None => {},
                }
            },
            Err(_) => {},
        }
    }
}

/// Law: a successful expansion yields exactly one event per class-week pair
/// plus one per exam-bearing course — with the events in course order, within
/// a course in class order then week order, the exam event last.
pub proof fn lemma_event_count(cs: Seq<CourseView>, sem: Date, off: int, i: int)
    requires
        0 <= i <= cs.len(),
    ensures
        events_spec(cs, sem, off, i) matches Ok(skels) ==> skels.len() == pairs_total(cs, i)
            + exams_total(cs, i),
    decreases cs.len() - i,
{
    if i < cs.len() {
        lemma_event_count(cs, sem, off, i + 1);
        lemma_course_class_skels_len(cs[i], sem, off, 0);
    }
}

} // verus!
