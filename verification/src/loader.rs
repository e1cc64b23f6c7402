//! Plan documents: the head count and the start date at the top, then the
//! week in one of two dialects.
//!
//! The first line gives the default head count, the second the start date,
//! each with or without its field name (`People:`, `Start:`). What follows is
//! a table or an outline. A document that holds a table row is a table; one
//! that holds none but has a heading of the second level is an outline.

use crate::error::{ParseError, ParseFault};
use crate::outline::{outline_days, read_outline};
use crate::plan::{DayView, PlanDate, PlanView, WeekPlan};
use crate::table::{is_row_line, line_is_row, line_number, read_table, table_at};
use crate::text::{
    heading_level, heading_level_of, matches_at, numeral, occurs_at, parse_numeral, slice, split,
    split_at_char, text_of, to_chars, trim, trim_bounds, views,
};
use chrono::Datelike;
use vstd::prelude::*;

verus! {

/// The two ways of writing a week.
#[derive(Debug, Clone, Copy, PartialEq, Eq, Structural)]
pub enum Dialect {
    /// Days in columns, time slots in rows.
    Table,
    /// Days as headings, time slots as bullets.
    Outline,
}

/// What `chrono::NaiveDate::parse_from_str` makes of `text` under `format`:
/// year, month and day, or nothing where it reports an error.
pub uninterp spec fn chrono_date(text: Seq<char>, format: Seq<char>) -> Option<(i32, u32, u32)>;

/// The date of a year, a month and a day.
pub open spec fn date_of(parts: Option<(i32, u32, u32)>) -> Option<PlanDate> {
    match parts {
        Some((year, month, day)) => Some(PlanDate { year, month, day }),
        None => None,
    }
}

/// Calls `chrono::NaiveDate::parse_from_str` and reads year, month and day
/// off the date with `Datelike::year`, `month` and `day`. The outcome
/// depends on the two texts alone. A date that comes back has its month
/// between 1 and 12 and its day between 1 and 31, as `Datelike` documents.
#[verifier::external_body]
fn parse_date(text: &str, format: &str) -> (r: Option<PlanDate>)
    ensures
        r == date_of(chrono_date(text@, format@)),
        r matches Some(date) ==> date.in_range(),
{
    match chrono::NaiveDate::parse_from_str(text, format) {
        Ok(date) => Some(PlanDate { year: date.year(), month: date.month(), day: date.day() }),
        Err(_) => None,
    }
}

/// The format of a calendar date: year, month and day in digits, with
/// hyphens between them.
pub open spec fn iso_format() -> Seq<char> {
    seq!['%', 'Y', '-', '%', 'm', '-', '%', 'd']
}

/// The name of the head count field.
pub open spec fn people_field() -> Seq<char> {
    seq!['P', 'e', 'o', 'p', 'l', 'e', ':']
}

/// The name of the start date field.
pub open spec fn start_field() -> Seq<char> {
    seq!['S', 't', 'a', 'r', 't', ':']
}

/// What a line says of a field: the line without the field's name, where it
/// begins with it, and without white space at either end.
pub open spec fn field_text(line: Seq<char>, field: Seq<char>) -> Seq<char> {
    if occurs_at(line, field, 0) {
        trim(line.subrange(field.len() as int, line.len() as int))
    } else {
        trim(line)
    }
}

/// The text of the start date: what the second line says of it; empty where
/// the document has one line only.
pub open spec fn start_text(content: Seq<char>) -> Seq<char> {
    let lines = split(content, '\n');
    if lines.len() >= 2 {
        field_text(lines[1], start_field())
    } else {
        Seq::empty()
    }
}

/// The first line at or after `from` that belongs to a table.
pub open spec fn first_row(lines: Seq<Seq<char>>, from: int) -> Option<int>
    decreases lines.len() - from,
{
    if from < 0 || from >= lines.len() {
        None
    } else if is_row_line(lines[from]) {
        Some(from)
    } else {
        first_row(lines, from + 1)
    }
}

/// The first line at or after `from` that is a heading of the second level.
pub open spec fn first_day_heading(lines: Seq<Seq<char>>, from: int) -> Option<int>
    decreases lines.len() - from,
{
    if from < 0 || from >= lines.len() {
        None
    } else if heading_level(lines[from]) == 2 {
        Some(from)
    } else {
        first_day_heading(lines, from + 1)
    }
}

/// The dialect of a document, from its lines below the two at the top.
pub open spec fn dialect_of(content: Seq<char>) -> Option<Dialect> {
    let lines = split(content, '\n');
    if first_row(lines, 2).is_some() {
        Some(Dialect::Table)
    } else if first_day_heading(lines, 2).is_some() {
        Some(Dialect::Outline)
    } else {
        None
    }
}

/// The days of a document in the given dialect; `Err` with the line and
/// column of the first malformed place. A table begins at the first table
/// row below the two lines at the top; where there is none the document is
/// malformed at its third line.
pub open spec fn days_in(lines: Seq<Seq<char>>, dialect: Dialect) -> Result<
    Seq<DayView>,
    (int, int),
> {
    match dialect {
        Dialect::Table => match first_row(lines, 2) {
            Some(h) => table_at(lines, h),
            None => Err((line_number(lines, 2), 1)),
        },
        Dialect::Outline => outline_days(lines, 2, lines.len() as int),
    }
}

/// The error for a malformed place.
pub open spec fn syntax_fault(place: (int, int)) -> ParseFault {
    ParseFault::PlanSyntaxError { line: place.0 as nat, column: place.1 as nat }
}

/// What the plan document `content` says, given its start date as read from
/// [`start_text`] (`None` where that text is no date).
///
/// The document is malformed at its first line where that holds no head
/// count, at its second where that is missing or holds no date, and
/// otherwise where the table or the outline is.
pub open spec fn plan_of(content: Seq<char>, start: Option<PlanDate>, dialect: Dialect) -> Result<
    PlanView,
    ParseFault,
> {
    let lines = split(content, '\n');
    match numeral(field_text(lines[0], people_field())) {
        None => Err(syntax_fault((1, 1))),
        Some(people) => match start {
            None => Err(syntax_fault((line_number(lines, 1), 1))),
            Some(date) => if lines.len() < 2 {
                Err(syntax_fault((1, 1)))
            } else {
                match days_in(lines, dialect) {
                    Err(place) => Err(syntax_fault(place)),
                    Ok(days) => Ok(
                        PlanView { start_date: date, default_headcount: people, days },
                    ),
                }
            },
        },
    }
}

/// What a line says of a field.
pub fn read_field(line: &Vec<char>, field: &Vec<char>) -> (out: Vec<char>)
    ensures
        out@ == field_text(line@, field@),
{
    if matches_at(line, field, 0) {
        let (lo, hi) = trim_bounds(line, field.len(), line.len());
        slice(line, lo, hi)
    } else {
        let (lo, hi) = trim_bounds(line, 0, line.len());
        assert(line@.subrange(0, line.len() as int) == line@);
        slice(line, lo, hi)
    }
}

/// The first line at or after `from` that belongs to a table.
pub fn find_row(lines: &Vec<Vec<char>>, from: usize) -> (r: Option<usize>)
    ensures
        match r {
            Some(i) => i < lines.len() && first_row(views(lines@), from as int) == Some(i as int),
            None => first_row(views(lines@), from as int).is_none(),
        },
{
    let mut i: usize = from;
    while i < lines.len()
        invariant
            from <= i,
            first_row(views(lines@), from as int) == first_row(views(lines@), i as int),
        decreases lines.len() - i,
    {
        if line_is_row(&lines[i]) {
            return Some(i);
        }
        i += 1;
    }
    None
}

/// The first line at or after `from` that is a heading of the second level.
pub fn find_day_heading(lines: &Vec<Vec<char>>, from: usize) -> (r: Option<usize>)
    ensures
        match r {
            Some(i) => i < lines.len() && first_day_heading(views(lines@), from as int) == Some(
                i as int,
            ),
            None => first_day_heading(views(lines@), from as int).is_none(),
        },
{
    let mut i: usize = from;
    while i < lines.len()
        invariant
            from <= i,
            first_day_heading(views(lines@), from as int) == first_day_heading(
                views(lines@),
                i as int,
            ),
        decreases lines.len() - i,
    {
        if heading_level_of(&lines[i]) == 2 {
            return Some(i);
        }
        i += 1;
    }
    None
}

/// Tells the dialect of a plan document; `None` where it holds neither a
/// table row nor a heading of the second level below its first two lines.
pub fn detect_dialect(content: &str) -> (r: Option<Dialect>)
    ensures
        r == dialect_of(content@),
{
    let lines = split_at_char(&to_chars(content), '\n');
    if find_row(&lines, 2).is_some() {
        Some(Dialect::Table)
    } else if find_day_heading(&lines, 2).is_some() {
        Some(Dialect::Outline)
    } else {
        None
    }
}

/// The text of the start date of a plan document.
pub fn start_date_text(content: &str) -> (out: String)
    ensures
        out@ == start_text(content@),
{
    let lines = split_at_char(&to_chars(content), '\n');
    if lines.len() >= 2 {
        let field: Vec<char> = vec!['S', 't', 'a', 'r', 't', ':'];
        text_of(&read_field(&lines[1], &field))
    } else {
        String::new()
    }
}

/// The error for a malformed place.
fn syntax_error(line: usize, column: usize) -> (e: ParseError)
    ensures
        e@ == syntax_fault((line as int, column as int)),
{
    ParseError::PlanSyntaxError { line, column }
}

/// Reads the plan document `content` in the given dialect, with the start
/// date that was read from its second line.
pub fn plan_from(content: &str, start: Option<PlanDate>, dialect: Dialect) -> (r: Result<
    WeekPlan,
    ParseError,
>)
    ensures
        match r {
            Ok(plan) => plan_of(content@, start, dialect) == Ok::<PlanView, ParseFault>(plan@),
            Err(e) => plan_of(content@, start, dialect) == Err::<PlanView, ParseFault>(e@),
        },
{
    let lines = split_at_char(&to_chars(content), '\n');
    let field: Vec<char> = vec!['P', 'e', 'o', 'p', 'l', 'e', ':'];
    let people = match parse_numeral(&read_field(&lines[0], &field)) {
        Some(people) => people,
        None => {
            return Err(syntax_error(1, 1));
        },
    };
    let date = match start {
        Some(date) => date,
        None => {
            if lines.len() >= 2 {
                return Err(syntax_error(2, 1));
            } else {
                return Err(syntax_error(1, 1));
            }
        },
    };
    if lines.len() < 2 {
        return Err(syntax_error(1, 1));
    }
    let found = match dialect {
        Dialect::Table => match find_row(&lines, 2) {
            Some(h) => read_table(&lines, h),
            None => {
                if lines.len() > 2 {
                    Err((3, 1))
                } else {
                    Err((2, 1))
                }
            },
        },
        Dialect::Outline => read_outline(&lines, 2),
    };
    match found {
        Ok(days) => Ok(WeekPlan { start_date: date, default_headcount: people, days }),
        Err((line, column)) => Err(syntax_error(line, column)),
    }
}

/// The start date of a plan document, as `chrono` reads it.
pub fn read_start_date(content: &str) -> (r: Option<PlanDate>)
    ensures
        r == date_of(chrono_date(start_text(content@), iso_format())),
        r matches Some(date) ==> date.in_range(),
{
    let text = start_date_text(content);
    let format = "%Y-%m-%d";
    proof {
        reveal_strlit("%Y-%m-%d");
        assert(format@ =~= iso_format());
    }
    parse_date(text.as_str(), format)
}

/// Reads plans written as tables.
pub struct MdPlanLoader {}

/// Reads plans written as outlines.
pub struct ListPlanLoader {}

impl MdPlanLoader {
    /// Reads the plan document `content`, written as a table.
    pub fn load(content: &str) -> (r: Result<WeekPlan, ParseError>)
        ensures
            match r {
                Ok(plan) => plan_of(
                    content@,
                    date_of(chrono_date(start_text(content@), iso_format())),
                    Dialect::Table,
                ) == Ok::<PlanView, ParseFault>(plan@),
                Err(e) => plan_of(
                    content@,
                    date_of(chrono_date(start_text(content@), iso_format())),
                    Dialect::Table,
                ) == Err::<PlanView, ParseFault>(e@),
            },
    {
        plan_from(content, read_start_date(content), Dialect::Table)
    }
}

impl ListPlanLoader {
    /// Reads the plan document `content`, written as an outline.
    pub fn load(content: &str) -> (r: Result<WeekPlan, ParseError>)
        ensures
            match r {
                Ok(plan) => plan_of(
                    content@,
                    date_of(chrono_date(start_text(content@), iso_format())),
                    Dialect::Outline,
                ) == Ok::<PlanView, ParseFault>(plan@),
                Err(e) => plan_of(
                    content@,
                    date_of(chrono_date(start_text(content@), iso_format())),
                    Dialect::Outline,
                ) == Err::<PlanView, ParseFault>(e@),
            },
    {
        plan_from(content, read_start_date(content), Dialect::Outline)
    }
}

/// What a plan document says, whichever dialect it is written in. A
/// document of neither dialect is malformed at its third line.
pub open spec fn any_plan_of(content: Seq<char>, start: Option<PlanDate>) -> Result<
    PlanView,
    ParseFault,
> {
    match dialect_of(content) {
        Some(dialect) => plan_of(content, start, dialect),
        None => Err(syntax_fault((line_number(split(content, '\n'), 2), 1))),
    }
}

/// Reads the plan document `content` in the dialect that it is written in.
pub fn load_plan(content: &str) -> (r: Result<WeekPlan, ParseError>)
    ensures
        match r {
            Ok(plan) => any_plan_of(
                content@,
                date_of(chrono_date(start_text(content@), iso_format())),
            ) == Ok::<PlanView, ParseFault>(plan@),
            Err(e) => any_plan_of(
                content@,
                date_of(chrono_date(start_text(content@), iso_format())),
            ) == Err::<PlanView, ParseFault>(e@),
        },
{
    match detect_dialect(content) {
        Some(dialect) => plan_from(content, read_start_date(content), dialect),
        None => {
            let lines = split_at_char(&to_chars(content), '\n');
            if lines.len() > 2 {
                Err(syntax_error(3, 1))
            } else {
                Err(syntax_error(lines.len(), 1))
            }
        },
    }
}

} // verus!
