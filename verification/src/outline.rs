//! The outline dialect of a plan: days as headings, time slots as bullets.
//!
//! A heading of the second level opens a day. Under it, a bullet at the left
//! margin opens a slot, and an indented bullet adds to the slot above it.
//! Every other line is passed over, and so is a bullet that stands under no
//! day.

use crate::grammar::{cell_content, header_cell, read_cell, read_header, CellView};
use crate::plan::{day_views, reference_views, slot_views, Day, DayView, MealSlot, SlotView};
use crate::text::{
    heading_level, heading_level_of, skip_spaces, slice, spaces_end, text_of, trim, trim_bounds,
    views,
};
use vstd::prelude::*;

verus! {

/// The day with one more slot at its end.
pub open spec fn with_slot(day: DayView, slot: SlotView) -> DayView {
    DayView { heading: day.heading, headcount: day.headcount, slots: day.slots.push(slot) }
}

/// The slot with what `cell` holds added to it.
pub open spec fn extended(slot: SlotView, cell: CellView) -> SlotView {
    SlotView {
        label: slot.label,
        references: slot.references + cell.references,
        shopping_flag: slot.shopping_flag || cell.shopping,
    }
}

/// The days after one more line; `Err` with the column of a malformed
/// reference.
///
/// A heading of the second level adds a day, read as a header cell is. A
/// bullet under a day is read as a cell is. At the left margin, or as the
/// first bullet of its day, it opens a slot whose label is its text,
/// trimmed; indented, it adds to the day's last slot.
pub open spec fn outline_line(days: Seq<DayView>, line: Seq<char>) -> Result<Seq<DayView>, int> {
    let a = spaces_end(line, 0);
    if heading_level(line) == 2 {
        let head = header_cell(line.subrange(2, line.len() as int));
        Ok(days.push(DayView { heading: head.heading, headcount: head.headcount, slots: Seq::empty() }))
    } else if 0 <= a < line.len() && line[a] == '-' && days.len() > 0 {
        let content = line.subrange(a + 1, line.len() as int);
        let day = days.last();
        match cell_content(content) {
            Err(p) => Err(a + p + 2),
            Ok(cell) => if a == 0 || day.slots.len() == 0 {
                Ok(
                    days.drop_last().push(
                        with_slot(
                            day,
                            SlotView {
                                label: trim(content),
                                references: cell.references,
                                shopping_flag: cell.shopping,
                            },
                        ),
                    ),
                )
            } else {
                Ok(
                    days.drop_last().push(
                        DayView {
                            heading: day.heading,
                            headcount: day.headcount,
                            slots: day.slots.drop_last().push(extended(day.slots.last(), cell)),
                        },
                    ),
                )
            },
        }
    } else {
        Ok(days)
    }
}

/// The days of the lines `from..to`; `Err` with the line, counted from one,
/// and the column of the first malformed reference.
pub open spec fn outline_days(lines: Seq<Seq<char>>, from: int, to: int) -> Result<
    Seq<DayView>,
    (int, int),
>
    decreases to - from,
{
    if to <= from {
        Ok(Seq::empty())
    } else {
        match outline_days(lines, from, to - 1) {
            Err(place) => Err(place),
            Ok(days) => match outline_line(days, lines[to - 1]) {
                Err(column) => Err((to, column)),
                Ok(more) => Ok(more),
            },
        }
    }
}

/// A malformed line makes the whole outline malformed, at the same place.
pub proof fn lemma_outline_fail(lines: Seq<Seq<char>>, from: int, m: int, n: int)
    requires
        m <= n,
        outline_days(lines, from, m).is_err(),
    ensures
        outline_days(lines, from, n) == outline_days(lines, from, m),
    decreases n - m,
{
    if m < n {
        lemma_outline_fail(lines, from, m, n - 1);
    }
}

/// Takes one more line into `days`.
pub fn read_outline_line(days: &mut Vec<Day>, line: &Vec<char>) -> (r: Result<(), usize>)
    ensures
        match r {
            Ok(()) => outline_line(day_views(old(days)@), line@) == Ok::<Seq<DayView>, int>(
                day_views(final(days)@),
            ),
            Err(column) => outline_line(day_views(old(days)@), line@) == Err::<Seq<DayView>, int>(
                column as int,
            ),
        },
{
    let ghost before = day_views(days@);
    let a = skip_spaces(line, 0);
    if heading_level_of(line) == 2 {
        let (heading, headcount) = read_header(&slice(line, 2, line.len()));
        let day = Day { heading, headcount, slots: Vec::new() };
        assert(day@.slots =~= Seq::empty());
        days.push(day);
        assert(day_views(days@) =~= before.push(day@));
        Ok(())
    } else if a < line.len() && line[a] == '-' && days.len() > 0 {
        let content = slice(line, a + 1, line.len());
        let (references, shopping) = match read_cell(&content) {
            Ok(cell) => cell,
            Err(p) => {
                return Err(a + p + 2);
            },
        };
        let ghost cell = CellView { references: reference_views(references@), shopping };
        let mut day = days.pop().unwrap();
        assert(day_views(days@) =~= before.drop_last());
        let ghost rest = day_views(days@);
        let ghost old_slots = slot_views(day.slots@);
        if a == 0 || day.slots.len() == 0 {
            let (lo, hi) = trim_bounds(&content, 0, content.len());
            assert(content@.subrange(0, content.len() as int) == content@);
            let slot = MealSlot {
                label: text_of(&slice(&content, lo, hi)),
                references,
                shopping_flag: shopping,
            };
            day.slots.push(slot);
            assert(slot_views(day.slots@) =~= old_slots.push(slot@));
        } else {
            let mut slot = day.slots.pop().unwrap();
            let ghost old_slot = slot@;
            let mut references = references;
            slot.references.append(&mut references);
            slot.shopping_flag = slot.shopping_flag || shopping;
            assert(slot@.references =~= old_slot.references + cell.references);
            day.slots.push(slot);
            assert(slot_views(day.slots@) =~= old_slots.drop_last().push(slot@));
        }
        days.push(day);
        assert(day_views(days@) =~= rest.push(day@));
        Ok(())
    } else {
        Ok(())
    }
}

/// Reads the days of the lines `from..`.
pub(crate) fn read_outline(lines: &Vec<Vec<char>>, from: usize) -> (r: Result<Vec<Day>, (usize, usize)>)
    requires
        from <= lines.len(),
    ensures
        match r {
            Ok(days) => outline_days(views(lines@), from as int, lines.len() as int) == Ok::<
                Seq<DayView>,
                (int, int),
            >(day_views(days@)),
            Err((line, column)) => outline_days(views(lines@), from as int, lines.len() as int)
                == Err::<Seq<DayView>, (int, int)>((line as int, column as int)),
        },
{
    let mut days: Vec<Day> = Vec::new();
    let mut i: usize = from;
    assert(day_views(days@) =~= Seq::empty());
    while i < lines.len()
        invariant
            from <= i <= lines.len(),
            outline_days(views(lines@), from as int, i as int) == Ok::<Seq<DayView>, (int, int)>(
                day_views(days@),
            ),
        decreases lines.len() - i,
    {
        match read_outline_line(&mut days, &lines[i]) {
            Ok(()) => {},
            Err(column) => {
                proof {
                    lemma_outline_fail(views(lines@), from as int, i + 1, lines.len() as int);
                }
                return Err((i + 1, column));
            },
        }
        i += 1;
    }
    Ok(days)
}

} // verus!
