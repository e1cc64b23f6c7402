//! The table dialect of a plan: days in columns, time slots in rows.
//!
//! A table is a header row, a divider row and one meal row or more, each on
//! a line of its own that begins and ends with `|`. The first cell of the
//! header is a corner that names no day; each further cell heads a day. The
//! first cell of a meal row names the time slot; each further cell holds
//! what is eaten in that slot on the day of its column.

use crate::error::{ParseError, ParseFault};
use crate::grammar::{
    cell_content, header_cell, read_cell, read_header, read_label, slot_label, CellView,
    HeaderView,
};
use crate::plan::{
    copy_references, day_views, reference_views, Day, DayView, MealReference, MealSlot, SlotView,
};
use crate::text::{
    piece_offset, slice, split, split_at_char, to_chars, trim_end, trim_end_bound, views,
};
use vstd::prelude::*;

verus! {

/// Whether the line belongs to a table: it begins with `|`.
pub open spec fn is_row_line(line: Seq<char>) -> bool {
    line.len() > 0 && line[0] == '|'
}

/// The cells of a row: what stands between its first and its last `|`, cut
/// at every `|` in between. Trailing white space does not count. A line that
/// does not begin and end with `|` is no row.
pub open spec fn row_cells(line: Seq<char>) -> Option<Seq<Seq<char>>> {
    let t = trim_end(line);
    if t.len() >= 2 && t[0] == '|' && t[t.len() - 1] == '|' {
        Some(split(t.subrange(1, t.len() - 1), '|'))
    } else {
        None
    }
}

/// The column, counted from one, of position `p` in cell `j` of a row.
pub open spec fn column_of(cells: Seq<Seq<char>>, j: int, p: int) -> int {
    piece_offset(cells, j) + p + 2
}

/// Whether the cell is made of dashes, colons and spaces, and not empty.
pub open spec fn is_divider_cell(cell: Seq<char>) -> bool {
    cell.len() > 0 && forall|i: int|
        0 <= i < cell.len() ==> (#[trigger] cell[i]) == '-' || cell[i] == ':' || cell[i] == ' '
}

/// Whether the line is a divider row of `width` cells.
pub open spec fn is_divider(line: Seq<char>, width: int) -> bool {
    match row_cells(line) {
        Some(cells) => cells.len() == width && forall|k: int|
            0 <= k < cells.len() ==> is_divider_cell(#[trigger] cells[k]),
        None => false,
    }
}

/// A meal row: the label of its time slot and what each day's cell holds.
pub struct RowView {
    pub label: Seq<char>,
    pub cells: Seq<CellView>,
}

/// What the cells `cells[1..n]` hold; `Err` with the column of the first
/// malformed reference.
pub open spec fn day_cells(cells: Seq<Seq<char>>, n: int) -> Result<Seq<CellView>, int>
    decreases n,
{
    if n <= 1 {
        Ok(Seq::empty())
    } else {
        match day_cells(cells, n - 1) {
            Err(column) => Err(column),
            Ok(front) => match cell_content(cells[n - 1]) {
                Err(p) => Err(column_of(cells, n - 1, p)),
                Ok(cell) => Ok(front.push(cell)),
            },
        }
    }
}

/// The meal row on `line`, which must have `width` cells; `Err` with the
/// column at which the line is malformed.
pub open spec fn meal_row(line: Seq<char>, width: int) -> Result<RowView, int> {
    match row_cells(line) {
        None => Err(1),
        Some(cells) => if cells.len() != width {
            Err(1)
        } else {
            match day_cells(cells, cells.len() as int) {
                Err(column) => Err(column),
                Ok(content) => Ok(RowView { label: slot_label(cells[0]), cells: content }),
            }
        },
    }
}

/// The meal rows on the lines `from..to`; `Err` with the line, counted from
/// one, and the column of the first malformed place.
pub open spec fn meal_rows(lines: Seq<Seq<char>>, from: int, to: int, width: int) -> Result<
    Seq<RowView>,
    (int, int),
>
    decreases to - from,
{
    if to <= from {
        Ok(Seq::empty())
    } else {
        match meal_rows(lines, from, to - 1, width) {
            Err(place) => Err(place),
            Ok(front) => match meal_row(lines[to - 1], width) {
                Err(column) => Err((to, column)),
                Ok(row) => Ok(front.push(row)),
            },
        }
    }
}

/// The first line at or after `from` that belongs to no table.
pub open spec fn rows_end(lines: Seq<Seq<char>>, from: int) -> int
    decreases lines.len() - from,
{
    if 0 <= from < lines.len() && is_row_line(lines[from]) {
        rows_end(lines, from + 1)
    } else {
        from
    }
}

/// The headers of the cells of a header row.
pub open spec fn headers(cells: Seq<Seq<char>>) -> Seq<HeaderView> {
    Seq::new(cells.len(), |k: int| header_cell(cells[k]))
}

/// The slot of day `d` in a row.
pub open spec fn slot_of(row: RowView, d: int) -> SlotView {
    SlotView {
        label: row.label,
        references: row.cells[d].references,
        shopping_flag: row.cells[d].shopping,
    }
}

/// The days of a table: one for each header cell but the corner, and in each
/// day one slot for each meal row.
pub open spec fn days_of(header: Seq<HeaderView>, rows: Seq<RowView>) -> Seq<DayView> {
    Seq::new(
        (header.len() - 1) as nat,
        |d: int|
            DayView {
                heading: header[d + 1].heading,
                headcount: header[d + 1].headcount,
                slots: Seq::new(rows.len(), |r: int| slot_of(rows[r], d)),
            },
    )
}

/// The number of line `i`, counted from one; that of the last line where
/// the document ends before line `i`.
pub open spec fn line_number(lines: Seq<Seq<char>>, i: int) -> int {
    if i < lines.len() {
        i + 1
    } else {
        lines.len() as int
    }
}

/// The days of the table whose header row is line `h`; `Err` with the line
/// and column of the first malformed place.
///
/// The header must be a row. The line below it must be a divider row of as
/// many cells. Below that stand the meal rows, down to the first line that
/// does not begin with `|`: one at least, each of as many cells as the
/// header.
pub open spec fn table_at(lines: Seq<Seq<char>>, h: int) -> Result<Seq<DayView>, (int, int)> {
    match row_cells(lines[h]) {
        None => Err((h + 1, 1)),
        Some(head) => if h + 1 >= lines.len() || !is_divider(lines[h + 1], head.len() as int) {
            Err((line_number(lines, h + 1), 1))
        } else {
            let end = rows_end(lines, h + 2);
            if end <= h + 2 {
                Err((line_number(lines, h + 2), 1))
            } else {
                match meal_rows(lines, h + 2, end, head.len() as int) {
                    Err(place) => Err(place),
                    Ok(rows) => Ok(days_of(headers(head), rows)),
                }
            }
        },
    }
}

/// The cells of a row.
pub fn read_row_cells(line: &Vec<char>) -> (r: Option<Vec<Vec<char>>>)
    ensures
        match r {
            Some(cells) => row_cells(line@) == Some(views(cells@)) && cells.len() >= 1
                && forall|k: int|
                0 <= k < cells.len() ==> piece_offset(views(cells@), k) + (
                #[trigger] cells@[k]).len() + 2 <= line.len(),
            None => row_cells(line@).is_none(),
        },
{
    let n = trim_end_bound(line);
    if n >= 2 && line[0] == '|' && line[n - 1] == '|' {
        let inner = slice(line, 1, n - 1);
        assert(line@.take(n as int).subrange(1, n - 1) == line@.subrange(1, n - 1));
        Some(split_at_char(&inner, '|'))
    } else {
        None
    }
}

/// What one cell of a meal row holds.
pub struct Cell {
    pub references: Vec<MealReference>,
    pub shopping: bool,
}

/// One meal row.
pub struct Row {
    pub label: String,
    pub cells: Vec<Cell>,
}

impl View for Cell {
    type V = CellView;

    open spec fn view(&self) -> CellView {
        CellView { references: reference_views(self.references@), shopping: self.shopping }
    }
}

/// The views of a vector of cells.
pub open spec fn cell_views(v: Seq<Cell>) -> Seq<CellView> {
    Seq::new(v.len(), |i: int| v[i]@)
}

impl View for Row {
    type V = RowView;

    open spec fn view(&self) -> RowView {
        RowView { label: self.label@, cells: cell_views(self.cells@) }
    }
}

/// The views of a vector of rows.
pub open spec fn row_views(v: Seq<Row>) -> Seq<RowView> {
    Seq::new(v.len(), |i: int| v[i]@)
}

/// Whether the cell is made of dashes, colons and spaces, and not empty.
pub fn reads_as_divider_cell(cell: &Vec<char>) -> (r: bool)
    ensures
        r == is_divider_cell(cell@),
{
    if cell.len() == 0 {
        return false;
    }
    let mut i: usize = 0;
    while i < cell.len()
        invariant
            i <= cell.len(),
            forall|j: int|
                0 <= j < i ==> (#[trigger] cell@[j]) == '-' || cell@[j] == ':' || cell@[j] == ' ',
        decreases cell.len() - i,
    {
        let c = cell[i];
        if !(c == '-' || c == ':' || c == ' ') {
            return false;
        }
        i += 1;
    }
    true
}

/// Whether the line is a divider row of `width` cells.
pub fn reads_as_divider(line: &Vec<char>, width: usize) -> (r: bool)
    ensures
        r == is_divider(line@, width as int),
{
    match read_row_cells(line) {
        Some(cells) => {
            if cells.len() != width {
                return false;
            }
            let mut k: usize = 0;
            while k < cells.len()
                invariant
                    k <= cells.len(),
                    cells.len() == width,
                    row_cells(line@) == Some(views(cells@)),
                    forall|j: int| 0 <= j < k ==> is_divider_cell(#[trigger] views(cells@)[j]),
                decreases cells.len() - k,
            {
                assert(views(cells@)[k as int] == cells@[k as int]@);
                if !reads_as_divider_cell(&cells[k]) {
                    return false;
                }
                k += 1;
            }
            true
        },
        None => false,
    }
}

/// A malformed cell makes the whole row malformed, at the same column.
pub proof fn lemma_day_cells_fail(cells: Seq<Seq<char>>, m: int, n: int)
    requires
        m <= n,
        day_cells(cells, m).is_err(),
    ensures
        day_cells(cells, n) == day_cells(cells, m),
    decreases n - m,
{
    if m < n {
        lemma_day_cells_fail(cells, m, n - 1);
    }
}

/// Reads the meal row on `line`, which must have `width` cells.
pub fn read_meal_row(line: &Vec<char>, width: usize) -> (r: Result<Row, usize>)
    ensures
        match r {
            Ok(row) => meal_row(line@, width as int) == Ok::<RowView, int>(row@) && row.cells.len()
                + 1 == width,
            Err(column) => meal_row(line@, width as int) == Err::<RowView, int>(column as int),
        },
{
    let cells = match read_row_cells(line) {
        Some(cells) => cells,
        None => {
            return Err(1);
        },
    };
    if cells.len() != width {
        return Err(1);
    }
    let mut content: Vec<Cell> = Vec::new();
    let mut j: usize = 1;
    assert(cell_views(content@) =~= Seq::empty());
    while j < cells.len()
        invariant
            1 <= j <= cells.len(),
            content.len() + 1 == j,
            cells.len() == width,
            row_cells(line@) == Some(views(cells@)),
            day_cells(views(cells@), j as int) == Ok::<Seq<CellView>, int>(cell_views(content@)),
            forall|k: int|
                0 <= k < cells.len() ==> piece_offset(views(cells@), k) + (
                #[trigger] cells@[k]).len() + 2 <= line.len(),
        decreases cells.len() - j,
    {
        match read_cell(&cells[j]) {
            Ok((references, shopping)) => {
                let ghost before = cell_views(content@);
                let cell = Cell { references, shopping };
                content.push(cell);
                assert(cell_views(content@) =~= before.push(cell@));
            },
            Err(p) => {
                let mut offset: usize = 0;
                let mut i: usize = 0;
                while i < j
                    invariant
                        i <= j < cells.len(),
                        offset == piece_offset(views(cells@), i as int),
                        forall|k: int|
                            0 <= k < cells.len() ==> piece_offset(views(cells@), k) + (
                            #[trigger] cells@[k]).len() + 2 <= line.len(),
                    decreases j - i,
                {
                    offset = offset + cells[i].len() + 1;
                    i += 1;
                }
                proof {
                    lemma_day_cells_fail(views(cells@), j + 1, cells.len() as int);
                }
                return Err(offset + p + 2);
            },
        }
        j += 1;
    }
    Ok(Row { label: read_label(&cells[0]), cells: content })
}

/// A malformed row makes the whole table malformed, at the same place.
pub proof fn lemma_meal_rows_fail(lines: Seq<Seq<char>>, from: int, m: int, n: int, width: int)
    requires
        m <= n,
        meal_rows(lines, from, m, width).is_err(),
    ensures
        meal_rows(lines, from, n, width) == meal_rows(lines, from, m, width),
    decreases n - m,
{
    if m < n {
        lemma_meal_rows_fail(lines, from, m, n - 1, width);
    }
}

/// Whether the line belongs to a table.
pub fn line_is_row(line: &Vec<char>) -> (r: bool)
    ensures
        r == is_row_line(line@),
{
    line.len() > 0 && line[0] == '|'
}

/// The days of a table, from its header cells and its meal rows.
pub(crate) fn build_days(head: &Vec<Vec<char>>, rows: &Vec<Row>) -> (days: Vec<Day>)
    requires
        head.len() >= 1,
        forall|r: int| 0 <= r < rows.len() ==> (#[trigger] rows@[r]).cells.len() + 1 == head.len(),
    ensures
        day_views(days@) == days_of(headers(views(head@)), row_views(rows@)),
{
    let mut days: Vec<Day> = Vec::new();
    let mut d: usize = 0;
    while d + 1 < head.len()
        invariant
            d + 1 <= head.len(),
            days.len() == d,
            forall|r: int|
                0 <= r < rows.len() ==> (#[trigger] rows@[r]).cells.len() + 1 == head.len(),
            forall|k: int|
                0 <= k < d ==> (#[trigger] days@[k])@ == days_of(
                    headers(views(head@)),
                    row_views(rows@),
                )[k],
        decreases head.len() - d,
    {
        let (heading, headcount) = read_header(&head[d + 1]);
        let mut slots: Vec<MealSlot> = Vec::new();
        let mut r: usize = 0;
        while r < rows.len()
            invariant
                r <= rows.len(),
                d + 1 < head.len(),
                slots.len() == r,
                forall|i: int|
                    0 <= i < rows.len() ==> (#[trigger] rows@[i]).cells.len() + 1 == head.len(),
                forall|i: int|
                    0 <= i < r ==> (#[trigger] slots@[i])@ == slot_of(row_views(rows@)[i], d as int),
            decreases rows.len() - r,
        {
            let row = &rows[r];
            let cell = &row.cells[d];
            slots.push(
                MealSlot {
                    label: row.label.clone(),
                    references: copy_references(&cell.references),
                    shopping_flag: cell.shopping,
                },
            );
            r += 1;
        }
        let day = Day { heading, headcount, slots };
        assert(day@.slots =~= Seq::new(
            row_views(rows@).len(),
            |i: int| slot_of(row_views(rows@)[i], d as int),
        ));
        days.push(day);
        d += 1;
    }
    days
}

/// Reads the table whose header row is line `h`.
pub(crate) fn read_table(lines: &Vec<Vec<char>>, h: usize) -> (r: Result<Vec<Day>, (usize, usize)>)
    requires
        h < lines.len(),
    ensures
        match r {
            Ok(days) => table_at(views(lines@), h as int) == Ok::<Seq<DayView>, (int, int)>(
                day_views(days@),
            ),
            Err((line, column)) => table_at(views(lines@), h as int) == Err::<
                Seq<DayView>,
                (int, int),
            >((line as int, column as int)),
        },
{
    let ghost all = views(lines@);
    let head = match read_row_cells(&lines[h]) {
        Some(head) => head,
        None => {
            return Err((h + 1, 1));
        },
    };
    if h + 1 >= lines.len() {
        return Err((lines.len(), 1));
    }
    if !reads_as_divider(&lines[h + 1], head.len()) {
        return Err((h + 2, 1));
    }
    let mut end: usize = h + 2;
    while end < lines.len() && line_is_row(&lines[end])
        invariant
            h + 2 <= end <= lines.len(),
            all == views(lines@),
            rows_end(all, h + 2) == rows_end(all, end as int),
        decreases lines.len() - end,
    {
        end += 1;
    }
    if end <= h + 2 {
        if h + 2 < lines.len() {
            return Err((h + 3, 1));
        } else {
            return Err((lines.len(), 1));
        }
    }
    let mut rows: Vec<Row> = Vec::new();
    let mut i: usize = h + 2;
    assert(row_views(rows@) =~= Seq::empty());
    while i < end
        invariant
            h + 2 <= i <= end <= lines.len(),
            head.len() >= 1,
            all == views(lines@),
            row_cells(all[h as int]) == Some(views(head@)),
            is_divider(all[h + 1], head.len() as int),
            end == rows_end(all, h + 2),
            meal_rows(all, h + 2, i as int, head.len() as int) == Ok::<Seq<RowView>, (int, int)>(
                row_views(rows@),
            ),
            forall|r: int|
                0 <= r < rows.len() ==> (#[trigger] rows@[r]).cells.len() + 1 == head.len(),
        decreases end - i,
    {
        match read_meal_row(&lines[i], head.len()) {
            Ok(row) => {
                let ghost before = row_views(rows@);
                rows.push(row);
                assert(row_views(rows@) =~= before.push(row@));
            },
            Err(column) => {
                proof {
                    lemma_meal_rows_fail(all, h + 2, i + 1, end as int, head.len() as int);
                }
                return Err((i + 1, column));
            },
        }
        i += 1;
    }
    Ok(build_days(&head, &rows))
}

/// The head counts of a header row, one for each cell, the corner included.
pub open spec fn row_headcounts(row: Seq<char>) -> Option<Seq<Option<u64>>> {
    match row_cells(row) {
        Some(cells) => Some(Seq::new(cells.len(), |k: int| header_cell(cells[k]).headcount)),
        None => None,
    }
}

/// Reads the head counts of a header row, one for each cell, the corner
/// included. A row that does not begin and end with `|` is malformed.
pub fn header_row(row: &str) -> (r: Result<Vec<Option<u64>>, ParseError>)
    ensures
        match r {
            Ok(counts) => row_headcounts(row@) == Some(counts@),
            Err(e) => row_headcounts(row@).is_none() && e@ == (ParseFault::PlanSyntaxError {
                line: 1,
                column: 1,
            }),
        },
{
    let line = to_chars(row);
    match read_row_cells(&line) {
        Some(cells) => {
            let mut counts: Vec<Option<u64>> = Vec::new();
            let mut k: usize = 0;
            while k < cells.len()
                invariant
                    k <= cells.len(),
                    counts.len() == k,
                    forall|j: int|
                        0 <= j < k ==> (#[trigger] counts@[j]) == header_cell(
                            views(cells@)[j],
                        ).headcount,
                decreases cells.len() - k,
            {
                let (_, headcount) = read_header(&cells[k]);
                counts.push(headcount);
                k += 1;
            }
            Ok(counts)
        },
        None => Err(ParseError::PlanSyntaxError { line: 1, column: 1 }),
    }
}

/// A day's heading and head count.
#[derive(Debug, Clone, PartialEq, Eq)]
pub struct DayHeader {
    pub heading: String,
    pub headcount: Option<u64>,
}

/// Reads the header cell of one day: its heading and, where the first `(`
/// opens one, its head count.
pub fn header(cell: &str) -> (r: DayHeader)
    ensures
        header_cell(cell@) == (HeaderView { heading: r.heading@, headcount: r.headcount }),
{
    let (heading, headcount) = read_header(&to_chars(cell));
    DayHeader { heading, headcount }
}

/// Reads a table that begins on the first line of `text`.
pub fn table(text: &str) -> (r: Result<Vec<Day>, ParseError>)
    ensures
        match r {
            Ok(days) => table_at(split(text@, '\n'), 0) == Ok::<Seq<DayView>, (int, int)>(
                day_views(days@),
            ),
            Err(e) => match table_at(split(text@, '\n'), 0) {
                Err(place) => e@ == (ParseFault::PlanSyntaxError {
                    line: place.0 as nat,
                    column: place.1 as nat,
                }),
                Ok(_) => false,
            },
        },
{
    let lines = split_at_char(&to_chars(text), '\n');
    match read_table(&lines, 0) {
        Ok(days) => Ok(days),
        Err((line, column)) => Err(ParseError::PlanSyntaxError { line, column }),
    }
}

} // verus!
