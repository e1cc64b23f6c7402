//! The small grammar of a plan: what stands in a cell of the table or on a
//! bullet of the outline.
//!
//! A cell is read from left to right. At each position the more specific
//! forms are tried first: the shopping marker, then a reference in double
//! brackets, then a line break. A character that begins none of them is
//! plain text and is passed over.

use crate::plan::{reference_views, MealReference, ReferenceView};
use crate::text::{
    digits_end, find, find_from, index_of, lemma_find_from, matches_at, numeral, occurs_at,
    parse_numeral, scan_to, skip_digits, slice, text_of, trim, trim_bounds,
};
use vstd::prelude::*;

verus! {

/// The marker that calls for a shopping trip.
pub open spec fn shopping_marker() -> Seq<char> {
    seq!['#', 'E', 'i', 'n', 'k', 'a', 'u', 'f']
}

/// The marker that separates the items of one cell.
pub open spec fn break_marker() -> Seq<char> {
    seq!['<', 'b', 'r', '>']
}

/// What opens a reference.
pub open spec fn open_marker() -> Seq<char> {
    seq!['[', '[']
}

/// What closes a reference.
pub open spec fn close_marker() -> Seq<char> {
    seq![']', ']']
}

/// A head count in round brackets at position `p`: the count and the
/// position behind the closing bracket. There is none where the brackets
/// hold anything but digits, or a number that does not fit in 64 bits.
pub open spec fn group_at(s: Seq<char>, p: int) -> Option<(u64, int)> {
    if 0 <= p < s.len() && s[p] == '(' {
        let e = digits_end(s, p + 1);
        if p < e < s.len() && s[e] == ')' {
            match numeral(s.subrange(p + 1, e)) {
                Some(n) => Some((n, e + 1)),
                None => None,
            }
        } else {
            None
        }
    } else {
        None
    }
}

/// A reference that opens at position `p`: the reference and the position
/// behind it. There is none where the brackets are never closed, or hold
/// nothing.
pub open spec fn reference_at(s: Seq<char>, p: int) -> Option<(ReferenceView, int)> {
    match find_from(s, close_marker(), p + 2) {
        Some(q) => if q > p + 2 {
            match group_at(s, q + 2) {
                Some((n, end)) => Some(
                    (
                        ReferenceView {
                            dish_name: s.subrange(p + 2, q),
                            explicit_headcount: Some(n),
                        },
                        end,
                    ),
                ),
                None => Some(
                    (
                        ReferenceView { dish_name: s.subrange(p + 2, q), explicit_headcount: None },
                        q + 2,
                    ),
                ),
            }
        } else {
            None
        },
        None => None,
    }
}

/// What a cell holds: its references in order, and whether it bears the
/// shopping marker.
pub struct CellView {
    pub references: Seq<ReferenceView>,
    pub shopping: bool,
}

/// What `s` holds from position `p` on; `Err` with the position of a
/// reference that is never closed or holds nothing.
pub open spec fn scan_items(s: Seq<char>, p: int) -> Result<CellView, int>
    decreases s.len() - p,
{
    if p < 0 || p >= s.len() {
        Ok(CellView { references: Seq::empty(), shopping: false })
    } else if occurs_at(s, shopping_marker(), p) {
        match scan_items(s, p + 8) {
            Ok(rest) => Ok(CellView { references: rest.references, shopping: true }),
            Err(at) => Err(at),
        }
    } else if occurs_at(s, open_marker(), p) {
        match reference_at(s, p) {
            Some((reference, end)) => if p < end <= s.len() {
                match scan_items(s, end) {
                    Ok(rest) => Ok(
                        CellView {
                            references: seq![reference] + rest.references,
                            shopping: rest.shopping,
                        },
                    ),
                    Err(at) => Err(at),
                }
            } else {
                Err(p)
            },
            None => Err(p),
        }
    } else if occurs_at(s, break_marker(), p) {
        scan_items(s, p + 4)
    } else {
        scan_items(s, p + 1)
    }
}

/// What the cell `s` holds.
pub open spec fn cell_content(s: Seq<char>) -> Result<CellView, int> {
    scan_items(s, 0)
}

/// What stands at the head of a day: its heading and, in round brackets, its
/// head count.
pub struct HeaderView {
    pub heading: Seq<char>,
    pub headcount: Option<u64>,
}

/// The heading of a day. Where the first `(` of the text opens a head count,
/// the heading is all that stands before it, trimmed; otherwise the heading
/// is the whole text, trimmed, and there is no head count.
pub open spec fn header_cell(cell: Seq<char>) -> HeaderView {
    let p = index_of(cell, '(', 0);
    match group_at(cell, p) {
        Some((n, _)) => HeaderView { heading: trim(cell.take(p)), headcount: Some(n) },
        None => HeaderView { heading: trim(cell), headcount: None },
    }
}

/// The label of a time slot: the text trimmed, without the double asterisks
/// where it stands between two pairs of them.
pub open spec fn slot_label(cell: Seq<char>) -> Seq<char> {
    let t = trim(cell);
    if t.len() >= 4 && t[0] == '*' && t[1] == '*' && t[t.len() - 2] == '*' && t[t.len() - 1]
        == '*' {
        t.subrange(2, t.len() - 2)
    } else {
        t
    }
}

/// What has been read so far, followed by what the rest holds.
pub open spec fn followed_by(front: CellView, rest: Result<CellView, int>) -> Result<CellView, int> {
    match rest {
        Ok(back) => Ok(
            CellView {
                references: front.references + back.references,
                shopping: front.shopping || back.shopping,
            },
        ),
        Err(at) => Err(at),
    }
}

/// Reads a head count in round brackets at position `p`.
pub fn read_group(s: &Vec<char>, p: usize) -> (r: Option<(u64, usize)>)
    ensures
        match r {
            Some((n, end)) => group_at(s@, p as int) == Some((n, end as int)) && p < end
                <= s.len(),
            None => group_at(s@, p as int).is_none(),
        },
{
    if p < s.len() && s[p] == '(' {
        let e = skip_digits(s, p + 1);
        if e < s.len() && s[e] == ')' {
            match parse_numeral(&slice(s, p + 1, e)) {
                Some(n) => Some((n, e + 1)),
                None => None,
            }
        } else {
            None
        }
    } else {
        None
    }
}

/// Reads the reference that opens at position `p`.
pub(crate) fn read_reference(s: &Vec<char>, p: usize) -> (r: Option<(MealReference, usize)>)
    requires
        p + 2 <= s.len(),
    ensures
        match r {
            Some((reference, end)) => reference_at(s@, p as int) == Some((reference@, end as int))
                && p < end <= s.len(),
            None => reference_at(s@, p as int).is_none(),
        },
{
    let close: Vec<char> = vec![']', ']'];
    match find(s, &close, p + 2) {
        Some(q) => {
            proof {
                lemma_find_from(s@, close@, p + 2);
            }
            if q > p + 2 {
                let dish_name = text_of(&slice(s, p + 2, q));
                match read_group(s, q + 2) {
                    Some((n, end)) => Some(
                        (MealReference { dish_name, explicit_headcount: Some(n) }, end),
                    ),
                    None => Some((MealReference { dish_name, explicit_headcount: None }, q + 2)),
                }
            } else {
                None
            }
        },
        None => None,
    }
}

/// Reads what the cell `s` holds: its references and whether it bears the
/// shopping marker, or the position at which it is malformed.
pub fn read_cell(s: &Vec<char>) -> (r: Result<(Vec<MealReference>, bool), usize>)
    ensures
        match r {
            Ok((references, shopping)) => cell_content(s@) == Ok::<CellView, int>(
                CellView { references: reference_views(references@), shopping },
            ),
            Err(at) => cell_content(s@) == Err::<CellView, int>(at as int) && at < s.len(),
        },
{
    let shopping_mark: Vec<char> = vec!['#', 'E', 'i', 'n', 'k', 'a', 'u', 'f'];
    let open: Vec<char> = vec!['[', '['];
    let line_break: Vec<char> = vec!['<', 'b', 'r', '>'];
    let mut references: Vec<MealReference> = Vec::new();
    let mut shopping = false;
    let mut p: usize = 0;
    while p < s.len()
        invariant
            p <= s.len(),
            shopping_mark@ == shopping_marker(),
            open@ == open_marker(),
            line_break@ == break_marker(),
            cell_content(s@) == followed_by(
                CellView { references: reference_views(references@), shopping },
                scan_items(s@, p as int),
            ),
        decreases s.len() - p,
    {
        let ghost front = reference_views(references@);
        if matches_at(s, &shopping_mark, p) {
            shopping = true;
            p += 8;
        } else if matches_at(s, &open, p) {
            match read_reference(s, p) {
                Some((reference, end)) => {
                    references.push(reference);
                    assert(reference_views(references@) =~= front.push(reference@));
                    proof {
                        if let Ok(rest) = scan_items(s@, end as int) {
                            assert(front + (seq![reference@] + rest.references) =~= front.push(
                                reference@,
                            ) + rest.references);
                        }
                    }
                    p = end;
                },
                None => {
                    return Err(p);
                },
            }
        } else if matches_at(s, &line_break, p) {
            p += 4;
        } else {
            p += 1;
        }
    }
    Ok((references, shopping))
}

/// Reads the heading of a day: its text and its head count.
pub fn read_header(cell: &Vec<char>) -> (r: (String, Option<u64>))
    ensures
        header_cell(cell@) == (HeaderView { heading: r.0@, headcount: r.1 }),
{
    let p = scan_to(cell, '(', 0, cell.len());
    assert(cell@.take(cell.len() as int) == cell@);
    match read_group(cell, p) {
        Some((n, _)) => {
            let (lo, hi) = trim_bounds(cell, 0, p);
            (text_of(&slice(cell, lo, hi)), Some(n))
        },
        None => {
            let (lo, hi) = trim_bounds(cell, 0, cell.len());
            (text_of(&slice(cell, lo, hi)), None)
        },
    }
}

/// Reads the label of a time slot.
pub fn read_label(cell: &Vec<char>) -> (r: String)
    ensures
        r@ == slot_label(cell@),
{
    let (lo, hi) = trim_bounds(cell, 0, cell.len());
    assert(cell@.subrange(0, cell.len() as int) == cell@);
    let t = slice(cell, lo, hi);
    let n = t.len();
    if n >= 4 && t[0] == '*' && t[1] == '*' && t[n - 2] == '*' && t[n - 1] == '*' {
        text_of(&slice(&t, 2, n - 2))
    } else {
        text_of(&t)
    }
}

} // verus!
