//! Going to a line, a page, a percentage or an offset of a document.

use vstd::prelude::*;

verus! {

/// `value`, brought into the range from `low` to `high`.
pub open spec fn clamped(value: int, low: int, high: int) -> int {
    if value < low {
        low
    } else if value > high {
        high
    } else {
        value
    }
}

/// The current line and the last line that the dialog for going to a line offers.
pub struct LineRange {
    pub current: i32,
    pub last: i32,
}

/// What the dialog for going to a line offers for a document with `line_count` lines and the caret in
/// line `line_number`: a document has at least one line, and the dialog counts up to the largest
/// `i32`.
pub fn line_range(line_number: i64, line_count: i64) -> (r: LineRange)
    ensures
        ({
            let total = if line_count < 1 {
                1int
            } else {
                line_count as int
            };
            &&& r.last == clamped(total, 1, i32::MAX as int)
            &&& r.current == clamped(clamped(line_number as int, 1, total), 1, i32::MAX as int)
        }),
        1 <= r.current <= r.last,
{
    let total: i64 = if line_count < 1 {
        1
    } else {
        line_count
    };
    let line: i64 = if line_number < 1 {
        1
    } else if line_number > total {
        total
    } else {
        line_number
    };
    LineRange { current: saturated(line), last: saturated(total) }
}

/// `value`, or the largest `i32` where it is larger.
fn saturated(value: i64) -> (r: i32)
    requires
        value >= 1,
    ensures
        r == clamped(value as int, 1, i32::MAX as int),
{
    if value > i32::MAX as i64 {
        i32::MAX
    } else {
        value as i32
    }
}

/// The last page that the dialog for going to a page offers; `None` for a document without pages.
pub fn last_page(page_count: usize) -> (r: Option<i32>)
    ensures
        match r {
            Some(last) => page_count > 0 && last == clamped(page_count as int, 1, i32::MAX as int),
            None => page_count == 0,
        },
{
    if page_count == 0 {
        None
    } else {
        Some(dialog_offset(page_count))
    }
}

/// The percentage that the dialog for going to a percentage starts with.
pub fn start_percent(percentage: i32) -> (r: i32)
    ensures
        r == clamped(percentage as int, 0, 100),
{
    if percentage < 0 {
        0
    } else if percentage > 100 {
        100
    } else {
        percentage
    }
}

/// An offset as the dialogs hold it.
pub fn dialog_offset(offset: usize) -> (r: i32)
    ensures
        r == clamped(offset as int, 0, i32::MAX as int),
{
    if offset > i32::MAX as usize {
        i32::MAX
    } else {
        offset as i32
    }
}

/// The caret position as an offset into the document; the start for a position that is none.
pub fn document_offset(position: i64) -> (r: usize)
    ensures
        r == (if 0 <= position <= usize::MAX {
            position as int
        } else {
            0
        }),
{
    if position < 0 || position as u64 > usize::MAX as u64 {
        0
    } else {
        position as usize
    }
}

/// Where the caret goes after an import: to the position that came with it, if there is one.
pub fn caret_after_import(position: i64) -> (r: Option<i64>)
    ensures
        r == (if position >= 0 {
            Some(position)
        } else {
            None
        }),
{
    if position >= 0 {
        Some(position)
    } else {
        None
    }
}

/// The dialog for lines offers every line of the document, from the first to the last, and starts at the
/// line of the caret; a caret outside the document is taken to the nearest line, an empty document counts
/// as one line, and no number is larger than the dialog can hold.
pub proof fn law_lines_on_offer(line_number: i64, line_count: i64, r: LineRange)
    requires
        call_ensures(line_range, (line_number, line_count), r),
    ensures
        1 <= r.current <= r.last,
        line_count <= 1 ==> r.last == 1 && r.current == 1,
        1 <= line_count <= i32::MAX ==> r.last == line_count,
        line_count > i32::MAX ==> r.last == i32::MAX,
        1 <= line_number <= line_count && line_number <= i32::MAX ==> r.current == line_number,
        line_number < 1 ==> r.current == 1,
        line_number > line_count || line_number > i32::MAX ==> r.current == r.last,
{
}

/// The dialog for pages offers every page, and is not shown for a document without pages; percentages stay
/// between 0 and 100; and offsets stay what they are where they fit.
pub proof fn law_numbers_on_offer(
    pages: usize,
    last: Option<i32>,
    percentage: i32,
    percent: i32,
    offset: usize,
    shown: i32,
    position: i64,
    start: usize,
    imported: Option<i64>,
)
    requires
        call_ensures(last_page, (pages,), last),
        call_ensures(start_percent, (percentage,), percent),
        call_ensures(dialog_offset, (offset,), shown),
        call_ensures(document_offset, (position,), start),
        call_ensures(caret_after_import, (position,), imported),
    ensures
        pages == 0 ==> last is None,
        0 < pages <= i32::MAX ==> last == Some(pages as i32),
        pages > i32::MAX ==> last == Some(i32::MAX),
        percentage < 0 ==> percent == 0,
        0 <= percentage <= 100 ==> percent == percentage,
        percentage > 100 ==> percent == 100,
        offset <= i32::MAX ==> shown == offset,
        offset > i32::MAX ==> shown == i32::MAX,
        0 <= position <= usize::MAX ==> start == position,
        position < 0 || position > usize::MAX ==> start == 0,
        position < 0 ==> imported is None,
        position >= 0 ==> imported == Some(position),
{
}

} // verus!
