//! Terminal sizes.

use vstd::prelude::*;

verus! {

/// The size of a terminal, in cells and, where it is known, in pixels.
#[derive(Debug, Clone, Copy, PartialEq, Eq, Structural)]
pub struct PtySize {
    pub rows: u16,
    pub cols: u16,
    pub pixel_width: u16,
    pub pixel_height: u16,
}

/// A size in cells of which at least one row and one column is left.
pub open spec fn window_size(columns: int, rows: int) -> PtySize {
    PtySize {
        rows: if rows < 1 {
            1
        } else {
            rows as u16
        },
        cols: if columns < 1 {
            1
        } else {
            columns as u16
        },
        pixel_width: 0,
        pixel_height: 0,
    }
}

/// The size that a console window is reported to have got.
pub fn resized_to(columns: i16, rows: i16) -> (size: PtySize)
    ensures
        size == window_size(columns as int, rows as int),
{
    let rows: u16 = if rows < 1 {
        1
    } else {
        rows as u16
    };
    let cols: u16 = if columns < 1 {
        1
    } else {
        columns as u16
    };
    PtySize { rows, cols, pixel_width: 0, pixel_height: 0 }
}

/// How many columns or rows there are from the first to the last, as a number of sixteen
/// bits.
pub open spec fn span(first: i16, last: i16) -> u16 {
    (last - first + 1) as u16
}

/// Whether the screen has room for the width and the height.
pub open spec fn shows_whole(size: PtySize, width: u32, height: u32) -> bool {
    width <= size.cols && height <= size.rows
}

/// The size of the console window whose first and last columns and rows are given.
/// Where the last one comes before the first, the size wraps around.
pub fn console_window_size(left: i16, top: i16, right: i16, bottom: i16) -> (size: PtySize)
    requires
        i16::MIN <= right - left < i16::MAX,
        i16::MIN <= bottom - top < i16::MAX,
    ensures
        size.cols == (right - left + 1) as u16,
        size.rows == (bottom - top + 1) as u16,
        left <= right + 1 ==> size.cols == right - left + 1,
        top <= bottom + 1 ==> size.rows == bottom - top + 1,
        size.pixel_width == 0,
        size.pixel_height == 0,
        size == (PtySize {
            rows: span(top, bottom),
            cols: span(left, right),
            pixel_width: 0,
            pixel_height: 0,
        }),
{
    let cols: i16 = 1 + (right - left);
    let rows: i16 = 1 + (bottom - top);
    PtySize { rows: rows as u16, cols: cols as u16, pixel_width: 0, pixel_height: 0 }
}

/// Whether a recording of the given width and height can be shown on a screen of
/// the given size.
pub fn fits_screen(size: PtySize, width: u32, height: u32) -> (r: bool)
    ensures
        r == (width <= size.cols && height <= size.rows),
        r == shows_whole(size, width, height),
{
    !((size.cols as u32) < width || (size.rows as u32) < height)
}

/// A size of at least one column and one row is taken as it is, and what is missing of
/// either counts as one; neither depends on the other.
pub proof fn law_window_size_is_taken_as_it_is(columns: int, rows: int)
    requires
        columns <= 65535 && rows <= 65535,
    ensures
        ({
            let size = window_size(columns, rows);
            &&& columns >= 1 ==> size.cols == columns
            &&& columns < 1 ==> size.cols == 1
            &&& rows >= 1 ==> size.rows == rows
            &&& rows < 1 ==> size.rows == 1
            &&& size.pixel_width == 0 && size.pixel_height == 0
        }),
{
}

/// A window counts its first and its last column or row, both of them: one that starts
/// where it ends has one, and one that reaches one further has one more.
pub proof fn law_window_counts_both_ends(first: i16, last: i16)
    requires
        first <= last,
        last - first < i16::MAX,
    ensures
        span(first, first) == 1,
        span(first, last) == last - first + 1,
        first < last ==> span(first, last) == span(first, (last - 1) as i16) + 1,
{
}

/// A recording fits on a screen exactly if the screen has as many columns and as many
/// rows, each counted by itself: one of its own size fits, and one column or row more
/// does not.
pub proof fn law_recording_fits_its_own_screen(size: PtySize, width: u32, height: u32)
    ensures
        shows_whole(size, size.cols as u32, size.rows as u32),
        width > size.cols ==> !shows_whole(size, width, height),
        height > size.rows ==> !shows_whole(size, width, height),
        width <= size.cols && height <= size.rows ==> shows_whole(size, width, height),
{
}

} // verus!
