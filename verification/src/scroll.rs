//! Scroll positions, counted in rows from the top of the contents.

use vstd::math::abs;
use vstd::prelude::*;

verus! {

/// A direction to scroll in.
#[derive(Copy, Clone, Debug, PartialEq, Eq, Structural)]
pub enum ScrollDirection {
    /// Towards the end.
    Forward,
    /// Towards the start.
    Backward,
}

/// The offset after scrolling. There is nothing before row zero, and no row
/// beyond what a `usize` can count.
pub open spec fn scrolled(offset: int, direction: ScrollDirection, amount: int) -> int {
    match direction {
        ScrollDirection::Forward => if offset + amount > usize::MAX {
            usize::MAX as int
        } else {
            offset + amount
        },
        ScrollDirection::Backward => if offset < amount {
            0
        } else {
            offset - amount
        },
    }
}

/// Scrolls by a number of rows.
pub fn scroll_offset_by(scroll_offset: &mut usize, direction: ScrollDirection, amount: u16)
    ensures
        *final(scroll_offset) == scrolled(*old(scroll_offset) as int, direction, amount as int),
{
    *scroll_offset = match direction {
        ScrollDirection::Forward => scroll_offset.saturating_add(amount as usize),
        ScrollDirection::Backward => scroll_offset.saturating_sub(amount as usize),
    };
}

/// The rows above and below an item that should be visible with it: half of
/// what the item leaves free in the window, but no more than five.
pub open spec fn context_rows(window: int, height: int, enforce_context: bool) -> int {
    if !enforce_context || window <= height {
        0
    } else if (window - height) / 2 < 5 {
        (window - height) / 2
    } else {
        5
    }
}

/// The rows above and below an item that should be visible with it.
pub fn visible_context(window_height: u16, height: usize, enforce_context: bool) -> (context: usize)
    ensures
        context == context_rows(window_height as int, height as int, enforce_context),
{
    if enforce_context {
        let available_space: usize = (window_height as usize).saturating_sub(height);
        if available_space / 2 < 5 {
            available_space / 2
        } else {
            5
        }
    } else {
        0
    }
}

/// The last offset at which the window still shows the rows from `start`.
pub open spec fn latest_offset(start: int, context: int) -> int {
    if start < context {
        0
    } else {
        start - context
    }
}

/// The first offset at which the window shows the rows up to `end`.
pub open spec fn earliest_offset(window: int, end: int, context: int) -> int {
    if end + context < window {
        0
    } else {
        end + context - window
    }
}

/// The offset nearest to `current` at which the window shows the rows from
/// `start` to `end` and their context, or the first of these rows if they do
/// not fit.
pub open spec fn aligned_offset(
    current: int,
    window: int,
    start: int,
    end: int,
    enforce_context: bool,
) -> int {
    let context = context_rows(window, end - start, enforce_context);
    let latest = latest_offset(start, context);
    let earliest = earliest_offset(window, end, context);
    if latest < earliest || latest < current {
        latest
    } else if current < earliest {
        earliest
    } else {
        current
    }
}

/// The offset nearest to `current` at which the window shows the rows from
/// `start` to `end`.
pub fn align_offset(
    current: usize,
    window_height: u16,
    start_offset: usize,
    end_offset: usize,
    enforce_context: bool,
) -> (offset: usize)
    requires
        start_offset <= end_offset,
        end_offset + context_rows(
            window_height as int,
            end_offset - start_offset,
            enforce_context,
        ) <= usize::MAX,
    ensures
        offset == aligned_offset(
            current as int,
            window_height as int,
            start_offset as int,
            end_offset as int,
            enforce_context,
        ),
{
    let window: usize = window_height as usize;
    let context: usize = visible_context(
        window_height,
        end_offset - start_offset,
        enforce_context,
    );
    let align_start_offset: usize = start_offset.saturating_sub(context);
    let align_end_offset: usize = (end_offset + context).saturating_sub(window);
    if align_start_offset < align_end_offset || align_start_offset < current {
        align_start_offset
    } else if current < align_end_offset {
        align_end_offset
    } else {
        current
    }
}

/// Rows that fit in the window are all visible after the alignment, and so is
/// their context as far as the contents reach up.
pub proof fn law_fitting_rows_are_visible(
    current: int,
    window: int,
    start: int,
    end: int,
    enforce_context: bool,
)
    requires
        0 <= start <= end,
        end - start <= window,
    ensures
        ({
            let offset = aligned_offset(current, window, start, end, enforce_context);
            let context = context_rows(window, end - start, enforce_context);
            &&& offset <= start
            &&& end <= offset + window
            &&& offset <= start - context || offset == 0
            &&& end + context <= offset + window
        }),
{
}

/// Rows that do not fit in the window are shown from the first one on.
pub proof fn law_tall_rows_start_at_the_top(
    current: int,
    window: int,
    start: int,
    end: int,
    enforce_context: bool,
)
    requires
        0 <= start,
        0 <= window < end - start,
    ensures
        aligned_offset(current, window, start, end, enforce_context) == start,
{
}

/// The alignment scrolls no further than it must: an offset at which the rows
/// and their context are visible stays, any other offset at which they are is
/// at least as far from where the alignment began, and a second alignment
/// changes nothing.
pub proof fn law_alignment_is_minimal(
    current: int,
    window: int,
    start: int,
    end: int,
    enforce_context: bool,
    other: int,
)
    requires
        0 <= current,
        0 <= other,
        0 <= start <= end,
        end - start <= window,
        ({
            let context = context_rows(window, end - start, enforce_context);
            &&& other <= start - context || other == 0
            &&& end + context <= other + window
        }),
    ensures
        ({
            let offset = aligned_offset(current, window, start, end, enforce_context);
            &&& aligned_offset(other, window, start, end, enforce_context) == other
            &&& abs(offset - current) <= abs(other - current)
            &&& offset == aligned_offset(offset, window, start, end, enforce_context)
        }),
{
}

/// Scrolling moves by the number of rows, and stops at the first row and at the
/// last row that can be counted.
pub proof fn law_scrolled_in_rows(offset: int, amount: int)
    requires
        0 <= offset <= usize::MAX,
        0 <= amount,
    ensures
        offset + amount <= usize::MAX ==> scrolled(offset, ScrollDirection::Forward, amount)
            == offset + amount,
        offset + amount > usize::MAX ==> scrolled(offset, ScrollDirection::Forward, amount)
            == usize::MAX,
        offset >= amount ==> scrolled(offset, ScrollDirection::Backward, amount) == offset
            - amount,
        offset < amount ==> scrolled(offset, ScrollDirection::Backward, amount) == 0,
{
}

/// The context is as many rows as fit twice in the rows that are free, but no
/// more than five, and none if none is asked for or free.
pub proof fn law_context_rows_fit(window: int, height: int, enforce_context: bool)
    ensures
        ({
            let context = context_rows(window, height, enforce_context);
            &&& 0 <= context <= 5
            &&& !enforce_context || window <= height ==> context == 0
            &&& enforce_context && window > height ==> {
                &&& 2 * context <= window - height
                &&& context == 5 || 2 * (context + 1) > window - height
            }
        }),
{
}

/// The window is moved to the nearest offset between that at which the rows and
/// their context just end in it and that at which they just begin in it, or to
/// the latter if they do not fit.
pub proof fn law_aligned_offset_in_rows(
    current: int,
    window: int,
    start: int,
    end: int,
    enforce_context: bool,
)
    requires
        0 <= start <= end,
        0 <= window,
    ensures
        ({
            let offset = aligned_offset(current, window, start, end, enforce_context);
            let free = window - (end - start);
            let context = if !enforce_context || free <= 0 {
                0
            } else if free / 2 >= 5 {
                5
            } else {
                free / 2
            };
            let last = if start > context {
                start - context
            } else {
                0
            };
            let first = if end + context > window {
                end + context - window
            } else {
                0
            };
            &&& context_rows(window, end - start, enforce_context) == context
            &&& last < first ==> offset == last
            &&& first <= last && current < first ==> offset == first
            &&& first <= last && current > last ==> offset == last
            &&& first <= current <= last ==> offset == current
        }),
{
}

} // verus!
