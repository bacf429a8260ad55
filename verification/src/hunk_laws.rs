//! What holds of the hunk viewer whatever keys are pressed.

use crate::conflict::{FileConflictView, KeyCode, KeyEvent};
use crate::files::{joined, joined_term, lemma_joined_len, uniform, MergeOptions, MergeResultView};
use crate::hunk_model::{
    lemma_first_open, no_resolution, split_hunks, split_result, with_selections, HunkResolutionView,
    HunkViewer,
};
use crate::screen::context_height;
use crate::scroll::{
    context_rows, earliest_offset, latest_offset, law_fitting_rows_are_visible,
    law_tall_rows_start_at_the_top,
};
use crate::selection::{law_moves_stay_valid, HunkSelection};
use vstd::math::abs;
use vstd::prelude::*;

verus! {

impl HunkViewer {
    /// Whether two states show the same conflicts of the same file, whatever
    /// is chosen in them.
    pub open spec fn same_file(self, other: HunkViewer) -> bool {
        &&& self.options == other.options
        &&& self.file_conflict == other.file_conflict
        &&& self.edited_contents == other.edited_contents
        &&& self.context_after == other.context_after
        &&& self.hunks.len() == other.hunks.len()
        &&& forall|i: int|
            #![trigger self.hunks[i]]
            #![trigger other.hunks[i]]
            0 <= i < self.hunks.len() ==> self.hunks[i].context_before
                == other.hunks[i].context_before && self.hunks[i].contents
                == other.hunks[i].contents
    }

    /// Whether the current selection is what the current conflict is resolved
    /// to, if it is resolved.
    pub open spec fn selection_is_current(self) -> bool {
        self.hunk_index < self.hunks.len() && self.hunks[self.hunk_index].selection is Some
            ==> self.hunks[self.hunk_index].selection == Some(self.current_selection)
    }

    /// Whether all of the current conflict is visible, or its first rows if it
    /// is taller than the window.
    pub open spec fn current_is_visible(self) -> bool {
        if self.hunk_height(self.hunk_index) <= self.window_height {
            &&& self.scroll_offset <= self.start_row()
            &&& self.end_row() <= self.scroll_offset + self.window_height
        } else {
            self.scroll_offset == self.start_row()
        }
    }

    /// Whether every conflict is resolved.
    pub open spec fn all_resolved(self) -> bool {
        forall|i: int| 0 <= i < self.hunks.len() ==> (#[trigger] self.hunks[i]).selection is Some
    }

    /// The text of the file up to the conflict `index`, with each conflict
    /// before it replaced by what it is resolved to, or by its term `k`.
    pub open spec fn text_before(self, index: int, k: int) -> Seq<u8>
        decreases index,
    {
        if index <= 0 {
            Seq::empty()
        } else {
            let hunk = self.hunks[index - 1];
            self.text_before(index - 1, k) + hunk.context_before + (match hunk.selection {
                Some(selection) => selection.selected(hunk.contents),
                None => hunk.contents[k],
            })
        }
    }

    /// The text of the file, with each conflict replaced by what it is resolved
    /// to, or by its term `k`.
    pub open spec fn text(self, k: int) -> Seq<u8> {
        self.text_before(self.hunks.len() as int, k) + self.context_after
    }
}

proof fn lemma_scrolling_keeps_validity(viewer: HunkViewer, enforce_context: bool)
    requires
        viewer.inv(),
    ensures
        viewer.scrolled_to_current(enforce_context).inv(),
{
    let next = viewer.scrolled_to_current(enforce_context);
    assert(next.file_contents() == viewer.file_contents());
}

proof fn lemma_moving_keeps_validity(viewer: HunkViewer, index: int)
    requires
        viewer.inv(),
        0 <= index < viewer.hunks.len(),
    ensures
        viewer.at_hunk(index).inv(),
{
    assert(viewer.at_hunk(index).file_contents() == viewer.file_contents());
    assert(viewer.hunks[index].contents.len() == viewer.file_contents().len());
}

proof fn lemma_selecting_keeps_validity(viewer: HunkViewer, selection: HunkSelection)
    requires
        viewer.inv(),
        selection.valid_for(viewer.num_sides()),
    ensures
        viewer.selecting(selection).inv(),
{
    assert(viewer.selecting(selection).file_contents() == viewer.file_contents());
}

proof fn lemma_resolving_keeps_validity(
    viewer: HunkViewer,
    index: int,
    selection: Option<HunkSelection>,
)
    requires
        viewer.inv(),
        0 <= index < viewer.hunks.len(),
        selection matches Some(selection) ==> selection.valid_for(viewer.num_sides()),
    ensures
        viewer.resolving(index, selection).inv(),
{
    let next = viewer.resolving(index, selection);
    assert(next.file_contents() == viewer.file_contents());
    assert forall|i: int| 0 <= i < next.hunks.len() implies {
        &&& (#[trigger] next.hunks[i]).contents.len() == next.file_contents().len()
        &&& match next.hunks[i].selection {
            Some(selection) => selection.valid_for(next.num_sides()),
            None => true,
        }
    } by {
        assert(viewer.hunks[i].contents.len() == viewer.file_contents().len());
    }
}

/// Resolving the rest leads from a valid state to a valid state.
pub(crate) proof fn lemma_resolving_the_rest_keeps_validity(viewer: HunkViewer)
    requires
        viewer.inv(),
    ensures
        viewer.with_rest_resolved().inv(),
{
    let next = viewer.with_rest_resolved();
    assert(next.file_contents() == viewer.file_contents());
    assert forall|i: int| 0 <= i < next.hunks.len() implies {
        &&& (#[trigger] next.hunks[i]).contents.len() == next.file_contents().len()
        &&& match next.hunks[i].selection {
            Some(selection) => selection.valid_for(next.num_sides()),
            None => true,
        }
    } by {
        assert(viewer.hunks[i].contents.len() == viewer.file_contents().len());
    }
}

proof fn lemma_moves_keep_validity(viewer: HunkViewer)
    requires
        viewer.inv(),
    ensures
        viewer.to_prev_hunk().inv(),
        viewer.to_next_hunk().inv(),
{
    lemma_scrolling_keeps_validity(viewer, true);
    if viewer.hunk_index > 0 {
        lemma_moving_keeps_validity(viewer, viewer.hunk_index - 1);
        lemma_scrolling_keeps_validity(viewer.at_hunk(viewer.hunk_index - 1), true);
    }
    if viewer.hunk_index + 1 < viewer.hunks.len() {
        lemma_moving_keeps_validity(viewer, viewer.hunk_index + 1);
        lemma_scrolling_keeps_validity(viewer.at_hunk(viewer.hunk_index + 1), true);
    }
    if viewer.hunks.len() == 0 {
        assert(viewer.to_prev_hunk().file_contents() == viewer.file_contents());
        assert(viewer.to_next_hunk().file_contents() == viewer.file_contents());
    }
}

proof fn lemma_choices_keep_validity(viewer: HunkViewer)
    requires
        viewer.inv(),
    ensures
        viewer.to_prev_term().inv(),
        viewer.to_next_term().inv(),
        viewer.with_base_toggled().inv(),
        viewer.with_diff_toggled().inv(),
{
    let sides = viewer.num_sides();
    lemma_scrolling_keeps_validity(viewer, false);
    if viewer.current_is_open() {
        law_moves_stay_valid(viewer.current_selection, sides);
        let selections = seq![
            viewer.current_selection.previous(sides),
            viewer.current_selection.following(sides),
            viewer.current_selection.toggled(sides),
        ];
        assert forall|i: int| 0 <= i < 3 implies (#[trigger] viewer.selecting(
            selections[i],
        )).scrolled_to_current(false).inv() by {
            lemma_selecting_keeps_validity(viewer, selections[i]);
            lemma_scrolling_keeps_validity(viewer.selecting(selections[i]), false);
        }
        assert(viewer.to_prev_term() == viewer.selecting(selections[0]).scrolled_to_current(false));
        assert(viewer.to_next_term() == viewer.selecting(selections[1]).scrolled_to_current(false));
        assert(viewer.with_base_toggled() == viewer.selecting(selections[2]).scrolled_to_current(
            false,
        ));
        let shown = HunkViewer { show_diff: !viewer.show_diff, ..viewer };
        assert(shown.file_contents() == viewer.file_contents());
        lemma_scrolling_keeps_validity(shown, false);
    }
}

/// Every key leads from a valid state to a valid state.
pub proof fn law_keys_keep_validity(viewer: HunkViewer, event: KeyEvent)
    requires
        viewer.inv(),
    ensures
        viewer.pressed(event).inv(),
{
    lemma_moves_keep_validity(viewer);
    lemma_choices_keep_validity(viewer);
    lemma_resolving_the_rest_keeps_validity(viewer);
    if viewer.hunks.len() > 0 {
        let index = viewer.hunk_index;
        lemma_resolving_keeps_validity(viewer, index, None);
        lemma_resolving_keeps_validity(viewer, index, Some(viewer.current_selection));
        lemma_scrolling_keeps_validity(viewer.resolving(index, None), false);
    }
}

proof fn lemma_scrolling_keeps_the_rest(viewer: HunkViewer, enforce_context: bool)
    ensures
        ({
            let next = viewer.scrolled_to_current(enforce_context);
            next == HunkViewer { scroll_offset: next.scroll_offset, ..viewer }
        }),
{
}

proof fn lemma_moves_keep_the_file(viewer: HunkViewer)
    ensures
        ({
            let next = viewer.to_prev_hunk();
            next == HunkViewer {
                hunk_index: next.hunk_index,
                current_selection: next.current_selection,
                scroll_offset: next.scroll_offset,
                ..viewer
            }
        }),
        ({
            let next = viewer.to_next_hunk();
            next == HunkViewer {
                hunk_index: next.hunk_index,
                current_selection: next.current_selection,
                scroll_offset: next.scroll_offset,
                ..viewer
            }
        }),
{
    lemma_scrolling_keeps_the_rest(viewer, true);
    lemma_scrolling_keeps_the_rest(viewer.at_hunk(viewer.hunk_index - 1), true);
    lemma_scrolling_keeps_the_rest(viewer.at_hunk(viewer.hunk_index + 1), true);
}

proof fn lemma_choices_keep_the_file(viewer: HunkViewer)
    ensures
        ({
            let next = viewer.to_prev_term();
            next == HunkViewer {
                current_selection: next.current_selection,
                scroll_offset: next.scroll_offset,
                ..viewer
            }
        }),
        ({
            let next = viewer.to_next_term();
            next == HunkViewer {
                current_selection: next.current_selection,
                scroll_offset: next.scroll_offset,
                ..viewer
            }
        }),
        ({
            let next = viewer.with_base_toggled();
            next == HunkViewer {
                current_selection: next.current_selection,
                scroll_offset: next.scroll_offset,
                ..viewer
            }
        }),
        ({
            let next = viewer.with_diff_toggled();
            next == HunkViewer {
                show_diff: next.show_diff,
                scroll_offset: next.scroll_offset,
                ..viewer
            }
        }),
        !viewer.current_is_open() ==> {
            &&& viewer.to_prev_term().current_selection == viewer.current_selection
            &&& viewer.to_next_term().current_selection == viewer.current_selection
            &&& viewer.with_base_toggled().current_selection == viewer.current_selection
        },
{
}

/// No key changes the conflicts themselves, the text between them or what an
/// editor left.
pub proof fn law_keys_keep_the_file(viewer: HunkViewer, event: KeyEvent)
    requires
        viewer.inv(),
    ensures
        viewer.pressed(event).same_file(viewer),
        viewer.pressed(event).window_height == viewer.window_height,
{
    lemma_moves_keep_the_file(viewer);
    lemma_choices_keep_the_file(viewer);
    let next = viewer.with_rest_resolved();
    assert(next.same_file(viewer));
    if viewer.hunks.len() > 0 {
        let index = viewer.hunk_index;
        let cleared = viewer.resolving(index, None);
        let resolved = viewer.resolving(index, Some(viewer.current_selection));
        assert(cleared.same_file(viewer));
        assert(resolved.same_file(viewer));
        lemma_scrolling_keeps_the_rest(cleared, false);
        assert(cleared.scrolled_to_current(false).same_file(viewer));
    }
}

/// Only resolving a conflict and taking that back change what the conflicts are
/// resolved to: moving about and changing what is shown do not.
pub proof fn law_looking_changes_no_choice(viewer: HunkViewer, event: KeyEvent)
    requires
        !(event.code is Enter || event.code is Backspace || event.code is Delete || event.code
            == KeyCode::Char(' ') || event.code == KeyCode::Char('a')),
    ensures
        viewer.pressed(event).hunks == viewer.hunks,
        viewer.pressed(event).merged_contents() == viewer.merged_contents(),
        viewer.pressed(event).resolution() == viewer.resolution(),
{
    let next = viewer.pressed(event);
    assert(next.hunks == viewer.hunks && next.context_after == viewer.context_after
        && next.edited_contents == viewer.edited_contents) by {
        lemma_moves_keep_the_file(viewer);
        lemma_choices_keep_the_file(viewer);
    }
    assert(next.pieces() =~= viewer.pieces());
    assert(next.resolution() =~= viewer.resolution());
}

/// A key that is held together with others does nothing.
pub proof fn law_held_keys_do_nothing(viewer: HunkViewer, event: KeyEvent)
    requires
        event.modifiers != 0,
    ensures
        viewer.pressed(event) == viewer,
        !HunkViewer::asks_for_editor(event),
{
}

/// A viewer opens at the first conflict that is not resolved, or at the first
/// of all.
pub proof fn law_opens_at_first_open_conflict(
    options: MergeOptions,
    file_conflict: FileConflictView,
    resolution: HunkResolutionView,
    result: MergeResultView,
)
    ensures
        ({
            let viewer = HunkViewer::opened(options, file_conflict, resolution, result);
            ||| viewer.hunk_index == 0 && viewer.all_resolved()
            ||| {
                &&& viewer.current_is_open()
                &&& 0 <= viewer.hunk_index
                &&& forall|i: int|
                    0 <= i < viewer.hunk_index ==> (#[trigger] viewer.hunks[i]).selection is Some
            }
        }),
{
    lemma_first_open(with_selections(split_result(result).0, resolution.selections), 0);
}

/// Where the current conflict of a viewer that is opened is resolved, the
/// current selection is what it is resolved to.
pub proof fn law_opens_with_current_selection(
    options: MergeOptions,
    file_conflict: FileConflictView,
    resolution: HunkResolutionView,
    result: MergeResultView,
)
    ensures
        HunkViewer::opened(options, file_conflict, resolution, result).selection_is_current(),
{
}

/// Every key keeps the current selection what the current conflict is resolved
/// to, if it is resolved.
pub proof fn law_keys_keep_selection_current(viewer: HunkViewer, event: KeyEvent)
    requires
        viewer.inv(),
        viewer.selection_is_current(),
    ensures
        viewer.pressed(event).selection_is_current(),
{
    lemma_moves_keep_the_file(viewer);
    lemma_choices_keep_the_file(viewer);
    if viewer.hunks.len() > 0 {
        let index = viewer.hunk_index;
        let cleared = viewer.resolving(index, None);
        assert(cleared.hunks[index].selection is None);
        lemma_scrolling_keeps_the_rest(cleared, false);
        assert(viewer.with_current_toggled().selection_is_current());
        assert(viewer.with_rest_resolved().selection_is_current());
        assert(viewer.to_prev_hunk().selection_is_current()) by {
            lemma_scrolling_keeps_the_rest(viewer, true);
            lemma_scrolling_keeps_the_rest(viewer.at_hunk(index - 1), true);
        }
        assert(viewer.to_next_hunk().selection_is_current()) by {
            lemma_scrolling_keeps_the_rest(viewer, true);
            lemma_scrolling_keeps_the_rest(viewer.at_hunk(index + 1), true);
        }
    }
}

/// Resolving the current conflict and taking it back changes nothing, and the
/// other way round.
pub proof fn law_enter_twice(viewer: HunkViewer)
    requires
        viewer.inv(),
        viewer.selection_is_current(),
    ensures
        viewer.with_current_toggled().with_current_toggled() == viewer,
{
    let twice = viewer.with_current_toggled().with_current_toggled();
    assert(twice.hunks =~= viewer.hunks);
    assert(twice =~= viewer);
}

/// Resolving the rest leaves no conflict open, changes none that was resolved
/// before, and does nothing the second time.
pub proof fn law_resolving_the_rest(viewer: HunkViewer)
    ensures
        ({
            let next = viewer.with_rest_resolved();
            &&& next.all_resolved()
            &&& next.hunks.len() == viewer.hunks.len()
            &&& forall|i: int|
                0 <= i < viewer.hunks.len() ==> (#[trigger] next.hunks[i]).selection == (
                if viewer.hunks[i].selection is Some {
                    viewer.hunks[i].selection
                } else {
                    Some(viewer.current_selection)
                })
            &&& next.with_rest_resolved() == next
        }),
{
    let next = viewer.with_rest_resolved();
    assert(next.with_rest_resolved().hunks =~= next.hunks);
    assert(next.with_rest_resolved() =~= next);
}

/// Clearing the current conflict opens it and leaves the others as they are.
pub proof fn law_clearing(viewer: HunkViewer)
    requires
        viewer.inv(),
        viewer.hunks.len() > 0,
    ensures
        viewer.with_current_cleared().current_is_open(),
        viewer.with_current_cleared().hunk_index == viewer.hunk_index,
        forall|i: int|
            0 <= i < viewer.hunks.len() && i != viewer.hunk_index
                ==> #[trigger] viewer.with_current_cleared().hunks[i] == viewer.hunks[i],
{
}

/// The keys for the next conflict and the one before move by one and stop at
/// the ends, and one undoes the other in between.
pub proof fn law_moving_between_conflicts(viewer: HunkViewer)
    requires
        viewer.inv(),
        viewer.hunks.len() > 0,
    ensures
        viewer.to_next_hunk().hunk_index == (if viewer.hunk_index + 1 < viewer.hunks.len() {
            viewer.hunk_index + 1
        } else {
            viewer.hunk_index
        }),
        viewer.to_prev_hunk().hunk_index == (if viewer.hunk_index > 0 {
            viewer.hunk_index - 1
        } else {
            0
        }),
        viewer.hunk_index + 1 < viewer.hunks.len()
            ==> viewer.to_next_hunk().to_prev_hunk().hunk_index == viewer.hunk_index,
        viewer.hunk_index > 0 ==> viewer.to_prev_hunk().to_next_hunk().hunk_index
            == viewer.hunk_index,
{
}

proof fn lemma_rows_ignore_scrolling(viewer: HunkViewer, other: HunkViewer, index: int)
    requires
        other == (HunkViewer { scroll_offset: other.scroll_offset, ..viewer }),
    ensures
        other.rows_before(index) == viewer.rows_before(index),
        other.hunk_height(index) == viewer.hunk_height(index),
    decreases index,
{
    if index > 0 {
        lemma_rows_ignore_scrolling(viewer, other, index - 1);
    }
}

/// After scrolling to the current conflict all of it is visible if it fits in
/// the window, and else the window begins where the conflict begins.
pub proof fn law_current_conflict_is_visible(viewer: HunkViewer, enforce_context: bool)
    requires
        viewer.inv(),
        viewer.hunks.len() > 0,
        viewer.rows_countable(enforce_context),
    ensures
        viewer.scrolled_to_current(enforce_context).current_is_visible(),
{
    let next = viewer.scrolled_to_current(enforce_context);
    lemma_rows_ignore_scrolling(viewer, next, viewer.hunk_index);
    if viewer.hunk_height(viewer.hunk_index) <= viewer.window_height {
        law_fitting_rows_are_visible(
            viewer.scroll_offset,
            viewer.window_height,
            viewer.start_row(),
            viewer.end_row(),
            enforce_context,
        );
    } else {
        law_tall_rows_start_at_the_top(
            viewer.scroll_offset,
            viewer.window_height,
            viewer.start_row(),
            viewer.end_row(),
            enforce_context,
        );
    }
}

proof fn lemma_scrolled_is_visible(viewer: HunkViewer, enforce_context: bool)
    requires
        viewer.inv(),
        viewer.hunks.len() > 0,
        viewer.scrolled_to_current(enforce_context).rows_countable(true),
    ensures
        viewer.scrolled_to_current(enforce_context).current_is_visible(),
{
    let next = viewer.scrolled_to_current(enforce_context);
    lemma_scrolling_keeps_the_rest(viewer, enforce_context);
    lemma_rows_ignore_scrolling(viewer, next, viewer.hunk_index);
    assert(viewer.rows_countable(enforce_context));
    law_current_conflict_is_visible(viewer, enforce_context);
}

/// The keys that go to another conflict or to another term, and those that
/// clear a conflict, leave the current conflict visible. So do the keys for
/// bases and for diffs while the current conflict is open.
pub proof fn law_moves_show_the_conflict(viewer: HunkViewer)
    requires
        viewer.inv(),
        viewer.hunks.len() > 0,
    ensures
        viewer.to_prev_hunk().rows_countable(true) ==> viewer.to_prev_hunk().current_is_visible(),
        viewer.to_next_hunk().rows_countable(true) ==> viewer.to_next_hunk().current_is_visible(),
        viewer.to_prev_term().rows_countable(true) ==> viewer.to_prev_term().current_is_visible(),
        viewer.to_next_term().rows_countable(true) ==> viewer.to_next_term().current_is_visible(),
        viewer.with_current_cleared().rows_countable(true)
            ==> viewer.with_current_cleared().current_is_visible(),
        viewer.current_is_open() && viewer.with_base_toggled().rows_countable(true)
            ==> viewer.with_base_toggled().current_is_visible(),
        viewer.current_is_open() && viewer.with_diff_toggled().rows_countable(true)
            ==> viewer.with_diff_toggled().current_is_visible(),
{
    let index = viewer.hunk_index;
    let sides = viewer.num_sides();
    law_moves_stay_valid(viewer.current_selection, sides);
    assert(viewer.to_prev_hunk().rows_countable(true)
        ==> viewer.to_prev_hunk().current_is_visible()) by {
        let moved = if index > 0 {
            lemma_moving_keeps_validity(viewer, index - 1);
            viewer.at_hunk(index - 1)
        } else {
            viewer
        };
        if moved.scrolled_to_current(true).rows_countable(true) {
            lemma_scrolled_is_visible(moved, true);
        }
    }
    assert(viewer.to_next_hunk().rows_countable(true)
        ==> viewer.to_next_hunk().current_is_visible()) by {
        let moved = if index + 1 < viewer.hunks.len() {
            lemma_moving_keeps_validity(viewer, index + 1);
            viewer.at_hunk(index + 1)
        } else {
            viewer
        };
        if moved.scrolled_to_current(true).rows_countable(true) {
            lemma_scrolled_is_visible(moved, true);
        }
    }
    assert(viewer.to_prev_term().rows_countable(true)
        ==> viewer.to_prev_term().current_is_visible()) by {
        let moved = if viewer.current_is_open() {
            lemma_selecting_keeps_validity(viewer, viewer.current_selection.previous(sides));
            viewer.selecting(viewer.current_selection.previous(sides))
        } else {
            viewer
        };
        if moved.scrolled_to_current(false).rows_countable(true) {
            lemma_scrolled_is_visible(moved, false);
        }
    }
    assert(viewer.to_next_term().rows_countable(true)
        ==> viewer.to_next_term().current_is_visible()) by {
        let moved = if viewer.current_is_open() {
            lemma_selecting_keeps_validity(viewer, viewer.current_selection.following(sides));
            viewer.selecting(viewer.current_selection.following(sides))
        } else {
            viewer
        };
        if moved.scrolled_to_current(false).rows_countable(true) {
            lemma_scrolled_is_visible(moved, false);
        }
    }
    assert(viewer.with_current_cleared().rows_countable(true)
        ==> viewer.with_current_cleared().current_is_visible()) by {
        let cleared = viewer.resolving(index, None);
        lemma_resolving_keeps_validity(viewer, index, None);
        if cleared.scrolled_to_current(false).rows_countable(true) {
            lemma_scrolled_is_visible(cleared, false);
        }
    }
    assert(viewer.current_is_open() && viewer.with_base_toggled().rows_countable(true)
        ==> viewer.with_base_toggled().current_is_visible()) by {
        if viewer.current_is_open() {
            let moved = viewer.selecting(viewer.current_selection.toggled(sides));
            lemma_selecting_keeps_validity(viewer, viewer.current_selection.toggled(sides));
            if moved.scrolled_to_current(false).rows_countable(true) {
                lemma_scrolled_is_visible(moved, false);
            }
        }
    }
    assert(viewer.current_is_open() && viewer.with_diff_toggled().rows_countable(true)
        ==> viewer.with_diff_toggled().current_is_visible()) by {
        let shown = HunkViewer { show_diff: !viewer.show_diff, ..viewer };
        assert(shown.file_contents() == viewer.file_contents());
        if viewer.current_is_open() && shown.scrolled_to_current(false).rows_countable(true) {
            lemma_scrolled_is_visible(shown, false);
        }
    }
}

/// Scrolling to the current conflict changes only the first visible row, and
/// nothing without a conflict. A conflict that fits in the window and its
/// context are visible from the first offset at which the last of these rows
/// is, to the last offset at which the first of them is. Of these offsets the
/// one nearest to where the window was is taken, so that nothing scrolls if
/// they are visible already. A window that is too low begins with the conflict.
/// Scrolling a second time changes nothing.
pub proof fn law_scrolling_is_minimal(viewer: HunkViewer, enforce_context: bool, other: int)
    requires
        viewer.inv(),
    ensures
        ({
            let next = viewer.aligned_to_current(enforce_context);
            let height = viewer.hunk_height(viewer.hunk_index) as int;
            let context = context_rows(viewer.window_height, height, enforce_context);
            let first = earliest_offset(viewer.window_height, viewer.end_row(), context);
            let last = latest_offset(viewer.start_row(), context);
            let offset = next.scroll_offset;
            &&& next == HunkViewer { scroll_offset: offset, ..viewer }
            &&& next.aligned_to_current(enforce_context) == next
            &&& viewer.hunks.len() == 0 ==> next == viewer
            &&& viewer.hunks.len() > 0 && height <= viewer.window_height ==> {
                &&& first <= offset <= last
                &&& first <= other <= last ==> abs(offset - viewer.scroll_offset) <= abs(
                    other - viewer.scroll_offset,
                )
                &&& first <= viewer.scroll_offset <= last ==> next == viewer
            }
            &&& viewer.hunks.len() > 0 && height > viewer.window_height ==> offset
                == viewer.start_row()
        }),
        ({
            let next = viewer.scrolled_to_current(enforce_context);
            &&& next == HunkViewer { scroll_offset: next.scroll_offset, ..viewer }
            &&& next.scrolled_to_current(enforce_context) == next
            &&& viewer.rows_countable(enforce_context) ==> next == viewer.aligned_to_current(
                enforce_context,
            )
        }),
{
    let next = viewer.aligned_to_current(enforce_context);
    lemma_rows_ignore_scrolling(viewer, next, viewer.hunk_index);
}

/// The rows that a viewer scrolls by are those of the items that it shows: the
/// current conflict begins below all items before it and ends with its own.
pub proof fn law_rows_are_those_of_the_items(viewer: HunkViewer)
    requires
        viewer.inv(),
        viewer.hunks.len() > 0,
    ensures
        viewer.start_row() == viewer.rows_above(2 * viewer.hunk_index + 1),
        viewer.end_row() == viewer.rows_above(2 * viewer.hunk_index + 2),
{
    let index = viewer.hunk_index;
    lemma_rows_above(viewer, index);
    let k = 2 * index;
    assert(viewer.item_height(k) == context_height(viewer.hunks[index].context_before));
    assert(viewer.item_height(k + 1) == viewer.hunk_height(index));
    assert(viewer.rows_above(k + 1) == viewer.rows_above(k) + viewer.item_height(k));
    assert(viewer.rows_above(k + 2) == viewer.rows_above(k + 1) + viewer.item_height(k + 1));
}

proof fn lemma_rows_above(viewer: HunkViewer, index: int)
    requires
        0 <= index <= viewer.hunks.len(),
    ensures
        viewer.rows_above(2 * index) == viewer.rows_before(index),
    decreases index,
{
    if index > 0 {
        lemma_rows_above(viewer, index - 1);
        let k = 2 * (index - 1);
        assert(viewer.item_height(k) == context_height(viewer.hunks[index - 1].context_before));
        assert(viewer.item_height(k + 1) == viewer.hunk_height(index - 1));
        assert(viewer.rows_above(k + 1) == viewer.rows_above(k) + viewer.item_height(k));
        assert(viewer.rows_above(k + 2) == viewer.rows_above(k + 1) + viewer.item_height(k + 1));
    }
}

/// Drawing again in a window of the same size does not scroll.
pub proof fn law_drawing_again_does_not_scroll(viewer: HunkViewer, window_height: int)
    ensures
        viewer.resized(window_height).resized(window_height) == viewer.resized(window_height),
        viewer.resized(window_height).same_file(viewer),
        viewer.resized(window_height).resolution() == viewer.resolution(),
{
    assert(viewer.resized(window_height).resolution() =~= viewer.resolution());
}

proof fn lemma_resolved_before(viewer: HunkViewer, index: int)
    requires
        0 <= index <= viewer.hunks.len(),
    ensures
        viewer.resolved_before(index) <= index,
        viewer.resolved_before(index) == index <==> (forall|i: int|
            0 <= i < index ==> (#[trigger] viewer.hunks[i]).selection is Some),
        viewer.resolved_before(index) == 0 <==> (forall|i: int|
            0 <= i < index ==> (#[trigger] viewer.hunks[i]).selection is None),
    decreases index,
{
    if index > 0 {
        lemma_resolved_before(viewer, index - 1);
        assert(viewer.hunks[index - 1] == viewer.hunks[index - 1]);
    }
}

/// The summary is green exactly when every conflict is resolved, and red
/// exactly when some conflict is open and nothing is to be recorded.
pub proof fn law_summary_color(viewer: HunkViewer)
    ensures
        viewer.summary_color() is Green <==> viewer.all_resolved(),
        viewer.summary_color() is Red <==> !viewer.all_resolved()
            && viewer.merged_contents() is None,
{
    lemma_resolved_before(viewer, viewer.hunks.len() as int);
}

/// There is something to record exactly when a conflict is resolved or an
/// editor changed the contents. Until then an editor gets the contents as they
/// were first.
pub proof fn law_no_change_is_not_recorded(viewer: HunkViewer)
    ensures
        viewer.merged_contents() is None <==> viewer.edited_contents is None && (forall|i: int|
            0 <= i < viewer.hunks.len() ==> (#[trigger] viewer.hunks[i]).selection is None),
        viewer.merged_contents() is None ==> viewer.contents_to_edit()
            == viewer.file_conflict.contents,
{
}

proof fn lemma_text_before(viewer: HunkViewer, index: int, k: int)
    requires
        viewer.inv(),
        0 <= index <= viewer.hunks.len(),
    ensures
        joined_term(viewer.pieces().take(2 * index), k) == viewer.text_before(index, k),
    decreases index,
{
    if index > 0 {
        lemma_text_before(viewer, index - 1, k);
        let pieces = viewer.pieces();
        let hunk = viewer.hunks[index - 1];
        assert(hunk.contents.len() == viewer.file_contents().len());
        assert(pieces.take(2 * index).drop_last() =~= pieces.take(2 * index - 1));
        assert(pieces.take(2 * index - 1).drop_last() =~= pieces.take(2 * (index - 1)));
        assert(pieces.take(2 * index - 1).last() == pieces[2 * (index - 1)]);
        assert(pieces[2 * (index - 1)] == seq![hunk.context_before]);
        assert(pieces.take(2 * index).last() == pieces[2 * (index - 1) + 1]);
        assert(joined_term(pieces.take(2 * index - 1), k) == viewer.text_before(index - 1, k)
            + hunk.context_before);
    }
}

proof fn lemma_pieces_are_uniform(viewer: HunkViewer)
    requires
        viewer.inv(),
    ensures
        uniform(viewer.pieces(), viewer.file_contents().len()),
        (forall|i: int|
            0 <= i < viewer.pieces().len() ==> (#[trigger] viewer.pieces()[i]).len() == 1)
            <==> viewer.all_resolved(),
{
    let pieces = viewer.pieces();
    assert forall|i: int| 0 <= i < pieces.len() implies (#[trigger] pieces[i]).len() == 1
        || pieces[i].len() == viewer.file_contents().len() by {
        if i % 2 == 1 {
            assert(viewer.hunks[i / 2].contents.len() == viewer.file_contents().len());
        }
    }
    if forall|i: int| 0 <= i < pieces.len() ==> (#[trigger] pieces[i]).len() == 1 {
        assert forall|i: int| 0 <= i < viewer.hunks.len() implies (
        #[trigger] viewer.hunks[i]).selection is Some by {
            assert(pieces[2 * i + 1].len() == 1);
            assert(viewer.hunks[i].contents.len() == viewer.file_contents().len());
        }
    }
    if viewer.all_resolved() {
        assert forall|i: int| 0 <= i < pieces.len() implies (#[trigger] pieces[i]).len() == 1 by {
            if i % 2 == 1 {
                assert(viewer.hunks[i / 2].selection is Some);
            }
        }
    }
}

/// The merged contents are the text of the file with each conflict replaced by
/// what it is resolved to. While conflicts are left, there is one such text for
/// each term of the contents, in which the open conflicts stand as that term.
/// When none is left, there is one text.
pub proof fn law_merged_contents(viewer: HunkViewer)
    requires
        viewer.inv(),
        viewer.any_resolved(),
    ensures
        viewer.merged_contents() == Some(
            Seq::new(
                if viewer.all_resolved() {
                    1
                } else {
                    viewer.file_contents().len()
                },
                |k: int| viewer.text(k),
            ),
        ),
{
    let pieces = viewer.pieces();
    let len: nat = if viewer.all_resolved() {
        1
    } else {
        viewer.file_contents().len()
    };
    lemma_pieces_are_uniform(viewer);
    lemma_joined_len(pieces, viewer.file_contents().len());
    assert forall|k: int| 0 <= k < len implies joined_term(pieces, k) == viewer.text(k) by {
        lemma_text_before(viewer, viewer.hunks.len() as int, k);
        assert(pieces.drop_last() =~= pieces.take(2 * (viewer.hunks.len() as int)));
    }
    assert(joined(pieces) =~= Seq::new(len, |k: int| viewer.text(k)));
}

proof fn lemma_split_text(
    hunks: Seq<Seq<Seq<u8>>>,
    viewer: HunkViewer,
    k: int,
    index: int,
    context: Seq<u8>,
)
    requires
        split_hunks(hunks).0.len() == index <= viewer.hunks.len(),
        split_hunks(hunks).1 == context,
        forall|i: int| 0 <= i < index ==> #[trigger] viewer.hunks[i] == split_hunks(hunks).0[i],
    ensures
        joined_term(hunks, k) == viewer.text_before(index, k) + context,
    decreases hunks.len(),
{
    if hunks.len() > 0 {
        let rest = hunks.drop_last();
        let (conflicts, before) = split_hunks(rest);
        assert(conflicts.len() <= split_hunks(hunks).0.len());
        assert forall|i: int| 0 <= i < conflicts.len() implies #[trigger] viewer.hunks[i]
            == conflicts[i] by {
            assert(split_hunks(hunks).0[i] == conflicts[i]);
        }
        lemma_split_text(rest, viewer, k, conflicts.len() as int, before);
        lemma_split_is_open(rest);
        let text = viewer.text_before(conflicts.len() as int, k);
        if hunks.last().len() == 1 {
            assert(text + context =~= (text + before) + hunks.last()[0]);
        } else {
            assert(viewer.hunks[index - 1] == split_hunks(hunks).0[index - 1]);
            assert(viewer.text_before(index, k) + context =~= (text + before) + hunks.last()[k]);
        }
    }
}

pub(crate) proof fn lemma_split_is_open(hunks: Seq<Seq<Seq<u8>>>)
    ensures
        forall|i: int|
            0 <= i < split_hunks(hunks).0.len() ==> (#[trigger] split_hunks(
                hunks,
            ).0[i]).selection is None,
    decreases hunks.len(),
{
    if hunks.len() > 0 {
        lemma_split_is_open(hunks.drop_last());
    }
}

/// A viewer that is opened without choices shows the whole file: its text with
/// the conflicts as any one of the terms is that term of the merged hunks put
/// together.
pub proof fn law_opening_keeps_the_text(
    options: MergeOptions,
    file_conflict: FileConflictView,
    hunks: Seq<Seq<Seq<u8>>>,
    k: int,
)
    ensures
        HunkViewer::opened(
            options,
            file_conflict,
            no_resolution(),
            MergeResultView::Conflict(hunks),
        ).text(k) == joined_term(hunks, k),
{
    let viewer = HunkViewer::opened(
        options,
        file_conflict,
        no_resolution(),
        MergeResultView::Conflict(hunks),
    );
    lemma_split_text(hunks, viewer, k, viewer.hunks.len() as int, viewer.context_after);
}

/// A viewer that is opened with the choices recorded in another one of the same
/// file has the conflicts resolved as they were there, and the same merged
/// contents.
pub proof fn law_reopening_restores_choices(
    viewer: HunkViewer,
    resolution: HunkResolutionView,
    result: MergeResultView,
)
    requires
        viewer.same_file(
            HunkViewer::opened(viewer.options, viewer.file_conflict, resolution, result),
        ),
    ensures
        ({
            let reopened = HunkViewer::opened(
                viewer.options,
                viewer.file_conflict,
                viewer.resolution(),
                result,
            );
            &&& reopened.same_file(viewer)
            &&& reopened.hunks == viewer.hunks
            &&& reopened.resolution() == viewer.resolution()
            &&& reopened.merged_contents() == viewer.merged_contents()
        }),
{
    let opened = HunkViewer::opened(viewer.options, viewer.file_conflict, resolution, result);
    let reopened = HunkViewer::opened(
        viewer.options,
        viewer.file_conflict,
        viewer.resolution(),
        result,
    );
    assert(reopened.hunks.len() == viewer.hunks.len());
    assert forall|i: int| 0 <= i < viewer.hunks.len() implies reopened.hunks[i]
        == viewer.hunks[i] by {
        assert(opened.hunks[i].contents == viewer.hunks[i].contents);
        assert(reopened.hunks[i] =~= viewer.hunks[i]);
    }
    assert(reopened.hunks =~= viewer.hunks);
    assert(reopened.pieces() =~= viewer.pieces());
    assert(reopened.resolution() =~= viewer.resolution());
}

} // verus!
