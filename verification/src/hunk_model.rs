//! The hunk viewer as a mathematical object: its states, the steps between
//! them and what each state shows.

use crate::conflict::{FileConflictView, KeyCode, KeyEvent, TreeValueView};
use crate::files::{joined, MergeOptions, MergeResultView};
use crate::labels::remove_label;
use crate::merge::{adds, num_sides, removes};
use crate::screen::{
    content_text, context_height, context_item, diff_text, unified_diff, BodyTextView,
    ScrollableItemView, TextColor,
};
use crate::scroll::{aligned_offset, context_rows, scrolled, ScrollDirection};
use crate::selection::{present, HunkSelection};
use crate::simplification::{simplified, updated_from_simplified};
use crate::text::{decimal, text_height, NEWLINE};
use vstd::prelude::*;

verus! {

/// A conflict within a file.
#[verifier::ext_equal]
pub struct HunkView {
    /// The text between the conflict before and this one.
    pub context_before: Seq<u8>,
    /// The terms of the conflict.
    pub contents: Seq<Seq<u8>>,
    /// What the conflict is resolved to, if it is.
    pub selection: Option<HunkSelection>,
}

/// The choices made in a viewer, with which it can be opened again.
#[verifier::ext_equal]
pub struct HunkResolutionView {
    /// The contents that an editor left, if one was used.
    pub edited_contents: Option<Seq<Seq<u8>>>,
    /// What each conflict is resolved to; no items if nothing is chosen.
    pub selections: Seq<Option<HunkSelection>>,
}

/// A request to edit the contents of a conflict.
#[verifier::ext_equal]
pub struct EditRequest {
    /// The name of the file.
    pub file_name: Seq<char>,
    /// The contents to edit.
    pub contents: Seq<Seq<u8>>,
    /// Labels for the contents.
    pub labels: Seq<Seq<char>>,
}

/// What the viewer draws.
#[verifier::ext_equal]
pub struct DrawnHunks {
    /// The name of the file.
    pub file_name: Seq<char>,
    /// How far the file is resolved.
    pub summary: Seq<char>,
    /// The color of the summary.
    pub summary_color: TextColor,
    /// The scrolled contents from top to bottom.
    pub items: Seq<ScrollableItemView>,
}

/// A state of the viewer.
#[verifier::ext_equal]
pub struct HunkViewer {
    /// How contents are split into hunks.
    pub options: MergeOptions,
    /// The conflict that is shown.
    pub file_conflict: FileConflictView,
    /// The contents that an editor left, if one was used.
    pub edited_contents: Option<Seq<Seq<u8>>>,
    /// The conflicts within the file.
    pub hunks: Seq<HunkView>,
    /// The current conflict.
    pub hunk_index: int,
    /// The text after the last conflict.
    pub context_after: Seq<u8>,
    /// What the current conflict would be resolved to.
    pub current_selection: HunkSelection,
    /// The first row that is visible.
    pub scroll_offset: int,
    /// The number of rows that are visible.
    pub window_height: int,
    /// Whether a selected side is shown as a diff from its base.
    pub show_diff: bool,
}

/// The conflicts among hunks, each with the text before it, and the text after
/// the last one.
pub open spec fn split_hunks(hunks: Seq<Seq<Seq<u8>>>) -> (Seq<HunkView>, Seq<u8>)
    decreases hunks.len(),
{
    if hunks.len() == 0 {
        (Seq::empty(), Seq::empty())
    } else {
        let (conflicts, context) = split_hunks(hunks.drop_last());
        if hunks.last().len() == 1 {
            (conflicts, context + hunks.last()[0])
        } else {
            (
                conflicts.push(
                    HunkView {
                        context_before: context,
                        contents: hunks.last(),
                        selection: None,
                    },
                ),
                Seq::empty(),
            )
        }
    }
}

/// The conflicts and the text after them in merged contents.
pub open spec fn split_result(result: MergeResultView) -> (Seq<HunkView>, Seq<u8>) {
    match result {
        MergeResultView::Resolved(contents) => (Seq::empty(), contents),
        MergeResultView::Conflict(hunks) => split_hunks(hunks),
    }
}

/// The conflicts with the given selections, or as they are if none are given.
pub open spec fn with_selections(
    hunks: Seq<HunkView>,
    selections: Seq<Option<HunkSelection>>,
) -> Seq<HunkView> {
    if selections.len() == 0 {
        hunks
    } else {
        Seq::new(hunks.len(), |i: int| HunkView { selection: selections[i], ..hunks[i] })
    }
}

/// The first conflict from `index` on that is not resolved, or the first of
/// all if there is none.
pub open spec fn first_open(hunks: Seq<HunkView>, index: int) -> int
    decreases hunks.len() - index,
{
    if index >= hunks.len() {
        0
    } else if hunks[index].selection is None {
        index
    } else {
        first_open(hunks, index + 1)
    }
}

impl HunkResolutionView {
    /// Whether the selections pick terms of conflicts of so many sides.
    pub open spec fn valid_for(self, sides: nat) -> bool {
        forall|i: int|
            0 <= i < self.selections.len() ==> match #[trigger] self.selections[i] {
                Some(selection) => selection.valid_for(sides),
                None => true,
            }
    }
}

/// No choices.
pub open spec fn no_resolution() -> HunkResolutionView {
    HunkResolutionView { edited_contents: None, selections: Seq::empty() }
}

impl HunkViewer {
    /// The state in which a conflict is first shown, given what its contents
    /// are merged to and the choices made before. The first conflict that is
    /// not resolved is the current one.
    pub open spec fn opened(
        options: MergeOptions,
        file_conflict: FileConflictView,
        resolution: HunkResolutionView,
        result: MergeResultView,
    ) -> HunkViewer {
        let hunks = with_selections(split_result(result).0, resolution.selections);
        let index = first_open(hunks, 0);
        HunkViewer {
            options,
            file_conflict,
            edited_contents: resolution.edited_contents,
            hunks,
            hunk_index: index,
            context_after: split_result(result).1,
            current_selection: if index < hunks.len() && hunks[index].selection is Some {
                hunks[index].selection->0
            } else {
                HunkSelection::Added(0)
            },
            scroll_offset: 0,
            window_height: 0,
            show_diff: false,
        }
    }

    /// The state that takes back the contents that an editor left, given what
    /// they are merged to.
    pub open spec fn with_contents(
        self,
        contents: Seq<Seq<u8>>,
        result: MergeResultView,
    ) -> HunkViewer {
        HunkViewer::opened(
            self.options,
            self.file_conflict,
            HunkResolutionView {
                edited_contents: if contents == self.file_conflict.contents {
                    None
                } else {
                    Some(contents)
                },
                selections: Seq::empty(),
            },
            result,
        )
    }

    /// The contents that are resolved: those that an editor left, if one was
    /// used.
    pub open spec fn file_contents(self) -> Seq<Seq<u8>> {
        match self.edited_contents {
            Some(contents) => contents,
            None => self.file_conflict.contents,
        }
    }

    /// The number of sides of the contents.
    pub open spec fn num_sides(self) -> nat {
        num_sides(self.file_contents())
    }

    /// What holds of every state: all conflicts have the terms of the contents,
    /// every selection picks one of them, and the current conflict exists if
    /// there are conflicts.
    pub open spec fn inv(self) -> bool {
        &&& self.file_conflict.unsimplified_ids.len() % 2 == 1
        &&& self.file_conflict.contents.len() % 2 == 1
        &&& self.file_contents().len() % 2 == 1
        &&& self.hunks.len() > 0 ==> self.file_contents().len() >= 3
        &&& forall|i: int|
            0 <= i < self.hunks.len() ==> (#[trigger] self.hunks[i]).contents.len()
                == self.file_contents().len()
        &&& forall|i: int|
            0 <= i < self.hunks.len() ==> match (#[trigger] self.hunks[i]).selection {
                Some(selection) => selection.valid_for(self.num_sides()),
                None => true,
            }
        &&& self.current_selection.valid_for(self.num_sides())
        &&& 0 <= self.hunk_index
        &&& self.hunk_index < self.hunks.len() || self.hunks.len() == 0 == self.hunk_index
        &&& self.num_sides() <= usize::MAX
        &&& self.hunks.len() <= usize::MAX
        &&& 0 <= self.scroll_offset <= usize::MAX
        &&& 0 <= self.window_height <= u16::MAX
    }

    /// Whether the current conflict exists and is not resolved.
    pub open spec fn current_is_open(self) -> bool {
        self.hunk_index < self.hunks.len() && self.hunks[self.hunk_index].selection is None
    }

    /// The side that is shown as a diff, if the current selection is.
    pub open spec fn diff_side(self) -> Option<int> {
        if self.show_diff && self.current_selection is Added {
            Some(self.current_selection->Added_0 as int)
        } else {
            None
        }
    }

    /// The diff from the base of a side to the side.
    pub open spec fn side_diff(self, index: int, side: int) -> BodyTextView {
        diff_text(
            unified_diff(
                removes(self.hunks[index].contents)[HunkSelection::base_index(side)],
                adds(self.hunks[index].contents)[side],
                usize::MAX,
            ),
        )
    }

    /// A conflict as it is shown: what it is resolved to, or what the current
    /// selection would resolve it to if it is the current one.
    pub open spec fn hunk_item(self, index: int) -> ScrollableItemView {
        let hunk = self.hunks[index];
        let number = " Conflict "@ + decimal((index + 1) as nat) + "/"@ + decimal(self.hunks.len());
        let label = self.current_selection.label(self.file_conflict.labels);
        match hunk.selection {
            Some(selection) => ScrollableItemView::ResolvedHunk {
                body: content_text(selection.selected(hunk.contents)),
                focused: index == self.hunk_index,
            },
            None => if index == self.hunk_index {
                ScrollableItemView::OpenHunk {
                    title: seq!['\u{1f783}'] + number,
                    choices: self.current_selection.reachable(num_sides(hunk.contents)),
                    selection: self.current_selection,
                    label_lines: match self.diff_side() {
                        Some(side) => seq![
                            "diff from: "@ + remove_label(
                                self.file_conflict.labels,
                                HunkSelection::base_index(side),
                            ),
                            "       to: "@ + label,
                        ],
                        None => seq![label],
                    },
                    body: match self.diff_side() {
                        Some(side) => self.side_diff(index, side),
                        None => content_text(self.current_selection.selected(hunk.contents)),
                    },
                }
            } else {
                ScrollableItemView::FoldedHunk { title: seq!['\u{1f782}'] + number }
            },
        }
    }

    /// The rows of a conflict as it is shown.
    pub open spec fn hunk_height(self, index: int) -> nat {
        let hunk = self.hunks[index];
        match hunk.selection {
            Some(selection) => text_height(selection.selected(hunk.contents), NEWLINE) + 2,
            None => if index == self.hunk_index {
                match self.diff_side() {
                    Some(side) => self.side_diff(index, side).height() + 6,
                    None => text_height(self.current_selection.selected(hunk.contents), NEWLINE)
                        + 5,
                }
            } else {
                3
            },
        }
    }

    /// The rows of the conflicts before `index` and of the text before them.
    pub open spec fn rows_before(self, index: int) -> nat
        decreases index,
    {
        if index <= 0 {
            0
        } else {
            self.rows_before(index - 1) + context_height(self.hunks[index - 1].context_before)
                + self.hunk_height(index - 1)
        }
    }

    /// More conflicts take no fewer rows.
    pub proof fn lemma_rows_before_monotone(self, a: int, b: int)
        requires
            a <= b,
        ensures
            self.rows_before(a) <= self.rows_before(b),
        decreases b - a,
    {
        if a < b {
            self.lemma_rows_before_monotone(a, b - 1);
        }
    }

    /// The first row of the current conflict.
    pub open spec fn start_row(self) -> int {
        (self.rows_before(self.hunk_index) + context_height(
            self.hunks[self.hunk_index].context_before,
        )) as int
    }

    /// The row after the current conflict.
    pub open spec fn end_row(self) -> int {
        self.start_row() + self.hunk_height(self.hunk_index)
    }

    /// Whether the rows up to the end of the current conflict and its context
    /// can be counted in a `usize`.
    pub open spec fn rows_countable(self, enforce_context: bool) -> bool {
        self.hunk_index < self.hunks.len() ==> self.end_row() + context_rows(
            self.window_height,
            self.hunk_height(self.hunk_index) as int,
            enforce_context,
        ) <= usize::MAX
    }

    /// The state after scrolling as little as possible to show the current
    /// conflict, if there is one.
    pub open spec fn aligned_to_current(self, enforce_context: bool) -> HunkViewer {
        if self.hunk_index < self.hunks.len() {
            HunkViewer {
                scroll_offset: aligned_offset(
                    self.scroll_offset,
                    self.window_height,
                    self.start_row(),
                    self.end_row(),
                    enforce_context,
                ),
                ..self
            }
        } else {
            self
        }
    }

    /// The state after scrolling to the current conflict, unless there are too
    /// many rows to count.
    pub open spec fn scrolled_to_current(self, enforce_context: bool) -> HunkViewer {
        if self.rows_countable(enforce_context) {
            self.aligned_to_current(enforce_context)
        } else {
            self
        }
    }

    /// The state after scrolling by a number of rows.
    pub open spec fn scrolled_by(self, direction: ScrollDirection, amount: int) -> HunkViewer {
        HunkViewer { scroll_offset: scrolled(self.scroll_offset, direction, amount), ..self }
    }

    /// The state with another current conflict. The current selection becomes
    /// what that conflict is resolved to, if it is.
    pub open spec fn at_hunk(self, index: int) -> HunkViewer {
        HunkViewer {
            hunk_index: index,
            current_selection: match self.hunks[index].selection {
                Some(selection) => selection,
                None => self.current_selection,
            },
            ..self
        }
    }

    /// The state after going to the conflict before, or after scrolling up if
    /// there are no conflicts.
    pub open spec fn to_prev_hunk(self) -> HunkViewer {
        if self.hunks.len() == 0 {
            self.scrolled_by(ScrollDirection::Backward, 1)
        } else if self.hunk_index > 0 {
            self.at_hunk(self.hunk_index - 1).scrolled_to_current(true)
        } else {
            self.scrolled_to_current(true)
        }
    }

    /// The state after going to the next conflict, or after scrolling down if
    /// there are no conflicts.
    pub open spec fn to_next_hunk(self) -> HunkViewer {
        if self.hunks.len() == 0 {
            self.scrolled_by(ScrollDirection::Forward, 1)
        } else if self.hunk_index + 1 < self.hunks.len() {
            self.at_hunk(self.hunk_index + 1).scrolled_to_current(true)
        } else {
            self.scrolled_to_current(true)
        }
    }

    /// The state with another current selection.
    pub open spec fn selecting(self, selection: HunkSelection) -> HunkViewer {
        HunkViewer { current_selection: selection, ..self }
    }

    /// The state after going to the selection to the left, unless the current
    /// conflict is resolved.
    pub open spec fn to_prev_term(self) -> HunkViewer {
        if self.current_is_open() {
            self.selecting(self.current_selection.previous(self.num_sides())).scrolled_to_current(
                false,
            )
        } else {
            self.scrolled_to_current(false)
        }
    }

    /// The state after going to the selection to the right, unless the current
    /// conflict is resolved.
    pub open spec fn to_next_term(self) -> HunkViewer {
        if self.current_is_open() {
            self.selecting(self.current_selection.following(self.num_sides())).scrolled_to_current(
                false,
            )
        } else {
            self.scrolled_to_current(false)
        }
    }

    /// The state after changing between sides and bases, unless the current
    /// conflict is resolved.
    pub open spec fn with_base_toggled(self) -> HunkViewer {
        if self.current_is_open() {
            self.selecting(self.current_selection.toggled(self.num_sides())).scrolled_to_current(
                false,
            )
        } else {
            self
        }
    }

    /// The state after changing between contents and diffs, unless the current
    /// conflict is resolved.
    pub open spec fn with_diff_toggled(self) -> HunkViewer {
        if self.current_is_open() {
            HunkViewer { show_diff: !self.show_diff, ..self }.scrolled_to_current(false)
        } else {
            self
        }
    }

    /// The state with a conflict resolved to a selection, or not resolved.
    pub open spec fn resolving(self, index: int, selection: Option<HunkSelection>) -> HunkViewer {
        HunkViewer {
            hunks: self.hunks.update(index, HunkView { selection, ..self.hunks[index] }),
            ..self
        }
    }

    /// The state after resolving the current conflict to the current selection,
    /// or taking that back.
    pub open spec fn with_current_toggled(self) -> HunkViewer {
        if self.hunk_index < self.hunks.len() {
            self.resolving(
                self.hunk_index,
                if self.hunks[self.hunk_index].selection == Some(self.current_selection) {
                    None
                } else {
                    Some(self.current_selection)
                },
            )
        } else {
            self
        }
    }

    /// The state after resolving all conflicts that are not resolved to the
    /// current selection.
    pub open spec fn with_rest_resolved(self) -> HunkViewer {
        HunkViewer {
            hunks: Seq::new(
                self.hunks.len(),
                |i: int|
                    HunkView {
                        selection: if self.hunks[i].selection is None {
                            Some(self.current_selection)
                        } else {
                            self.hunks[i].selection
                        },
                        ..self.hunks[i]
                    },
            ),
            ..self
        }
    }

    /// The state after taking back what the current conflict is resolved to.
    pub open spec fn with_current_cleared(self) -> HunkViewer {
        if self.hunk_index < self.hunks.len() {
            self.resolving(self.hunk_index, None).scrolled_to_current(false)
        } else {
            self
        }
    }

    /// The state after a key is pressed. Keys held together with others do
    /// nothing.
    pub open spec fn pressed(self, event: KeyEvent) -> HunkViewer {
        if event.modifiers != 0 {
            self
        } else {
            match event.code {
                KeyCode::Up => self.to_prev_hunk(),
                KeyCode::Down => self.to_next_hunk(),
                KeyCode::Left => self.to_prev_term(),
                KeyCode::Right => self.to_next_term(),
                KeyCode::Enter => self.with_current_toggled(),
                KeyCode::Backspace => self.with_current_cleared(),
                KeyCode::Delete => self.with_current_cleared(),
                KeyCode::Char(c) => if c == 'k' {
                    self.to_prev_hunk()
                } else if c == 'j' {
                    self.to_next_hunk()
                } else if c == 'h' {
                    self.to_prev_term()
                } else if c == 'l' {
                    self.to_next_term()
                } else if c == ' ' {
                    self.with_current_toggled()
                } else if c == 'a' {
                    self.with_rest_resolved()
                } else if c == 'b' {
                    self.with_base_toggled()
                } else if c == 'd' {
                    self.with_diff_toggled()
                } else {
                    self
                },
                KeyCode::Other => self,
            }
        }
    }

    /// Whether a key asks for an editor.
    pub open spec fn asks_for_editor(event: KeyEvent) -> bool {
        event.modifiers == 0 && event.code == KeyCode::Char('e')
    }

    /// The number of conflicts before `index` that are resolved.
    pub open spec fn resolved_before(self, index: int) -> nat
        decreases index,
    {
        if index <= 0 {
            0
        } else {
            self.resolved_before(index - 1) + (if self.hunks[index - 1].selection is Some {
                1nat
            } else {
                0nat
            })
        }
    }

    /// The number of conflicts that are resolved.
    pub open spec fn resolved_count(self) -> nat {
        self.resolved_before(self.hunks.len() as int)
    }

    /// How far the file is resolved, in words.
    pub open spec fn summary(self) -> Seq<char> {
        if self.hunks.len() == 0 {
            "(resolved by editor)"@
        } else {
            "("@ + decimal(self.resolved_count()) + "/"@ + decimal(self.hunks.len())
                + " conflicts resolved"@ + (if self.edited_contents is Some {
                ", edited"@
            } else {
                ""@
            }) + ")"@
        }
    }

    /// How far the file is resolved: green when it is, red when nothing is
    /// done.
    pub open spec fn summary_color(self) -> TextColor {
        if self.resolved_count() == self.hunks.len() {
            TextColor::Green
        } else if self.resolved_count() == 0 && self.edited_contents is None {
            TextColor::Red
        } else {
            TextColor::Yellow
        }
    }

    /// The state for a window of so many rows. A new size scrolls to the
    /// current conflict.
    pub open spec fn resized(self, window_height: int) -> HunkViewer {
        if self.window_height == window_height {
            self
        } else {
            HunkViewer { window_height, ..self }.scrolled_to_current(true)
        }
    }

    /// All that is shown, from top to bottom: the conflicts, the text before
    /// each, and the text after the last.
    pub open spec fn items(self) -> Seq<ScrollableItemView> {
        Seq::new(
            (2 * self.hunks.len() + 1) as nat,
            |k: int|
                if k == 2 * self.hunks.len() {
                    context_item(self.context_after)
                } else if k % 2 == 0 {
                    context_item(self.hunks[k / 2].context_before)
                } else {
                    self.hunk_item(k / 2)
                },
        )
    }

    /// The rows of the item `k` of all that is shown.
    pub open spec fn item_height(self, k: int) -> nat {
        if k == 2 * self.hunks.len() {
            context_height(self.context_after)
        } else if k % 2 == 0 {
            context_height(self.hunks[k / 2].context_before)
        } else {
            self.hunk_height(k / 2)
        }
    }

    /// The rows of the items before `k`.
    pub open spec fn rows_above(self, k: int) -> nat
        decreases k,
    {
        if k <= 0 {
            0
        } else {
            self.rows_above(k - 1) + self.item_height(k - 1)
        }
    }

    /// Whether some conflict is resolved.
    pub open spec fn any_resolved(self) -> bool {
        exists|i: int| 0 <= i < self.hunks.len() && (#[trigger] self.hunks[i]).selection is Some
    }

    /// The hunks of the file as they are resolved so far, text and conflicts in
    /// turn.
    pub open spec fn pieces(self) -> Seq<Seq<Seq<u8>>> {
        Seq::new(
            (2 * self.hunks.len() + 1) as nat,
            |k: int|
                if k == 2 * self.hunks.len() {
                    seq![self.context_after]
                } else if k % 2 == 0 {
                    seq![self.hunks[k / 2].context_before]
                } else {
                    match self.hunks[k / 2].selection {
                        Some(selection) => seq![selection.selected(self.hunks[k / 2].contents)],
                        None => self.hunks[k / 2].contents,
                    }
                },
        )
    }

    /// The contents as they are resolved so far, or none if they are as they
    /// were first.
    pub open spec fn merged_contents(self) -> Option<Seq<Seq<u8>>> {
        if self.any_resolved() {
            Some(joined(self.pieces()))
        } else {
            self.edited_contents
        }
    }

    /// The contents to give to an editor.
    pub open spec fn contents_to_edit(self) -> Seq<Seq<u8>> {
        match self.merged_contents() {
            Some(contents) => contents,
            None => self.file_contents(),
        }
    }

    /// What a key asks of the program around the viewer of a file with the given
    /// name: to edit the contents as they are resolved so far.
    pub open spec fn request(self, event: KeyEvent, file_name: Seq<char>) -> Option<EditRequest> {
        if Self::asks_for_editor(event) {
            Some(
                EditRequest {
                    file_name,
                    contents: self.contents_to_edit(),
                    labels: self.file_conflict.labels,
                },
            )
        } else {
            None
        }
    }

    /// What is drawn in a window of so many rows for a file with the given name.
    pub open spec fn drawn(self, file_name: Seq<char>, window_height: int) -> DrawnHunks {
        DrawnHunks {
            file_name,
            summary: self.summary(),
            summary_color: self.summary_color(),
            items: self.resized(window_height).items(),
        }
    }

    /// The choices made so far.
    pub open spec fn resolution(self) -> HunkResolutionView {
        HunkResolutionView {
            edited_contents: self.edited_contents,
            selections: Seq::new(self.hunks.len(), |i: int| self.hunks[i].selection),
        }
    }

    /// Whether so many files can stand for the resolved contents: one file, a
    /// file for each term of the merge, or a file for each term that its
    /// simplification leaves.
    pub open spec fn ids_fit(self, len: nat) -> bool {
        ||| len == 1
        ||| len == self.file_conflict.unsimplified_ids.len()
        ||| len == simplified(self.file_conflict.unsimplified_ids).len()
    }

    /// Whether there is something to record, and so many files can stand for it:
    /// one for each term of the resolved contents.
    pub open spec fn can_confirm(self, len: nat) -> bool {
        &&& self.merged_contents() matches Some(contents) && contents.len() == len
        &&& self.ids_fit(len)
    }

    /// The files for the terms of the merge, given the files for the resolved
    /// contents.
    pub open spec fn new_file_ids(self, ids: Seq<Seq<u8>>) -> Seq<Option<Seq<u8>>> {
        if ids.len() == 1 || ids.len() == self.file_conflict.unsimplified_ids.len() {
            present(ids)
        } else {
            updated_from_simplified(self.file_conflict.unsimplified_ids, present(ids))
        }
    }

    /// The value of the path for the file with the given id.
    pub open spec fn tree_value(self, id: Seq<u8>) -> TreeValueView {
        TreeValueView::File {
            id,
            executable: self.file_conflict.executable == Some(true),
            copy_id: match self.file_conflict.copy_id {
                Some(copy_id) => copy_id,
                None => Seq::empty(),
            },
        }
    }

    /// The values of the path for the files with the given ids.
    pub open spec fn tree_values(self, ids: Seq<Option<Seq<u8>>>) -> Seq<Option<TreeValueView>> {
        Seq::new(
            ids.len(),
            |i: int|
                match ids[i] {
                    Some(id) => Some(self.tree_value(id)),
                    None => None,
                },
        )
    }
}

proof fn lemma_split_terms(hunks: Seq<Seq<Seq<u8>>>, len: nat)
    requires
        forall|i: int|
            0 <= i < hunks.len() ==> (#[trigger] hunks[i]).len() == 1 || hunks[i].len() == len,
    ensures
        split_hunks(hunks).0.len() <= hunks.len(),
        forall|i: int|
            0 <= i < split_hunks(hunks).0.len() ==> {
                &&& (#[trigger] split_hunks(hunks).0[i]).contents.len() == len
                &&& split_hunks(hunks).0[i].contents.len() != 1
                &&& split_hunks(hunks).0[i].selection is None
            },
        split_hunks(hunks).0.len() == 0 <==> (forall|i: int|
            0 <= i < hunks.len() ==> (#[trigger] hunks[i]).len() == 1),
    decreases hunks.len(),
{
    if hunks.len() > 0 {
        let rest = hunks.drop_last();
        assert forall|i: int| 0 <= i < rest.len() implies (#[trigger] rest[i]).len() == 1
            || rest[i].len() == len by {
            assert(hunks[i].len() == 1 || hunks[i].len() == len);
        }
        lemma_split_terms(rest, len);
        assert(hunks[hunks.len() - 1].len() == 1 || hunks[hunks.len() - 1].len() == len);
        if split_hunks(hunks).0.len() == 0 {
            assert forall|i: int| 0 <= i < hunks.len() implies (#[trigger] hunks[i]).len() == 1 by {
                if i < rest.len() {
                    assert(rest[i].len() == 1);
                }
            }
        }
        if forall|i: int| 0 <= i < hunks.len() ==> (#[trigger] hunks[i]).len() == 1 {
            assert forall|i: int| 0 <= i < rest.len() implies (#[trigger] rest[i]).len() == 1 by {
                assert(hunks[i].len() == 1);
            }
        }
    }
}

/// The current conflict of a viewer that is opened is the first one that is
/// not resolved, or the first of all.
pub proof fn lemma_first_open(hunks: Seq<HunkView>, index: int)
    requires
        0 <= index,
        forall|i: int|
            0 <= i < index && i < hunks.len() ==> (#[trigger] hunks[i]).selection is Some,
    ensures
        ({
            let open = first_open(hunks, index);
            ||| open == 0 && forall|i: int|
                0 <= i < hunks.len() ==> (#[trigger] hunks[i]).selection is Some
            ||| {
                &&& 0 <= open < hunks.len()
                &&& hunks[open].selection is None
                &&& forall|i: int| 0 <= i < open ==> (#[trigger] hunks[i]).selection is Some
            }
        }),
    decreases hunks.len() - index,
{
    if index < hunks.len() && hunks[index].selection is Some {
        lemma_first_open(hunks, index + 1);
    }
}

/// A viewer that is opened with fitting choices is in a valid state.
pub proof fn law_opened_is_valid(
    options: MergeOptions,
    file_conflict: FileConflictView,
    resolution: HunkResolutionView,
    result: MergeResultView,
)
    requires
        file_conflict.unsimplified_ids.len() % 2 == 1,
        file_conflict.contents.len() % 2 == 1,
        ({
            let contents = match resolution.edited_contents {
                Some(contents) => contents,
                None => file_conflict.contents,
            };
            &&& contents.len() % 2 == 1
            &&& contents.len() <= usize::MAX
            &&& result.fits(contents.len())
            &&& resolution.valid_for(num_sides(contents))
        }),
        split_result(result).0.len() <= usize::MAX,
        resolution.selections.len() == 0 || resolution.selections.len() == split_result(
            result,
        ).0.len(),
    ensures
        HunkViewer::opened(options, file_conflict, resolution, result).inv(),
{
    let viewer = HunkViewer::opened(options, file_conflict, resolution, result);
    let contents = viewer.file_contents();
    let found = split_result(result).0;
    if let MergeResultView::Conflict(hunks) = result {
        lemma_split_terms(hunks, contents.len());
    }
    assert forall|i: int| 0 <= i < viewer.hunks.len() implies {
        &&& (#[trigger] viewer.hunks[i]).contents.len() == contents.len()
        &&& contents.len() >= 3
        &&& match viewer.hunks[i].selection {
            Some(selection) => selection.valid_for(viewer.num_sides()),
            None => true,
        }
    } by {
        assert(found[i].contents.len() == contents.len());
        if resolution.selections.len() > 0 {
            assert(viewer.hunks[i].selection == resolution.selections[i]);
        }
    }
    if viewer.hunks.len() > 0 {
        assert(viewer.hunks[0].contents.len() == contents.len());
    }
    lemma_first_open(viewer.hunks, 0);
}

/// A viewer shows conflicts exactly when the contents could not be merged.
pub proof fn law_conflicts_are_shown(result: MergeResultView, len: nat)
    requires
        result.fits(len),
    ensures
        split_result(result).0.len() == 0 <==> result is Resolved,
{
    if let MergeResultView::Conflict(hunks) = result {
        lemma_split_terms(hunks, len);
    }
}

} // verus!
