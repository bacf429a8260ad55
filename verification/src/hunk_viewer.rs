//! A viewer for the conflicts within a file.

use crate::conflict::{Conflict, FileConflict, KeyCode, KeyEvent, SelectToolResult, TreeValue};
use crate::files::{
    from_hunks, hunk_terms, lemma_joined_len, merge_hunks, merged_hunks, MergeOptions, MergeResult,
};
use crate::hunk_laws::lemma_resolving_the_rest_keeps_validity;
use crate::hunk_model::{
    first_open, law_opened_is_valid, no_resolution, split_hunks, split_result, with_selections,
    DrawnHunks, EditRequest, HunkResolutionView, HunkView, HunkViewer,
};
use crate::labels::ConflictLabels;
use crate::merge::{num_sides, simplify, update_from_simplified, Merge, Term};
use crate::screen::{
    content_to_text, context_height, context_hunk, context_item, diff_to_text, ScrollableItem,
    ScrollableItemView, TextColor,
};
use crate::scroll::{align_offset, scroll_offset_by, visible_context, ScrollDirection};
use crate::selection::{present, HunkSelection};
use crate::simplification::law_updated_from_simplified;
use crate::text::{decimal, decimal_string};
use jj_lib::backend::CopyId;
use jj_lib::object_id::ObjectId;
use ratatui::layout::Rect;
use ratatui::widgets::Block;
use vstd::prelude::*;

verus! {

/// The choices made in a viewer, with which it can be opened again.
#[derive(Debug)]
pub struct HunkConflictResolution {
    edited_contents: Option<Merge<Vec<u8>>>,
    selections: Vec<Option<HunkSelection>>,
}

/// The terms of contents that an editor left, if one was used.
spec fn edited_view(contents: Option<Merge<Vec<u8>>>) -> Option<Seq<Seq<u8>>> {
    match contents {
        Some(contents) => Some(contents@),
        None => None,
    }
}

impl View for HunkConflictResolution {
    type V = HunkResolutionView;

    closed spec fn view(&self) -> HunkResolutionView {
        HunkResolutionView {
            edited_contents: edited_view(self.edited_contents),
            selections: self.selections@,
        }
    }
}

impl HunkConflictResolution {
    /// The given choices.
    pub fn from_parts(
        edited_contents: Option<Merge<Vec<u8>>>,
        selections: Vec<Option<HunkSelection>>,
    ) -> (resolution: Self)
        ensures
            resolution@.edited_contents == (match edited_contents {
                Some(contents) => Some(contents@),
                None => None,
            }),
            resolution@.selections == selections@,
    {
        HunkConflictResolution { edited_contents, selections }
    }

    /// Whether every selection picks a term of conflicts of so many sides.
    pub fn fits(&self, sides: usize) -> (fits: bool)
        ensures
            fits == self@.valid_for(sides as nat),
    {
        for i in 0..self.selections.len()
            invariant
                forall|j: int|
                    0 <= j < i ==> match #[trigger] self.selections@[j] {
                        Some(selection) => selection.valid_for(sides as nat),
                        None => true,
                    },
        {
            if let Some(selection) = self.selections[i] {
                let valid = match selection {
                    HunkSelection::Added(index) => index < sides,
                    HunkSelection::Removed(index) => sides > 0 && index < sides - 1,
                    HunkSelection::AllAdded => true,
                };
                if !valid {
                    assert(self@.selections[i as int] == Some(selection));
                    return false;
                }
            }
        }
        true
    }
}

/// A conflict within a file.
#[derive(Debug)]
pub struct ConflictHunk {
    context_before: Vec<u8>,
    contents: Merge<Vec<u8>>,
    selection: Option<HunkSelection>,
}

impl View for ConflictHunk {
    type V = HunkView;

    closed spec fn view(&self) -> HunkView {
        HunkView {
            context_before: self.context_before@,
            contents: self.contents@,
            selection: self.selection,
        }
    }
}

spec fn hunk_views(hunks: Seq<ConflictHunk>) -> Seq<HunkView> {
    Seq::new(hunks.len(), |i: int| hunks[i]@)
}

/// The state of a viewer for the conflicts within a file.
#[derive(Debug)]
pub struct HunkConflictViewerState {
    options: MergeOptions,
    file_conflict: FileConflict,
    edited_contents: Option<Merge<Vec<u8>>>,
    hunks: Vec<ConflictHunk>,
    hunk_index: usize,
    context_after: Vec<u8>,
    current_selection: HunkSelection,
    scroll_offset: usize,
    window_height: u16,
    show_diff: bool,
}

impl View for HunkConflictViewerState {
    type V = HunkViewer;

    closed spec fn view(&self) -> HunkViewer {
        HunkViewer {
            options: self.options,
            file_conflict: self.file_conflict@,
            edited_contents: edited_view(self.edited_contents),
            hunks: hunk_views(self.hunks@),
            hunk_index: self.hunk_index as int,
            context_after: self.context_after@,
            current_selection: self.current_selection,
            scroll_offset: self.scroll_offset as int,
            window_height: self.window_height as int,
            show_diff: self.show_diff,
        }
    }
}

/// The choices to open a viewer with.
pub open spec fn resolution_or_none(
    resolution: Option<&HunkConflictResolution>,
) -> HunkResolutionView {
    match resolution {
        Some(resolution) => resolution@,
        None => no_resolution(),
    }
}

/// The contents to resolve with the given choices.
pub open spec fn contents_to_resolve(
    file_conflict: FileConflict,
    resolution: HunkResolutionView,
) -> Seq<Seq<u8>> {
    match resolution.edited_contents {
        Some(contents) => contents,
        None => file_conflict.contents@,
    }
}

fn split_conflicts(result: MergeResult) -> (split: (Vec<ConflictHunk>, Vec<u8>))
    ensures
        hunk_views(split.0@) == split_result(result@).0,
        split.1@ == split_result(result@).1,
{
    match result {
        MergeResult::Resolved(contents) => {
            let hunks: Vec<ConflictHunk> = Vec::new();
            assert(hunk_views(hunks@) =~= Seq::<HunkView>::empty());
            (hunks, contents)
        },
        MergeResult::Conflict(hunks) => {
            let ghost all = hunk_terms(hunks@);
            let mut conflicts: Vec<ConflictHunk> = Vec::new();
            let mut context: Vec<u8> = Vec::new();
            assert(all.take(0) =~= Seq::<Seq<Seq<u8>>>::empty());
            assert(hunk_views(conflicts@) =~= Seq::<HunkView>::empty());
            for i in 0..hunks.len()
                invariant
                    all == hunk_terms(hunks@),
                    hunk_views(conflicts@) == split_hunks(all.take(i as int)).0,
                    context@ == split_hunks(all.take(i as int)).1,
            {
                assert(all.take(i + 1).drop_last() =~= all.take(i as int));
                let hunk = &hunks[i];
                if hunk.is_resolved() {
                    let part = hunk.get(0).unwrap();
                    let ghost before = context@;
                    context.extend_from_slice(part.as_slice());
                    assert(context@ =~= before + part@);
                } else {
                    let ghost before = hunk_views(conflicts@);
                    let conflict = ConflictHunk {
                        context_before: context,
                        contents: hunk.copy(),
                        selection: None,
                    };
                    conflicts.push(conflict);
                    assert(hunk_views(conflicts@) =~= before.push(conflict@));
                    context = Vec::new();
                }
            }
            assert(all.take(all.len() as int) =~= all);
            (conflicts, context)
        },
    }
}

impl HunkConflictViewerState {
    /// A viewer for a conflict, given what the contents to resolve are merged
    /// to.
    pub fn from_merge_result(
        options: MergeOptions,
        file_conflict: FileConflict,
        resolution: Option<&HunkConflictResolution>,
        result: MergeResult,
    ) -> (state: Self)
        requires
            resolution_or_none(resolution).selections.len() == 0 || resolution_or_none(
                resolution,
            ).selections.len() == split_result(result@).0.len(),
        ensures
            state@ == HunkViewer::opened(
                options,
                file_conflict@,
                resolution_or_none(resolution),
                result@,
            ),
    {
        let ghost choices = resolution_or_none(resolution);
        let ghost found = split_result(result@).0;
        let (mut hunks, context_after) = split_conflicts(result);
        let mut edited_contents: Option<Merge<Vec<u8>>> = None;
        if let Some(resolution) = resolution {
            if let Some(contents) = &resolution.edited_contents {
                edited_contents = Some(contents.copy());
            }
            let selections = &resolution.selections;
            if !selections.is_empty() {
                let len = hunks.len();
                for i in 0..len
                    invariant
                        len == hunks@.len() == found.len() == selections@.len(),
                        forall|j: int|
                            0 <= j < i ==> (#[trigger] hunks@[j])@ == (HunkView {
                                selection: selections@[j],
                                ..found[j]
                            }),
                        forall|j: int| i <= j < len ==> (#[trigger] hunks@[j])@ == found[j],
                {
                    hunks[i].selection = selections[i];
                }
            }
        }
        assert(hunk_views(hunks@) =~= with_selections(found, choices.selections));
        let ghost views = hunk_views(hunks@);
        let mut hunk_index: usize = 0;
        let len = hunks.len();
        while hunk_index < len && hunks[hunk_index].selection.is_some()
            invariant
                hunk_index <= len == hunks@.len(),
                views == hunk_views(hunks@),
                first_open(views, hunk_index as int) == first_open(views, 0),
            decreases len - hunk_index,
        {
            assert(views[hunk_index as int].selection is Some);
            hunk_index = hunk_index + 1;
        }
        if hunk_index == len {
            hunk_index = 0;
        }
        let mut current_selection = HunkSelection::Added(0);
        if hunk_index < len {
            assert(views[hunk_index as int] == hunks@[hunk_index as int]@);
            if let Some(selection) = hunks[hunk_index].selection {
                current_selection = selection;
            }
        }
        HunkConflictViewerState {
            options,
            file_conflict,
            edited_contents,
            hunks,
            hunk_index,
            context_after,
            current_selection,
            scroll_offset: 0,
            window_height: 0,
            show_diff: false,
        }
    }

    /// A viewer for a conflict. Contents that an editor left and selections
    /// are taken from earlier choices; selections are given for all conflicts
    /// or for none.
    pub fn new(
        options: MergeOptions,
        file_conflict: FileConflict,
        resolution: Option<&HunkConflictResolution>,
    ) -> (state: Self)
        requires
            file_conflict.wf(),
            contents_to_resolve(file_conflict, resolution_or_none(resolution)).len() % 2 == 1,
            resolution_or_none(resolution).selections.len() == 0 || resolution_or_none(
                resolution,
            ).selections.len() == split_result(
                merged_hunks(
                    contents_to_resolve(file_conflict, resolution_or_none(resolution)),
                    options,
                ),
            ).0.len(),
        ensures
            state@ == HunkViewer::opened(
                options,
                file_conflict@,
                resolution_or_none(resolution),
                merged_hunks(
                    contents_to_resolve(file_conflict, resolution_or_none(resolution)),
                    options,
                ),
            ),
            resolution_or_none(resolution).valid_for(state@.num_sides()) ==> state@.inv(),
    {
        let result = Self::merge_contents(options, &file_conflict, resolution);
        let state = Self::from_merge_result(options, file_conflict, resolution, result);
        proof {
            state.lemma_opened(file_conflict, resolution, result);
        }
        state
    }

    /// A viewer for a conflict, unless there are selections and not one for
    /// each conflict.
    pub fn try_new(
        options: MergeOptions,
        file_conflict: FileConflict,
        resolution: Option<&HunkConflictResolution>,
    ) -> (state: Option<Self>)
        requires
            file_conflict.wf(),
            contents_to_resolve(file_conflict, resolution_or_none(resolution)).len() % 2 == 1,
        ensures
            ({
                let choices = resolution_or_none(resolution);
                let result = merged_hunks(contents_to_resolve(file_conflict, choices), options);
                match state {
                    Some(state) => {
                        &&& choices.selections.len() == 0 || choices.selections.len()
                            == split_result(result).0.len()
                        &&& state@ == HunkViewer::opened(options, file_conflict@, choices, result)
                        &&& choices.valid_for(state@.num_sides()) ==> state@.inv()
                    },
                    None => choices.selections.len() != 0 && choices.selections.len()
                        != split_result(result).0.len(),
                }
            }),
    {
        let result = Self::merge_contents(options, &file_conflict, resolution);
        if let Some(resolution) = resolution {
            let selections = resolution.selections.len();
            if selections != 0 && selections != count_conflicts(&result) {
                return None;
            }
        }
        let state = Self::from_merge_result(options, file_conflict, resolution, result);
        proof {
            state.lemma_opened(file_conflict, resolution, result);
        }
        Some(state)
    }

    fn merge_contents(
        options: MergeOptions,
        file_conflict: &FileConflict,
        resolution: Option<&HunkConflictResolution>,
    ) -> (result: MergeResult)
        requires
            file_conflict.wf(),
            contents_to_resolve(*file_conflict, resolution_or_none(resolution)).len() % 2 == 1,
        ensures
            result@ == merged_hunks(
                contents_to_resolve(*file_conflict, resolution_or_none(resolution)),
                options,
            ),
            result@.fits(
                contents_to_resolve(*file_conflict, resolution_or_none(resolution)).len(),
            ),
    {
        if let Some(resolution) = resolution {
            if let Some(contents) = &resolution.edited_contents {
                return merge_hunks(contents, options);
            }
        }
        merge_hunks(&file_conflict.contents, options)
    }

    proof fn lemma_opened(
        self,
        file_conflict: FileConflict,
        resolution: Option<&HunkConflictResolution>,
        result: MergeResult,
    )
        requires
            file_conflict.wf(),
            ({
                let choices = resolution_or_none(resolution);
                let contents = contents_to_resolve(file_conflict, choices);
                &&& contents.len() % 2 == 1
                &&& result@.fits(contents.len())
                &&& choices.selections.len() == 0 || choices.selections.len() == split_result(
                    result@,
                ).0.len()
                &&& self@ == HunkViewer::opened(self.options, file_conflict@, choices, result@)
            }),
        ensures
            resolution_or_none(resolution).valid_for(self@.num_sides()) ==> self@.inv(),
    {
        let choices = resolution_or_none(resolution);
        let contents = contents_to_resolve(file_conflict, choices);
        if choices.valid_for(self@.num_sides()) {
            assert(self@.hunks.len() == self.hunks@.len());
            assert(self.hunks@.len() == self.hunks.len());
            assert(contents.len() <= usize::MAX) by {
                match self.edited_contents {
                    Some(edited) => {
                        assert(contents == edited@);
                        edited.lemma_len();
                    },
                    None => {
                        file_conflict.contents.lemma_len();
                    },
                }
            }
            law_opened_is_valid(self.options, file_conflict@, choices, result@);
        }
    }

    /// The viewer of the same conflict with the contents that an editor left.
    /// All selections are dropped.
    pub fn set_contents(self, new_contents: Merge<Vec<u8>>) -> (state: Self)
        requires
            self@.file_conflict.unsimplified_ids.len() % 2 == 1,
            self@.file_conflict.contents.len() % 2 == 1,
            new_contents.wf(),
        ensures
            state@ == HunkViewer::opened(
                self@.options,
                self@.file_conflict,
                HunkResolutionView {
                    edited_contents: if new_contents@ == self@.file_conflict.contents {
                        None
                    } else {
                        Some(new_contents@)
                    },
                    selections: Seq::empty(),
                },
                merged_hunks(new_contents@, self@.options),
            ),
            state@ == self@.with_contents(
                new_contents@,
                merged_hunks(new_contents@, self@.options),
            ),
            state@.inv(),
    {
        let edited_contents = if new_contents.same(&self.file_conflict.contents) {
            None
        } else {
            Some(new_contents)
        };
        let resolution = HunkConflictResolution { edited_contents, selections: Vec::new() };
        Self::new(self.options, self.file_conflict, Some(&resolution))
    }
}

impl ConflictHunk {
    /// Whether the terms can alternate and the selection picks one of them.
    pub open spec fn wf(self) -> bool {
        &&& self@.contents.len() % 2 == 1
        &&& match self@.selection {
            Some(selection) => selection.valid_for(num_sides(self@.contents)),
            None => true,
        }
    }

    /// What the conflict is resolved to, if it is.
    pub fn resolved_contents(&self) -> (contents: Option<Vec<u8>>)
        requires
            self.wf(),
        ensures
            match contents {
                Some(contents) => self@.selection is Some && contents@
                    == self@.selection->0.selected(self@.contents),
                None => self@.selection is None,
            },
    {
        match self.selection {
            Some(selection) => Some(selection.select_from(&self.contents)),
            None => None,
        }
    }

    /// Whether the conflict is resolved.
    pub fn is_resolved(&self) -> (resolved: bool)
        ensures
            resolved == (self@.selection is Some),
    {
        self.selection.is_some()
    }

    /// The text before the conflict as it is shown.
    pub fn context_scrollable_item(&self) -> (item: ScrollableItem)
        ensures
            item@ == context_item(self@.context_before),
            item@.height() == context_height(self@.context_before),
    {
        context_hunk(&self.context_before)
    }

    /// The conflict as it is shown.
    pub fn hunk_scrollable_item(
        &self,
        state: &HunkConflictViewerState,
        index: usize,
    ) -> (item: ScrollableItem)
        requires
            state@.inv(),
            index < state@.hunks.len(),
            self@ == state@.hunks[index as int],
        ensures
            item@ == state@.hunk_item(index as int),
            item@.height() == state@.hunk_height(index as int),
    {
        let num_hunks = state.hunks.len();
        assert(state@.hunks[index as int].contents.len() == state@.file_contents().len());
        if let Some(selected) = self.resolved_contents() {
            let body = content_to_text(&selected);
            return ScrollableItem::ResolvedHunk { body, focused: state.hunk_index == index };
        }
        let mut title = if state.hunk_index == index {
            "\u{1f783}".to_owned()
        } else {
            "\u{1f782}".to_owned()
        };
        title.append(" Conflict ");
        title.append(decimal_string(index + 1).as_str());
        title.append("/");
        title.append(decimal_string(num_hunks).as_str());
        proof {
            reveal_strlit("\u{1f783}");
            reveal_strlit("\u{1f782}");
            let number = " Conflict "@ + decimal((index + 1) as nat) + "/"@ + decimal(
                num_hunks as nat,
            );
            if state.hunk_index == index {
                assert(title@ =~= seq!['\u{1f783}'] + number);
            } else {
                assert(title@ =~= seq!['\u{1f782}'] + number);
            }
        }
        if state.hunk_index != index {
            return ScrollableItem::FoldedHunk { title };
        }
        let selection = state.current_selection;
        let choices = selection.list_reachable(self.contents.num_sides());
        let label = selection.get_label(&state.file_conflict.labels);
        let mut label_lines: Vec<String> = Vec::new();
        if state.show_diff {
            if let Some(diff) = selection.to_diff() {
                let removed = self.contents.get_remove(diff.before).unwrap();
                let added = self.contents.get_add(diff.after).unwrap();
                let body = diff_to_text(removed, added);
                let mut from = "diff from: ".to_owned();
                from.append(
                    state.file_conflict.labels.get_remove_or_default(diff.before).as_str(),
                );
                let mut to = "       to: ".to_owned();
                to.append(label.as_str());
                label_lines.push(from);
                label_lines.push(to);
                let item = ScrollableItem::OpenHunk {
                    title,
                    choices,
                    selection,
                    label_lines,
                    body,
                };
                assert(item@->OpenHunk_label_lines =~= state@.hunk_item(
                    index as int,
                )->OpenHunk_label_lines);
                return item;
            }
        }
        let body = content_to_text(&selection.select_from(&self.contents));
        label_lines.push(label);
        let item = ScrollableItem::OpenHunk { title, choices, selection, label_lines, body };
        assert(item@->OpenHunk_label_lines =~= state@.hunk_item(
            index as int,
        )->OpenHunk_label_lines);
        item
    }

    /// The text before the conflict and the conflict as they are shown.
    pub fn scrollable_items(
        &self,
        state: &HunkConflictViewerState,
        index: usize,
    ) -> (items: [ScrollableItem; 2])
        requires
            state@.inv(),
            index < state@.hunks.len(),
            self@ == state@.hunks[index as int],
        ensures
            items@[0]@ == context_item(self@.context_before),
            items@[0]@.height() == context_height(self@.context_before),
            items@[1]@ == state@.hunk_item(index as int),
            items@[1]@.height() == state@.hunk_height(index as int),
    {
        let context_item = self.context_scrollable_item();
        let hunk_item = self.hunk_scrollable_item(state, index);
        [context_item, hunk_item]
    }
}

impl HunkConflictViewerState {
    /// The current conflict, if there are conflicts.
    pub fn current_hunk(&self) -> (hunk: Option<&ConflictHunk>)
        ensures
            match hunk {
                Some(hunk) => self@.hunk_index < self@.hunks.len() && hunk@
                    == self@.hunks[self@.hunk_index],
                None => self@.hunk_index >= self@.hunks.len(),
            },
    {
        if self.hunk_index < self.hunks.len() {
            Some(&self.hunks[self.hunk_index])
        } else {
            None
        }
    }

    /// The contents that are resolved.
    pub fn file_contents(&self) -> (contents: &Merge<Vec<u8>>)
        ensures
            contents@ == self@.file_contents(),
    {
        match &self.edited_contents {
            Some(contents) => contents,
            None => &self.file_conflict.contents,
        }
    }

    /// The number of sides of the contents.
    pub fn num_sides(&self) -> (sides: usize)
        ensures
            sides == self@.num_sides(),
    {
        self.file_contents().num_sides()
    }

    /// The labels of the contents.
    pub fn labels(&self) -> (labels: &ConflictLabels)
        ensures
            labels@ == self@.file_conflict.labels,
    {
        &self.file_conflict.labels
    }

    /// The first row that is visible.
    pub fn scroll_offset(&self) -> (offset: usize)
        ensures
            offset == self@.scroll_offset,
    {
        self.scroll_offset
    }

    /// Sets the first row that is visible.
    pub fn set_scroll_offset(&mut self, scroll_offset: usize)
        ensures
            final(self)@ == (HunkViewer { scroll_offset: scroll_offset as int, ..old(self)@ }),
    {
        self.scroll_offset = scroll_offset;
    }

    /// Scrolls by a number of rows.
    pub fn scroll_by(&mut self, direction: ScrollDirection, amount: u16)
        ensures
            final(self)@ == old(self)@.scrolled_by(direction, amount as int),
    {
        scroll_offset_by(&mut self.scroll_offset, direction, amount);
    }

    /// The rows from the first of the current conflict to the one after it,
    /// unless they are too many to count in a `usize`.
    fn current_rows(&self) -> (rows: Option<(usize, usize)>)
        requires
            self@.inv(),
            self@.hunk_index < self@.hunks.len(),
        ensures
            match rows {
                Some((start, end)) => start == self@.start_row() && end == self@.end_row(),
                None => self@.end_row() > usize::MAX,
            },
    {
        let mut rows: usize = 0;
        for i in 0..self.hunk_index
            invariant
                self@.inv(),
                self.hunk_index == self@.hunk_index < self@.hunks.len(),
                rows == self@.rows_before(i as int),
        {
            let items = self.hunks[i].scrollable_items(self, i);
            proof {
                self@.lemma_rows_before_monotone(i + 1, self@.hunk_index);
            }
            for k in 0..2
                invariant
                    rows == self@.rows_before(i as int) + (if k == 0 {
                        0
                    } else {
                        items@[0]@.height()
                    }) + (if k <= 1 {
                        0
                    } else {
                        items@[1]@.height()
                    }),
                    self@.rows_before(i as int) + items@[0]@.height() + items@[1]@.height()
                        <= self@.end_row(),
            {
                match items[k].height() {
                    Some(height) => match rows.checked_add(height) {
                        Some(sum) => {
                            rows = sum;
                        },
                        None => {
                            return None;
                        },
                    },
                    None => {
                        return None;
                    },
                }
            }
        }
        let hunk = &self.hunks[self.hunk_index];
        let start = match hunk.context_scrollable_item().height() {
            Some(height) => match rows.checked_add(height) {
                Some(start) => start,
                None => {
                    return None;
                },
            },
            None => {
                return None;
            },
        };
        match hunk.hunk_scrollable_item(self, self.hunk_index).height() {
            Some(height) => match start.checked_add(height) {
                Some(end) => Some((start, end)),
                None => None,
            },
            None => None,
        }
    }

    /// Scrolls as little as possible to show the current conflict, and if
    /// `enforce_context` is set some rows around it.
    pub fn scroll_to_current_hunk(&mut self, enforce_context: bool)
        requires
            old(self)@.inv(),
            old(self)@.rows_countable(enforce_context),
        ensures
            final(self)@ == old(self)@.aligned_to_current(enforce_context),
            final(self)@.inv(),
    {
        if self.hunk_index >= self.hunks.len() {
            return;
        }
        if let Some((start, end)) = self.current_rows() {
            self.scroll_offset = align_offset(
                self.scroll_offset,
                self.window_height,
                start,
                end,
                enforce_context,
            );
        }
    }

    /// Scrolls to the current conflict and tells whether it did. Nothing is
    /// scrolled if there are more rows than can be counted in a `usize`.
    pub fn try_scroll_to_current_hunk(&mut self, enforce_context: bool) -> (scrolled: bool)
        requires
            old(self)@.inv(),
        ensures
            final(self)@ == old(self)@.scrolled_to_current(enforce_context),
            final(self)@.inv(),
            scrolled == old(self)@.rows_countable(enforce_context),
    {
        if self.hunk_index < self.hunks.len() {
            match self.current_rows() {
                Some((start, end)) => {
                    let context = visible_context(self.window_height, end - start, enforce_context);
                    if end > usize::MAX - context {
                        return false;
                    }
                },
                None => {
                    return false;
                },
            }
        }
        self.scroll_to_current_hunk(enforce_context);
        true
    }
}

impl HunkConflictViewerState {
    /// Goes to the conflict before, or scrolls up if there are no conflicts.
    pub fn prev_hunk(&mut self)
        requires
            old(self)@.inv(),
        ensures
            final(self)@ == old(self)@.to_prev_hunk(),
            final(self)@.inv(),
    {
        if self.hunks.is_empty() {
            self.scroll_by(ScrollDirection::Backward, 1);
            return;
        }
        if self.hunk_index > 0 {
            self.hunk_index = self.hunk_index - 1;
            if let Some(selection) = self.hunks[self.hunk_index].selection {
                self.current_selection = selection;
            }
            assert(self@ =~= old(self)@.at_hunk(old(self)@.hunk_index - 1));
        }
        self.try_scroll_to_current_hunk(true);
    }

    /// Goes to the next conflict, or scrolls down if there are no conflicts.
    pub fn next_hunk(&mut self)
        requires
            old(self)@.inv(),
        ensures
            final(self)@ == old(self)@.to_next_hunk(),
            final(self)@.inv(),
    {
        if self.hunks.is_empty() {
            self.scroll_by(ScrollDirection::Forward, 1);
            return;
        }
        if self.hunk_index < self.hunks.len() - 1 {
            self.hunk_index = self.hunk_index + 1;
            if let Some(selection) = self.hunks[self.hunk_index].selection {
                self.current_selection = selection;
            }
            assert(self@ =~= old(self)@.at_hunk(old(self)@.hunk_index + 1));
        }
        self.try_scroll_to_current_hunk(true);
    }

    /// Goes to the selection to the left, unless the current conflict is
    /// resolved.
    pub fn prev_term(&mut self)
        requires
            old(self)@.inv(),
        ensures
            final(self)@ == old(self)@.to_prev_term(),
            final(self)@.inv(),
    {
        if self.hunk_index < self.hunks.len() {
            if !self.hunks[self.hunk_index].is_resolved() {
                self.current_selection = self.current_selection.prev(self.num_sides());
            }
            self.try_scroll_to_current_hunk(false);
        }
    }

    /// Goes to the selection to the right, unless the current conflict is
    /// resolved.
    pub fn next_term(&mut self)
        requires
            old(self)@.inv(),
        ensures
            final(self)@ == old(self)@.to_next_term(),
            final(self)@.inv(),
    {
        if self.hunk_index < self.hunks.len() {
            if !self.hunks[self.hunk_index].is_resolved() {
                self.current_selection = self.current_selection.next(self.num_sides());
            }
            self.try_scroll_to_current_hunk(false);
        }
    }

    /// Changes between sides and bases, unless the current conflict is
    /// resolved.
    pub fn toggle_base(&mut self)
        requires
            old(self)@.inv(),
        ensures
            final(self)@ == old(self)@.with_base_toggled(),
            final(self)@.inv(),
    {
        if self.hunk_index < self.hunks.len() && !self.hunks[self.hunk_index].is_resolved() {
            self.current_selection = self.current_selection.toggle_add_remove(self.num_sides());
            self.try_scroll_to_current_hunk(false);
        }
    }

    /// Changes between contents and diffs, unless the current conflict is
    /// resolved.
    pub fn toggle_diff(&mut self)
        requires
            old(self)@.inv(),
        ensures
            final(self)@ == old(self)@.with_diff_toggled(),
            final(self)@.inv(),
    {
        if self.hunk_index < self.hunks.len() && !self.hunks[self.hunk_index].is_resolved() {
            self.show_diff = !self.show_diff;
            self.try_scroll_to_current_hunk(false);
        }
    }

    /// Resolves the current conflict to the current selection, or takes that
    /// back.
    fn toggle_current(&mut self)
        requires
            old(self)@.inv(),
        ensures
            final(self)@ == old(self)@.with_current_toggled(),
            final(self)@.inv(),
    {
        if self.hunk_index < self.hunks.len() {
            let selected = match self.hunks[self.hunk_index].selection {
                Some(selection) => selection == self.current_selection,
                None => false,
            };
            let selection = if selected {
                None
            } else {
                Some(self.current_selection)
            };
            self.resolve_hunk(self.hunk_index, selection);
        }
    }

    fn resolve_hunk(&mut self, index: usize, selection: Option<HunkSelection>)
        requires
            old(self)@.inv(),
            index < old(self)@.hunks.len(),
            match selection {
                Some(selection) => selection.valid_for(old(self)@.num_sides()),
                None => true,
            },
        ensures
            final(self)@ == old(self)@.resolving(index as int, selection),
            final(self)@.inv(),
    {
        self.hunks[index].selection = selection;
        assert(self@.hunks =~= old(self)@.resolving(index as int, selection).hunks);
        assert(self@ =~= old(self)@.resolving(index as int, selection));
    }

    /// Resolves all conflicts that are not resolved to the current selection.
    fn resolve_rest(&mut self)
        requires
            old(self)@.inv(),
        ensures
            final(self)@ == old(self)@.with_rest_resolved(),
            final(self)@.inv(),
    {
        let len = self.hunks.len();
        let ghost before = self@;
        let ghost after = self@.with_rest_resolved();
        for i in 0..len
            invariant
                len == self.hunks@.len() == before.hunks.len() == after.hunks.len(),
                before.inv(),
                after == before.with_rest_resolved(),
                self@ == (HunkViewer { hunks: self@.hunks, ..before }),
                forall|j: int| 0 <= j < i ==> (#[trigger] self.hunks@[j])@ == after.hunks[j],
                forall|j: int| i <= j < len ==> (#[trigger] self.hunks@[j])@ == before.hunks[j],
        {
            assert(self.hunks@[i as int]@ == before.hunks[i as int]);
            if !self.hunks[i].is_resolved() {
                self.hunks[i].selection = Some(self.current_selection);
            }
            assert(self.hunks@[i as int]@ == after.hunks[i as int]);
            assert(self@ =~= (HunkViewer { hunks: self@.hunks, ..before }));
        }
        assert(self@.hunks =~= after.hunks);
        assert(self@ =~= after);
        proof {
            lemma_resolving_the_rest_keeps_validity(before);
        }
    }

    /// Takes back what the current conflict is resolved to.
    fn clear_current(&mut self)
        requires
            old(self)@.inv(),
        ensures
            final(self)@ == old(self)@.with_current_cleared(),
            final(self)@.inv(),
    {
        if self.hunk_index < self.hunks.len() {
            self.resolve_hunk(self.hunk_index, None);
            self.try_scroll_to_current_hunk(false);
        }
    }
}

/// Calls `ratatui::widgets::Block::inner` on a block with borders on all sides.
///
/// Trusted: of the rows of the area, the borders take one at the top and one
/// at the bottom, as far as there are rows.
#[verifier::external_body]
fn bordered_inner_height(height: u16) -> (inner: u16)
    ensures
        inner == (if height < 2 {
            0
        } else {
            height - 2
        }),
{
    Block::bordered().inner(Rect::new(0, 0, 0, height)).height
}

/// Calls `jj_lib::backend::CopyId::placeholder`.
///
/// Trusted: the placeholder is the empty id.
#[verifier::external_body]
fn placeholder_copy_id() -> (id: Vec<u8>)
    ensures
        id@ == Seq::<u8>::empty(),
{
    CopyId::placeholder().to_bytes()
}

/// What the viewer shows.
#[derive(Debug, PartialEq, Eq)]
pub struct RenderedHunks {
    /// The name of the file.
    pub file_name: String,
    /// How far the file is resolved.
    pub summary: String,
    /// The color of the summary.
    pub summary_color: TextColor,
    /// The scrolled contents from top to bottom.
    pub items: Vec<ScrollableItem>,
}

impl View for RenderedHunks {
    type V = DrawnHunks;

    open spec fn view(&self) -> DrawnHunks {
        DrawnHunks {
            file_name: self.file_name@,
            summary: self.summary@,
            summary_color: self.summary_color,
            items: self.item_views(),
        }
    }
}

impl RenderedHunks {
    /// What the items stand for.
    pub open spec fn item_views(self) -> Seq<ScrollableItemView> {
        Seq::new(self.items@.len(), |i: int| self.items@[i]@)
    }
}

impl HunkConflictViewerState {
    /// Handles a key that is pressed, and asks for an editor if the key does.
    pub fn handle_press(&mut self, event: KeyEvent, conflict: &Conflict) -> (result: Option<
        SelectToolResult,
    >)
        requires
            old(self)@.inv(),
        ensures
            final(self)@ == old(self)@.pressed(event),
            final(self)@.inv(),
            match result {
                Some(SelectToolResult::EditConflict { file_name, contents, labels }) => {
                    &&& HunkViewer::asks_for_editor(event)
                    &&& file_name@ == conflict.file_name@
                    &&& contents@ == old(self)@.contents_to_edit()
                    &&& contents.wf()
                    &&& labels@ == old(self)@.file_conflict.labels
                },
                None => !HunkViewer::asks_for_editor(event),
            },
            match result {
                Some(SelectToolResult::EditConflict { file_name, contents, labels }) => old(
                    self,
                )@.request(event, conflict.file_name@) == Some(
                    EditRequest {
                        file_name: file_name@,
                        contents: contents@,
                        labels: labels@,
                    },
                ),
                None => old(self)@.request(event, conflict.file_name@) is None,
            },
    {
        if event.modifiers != 0 {
            return None;
        }
        match event.code {
            KeyCode::Up | KeyCode::Char('k') => self.prev_hunk(),
            KeyCode::Down | KeyCode::Char('j') => self.next_hunk(),
            KeyCode::Left | KeyCode::Char('h') => self.prev_term(),
            KeyCode::Right | KeyCode::Char('l') => self.next_term(),
            KeyCode::Enter | KeyCode::Char(' ') => self.toggle_current(),
            KeyCode::Char('a') => self.resolve_rest(),
            KeyCode::Char('b') => self.toggle_base(),
            KeyCode::Char('d') => self.toggle_diff(),
            KeyCode::Char('e') => {
                let contents = match self.get_merged_contents() {
                    Some(contents) => contents,
                    None => self.file_contents().copy(),
                };
                return Some(
                    SelectToolResult::EditConflict {
                        file_name: conflict.file_name.clone(),
                        contents,
                        labels: self.file_conflict.labels.copy(),
                    },
                );
            },
            KeyCode::Backspace | KeyCode::Delete => self.clear_current(),
            _ => {},
        }
        None
    }

    /// The contents as they are resolved so far, or none if they are as they
    /// were first.
    pub fn get_merged_contents(&self) -> (contents: Option<Merge<Vec<u8>>>)
        requires
            self@.inv(),
        ensures
            match contents {
                Some(contents) => self@.merged_contents() == Some(contents@) && contents.wf(),
                None => self@.merged_contents() is None,
            },
    {
        let len = self.hunks.len();
        let mut any_resolved = false;
        let mut pieces: Vec<Merge<Vec<u8>>> = Vec::new();
        for i in 0..len
            invariant
                self@.inv(),
                len == self.hunks@.len() == self@.hunks.len(),
                any_resolved == (exists|j: int|
                    0 <= j < i && (#[trigger] self@.hunks[j]).selection is Some),
                pieces@.len() == 2 * i,
                forall|k: int| 0 <= k < 2 * i ==> (#[trigger] pieces@[k])@ == self@.pieces()[k],
        {
            let hunk = &self.hunks[i];
            assert(hunk@ == self@.hunks[i as int]);
            let context = Merge::resolved(hunk.context_before.copy());
            assert(context@ =~= seq![hunk@.context_before]);
            pieces.push(context);
            match hunk.resolved_contents() {
                Some(contents) => {
                    any_resolved = true;
                    let piece = Merge::resolved(contents);
                    assert(piece@ =~= seq![contents@]);
                    pieces.push(piece);
                },
                None => {
                    pieces.push(hunk.contents.copy());
                },
            }
        }
        if !any_resolved {
            return match &self.edited_contents {
                Some(contents) => Some(contents.copy()),
                None => None,
            };
        }
        let last = Merge::resolved(self.context_after.copy());
        assert(last@ =~= seq![self@.context_after]);
        pieces.push(last);
        proof {
            let all = hunk_terms(pieces@);
            assert(all =~= self@.pieces());
            let terms = self@.file_contents().len();
            assert forall|k: int| 0 <= k < all.len() implies (#[trigger] all[k]).len() == 1
                || all[k].len() == terms by {
                if k % 2 == 1 {
                    assert(self@.hunks[k / 2].contents.len() == terms);
                }
            }
            lemma_joined_len(all, terms);
        }
        Some(from_hunks(&pieces))
    }

    /// What to show in an area of so many rows. If their number has changed,
    /// scrolls to the current conflict first.
    pub fn render(&mut self, area_height: u16, conflict: &Conflict) -> (rendered: RenderedHunks)
        requires
            old(self)@.inv(),
        ensures
            final(self)@ == old(self)@.resized(
                if area_height < 2 {
                    0
                } else {
                    area_height - 2
                },
            ),
            final(self)@.inv(),
            rendered.file_name@ == conflict.file_name@,
            rendered.summary@ == old(self)@.summary(),
            rendered.summary_color == old(self)@.summary_color(),
            rendered.item_views() == final(self)@.items(),
            rendered@ == old(self)@.drawn(
                conflict.file_name@,
                if area_height < 2 {
                    0
                } else {
                    area_height - 2
                },
            ),
            forall|k: int|
                0 <= k < rendered.items@.len() ==> (#[trigger] rendered.items@[k])@.height()
                    == final(self)@.item_height(k),
    {
        let (summary, summary_color) = self.conflict_summary();
        let new_window_height = bordered_inner_height(area_height);
        if self.window_height != new_window_height {
            self.window_height = new_window_height;
            self.try_scroll_to_current_hunk(true);
        }
        let items = self.scrollable_items();
        RenderedHunks { file_name: conflict.file_name.clone(), summary, summary_color, items }
    }

    /// How far the file is resolved, in words and as a color.
    pub fn conflict_summary(&self) -> (summary: (String, TextColor))
        ensures
            summary.0@ == self@.summary(),
            summary.1 == self@.summary_color(),
    {
        let total_count = self.hunks.len();
        let mut resolved_count: usize = 0;
        for i in 0..total_count
            invariant
                total_count == self.hunks@.len() == self@.hunks.len(),
                resolved_count <= i,
                resolved_count == self@.resolved_before(i as int),
        {
            assert(self.hunks@[i as int]@ == self@.hunks[i as int]);
            if self.hunks[i].is_resolved() {
                resolved_count = resolved_count + 1;
            }
        }
        let color = if resolved_count == total_count {
            TextColor::Green
        } else if resolved_count == 0 && self.edited_contents.is_none() {
            TextColor::Red
        } else {
            TextColor::Yellow
        };
        if total_count == 0 {
            return ("(resolved by editor)".to_owned(), color);
        }
        let mut summary = "(".to_owned();
        summary.append(decimal_string(resolved_count).as_str());
        summary.append("/");
        summary.append(decimal_string(total_count).as_str());
        summary.append(" conflicts resolved");
        summary.append(
            if self.edited_contents.is_some() {
                ", edited"
            } else {
                ""
            },
        );
        summary.append(")");
        (summary, color)
    }

    fn scrollable_items(&self) -> (items: Vec<ScrollableItem>)
        requires
            self@.inv(),
        ensures
            Seq::new(items@.len(), |i: int| items@[i]@) == self@.items(),
            forall|k: int|
                0 <= k < items@.len() ==> (#[trigger] items@[k])@.height() == self@.item_height(k),
    {
        let len = self.hunks.len();
        let mut items: Vec<ScrollableItem> = Vec::new();
        for i in 0..len
            invariant
                self@.inv(),
                len == self.hunks@.len() == self@.hunks.len(),
                items@.len() == 2 * i,
                forall|k: int|
                    0 <= k < 2 * i ==> {
                        &&& (#[trigger] items@[k])@ == self@.items()[k]
                        &&& items@[k]@.height() == self@.item_height(k)
                    },
        {
            let hunk = &self.hunks[i];
            assert(hunk@ == self@.hunks[i as int]);
            items.push(hunk.context_scrollable_item());
            items.push(hunk.hunk_scrollable_item(self, i));
        }
        items.push(context_hunk(&self.context_after));
        assert(Seq::new(items@.len(), |i: int| items@[i]@) =~= self@.items());
        items
    }

    /// What to record for the path once the merged contents are written to
    /// files, one for each of their terms: the values of the path, and the
    /// choices made so far.
    pub fn confirm(&self, file_ids: Merge<Vec<u8>>) -> (result: (
        Merge<Option<TreeValue>>,
        HunkConflictResolution,
    ))
        requires
            self@.inv(),
            file_ids.wf(),
            self@.can_confirm(file_ids@.len()),
        ensures
            result.0@ == self@.tree_values(self@.new_file_ids(file_ids@)),
            result.0.wf(),
            result.0@.len() == 1 || result.0@.len() == self@.file_conflict.unsimplified_ids.len(),
            forall|k: int|
                0 <= k < file_ids@.len() ==> result.0@.contains(
                    Some(self@.tree_value(#[trigger] file_ids@[k])),
                ),
            result.1@ == self@.resolution(),
    {
        let ghost ids = file_ids@;
        let len = file_ids.len();
        let mut terms: Vec<Option<Vec<u8>>> = Vec::new();
        for i in 0..len
            invariant
                len == ids.len(),
                ids == file_ids@,
                terms@.len() == i,
                forall|j: int| 0 <= j < i ==> (#[trigger] terms@[j]).model() == Some(ids[j]),
        {
            terms.push(Some(file_ids.get(i).unwrap().copy()));
        }
        let written = Merge::from_vec(terms);
        assert(written@ =~= present(ids));
        let unsimplified_ids = &self.file_conflict.unsimplified_ids;
        let new_file_ids = if written.is_resolved() || written.num_sides()
            == unsimplified_ids.num_sides() {
            written
        } else {
            proof {
                law_updated_from_simplified(unsimplified_ids@, written@);
            }
            update_from_simplified(unsimplified_ids, written)
        };
        assert(new_file_ids@ == self@.new_file_ids(ids));
        assert forall|k: int| 0 <= k < ids.len() implies new_file_ids@.contains(
            Some(#[trigger] ids[k]),
        ) by {
            assert(present(ids)[k] == Some(ids[k]));
        }
        let resolved_value = self.file_values(&new_file_ids);
        assert forall|k: int| 0 <= k < ids.len() implies resolved_value@.contains(
            Some(self@.tree_value(#[trigger] ids[k])),
        ) by {
            assert(new_file_ids@.contains(Some(ids[k])));
            let j = choose|j: int|
                0 <= j < new_file_ids@.len() && new_file_ids@[j] == Some(ids[k]);
            assert(resolved_value@[j] == Some(self@.tree_value(ids[k])));
        }
        (resolved_value, self.current_resolution())
    }

    /// The values of the path for the files with the given ids.
    pub fn file_values(&self, file_ids: &Merge<Option<Vec<u8>>>) -> (values: Merge<
        Option<TreeValue>,
    >)
        requires
            file_ids.wf(),
        ensures
            values@ == self@.tree_values(file_ids@),
            values.wf(),
    {
        let executable = match self.file_conflict.executable {
            Some(executable) => executable,
            None => false,
        };
        let copy_id = match &self.file_conflict.copy_id {
            Some(copy_id) => copy_id.copy(),
            None => placeholder_copy_id(),
        };
        let ghost values_view = self@.tree_values(file_ids@);
        let len = file_ids.len();
        let mut values: Vec<Option<TreeValue>> = Vec::new();
        for i in 0..len
            invariant
                len == file_ids@.len() == values_view.len(),
                values_view == self@.tree_values(file_ids@),
                executable == (self@.file_conflict.executable == Some(true)),
                copy_id@ == (match self@.file_conflict.copy_id {
                    Some(copy_id) => copy_id,
                    None => Seq::empty(),
                }),
                values@.len() == i,
                forall|j: int| 0 <= j < i ==> (#[trigger] values@[j]).model() == values_view[j],
        {
            let value = match file_ids.get(i).unwrap() {
                Some(id) => Some(
                    TreeValue::File { id: id.copy(), executable, copy_id: copy_id.copy() },
                ),
                None => None,
            };
            values.push(value);
        }
        let resolved_value = Merge::from_vec(values);
        assert(resolved_value@ =~= values_view);
        resolved_value
    }

    fn current_resolution(&self) -> (resolution: HunkConflictResolution)
        ensures
            resolution@ == self@.resolution(),
    {
        let len = self.hunks.len();
        let mut selections: Vec<Option<HunkSelection>> = Vec::new();
        for i in 0..len
            invariant
                len == self.hunks@.len() == self@.hunks.len(),
                selections@.len() == i,
                forall|j: int| 0 <= j < i ==> #[trigger] selections@[j] == self@.hunks[j].selection,
        {
            assert(self.hunks@[i as int]@ == self@.hunks[i as int]);
            selections.push(self.hunks[i].selection);
        }
        let edited_contents = match &self.edited_contents {
            Some(contents) => Some(contents.copy()),
            None => None,
        };
        let resolution = HunkConflictResolution { edited_contents, selections };
        assert(resolution@.selections =~= self@.resolution().selections);
        resolution
    }

    /// What to record for the path once the merged contents are written to
    /// files. Nothing is recorded if nothing was changed, or if the files are
    /// not as many as the terms of the merged contents or do not fit the terms
    /// of the merge.
    pub fn try_confirm(&self, file_ids: Merge<Vec<u8>>) -> (result: Option<
        (Merge<Option<TreeValue>>, HunkConflictResolution),
    >)
        requires
            self@.inv(),
            file_ids.wf(),
        ensures
            match result {
                Some((values, resolution)) => {
                    &&& self@.can_confirm(file_ids@.len())
                    &&& values@ == self@.tree_values(self@.new_file_ids(file_ids@))
                    &&& values.wf()
                    &&& values@.len() == 1 || values@.len()
                        == self@.file_conflict.unsimplified_ids.len()
                    &&& forall|k: int|
                        0 <= k < file_ids@.len() ==> values@.contains(
                            Some(self@.tree_value(#[trigger] file_ids@[k])),
                        )
                    &&& resolution@ == self@.resolution()
                },
                None => !self@.can_confirm(file_ids@.len()),
            },
    {
        match self.get_merged_contents() {
            Some(contents) => if contents.len() != file_ids.len() {
                return None;
            },
            None => {
                return None;
            },
        }
        let unsimplified_ids = &self.file_conflict.unsimplified_ids;
        if file_ids.is_resolved() || file_ids.len() == unsimplified_ids.len() || file_ids.len()
            == simplify(unsimplified_ids).len() {
            Some(self.confirm(file_ids))
        } else {
            None
        }
    }
}

fn count_conflicts(result: &MergeResult) -> (count: usize)
    ensures
        count == split_result(result@).0.len(),
{
    match result {
        MergeResult::Resolved(_) => 0,
        MergeResult::Conflict(hunks) => {
            let ghost all = hunk_terms(hunks@);
            let mut count: usize = 0;
            assert(all.take(0) =~= Seq::<Seq<Seq<u8>>>::empty());
            for i in 0..hunks.len()
                invariant
                    all == hunk_terms(hunks@),
                    count <= i,
                    count == split_hunks(all.take(i as int)).0.len(),
            {
                assert(all.take(i + 1).drop_last() =~= all.take(i as int));
                if !hunks[i].is_resolved() {
                    count = count + 1;
                }
            }
            assert(all.take(all.len() as int) =~= all);
            count
        },
    }
}

} // verus!
