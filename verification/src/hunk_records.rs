//! What the hunk viewer is opened with, what it gives to an editor and what it
//! records, stated on the conflict and its terms.

use crate::conflict::{
    FileConflict, FileConflictView, KeyCode, KeyEvent, TreeValue, TreeValueView,
};
use crate::files::{MergeOptions, MergeResult, MergeResultView};
use crate::hunk_laws::{law_merged_contents, lemma_split_is_open};
use crate::hunk_model::{
    lemma_first_open, split_hunks, split_result, HunkResolutionView, HunkView, HunkViewer,
};
use crate::hunk_viewer::{contents_to_resolve, resolution_or_none, HunkConflictResolution};
use crate::merge::Term;
use crate::selection::HunkSelection;
use crate::simplification::{
    law_simplified_places, law_updated_from_simplified, simplified, simplified_places,
    updated_from_simplified,
};
use vstd::prelude::*;

verus! {

/// The parts of a conflict of files are what they are in its model.
pub proof fn law_model_of_a_file_conflict(conflict: FileConflict)
    ensures
        conflict@.unsimplified_ids == conflict.unsimplified_ids@,
        conflict@.contents == conflict.contents@,
        conflict@.labels == conflict.labels@,
        conflict@.executable == conflict.executable,
        match conflict.copy_id {
            Some(id) => conflict@.copy_id == Some(id@),
            None => conflict@.copy_id is None,
        },
{
}

/// The parts of a value of a path are what they are in its model, so that
/// values with equal models are equal in all their parts.
pub proof fn law_model_of_a_tree_value(value: TreeValue)
    ensures
        match value {
            TreeValue::File { id, executable, copy_id } => value.model() == (TreeValueView::File {
                id: id@,
                executable,
                copy_id: copy_id@,
            }),
            TreeValue::Symlink(id) => value.model() == TreeValueView::Symlink(id@),
            TreeValue::Tree(id) => value.model() == TreeValueView::Tree(id@),
            TreeValue::GitSubmodule(id) => value.model() == TreeValueView::GitSubmodule(id@),
        },
        Some(value).model() == Some(value.model()),
        None::<TreeValue>.model() is None,
{
}

/// Merged contents are what they are in their model: the text, or the terms of
/// each hunk.
pub proof fn law_model_of_merged_contents(result: MergeResult)
    ensures
        match result {
            MergeResult::Resolved(contents) => result@ == MergeResultView::Resolved(contents@),
            MergeResult::Conflict(hunks) => {
                &&& result@ matches MergeResultView::Conflict(views)
                &&& views.len() == hunks@.len()
                &&& forall|i: int| 0 <= i < hunks@.len() ==> #[trigger] views[i] == hunks@[i]@
            },
        },
{
}

/// Contents that an editor left are resolved in place of those of the conflict.
/// Without earlier choices there are no such contents and no selections.
pub proof fn law_edited_contents_are_resolved(
    conflict: FileConflict,
    resolution: Option<&HunkConflictResolution>,
)
    ensures
        ({
            let choices = resolution_or_none(resolution);
            &&& resolution is None ==> choices.edited_contents is None && choices.selections.len()
                == 0
            &&& resolution matches Some(resolution) ==> choices == resolution@
            &&& choices.edited_contents is None ==> contents_to_resolve(conflict, choices)
                == conflict.contents@
            &&& choices.edited_contents matches Some(contents) ==> contents_to_resolve(
                conflict,
                choices,
            ) == contents
        }),
{
}

/// Contents are split hunk by hunk. A hunk of a single term is text, which is
/// added to the text since the last conflict. Any other hunk is a conflict that
/// is open, with all its terms, and the text since the last one stands before
/// it. Contents that merged are all text.
pub proof fn law_splitting_hunk_by_hunk(
    hunks: Seq<Seq<Seq<u8>>>,
    hunk: Seq<Seq<u8>>,
    contents: Seq<u8>,
)
    ensures
        split_hunks(Seq::empty()).0.len() == 0,
        split_hunks(Seq::empty()).1.len() == 0,
        hunk.len() == 1 ==> split_hunks(hunks.push(hunk)) == (
            split_hunks(hunks).0,
            split_hunks(hunks).1 + hunk[0],
        ),
        hunk.len() != 1 ==> {
            let (conflicts, context) = split_hunks(hunks.push(hunk));
            &&& context.len() == 0
            &&& conflicts.len() == split_hunks(hunks).0.len() + 1
            &&& forall|i: int|
                0 <= i < split_hunks(hunks).0.len() ==> #[trigger] conflicts[i] == split_hunks(
                    hunks,
                ).0[i]
            &&& conflicts.last().context_before == split_hunks(hunks).1
            &&& conflicts.last().contents == hunk
            &&& conflicts.last().selection is None
        },
        split_result(MergeResultView::Resolved(contents)).0.len() == 0,
        split_result(MergeResultView::Resolved(contents)).1 == contents,
        split_result(MergeResultView::Conflict(hunks)) == split_hunks(hunks),
{
    assert(hunks.push(hunk).drop_last() =~= hunks);
}

/// A viewer that is opened has the conflicts of the merged contents, each with
/// the selection that is given for it, or all open if none are given. It keeps
/// what it was opened with, shows the contents from the first row on, and has no
/// window yet. The first conflict that is open is the current one, or the first
/// of all; the current selection is what that conflict is resolved to, or the
/// first side.
pub proof fn law_opening(
    options: MergeOptions,
    file_conflict: FileConflictView,
    resolution: HunkResolutionView,
    result: MergeResultView,
)
    requires
        resolution.selections.len() == 0 || resolution.selections.len() == split_result(
            result,
        ).0.len(),
    ensures
        ({
            let viewer = HunkViewer::opened(options, file_conflict, resolution, result);
            let (conflicts, context_after) = split_result(result);
            let index = viewer.hunk_index;
            &&& viewer.options == options
            &&& viewer.file_conflict == file_conflict
            &&& viewer.edited_contents == resolution.edited_contents
            &&& viewer.context_after == context_after
            &&& viewer.scroll_offset == 0
            &&& viewer.window_height == 0
            &&& !viewer.show_diff
            &&& viewer.hunks.len() == conflicts.len()
            &&& forall|i: int|
                0 <= i < conflicts.len() ==> {
                    &&& (#[trigger] viewer.hunks[i]).context_before == conflicts[i].context_before
                    &&& viewer.hunks[i].contents == conflicts[i].contents
                    &&& resolution.selections.len() > 0 ==> viewer.hunks[i].selection
                        == resolution.selections[i]
                    &&& resolution.selections.len() == 0 ==> viewer.hunks[i].selection is None
                }
            &&& 0 <= index
            &&& index < viewer.hunks.len() && viewer.hunks[index].selection is None || index == 0
                && forall|i: int|
                0 <= i < viewer.hunks.len() ==> (#[trigger] viewer.hunks[i]).selection is Some
            &&& forall|i: int|
                0 <= i < index ==> (#[trigger] viewer.hunks[i]).selection is Some
            &&& index < viewer.hunks.len() && viewer.hunks[index].selection is Some
                ==> viewer.hunks[index].selection == Some(viewer.current_selection)
            &&& !(index < viewer.hunks.len() && viewer.hunks[index].selection is Some)
                ==> viewer.current_selection == HunkSelection::Added(0)
        }),
{
    let viewer = HunkViewer::opened(options, file_conflict, resolution, result);
    lemma_first_open(viewer.hunks, 0);
    if let MergeResultView::Conflict(hunks) = result {
        lemma_split_is_open(hunks);
    }
}

/// A viewer that takes back what an editor left keeps the conflict and drops
/// everything else: it is opened anew, with no conflict resolved. Contents that
/// are those of the conflict are no edit; all others are kept.
pub proof fn law_taking_back_an_edit(
    viewer: HunkViewer,
    contents: Seq<Seq<u8>>,
    result: MergeResultView,
)
    ensures
        ({
            let next = viewer.with_contents(contents, result);
            &&& next.options == viewer.options
            &&& next.file_conflict == viewer.file_conflict
            &&& contents == viewer.file_conflict.contents ==> next.edited_contents is None
            &&& contents != viewer.file_conflict.contents ==> next.edited_contents == Some(contents)
            &&& next.file_contents() == contents
            &&& next.hunks.len() == split_result(result).0.len()
            &&& forall|i: int|
                0 <= i < next.hunks.len() ==> {
                    &&& (#[trigger] next.hunks[i]).selection is None
                    &&& next.hunks[i].contents == split_result(result).0[i].contents
                    &&& next.hunks[i].context_before == split_result(result).0[i].context_before
                }
            &&& next.context_after == split_result(result).1
            &&& next.hunk_index == 0
            &&& next.current_selection == HunkSelection::Added(0)
            &&& next.scroll_offset == 0
            &&& next.window_height == 0
            &&& !next.show_diff
        }),
{
    let resolution = HunkResolutionView {
        edited_contents: if contents == viewer.file_conflict.contents {
            None
        } else {
            Some(contents)
        },
        selections: Seq::empty(),
    };
    law_opening(viewer.options, viewer.file_conflict, resolution, result);
    let next = viewer.with_contents(contents, result);
    if next.hunk_index > 0 {
        assert(next.hunks[0].selection is Some);
    }
}

/// What stands for a conflict in the term `k` of the merged contents: the side
/// or base it is resolved to, all sides, or while it is open its own term.
pub open spec fn resolved_term(hunk: HunkView, k: int) -> Seq<u8> {
    match hunk.selection {
        Some(HunkSelection::Added(index)) => hunk.contents[2 * index as int],
        Some(HunkSelection::Removed(index)) => hunk.contents[2 * index as int + 1],
        Some(HunkSelection::AllAdded) => HunkSelection::AllAdded.selected(hunk.contents),
        None => hunk.contents[k],
    }
}

/// The text of the file as the term `k` has it: the text between the conflicts
/// and what stands for each conflict, in turn.
pub open spec fn resolved_text(viewer: HunkViewer, k: int) -> Seq<u8> {
    Seq::new(
        (2 * viewer.hunks.len() + 1) as nat,
        |j: int|
            if j == 2 * viewer.hunks.len() {
                viewer.context_after
            } else if j % 2 == 0 {
                viewer.hunks[j / 2].context_before
            } else {
                resolved_term(viewer.hunks[j / 2], k)
            },
    ).flatten()
}

/// Whether some conflict is resolved.
pub open spec fn some_resolved(viewer: HunkViewer) -> bool {
    exists|i: int| 0 <= i < viewer.hunks.len() && (#[trigger] viewer.hunks[i]).selection is Some
}

/// Whether some conflict is open.
pub open spec fn some_open(viewer: HunkViewer) -> bool {
    exists|i: int| 0 <= i < viewer.hunks.len() && (#[trigger] viewer.hunks[i]).selection is None
}

proof fn lemma_resolved_text(viewer: HunkViewer, index: int, k: int)
    requires
        viewer.inv(),
        0 <= index <= viewer.hunks.len(),
    ensures
        Seq::new(
            (2 * index) as nat,
            |j: int|
                if j % 2 == 0 {
                    viewer.hunks[j / 2].context_before
                } else {
                    resolved_term(viewer.hunks[j / 2], k)
                },
        ).flatten() == viewer.text_before(index, k),
    decreases index,
{
    let parts = |n: int|
        Seq::new(
            (2 * n) as nat,
            |j: int|
                if j % 2 == 0 {
                    viewer.hunks[j / 2].context_before
                } else {
                    resolved_term(viewer.hunks[j / 2], k)
                },
        );
    if index > 0 {
        lemma_resolved_text(viewer, index - 1, k);
        let before = parts(index - 1);
        let hunk = viewer.hunks[index - 1];
        assert(hunk.contents.len() == viewer.file_contents().len());
        let middle = before.push(hunk.context_before);
        assert(parts(index) =~= middle.push(resolved_term(hunk, k)));
        before.lemma_flatten_push(hunk.context_before);
        middle.lemma_flatten_push(resolved_term(hunk, k));
        assert(viewer.text_before(index, k) == viewer.text_before(index - 1, k)
            + hunk.context_before + resolved_term(hunk, k));
    } else {
        assert(parts(0) =~= Seq::empty());
    }
}

proof fn lemma_text_is_resolved_text(viewer: HunkViewer, k: int)
    requires
        viewer.inv(),
    ensures
        viewer.text(k) == resolved_text(viewer, k),
{
    let n = viewer.hunks.len() as int;
    lemma_resolved_text(viewer, n, k);
    let parts = Seq::new(
        (2 * n) as nat,
        |j: int|
            if j % 2 == 0 {
                viewer.hunks[j / 2].context_before
            } else {
                resolved_term(viewer.hunks[j / 2], k)
            },
    );
    parts.lemma_flatten_push(viewer.context_after);
    assert(parts.push(viewer.context_after) =~= Seq::new(
        (2 * viewer.hunks.len() + 1) as nat,
        |j: int|
            if j == 2 * viewer.hunks.len() {
                viewer.context_after
            } else if j % 2 == 0 {
                viewer.hunks[j / 2].context_before
            } else {
                resolved_term(viewer.hunks[j / 2], k)
            },
    ));
}

/// Once some conflict is resolved, the merged contents are the text of the file
/// with each resolved conflict replaced by what it is resolved to: one text when
/// all are resolved, and as many as the contents have terms while some are open,
/// in each of which the open conflicts stand as in that term. Until then they
/// are what an editor left, if anything.
pub proof fn law_merged_texts(viewer: HunkViewer)
    requires
        viewer.inv(),
    ensures
        some_resolved(viewer) ==> {
            let len: nat = if some_open(viewer) {
                viewer.file_contents().len()
            } else {
                1
            };
            viewer.merged_contents() == Some(Seq::new(len, |k: int| resolved_text(viewer, k)))
        },
        !some_resolved(viewer) ==> viewer.merged_contents() == viewer.edited_contents,
{
    if some_resolved(viewer) {
        law_merged_contents(viewer);
        let contents = viewer.merged_contents()->0;
        assert forall|k: int| 0 <= k < contents.len() implies contents[k] == resolved_text(
            viewer,
            k,
        ) by {
            lemma_text_is_resolved_text(viewer, k);
        }
        assert(viewer.all_resolved() <==> !some_open(viewer));
        assert(contents =~= Seq::new(contents.len(), |k: int| resolved_text(viewer, k)));
    }
}

/// An editor gets the contents as they are resolved so far: whenever some
/// conflict is resolved, the text of the file with each resolved conflict
/// replaced, term by term, also while other conflicts are open. If none is, it
/// gets what it left before, or else the contents of the conflict.
pub proof fn law_editor_gets_the_choices(viewer: HunkViewer)
    requires
        viewer.inv(),
    ensures
        some_resolved(viewer) ==> {
            let len: nat = if some_open(viewer) {
                viewer.file_contents().len()
            } else {
                1
            };
            viewer.contents_to_edit() == Seq::new(len, |k: int| resolved_text(viewer, k))
        },
        !some_resolved(viewer) ==> viewer.contents_to_edit() == (match viewer.edited_contents {
            Some(contents) => contents,
            None => viewer.file_conflict.contents,
        }),
{
    law_merged_texts(viewer);
}

/// The key `e` pressed alone, and no other, asks for an editor: for the file by
/// its name, with the contents as they are resolved so far and all labels of the
/// conflict, whatever is selected or shown.
pub proof fn law_editor_is_asked_for(viewer: HunkViewer, event: KeyEvent, file_name: Seq<char>)
    ensures
        ({
            let request = viewer.request(event, file_name);
            &&& request is Some <==> event.modifiers == 0 && event.code == KeyCode::Char('e')
            &&& request matches Some(request) ==> {
                &&& request.file_name == file_name
                &&& request.contents == viewer.contents_to_edit()
                &&& request.labels == viewer.file_conflict.labels
            }
        }),
{
}

/// What is resolved is what an editor left, or else the contents of the
/// conflict.
pub proof fn law_what_is_resolved(viewer: HunkViewer)
    ensures
        viewer.edited_contents matches Some(contents) ==> viewer.file_contents() == contents,
        viewer.edited_contents is None ==> viewer.file_contents() == viewer.file_conflict.contents,
        viewer.num_sides() == viewer.file_contents().len() / 2 + 1,
{
}

/// The file that is recorded for an id of a written file: it can be executed
/// exactly if the conflict says that the merged file can be, and it is the copy
/// that the conflict says it is, if that is known.
pub open spec fn recorded_file(conflict: FileConflictView, id: Seq<u8>) -> TreeValueView {
    TreeValueView::File {
        id,
        executable: match conflict.executable {
            Some(executable) => executable,
            None => false,
        },
        copy_id: match conflict.copy_id {
            Some(copy_id) => copy_id,
            None => Seq::empty(),
        },
    }
}

/// Whatever was edited, selected or shown, a file is recorded with the
/// executable bit and the copy of the conflict, and a file that is absent is
/// not recorded. Two states of one conflict record equal values for equal
/// files.
pub proof fn law_recorded_files(
    viewer: HunkViewer,
    other: HunkViewer,
    ids: Seq<Option<Seq<u8>>>,
)
    ensures
        viewer.tree_values(ids).len() == ids.len(),
        forall|i: int|
            0 <= i < ids.len() ==> #[trigger] viewer.tree_values(ids)[i] == (match ids[i] {
                Some(id) => Some(recorded_file(viewer.file_conflict, id)),
                None => None,
            }),
        forall|id: Seq<u8>| #[trigger]
            viewer.tree_value(id) == recorded_file(viewer.file_conflict, id),
        viewer.file_conflict == other.file_conflict ==> viewer.tree_values(ids)
            == other.tree_values(ids),
{
    if viewer.file_conflict == other.file_conflict {
        assert(viewer.tree_values(ids) =~= other.tree_values(ids));
    }
}

/// One written file resolves the path. As many files as the merge has terms are
/// its terms. Fewer files stand in the places of the terms that the
/// simplification of the merge leaves, and all other terms keep their files.
pub proof fn law_recorded_values(viewer: HunkViewer, ids: Seq<Seq<u8>>)
    requires
        viewer.inv(),
        viewer.can_confirm(ids.len()),
    ensures
        ({
            let before = viewer.file_conflict.unsimplified_ids;
            let places = simplified_places(before);
            let values = viewer.tree_values(viewer.new_file_ids(ids));
            let as_written = ids.len() == 1 || ids.len() == before.len();
            &&& as_written ==> {
                &&& values.len() == ids.len()
                &&& forall|k: int|
                    0 <= k < ids.len() ==> #[trigger] values[k] == Some(
                        recorded_file(viewer.file_conflict, ids[k]),
                    )
            }
            &&& !as_written ==> {
                &&& values.len() == before.len()
                &&& ids.len() == places.len()
                &&& forall|k: int|
                    0 <= k < ids.len() ==> values[#[trigger] places[k]] == Some(
                        recorded_file(viewer.file_conflict, ids[k]),
                    )
                &&& forall|i: int|
                    0 <= i < before.len() && !places.contains(i) ==> #[trigger] values[i] == (
                    match before[i] {
                        Some(id) => Some(recorded_file(viewer.file_conflict, id)),
                        None => None,
                    })
            }
        }),
{
    let before = viewer.file_conflict.unsimplified_ids;
    let new_ids = viewer.new_file_ids(ids);
    let values = viewer.tree_values(new_ids);
    law_recorded_files(viewer, viewer, new_ids);
    if ids.len() == 1 || ids.len() == before.len() {
        assert forall|k: int| 0 <= k < ids.len() implies #[trigger] values[k] == Some(
            recorded_file(viewer.file_conflict, ids[k]),
        ) by {
            assert(new_ids[k] == Some(ids[k]));
        }
    } else {
        let written = Seq::new(ids.len(), |k: int| Some(ids[k]));
        assert(new_ids == updated_from_simplified(before, written));
        law_updated_from_simplified(before, written);
        law_simplified_places(before);
        let places = simplified_places(before);
        assert forall|k: int| 0 <= k < ids.len() implies values[#[trigger] places[k]] == Some(
            recorded_file(viewer.file_conflict, ids[k]),
        ) by {
            assert(new_ids[places[k]] == written[k]);
        }
        assert forall|i: int|
            0 <= i < before.len() && !places.contains(i) implies #[trigger] values[i] == (match before[i] {
            Some(id) => Some(recorded_file(viewer.file_conflict, id)),
            None => None,
        }) by {
            assert(new_ids[i] == before[i]);
        }
    }
}

/// There is something to record if some conflict is resolved or an editor
/// changed the contents; it takes a file for each term of the merged contents,
/// which are one, as many as the merge has terms, or as many as its
/// simplification leaves.
pub proof fn law_when_something_is_recorded(viewer: HunkViewer, len: nat)
    requires
        viewer.inv(),
    ensures
        viewer.can_confirm(len) <==> {
            let before = viewer.file_conflict.unsimplified_ids;
            let terms: nat = if some_resolved(viewer) {
                if some_open(viewer) {
                    viewer.file_contents().len()
                } else {
                    1
                }
            } else {
                match viewer.edited_contents {
                    Some(contents) => contents.len(),
                    None => 0,
                }
            };
            &&& some_resolved(viewer) || viewer.edited_contents is Some
            &&& len == terms
            &&& len == 1 || len == before.len() || len == simplified(before).len()
        },
{
    law_merged_texts(viewer);
}

/// The choices that are recorded are what an editor left and what each conflict
/// is resolved to, in order.
pub proof fn law_recorded_choices(viewer: HunkViewer)
    ensures
        viewer.resolution().edited_contents == viewer.edited_contents,
        viewer.resolution().selections.len() == viewer.hunks.len(),
        forall|i: int|
            0 <= i < viewer.hunks.len() ==> #[trigger] viewer.resolution().selections[i]
                == viewer.hunks[i].selection,
{
}

/// Choices fit a conflict exactly if every side and base that they select is one
/// of it.
pub proof fn law_choices_that_fit(choices: HunkResolutionView, sides: nat)
    ensures
        choices.valid_for(sides) <==> forall|i: int|
            0 <= i < choices.selections.len() ==> match #[trigger] choices.selections[i] {
                Some(HunkSelection::Added(index)) => index < sides,
                Some(HunkSelection::Removed(index)) => index + 1 < sides,
                _ => true,
            },
{
}

} // verus!
