//! What the hunk viewer shows and how many rows that takes, stated on the terms
//! and labels of the conflict.

use crate::hunk_model::{HunkView, HunkViewer};
use crate::hunk_viewer::RenderedHunks;
use crate::labels::remove_label;
use crate::screen::{
    content_text, context_height, context_item, diff_text, line_text, unified_diff, BodyText,
    BodyTextView, DiffLineType, DiffTextLine, DiffTokenType, ScrollableItem, ScrollableItemView,
};
use crate::selection::HunkSelection;
use crate::text::{decimal, line_count, lossy_utf8, shown_text, text_height};
use vstd::prelude::*;
use vstd::utf8::{decode_utf8, valid_utf8};

verus! {

/// The pieces of what is shown are what they are in its model.
pub proof fn law_model_of_what_is_shown(item: ScrollableItem, body: BodyText, line: DiffTextLine)
    ensures
        match body {
            BodyText::Deleted => body@ is Deleted,
            BodyText::NoChanges => body@ is NoChanges,
            BodyText::Plain(text) => body@ == BodyTextView::Plain(text@),
            BodyText::Diff(lines) => {
                &&& body@ matches BodyTextView::Diff(views)
                &&& views.len() == lines@.len()
                &&& forall|i: int| 0 <= i < lines@.len() ==> #[trigger] views[i] == lines@[i]@
            },
        },
        line@.sigil == line.sigil,
        line@.color == line.color,
        line@.spans.len() == line.spans@.len(),
        forall|i: int|
            0 <= i < line.spans@.len() ==> {
                &&& (#[trigger] line@.spans[i]).text == line.spans@[i].text@
                &&& line@.spans[i].underlined == line.spans@[i].underlined
            },
        match item {
            ScrollableItem::Empty => item@ is Empty,
            ScrollableItem::Context(text) => item@ == ScrollableItemView::Context(text@),
            ScrollableItem::ResolvedHunk { body, focused } => item@
                == (ScrollableItemView::ResolvedHunk { body: body@, focused }),
            ScrollableItem::FoldedHunk { title } => item@ == (ScrollableItemView::FoldedHunk {
                title: title@,
            }),
            ScrollableItem::OpenHunk { title, choices, selection, label_lines, body } => {
                &&& item@ is OpenHunk
                &&& item@->OpenHunk_title == title@
                &&& item@->OpenHunk_choices == choices@
                &&& item@->OpenHunk_selection == selection
                &&& item@->OpenHunk_body == body@
                &&& item@->OpenHunk_label_lines.len() == label_lines@.len()
                &&& forall|i: int|
                    0 <= i < label_lines@.len() ==> #[trigger] item@->OpenHunk_label_lines[i]
                        == label_lines@[i]@
            },
        },
{
}

/// The items that are drawn are what they are in their models, in order.
pub proof fn law_model_of_the_items(rendered: RenderedHunks)
    ensures
        rendered.item_views().len() == rendered.items@.len(),
        forall|i: int|
            0 <= i < rendered.items@.len() ==> #[trigger] rendered.item_views()[i]
                == rendered.items@[i]@,
        rendered@.file_name == rendered.file_name@,
        rendered@.summary == rendered.summary@,
        rendered@.summary_color == rendered.summary_color,
        rendered@.items == rendered.item_views(),
{
}

/// The viewer draws the name of the file as it is, the summary and its color,
/// and the items that are shown once it has scrolled in a window of that size.
pub proof fn law_what_is_drawn(viewer: HunkViewer, file_name: Seq<char>, window_height: int)
    ensures
        ({
            let drawn = viewer.drawn(file_name, window_height);
            &&& drawn.file_name == file_name
            &&& drawn.summary == viewer.summary()
            &&& drawn.summary_color == viewer.summary_color()
            &&& drawn.items == viewer.resized(window_height).items()
            &&& drawn.items == viewer.items()
        }),
{
    let next = viewer.resized(window_height);
    assert(next == HunkViewer {
        window_height: next.window_height,
        scroll_offset: next.scroll_offset,
        ..viewer
    });
    assert forall|k: int| 0 <= k < next.items().len() implies #[trigger] next.items()[k]
        == viewer.items()[k] by {
        if k % 2 == 1 {
            assert(next.hunk_item(k / 2) == viewer.hunk_item(k / 2));
        }
    }
    assert(next.items() =~= viewer.items());
}

/// Bytes are shown as the characters that they encode, and with replacements
/// only if they are no valid UTF-8.
pub proof fn law_shown_text(bytes: Seq<u8>)
    ensures
        valid_utf8(bytes) ==> shown_text(bytes) == decode_utf8(bytes),
        !valid_utf8(bytes) ==> shown_text(bytes) == lossy_utf8(bytes),
{
}

/// The contents of a hunk are shown as text unless there are none; text between
/// the conflicts is shown unless there is none. A text takes a row for each
/// line, and a hunk without contents takes one.
pub proof fn law_contents_are_shown(contents: Seq<u8>)
    ensures
        contents.len() == 0 ==> content_text(contents) is Deleted,
        contents.len() > 0 ==> content_text(contents) == BodyTextView::Plain(shown_text(contents)),
        contents.len() == 0 ==> context_item(contents) is Empty,
        contents.len() > 0 ==> context_item(contents) == ScrollableItemView::Context(
            shown_text(contents),
        ),
        contents.len() == 0 ==> text_height(contents, 10u8) == 1 && context_height(contents) == 0,
        contents.len() > 0 ==> text_height(contents, 10u8) == line_count(contents, 10u8)
            && context_height(contents) == line_count(contents, 10u8),
{
}

/// Messages stand where there are no contents or no changes to show, and only
/// there.
pub proof fn law_messages(body: BodyTextView)
    ensures
        body is Deleted ==> body.message() == Some("(deleted)"@),
        body is NoChanges ==> body.message() == Some("(no changes)"@),
        body is Plain || body is Diff ==> body.message() is None,
{
}

/// A text takes a row for each of its lines, a diff a row for each line, and a
/// message one row. Around it a resolved conflict has two borders; the open one
/// has two borders, a title, its labels and a line above the text; a folded one
/// takes three rows.
pub proof fn law_heights(body: BodyTextView, item: ScrollableItemView)
    ensures
        match body {
            BodyTextView::Plain(text) => body.height() == text_height(text, '\n'),
            BodyTextView::Diff(lines) => body.height() == lines.len(),
            _ => body.height() == 1,
        },
        match item {
            ScrollableItemView::Empty => item.height() == 0,
            ScrollableItemView::Context(text) => item.height() == text_height(text, '\n'),
            ScrollableItemView::ResolvedHunk { body, focused } => item.height() == 1 + body.height()
                + 1,
            ScrollableItemView::OpenHunk { title, choices, selection, label_lines, body } =>
            item.height() == 1 + 1 + label_lines.len() + 1 + body.height() + 1,
            ScrollableItemView::FoldedHunk { title } => item.height() == 1 + 1 + 1,
        },
{
}

/// A line of a diff begins with the sign of its kind and has its color. Its
/// parts follow as text, those underlined that only one side has.
pub proof fn law_lines_of_a_diff(line: (DiffLineType, Seq<(DiffTokenType, Seq<u8>)>))
    ensures
        ({
            let shown = line_text(line);
            &&& line.0 is Added ==> shown.sigil == '+' && shown.color is Green
            &&& line.0 is Removed ==> shown.sigil == '-' && shown.color is Red
            &&& line.0 is Context ==> shown.sigil == ' ' && shown.color is Reset
            &&& shown.spans.len() == line.1.len()
            &&& forall|i: int|
                0 <= i < line.1.len() ==> {
                    &&& (#[trigger] shown.spans[i]).text == shown_text(line.1[i].1)
                    &&& shown.spans[i].underlined <==> line.1[i].0 is Different
                }
        }),
{
}

/// A diff shows all lines of all its hunks in order, if one of them is a
/// change.
pub proof fn law_diffs_are_shown(
    hunks: Seq<Seq<(DiffLineType, Seq<(DiffTokenType, Seq<u8>)>)>>,
)
    ensures
        (exists|i: int, j: int|
            0 <= i < hunks.len() && 0 <= j < hunks[i].len() && !((
            #[trigger] hunks[i][j]).0 is Context)) ==> {
            &&& diff_text(hunks) matches BodyTextView::Diff(lines)
            &&& lines.len() == hunks.flatten().len()
            &&& forall|k: int|
                0 <= k < lines.len() ==> #[trigger] lines[k] == line_text(hunks.flatten()[k])
        },
        (forall|i: int, j: int|
            0 <= i < hunks.len() && 0 <= j < hunks[i].len() ==> (
            #[trigger] hunks[i][j]).0 is Context) ==> diff_text(hunks) is NoChanges,
{
}

/// From top to bottom the viewer shows the text before each conflict and the
/// conflict, in turn, and the text after the last one.
pub proof fn law_items_in_order(viewer: HunkViewer)
    ensures
        viewer.items().len() == 2 * viewer.hunks.len() + 1,
        forall|i: int|
            #![trigger viewer.hunks[i]]
            0 <= i < viewer.hunks.len() ==> {
                &&& viewer.items()[2 * i] == context_item(viewer.hunks[i].context_before)
                &&& viewer.items()[2 * i + 1] == viewer.hunk_item(i)
                &&& viewer.item_height(2 * i) == context_height(viewer.hunks[i].context_before)
                &&& viewer.item_height(2 * i + 1) == viewer.hunk_height(i)
            },
        viewer.items()[2 * viewer.hunks.len() as int] == context_item(viewer.context_after),
        viewer.item_height(2 * viewer.hunks.len() as int) == context_height(viewer.context_after),
{
}

/// What a selection picks of the terms of a conflict.
pub open spec fn picked(selection: HunkSelection, terms: Seq<Seq<u8>>) -> Seq<u8> {
    match selection {
        HunkSelection::Added(index) => terms[2 * index as int],
        HunkSelection::Removed(index) => terms[2 * index as int + 1],
        HunkSelection::AllAdded => HunkSelection::AllAdded.selected(terms),
    }
}

proof fn lemma_picked(viewer: HunkViewer, index: int, selection: HunkSelection)
    requires
        viewer.inv(),
        0 <= index < viewer.hunks.len(),
        selection.valid_for(viewer.num_sides()),
    ensures
        selection.selected(viewer.hunks[index].contents) == picked(
            selection,
            viewer.hunks[index].contents,
        ),
{
    assert(viewer.hunks[index].contents.len() == viewer.file_contents().len());
}

/// A resolved conflict is shown as what it is resolved to, whatever is selected
/// or shown elsewhere, and marked if it is the current one. It takes the rows of
/// that text and two borders.
pub proof fn law_resolved_conflict_is_shown(viewer: HunkViewer, index: int)
    requires
        viewer.inv(),
        0 <= index < viewer.hunks.len(),
        viewer.hunks[index].selection is Some,
    ensures
        ({
            let hunk = viewer.hunks[index];
            let text = picked(hunk.selection->0, hunk.contents);
            &&& viewer.hunk_item(index) == ScrollableItemView::ResolvedHunk {
                body: content_text(text),
                focused: index == viewer.hunk_index,
            }
            &&& viewer.hunk_height(index) == text_height(text, 10u8) + 2
        }),
{
    lemma_picked(viewer, index, viewer.hunks[index].selection->0);
}

/// A conflict that is open and not the current one is folded: it shows only its
/// number and the number of all conflicts.
pub proof fn law_other_open_conflicts_are_folded(viewer: HunkViewer, index: int)
    requires
        viewer.inv(),
        0 <= index < viewer.hunks.len(),
        index != viewer.hunk_index,
        viewer.hunks[index].selection is None,
    ensures
        viewer.hunk_item(index) == (ScrollableItemView::FoldedHunk {
            title: seq!['\u{1f782}'] + (" Conflict "@ + decimal((index + 1) as nat) + "/"@
                + decimal(viewer.hunks.len())),
        }),
        viewer.hunk_height(index) == 3,
{
}

/// The current conflict while it is open shows its number, the row of the
/// current selection, the selection itself and its label, and what the selection
/// picks. While diffs are shown and a side is selected, it shows the diff whose
/// old text is the base before the side, for the first side the first base, and
/// whose new text is the side, with all lines, under the labels of both.
pub proof fn law_open_conflict_is_shown(viewer: HunkViewer)
    requires
        viewer.inv(),
        viewer.hunks.len() > 0,
        viewer.hunks[viewer.hunk_index].selection is None,
    ensures
        ({
            let index = viewer.hunk_index;
            let terms = viewer.hunks[index].contents;
            let selection = viewer.current_selection;
            let labels = viewer.file_conflict.labels;
            let item = viewer.hunk_item(index);
            let text = picked(selection, terms);
            &&& item is OpenHunk
            &&& item->OpenHunk_title == seq!['\u{1f783}'] + (" Conflict "@ + decimal(
                (index + 1) as nat,
            ) + "/"@ + decimal(viewer.hunks.len()))
            &&& item->OpenHunk_choices == selection.reachable(terms.len() / 2 + 1)
            &&& item->OpenHunk_selection == selection
            &&& !(viewer.show_diff && selection is Added) ==> {
                &&& item->OpenHunk_label_lines.len() == 1
                &&& item->OpenHunk_label_lines[0] == selection.label(labels)
                &&& item->OpenHunk_body == content_text(text)
                &&& viewer.hunk_height(index) == text_height(text, 10u8) + 5
            }
            &&& viewer.show_diff ==> {
                &&& selection matches HunkSelection::Added(side) ==> {
                    let base: int = if side == 0 {
                        0
                    } else {
                        side - 1
                    };
                    let diff = diff_text(
                        unified_diff(terms[2 * base + 1], terms[2 * side as int], usize::MAX),
                    );
                    &&& item->OpenHunk_label_lines.len() == 2
                    &&& item->OpenHunk_label_lines[0] == "diff from: "@ + remove_label(labels, base)
                    &&& item->OpenHunk_label_lines[1] == "       to: "@ + selection.label(labels)
                    &&& item->OpenHunk_body == diff
                    &&& viewer.hunk_height(index) == diff.height() + 6
                }
            }
        }),
{
    let index = viewer.hunk_index;
    lemma_picked(viewer, index, viewer.current_selection);
    assert(viewer.hunks[index].contents.len() == viewer.file_contents().len());
}

proof fn lemma_resolved_count(viewer: HunkViewer, index: int)
    requires
        0 <= index <= viewer.hunks.len(),
    ensures
        viewer.resolved_before(index) == viewer.hunks.take(index).filter(
            |hunk: HunkView| hunk.selection is Some,
        ).len(),
    decreases index,
{
    reveal(Seq::filter);
    if index > 0 {
        lemma_resolved_count(viewer, index - 1);
        assert(viewer.hunks.take(index).drop_last() =~= viewer.hunks.take(index - 1));
        assert(viewer.hunks.take(index).last() == viewer.hunks[index - 1]);
    }
}

/// The summary counts the conflicts that are resolved and all conflicts, and
/// says whether an editor changed the contents. It is green if all are resolved,
/// red if none is and nothing was edited, and yellow in between.
pub proof fn law_summary_counts(viewer: HunkViewer)
    ensures
        ({
            let resolved = viewer.hunks.filter(
                |hunk: HunkView| hunk.selection is Some,
            ).len();
            let all = viewer.hunks.len();
            &&& all == 0 ==> viewer.summary() == "(resolved by editor)"@
            &&& all > 0 && viewer.edited_contents is None ==> viewer.summary() == "("@ + decimal(
                resolved,
            ) + "/"@ + decimal(all) + " conflicts resolved"@ + ""@ + ")"@
            &&& all > 0 && viewer.edited_contents is Some ==> viewer.summary() == "("@ + decimal(
                resolved,
            ) + "/"@ + decimal(all) + " conflicts resolved"@ + ", edited"@ + ")"@
            &&& viewer.summary_color() is Green <==> resolved == all
            &&& viewer.summary_color() is Red <==> resolved != all && resolved == 0
                && viewer.edited_contents is None
            &&& viewer.summary_color() is Yellow <==> resolved != all && (resolved != 0
                || viewer.edited_contents is Some)
        }),
{
    lemma_resolved_count(viewer, viewer.hunks.len() as int);
    assert(viewer.hunks.take(viewer.hunks.len() as int) =~= viewer.hunks);
}

} // verus!
