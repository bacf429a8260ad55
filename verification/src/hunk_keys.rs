//! What each key does in the hunk viewer, stated on the parts of its state.

use crate::conflict::{KeyCode, KeyEvent};
use crate::hunk_model::{HunkView, HunkViewer};
use crate::scroll::{law_aligned_offset_in_rows, law_scrolled_in_rows, ScrollDirection};
use vstd::prelude::*;

verus! {

/// Whether a key is pressed alone.
pub open spec fn is_pressed(event: KeyEvent, code: KeyCode) -> bool {
    event.modifiers == 0 && event.code == code
}

/// Whether two lists of conflicts are the same but for what one of them is
/// resolved to.
pub open spec fn differ_only_at(a: Seq<HunkView>, b: Seq<HunkView>, index: int) -> bool {
    &&& a.len() == b.len()
    &&& forall|i: int| 0 <= i < a.len() && i != index ==> #[trigger] a[i] == b[i]
    &&& a[index].context_before == b[index].context_before
    &&& a[index].contents == b[index].contents
}

/// Enter and space resolve the current conflict to exactly the current
/// selection, whatever is shown, and open it again if that is what it is
/// resolved to. All other conflicts stay as they are, and so does everything
/// else.
pub proof fn law_enter_key(viewer: HunkViewer, event: KeyEvent)
    requires
        viewer.inv(),
        is_pressed(event, KeyCode::Enter) || is_pressed(event, KeyCode::Char(' ')),
    ensures
        ({
            let next = viewer.pressed(event);
            let index = viewer.hunk_index;
            &&& next == HunkViewer { hunks: next.hunks, ..viewer }
            &&& viewer.hunks.len() == 0 ==> next.hunks == viewer.hunks
            &&& viewer.hunks.len() > 0 ==> {
                &&& differ_only_at(next.hunks, viewer.hunks, index)
                &&& viewer.hunks[index].selection == Some(viewer.current_selection)
                    ==> next.hunks[index].selection is None
                &&& viewer.hunks[index].selection != Some(viewer.current_selection)
                    ==> next.hunks[index].selection == Some(viewer.current_selection)
            }
        }),
{
}

/// The key `a` resolves every conflict that is open to the current selection,
/// whatever is shown and edited. Conflicts that are resolved stay as they are,
/// and so does everything else.
pub proof fn law_rest_key(viewer: HunkViewer, event: KeyEvent)
    requires
        viewer.inv(),
        is_pressed(event, KeyCode::Char('a')),
    ensures
        ({
            let next = viewer.pressed(event);
            &&& next == HunkViewer { hunks: next.hunks, ..viewer }
            &&& next.hunks.len() == viewer.hunks.len()
            &&& forall|i: int|
                0 <= i < viewer.hunks.len() ==> {
                    &&& (#[trigger] next.hunks[i]).context_before
                        == viewer.hunks[i].context_before
                    &&& next.hunks[i].contents == viewer.hunks[i].contents
                    &&& viewer.hunks[i].selection is None ==> next.hunks[i].selection == Some(
                        viewer.current_selection,
                    )
                    &&& viewer.hunks[i].selection is Some ==> next.hunks[i].selection
                        == viewer.hunks[i].selection
                }
        }),
{
}

/// Backspace and delete open the current conflict and scroll to it. All other
/// conflicts stay as they are, and so does everything else.
pub proof fn law_delete_key(viewer: HunkViewer, event: KeyEvent)
    requires
        viewer.inv(),
        is_pressed(event, KeyCode::Backspace) || is_pressed(event, KeyCode::Delete),
    ensures
        ({
            let next = viewer.pressed(event);
            let cleared = HunkViewer { hunks: next.hunks, ..viewer };
            &&& viewer.hunks.len() == 0 ==> next == viewer
            &&& viewer.hunks.len() > 0 ==> {
                &&& differ_only_at(next.hunks, viewer.hunks, viewer.hunk_index)
                &&& next.hunks[viewer.hunk_index].selection is None
                &&& next == cleared.scrolled_to_current(false)
            }
        }),
{
    if viewer.hunks.len() > 0 {
        let cleared = viewer.resolving(viewer.hunk_index, None);
        assert(cleared.scrolled_to_current(false).hunks == cleared.hunks);
    }
}

/// The keys up and `k` go to the conflict before, and down and `j` to the next
/// one, as far as there is one, and scroll to it with its context. If the
/// conflict gone to is resolved, what it is resolved to becomes the current
/// selection. Without conflicts these keys scroll by one row. Everything else
/// stays.
pub proof fn law_vertical_keys(viewer: HunkViewer, event: KeyEvent)
    requires
        viewer.inv(),
        is_pressed(event, KeyCode::Up) || is_pressed(event, KeyCode::Char('k')) || is_pressed(
            event,
            KeyCode::Down,
        ) || is_pressed(event, KeyCode::Char('j')),
    ensures
        ({
            let next = viewer.pressed(event);
            let up = event.code is Up || event.code == KeyCode::Char('k');
            let index = viewer.hunk_index;
            let target: int = if up {
                if index > 0 {
                    index - 1
                } else {
                    index
                }
            } else {
                if index + 1 < viewer.hunks.len() {
                    index + 1
                } else {
                    index
                }
            };
            &&& viewer.hunks.len() == 0 ==> {
                &&& next == HunkViewer { scroll_offset: next.scroll_offset, ..viewer }
                &&& up && viewer.scroll_offset > 0 ==> next.scroll_offset == viewer.scroll_offset
                    - 1
                &&& up && viewer.scroll_offset == 0 ==> next.scroll_offset == 0
                &&& !up && viewer.scroll_offset < usize::MAX ==> next.scroll_offset
                    == viewer.scroll_offset + 1
                &&& !up && viewer.scroll_offset == usize::MAX ==> next.scroll_offset == usize::MAX
            }
            &&& viewer.hunks.len() > 0 ==> {
                let moved = HunkViewer {
                    hunk_index: target,
                    current_selection: if target != index
                        && viewer.hunks[target].selection is Some {
                        viewer.hunks[target].selection->0
                    } else {
                        viewer.current_selection
                    },
                    ..viewer
                };
                next == moved.scrolled_to_current(true)
            }
        }),
{
    law_scrolled_in_rows(viewer.scroll_offset, 1);
}

/// The keys left, right, `h`, `l` and `b` change the current selection while the
/// current conflict is open, and scroll to the conflict. The arrows scroll even
/// if it is resolved; everything else stays.
pub proof fn law_selecting_keys(viewer: HunkViewer, event: KeyEvent)
    requires
        viewer.inv(),
        viewer.hunks.len() > 0,
        event.modifiers == 0,
    ensures
        ({
            let next = viewer.pressed(event);
            let sides = viewer.file_contents().len() / 2 + 1;
            let open = viewer.hunks[viewer.hunk_index].selection is None;
            let selection = viewer.current_selection;
            let selecting = |selection|
                HunkViewer { current_selection: selection, ..viewer }.scrolled_to_current(false);
            &&& event.code is Left || event.code == KeyCode::Char('h') ==> next == selecting(
                if open {
                    selection.previous(sides)
                } else {
                    selection
                },
            )
            &&& event.code is Right || event.code == KeyCode::Char('l') ==> next == selecting(
                if open {
                    selection.following(sides)
                } else {
                    selection
                },
            )
            &&& event.code == KeyCode::Char('b') ==> next == (if open {
                selecting(selection.toggled(sides))
            } else {
                viewer
            })
        }),
{
}

/// The key `d` changes between contents and diffs while the current conflict is
/// open, and scrolls to the conflict; everything else stays.
pub proof fn law_diff_key(viewer: HunkViewer, event: KeyEvent)
    requires
        viewer.inv(),
        viewer.hunks.len() > 0,
        is_pressed(event, KeyCode::Char('d')),
    ensures
        viewer.pressed(event) == (if viewer.hunks[viewer.hunk_index].selection is None {
            HunkViewer { show_diff: !viewer.show_diff, ..viewer }.scrolled_to_current(false)
        } else {
            viewer
        }),
{
}

/// Without conflicts the keys that select, show or clear do nothing.
pub proof fn law_keys_without_conflicts(viewer: HunkViewer, event: KeyEvent)
    requires
        viewer.inv(),
        viewer.hunks.len() == 0,
        !(event.code is Up || event.code is Down || event.code == KeyCode::Char('k') || event.code
            == KeyCode::Char('j')),
    ensures
        viewer.pressed(event) == viewer,
{
    assert(viewer.with_rest_resolved().hunks =~= viewer.hunks);
    assert(viewer.with_rest_resolved() =~= viewer);
}

/// All other keys do nothing, and exactly the key `e` pressed alone asks for an
/// editor, which changes nothing by itself.
pub proof fn law_other_keys(viewer: HunkViewer, event: KeyEvent)
    ensures
        HunkViewer::asks_for_editor(event) <==> is_pressed(event, KeyCode::Char('e')),
        event.modifiers != 0 || event.code is Other ==> viewer.pressed(event) == viewer,
        event.code matches KeyCode::Char(c) ==> {
            ||| c == 'k' || c == 'j' || c == 'h' || c == 'l'
            ||| c == ' ' || c == 'a' || c == 'b' || c == 'd'
            ||| viewer.pressed(event) == viewer
        },
{
}

/// Scrolling to the current conflict changes only the first visible row. With
/// `context` rows above and below the conflict, which are half of the rows that
/// it leaves free but no more than five, and none if no context is asked for,
/// the window ends no earlier than after the rows below and begins no later than
/// at the rows above, and moves no further than it must. If it cannot show them
/// all, it begins with the rows above.
pub proof fn law_scrolling_in_rows(viewer: HunkViewer, enforce_context: bool)
    requires
        viewer.inv(),
        viewer.hunks.len() > 0,
    ensures
        ({
            let next = viewer.scrolled_to_current(enforce_context);
            let start = viewer.start_row();
            let end = viewer.end_row();
            let window = viewer.window_height;
            let free = window - (end - start);
            let context = if !enforce_context || free <= 0 {
                0
            } else if free / 2 >= 5 {
                5
            } else {
                free / 2
            };
            let last = if start > context {
                start - context
            } else {
                0
            };
            let first = if end + context > window {
                end + context - window
            } else {
                0
            };
            &&& next == HunkViewer { scroll_offset: next.scroll_offset, ..viewer }
            &&& viewer.rows_countable(enforce_context) <==> end + context <= usize::MAX
            &&& end + context <= usize::MAX ==> next == viewer.aligned_to_current(enforce_context)
            &&& end + context > usize::MAX ==> next == viewer
            &&& end + context <= usize::MAX ==> {
                &&& last < first ==> next.scroll_offset == last
                &&& first <= last && viewer.scroll_offset < first ==> next.scroll_offset == first
                &&& first <= last && viewer.scroll_offset > last ==> next.scroll_offset == last
                &&& first <= viewer.scroll_offset <= last ==> next == viewer
            }
        }),
{
    law_aligned_offset_in_rows(
        viewer.scroll_offset,
        viewer.window_height,
        viewer.start_row(),
        viewer.end_row(),
        enforce_context,
    );
}

/// Without conflicts scrolling to the current one changes nothing.
pub proof fn law_scrolling_without_conflicts(viewer: HunkViewer, enforce_context: bool)
    requires
        viewer.inv(),
        viewer.hunks.len() == 0,
    ensures
        viewer.scrolled_to_current(enforce_context) == viewer,
        viewer.aligned_to_current(enforce_context) == viewer,
{
}

/// Scrolling by hand moves by the number of rows and stops at the top.
pub proof fn law_scrolling_by_hand(viewer: HunkViewer, amount: int)
    requires
        viewer.inv(),
        0 <= amount,
        viewer.scroll_offset + amount <= usize::MAX,
    ensures
        viewer.scrolled_by(ScrollDirection::Forward, amount) == (HunkViewer {
            scroll_offset: viewer.scroll_offset + amount,
            ..viewer
        }),
        viewer.scrolled_by(ScrollDirection::Backward, amount) == (HunkViewer {
            scroll_offset: if viewer.scroll_offset > amount {
                viewer.scroll_offset - amount
            } else {
                0
            },
            ..viewer
        }),
{
}

/// Drawing in a window of another size scrolls to the current conflict with its
/// context; drawing in one of the same size changes nothing.
pub proof fn law_drawing_scrolls_on_resize(viewer: HunkViewer, window_height: int)
    ensures
        viewer.window_height == window_height ==> viewer.resized(window_height) == viewer,
        viewer.window_height != window_height ==> viewer.resized(window_height) == (HunkViewer {
            window_height,
            ..viewer
        }).scrolled_to_current(true),
{
}

} // verus!
