//! What the term viewer shows, selects and keeps, stated on the terms of the
//! conflict.

use crate::conflict::{KeyCode, KeyEvent, TreeValueView};
use crate::labels::term_label;
use crate::screen::TextColor;
use crate::term_viewer::{
    colored_texts, file_type, hex, listed, typed_label, ColoredText, LoadedTerm, RenderedTerm,
    TermConflictResolution, TermViewer,
};
use crate::text::{decimal, shown_text};
use vstd::prelude::*;

verus! {

/// The texts that are shown are what they are in their models.
pub proof fn law_model_of_a_rendered_term(rendered: RenderedTerm, pieces: Seq<ColoredText>)
    ensures
        rendered.choice_views().len() == rendered.choices@.len(),
        forall|i: int|
            0 <= i < rendered.choices@.len() ==> #[trigger] rendered.choice_views()[i]
                == rendered.choices@[i]@,
        colored_texts(pieces).len() == pieces.len(),
        forall|i: int|
            0 <= i < pieces.len() ==> #[trigger] colored_texts(pieces)[i] == (
                pieces[i].0@,
                pieces[i].1,
            ),
{
}

/// A selection of a side stands for the term at an even place, and one of a
/// base for the term at an odd place. It is valid exactly if the conflict has
/// that term, and then that very term is the current one.
pub proof fn law_selected_term(viewer: TermViewer)
    requires
        viewer.inv(),
    ensures
        ({
            let selection = viewer.current_resolution;
            let place = if selection.show_bases {
                2 * selection.add_or_remove_index + 1
            } else {
                2 * selection.add_or_remove_index
            };
            &&& selection.term_index() == place
            &&& viewer.selection_is_valid() <==> place < viewer.conflict.len()
            &&& viewer.current_term() == viewer.conflict[place]
        }),
{
}

/// The keys right and `l` go to the next side or base and stop at the last, left
/// and `h` go back and stop at the first. The key `b` goes from a side to the
/// base before it, the first side's being the first base, and from a base to the
/// side after it. None of them scrolls.
pub proof fn law_selecting_keys(viewer: TermViewer, event: KeyEvent)
    requires
        viewer.inv(),
        viewer.selection_is_valid(),
        event.modifiers == 0,
    ensures
        ({
            let next = viewer.pressed(event);
            let index = viewer.current_resolution.add_or_remove_index;
            let bases = viewer.current_resolution.show_bases;
            let count: nat = if bases {
                viewer.conflict.len() / 2
            } else {
                viewer.conflict.len() / 2 + 1
            };
            let left = event.code is Left || event.code == KeyCode::Char('h');
            let right = event.code is Right || event.code == KeyCode::Char('l');
            &&& left || right || event.code == KeyCode::Char('b') ==> next == TermViewer {
                current_resolution: next.current_resolution,
                ..viewer
            }
            &&& left || right ==> next.current_resolution.show_bases == bases
            &&& left && index > 0 ==> next.current_resolution.add_or_remove_index == index - 1
            &&& left && index == 0 ==> next.current_resolution.add_or_remove_index == 0
            &&& right && index + 1 < count ==> next.current_resolution.add_or_remove_index == index
                + 1
            &&& right && index + 1 >= count ==> next.current_resolution.add_or_remove_index == index
            &&& event.code == KeyCode::Char('b') ==> {
                &&& next.current_resolution.show_bases == !bases
                &&& bases ==> next.current_resolution.add_or_remove_index == index + 1
                &&& !bases && index > 0 ==> next.current_resolution.add_or_remove_index == index - 1
                &&& !bases && index == 0 ==> next.current_resolution.add_or_remove_index == 0
            }
        }),
{
}

/// The keys up and `k` scroll up by one row, down and `j` scroll down by one
/// row, as far as there are rows to count. All other keys that select nothing do
/// nothing.
pub proof fn law_scrolling_keys(viewer: TermViewer, event: KeyEvent)
    requires
        viewer.inv(),
    ensures
        ({
            let next = viewer.pressed(event);
            let up = event.code is Up || event.code == KeyCode::Char('k');
            let down = event.code is Down || event.code == KeyCode::Char('j');
            let selects = event.code is Left || event.code is Right || event.code == KeyCode::Char(
                'h',
            ) || event.code == KeyCode::Char('l') || event.code == KeyCode::Char('b');
            &&& event.modifiers != 0 ==> next == viewer
            &&& !up && !down && !selects ==> next == viewer
            &&& event.modifiers == 0 && (up || down) ==> next == TermViewer {
                scroll_offset: next.scroll_offset,
                ..viewer
            }
            &&& event.modifiers == 0 && up ==> next.scroll_offset == (if viewer.scroll_offset > 0 {
                viewer.scroll_offset - 1
            } else {
                0
            })
            &&& event.modifiers == 0 && down ==> next.scroll_offset == (if viewer.scroll_offset
                < usize::MAX {
                viewer.scroll_offset + 1
            } else {
                usize::MAX as int
            })
        }),
{
}

/// A term that is left out is deleted; an executable file, a link, a directory
/// and a submodule are named after their label; a plain file is not, whatever
/// its contents and its copy.
pub proof fn law_kinds_of_terms(label: Seq<char>, term: Option<TreeValueView>)
    ensures
        ({
            let line = typed_label(label, term);
            let plain = term matches Some(TreeValueView::File { executable, .. }) && !executable;
            &&& line[0] == (label, None::<TextColor>)
            &&& plain <==> file_type(term) is None
            &&& plain ==> line.len() == 1
            &&& !plain ==> {
                &&& line.len() == 3
                &&& line[1] == (" "@, None::<TextColor>)
                &&& term is None ==> line[2] == ("[deleted]"@, Some(TextColor::Red))
                &&& term matches Some(TreeValueView::File { .. }) ==> line[2] == (
                    "[executable]"@,
                    Some(TextColor::Yellow),
                )
                &&& term matches Some(TreeValueView::Symlink(_)) ==> line[2] == (
                    "[symlink]"@,
                    Some(TextColor::Yellow),
                )
                &&& term matches Some(TreeValueView::Tree(_)) ==> line[2] == (
                    "[directory]"@,
                    Some(TextColor::Yellow),
                )
                &&& term matches Some(TreeValueView::GitSubmodule(_)) ==> line[2] == (
                    "[git submodule]"@,
                    Some(TextColor::Yellow),
                )
            }
        }),
{
}

/// The viewer lists the numbers of all sides, or of all bases while a base is
/// selected. It shows the label and the kind of the selected term, and its text:
/// the contents of a file as they are, anything else dimmed.
pub proof fn law_what_is_shown_of_a_term(viewer: TermViewer)
    requires
        viewer.inv(),
        viewer.selection_is_valid(),
    ensures
        ({
            let selection = viewer.current_resolution;
            let place = if selection.show_bases {
                2 * selection.add_or_remove_index + 1
            } else {
                2 * selection.add_or_remove_index
            };
            let term = viewer.conflict[place];
            let text = viewer.contents[place];
            &&& selection.show_bases ==> {
                &&& viewer.choices().len() == viewer.conflict.len() / 2
                &&& forall|i: int|
                    0 <= i < viewer.choices().len() ==> #[trigger] viewer.choices()[i] == "b"@
                        + decimal((i + 1) as nat)
            }
            &&& !selection.show_bases ==> {
                &&& viewer.choices().len() == viewer.conflict.len() / 2 + 1
                &&& forall|i: int|
                    0 <= i < viewer.choices().len() ==> #[trigger] viewer.choices()[i] == decimal(
                        (i + 1) as nat,
                    )
            }
            &&& viewer.label_line() == typed_label(term_label(viewer.labels, place), term)
            &&& term is None ==> viewer.body() == ("(deleted)"@, true)
            &&& term is Some && text.len() == 0 ==> viewer.body() == ("(empty)"@, true)
            &&& term is Some && text.len() > 0 ==> viewer.body() == (text, !(term->0 is File))
        }),
{
}

/// The text for a file is what it holds, for a link its target, for a directory
/// its names and for a submodule its id; there is none for a term that is left
/// out. Nothing else is loaded.
pub proof fn law_texts_of_terms(loaded: LoadedTerm, term: Option<TreeValueView>)
    ensures
        loaded.fits(term) <==> match term {
            None => loaded is Nothing,
            Some(TreeValueView::File { .. }) => loaded is File,
            Some(TreeValueView::Symlink(_)) => loaded is Symlink,
            Some(TreeValueView::Tree(_)) => loaded is Tree,
            Some(TreeValueView::GitSubmodule(_)) => loaded is Nothing,
        },
        loaded.fits(term) ==> match term {
            None => loaded is Nothing && loaded.text(term).len() == 0,
            Some(TreeValueView::File { .. }) => loaded matches LoadedTerm::File(contents)
                && loaded.text(term) == shown_text(contents@),
            Some(TreeValueView::Symlink(_)) => loaded matches LoadedTerm::Symlink(target)
                && loaded.text(term) == target@,
            Some(TreeValueView::Tree(_)) => loaded matches LoadedTerm::Tree(names) && loaded.text(
                term,
            ) == listed(names@),
            Some(TreeValueView::GitSubmodule(id)) => loaded is Nothing && loaded.text(term) == hex(
                id,
            ),
        },
{
}

/// Each name in a directory stands in a line of its own after a bullet, and
/// before each but the first stands an empty line.
pub proof fn law_names_are_listed(names: Seq<String>)
    ensures
        listed(names) == Seq::new(
            names.len(),
            |i: int|
                if i == 0 {
                    "\u{2022} "@ + names[i]@ + "\n"@
                } else {
                    "\n"@ + "\u{2022} "@ + names[i]@ + "\n"@
                },
        ).flatten(),
    decreases names.len(),
{
    let lines = |names: Seq<String>|
        Seq::new(
            names.len(),
            |i: int|
                if i == 0 {
                    "\u{2022} "@ + names[i]@ + "\n"@
                } else {
                    "\n"@ + "\u{2022} "@ + names[i]@ + "\n"@
                },
        );
    if names.len() > 0 {
        let rest = names.drop_last();
        law_names_are_listed(rest);
        let line = lines(names).last();
        assert(lines(names) =~= lines(rest).push(line));
        lines(rest).lemma_flatten_push(line);
        assert(listed(names) =~= listed(rest) + line);
    } else {
        assert(lines(names) =~= Seq::empty());
    }
}

/// A viewer that is opened has the terms and labels it is given, the text that
/// was loaded for each term, and the selection made before or else the first
/// side, and shows the first row.
pub proof fn law_opening_a_term_viewer(
    conflict: Seq<Option<TreeValueView>>,
    labels: Seq<Seq<char>>,
    loaded: Seq<LoadedTerm>,
    resolution: Option<TermConflictResolution>,
)
    ensures
        ({
            let viewer = TermViewer::opened(conflict, labels, loaded, resolution);
            &&& viewer.conflict == conflict
            &&& viewer.labels == labels
            &&& viewer.contents.len() == loaded.len()
            &&& forall|i: int|
                0 <= i < loaded.len() ==> #[trigger] viewer.contents[i] == loaded[i].text(
                    conflict[i],
                )
            &&& resolution matches Some(resolution) ==> viewer.current_resolution == resolution
            &&& resolution is None ==> viewer.current_resolution.add_or_remove_index == 0
                && !viewer.current_resolution.show_bases
            &&& viewer.scroll_offset == 0
        }),
{
}

/// Keys that go to a term can be pressed exactly while the term to go to can be
/// counted: there is a last side or base to stop at, and the next number is one.
pub proof fn law_keys_that_can_be_pressed(viewer: TermViewer, event: KeyEvent)
    requires
        viewer.inv(),
    ensures
        ({
            let index = viewer.current_resolution.add_or_remove_index;
            let bases = viewer.current_resolution.show_bases;
            let right = event.code is Right || event.code == KeyCode::Char('l');
            let toggle = event.code == KeyCode::Char('b');
            &&& event.modifiers != 0 || !right && !toggle ==> viewer.can_press(event)
            &&& event.modifiers == 0 && right ==> (viewer.can_press(event) <==> index < usize::MAX
                && (!bases || viewer.conflict.len() >= 3))
            &&& event.modifiers == 0 && toggle ==> (viewer.can_press(event) <==> !bases || index
                < usize::MAX)
        }),
{
}

} // verus!
