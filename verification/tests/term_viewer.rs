use conflict_select::screen::TextColor;
use conflict_select::term_viewer::{terms_at, RenderedTerm};
use conflict_select::{
    label_with_file_type, simplify_conflict, Conflict, ConflictLabels, KeyCode, KeyEvent,
    LoadedTerm, Merge, ScrollDirection, TermConflictResolution, TermConflictViewerState, TreeValue,
};

fn file(id: u8) -> Option<TreeValue> {
    Some(TreeValue::File { id: vec![id], executable: false, copy_id: vec![] })
}

fn conflict(terms: Vec<Option<TreeValue>>) -> Conflict {
    Conflict {
        file_name: "dir/file".to_string(),
        unsimplified_conflict: Merge::from_vec(terms),
    }
}

fn labels(names: &[&str]) -> ConflictLabels {
    ConflictLabels::from_merge(Merge::from_vec(
        names.iter().map(|name| name.to_string()).collect(),
    ))
}

fn key(code: KeyCode) -> KeyEvent {
    KeyEvent { code, modifiers: 0 }
}

/// A viewer of a file, a base, a link and a base that is a directory, and a
/// submodule.
fn viewer(resolution: Option<&TermConflictResolution>) -> TermConflictViewerState {
    let terms = vec![
        file(1),
        Some(TreeValue::File { id: vec![2], executable: true, copy_id: vec![] }),
        Some(TreeValue::Symlink(vec![3])),
        Some(TreeValue::Tree(vec![4])),
        Some(TreeValue::GitSubmodule(vec![0x0a, 0xf5])),
    ];
    let loaded = vec![
        LoadedTerm::File(b"one\n".to_vec()),
        LoadedTerm::File(vec![]),
        LoadedTerm::Symlink("target".to_string()),
        LoadedTerm::Tree(vec!["a".to_string(), "b".to_string()]),
        LoadedTerm::Nothing,
    ];
    TermConflictViewerState::new(
        labels(&["left", "base", "", "other base", "right"]),
        Merge::from_vec(terms),
        loaded,
        resolution,
    )
}

fn rendered(state: &TermConflictViewerState) -> RenderedTerm {
    state.render(&conflict(vec![file(1)]))
}

fn texts(rendered: &RenderedTerm) -> Vec<(&str, Option<TextColor>)> {
    rendered.label.iter().map(|(text, color)| (text.as_str(), *color)).collect()
}

#[test]
fn starts_at_the_first_side() {
    let state = viewer(None);
    let shown = rendered(&state);
    assert_eq!(shown.file_name, "dir/file");
    assert_eq!(shown.choices, vec!["1", "2", "3"]);
    assert_eq!(shown.selected, 0);
    assert_eq!(texts(&shown), vec![("left", None)]);
    assert_eq!(shown.body, "one\n");
    assert!(!shown.dim);
    assert_eq!(state.scroll_offset(), 0);
}

#[test]
fn shows_the_target_of_a_link() {
    let mut state = viewer(None);
    state.handle_press(key(KeyCode::Right));
    let shown = rendered(&state);
    assert_eq!(shown.selected, 1);
    assert_eq!(
        texts(&shown),
        vec![("side #2", None), (" ", None), ("[symlink]", Some(TextColor::Yellow))]
    );
    assert_eq!(shown.body, "target");
    assert!(shown.dim);
}

#[test]
fn shows_the_id_of_a_submodule() {
    let mut state = viewer(None);
    state.handle_press(key(KeyCode::Char('l')));
    state.handle_press(key(KeyCode::Char('l')));
    let shown = rendered(&state);
    assert_eq!(
        texts(&shown),
        vec![("right", None), (" ", None), ("[git submodule]", Some(TextColor::Yellow))]
    );
    assert_eq!(shown.body, "0af5");
    assert!(shown.dim);
}

#[test]
fn shows_bases() {
    let mut state = viewer(None);
    state.handle_press(key(KeyCode::Char('b')));
    let shown = rendered(&state);
    assert_eq!(shown.choices, vec!["b1", "b2"]);
    assert_eq!(shown.selected, 0);
    assert_eq!(
        texts(&shown),
        vec![("base", None), (" ", None), ("[executable]", Some(TextColor::Yellow))]
    );
    assert_eq!(shown.body, "(empty)");
    assert!(shown.dim);
}

#[test]
fn shows_the_names_in_a_directory() {
    let mut state = viewer(None);
    state.handle_press(key(KeyCode::Char('b')));
    state.handle_press(key(KeyCode::Right));
    let shown = rendered(&state);
    assert_eq!(shown.selected, 1);
    assert_eq!(
        texts(&shown),
        vec![("other base", None), (" ", None), ("[directory]", Some(TextColor::Yellow))]
    );
    assert_eq!(shown.body, "\u{2022} a\n\n\u{2022} b\n");
    assert!(shown.dim);
}

#[test]
fn shows_deletions() {
    let state = TermConflictViewerState::new(
        ConflictLabels::unlabeled(),
        Merge::from_vec(vec![None, file(1), file(2)]),
        vec![
            LoadedTerm::Nothing,
            LoadedTerm::File(b"1".to_vec()),
            LoadedTerm::File(b"2".to_vec()),
        ],
        None,
    );
    let shown = rendered(&state);
    assert_eq!(
        texts(&shown),
        vec![("side #1", None), (" ", None), ("[deleted]", Some(TextColor::Red))]
    );
    assert_eq!(shown.body, "(deleted)");
    assert!(shown.dim);
}

#[test]
fn file_contents_are_decoded() {
    let loaded = LoadedTerm::File(vec![b'x', 0xff]);
    assert_eq!(loaded.term_text(&file(1)), "x\u{fffd}");
}

#[test]
fn empty_directory_has_no_text() {
    let loaded = LoadedTerm::Tree(vec![]);
    assert_eq!(loaded.term_text(&Some(TreeValue::Tree(vec![1]))), "");
}

#[test]
fn moves_stop_at_the_ends() {
    let mut state = viewer(None);
    state.handle_press(key(KeyCode::Left));
    assert_eq!(rendered(&state).selected, 0);
    for _ in 0..5 {
        state.handle_press(key(KeyCode::Right));
    }
    assert_eq!(rendered(&state).selected, 2);
    state.handle_press(key(KeyCode::Char('h')));
    assert_eq!(rendered(&state).selected, 1);
}

#[test]
fn moves_between_bases_stop_at_the_last() {
    let mut state = viewer(None);
    state.handle_press(key(KeyCode::Char('b')));
    for _ in 0..5 {
        state.handle_press(key(KeyCode::Right));
    }
    assert_eq!(rendered(&state).selected, 1);
}

#[test]
fn moves_of_terms_undo_each_other() {
    let start = TermConflictResolution { add_or_remove_index: 1, show_bases: false };
    let mut resolution = start;
    resolution.next(4);
    assert_eq!(resolution.add_or_remove_index, 2);
    resolution.prev();
    assert_eq!(resolution, start);
    resolution.toggle_base();
    assert_eq!(resolution, TermConflictResolution { add_or_remove_index: 0, show_bases: true });
    resolution.toggle_base();
    assert_eq!(resolution, start);
}

#[test]
fn first_side_shares_its_base() {
    let mut resolution = TermConflictResolution::default();
    resolution.toggle_base();
    resolution.toggle_base();
    assert_eq!(resolution, TermConflictResolution { add_or_remove_index: 1, show_bases: false });
}

#[test]
fn keys_scroll_terms() {
    let mut state = viewer(None);
    state.handle_press(key(KeyCode::Down));
    state.handle_press(key(KeyCode::Char('j')));
    assert_eq!(state.scroll_offset(), 2);
    state.handle_press(key(KeyCode::Up));
    assert_eq!(state.scroll_offset(), 1);
    state.handle_press(key(KeyCode::Char('k')));
    state.handle_press(key(KeyCode::Char('k')));
    assert_eq!(state.scroll_offset(), 0);
    state.scroll_by(ScrollDirection::Forward, 7);
    assert_eq!(state.scroll_offset(), 7);
    state.set_scroll_offset(3);
    assert_eq!(state.scroll_offset(), 3);
}

#[test]
fn held_keys_do_not_select_terms() {
    let mut state = viewer(None);
    state.handle_press(KeyEvent { code: KeyCode::Right, modifiers: 2 });
    state.handle_press(KeyEvent { code: KeyCode::Char('b'), modifiers: 1 });
    state.handle_press(key(KeyCode::Enter));
    state.handle_press(key(KeyCode::Other));
    let shown = rendered(&state);
    assert_eq!(shown.selected, 0);
    assert_eq!(shown.choices, vec!["1", "2", "3"]);
}

#[test]
fn confirms_the_selected_term() {
    let mut state = viewer(None);
    state.handle_press(key(KeyCode::Right));
    assert_eq!(state.current_term_index(), 2);
    let (value, resolution) = state.confirm();
    assert_eq!(value.into_vec(), vec![Some(TreeValue::Symlink(vec![3]))]);
    assert_eq!(resolution, TermConflictResolution { add_or_remove_index: 1, show_bases: false });
    let reopened = viewer(Some(&resolution));
    assert_eq!(rendered(&reopened), rendered(&state));
}

#[test]
fn confirms_a_base() {
    let mut state = viewer(None);
    state.handle_press(key(KeyCode::Char('b')));
    state.handle_press(key(KeyCode::Right));
    assert_eq!(state.current_term_index(), 3);
    assert_eq!(state.confirm().0.into_vec(), vec![Some(TreeValue::Tree(vec![4]))]);
}

#[test]
fn selection_beyond_the_terms_is_not_valid() {
    let selected = |add_or_remove_index, show_bases| {
        viewer(Some(&TermConflictResolution { add_or_remove_index, show_bases }))
            .selection_is_valid()
    };
    assert!(selected(2, false));
    assert!(!selected(3, false));
    assert!(selected(1, true));
    assert!(!selected(2, true));
}

#[test]
fn keys_that_lead_nowhere_cannot_be_pressed() {
    let at = |add_or_remove_index, show_bases| {
        viewer(Some(&TermConflictResolution { add_or_remove_index, show_bases }))
    };
    assert!(at(7, false).can_press(key(KeyCode::Up)));
    assert!(at(7, false).can_press(key(KeyCode::Right)));
    assert!(!at(usize::MAX, false).can_press(key(KeyCode::Char('l'))));
    assert!(at(usize::MAX, false).can_press(KeyEvent { code: KeyCode::Right, modifiers: 1 }));
    assert!(at(usize::MAX, false).can_press(key(KeyCode::Char('b'))));
    assert!(!at(usize::MAX, true).can_press(key(KeyCode::Char('b'))));
    let single = TermConflictViewerState::new(
        ConflictLabels::unlabeled(),
        Merge::resolved(file(1)),
        vec![LoadedTerm::File(vec![])],
        Some(&TermConflictResolution { add_or_remove_index: 0, show_bases: true }),
    );
    assert!(!single.can_press(key(KeyCode::Right)));
    assert!(single.can_press(key(KeyCode::Left)));
}

#[test]
fn simplifying_keeps_labels() {
    let unsimplified = conflict(vec![file(1), file(2), file(3), file(3), None]);
    let (left, simplified) = simplify_conflict(&labels(&["a", "b", "c", "d", "e"]), &unsimplified);
    assert_eq!(simplified.into_vec(), vec![file(1), file(2), None]);
    assert_eq!(left.get_or_default(0), "a");
    assert_eq!(left.get_or_default(1), "b");
    assert_eq!(left.get_or_default(2), "e");
}

#[test]
fn simplifying_moves_the_side_after_the_base() {
    // The first side equals the second base, so the last side takes its place.
    let unsimplified = conflict(vec![file(1), file(2), file(3), file(1), file(4)]);
    let (left, simplified) = simplify_conflict(&labels(&["a", "b", "c", "d", "e"]), &unsimplified);
    assert_eq!(simplified.into_vec(), vec![file(4), file(2), file(3)]);
    assert_eq!(left.get_or_default(0), "e");
    assert_eq!(left.get_or_default(1), "b");
    assert_eq!(left.get_or_default(2), "c");
    // The last side equals the first base.
    let unsimplified = conflict(vec![file(5), file(1), file(2), file(3), file(1)]);
    let (_, simplified) = simplify_conflict(&ConflictLabels::unlabeled(), &unsimplified);
    assert_eq!(simplified.into_vec(), vec![file(5), file(3), file(2)]);
}

#[test]
fn simplified_conflict_has_no_equal_side_and_base() {
    let unsimplified =
        conflict(vec![file(1), file(1), file(2), file(2), file(3), file(4), file(3)]);
    let (left, simplified) =
        simplify_conflict(&labels(&["a", "b", "c", "d", "e", "f", "g"]), &unsimplified);
    assert_eq!(simplified.copy().into_vec(), vec![file(3), file(4), file(3)]);
    let again = Conflict { file_name: String::new(), unsimplified_conflict: simplified };
    let (_, twice) = simplify_conflict(&left, &again);
    assert_eq!(twice.into_vec(), vec![file(3), file(4), file(3)]);
}

#[test]
fn label_of_a_single_term_is_dropped() {
    let unsimplified = conflict(vec![file(1), file(2), file(2)]);
    let (left, simplified) = simplify_conflict(&labels(&["a", "b", "c"]), &unsimplified);
    assert_eq!(simplified.into_vec(), vec![file(1)]);
    assert_eq!(left.get_or_default(0), "side #1");
}

#[test]
fn simplifying_without_labels() {
    let unsimplified = conflict(vec![file(1), None, None, file(2), file(3)]);
    let (left, simplified) = simplify_conflict(&ConflictLabels::unlabeled(), &unsimplified);
    assert_eq!(simplified.into_vec(), vec![file(1), file(2), file(3)]);
    assert_eq!(left.as_merge().len(), 1);
}

#[test]
fn simplifying_tells_values_apart() {
    let executable =
        Some(TreeValue::File { id: vec![1], executable: true, copy_id: vec![] });
    let unsimplified = conflict(vec![file(1), executable, Some(TreeValue::Symlink(vec![1]))]);
    let (_, simplified) = simplify_conflict(&ConflictLabels::unlabeled(), &unsimplified);
    assert_eq!(simplified.len(), 3);
}

#[test]
fn terms_are_picked_by_their_places() {
    let terms = Merge::from_vec(vec![file(1), None, file(2)]);
    let picked = terms_at(&terms, &vec![2, 1, 2]);
    assert_eq!(picked.into_vec(), vec![file(2), None, file(2)]);
}

#[test]
fn plain_files_have_no_tag() {
    let line = label_with_file_type("label".to_string(), &file(1));
    assert_eq!(line, vec![("label".to_string(), None)]);
}
