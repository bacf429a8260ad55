use conflict_select::files::MergeResult;
use conflict_select::hunk_viewer::RenderedHunks;
use conflict_select::screen::{BodyText, ScrollableItem, TextColor};
use conflict_select::{
    Conflict, ConflictLabels, FileConflict, FileMergeHunkLevel, HunkConflictResolution,
    HunkConflictViewerState, HunkSelection, KeyCode, KeyEvent, Merge, MergeOptions, SameChange,
    ScrollDirection, SelectToolResult, TreeValue,
};

const ONE: [&str; 3] = ["a\nX\nc\n", "a\nb\nc\n", "a\nY\nc\n"];
const TWO: [&str; 3] = ["1\nA\n2\nB\n3\n", "1\na\n2\nb\n3\n", "1\nC\n2\nD\n3\n"];

fn options() -> MergeOptions {
    MergeOptions { hunk_level: FileMergeHunkLevel::Line, same_change: SameChange::Accept }
}

fn bytes(text: &str) -> Vec<u8> {
    text.as_bytes().to_vec()
}

fn merge(terms: &[&str]) -> Merge<Vec<u8>> {
    Merge::from_vec(terms.iter().map(|term| bytes(term)).collect())
}

fn ids(terms: &[u8]) -> Merge<Option<Vec<u8>>> {
    Merge::from_vec(terms.iter().map(|&id| Some(vec![id])).collect())
}

fn file_conflict(terms: &[&str]) -> FileConflict {
    FileConflict {
        unsimplified_ids: ids(&[1, 2, 3]),
        contents: merge(terms),
        labels: ConflictLabels::from_merge(Merge::from_vec(vec![
            "left".to_string(),
            "base".to_string(),
            "right".to_string(),
        ])),
        executable: Some(false),
        copy_id: None,
    }
}

fn conflict() -> Conflict {
    Conflict {
        file_name: "dir/file".to_string(),
        unsimplified_conflict: Merge::from_vec(vec![None, None, None]),
    }
}

fn viewer(terms: &[&str]) -> HunkConflictViewerState {
    HunkConflictViewerState::try_new(options(), file_conflict(terms), None).unwrap()
}

fn press(state: &mut HunkConflictViewerState, code: KeyCode) -> Option<SelectToolResult> {
    state.handle_press(KeyEvent { code, modifiers: 0 }, &conflict())
}

fn shown(state: &mut HunkConflictViewerState) -> RenderedHunks {
    state.render(40, &conflict())
}

fn merged(state: &HunkConflictViewerState) -> Option<Vec<String>> {
    let contents = state.get_merged_contents()?.into_vec();
    Some(contents.into_iter().map(|term| String::from_utf8(term).unwrap()).collect())
}

fn context(text: &str) -> ScrollableItem {
    ScrollableItem::Context(text.to_string())
}

fn plain(text: &str) -> BodyText {
    BodyText::Plain(text.to_string())
}

fn side_choices() -> Vec<HunkSelection> {
    vec![HunkSelection::Added(0), HunkSelection::Added(1), HunkSelection::AllAdded]
}

#[test]
fn opens_at_the_conflict() {
    let mut state = viewer(&ONE);
    let rendered = shown(&mut state);
    assert_eq!(rendered.file_name, "dir/file");
    assert_eq!(rendered.summary, "(0/1 conflicts resolved)");
    assert_eq!(rendered.summary_color, TextColor::Red);
    assert_eq!(
        rendered.items,
        vec![
            context("a\n"),
            ScrollableItem::OpenHunk {
                title: "\u{1f783} Conflict 1/1".to_string(),
                choices: side_choices(),
                selection: HunkSelection::Added(0),
                label_lines: vec!["left".to_string()],
                body: plain("X\n"),
            },
            context("c\n"),
        ]
    );
    assert_eq!(merged(&state), None);
}

#[test]
fn enter_resolves_and_takes_back() {
    let mut state = viewer(&ONE);
    assert!(press(&mut state, KeyCode::Enter).is_none());
    let rendered = shown(&mut state);
    assert_eq!(rendered.summary, "(1/1 conflicts resolved)");
    assert_eq!(rendered.summary_color, TextColor::Green);
    assert_eq!(
        rendered.items[1],
        ScrollableItem::ResolvedHunk { body: plain("X\n"), focused: true }
    );
    assert_eq!(merged(&state), Some(vec!["a\nX\nc\n".to_string()]));
    press(&mut state, KeyCode::Char(' '));
    assert_eq!(shown(&mut state).summary, "(0/1 conflicts resolved)");
    assert_eq!(merged(&state), None);
}

#[test]
fn keys_select_terms() {
    let mut state = viewer(&ONE);
    press(&mut state, KeyCode::Right);
    press(&mut state, KeyCode::Enter);
    assert_eq!(merged(&state), Some(vec!["a\nY\nc\n".to_string()]));
    press(&mut state, KeyCode::Backspace);
    press(&mut state, KeyCode::Char('l'));
    press(&mut state, KeyCode::Enter);
    assert_eq!(merged(&state), Some(vec!["a\nX\nY\nc\n".to_string()]));
    press(&mut state, KeyCode::Delete);
    press(&mut state, KeyCode::Left);
    press(&mut state, KeyCode::Char('h'));
    press(&mut state, KeyCode::Enter);
    assert_eq!(merged(&state), Some(vec!["a\nX\nc\n".to_string()]));
}

#[test]
fn resolved_conflict_keeps_its_selection() {
    let mut state = viewer(&ONE);
    press(&mut state, KeyCode::Enter);
    press(&mut state, KeyCode::Right);
    press(&mut state, KeyCode::Char('b'));
    press(&mut state, KeyCode::Char('d'));
    assert_eq!(merged(&state), Some(vec!["a\nX\nc\n".to_string()]));
    press(&mut state, KeyCode::Enter);
    assert_eq!(merged(&state), None);
}

#[test]
fn base_can_be_selected() {
    let mut state = viewer(&ONE);
    press(&mut state, KeyCode::Char('b'));
    match &shown(&mut state).items[1] {
        ScrollableItem::OpenHunk { choices, selection, label_lines, body, .. } => {
            assert_eq!(choices, &vec![HunkSelection::Removed(0)]);
            assert_eq!(*selection, HunkSelection::Removed(0));
            assert_eq!(label_lines, &vec!["base".to_string()]);
            assert_eq!(*body, plain("b\n"));
        }
        other => panic!("unexpected {other:?}"),
    }
    press(&mut state, KeyCode::Enter);
    assert_eq!(merged(&state), Some(vec!["a\nb\nc\n".to_string()]));
}

#[test]
fn diff_from_the_base_can_be_shown() {
    let mut state = viewer(&ONE);
    press(&mut state, KeyCode::Char('d'));
    match &shown(&mut state).items[1] {
        ScrollableItem::OpenHunk { label_lines, body, .. } => {
            assert_eq!(
                label_lines,
                &vec!["diff from: base".to_string(), "       to: left".to_string()]
            );
            let lines = match body {
                BodyText::Diff(lines) => lines,
                other => panic!("unexpected {other:?}"),
            };
            let signs: Vec<char> = lines.iter().map(|line| line.sigil).collect();
            assert_eq!(signs, vec!['-', '+']);
        }
        other => panic!("unexpected {other:?}"),
    }
    // Only sides are shown as diffs.
    press(&mut state, KeyCode::Char('b'));
    match &shown(&mut state).items[1] {
        ScrollableItem::OpenHunk { body, .. } => assert_eq!(*body, plain("b\n")),
        other => panic!("unexpected {other:?}"),
    }
}

#[test]
fn partly_resolved_file_keeps_its_terms() {
    let mut state = viewer(&TWO);
    press(&mut state, KeyCode::Enter);
    let rendered = shown(&mut state);
    assert_eq!(rendered.summary, "(1/2 conflicts resolved)");
    assert_eq!(rendered.summary_color, TextColor::Yellow);
    assert_eq!(
        merged(&state),
        Some(vec![
            "1\nA\n2\nB\n3\n".to_string(),
            "1\nA\n2\nb\n3\n".to_string(),
            "1\nA\n2\nD\n3\n".to_string(),
        ])
    );
}

#[test]
fn keys_move_between_conflicts() {
    let mut state = viewer(&TWO);
    assert_eq!(
        shown(&mut state).items[3],
        ScrollableItem::FoldedHunk { title: "\u{1f782} Conflict 2/2".to_string() }
    );
    press(&mut state, KeyCode::Up);
    press(&mut state, KeyCode::Down);
    press(&mut state, KeyCode::Char('j'));
    press(&mut state, KeyCode::Enter);
    assert_eq!(
        merged(&state),
        Some(vec![
            "1\nA\n2\nB\n3\n".to_string(),
            "1\na\n2\nB\n3\n".to_string(),
            "1\nC\n2\nB\n3\n".to_string(),
        ])
    );
    press(&mut state, KeyCode::Char('k'));
    press(&mut state, KeyCode::Enter);
    assert_eq!(merged(&state), Some(vec!["1\nA\n2\nB\n3\n".to_string()]));
}

#[test]
fn selection_of_a_resolved_conflict_becomes_current() {
    let mut state = viewer(&TWO);
    press(&mut state, KeyCode::Right);
    press(&mut state, KeyCode::Enter);
    press(&mut state, KeyCode::Down);
    press(&mut state, KeyCode::Left);
    press(&mut state, KeyCode::Up);
    press(&mut state, KeyCode::Down);
    press(&mut state, KeyCode::Enter);
    assert_eq!(merged(&state), Some(vec!["1\nC\n2\nD\n3\n".to_string()]));
}

#[test]
fn rest_is_resolved_at_once() {
    let mut state = viewer(&TWO);
    press(&mut state, KeyCode::Enter);
    press(&mut state, KeyCode::Down);
    press(&mut state, KeyCode::Right);
    press(&mut state, KeyCode::Char('a'));
    assert_eq!(merged(&state), Some(vec!["1\nA\n2\nD\n3\n".to_string()]));
    press(&mut state, KeyCode::Char('a'));
    assert_eq!(merged(&state), Some(vec!["1\nA\n2\nD\n3\n".to_string()]));
}

#[test]
fn held_keys_are_ignored() {
    let mut state = viewer(&ONE);
    for code in [KeyCode::Enter, KeyCode::Char('a'), KeyCode::Char('e')] {
        assert!(state.handle_press(KeyEvent { code, modifiers: 1 }, &conflict()).is_none());
    }
    press(&mut state, KeyCode::Other);
    press(&mut state, KeyCode::Char('x'));
    assert_eq!(merged(&state), None);
}

#[test]
fn editor_gets_the_contents() {
    let mut state = viewer(&ONE);
    match press(&mut state, KeyCode::Char('e')).unwrap() {
        SelectToolResult::EditConflict { file_name, contents, labels } => {
            assert_eq!(file_name, "dir/file");
            assert_eq!(contents.into_vec(), merge(&ONE).into_vec());
            assert_eq!(labels.get_or_default(2), "right");
        }
    }
    press(&mut state, KeyCode::Enter);
    match press(&mut state, KeyCode::Char('e')).unwrap() {
        SelectToolResult::EditConflict { contents, .. } => {
            assert_eq!(contents.into_vec(), vec![bytes("a\nX\nc\n")]);
        }
    }
}

#[test]
fn editor_can_resolve_the_file() {
    let mut state = viewer(&ONE).set_contents(merge(&["a\nZ\nc\n"]));
    let rendered = shown(&mut state);
    assert_eq!(rendered.summary, "(resolved by editor)");
    assert_eq!(rendered.summary_color, TextColor::Green);
    assert_eq!(rendered.items, vec![context("a\nZ\nc\n")]);
    assert_eq!(merged(&state), Some(vec!["a\nZ\nc\n".to_string()]));
    // Without conflicts the keys scroll.
    press(&mut state, KeyCode::Down);
    press(&mut state, KeyCode::Down);
    assert_eq!(state.scroll_offset(), 2);
    press(&mut state, KeyCode::Up);
    assert_eq!(state.scroll_offset(), 1);
    press(&mut state, KeyCode::Enter);
    press(&mut state, KeyCode::Delete);
    press(&mut state, KeyCode::Left);
    assert_eq!(state.scroll_offset(), 1);
}

#[test]
fn editor_can_leave_conflicts() {
    let mut state = viewer(&TWO);
    press(&mut state, KeyCode::Enter);
    let mut state = state.set_contents(merge(&ONE));
    let rendered = shown(&mut state);
    assert_eq!(rendered.summary, "(0/1 conflicts resolved, edited)");
    assert_eq!(rendered.summary_color, TextColor::Yellow);
    assert_eq!(merged(&state), Some(ONE.iter().map(|term| term.to_string()).collect()));
}

#[test]
fn unchanged_edit_is_dropped() {
    let mut state = viewer(&ONE);
    press(&mut state, KeyCode::Enter);
    let mut state = state.set_contents(merge(&ONE));
    assert_eq!(merged(&state), None);
    assert_eq!(shown(&mut state).summary, "(0/1 conflicts resolved)");
}

#[test]
fn window_follows_the_current_conflict() {
    let before: String = (0..30).map(|line| format!("{line}\n")).collect();
    let terms: Vec<String> =
        ["X\n", "b\n", "Y\n"].iter().map(|side| format!("{before}{side}end\n")).collect();
    let terms: Vec<&str> = terms.iter().map(|term| term.as_str()).collect();
    let mut state = viewer(&terms);
    assert_eq!(state.scroll_offset(), 0);
    state.render(12, &conflict());
    assert_eq!(state.scroll_offset(), 28);
    // Drawing again leaves the window where it was scrolled to.
    state.scroll_by(ScrollDirection::Backward, 20);
    state.render(12, &conflict());
    assert_eq!(state.scroll_offset(), 8);
    state.scroll_to_current_hunk(false);
    assert_eq!(state.scroll_offset(), 26);
    state.set_scroll_offset(0);
    assert!(state.try_scroll_to_current_hunk(true));
    assert_eq!(state.scroll_offset(), 28);
    state.set_scroll_offset(100);
    press(&mut state, KeyCode::Right);
    assert_eq!(state.scroll_offset(), 30);
    // The window has no rows between its borders.
    state.render(1, &conflict());
    assert_eq!(state.scroll_offset(), 30);
    press(&mut state, KeyCode::Enter);
    state.set_scroll_offset(0);
    state.render(8, &conflict());
    assert_eq!(state.scroll_offset(), 28);
}

#[test]
fn scrolling_goes_by_the_items_shown() {
    let mut state = viewer(&TWO);
    press(&mut state, KeyCode::Down);
    let rendered = state.render(8, &conflict());
    let heights: Vec<usize> =
        rendered.items.iter().map(|item| item.height().unwrap()).collect();
    assert_eq!(heights, vec![1, 3, 1, 6, 1]);
    // The conflict fills the window, which begins below the items before it.
    assert_eq!(state.scroll_offset(), heights[..3].iter().sum::<usize>());
}

#[test]
fn scrolling_is_minimal() {
    let before: String = (0..30).map(|line| format!("{line}\n")).collect();
    let terms: Vec<String> =
        ["X\n", "b\n", "Y\n"].iter().map(|side| format!("{before}{side}")).collect();
    let terms: Vec<&str> = terms.iter().map(|term| term.as_str()).collect();
    let mut state = viewer(&terms);
    state.render(14, &conflict());
    // The conflict takes the rows from 30 to 36 of a window of twelve rows.
    for (offset, scrolled) in [(0, 24), (24, 24), (27, 27), (30, 30), (33, 30)] {
        state.set_scroll_offset(offset);
        state.scroll_to_current_hunk(false);
        assert_eq!(state.scroll_offset(), scrolled);
        state.scroll_to_current_hunk(false);
        assert_eq!(state.scroll_offset(), scrolled);
    }
    for code in [KeyCode::Char('b'), KeyCode::Char('d')] {
        state.set_scroll_offset(0);
        press(&mut state, code);
        assert_eq!(state.scroll_offset(), 24);
    }
}

#[test]
fn edit_replaces_selections_beyond_the_terms() {
    let selections = vec![Some(HunkSelection::Added(9))];
    let resolution = HunkConflictResolution::from_parts(None, selections);
    let state =
        HunkConflictViewerState::try_new(options(), file_conflict(&ONE), Some(&resolution)).unwrap();
    let state = state.set_contents(merge(&["z\n"]));
    assert_eq!(merged(&state), Some(vec!["z\n".to_string()]));
}

#[test]
fn scrolling_goes_by_rows() {
    let mut state = viewer(&TWO);
    state.render(6, &conflict());
    // The first conflict takes six rows after one row of text.
    assert_eq!(state.scroll_offset(), 1);
    press(&mut state, KeyCode::Down);
    // One row, a folded conflict of three rows and another row come before.
    assert_eq!(state.scroll_offset(), 5);
}

#[test]
fn invalid_text_is_shown_with_replacements() {
    let contents = Merge::from_vec(vec![
        vec![0xff, b'\n', b'X', b'\n'],
        vec![0xff, b'\n', b'b', b'\n'],
        vec![0xff, b'\n', 0xfe, b'\n'],
    ]);
    let conflicted = FileConflict { contents, ..file_conflict(&ONE) };
    let mut state = HunkConflictViewerState::try_new(options(), conflicted, None).unwrap();
    press(&mut state, KeyCode::Right);
    let rendered = shown(&mut state);
    assert_eq!(rendered.items[0], context("\u{fffd}\n"));
    match &rendered.items[1] {
        ScrollableItem::OpenHunk { body, .. } => assert_eq!(*body, plain("\u{fffd}\n")),
        other => panic!("unexpected {other:?}"),
    }
    press(&mut state, KeyCode::Enter);
    assert_eq!(
        state.get_merged_contents().unwrap().into_vec(),
        vec![vec![0xff, b'\n', 0xfe, b'\n']]
    );
}

#[test]
fn confirms_a_resolved_file() {
    let mut conflicted = file_conflict(&ONE);
    conflicted.executable = Some(true);
    conflicted.copy_id = Some(vec![7]);
    let mut state = HunkConflictViewerState::try_new(options(), conflicted, None).unwrap();
    press(&mut state, KeyCode::Enter);
    let (values, _) = state.try_confirm(Merge::resolved(vec![9])).unwrap();
    assert_eq!(
        values.into_vec(),
        vec![Some(TreeValue::File { id: vec![9], executable: true, copy_id: vec![7] })]
    );
}

#[test]
fn confirms_with_defaults() {
    let mut conflicted = file_conflict(&ONE);
    conflicted.executable = None;
    let mut state = HunkConflictViewerState::try_new(options(), conflicted, None).unwrap();
    press(&mut state, KeyCode::Enter);
    let (values, _) = state.try_confirm(Merge::resolved(vec![9])).unwrap();
    assert_eq!(
        values.into_vec(),
        vec![Some(TreeValue::File { id: vec![9], executable: false, copy_id: vec![] })]
    );
}

#[test]
fn confirms_a_partly_resolved_file() {
    let mut conflicted = file_conflict(&TWO);
    conflicted.unsimplified_ids = ids(&[1, 2, 3, 3, 4]);
    let mut state = HunkConflictViewerState::try_new(options(), conflicted, None).unwrap();
    press(&mut state, KeyCode::Enter);
    let file = |id: u8| {
        Some(TreeValue::File { id: vec![id], executable: false, copy_id: vec![] })
    };
    let written = |ids: &[u8]| Merge::from_vec(ids.iter().map(|&id| vec![id]).collect());
    let (values, _) = state.try_confirm(written(&[10, 11, 12])).unwrap();
    assert_eq!(values.into_vec(), vec![file(10), file(11), file(3), file(3), file(12)]);
    assert!(state.try_confirm(written(&[10])).is_none());
    assert!(state.try_confirm(written(&[10, 11, 12, 13, 14])).is_none());
}

#[test]
fn confirms_files_in_the_places_of_the_terms() {
    let mut conflicted = file_conflict(&TWO);
    conflicted.unsimplified_ids = ids(&[1, 2, 3, 1, 4]);
    let mut state = HunkConflictViewerState::try_new(options(), conflicted, None).unwrap();
    press(&mut state, KeyCode::Enter);
    let written = Merge::from_vec(vec![vec![10], vec![11], vec![12]]);
    let (values, _) = state.try_confirm(written).unwrap();
    let file = |id: u8| {
        Some(TreeValue::File { id: vec![id], executable: false, copy_id: vec![] })
    };
    assert_eq!(values.into_vec(), vec![file(1), file(11), file(12), file(1), file(10)]);
}

#[test]
fn selections_must_pick_terms() {
    let fits = |selection, sides| {
        HunkConflictResolution::from_parts(None, vec![None, Some(selection)]).fits(sides)
    };
    assert!(fits(HunkSelection::Added(1), 2));
    assert!(!fits(HunkSelection::Added(2), 2));
    assert!(fits(HunkSelection::Removed(0), 2));
    assert!(!fits(HunkSelection::Removed(1), 2));
    assert!(!fits(HunkSelection::Removed(0), 0));
    assert!(fits(HunkSelection::AllAdded, 1));
    assert!(HunkConflictResolution::from_parts(None, vec![]).fits(1));
}

#[test]
fn confirms_a_file_for_each_term() {
    let mut state = viewer(&TWO);
    press(&mut state, KeyCode::Enter);
    let written = Merge::from_vec(vec![vec![10], vec![11], vec![12]]);
    let (values, _) = state.try_confirm(written).unwrap();
    let file = |id: u8| {
        Some(TreeValue::File { id: vec![id], executable: false, copy_id: vec![] })
    };
    assert_eq!(values.into_vec(), vec![file(10), file(11), file(12)]);
}

#[test]
fn nothing_is_recorded_without_changes() {
    let state = viewer(&ONE);
    assert!(state.try_confirm(merge(&["1", "2", "3"])).is_none());
    assert!(state.try_confirm(merge(&["1"])).is_none());
}

#[test]
fn files_must_fit_the_merge() {
    let mut conflicted = file_conflict(&TWO);
    conflicted.unsimplified_ids = ids(&[1, 2, 3, 4, 5]);
    let mut state = HunkConflictViewerState::try_new(options(), conflicted, None).unwrap();
    press(&mut state, KeyCode::Enter);
    assert!(state.try_confirm(merge(&["1", "2", "3"])).is_none());
    press(&mut state, KeyCode::Char('a'));
    assert!(state.try_confirm(merge(&["1"])).is_some());
}

#[test]
fn files_that_are_absent_have_no_value() {
    let state = viewer(&ONE);
    let ids = Merge::from_vec(vec![Some(vec![1]), None, Some(vec![2])]);
    let file = |id: u8| {
        Some(TreeValue::File { id: vec![id], executable: false, copy_id: vec![] })
    };
    assert_eq!(state.file_values(&ids).into_vec(), vec![file(1), None, file(2)]);
}

#[test]
fn reopening_restores_the_choices() {
    let mut state = viewer(&TWO);
    press(&mut state, KeyCode::Right);
    press(&mut state, KeyCode::Enter);
    let written = Merge::from_vec(vec![vec![1], vec![2], vec![3]]);
    let (_, resolution) = state.confirm(written);
    let mut reopened =
        HunkConflictViewerState::new(options(), file_conflict(&TWO), Some(&resolution));
    assert_eq!(merged(&reopened), merged(&state));
    // The conflict that is still open is the current one.
    let rendered = shown(&mut reopened);
    assert_eq!(
        rendered.items[1],
        ScrollableItem::ResolvedHunk { body: plain("C\n"), focused: false }
    );
    match &rendered.items[3] {
        ScrollableItem::OpenHunk { title, selection, .. } => {
            assert_eq!(title, "\u{1f783} Conflict 2/2");
            assert_eq!(*selection, HunkSelection::Added(0));
        }
        other => panic!("unexpected {other:?}"),
    }
}

#[test]
fn reopening_restores_the_edit() {
    let state = viewer(&TWO).set_contents(merge(&ONE));
    let written = Merge::from_vec(vec![vec![1], vec![2], vec![3]]);
    let (_, resolution) = state.confirm(written);
    let reopened = HunkConflictViewerState::new(options(), file_conflict(&TWO), Some(&resolution));
    assert_eq!(merged(&reopened), merged(&state));
}

#[test]
fn reopening_a_resolved_file_starts_at_the_first_conflict() {
    let selections = vec![Some(HunkSelection::AllAdded), Some(HunkSelection::Removed(0))];
    let resolution = HunkConflictResolution::from_parts(None, selections);
    let mut state = HunkConflictViewerState::new(options(), file_conflict(&TWO), Some(&resolution));
    assert_eq!(merged(&state), Some(vec!["1\nA\nC\n2\nb\n3\n".to_string()]));
    assert_eq!(
        shown(&mut state).items[1],
        ScrollableItem::ResolvedHunk { body: plain("A\nC\n"), focused: true }
    );
    press(&mut state, KeyCode::Enter);
    assert_eq!(shown(&mut state).summary, "(1/2 conflicts resolved)");
}

#[test]
fn selections_must_match_the_conflicts() {
    let resolution = HunkConflictResolution::from_parts(None, vec![None, None]);
    let open = |resolution| {
        HunkConflictViewerState::try_new(options(), file_conflict(&ONE), Some(resolution))
    };
    assert!(open(&resolution).is_none());
    let none = HunkConflictResolution::from_parts(None, vec![]);
    assert!(open(&none).is_some());
}

#[test]
fn viewer_of_given_hunks() {
    let hunks = vec![
        Merge::resolved(bytes("a\n")),
        Merge::resolved(bytes("b\n")),
        merge(&["x\n", "y\n", "z\n"]),
        merge(&["", "u\n", "v\n"]),
    ];
    let mut state = HunkConflictViewerState::from_merge_result(
        options(),
        file_conflict(&ONE),
        None,
        MergeResult::Conflict(hunks),
    );
    let rendered = shown(&mut state);
    assert_eq!(rendered.items.len(), 5);
    assert_eq!(rendered.items[0], context("a\nb\n"));
    assert_eq!(rendered.items[2], ScrollableItem::Empty);
    assert_eq!(rendered.items[4], ScrollableItem::Empty);
    press(&mut state, KeyCode::Char('a'));
    assert_eq!(
        shown(&mut state).items[3],
        ScrollableItem::ResolvedHunk { body: BodyText::Deleted, focused: false }
    );
    assert_eq!(merged(&state), Some(vec!["a\nb\nx\n".to_string()]));
}

#[test]
fn looking_changes_no_choice() {
    let mut state = viewer(&TWO);
    press(&mut state, KeyCode::Enter);
    let before = merged(&state);
    for code in [
        KeyCode::Down,
        KeyCode::Right,
        KeyCode::Char('b'),
        KeyCode::Char('d'),
        KeyCode::Left,
        KeyCode::Up,
        KeyCode::Char('e'),
    ] {
        press(&mut state, code);
        shown(&mut state);
    }
    assert_eq!(merged(&state), before);
}

#[test]
fn opening_keeps_the_text() {
    let mut state = viewer(&TWO);
    press(&mut state, KeyCode::Enter);
    press(&mut state, KeyCode::Enter);
    match press(&mut state, KeyCode::Char('e')).unwrap() {
        SelectToolResult::EditConflict { contents, .. } => {
            assert_eq!(contents.into_vec(), merge(&TWO).into_vec());
        }
    }
}

#[test]
fn accessors_of_the_viewer() {
    let state = viewer(&ONE);
    assert_eq!(state.num_sides(), 2);
    assert_eq!(state.file_contents().len(), 3);
    assert_eq!(state.labels().get_or_default(0), "left");
    assert!(!state.current_hunk().unwrap().is_resolved());
    assert!(state.current_hunk().unwrap().resolved_contents().is_none());
    let edited = state.set_contents(merge(&["x\n"]));
    assert_eq!(edited.num_sides(), 1);
    assert!(edited.current_hunk().is_none());
}

#[test]
fn merge_options_are_used() {
    let terms = ["A b c\n", "a b c\n", "a b C\n"];
    assert_eq!(shown(&mut viewer(&terms)).summary, "(0/1 conflicts resolved)");
    let word = MergeOptions { hunk_level: FileMergeHunkLevel::Word, ..options() };
    let mut state = HunkConflictViewerState::try_new(word, file_conflict(&terms), None).unwrap();
    assert_eq!(shown(&mut state).items, vec![context("A b C\n")]);
    let same = ["n\n", "o\n", "n\n"];
    let keep = MergeOptions { same_change: SameChange::Keep, ..options() };
    let mut kept = HunkConflictViewerState::try_new(keep, file_conflict(&same), None).unwrap();
    assert_eq!(shown(&mut kept).summary, "(0/1 conflicts resolved)");
    let mut accepted = viewer(&same);
    assert_eq!(shown(&mut accepted).items, vec![context("n\n")]);
}
