use conflict_select::selection::combine_sides;
use conflict_select::{ConflictLabels, HunkSelection, Merge};

fn merge(terms: &[&str]) -> Merge<Vec<u8>> {
    Merge::from_vec(terms.iter().map(|term| term.as_bytes().to_vec()).collect())
}

fn select(selection: HunkSelection, terms: &[&str]) -> String {
    String::from_utf8(selection.select_from(&merge(terms))).unwrap()
}

fn labels(names: &[&str]) -> ConflictLabels {
    ConflictLabels::from_merge(Merge::from_vec(
        names.iter().map(|name| name.to_string()).collect(),
    ))
}

#[test]
fn select_side_or_base() {
    let terms = ["a", "b", "c", "d", "e"];
    assert_eq!(select(HunkSelection::Added(0), &terms), "a");
    assert_eq!(select(HunkSelection::Added(1), &terms), "c");
    assert_eq!(select(HunkSelection::Added(2), &terms), "e");
    assert_eq!(select(HunkSelection::Removed(0), &terms), "b");
    assert_eq!(select(HunkSelection::Removed(1), &terms), "d");
}

#[test]
fn select_all_sides_ends_lines() {
    assert_eq!(select(HunkSelection::AllAdded, &["x\n", "b\n", "y"]), "x\ny\n");
}

#[test]
fn select_all_sides_keeps_first_of_equal_sides() {
    let terms = ["x\n", "b1\n", "y\n", "b2\n", "x"];
    assert_eq!(select(HunkSelection::AllAdded, &terms), "x\ny\n");
}

#[test]
fn select_all_sides_cancels_equal_sides_and_bases() {
    assert_eq!(select(HunkSelection::AllAdded, &["a\n", "b\n", "b\n"]), "a\n");
    let terms = ["a\n", "b\n", "c\n", "c\n", "d\n"];
    assert_eq!(select(HunkSelection::AllAdded, &terms), "a\nd\n");
}

#[test]
fn select_all_sides_moves_the_side_after_the_base() {
    let terms = ["a\n", "b\n", "c\n", "a\n", "d\n"];
    assert_eq!(select(HunkSelection::AllAdded, &terms), "d\nc\n");
}

#[test]
fn select_all_sides_keeps_empty_side_empty() {
    assert_eq!(select(HunkSelection::AllAdded, &["", "b\n", "c"]), "c\n");
    assert_eq!(select(HunkSelection::AllAdded, &["", "b\n", ""]), "");
}

#[test]
fn select_all_sides_replaces_invalid_utf8() {
    let contents = Merge::from_vec(vec![vec![0xff], b"b\n".to_vec(), b"c\n".to_vec()]);
    let selected = HunkSelection::AllAdded.select_from(&contents);
    assert_eq!(selected, "\u{fffd}\nc\n".as_bytes().to_vec());
}

#[test]
fn select_single_side_keeps_invalid_utf8() {
    let contents = Merge::from_vec(vec![vec![0xff], b"b\n".to_vec(), b"c\n".to_vec()]);
    assert_eq!(HunkSelection::Added(0).select_from(&contents), vec![0xff]);
}

#[test]
fn combine_simplified_sides() {
    let simplified = Merge::from_vec(vec![
        Some(b"x".to_vec()),
        None,
        Some(b"y\n".to_vec()),
        None,
        Some(b"x\n".to_vec()),
    ]);
    assert_eq!(combine_sides(&simplified), b"x\ny\n".to_vec());
}

#[test]
fn moves_go_along_the_row() {
    assert_eq!(HunkSelection::Added(0).next(2), HunkSelection::Added(1));
    assert_eq!(HunkSelection::Added(1).next(2), HunkSelection::AllAdded);
    assert_eq!(HunkSelection::AllAdded.next(2), HunkSelection::AllAdded);
    assert_eq!(HunkSelection::AllAdded.prev(2), HunkSelection::Added(1));
    assert_eq!(HunkSelection::Added(1).prev(2), HunkSelection::Added(0));
    assert_eq!(HunkSelection::Added(0).prev(2), HunkSelection::Added(0));
    assert_eq!(HunkSelection::Removed(0).next(3), HunkSelection::Removed(1));
    assert_eq!(HunkSelection::Removed(1).next(3), HunkSelection::Removed(1));
    assert_eq!(HunkSelection::Removed(1).prev(3), HunkSelection::Removed(0));
    assert_eq!(HunkSelection::Removed(0).prev(3), HunkSelection::Removed(0));
}

#[test]
fn toggling_changes_between_sides_and_bases() {
    assert_eq!(HunkSelection::Added(2).toggle_add_remove(3), HunkSelection::Removed(1));
    assert_eq!(HunkSelection::Removed(1).toggle_add_remove(3), HunkSelection::Added(2));
    assert_eq!(HunkSelection::Added(0).toggle_add_remove(3), HunkSelection::Removed(0));
    assert_eq!(HunkSelection::AllAdded.toggle_add_remove(3), HunkSelection::Removed(1));
}

#[test]
fn reachable_selections_are_the_row() {
    assert_eq!(
        HunkSelection::Added(1).list_reachable(2),
        vec![HunkSelection::Added(0), HunkSelection::Added(1), HunkSelection::AllAdded]
    );
    assert_eq!(
        HunkSelection::AllAdded.list_reachable(1),
        vec![HunkSelection::Added(0), HunkSelection::AllAdded]
    );
    assert_eq!(
        HunkSelection::Removed(0).list_reachable(3),
        vec![HunkSelection::Removed(0), HunkSelection::Removed(1)]
    );
    assert_eq!(HunkSelection::Removed(0).list_reachable(1), vec![]);
}

#[test]
fn positions_have_names() {
    assert_eq!(HunkSelection::Added(0).position_str(), "1");
    assert_eq!(HunkSelection::Added(9).position_str(), "10");
    assert_eq!(HunkSelection::Removed(1).position_str(), "b2");
    assert_eq!(HunkSelection::AllAdded.position_str(), "all");
}

#[test]
fn only_sides_are_diffed() {
    let diff = HunkSelection::Added(2).to_diff().unwrap();
    assert_eq!((diff.before, diff.after), (1, 2));
    let diff = HunkSelection::Added(0).to_diff().unwrap();
    assert_eq!((diff.before, diff.after), (0, 0));
    assert!(HunkSelection::Removed(1).to_diff().is_none());
    assert!(HunkSelection::AllAdded.to_diff().is_none());
}

#[test]
fn labels_of_selections() {
    let labels = labels(&["left", "base", "right"]);
    assert_eq!(HunkSelection::Added(1).get_label(&labels), "right");
    assert_eq!(HunkSelection::Removed(0).get_label(&labels), "base");
    assert_eq!(HunkSelection::AllAdded.get_label(&labels), "(combine all sides)");
}

#[test]
fn default_labels() {
    let none = ConflictLabels::unlabeled();
    assert_eq!(none.get_or_default(0), "side #1");
    assert_eq!(none.get_or_default(1), "base #1");
    assert_eq!(none.get_or_default(4), "side #3");
    let some = labels(&["left", "", "right"]);
    assert_eq!(some.get_add_or_default(0), "left");
    assert_eq!(some.get_remove_or_default(0), "base #1");
    assert_eq!(some.get_add_or_default(5), "side #6");
}

#[test]
fn empty_labels_are_dropped() {
    assert_eq!(labels(&["", "", ""]).as_merge().len(), 1);
    assert_eq!(labels(&["only"]).get_add_or_default(0), "side #1");
    assert_eq!(labels(&["", "base", ""]).as_merge().len(), 3);
}
