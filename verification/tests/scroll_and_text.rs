use conflict_select::files::from_hunks;
use conflict_select::screen::{
    content_to_text, context_hunk, diff_hunks_to_text, diff_to_text, BodyText, DiffLineType,
    DiffTextLine, DiffTokenType, ScrollableItem, TextColor, TextSpan,
};
use conflict_select::scroll::{align_offset, scroll_offset_by, visible_context};
use conflict_select::text::decimal_string;
use conflict_select::{Merge, ScrollDirection};

fn span(text: &str, underlined: bool) -> TextSpan {
    TextSpan { text: text.to_string(), underlined }
}

#[test]
fn scrolling_stops_at_the_ends() {
    let mut offset: usize = 3;
    scroll_offset_by(&mut offset, ScrollDirection::Forward, 4);
    assert_eq!(offset, 7);
    scroll_offset_by(&mut offset, ScrollDirection::Backward, 2);
    assert_eq!(offset, 5);
    scroll_offset_by(&mut offset, ScrollDirection::Backward, 9);
    assert_eq!(offset, 0);
    offset = usize::MAX;
    scroll_offset_by(&mut offset, ScrollDirection::Forward, 1);
    assert_eq!(offset, usize::MAX);
}

#[test]
fn context_is_half_of_the_free_rows() {
    assert_eq!(visible_context(10, 6, true), 2);
    assert_eq!(visible_context(10, 5, true), 2);
    assert_eq!(visible_context(40, 6, true), 5);
    assert_eq!(visible_context(6, 10, true), 0);
    assert_eq!(visible_context(10, 6, false), 0);
}

#[test]
fn fitting_rows_become_visible() {
    // From above, from below, and not at all if they are visible already.
    assert_eq!(align_offset(0, 10, 30, 36, true), 28);
    assert_eq!(align_offset(0, 10, 30, 36, false), 26);
    assert_eq!(align_offset(50, 10, 30, 36, false), 30);
    assert_eq!(align_offset(27, 10, 30, 36, false), 27);
}

#[test]
fn tall_rows_start_at_the_top() {
    assert_eq!(align_offset(0, 10, 30, 60, true), 30);
    assert_eq!(align_offset(45, 10, 30, 60, false), 30);
}

#[test]
fn second_alignment_changes_nothing() {
    let offset = align_offset(0, 10, 30, 33, true);
    assert_eq!(offset, 26);
    assert_eq!(align_offset(offset, 10, 30, 33, true), offset);
}

#[test]
fn rows_near_the_top_keep_the_start() {
    assert_eq!(align_offset(7, 10, 1, 3, true), 0);
}

#[test]
fn decimal_numbers() {
    assert_eq!(decimal_string(0), "0");
    assert_eq!(decimal_string(9), "9");
    assert_eq!(decimal_string(10), "10");
    assert_eq!(decimal_string(90210), "90210");
    assert_eq!(decimal_string(usize::MAX), usize::MAX.to_string());
}

#[test]
fn text_takes_a_row_per_line() {
    let height = |content: &str| content_to_text(&content.as_bytes().to_vec()).height();
    assert_eq!(height(""), 1);
    assert_eq!(height("a"), 1);
    assert_eq!(height("a\n"), 1);
    assert_eq!(height("a\nb"), 2);
    assert_eq!(height("\n\n"), 2);
    assert_eq!(height("a\r\nb\r\n"), 2);
}

#[test]
fn empty_contents_are_deleted() {
    let text = content_to_text(&vec![]);
    assert_eq!(text, BodyText::Deleted);
    assert_eq!(text.message(), Some("(deleted)".to_string()));
    assert_eq!(content_to_text(&b"x".to_vec()).message(), None);
}

#[test]
fn invalid_utf8_is_replaced() {
    assert_eq!(
        content_to_text(&vec![b'a', 0xff, b'\n', 0xc3]),
        BodyText::Plain("a\u{fffd}\n\u{fffd}".to_string())
    );
}

#[test]
fn context_without_text_takes_no_row() {
    assert_eq!(context_hunk(&vec![]), ScrollableItem::Empty);
    assert_eq!(context_hunk(&vec![]).height(), Some(0));
    let item = context_hunk(&b"a\nb\n".to_vec());
    assert_eq!(item, ScrollableItem::Context("a\nb\n".to_string()));
    assert_eq!(item.height(), Some(2));
}

#[test]
fn diff_hunks_become_lines() {
    let hunks = vec![
        vec![
            (DiffLineType::Context, vec![(DiffTokenType::Matching, b"same\n".to_vec())]),
            (
                DiffLineType::Removed,
                vec![
                    (DiffTokenType::Different, b"old".to_vec()),
                    (DiffTokenType::Matching, b" word\n".to_vec()),
                ],
            ),
        ],
        vec![(DiffLineType::Added, vec![(DiffTokenType::Different, vec![0xff])])],
    ];
    let expected = vec![
        DiffTextLine { sigil: ' ', color: TextColor::Reset, spans: vec![span("same\n", false)] },
        DiffTextLine {
            sigil: '-',
            color: TextColor::Red,
            spans: vec![span("old", true), span(" word\n", false)],
        },
        DiffTextLine { sigil: '+', color: TextColor::Green, spans: vec![span("\u{fffd}", true)] },
    ];
    let text = diff_hunks_to_text(&hunks);
    assert_eq!(text, BodyText::Diff(expected));
    assert_eq!(text.height(), 3);
}

#[test]
fn diff_hunks_of_context_are_no_changes() {
    let line = (DiffLineType::Context, vec![(DiffTokenType::Matching, b"same\n".to_vec())]);
    assert_eq!(diff_hunks_to_text(&vec![vec![line]]), BodyText::NoChanges);
    assert_eq!(diff_hunks_to_text(&vec![]), BodyText::NoChanges);
}

#[test]
fn diff_of_equal_contents_has_no_changes() {
    let text = diff_to_text(&b"a\n".to_vec(), &b"a\n".to_vec());
    assert_eq!(text, BodyText::NoChanges);
    assert_eq!(text.message(), Some("(no changes)".to_string()));
    assert_eq!(text.height(), 1);
}

#[test]
fn diff_shows_all_lines() {
    let text = diff_to_text(&b"a\nb\nc\n".to_vec(), &b"a\nx\nc\n".to_vec());
    let lines = match text {
        BodyText::Diff(lines) => lines,
        other => panic!("unexpected {other:?}"),
    };
    let shown: Vec<(char, String)> = lines
        .iter()
        .map(|line| (line.sigil, line.spans.iter().map(|span| span.text.as_str()).collect()))
        .collect();
    assert_eq!(
        shown,
        vec![
            (' ', "a\n".to_string()),
            ('-', "b\n".to_string()),
            ('+', "x\n".to_string()),
            (' ', "c\n".to_string()),
        ]
    );
    assert_eq!(lines[1].color, TextColor::Red);
    assert_eq!(lines[2].color, TextColor::Green);
}

#[test]
fn heights_count_borders_and_labels() {
    let body = || BodyText::Plain("a\nb\n".to_string());
    let resolved = ScrollableItem::ResolvedHunk { body: body(), focused: false };
    assert_eq!(resolved.height(), Some(4));
    let open = ScrollableItem::OpenHunk {
        title: String::new(),
        choices: vec![],
        selection: conflict_select::HunkSelection::Added(0),
        label_lines: vec!["one".to_string()],
        body: body(),
    };
    assert_eq!(open.height(), Some(7));
    let folded = ScrollableItem::FoldedHunk { title: String::new() };
    assert_eq!(folded.height(), Some(3));
}

#[test]
fn hunks_are_put_together() {
    let bytes = |text: &str| text.as_bytes().to_vec();
    let hunks = vec![
        Merge::resolved(bytes("a\n")),
        Merge::from_vec(vec![bytes("x\n"), bytes("b\n"), bytes("y\n")]),
        Merge::resolved(bytes("c\n")),
    ];
    assert_eq!(
        from_hunks(&hunks).into_vec(),
        vec![bytes("a\nx\nc\n"), bytes("a\nb\nc\n"), bytes("a\ny\nc\n")]
    );
    let resolved = vec![Merge::resolved(bytes("a\n")), Merge::resolved(bytes("b\n"))];
    assert_eq!(from_hunks(&resolved).into_vec(), vec![bytes("a\nb\n")]);
    assert_eq!(from_hunks(&vec![]).into_vec(), vec![bytes("")]);
}
