//! What the hunk viewer puts on the screen, as plain values with a height in
//! rows.

use crate::merge::models;
use crate::selection::HunkSelection;
use crate::text::{line_count, raw_text_height, shown_text, text_height, to_str_lossy, NEWLINE};
use bstr::BStr;
use jj_lib::diff_presentation::unified;
use jj_lib::diff_presentation::unified::DiffLineType as SourceLineType;
use jj_lib::diff_presentation::DiffTokenType as SourceTokenType;
use jj_lib::diff_presentation::LineCompareMode;
use jj_lib::merge::Diff as SourceDiff;
use vstd::prelude::*;

verus! {

/// Where a line of a diff comes from.
#[derive(Copy, Clone, Debug, PartialEq, Eq, Structural)]
pub enum DiffLineType {
    /// Both sides have the line.
    Context,
    /// Only the old side has the line.
    Removed,
    /// Only the new side has the line.
    Added,
}

/// Whether both sides have a token of a line.
#[derive(Copy, Clone, Debug, PartialEq, Eq, Structural)]
pub enum DiffTokenType {
    /// Both sides have the token.
    Matching,
    /// Only one side has the token.
    Different,
}

/// A part of a line of a diff: whether both sides have it, and its text.
pub type DiffToken = (DiffTokenType, Vec<u8>);

/// A line of a diff: where it comes from, and its parts.
pub type DiffLine = (DiffLineType, Vec<DiffToken>);

/// The parts of a line, each with its type and its text.
pub open spec fn token_models(tokens: Seq<DiffToken>) -> Seq<(DiffTokenType, Seq<u8>)> {
    Seq::new(tokens.len(), |i: int| (tokens[i].0, tokens[i].1@))
}

/// The lines of a hunk, each with its type and its parts.
pub open spec fn line_models(lines: Seq<DiffLine>) -> Seq<
    (DiffLineType, Seq<(DiffTokenType, Seq<u8>)>),
> {
    Seq::new(lines.len(), |i: int| (lines[i].0, token_models(lines[i].1@)))
}

/// The hunks of a diff, each with its lines.
pub open spec fn hunk_models(hunks: Seq<Vec<DiffLine>>) -> Seq<
    Seq<(DiffLineType, Seq<(DiffTokenType, Seq<u8>)>)>,
> {
    Seq::new(hunks.len(), |i: int| line_models(hunks[i]@))
}

/// The hunks of the diff from `removed` to `added` with so many lines of
/// context, lines compared literally, as
/// `jj_lib::diff_presentation::unified::unified_diff_hunks` finds them.
pub uninterp spec fn unified_diff(removed: Seq<u8>, added: Seq<u8>, context: usize) -> Seq<
    Seq<(DiffLineType, Seq<(DiffTokenType, Seq<u8>)>)>,
>;

/// Calls `jj_lib::diff_presentation::unified::unified_diff_hunks` and compares
/// lines literally.
///
/// Trusted: the hunks are `unified_diff` of the arguments.
#[verifier::external_body]
fn unified_diff_hunks(removed: &Vec<u8>, added: &Vec<u8>, context: usize) -> (hunks: Vec<
    Vec<DiffLine>,
>)
    ensures
        hunk_models(hunks@) == unified_diff(removed@, added@, context),
{
    let token = |(kind, bytes): (SourceTokenType, &[u8])| match kind {
        SourceTokenType::Matching => (DiffTokenType::Matching, bytes.to_vec()),
        SourceTokenType::Different => (DiffTokenType::Different, bytes.to_vec()),
    };
    let line = |(kind, tokens): (SourceLineType, Vec<_>)| {
        let kind = match kind {
            SourceLineType::Context => DiffLineType::Context,
            SourceLineType::Removed => DiffLineType::Removed,
            SourceLineType::Added => DiffLineType::Added,
        };
        (kind, tokens.into_iter().map(token).collect())
    };
    let diff = SourceDiff::new(BStr::new(removed), BStr::new(added));
    let hunks = unified::unified_diff_hunks(diff, context, LineCompareMode::Exact).into_iter();
    hunks.map(|hunk| hunk.lines.into_iter().map(line).collect()).collect()
}

/// A color of the screen.
#[derive(Copy, Clone, Debug, PartialEq, Eq, Structural)]
pub enum TextColor {
    /// Green.
    Green,
    /// Yellow.
    Yellow,
    /// Red.
    Red,
    /// The color of the terminal.
    Reset,
}

/// A piece of a line.
#[derive(Debug, PartialEq, Eq)]
pub struct TextSpan {
    /// The text of the piece.
    pub text: String,
    /// Whether the piece is underlined.
    pub underlined: bool,
}

/// A line of a diff as it is shown: a sign, then the pieces of the line.
#[derive(Debug, PartialEq, Eq)]
pub struct DiffTextLine {
    /// The sign in the first column.
    pub sigil: char,
    /// The color of the line.
    pub color: TextColor,
    /// The pieces of the line.
    pub spans: Vec<TextSpan>,
}

/// What a [`TextSpan`] stands for.
pub struct TextSpanView {
    pub text: Seq<char>,
    pub underlined: bool,
}

/// What a [`DiffTextLine`] stands for.
pub struct DiffTextLineView {
    pub sigil: char,
    pub color: TextColor,
    pub spans: Seq<TextSpanView>,
}

impl View for TextSpan {
    type V = TextSpanView;

    open spec fn view(&self) -> TextSpanView {
        TextSpanView { text: self.text@, underlined: self.underlined }
    }
}

impl View for DiffTextLine {
    type V = DiffTextLineView;

    open spec fn view(&self) -> DiffTextLineView {
        DiffTextLineView {
            sigil: self.sigil,
            color: self.color,
            spans: Seq::new(self.spans@.len(), |i: int| self.spans@[i]@),
        }
    }
}

/// The contents of a hunk as they are shown.
#[derive(Debug, PartialEq, Eq)]
pub enum BodyText {
    /// There are no contents.
    Deleted,
    /// The contents as text.
    Plain(String),
    /// A diff without changes.
    NoChanges,
    /// The lines of a diff.
    Diff(Vec<DiffTextLine>),
}

/// What a [`BodyText`] stands for.
pub enum BodyTextView {
    Deleted,
    Plain(Seq<char>),
    NoChanges,
    Diff(Seq<DiffTextLineView>),
}

impl View for BodyText {
    type V = BodyTextView;

    open spec fn view(&self) -> BodyTextView {
        match self {
            BodyText::Deleted => BodyTextView::Deleted,
            BodyText::Plain(text) => BodyTextView::Plain(text@),
            BodyText::NoChanges => BodyTextView::NoChanges,
            BodyText::Diff(lines) => BodyTextView::Diff(
                Seq::new(lines@.len(), |i: int| lines@[i]@),
            ),
        }
    }
}

impl BodyTextView {
    /// The number of rows.
    pub open spec fn height(self) -> nat {
        match self {
            BodyTextView::Deleted => 1,
            BodyTextView::Plain(text) => text_height(text, '\n'),
            BodyTextView::NoChanges => 1,
            BodyTextView::Diff(lines) => lines.len(),
        }
    }

    /// What is shown in place of contents, if there are none to show.
    pub open spec fn message(self) -> Option<Seq<char>> {
        match self {
            BodyTextView::Deleted => Some("(deleted)"@),
            BodyTextView::NoChanges => Some("(no changes)"@),
            _ => None,
        }
    }
}

impl BodyText {
    /// The number of rows.
    pub fn height(&self) -> (height: usize)
        ensures
            height == self@.height(),
    {
        match self {
            BodyText::Deleted => 1,
            BodyText::Plain(text) => raw_text_height(text.as_str()),
            BodyText::NoChanges => 1,
            BodyText::Diff(lines) => lines.len(),
        }
    }

    /// What is shown in place of contents, if there are none to show.
    pub fn message(&self) -> (message: Option<String>)
        ensures
            match message {
                Some(message) => self@.message() == Some(message@),
                None => self@.message() is None,
            },
    {
        match self {
            BodyText::Deleted => Some("(deleted)".to_owned()),
            BodyText::NoChanges => Some("(no changes)".to_owned()),
            _ => None,
        }
    }
}

/// The contents of a hunk as text, if there are any.
pub open spec fn content_text(content: Seq<u8>) -> BodyTextView {
    if content.len() == 0 {
        BodyTextView::Deleted
    } else {
        BodyTextView::Plain(shown_text(content))
    }
}

/// The contents of a hunk as text, if there are any.
pub fn content_to_text(content: &Vec<u8>) -> (text: BodyText)
    ensures
        text@ == content_text(content@),
        text@.height() == text_height(content@, NEWLINE),
{
    if content.is_empty() {
        BodyText::Deleted
    } else {
        BodyText::Plain(to_str_lossy(content))
    }
}

/// The sign of a line of a diff.
pub open spec fn line_sigil(line_type: DiffLineType) -> char {
    match line_type {
        DiffLineType::Added => '+',
        DiffLineType::Removed => '-',
        DiffLineType::Context => ' ',
    }
}

/// The color of a line of a diff.
pub open spec fn line_color(line_type: DiffLineType) -> TextColor {
    match line_type {
        DiffLineType::Added => TextColor::Green,
        DiffLineType::Removed => TextColor::Red,
        DiffLineType::Context => TextColor::Reset,
    }
}

/// A line of a diff as it is shown: what differs is underlined.
pub open spec fn line_text(
    line: (DiffLineType, Seq<(DiffTokenType, Seq<u8>)>),
) -> DiffTextLineView {
    DiffTextLineView {
        sigil: line_sigil(line.0),
        color: line_color(line.0),
        spans: Seq::new(
            line.1.len(),
            |i: int|
                TextSpanView {
                    text: shown_text(line.1[i].1),
                    underlined: line.1[i].0 is Different,
                },
        ),
    }
}

/// The lines of a diff as they are shown.
pub open spec fn lines_text(
    lines: Seq<(DiffLineType, Seq<(DiffTokenType, Seq<u8>)>)>,
) -> Seq<DiffTextLineView> {
    Seq::new(lines.len(), |i: int| line_text(lines[i]))
}

/// Whether no line of the diff is a change.
pub open spec fn only_context(
    hunks: Seq<Seq<(DiffLineType, Seq<(DiffTokenType, Seq<u8>)>)>>,
) -> bool {
    forall|i: int, j: int|
        0 <= i < hunks.len() && 0 <= j < hunks[i].len() ==> (#[trigger] hunks[i][j]).0 is Context
}

/// A diff as it is shown: the lines of all its hunks, if there is a change.
pub open spec fn diff_text(
    hunks: Seq<Seq<(DiffLineType, Seq<(DiffTokenType, Seq<u8>)>)>>,
) -> BodyTextView {
    if only_context(hunks) {
        BodyTextView::NoChanges
    } else {
        BodyTextView::Diff(lines_text(hunks.flatten()))
    }
}

fn is_only_context(hunks: &Vec<Vec<DiffLine>>) -> (result: bool)
    ensures
        result == only_context(hunk_models(hunks@)),
{
    for i in 0..hunks.len()
        invariant
            forall|k: int, j: int|
                0 <= k < i && 0 <= j < hunks@[k]@.len() ==> (#[trigger] hunks@[k]@[j]).0 is Context,
    {
        let lines = &hunks[i];
        for j in 0..lines.len()
            invariant
                0 <= i < hunks@.len(),
                lines@ == hunks@[i as int]@,
                forall|k: int| 0 <= k < j ==> (#[trigger] lines@[k]).0 is Context,
        {
            if lines[j].0 != DiffLineType::Context {
                assert(!(hunk_models(hunks@)[i as int][j as int].0 is Context));
                return false;
            }
        }
    }
    true
}

fn line_to_text(line: &DiffLine) -> (text: DiffTextLine)
    ensures
        text@ == line_text((line.0, token_models(line.1@))),
{
    let mut spans: Vec<TextSpan> = Vec::new();
    let tokens = &line.1;
    for i in 0..tokens.len()
        invariant
            tokens@ == line.1@,
            spans@.len() == i,
            forall|k: int|
                0 <= k < i ==> (#[trigger] spans@[k])@ == (TextSpanView {
                    text: shown_text(tokens@[k].1@),
                    underlined: tokens@[k].0 is Different,
                }),
    {
        spans.push(
            TextSpan {
                text: to_str_lossy(&tokens[i].1),
                underlined: tokens[i].0 == DiffTokenType::Different,
            },
        );
    }
    let (sigil, color) = match line.0 {
        DiffLineType::Added => ('+', TextColor::Green),
        DiffLineType::Removed => ('-', TextColor::Red),
        DiffLineType::Context => (' ', TextColor::Reset),
    };
    let text = DiffTextLine { sigil, color, spans };
    assert(text@.spans =~= line_text((line.0, token_models(line.1@))).spans);
    text
}

/// A diff as it is shown.
pub fn diff_hunks_to_text(hunks: &Vec<Vec<DiffLine>>) -> (text: BodyText)
    ensures
        text@ == diff_text(hunk_models(hunks@)),
{
    if is_only_context(hunks) {
        return BodyText::NoChanges;
    }
    let ghost all = hunk_models(hunks@);
    let mut lines: Vec<DiffTextLine> = Vec::new();
    for i in 0..hunks.len()
        invariant
            all == hunk_models(hunks@),
            Seq::new(lines@.len(), |k: int| lines@[k]@) == lines_text(all.take(i as int).flatten()),
    {
        let hunk = &hunks[i];
        let ghost before = all.take(i as int).flatten();
        for j in 0..hunk.len()
            invariant
                hunk@ == hunks@[i as int]@,
                0 <= i < hunks@.len(),
                all == hunk_models(hunks@),
                Seq::new(lines@.len(), |k: int| lines@[k]@) == lines_text(
                    before + all[i as int].take(j as int),
                ),
        {
            let ghost shown = Seq::new(lines@.len(), |k: int| lines@[k]@);
            lines.push(line_to_text(&hunk[j]));
            proof {
                assert(Seq::new(lines@.len(), |k: int| lines@[k]@) =~= shown.push(
                    line_text(all[i as int][j as int]),
                ));
                assert(lines_text(before + all[i as int].take(j + 1)) =~= lines_text(
                    before + all[i as int].take(j as int),
                ).push(line_text(all[i as int][j as int])));
            }
        }
        proof {
            assert(all[i as int].take(hunk@.len() as int) =~= all[i as int]);
            assert(all.take(i + 1) =~= all.take(i as int).push(all[i as int]));
            all.take(i as int).lemma_flatten_push(all[i as int]);
        }
    }
    assert(all.take(all.len() as int) =~= all);
    BodyText::Diff(lines)
}

/// The contents to compare as a diff from `removed` to `added`, all lines
/// shown.
pub fn diff_to_text(removed: &Vec<u8>, added: &Vec<u8>) -> (text: BodyText)
    ensures
        text@ == diff_text(unified_diff(removed@, added@, usize::MAX)),
{
    diff_hunks_to_text(&unified_diff_hunks(removed, added, usize::MAX))
}

/// An item of the scrolled contents.
#[derive(Debug, PartialEq, Eq)]
pub enum ScrollableItem {
    /// Nothing.
    Empty,
    /// Text between the conflicts.
    Context(String),
    /// A conflict that is resolved.
    ResolvedHunk {
        /// The contents that replace the conflict.
        body: BodyText,
        /// Whether the conflict is the current one.
        focused: bool,
    },
    /// The current conflict while it is not resolved.
    OpenHunk {
        /// The number of the conflict.
        title: String,
        /// The selections on the row of the current selection.
        choices: Vec<HunkSelection>,
        /// The current selection.
        selection: HunkSelection,
        /// What the shown contents are.
        label_lines: Vec<String>,
        /// The contents that the selection picks, or a diff from their base.
        body: BodyText,
    },
    /// Any other conflict that is not resolved.
    FoldedHunk {
        /// The number of the conflict.
        title: String,
    },
}

/// What a [`ScrollableItem`] stands for.
pub enum ScrollableItemView {
    Empty,
    Context(Seq<char>),
    ResolvedHunk { body: BodyTextView, focused: bool },
    OpenHunk {
        title: Seq<char>,
        choices: Seq<HunkSelection>,
        selection: HunkSelection,
        label_lines: Seq<Seq<char>>,
        body: BodyTextView,
    },
    FoldedHunk { title: Seq<char> },
}

impl View for ScrollableItem {
    type V = ScrollableItemView;

    open spec fn view(&self) -> ScrollableItemView {
        match self {
            ScrollableItem::Empty => ScrollableItemView::Empty,
            ScrollableItem::Context(text) => ScrollableItemView::Context(text@),
            ScrollableItem::ResolvedHunk { body, focused } => ScrollableItemView::ResolvedHunk {
                body: body@,
                focused: *focused,
            },
            ScrollableItem::OpenHunk { title, choices, selection, label_lines, body } =>
            ScrollableItemView::OpenHunk {
                title: title@,
                choices: choices@,
                selection: *selection,
                label_lines: models(label_lines@),
                body: body@,
            },
            ScrollableItem::FoldedHunk { title } => ScrollableItemView::FoldedHunk {
                title: title@,
            },
        }
    }
}

impl ScrollableItemView {
    /// The number of rows: those of the text, and those of titles, labels and
    /// borders.
    pub open spec fn height(self) -> nat {
        match self {
            ScrollableItemView::Empty => 0,
            ScrollableItemView::Context(text) => text_height(text, '\n'),
            ScrollableItemView::ResolvedHunk { body, .. } => body.height() + 2,
            ScrollableItemView::OpenHunk { label_lines, body, .. } => body.height()
                + label_lines.len() + 4,
            ScrollableItemView::FoldedHunk { .. } => 3,
        }
    }
}

impl ScrollableItem {
    /// The number of rows, unless it is too large for a `usize`.
    pub fn height(&self) -> (height: Option<usize>)
        ensures
            match height {
                Some(height) => height == self@.height(),
                None => self@.height() > usize::MAX,
            },
    {
        match self {
            ScrollableItem::Empty => Some(0),
            ScrollableItem::Context(text) => Some(raw_text_height(text.as_str())),
            ScrollableItem::ResolvedHunk { body, .. } => body.height().checked_add(2),
            ScrollableItem::OpenHunk { label_lines, body, .. } => match body.height().checked_add(
                label_lines.len(),
            ) {
                Some(height) => height.checked_add(4),
                None => None,
            },
            ScrollableItem::FoldedHunk { .. } => Some(3),
        }
    }
}

/// Text between the conflicts, if there is any.
pub open spec fn context_item(context: Seq<u8>) -> ScrollableItemView {
    if context.len() == 0 {
        ScrollableItemView::Empty
    } else {
        ScrollableItemView::Context(shown_text(context))
    }
}

/// The rows of text between the conflicts.
pub open spec fn context_height(context: Seq<u8>) -> nat {
    line_count(context, NEWLINE)
}

/// Text between the conflicts, if there is any.
pub fn context_hunk(context: &Vec<u8>) -> (item: ScrollableItem)
    ensures
        item@ == context_item(context@),
        item@.height() == context_height(context@),
{
    if context.is_empty() {
        ScrollableItem::Empty
    } else {
        ScrollableItem::Context(to_str_lossy(context))
    }
}

} // verus!
