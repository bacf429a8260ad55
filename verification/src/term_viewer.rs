//! A viewer for the terms of a conflict as a whole, one of which is to be kept.

use crate::conflict::{Conflict, KeyCode, KeyEvent, TreeValue, TreeValueView};
use crate::labels::{
    law_simplified_labels, simplified_labels, simplify_with, term_label, ConflictLabels,
};
use crate::merge::{num_sides, Merge, Term};
use crate::screen::TextColor;
use crate::scroll::{scroll_offset_by, scrolled, ScrollDirection};
use crate::simplification::{
    law_simplification_compares_only, law_simplified_places, simplified, simplified_places,
};
use crate::text::{decimal, decimal_string, shown_text, to_str_lossy};
use vstd::prelude::*;

verus! {

/// Which term of a conflict is selected.
#[derive(Copy, Clone, Debug, PartialEq, Eq, Structural)]
pub struct TermConflictResolution {
    /// The number of the side or base.
    pub add_or_remove_index: usize,
    /// Whether it is a base.
    pub show_bases: bool,
}

impl Default for TermConflictResolution {
    /// The first side.
    fn default() -> (resolution: Self)
        ensures
            resolution == (TermConflictResolution { add_or_remove_index: 0, show_bases: false }),
    {
        TermConflictResolution { add_or_remove_index: 0, show_bases: false }
    }
}

impl TermConflictResolution {
    /// The last side of so many sides, or the last base between them.
    pub open spec fn last_index(self, sides: nat) -> int {
        if self.show_bases {
            sides - 2
        } else {
            sides - 1
        }
    }

    /// Whether a conflict of so many sides has the term.
    pub open spec fn valid_for(self, sides: nat) -> bool {
        self.add_or_remove_index <= self.last_index(sides)
    }

    /// Whether there is a term to the right to go to, or to stay at.
    pub open spec fn can_go_on(self, sides: nat) -> bool {
        self.add_or_remove_index < usize::MAX && self.last_index(sides) >= 0
    }

    /// Whether there can be a side or base to change to.
    pub open spec fn can_toggle(self) -> bool {
        self.show_bases ==> self.add_or_remove_index < usize::MAX
    }

    /// The term to the right, or the last one.
    pub open spec fn following(self, sides: nat) -> TermConflictResolution {
        let last = self.last_index(sides);
        TermConflictResolution {
            add_or_remove_index: if self.add_or_remove_index + 1 < last {
                (self.add_or_remove_index + 1) as usize
            } else {
                last as usize
            },
            ..self
        }
    }

    /// The term to the left, or the first one.
    pub open spec fn previous(self) -> TermConflictResolution {
        TermConflictResolution {
            add_or_remove_index: if self.add_or_remove_index > 0 {
                (self.add_or_remove_index - 1) as usize
            } else {
                0
            },
            ..self
        }
    }

    /// The base before a side, or the side after a base. The first side has no
    /// base before it and goes to the first base.
    pub open spec fn toggled(self) -> TermConflictResolution {
        TermConflictResolution {
            add_or_remove_index: if self.show_bases {
                (self.add_or_remove_index + 1) as usize
            } else {
                self.previous().add_or_remove_index
            },
            show_bases: !self.show_bases,
        }
    }

    /// The index of the term among all terms.
    pub open spec fn term_index(self) -> int {
        if self.show_bases {
            2 * self.add_or_remove_index + 1
        } else {
            2 * self.add_or_remove_index
        }
    }

    /// Goes to the term to the right, but not beyond the last one.
    pub fn next(&mut self, num_sides: usize)
        requires
            old(self).can_go_on(num_sides as nat),
        ensures
            *final(self) == old(self).following(num_sides as nat),
    {
        let last: usize = if self.show_bases {
            num_sides - 2
        } else {
            num_sides - 1
        };
        self.add_or_remove_index = if self.add_or_remove_index + 1 < last {
            self.add_or_remove_index + 1
        } else {
            last
        };
    }

    /// Goes to the term to the left, but not beyond the first one.
    pub fn prev(&mut self)
        ensures
            *final(self) == old(self).previous(),
    {
        self.add_or_remove_index = self.add_or_remove_index.saturating_sub(1);
    }

    /// Changes between sides and bases.
    pub fn toggle_base(&mut self)
        requires
            old(self).can_toggle(),
        ensures
            *final(self) == old(self).toggled(),
    {
        if self.show_bases {
            self.add_or_remove_index = self.add_or_remove_index + 1;
        } else {
            self.add_or_remove_index = self.add_or_remove_index.saturating_sub(1);
        }
        self.show_bases = !self.show_bases;
    }
}

/// Whether `x` stands at `index` in `s` and nowhere before.
spec fn is_first<A>(s: Seq<A>, x: A, index: int) -> bool {
    &&& 0 <= index < s.len()
    &&& s[index] == x
    &&& forall|j: int| 0 <= j < index ==> #[trigger] s[j] != x
}

/// A number for each term, equal for equal terms: the index at which the term
/// first stands.
fn number_terms(terms: &Merge<Option<TreeValue>>) -> (numbers: Vec<usize>)
    ensures
        numbers@.len() == terms@.len(),
        forall|i: int|
            0 <= i < numbers@.len() ==> is_first(
                terms@,
                terms@[i],
                #[trigger] numbers@[i] as int,
            ),
{
    let len = terms.len();
    let mut numbers: Vec<usize> = Vec::new();
    for i in 0..len
        invariant
            len == terms@.len(),
            numbers@.len() == i,
            forall|j: int|
                0 <= j < i ==> is_first(terms@, terms@[j], #[trigger] numbers@[j] as int),
    {
        let term = terms.get(i).unwrap();
        let mut first: usize = 0;
        while !terms.get(first).unwrap().same(term)
            invariant
                len == terms@.len(),
                first <= i < len,
                term.model() == terms@[i as int],
                forall|j: int| 0 <= j < first ==> #[trigger] terms@[j] != terms@[i as int],
            ensures
                is_first(terms@, terms@[i as int], first as int),
            decreases i - first,
        {
            first = first + 1;
        }
        numbers.push(first);
    }
    numbers
}

/// The terms at the given places of a conflict.
pub fn terms_at(conflict: &Merge<Option<TreeValue>>, places: &Vec<usize>) -> (terms: Merge<
    Option<TreeValue>,
>)
    requires
        places@.len() % 2 == 1,
        forall|k: int| 0 <= k < places@.len() ==> #[trigger] places@[k] < conflict@.len(),
    ensures
        terms@ == Seq::new(places@.len(), |k: int| conflict@[places@[k] as int]),
        terms.wf(),
{
    let len = places.len();
    let mut terms: Vec<Option<TreeValue>> = Vec::new();
    for k in 0..len
        invariant
            len == places@.len(),
            forall|k: int| 0 <= k < places@.len() ==> #[trigger] places@[k] < conflict@.len(),
            terms@.len() == k,
            forall|j: int|
                0 <= j < k ==> (#[trigger] terms@[j]).model() == conflict@[places@[j] as int],
    {
        terms.push(conflict.get(places[k]).unwrap().copy());
    }
    let terms = Merge::from_vec(terms);
    assert(terms@ =~= Seq::new(places@.len(), |k: int| conflict@[places@[k] as int]));
    terms
}

/// Cancels pairs of equal sides and bases of a conflict, and keeps the labels
/// of what is left.
pub fn simplify_conflict(labels: &ConflictLabels, conflict: &Conflict) -> (left: (
    ConflictLabels,
    Merge<Option<TreeValue>>,
))
    requires
        labels.wf(),
        conflict.unsimplified_conflict.wf(),
        labels@.len() == 1 || labels@.len() == conflict.unsimplified_conflict@.len(),
    ensures
        left.0@ == simplified_labels(labels@, conflict.unsimplified_conflict@),
        left.1@ == simplified(conflict.unsimplified_conflict@),
        left.0.wf(),
        left.1.wf(),
        left.0@.len() == 1 || left.0@.len() == left.1@.len(),
{
    let unsimplified = &conflict.unsimplified_conflict;
    let numbers = number_terms(unsimplified);
    let ghost all_numbers = numbers@;
    let (labels_left, numbers_left) = simplify_with(labels, numbers);
    proof {
        assert forall|i: int, j: int|
            #![trigger unsimplified@[i], unsimplified@[j]]
            0 <= i < unsimplified@.len() && 0 <= j < unsimplified@.len() implies (unsimplified@[i]
            == unsimplified@[j] <==> all_numbers[i] == all_numbers[j]) by {
            assert(is_first(unsimplified@, unsimplified@[i], all_numbers[i] as int));
            assert(is_first(unsimplified@, unsimplified@[j], all_numbers[j] as int));
            if all_numbers[i] < all_numbers[j] {
                assert(unsimplified@[all_numbers[i] as int] != unsimplified@[j]);
            } else if all_numbers[j] < all_numbers[i] {
                assert(unsimplified@[all_numbers[j] as int] != unsimplified@[i]);
            }
        }
        law_simplification_compares_only(unsimplified@, all_numbers);
        law_simplified_places(unsimplified@);
        law_simplified_labels(labels@, unsimplified@);
        let places = simplified_places(unsimplified@);
        assert forall|k: int| 0 <= k < numbers_left@.len() implies #[trigger] numbers_left@[k]
            < unsimplified@.len() && unsimplified@[numbers_left@[k] as int] == simplified(
            unsimplified@,
        )[k] by {
            assert(numbers_left@[k] == all_numbers[places[k]]);
            assert(is_first(unsimplified@, unsimplified@[places[k]], numbers_left@[k] as int));
        }
    }
    let terms = terms_at(unsimplified, &numbers_left);
    assert(terms@ =~= simplified(unsimplified@));
    (labels_left, terms)
}

/// The digit of a number below sixteen.
pub open spec fn hex_digit(d: int) -> char {
    "0123456789abcdef"@[d]
}

/// Bytes in hexadecimal notation, two digits for each.
pub open spec fn hex(bytes: Seq<u8>) -> Seq<char> {
    Seq::new(
        2 * bytes.len(),
        |i: int|
            hex_digit(
                if i % 2 == 0 {
                    bytes[i / 2] as int / 16
                } else {
                    bytes[i / 2] as int % 16
                },
            ),
    )
}

/// Calls the `Display` impl of `jj_lib::backend::CommitId`.
///
/// Trusted: a commit id is printed in hexadecimal notation, in lower case and
/// with the high digit of each byte first.
#[verifier::external_body]
fn commit_id_to_string(id: &Vec<u8>) -> (text: String)
    ensures
        text@ == hex(id@),
{
    jj_lib::backend::CommitId::from_bytes(id).to_string()
}

/// What was loaded for a term.
#[derive(Debug)]
pub enum LoadedTerm {
    /// Nothing, for a term that needs nothing.
    Nothing,
    /// The contents of a file.
    File(Vec<u8>),
    /// The target of a symbolic link.
    Symlink(String),
    /// The names in a directory.
    Tree(Vec<String>),
}

/// The names in a directory as they are listed, with an empty line between two.
pub open spec fn listed(names: Seq<String>) -> Seq<char>
    decreases names.len(),
{
    if names.len() == 0 {
        Seq::empty()
    } else {
        listed(names.drop_last()) + (if names.len() > 1 {
            "\n"@
        } else {
            Seq::empty()
        }) + "\u{2022} "@ + names.last()@ + "\n"@
    }
}

fn list_names(names: &Vec<String>) -> (text: String)
    ensures
        text@ == listed(names@),
{
    let mut text = String::new();
    for i in 0..names.len()
        invariant
            text@ == listed(names@.take(i as int)),
    {
        assert(names@.take(i + 1).drop_last() =~= names@.take(i as int));
        if i > 0 {
            text.append("\n");
        }
        text.append("\u{2022} ");
        text.append(names[i].as_str());
        text.append("\n");
        assert(text@ =~= listed(names@.take(i + 1)));
    }
    assert(names@.take(names@.len() as int) =~= names@);
    text
}

impl LoadedTerm {
    /// Whether this is what has to be loaded for a term.
    pub open spec fn fits(self, term: Option<TreeValueView>) -> bool {
        match term {
            None => self is Nothing,
            Some(TreeValueView::File { .. }) => self is File,
            Some(TreeValueView::Symlink(_)) => self is Symlink,
            Some(TreeValueView::Tree(_)) => self is Tree,
            Some(TreeValueView::GitSubmodule(_)) => self is Nothing,
        }
    }

    /// The text for a term: the contents of a file, the target of a link, the
    /// names in a directory or the id of a commit.
    pub open spec fn text(self, term: Option<TreeValueView>) -> Seq<char> {
        match (term, self) {
            (Some(TreeValueView::File { .. }), LoadedTerm::File(contents)) => shown_text(contents@),
            (Some(TreeValueView::Symlink(_)), LoadedTerm::Symlink(target)) => target@,
            (Some(TreeValueView::Tree(_)), LoadedTerm::Tree(names)) => listed(names@),
            (Some(TreeValueView::GitSubmodule(id)), _) => hex(id),
            _ => Seq::empty(),
        }
    }

    /// The text for a term.
    pub fn term_text(&self, term: &Option<TreeValue>) -> (text: String)
        requires
            self.fits(term.model()),
        ensures
            text@ == self.text(term.model()),
            self matches LoadedTerm::File(contents) ==> (text@.len() == 0 <==> contents@.len()
                == 0),
    {
        match (term, self) {
            (Some(TreeValue::File { .. }), LoadedTerm::File(contents)) => to_str_lossy(contents),
            (Some(TreeValue::Symlink(_)), LoadedTerm::Symlink(target)) => target.clone(),
            (Some(TreeValue::Tree(_)), LoadedTerm::Tree(names)) => list_names(names),
            (Some(TreeValue::GitSubmodule(id)), _) => commit_id_to_string(id),
            _ => String::new(),
        }
    }
}

/// A piece of text and its color, if it has one of its own.
pub type ColoredText = (String, Option<TextColor>);

/// What pieces of text stand for.
pub open spec fn colored_texts(pieces: Seq<ColoredText>) -> Seq<(Seq<char>, Option<TextColor>)> {
    Seq::new(pieces.len(), |i: int| (pieces[i].0@, pieces[i].1))
}

/// What is said of the kind of a term, and in which color; nothing of a plain
/// file.
pub open spec fn file_type(term: Option<TreeValueView>) -> Option<(Seq<char>, TextColor)> {
    match term {
        None => Some(("[deleted]"@, TextColor::Red)),
        Some(TreeValueView::File { executable, .. }) => if executable {
            Some(("[executable]"@, TextColor::Yellow))
        } else {
            None
        },
        Some(TreeValueView::Symlink(_)) => Some(("[symlink]"@, TextColor::Yellow)),
        Some(TreeValueView::Tree(_)) => Some(("[directory]"@, TextColor::Yellow)),
        Some(TreeValueView::GitSubmodule(_)) => Some(("[git submodule]"@, TextColor::Yellow)),
    }
}

/// The label of a term, and its kind unless it is a plain file.
pub open spec fn typed_label(label: Seq<char>, term: Option<TreeValueView>) -> Seq<
    (Seq<char>, Option<TextColor>),
> {
    match file_type(term) {
        Some((name, color)) => seq![(label, None), (" "@, None), (name, Some(color))],
        None => seq![(label, None)],
    }
}

/// The label of a term, and its kind unless it is a plain file.
pub fn label_with_file_type(label: String, term: &Option<TreeValue>) -> (line: Vec<ColoredText>)
    ensures
        colored_texts(line@) == typed_label(label@, term.model()),
{
    let ghost text = label@;
    let mut line: Vec<ColoredText> = Vec::new();
    line.push((label, None));
    let (name, color) = match term {
        None => ("[deleted]", TextColor::Red),
        Some(TreeValue::File { executable, .. }) => if *executable {
            ("[executable]", TextColor::Yellow)
        } else {
            assert(colored_texts(line@) =~= typed_label(text, term.model()));
            return line;
        },
        Some(TreeValue::Symlink(_)) => ("[symlink]", TextColor::Yellow),
        Some(TreeValue::Tree(_)) => ("[directory]", TextColor::Yellow),
        Some(TreeValue::GitSubmodule(_)) => ("[git submodule]", TextColor::Yellow),
    };
    line.push((" ".to_owned(), None));
    line.push((name.to_owned(), Some(color)));
    assert(colored_texts(line@) =~= typed_label(text, term.model()));
    line
}

/// A state of the viewer.
#[verifier::ext_equal]
pub struct TermViewer {
    /// The terms of the conflict.
    pub conflict: Seq<Option<TreeValueView>>,
    /// Labels for the terms.
    pub labels: Seq<Seq<char>>,
    /// The text for each term.
    pub contents: Seq<Seq<char>>,
    /// The term that is selected.
    pub current_resolution: TermConflictResolution,
    /// The first row that is visible.
    pub scroll_offset: int,
}

impl TermViewer {
    /// The state in which a simplified conflict is first shown, given what was
    /// loaded for its terms and the selection made before.
    pub open spec fn opened(
        conflict: Seq<Option<TreeValueView>>,
        labels: Seq<Seq<char>>,
        loaded: Seq<LoadedTerm>,
        resolution: Option<TermConflictResolution>,
    ) -> TermViewer {
        TermViewer {
            conflict,
            labels,
            contents: Seq::new(loaded.len(), |i: int| loaded[i].text(conflict[i])),
            current_resolution: match resolution {
                Some(resolution) => resolution,
                None => TermConflictResolution { add_or_remove_index: 0, show_bases: false },
            },
            scroll_offset: 0,
        }
    }

    /// The number of sides of the conflict.
    pub open spec fn num_sides(self) -> nat {
        num_sides(self.conflict)
    }

    /// What holds of every state: the terms can alternate, and there is a text
    /// for each.
    pub open spec fn inv(self) -> bool {
        &&& self.conflict.len() % 2 == 1
        &&& self.contents.len() == self.conflict.len()
        &&& self.num_sides() <= usize::MAX
        &&& 0 <= self.scroll_offset <= usize::MAX
    }

    /// Whether the conflict has the term that is selected.
    pub open spec fn selection_is_valid(self) -> bool {
        self.current_resolution.valid_for(self.num_sides())
    }

    /// The term that is selected.
    pub open spec fn current_term(self) -> Option<TreeValueView> {
        self.conflict[self.current_resolution.term_index()]
    }

    /// Whether a key goes to the term to the right.
    pub open spec fn is_next_key(code: KeyCode) -> bool {
        code is Right || code == KeyCode::Char('l')
    }

    /// Whether there is somewhere to go with a key that is pressed. All keys
    /// have, if the selected term is one of a conflict.
    pub open spec fn can_press(self, event: KeyEvent) -> bool {
        event.modifiers == 0 ==> {
            &&& Self::is_next_key(event.code) ==> self.current_resolution.can_go_on(
                self.num_sides(),
            )
            &&& event.code == KeyCode::Char('b') ==> self.current_resolution.can_toggle()
        }
    }

    /// The state after scrolling by a number of rows.
    pub open spec fn scrolled_by(self, direction: ScrollDirection, amount: int) -> TermViewer {
        TermViewer { scroll_offset: scrolled(self.scroll_offset, direction, amount), ..self }
    }

    /// The state with another term selected.
    pub open spec fn selecting(self, resolution: TermConflictResolution) -> TermViewer {
        TermViewer { current_resolution: resolution, ..self }
    }

    /// The state after a key is pressed. Keys held together with others do
    /// nothing.
    pub open spec fn pressed(self, event: KeyEvent) -> TermViewer {
        if event.modifiers != 0 {
            self
        } else if event.code is Up || event.code == KeyCode::Char('k') {
            self.scrolled_by(ScrollDirection::Backward, 1)
        } else if event.code is Down || event.code == KeyCode::Char('j') {
            self.scrolled_by(ScrollDirection::Forward, 1)
        } else if event.code is Left || event.code == KeyCode::Char('h') {
            self.selecting(self.current_resolution.previous())
        } else if Self::is_next_key(event.code) {
            self.selecting(self.current_resolution.following(self.num_sides()))
        } else if event.code == KeyCode::Char('b') {
            self.selecting(self.current_resolution.toggled())
        } else {
            self
        }
    }

    /// The name of the choice `index`: the number of a side, or `b` and the
    /// number of a base.
    pub open spec fn choice(self, index: int) -> Seq<char> {
        if self.current_resolution.show_bases {
            "b"@ + decimal((index + 1) as nat)
        } else {
            decimal((index + 1) as nat)
        }
    }

    /// The names of all sides, or of all bases if a base is selected.
    pub open spec fn choices(self) -> Seq<Seq<char>> {
        Seq::new(
            (self.current_resolution.last_index(self.num_sides()) + 1) as nat,
            |i: int| self.choice(i),
        )
    }

    /// The label of the selected term, and its kind unless it is a plain file.
    pub open spec fn label_line(self) -> Seq<(Seq<char>, Option<TextColor>)> {
        typed_label(
            term_label(self.labels, self.current_resolution.term_index()),
            self.current_term(),
        )
    }

    /// The text that is shown for the selected term, and whether it is dimmed,
    /// as all is that does not stand in a file.
    pub open spec fn body(self) -> (Seq<char>, bool) {
        let content = self.contents[self.current_resolution.term_index()];
        match self.current_term() {
            None => ("(deleted)"@, true),
            Some(value) => if content.len() == 0 {
                ("(empty)"@, true)
            } else {
                (content, !(value is File))
            },
        }
    }
}

/// What the viewer shows.
#[derive(Debug, PartialEq, Eq)]
pub struct RenderedTerm {
    /// The name of the file.
    pub file_name: String,
    /// The names of the terms that can be selected.
    pub choices: Vec<String>,
    /// Which of them is selected.
    pub selected: usize,
    /// The label of the selected term and its kind.
    pub label: Vec<ColoredText>,
    /// The text for the selected term.
    pub body: String,
    /// Whether the text is dimmed.
    pub dim: bool,
}

impl RenderedTerm {
    /// What the names stand for.
    pub open spec fn choice_views(self) -> Seq<Seq<char>> {
        Seq::new(self.choices@.len(), |i: int| self.choices@[i]@)
    }
}

/// The state of a viewer for the terms of a conflict.
#[derive(Debug)]
pub struct TermConflictViewerState {
    simplified_conflict: Merge<Option<TreeValue>>,
    simplified_labels: ConflictLabels,
    contents: Merge<String>,
    current_resolution: TermConflictResolution,
    scroll_offset: usize,
}

impl View for TermConflictViewerState {
    type V = TermViewer;

    closed spec fn view(&self) -> TermViewer {
        TermViewer {
            conflict: self.simplified_conflict@,
            labels: self.simplified_labels@,
            contents: self.contents@,
            current_resolution: self.current_resolution,
            scroll_offset: self.scroll_offset as int,
        }
    }
}

impl TermConflictViewerState {
    /// A viewer for a simplified conflict, given what was loaded for each of
    /// its terms and the selection made before.
    pub fn new(
        simplified_labels: ConflictLabels,
        simplified_conflict: Merge<Option<TreeValue>>,
        loaded: Vec<LoadedTerm>,
        resolution: Option<&TermConflictResolution>,
    ) -> (state: Self)
        requires
            simplified_conflict.wf(),
            loaded@.len() == simplified_conflict@.len(),
            forall|i: int|
                0 <= i < loaded@.len() ==> (#[trigger] loaded@[i]).fits(simplified_conflict@[i]),
        ensures
            state@ == (TermViewer {
                conflict: simplified_conflict@,
                labels: simplified_labels@,
                contents: Seq::new(
                    loaded@.len(),
                    |i: int| loaded@[i].text(simplified_conflict@[i]),
                ),
                current_resolution: match resolution {
                    Some(resolution) => *resolution,
                    None => TermConflictResolution { add_or_remove_index: 0, show_bases: false },
                },
                scroll_offset: 0,
            }),
            state@ == TermViewer::opened(
                simplified_conflict@,
                simplified_labels@,
                loaded@,
                match resolution {
                    Some(resolution) => Some(*resolution),
                    None => None,
                },
            ),
            state@.inv(),
            forall|i: int|
                0 <= i < loaded@.len() ==> match #[trigger] loaded@[i] {
                    LoadedTerm::File(contents) => state@.contents[i].len() == 0
                        <==> contents@.len() == 0,
                    _ => true,
                },
    {
        let len = loaded.len();
        let mut contents: Vec<String> = Vec::new();
        for i in 0..len
            invariant
                len == loaded@.len() == simplified_conflict@.len(),
                forall|i: int|
                    0 <= i < loaded@.len() ==> (#[trigger] loaded@[i]).fits(
                        simplified_conflict@[i],
                    ),
                contents@.len() == i,
                forall|j: int|
                    0 <= j < i ==> (#[trigger] contents@[j])@ == loaded@[j].text(
                        simplified_conflict@[j],
                    ),
                forall|j: int|
                    0 <= j < i ==> match #[trigger] loaded@[j] {
                        LoadedTerm::File(file) => contents@[j]@.len() == 0 <==> file@.len() == 0,
                        _ => true,
                    },
        {
            let term = simplified_conflict.get(i).unwrap();
            assert(term.model() == simplified_conflict@[i as int]);
            contents.push(loaded[i].term_text(term));
        }
        let contents = Merge::from_vec(contents);
        let current_resolution = match resolution {
            Some(resolution) => *resolution,
            None => TermConflictResolution::default(),
        };
        proof {
            simplified_conflict.lemma_len();
        }
        let state = TermConflictViewerState {
            simplified_conflict,
            simplified_labels,
            contents,
            current_resolution,
            scroll_offset: 0,
        };
        assert(state@.contents =~= Seq::new(
            loaded@.len(),
            |i: int| loaded@[i].text(simplified_conflict@[i]),
        ));
        state
    }

    /// Handles a key that is pressed.
    pub fn handle_press(&mut self, event: KeyEvent)
        requires
            old(self)@.inv(),
            old(self)@.can_press(event),
        ensures
            final(self)@ == old(self)@.pressed(event),
            final(self)@.inv(),
    {
        if event.modifiers != 0 {
            return;
        }
        match event.code {
            KeyCode::Up | KeyCode::Char('k') => self.scroll_by(ScrollDirection::Backward, 1),
            KeyCode::Down | KeyCode::Char('j') => self.scroll_by(ScrollDirection::Forward, 1),
            KeyCode::Left | KeyCode::Char('h') => self.current_resolution.prev(),
            KeyCode::Right | KeyCode::Char('l') => {
                let num_sides = self.contents.num_sides();
                self.current_resolution.next(num_sides);
            },
            KeyCode::Char('b') => self.current_resolution.toggle_base(),
            _ => {},
        }
    }

    /// Whether there is somewhere to go with a key that is pressed.
    pub fn can_press(&self, event: KeyEvent) -> (can_press: bool)
        requires
            self@.inv(),
        ensures
            can_press == self@.can_press(event),
    {
        if event.modifiers != 0 {
            return true;
        }
        let index = self.current_resolution.add_or_remove_index;
        let show_bases = self.current_resolution.show_bases;
        match event.code {
            KeyCode::Right | KeyCode::Char('l') => {
                index < usize::MAX && (!show_bases || self.contents.num_sides() >= 2)
            },
            KeyCode::Char('b') => !show_bases || index < usize::MAX,
            _ => true,
        }
    }

    /// Scrolls by a number of rows.
    pub fn scroll_by(&mut self, direction: ScrollDirection, amount: u16)
        ensures
            final(self)@ == old(self)@.scrolled_by(direction, amount as int),
    {
        scroll_offset_by(&mut self.scroll_offset, direction, amount);
    }

    /// The first row that is visible.
    pub fn scroll_offset(&self) -> (offset: usize)
        ensures
            offset == self@.scroll_offset,
    {
        self.scroll_offset
    }

    /// Sets the first row that is visible.
    pub fn set_scroll_offset(&mut self, scroll_offset: usize)
        ensures
            final(self)@ == (TermViewer { scroll_offset: scroll_offset as int, ..old(self)@ }),
    {
        self.scroll_offset = scroll_offset;
    }

    /// Whether the conflict has the term that is selected.
    pub fn selection_is_valid(&self) -> (valid: bool)
        requires
            self@.inv(),
        ensures
            valid == self@.selection_is_valid(),
    {
        let num_sides = self.contents.num_sides();
        if self.current_resolution.show_bases {
            num_sides >= 2 && self.current_resolution.add_or_remove_index <= num_sides - 2
        } else {
            self.current_resolution.add_or_remove_index <= num_sides - 1
        }
    }

    /// What to show.
    pub fn render(&self, conflict: &Conflict) -> (rendered: RenderedTerm)
        requires
            self@.inv(),
            self@.selection_is_valid(),
        ensures
            rendered.file_name@ == conflict.file_name@,
            rendered.choice_views() == self@.choices(),
            rendered.selected == self@.current_resolution.add_or_remove_index,
            colored_texts(rendered.label@) == self@.label_line(),
            (rendered.body@, rendered.dim) == self@.body(),
    {
        let num_sides = self.contents.num_sides();
        let num_choices: usize = if self.current_resolution.show_bases {
            num_sides - 1
        } else {
            num_sides
        };
        let mut choices: Vec<String> = Vec::new();
        for i in 0..num_choices
            invariant
                num_choices == self@.choices().len(),
                choices@.len() == i,
                forall|j: int| 0 <= j < i ==> (#[trigger] choices@[j])@ == self@.choice(j),
        {
            let number = decimal_string(i + 1);
            let name = if self.current_resolution.show_bases {
                let mut name = "b".to_owned();
                name.append(number.as_str());
                name
            } else {
                number
            };
            choices.push(name);
        }
        let term = self.current_term();
        let label = label_with_file_type(
            self.simplified_labels.get_or_default(self.current_term_index()),
            term,
        );
        let content = self.contents.get(self.current_term_index()).unwrap();
        let (body, dim) = match term {
            None => ("(deleted)".to_owned(), true),
            Some(value) => if content.as_str().is_empty() {
                ("(empty)".to_owned(), true)
            } else {
                (
                    content.clone(),
                    match value {
                        TreeValue::File { .. } => false,
                        _ => true,
                    },
                )
            },
        };
        let rendered = RenderedTerm {
            file_name: conflict.file_name.clone(),
            choices,
            selected: self.current_resolution.add_or_remove_index,
            label,
            body,
            dim,
        };
        assert(rendered.choice_views() =~= self@.choices());
        rendered
    }

    /// The index of the selected term among all terms.
    pub fn current_term_index(&self) -> (index: usize)
        requires
            self@.inv(),
            self@.selection_is_valid(),
        ensures
            index == self@.current_resolution.term_index(),
            index < self@.conflict.len(),
    {
        proof {
            self.simplified_conflict.lemma_len();
        }
        let index = self.current_resolution.add_or_remove_index;
        if self.current_resolution.show_bases {
            2 * index + 1
        } else {
            2 * index
        }
    }

    /// The selected term.
    pub fn current_term(&self) -> (term: &Option<TreeValue>)
        requires
            self@.inv(),
            self@.selection_is_valid(),
        ensures
            term.model() == self@.current_term(),
    {
        self.simplified_conflict.get(self.current_term_index()).unwrap()
    }

    /// The selected term, which resolves the conflict, and how it was selected.
    pub fn confirm(&self) -> (result: (Merge<Option<TreeValue>>, TermConflictResolution))
        requires
            self@.inv(),
            self@.selection_is_valid(),
        ensures
            result.0@ == seq![self@.current_term()],
            result.0.wf(),
            self@.conflict.contains(self@.current_term()),
            result.1 == self@.current_resolution,
    {
        proof {
            let index = self@.current_resolution.term_index();
            assert(self@.conflict[index] == self@.current_term());
        }
        let resolved = Merge::resolved(self.current_term().copy());
        assert(resolved@ =~= seq![self@.current_term()]);
        (resolved, self.current_resolution)
    }
}

/// No key changes the terms, their labels or their texts, and every key leads
/// from a selected term of a conflict to a selected term of it.
pub proof fn law_keys_keep_validity(viewer: TermViewer, event: KeyEvent)
    requires
        viewer.inv(),
        viewer.selection_is_valid(),
        viewer.num_sides() >= 2,
    ensures
        ({
            let next = viewer.pressed(event);
            &&& next.inv()
            &&& next.selection_is_valid()
            &&& next.conflict == viewer.conflict
            &&& next.labels == viewer.labels
            &&& next.contents == viewer.contents
        }),
{
}

/// Every key can be pressed while a term of the conflict is selected.
pub proof fn law_keys_can_be_pressed(viewer: TermViewer, event: KeyEvent)
    requires
        viewer.inv(),
        viewer.selection_is_valid(),
    ensures
        viewer.can_press(event),
{
}

/// A key that is held together with others does nothing.
pub proof fn law_held_keys_do_nothing(viewer: TermViewer, event: KeyEvent)
    requires
        event.modifiers != 0,
    ensures
        viewer.pressed(event) == viewer,
{
}

/// Going to the left undoes going to the right, and the other way round, except
/// at the ends, where the selection stays.
pub proof fn law_moves_undo_each_other(resolution: TermConflictResolution, sides: nat)
    requires
        resolution.valid_for(sides),
        sides <= usize::MAX,
    ensures
        resolution.add_or_remove_index < resolution.last_index(sides) ==> resolution.following(
            sides,
        ).previous() == resolution,
        resolution.add_or_remove_index == resolution.last_index(sides) ==> resolution.following(
            sides,
        ) == resolution,
        resolution.add_or_remove_index > 0 ==> resolution.previous().following(sides)
            == resolution,
        resolution.add_or_remove_index == 0 ==> resolution.previous() == resolution,
{
}

/// Changing to a base and back, or to a side and back, changes nothing, except
/// from the first side, which shares its base with the second.
pub proof fn law_toggle_twice(resolution: TermConflictResolution, sides: nat)
    requires
        resolution.valid_for(sides),
        sides <= usize::MAX,
        resolution.show_bases || resolution.add_or_remove_index > 0,
    ensures
        resolution.toggled().toggled() == resolution,
{
}

/// The selections are the terms: each selection of a conflict stands for a term
/// of it, different selections for different terms, and each term can be
/// selected.
pub proof fn law_selections_are_terms(
    a: TermConflictResolution,
    b: TermConflictResolution,
    len: nat,
    index: int,
)
    requires
        len % 2 == 1,
        len <= usize::MAX,
        a.valid_for(len / 2 + 1),
        b.valid_for(len / 2 + 1),
        0 <= index < len,
    ensures
        0 <= a.term_index() < len,
        a.term_index() == b.term_index() ==> a == b,
        ({
            let selection = TermConflictResolution {
                add_or_remove_index: (index / 2) as usize,
                show_bases: index % 2 == 1,
            };
            selection.valid_for(len / 2 + 1) && selection.term_index() == index
        }),
{
}

/// The value that a viewer of a simplified conflict is confirmed with is one of
/// the values of the conflict before.
pub proof fn law_confirmed_value_is_in_conflict(
    viewer: TermViewer,
    unsimplified: Seq<Option<TreeValueView>>,
)
    requires
        unsimplified.len() % 2 == 1,
        viewer.conflict == simplified(unsimplified),
        viewer.inv(),
        viewer.selection_is_valid(),
    ensures
        unsimplified.contains(viewer.current_term()),
{
    law_simplified_places(unsimplified);
    let k = viewer.current_resolution.term_index();
    assert(unsimplified[simplified_places(unsimplified)[k]] == simplified(unsimplified)[k]);
}

} // verus!
