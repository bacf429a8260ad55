//! The choices that a user has for a conflict hunk.

use crate::labels::{add_label, remove_label, ConflictLabels};
use crate::merge::{adds, models, num_sides, removes, simplify, Merge, Term};
use crate::simplification::{law_simplified_keeps_signs, law_simplified_places, simplified};
use crate::text::{
    decimal, decimal_string, lemma_decimal_first, lemma_decimal_injective, NEWLINE,
};
use bstr::ByteSlice;
use itertools::Itertools;
use vstd::prelude::*;
use vstd::string::StrSliceExecFns;
use vstd::utf8::{
    decode_utf8, decode_utf8_encode_utf8, encode_utf8, pop_first_scalar, valid_utf8,
    valid_utf8_concat,
};

verus! {

/// A change from one value to another.
#[derive(Debug, PartialEq, Eq)]
pub struct Diff<T> {
    /// The value before the change.
    pub before: T,
    /// The value after the change.
    pub after: T,
}

/// What a conflict hunk is to be replaced by.
#[derive(Copy, Clone, Debug, PartialEq, Eq, Structural)]
pub enum HunkSelection {
    /// The positive term with this index.
    Added(usize),
    /// The negative term with this index.
    Removed(usize),
    /// All positive terms, one after the other.
    AllAdded,
}

/// The contents with a newline at the end, unless there are no contents.
pub open spec fn newline_terminated(contents: Seq<u8>) -> Seq<u8> {
    if contents.len() > 0 && contents.last() != NEWLINE {
        contents.push(NEWLINE)
    } else {
        contents
    }
}

/// `s` with only the first of equal items kept.
pub open spec fn without_repeats<A>(s: Seq<A>) -> Seq<A>
    decreases s.len(),
{
    if s.len() == 0 {
        s
    } else {
        let kept = without_repeats(s.drop_last());
        if s.drop_last().contains(s.last()) {
            kept
        } else {
            kept.push(s.last())
        }
    }
}

/// Calls `itertools::Itertools::unique` on an iterator over the contents.
///
/// Trusted: of equal contents only the first is kept, and the order stays.
#[verifier::external_body]
fn unique(contents: Vec<Vec<u8>>) -> (kept: Vec<Vec<u8>>)
    ensures
        models(kept@) == without_repeats(models(contents@)),
{
    contents.into_iter().unique().collect()
}

/// The characters that a `bstr::BStr` of the given bytes displays.
pub uninterp spec fn displayed(bytes: Seq<u8>) -> Seq<char>;

/// The characters that the given contents display, one after the other: those
/// that they encode, or what is displayed of invalid UTF-8.
pub open spec fn displayed_all(contents: Seq<Seq<u8>>) -> Seq<char> {
    contents.map_values(
        |bytes: Seq<u8>|
            if valid_utf8(bytes) {
                decode_utf8(bytes)
            } else {
                displayed(bytes)
            },
    ).flatten()
}

/// Calls `itertools::Itertools::join` with an empty separator on an iterator
/// over the contents as `bstr::BStr`.
///
/// Trusted: the contents are displayed one after the other; contents that are
/// valid UTF-8 are displayed as the characters they encode.
#[verifier::external_body]
fn join(contents: &Vec<Vec<u8>>) -> (text: String)
    ensures
        text@ == models(contents@).map_values(
            |bytes: Seq<u8>|
                if valid_utf8(bytes) {
                    decode_utf8(bytes)
                } else {
                    displayed(bytes)
                },
        ).flatten(),
{
    contents.iter().map(|content| content.as_bstr()).join("")
}

/// The given contents as terms that are present.
pub open spec fn present(terms: Seq<Seq<u8>>) -> Seq<Option<Seq<u8>>> {
    Seq::new(terms.len(), |i: int| Some(terms[i]))
}

/// The given sides, each with its last line ended, without repeats.
pub open spec fn ended_sides(sides: Seq<Option<Seq<u8>>>) -> Seq<Seq<u8>> {
    without_repeats(Seq::new(sides.len(), |k: int| newline_terminated(sides[k]->0)))
}

/// The positive terms that simplification leaves, each with its last line
/// ended, without repeats.
pub open spec fn distinct_sides(terms: Seq<Seq<u8>>) -> Seq<Seq<u8>> {
    ended_sides(adds(simplified(present(terms))))
}

impl HunkSelection {
    /// Whether the selection picks a term of a conflict of so many sides.
    pub open spec fn valid_for(self, sides: nat) -> bool {
        match self {
            HunkSelection::Added(index) => index < sides,
            HunkSelection::Removed(index) => index + 1 < sides,
            HunkSelection::AllAdded => true,
        }
    }

    /// The contents that the selection picks from the terms of a conflict.
    pub open spec fn selected(self, terms: Seq<Seq<u8>>) -> Seq<u8> {
        match self {
            HunkSelection::Added(index) => adds(terms)[index as int],
            HunkSelection::Removed(index) => removes(terms)[index as int],
            HunkSelection::AllAdded => encode_utf8(displayed_all(distinct_sides(terms))),
        }
    }

    /// The contents that the selection picks from the terms of a conflict.
    pub fn select_from(&self, contents: &Merge<Vec<u8>>) -> (selected: Vec<u8>)
        requires
            contents.wf(),
            self.valid_for(num_sides(contents@)),
        ensures
            selected@ == self.selected(contents@),
            self is AllAdded && (forall|k: int|
                0 <= k < adds(contents@).len() ==> valid_utf8(#[trigger] adds(contents@)[k]))
                ==> selected@ == distinct_sides(contents@).flatten(),
    {
        proof {
            if forall|k: int|
                0 <= k < adds(contents@).len() ==> valid_utf8(#[trigger] adds(contents@)[k]) {
                law_all_sides(contents@);
            }
        }
        match *self {
            HunkSelection::Added(index) => contents.get_add(index).unwrap().copy(),
            HunkSelection::Removed(index) => contents.get_remove(index).unwrap().copy(),
            HunkSelection::AllAdded => combine_all_sides(contents),
        }
    }

    /// The label of the selected term.
    pub open spec fn label(self, labels: Seq<Seq<char>>) -> Seq<char> {
        match self {
            HunkSelection::Added(index) => add_label(labels, index as int),
            HunkSelection::Removed(index) => remove_label(labels, index as int),
            HunkSelection::AllAdded => "(combine all sides)"@,
        }
    }

    /// Whether the number of the selected term can be counted from one.
    pub open spec fn countable(self) -> bool {
        match self {
            HunkSelection::Added(index) => index < usize::MAX,
            HunkSelection::Removed(index) => index < usize::MAX,
            HunkSelection::AllAdded => true,
        }
    }

    /// The label of the selected term.
    pub fn get_label(&self, labels: &ConflictLabels) -> (label: String)
        requires
            self.countable(),
        ensures
            label@ == self.label(labels@),
    {
        match *self {
            HunkSelection::Added(index) => labels.get_add_or_default(index),
            HunkSelection::Removed(index) => labels.get_remove_or_default(index),
            HunkSelection::AllAdded => "(combine all sides)".to_owned(),
        }
    }

    /// The selection to the left: the term before, or the last side if all
    /// sides are selected. The first term has none before it and stays.
    pub open spec fn previous(self, sides: nat) -> HunkSelection {
        match self {
            HunkSelection::Added(index) => if index == 0 {
                self
            } else {
                HunkSelection::Added((index - 1) as usize)
            },
            HunkSelection::Removed(index) => if index == 0 {
                self
            } else {
                HunkSelection::Removed((index - 1) as usize)
            },
            HunkSelection::AllAdded => HunkSelection::Added((sides - 1) as usize),
        }
    }

    /// The selection to the left.
    pub fn prev(&self, num_sides: usize) -> (selection: HunkSelection)
        requires
            self is AllAdded ==> num_sides >= 1,
        ensures
            selection == self.previous(num_sides as nat),
    {
        match *self {
            HunkSelection::Added(index) => HunkSelection::Added(index.saturating_sub(1)),
            HunkSelection::Removed(index) => HunkSelection::Removed(index.saturating_sub(1)),
            HunkSelection::AllAdded => HunkSelection::Added(num_sides - 1),
        }
    }

    /// The selection to the right: the term after, or all sides after the last
    /// side. The last base has none after it and stays, as do all sides.
    pub open spec fn following(self, sides: nat) -> HunkSelection {
        match self {
            HunkSelection::Added(index) => if index + 1 < sides {
                HunkSelection::Added((index + 1) as usize)
            } else {
                HunkSelection::AllAdded
            },
            HunkSelection::Removed(index) => if index + 2 < sides {
                HunkSelection::Removed((index + 1) as usize)
            } else {
                self
            },
            HunkSelection::AllAdded => self,
        }
    }

    /// The selection to the right.
    pub fn next(&self, num_sides: usize) -> (selection: HunkSelection)
        requires
            self is Added ==> num_sides >= 1,
            self is Removed ==> num_sides >= 2,
        ensures
            selection == self.following(num_sides as nat),
    {
        match *self {
            HunkSelection::Added(index) => if index < num_sides - 1 {
                HunkSelection::Added(index + 1)
            } else {
                HunkSelection::AllAdded
            },
            HunkSelection::Removed(index) if index < num_sides - 2 => HunkSelection::Removed(
                index + 1,
            ),
            _ => *self,
        }
    }

    /// The selection on the other row: the base of a side, the side of a base,
    /// and the last base if all sides are selected.
    pub open spec fn toggled(self, sides: nat) -> HunkSelection {
        match self {
            HunkSelection::Added(index) => if index == 0 {
                HunkSelection::Removed(0)
            } else {
                HunkSelection::Removed((index - 1) as usize)
            },
            HunkSelection::Removed(index) => HunkSelection::Added((index + 1) as usize),
            HunkSelection::AllAdded => HunkSelection::Removed((sides - 2) as usize),
        }
    }

    /// The selection on the other row.
    pub fn toggle_add_remove(&self, num_sides: usize) -> (selection: HunkSelection)
        requires
            self is Removed ==> self.countable(),
            self is AllAdded ==> num_sides >= 2,
        ensures
            selection == self.toggled(num_sides as nat),
    {
        match *self {
            HunkSelection::Added(index) => HunkSelection::Removed(index.saturating_sub(1)),
            HunkSelection::Removed(index) => HunkSelection::Added(index + 1),
            HunkSelection::AllAdded => HunkSelection::Removed(num_sides - 2),
        }
    }

    /// The index of the base of the side with the given index. The first two
    /// sides have the same base.
    pub open spec fn base_index(index: int) -> int {
        if index == 0 {
            0
        } else {
            index - 1
        }
    }

    /// The base and the side to compare, if a single side is selected.
    pub fn to_diff(&self) -> (diff: Option<Diff<usize>>)
        ensures
            match diff {
                Some(diff) => *self is Added && diff.after == self->Added_0 && diff.before
                    == HunkSelection::base_index(self->Added_0 as int),
                None => !(*self is Added),
            },
    {
        match *self {
            HunkSelection::Added(index) => Some(
                Diff { before: index.saturating_sub(1), after: index },
            ),
            _ => None,
        }
    }

    /// The selections on the same row, from left to right.
    pub open spec fn reachable(self, sides: nat) -> Seq<HunkSelection> {
        if self is Removed {
            Seq::new((sides - 1) as nat, |i: int| HunkSelection::Removed(i as usize))
        } else {
            Seq::new(sides, |i: int| HunkSelection::Added(i as usize)).push(HunkSelection::AllAdded)
        }
    }

    /// The selections on the same row, from left to right.
    pub fn list_reachable(&self, num_sides: usize) -> (list: Vec<HunkSelection>)
        requires
            self is Removed ==> num_sides >= 1,
        ensures
            list@ == self.reachable(num_sides as nat),
    {
        let mut list: Vec<HunkSelection> = Vec::new();
        match *self {
            HunkSelection::Removed(_) => {
                for i in 0..num_sides - 1
                    invariant
                        list@.len() == i,
                        forall|j: int| 0 <= j < i ==> list@[j] == HunkSelection::Removed(j as usize),
                {
                    list.push(HunkSelection::Removed(i));
                }
            },
            _ => {
                for i in 0..num_sides
                    invariant
                        list@.len() == i,
                        forall|j: int| 0 <= j < i ==> list@[j] == HunkSelection::Added(j as usize),
                {
                    list.push(HunkSelection::Added(i));
                }
                list.push(HunkSelection::AllAdded);
            },
        }
        assert(list@ =~= self.reachable(num_sides as nat));
        list
    }

    /// How the selection is named in a list: the number of the side, `b` and
    /// the number of the base, or `all`.
    pub open spec fn position_name(self) -> Seq<char> {
        match self {
            HunkSelection::Added(index) => decimal((index + 1) as nat),
            HunkSelection::Removed(index) => "b"@ + decimal((index + 1) as nat),
            HunkSelection::AllAdded => "all"@,
        }
    }

    /// How the selection is named in a list.
    pub fn position_str(&self) -> (name: String)
        requires
            self.countable(),
        ensures
            name@ == self.position_name(),
    {
        match *self {
            HunkSelection::Added(index) => decimal_string(index + 1),
            HunkSelection::Removed(index) => {
                let mut name = "b".to_owned();
                name.append(decimal_string(index + 1).as_str());
                name
            },
            HunkSelection::AllAdded => "all".to_owned(),
        }
    }
}

/// The sides of a simplified merge one after the other, each with its last line
/// ended, without repeats.
pub fn combine_sides(left: &Merge<Option<Vec<u8>>>) -> (combined: Vec<u8>)
    requires
        left.wf(),
        forall|k: int| 0 <= k < adds(left@).len() ==> (#[trigger] adds(left@)[k]) is Some,
    ensures
        combined@ == encode_utf8(displayed_all(ended_sides(adds(left@)))),
        (forall|k: int|
            0 <= k < adds(left@).len() ==> valid_utf8((#[trigger] adds(left@)[k])->0))
            ==> combined@ == ended_sides(adds(left@)).flatten(),
{
    let ghost sides = adds(left@);
    let ghost ended = Seq::new(sides.len(), |k: int| newline_terminated(sides[k]->0));
    let num_sides = left.num_sides();
    let mut lines: Vec<Vec<u8>> = Vec::new();
    for k in 0..num_sides
        invariant
            num_sides == sides.len() == ended.len(),
            left.wf(),
            sides == adds(left@),
            ended == Seq::new(sides.len(), |k: int| newline_terminated(sides[k]->0)),
            forall|j: int| 0 <= j < sides.len() ==> (#[trigger] sides[j]) is Some,
            lines@.len() == k,
            forall|j: int| 0 <= j < k ==> (#[trigger] lines@[j])@ == ended[j],
    {
        assert(sides[k as int] is Some);
        if let Some(side) = left.get_add(k).unwrap() {
            assert(Some(side@) == sides[k as int]);
            let mut line = side.copy();
            if line.len() > 0 && line[line.len() - 1] != NEWLINE {
                line.push(NEWLINE);
            }
            lines.push(line);
        }
    }
    assert(models(lines@) =~= ended);
    let kept = unique(lines);
    let text = join(&kept);
    proof {
        if forall|k: int| 0 <= k < sides.len() ==> valid_utf8((#[trigger] sides[k])->0) {
            lemma_valid_sides(sides);
        }
    }
    text.as_str().as_bytes_vec()
}

fn combine_all_sides(contents: &Merge<Vec<u8>>) -> (combined: Vec<u8>)
    requires
        contents.wf(),
    ensures
        combined@ == encode_utf8(displayed_all(distinct_sides(contents@))),
{
    let len = contents.len();
    let mut terms: Vec<Option<Vec<u8>>> = Vec::new();
    for i in 0..len
        invariant
            len == contents@.len(),
            terms@.len() == i,
            forall|j: int|
                0 <= j < i ==> (#[trigger] terms@[j]).model() == Some(contents@[j]),
    {
        terms.push(Some(contents.get(i).unwrap().copy()));
    }
    let merge = Merge::from_vec(terms);
    assert(merge@ =~= present(contents@));
    let left = simplify(&merge);
    proof {
        lemma_sides_left(contents@);
        law_simplified_places(merge@);
    }
    combine_sides(&left)
}

proof fn lemma_sides_left(terms: Seq<Seq<u8>>)
    requires
        terms.len() % 2 == 1,
    ensures
        ({
            let sides = adds(simplified(present(terms)));
            forall|k: int|
                0 <= k < sides.len() ==> (#[trigger] sides[k]) is Some && adds(terms).contains(
                    sides[k]->0,
                )
        }),
{
    let sides = adds(simplified(present(terms)));
    law_simplified_keeps_signs(present(terms));
    assert forall|k: int| 0 <= k < sides.len() implies (#[trigger] sides[k]) is Some && adds(
        terms,
    ).contains(sides[k]->0) by {
        let before = adds(present(terms));
        assert(before.contains(sides[k]));
        let i = choose|i: int| 0 <= i < before.len() && before[i] == sides[k];
        assert(adds(terms)[i] == sides[k]->0);
    }
}

proof fn lemma_valid_sides(sides: Seq<Option<Seq<u8>>>)
    requires
        forall|k: int| 0 <= k < sides.len() ==> valid_utf8((#[trigger] sides[k])->0),
    ensures
        encode_utf8(displayed_all(ended_sides(sides))) == ended_sides(sides).flatten(),
{
    let ended = Seq::new(sides.len(), |k: int| newline_terminated(sides[k]->0));
    let kept = without_repeats(ended);
    assert forall|j: int| 0 <= j < ended.len() implies valid_utf8(#[trigger] ended[j]) by {
        lemma_newline_terminated_valid(sides[j]->0);
    }
    lemma_without_repeats_among(ended);
    assert forall|i: int| 0 <= i < kept.len() implies valid_utf8(#[trigger] kept[i]) by {
        assert(ended.contains(kept[i]));
    }
    lemma_encode_decoded(kept);
}

/// All sides together, if they are valid UTF-8, are the sides that the
/// simplification leaves, one after the other, each with its last line ended,
/// without repeats.
pub proof fn law_all_sides(terms: Seq<Seq<u8>>)
    requires
        terms.len() % 2 == 1,
        forall|k: int| 0 <= k < adds(terms).len() ==> valid_utf8(#[trigger] adds(terms)[k]),
    ensures
        HunkSelection::AllAdded.selected(terms) == distinct_sides(terms).flatten(),
{
    let sides = adds(simplified(present(terms)));
    lemma_sides_left(terms);
    assert forall|k: int| 0 <= k < sides.len() implies valid_utf8((#[trigger] sides[k])->0) by {
        assert(adds(terms).contains(sides[k]->0));
    }
    lemma_valid_sides(sides);
}

proof fn lemma_newline_terminated_valid(contents: Seq<u8>)
    requires
        valid_utf8(contents),
    ensures
        valid_utf8(newline_terminated(contents)),
{
    let newline = seq![NEWLINE];
    assert(10u8 & 0x7f == 10u8) by (bit_vector);
    assert(pop_first_scalar(newline) =~= Seq::<u8>::empty());
    reveal_with_fuel(valid_utf8, 2);
    assert(valid_utf8(newline));
    valid_utf8_concat(contents, newline);
    assert(contents + newline =~= contents.push(NEWLINE));
}

proof fn lemma_without_repeats_among<A>(s: Seq<A>)
    ensures
        forall|i: int|
            0 <= i < without_repeats(s).len() ==> s.contains(#[trigger] without_repeats(s)[i]),
    decreases s.len(),
{
    if s.len() > 0 {
        let rest = s.drop_last();
        lemma_without_repeats_among(rest);
        assert forall|i: int| 0 <= i < without_repeats(s).len() implies s.contains(
            #[trigger] without_repeats(s)[i],
        ) by {
            let x = without_repeats(s)[i];
            if i < without_repeats(rest).len() {
                assert(rest.contains(without_repeats(rest)[i]));
                let j = choose|j: int| 0 <= j < rest.len() && rest[j] == x;
                assert(s[j] == x);
            } else {
                assert(s[s.len() - 1] == x);
            }
        }
    }
}

proof fn lemma_encode_concat(a: Seq<char>, b: Seq<char>)
    ensures
        encode_utf8(a + b) == encode_utf8(a) + encode_utf8(b),
    decreases a.len(),
{
    if a.len() == 0 {
        assert(a + b =~= b);
        assert(encode_utf8(a) + encode_utf8(b) =~= encode_utf8(b));
    } else {
        assert((a + b).drop_first() =~= a.drop_first() + b);
        lemma_encode_concat(a.drop_first(), b);
        assert(encode_utf8(a + b) =~= encode_utf8(a) + encode_utf8(b));
    }
}

proof fn lemma_encode_decoded(contents: Seq<Seq<u8>>)
    requires
        forall|i: int| 0 <= i < contents.len() ==> valid_utf8(#[trigger] contents[i]),
    ensures
        encode_utf8(displayed_all(contents)) == contents.flatten(),
    decreases contents.len(),
{
    let shown = |bytes: Seq<u8>|
        if valid_utf8(bytes) {
            decode_utf8(bytes)
        } else {
            displayed(bytes)
        };
    let decoded = contents.map_values(shown);
    if contents.len() > 0 {
        let rest = contents.drop_first();
        assert forall|i: int| 0 <= i < rest.len() implies valid_utf8(#[trigger] rest[i]) by {
            assert(valid_utf8(contents[i + 1]));
        }
        lemma_encode_decoded(rest);
        assert(decoded.drop_first() =~= rest.map_values(shown));
        assert(valid_utf8(contents[0]));
        decode_utf8_encode_utf8(contents[0]);
        lemma_encode_concat(decoded[0], decoded.drop_first().flatten());
    } else {
        assert(decoded =~= Seq::empty());
        assert(contents.flatten() =~= Seq::<u8>::empty());
    }
}

impl HunkSelection {
    /// The place of the selection in its row.
    pub open spec fn position(self, sides: nat) -> int {
        match self {
            HunkSelection::Added(index) => index as int,
            HunkSelection::Removed(index) => index as int,
            HunkSelection::AllAdded => sides as int,
        }
    }
}

/// A selection that picks a term of a conflict still picks one after each of
/// the three moves.
pub proof fn law_moves_stay_valid(selection: HunkSelection, sides: nat)
    requires
        selection.valid_for(sides),
        2 <= sides <= usize::MAX,
    ensures
        selection.previous(sides).valid_for(sides),
        selection.following(sides).valid_for(sides),
        selection.toggled(sides).valid_for(sides),
{
}

/// The row of a selection names each of its selections once, the selection
/// itself among them. Moving left or right goes to the neighbour in the row
/// and stops at its ends.
pub proof fn law_moves_follow_the_row(selection: HunkSelection, sides: nat)
    requires
        selection.valid_for(sides),
        1 <= sides <= usize::MAX,
    ensures
        selection.reachable(sides).no_duplicates(),
        0 <= selection.position(sides) < selection.reachable(sides).len(),
        selection.reachable(sides)[selection.position(sides)] == selection,
        selection.previous(sides) == selection.reachable(sides)[if selection.position(sides) == 0 {
            0
        } else {
            selection.position(sides) - 1
        }],
        selection.following(sides) == selection.reachable(sides)[if selection.position(sides) + 1
            == selection.reachable(sides).len() {
            selection.position(sides)
        } else {
            selection.position(sides) + 1
        }],
        selection.previous(sides).reachable(sides) == selection.reachable(sides),
        selection.following(sides).reachable(sides) == selection.reachable(sides),
{
    assert forall|i: int, j: int|
        0 <= i < selection.reachable(sides).len() && 0 <= j < selection.reachable(sides).len() && i
            != j implies selection.reachable(sides)[i] != selection.reachable(sides)[j] by {
    }
}

/// Moving right and then left comes back, except from the right end of the
/// row; moving left and then right comes back, except from the left end.
pub proof fn law_moves_undo_each_other(selection: HunkSelection, sides: nat)
    requires
        selection.valid_for(sides),
        1 <= sides <= usize::MAX,
    ensures
        selection.following(sides) != selection ==> selection.following(sides).previous(sides)
            == selection,
        selection.previous(sides) != selection ==> selection.previous(sides).following(sides)
            == selection,
{
}

/// Changing the row goes from sides to bases and from bases to sides. Changing
/// it twice comes back to a base, and to every side but the first, which has
/// the base of the second.
pub proof fn law_toggle_twice(selection: HunkSelection, sides: nat)
    requires
        selection.valid_for(sides),
        2 <= sides <= usize::MAX,
        selection != HunkSelection::Added(0),
        selection != HunkSelection::AllAdded,
    ensures
        selection.toggled(sides) is Removed <==> selection is Added,
        selection.toggled(sides).toggled(sides) == selection,
{
}

/// Different selections have different names in the list.
pub proof fn law_position_names_differ(a: HunkSelection, b: HunkSelection)
    requires
        a.position_name() == b.position_name(),
    ensures
        a == b,
{
    reveal_strlit("b");
    reveal_strlit("all");
    let x = a.position_name();
    match (a, b) {
        (HunkSelection::Added(i), HunkSelection::Added(j)) => {
            lemma_decimal_injective((i + 1) as nat, (j + 1) as nat);
        },
        (HunkSelection::Removed(i), HunkSelection::Removed(j)) => {
            assert(x.skip(1) =~= decimal((i + 1) as nat));
            assert(x.skip(1) =~= decimal((j + 1) as nat));
            lemma_decimal_injective((i + 1) as nat, (j + 1) as nat);
        },
        (HunkSelection::Added(i), _) => {
            lemma_decimal_first((i + 1) as nat);
        },
        (_, HunkSelection::Added(j)) => {
            lemma_decimal_first((j + 1) as nat);
        },
        _ => {
            assert(x[0] == 'b' || x[0] == 'a');
        },
    }
}

} // verus!
