//! What selections pick, where the keys lead from them and how they are named,
//! stated on the terms and labels of a conflict.

use crate::labels::{add_label, remove_label, term_label};
use crate::merge::{adds, num_sides, removes};
use crate::selection::{
    displayed, distinct_sides, law_all_sides, newline_terminated, present, without_repeats,
    HunkSelection,
};
use crate::simplification::{
    law_simplification_compares_only, law_simplified_places, simplified, simplified_places,
};
use crate::text::decimal;
use vstd::prelude::*;
use vstd::utf8::{decode_utf8, encode_utf8, valid_utf8};

verus! {

/// The sides and bases of a conflict are its terms in turn: a side is the term
/// at an even place, a base the term at an odd place. A selection of one is
/// valid exactly when the conflict has that term, and picks it as it stands.
pub proof fn law_selection_of_a_term(terms: Seq<Seq<u8>>, index: usize)
    requires
        terms.len() % 2 == 1,
    ensures
        HunkSelection::Added(index).valid_for(num_sides(terms)) <==> 2 * index < terms.len(),
        HunkSelection::Removed(index).valid_for(num_sides(terms)) <==> 2 * index + 1 < terms.len(),
        HunkSelection::AllAdded.valid_for(num_sides(terms)),
        2 * index < terms.len() ==> HunkSelection::Added(index).selected(terms) == terms[2
            * index as int],
        2 * index + 1 < terms.len() ==> HunkSelection::Removed(index).selected(terms) == terms[2
            * index as int + 1],
{
}

/// Whether a block of lines is a side with its last line ended: the side itself
/// if it is empty or ends with a newline, and else the side with a newline
/// after it.
pub open spec fn is_block_of(block: Seq<u8>, side: Seq<u8>) -> bool {
    if side.len() == 0 || side[side.len() - 1] == 10u8 {
        block == side
    } else {
        block.len() == side.len() + 1 && block[side.len() as int] == 10u8 && forall|i: int|
            0 <= i < side.len() ==> #[trigger] block[i] == side[i]
    }
}

proof fn lemma_without_repeats<A>(s: Seq<A>)
    ensures
        without_repeats(s).no_duplicates(),
        forall|k: int|
            0 <= k < without_repeats(s).len() ==> s.contains(#[trigger] without_repeats(s)[k]),
        forall|j: int| 0 <= j < s.len() ==> without_repeats(s).contains(#[trigger] s[j]),
        forall|k: int, l: int, j: int|
            #![trigger without_repeats(s)[k], without_repeats(s)[l], s[j]]
            0 <= k < l < without_repeats(s).len() && 0 <= j < s.len() && s[j] == without_repeats(
                s,
            )[l] ==> s.take(j).contains(without_repeats(s)[k]),
    decreases s.len(),
{
    if s.len() > 0 {
        let rest = s.drop_last();
        let last = s.last();
        let before = without_repeats(rest);
        let kept = without_repeats(s);
        lemma_without_repeats(rest);
        assert forall|k: int| 0 <= k < kept.len() implies s.contains(#[trigger] kept[k]) by {
            if k < before.len() {
                assert(rest.contains(before[k]));
                let j = choose|j: int| 0 <= j < rest.len() && rest[j] == before[k];
                assert(s[j] == kept[k]);
            } else {
                assert(s[s.len() - 1] == kept[k]);
            }
        }
        assert forall|j: int| 0 <= j < s.len() implies kept.contains(#[trigger] s[j]) by {
            let x = s[j];
            let y = if j < rest.len() {
                assert(rest[j] == x);
                rest[j]
            } else {
                last
            };
            if rest.contains(y) {
                let i = choose|i: int| 0 <= i < rest.len() && rest[i] == y;
                assert(before.contains(rest[i]));
                let k = choose|k: int| 0 <= k < before.len() && before[k] == y;
                assert(kept[k] == y);
            } else {
                assert(kept[kept.len() - 1] == y);
            }
        }
        assert(kept.no_duplicates()) by {
            if !rest.contains(last) {
                assert forall|k: int| 0 <= k < before.len() implies before[k] != last by {
                    assert(rest.contains(before[k]));
                }
            }
        }
        assert forall|k: int, l: int, j: int|
            #![trigger kept[k], kept[l], s[j]]
            0 <= k < l < kept.len() && 0 <= j < s.len() && s[j] == kept[l] implies s.take(
            j,
        ).contains(kept[k]) by {
            if l < before.len() {
                let i = if j < rest.len() {
                    j
                } else {
                    assert(rest.contains(before[l]));
                    choose|i: int| 0 <= i < rest.len() && rest[i] == before[l]
                };
                assert(rest[i] == before[l] && before[k] == kept[k]);
                let earlier = rest.take(i);
                assert(earlier.contains(before[k]));
                let m = choose|m: int| 0 <= m < earlier.len() && earlier[m] == before[k];
                assert(s.take(j)[m] == kept[k]);
            } else {
                assert(kept[l] == last && !rest.contains(last));
                if j < rest.len() {
                    assert(rest[j] == last);
                }
                assert(rest.contains(before[k]));
                let m = choose|m: int| 0 <= m < rest.len() && rest[m] == before[k];
                assert(s.take(j)[m] == kept[k]);
            }
        }
    }
}

proof fn lemma_sides_are_terms(terms: Seq<Seq<u8>>)
    requires
        terms.len() % 2 == 1,
    ensures
        ({
            let left = simplified(terms);
            let sides = adds(simplified(present(terms)));
            &&& left.len() % 2 == 1
            &&& sides.len() == (left.len() + 1) / 2
            &&& forall|k: int| 0 <= k < sides.len() ==> #[trigger] sides[k] == Some(left[2 * k])
        }),
{
    let options = present(terms);
    assert forall|i: int, j: int|
        #![trigger terms[i], terms[j]]
        0 <= i < terms.len() && 0 <= j < terms.len() implies (terms[i] == terms[j] <==> options[i]
        == options[j]) by {
        assert(options[i] == Some(terms[i]));
        assert(options[j] == Some(terms[j]));
    }
    law_simplification_compares_only(terms, options);
    law_simplified_places(terms);
    law_simplified_places(options);
    let sides = adds(simplified(options));
    assert forall|k: int| 0 <= k < sides.len() implies #[trigger] sides[k] == Some(
        simplified(terms)[2 * k],
    ) by {
        assert(simplified(options)[2 * k] == options[simplified_places(options)[2 * k]]);
    }
}

/// Whether a block is a side among alternating terms, before the place `end`,
/// with its last line ended.
pub open spec fn is_block_of_some_side(block: Seq<u8>, terms: Seq<Seq<u8>>, end: int) -> bool {
    exists|j: int|
        0 <= j < end && j < terms.len() && j % 2 == 0 && is_block_of(block, #[trigger] terms[j])
}

/// Whether some block is the given side with its last line ended.
pub open spec fn has_block(blocks: Seq<Seq<u8>>, side: Seq<u8>) -> bool {
    exists|k: int| 0 <= k < blocks.len() && is_block_of(#[trigger] blocks[k], side)
}

proof fn lemma_blocks(terms: Seq<Seq<u8>>) -> (ended: Seq<Seq<u8>>)
    requires
        terms.len() % 2 == 1,
    ensures
        simplified(terms).len() % 2 == 1,
        ended.len() == (simplified(terms).len() + 1) / 2,
        distinct_sides(terms) == without_repeats(ended),
        forall|j: int|
            0 <= j < ended.len() ==> is_block_of(#[trigger] ended[j], simplified(terms)[2 * j]),
{
    let sides = adds(simplified(present(terms)));
    lemma_sides_are_terms(terms);
    let ended = Seq::new(sides.len(), |k: int| newline_terminated(sides[k]->0));
    assert forall|j: int| 0 <= j < ended.len() implies is_block_of(
        #[trigger] ended[j],
        simplified(terms)[2 * j],
    ) by {
        assert(sides[j] == Some(simplified(terms)[2 * j]));
    }
    ended
}

/// All sides together are blocks of lines. Each block is a side that the
/// simplification leaves, with its last line ended, so that no block runs on in
/// the line of the block before. Each side that is left has its block, and equal
/// sides have one block.
pub proof fn law_blocks_are_the_sides(terms: Seq<Seq<u8>>)
    requires
        terms.len() % 2 == 1,
    ensures
        ({
            let left = simplified(terms);
            let blocks = distinct_sides(terms);
            &&& forall|k: int|
                0 <= k < blocks.len() ==> {
                    &&& (#[trigger] blocks[k]).len() == 0 || blocks[k][blocks[k].len() - 1] == 10u8
                    &&& is_block_of_some_side(blocks[k], left, left.len() as int)
                }
            &&& forall|j: int|
                0 <= j < left.len() && j % 2 == 0 ==> has_block(blocks, #[trigger] left[j])
            &&& blocks.no_duplicates()
        }),
{
    let left = simplified(terms);
    let blocks = distinct_sides(terms);
    let ended = lemma_blocks(terms);
    lemma_without_repeats(ended);
    assert forall|k: int| 0 <= k < blocks.len() implies {
        &&& (#[trigger] blocks[k]).len() == 0 || blocks[k][blocks[k].len() - 1] == 10u8
        &&& is_block_of_some_side(blocks[k], left, left.len() as int)
    } by {
        assert(ended.contains(blocks[k]));
        let i = choose|i: int| 0 <= i < ended.len() && ended[i] == blocks[k];
        assert(is_block_of(ended[i], left[2 * i]));
    }
    assert forall|j: int| 0 <= j < left.len() && j % 2 == 0 implies has_block(
        blocks,
        #[trigger] left[j],
    ) by {
        assert(is_block_of(ended[j / 2], left[2 * (j / 2)]));
        assert(blocks.contains(ended[j / 2]));
        let k = choose|k: int| 0 <= k < blocks.len() && blocks[k] == ended[j / 2];
        assert(is_block_of(blocks[k], left[j]));
    }
}

/// The blocks stand in the order in which their sides come first: before any
/// side of a block stands some side of each block before it.
pub proof fn law_blocks_keep_the_order(terms: Seq<Seq<u8>>, k: int, l: int, j: int)
    requires
        terms.len() % 2 == 1,
        0 <= k < l < distinct_sides(terms).len(),
        0 <= j < simplified(terms).len(),
        j % 2 == 0,
        is_block_of(distinct_sides(terms)[l], simplified(terms)[j]),
    ensures
        is_block_of_some_side(distinct_sides(terms)[k], simplified(terms), j),
{
    let left = simplified(terms);
    let blocks = distinct_sides(terms);
    let ended = lemma_blocks(terms);
    lemma_without_repeats(ended);
    assert(is_block_of(ended[j / 2], left[2 * (j / 2)]));
    assert(ended[j / 2] =~= blocks[l]);
    let earlier = ended.take(j / 2);
    assert(earlier.contains(blocks[k]));
    let i = choose|i: int| 0 <= i < earlier.len() && earlier[i] == blocks[k];
    assert(is_block_of(ended[i], left[2 * i]));
}

/// What all sides together are replaced by is the blocks one after the other:
/// as they stand if they are valid UTF-8, and as they are displayed if not.
pub proof fn law_all_sides_are_blocks(terms: Seq<Seq<u8>>)
    requires
        terms.len() % 2 == 1,
    ensures
        ({
            let blocks = distinct_sides(terms);
            &&& HunkSelection::AllAdded.selected(terms) == encode_utf8(
                Seq::new(
                    blocks.len(),
                    |k: int|
                        if valid_utf8(blocks[k]) {
                            decode_utf8(blocks[k])
                        } else {
                            displayed(blocks[k])
                        },
                ).flatten(),
            )
            &&& (forall|i: int|
                0 <= i < terms.len() && i % 2 == 0 ==> valid_utf8(#[trigger] terms[i]))
                ==> HunkSelection::AllAdded.selected(terms) == blocks.flatten()
        }),
{
    let blocks = distinct_sides(terms);
    let shown = Seq::new(
        blocks.len(),
        |k: int|
            if valid_utf8(blocks[k]) {
                decode_utf8(blocks[k])
            } else {
                displayed(blocks[k])
            },
    );
    assert(blocks.map_values(
        |bytes: Seq<u8>|
            if valid_utf8(bytes) {
                decode_utf8(bytes)
            } else {
                displayed(bytes)
            },
    ) =~= shown);
    if forall|i: int| 0 <= i < terms.len() && i % 2 == 0 ==> valid_utf8(#[trigger] terms[i]) {
        assert forall|k: int| 0 <= k < adds(terms).len() implies valid_utf8(
            #[trigger] adds(terms)[k],
        ) by {
            assert(valid_utf8(terms[2 * k]));
        }
        law_all_sides(terms);
    }
}

/// The key to the right goes to the next side, from the last side to all sides,
/// and to the next base; the key to the left goes back; both stop at the ends.
/// The key for bases goes from a side to the base before it, the first side's
/// being the first base, from a base to the side after it, and from all sides to
/// the last base.
pub proof fn law_where_moves_lead(selection: HunkSelection, sides: nat)
    requires
        selection.valid_for(sides),
        2 <= sides <= usize::MAX,
    ensures
        match selection {
            HunkSelection::Added(n) => {
                &&& n < sides
                &&& n > 0 ==> selection.previous(sides) == HunkSelection::Added((n - 1) as usize)
                &&& n == 0 ==> selection.previous(sides) == selection
                &&& n < sides - 1 ==> selection.following(sides) == HunkSelection::Added(
                    (n + 1) as usize,
                )
                &&& n == sides - 1 ==> selection.following(sides) == HunkSelection::AllAdded
                &&& n > 0 ==> selection.toggled(sides) == HunkSelection::Removed((n - 1) as usize)
                &&& n == 0 ==> selection.toggled(sides) == HunkSelection::Removed(0)
            },
            HunkSelection::Removed(n) => {
                &&& n < sides - 1
                &&& n > 0 ==> selection.previous(sides) == HunkSelection::Removed((n - 1) as usize)
                &&& n == 0 ==> selection.previous(sides) == selection
                &&& n < sides - 2 ==> selection.following(sides) == HunkSelection::Removed(
                    (n + 1) as usize,
                )
                &&& n == sides - 2 ==> selection.following(sides) == selection
                &&& selection.toggled(sides) == HunkSelection::Added((n + 1) as usize)
            },
            HunkSelection::AllAdded => {
                &&& selection.previous(sides) == HunkSelection::Added((sides - 1) as usize)
                &&& selection.following(sides) == selection
                &&& selection.toggled(sides) == HunkSelection::Removed((sides - 2) as usize)
            },
        },
{
}

/// The row of a side lists all sides in order and all sides together at the
/// end; the row of a base lists all bases in order.
pub proof fn law_rows_list_the_terms(selection: HunkSelection, sides: nat)
    requires
        1 <= sides <= usize::MAX,
    ensures
        selection is Removed ==> {
            &&& selection.reachable(sides).len() == sides - 1
            &&& forall|i: int|
                0 <= i < sides - 1 ==> #[trigger] selection.reachable(sides)[i]
                    == HunkSelection::Removed(i as usize)
        },
        !(selection is Removed) ==> {
            &&& selection.reachable(sides).len() == sides + 1
            &&& forall|i: int|
                0 <= i < sides ==> #[trigger] selection.reachable(sides)[i]
                    == HunkSelection::Added(i as usize)
            &&& selection.reachable(sides)[sides as int] == HunkSelection::AllAdded
        },
{
}

/// Sides are named by their number, bases by a `b` and their number, counted
/// from one.
pub proof fn law_names_are_numbers(index: usize)
    ensures
        HunkSelection::Added(index).position_name() == decimal((index + 1) as nat),
        HunkSelection::Removed(index).position_name() == "b"@ + decimal((index + 1) as nat),
        HunkSelection::AllAdded.position_name() == "all"@,
{
}

/// A term is shown under its own label if it has one that is not empty, and
/// else under its number: all the same whether it is selected or asked for by
/// its place among all terms.
pub proof fn law_labels_of_terms(labels: Seq<Seq<char>>, index: usize)
    ensures
        ({
            let side = 2 * index as int;
            let base = 2 * index as int + 1;
            let side_label = if side < labels.len() && labels[side].len() > 0 {
                labels[side]
            } else {
                "side #"@ + decimal((index + 1) as nat)
            };
            let base_label = if base < labels.len() && labels[base].len() > 0 {
                labels[base]
            } else {
                "base #"@ + decimal((index + 1) as nat)
            };
            &&& HunkSelection::Added(index).label(labels) == side_label
            &&& HunkSelection::Removed(index).label(labels) == base_label
            &&& HunkSelection::AllAdded.label(labels) == "(combine all sides)"@
            &&& add_label(labels, index as int) == side_label
            &&& remove_label(labels, index as int) == base_label
            &&& term_label(labels, side) == side_label
            &&& term_label(labels, base) == base_label
        }),
{
}

/// A side is compared with the base before it, the first side with the first
/// base.
pub proof fn law_base_of_a_side(terms: Seq<Seq<u8>>, side: int)
    requires
        terms.len() % 2 == 1,
        terms.len() >= 3,
        0 <= 2 * side < terms.len(),
    ensures
        0 <= HunkSelection::base_index(side) < removes(terms).len(),
        removes(terms)[HunkSelection::base_index(side)] == terms[if side == 0 {
            1
        } else {
            2 * side - 1
        }],
{
}

} // verus!
