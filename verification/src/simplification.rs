//! Cancelling equal positive and negative terms of a merge.

use crate::merge::{adds, removes};
use vstd::prelude::*;
use vstd::seq_lib::{to_multiset_remove, to_multiset_update};

verus! {

/// The terms at the given places.
pub open spec fn terms_at_places<A>(terms: Seq<A>, places: Seq<int>) -> Seq<A> {
    Seq::new(places.len(), |k: int| terms[places[k]])
}

/// The first place for a negative term, from `from` on, that holds `value`, or
/// a number beyond the places if there is none.
pub open spec fn equal_remove<A>(terms: Seq<A>, places: Seq<int>, value: A, from: int) -> int
    decreases places.len() + 2 - from,
{
    if from >= places.len() || terms[places[from]] == value {
        from
    } else {
        equal_remove(terms, places, value, from + 2)
    }
}

/// The places without the positive term at `add` and the negative term at
/// `remove`. The positive term that follows the negative one takes the place at
/// `add`.
pub open spec fn without_pair(places: Seq<int>, add: int, remove: int) -> Seq<int> {
    let moved = places.update(add, places[remove + 1]);
    moved.take(remove) + moved.skip(remove + 2)
}

/// What is left of the places when each positive term from `add` on is
/// cancelled with the first negative term that equals it.
pub open spec fn places_left<A>(terms: Seq<A>, places: Seq<int>, add: nat) -> Seq<int>
    decreases places.len() + 2 - add,
{
    let remove = equal_remove(terms, places, terms[places[add as int]], 1);
    if add >= places.len() {
        places
    } else if 0 < remove && remove + 1 < places.len() {
        places_left(terms, without_pair(places, add as int, remove), add)
    } else {
        places_left(terms, places, add + 2)
    }
}

/// The places of the terms that are left when equal positive and negative terms
/// are cancelled, in the order in which the terms are left.
pub open spec fn simplified_places<A>(terms: Seq<A>) -> Seq<int> {
    places_left(terms, Seq::new(terms.len(), |i: int| i), 0)
}

/// What is left of `terms` when equal positive and negative terms are
/// cancelled.
pub open spec fn simplified<A>(terms: Seq<A>) -> Seq<A> {
    terms_at_places(terms, simplified_places(terms))
}

/// The terms with those that their simplification leaves replaced by `values`.
pub open spec fn updated_from_simplified<A>(terms: Seq<A>, values: Seq<A>) -> Seq<A> {
    let places = simplified_places(terms);
    Seq::new(
        terms.len(),
        |i: int|
            if places.contains(i) {
                values[places.index_of(i)]
            } else {
                terms[i]
            },
    )
}

/// Whether places are different places among `len` terms, those of positive
/// and negative terms in turn, the first and the last of positive ones.
spec fn alternate(places: Seq<int>, len: nat) -> bool {
    &&& places.len() % 2 == 1
    &&& forall|k: int|
        0 <= k < places.len() ==> 0 <= #[trigger] places[k] < len && places[k] % 2 == k % 2
    &&& forall|i: int, j: int|
        0 <= i < j < places.len() ==> #[trigger] places[i] != #[trigger] places[j]
}

/// Whether no positive term at a place before `add` equals a negative term.
spec fn unmatched_before<A>(terms: Seq<A>, places: Seq<int>, add: int) -> bool {
    forall|i: int, j: int|
        0 <= i < add && i < places.len() && i % 2 == 0 && 0 <= j < places.len() && j % 2 == 1
            ==> terms[#[trigger] places[i]] != terms[#[trigger] places[j]]
}

proof fn lemma_equal_remove<A>(terms: Seq<A>, places: Seq<int>, value: A, from: int)
    requires
        from % 2 == 1,
        0 < from,
        places.len() % 2 == 1,
    ensures
        ({
            let remove = equal_remove(terms, places, value, from);
            &&& remove % 2 == 1
            &&& from <= remove
            &&& remove < places.len() ==> terms[places[remove]] == value && remove + 1
                < places.len()
            &&& remove >= places.len() ==> forall|j: int|
                from <= j < places.len() && j % 2 == 1 ==> terms[#[trigger] places[j]] != value
        }),
    decreases places.len() + 2 - from,
{
    if from < places.len() && terms[places[from]] != value {
        lemma_equal_remove(terms, places, value, from + 2);
        if equal_remove(terms, places, value, from) >= places.len() {
            assert forall|j: int| from <= j < places.len() && j % 2 == 1 implies terms[
                #[trigger] places[j]
            ] != value by {
                if j > from {
                    assert(from + 2 <= j);
                }
            }
        }
    }
}

proof fn lemma_without_pair<A>(
    terms: Seq<A>,
    places: Seq<int>,
    len: nat,
    add: int,
    remove: int,
)
    requires
        alternate(places, len),
        0 <= add < places.len(),
        add % 2 == 0,
        0 < remove < places.len() - 1,
        remove % 2 == 1,
        unmatched_before(terms, places, add),
    ensures
        ({
            let left = without_pair(places, add, remove);
            &&& left.len() == places.len() - 2
            &&& alternate(left, len)
            &&& unmatched_before(terms, left, add)
        }),
{
    let left = without_pair(places, add, remove);
    let from = |k: int|
        if k < remove {
            if k == add {
                remove + 1
            } else {
                k
            }
        } else {
            if k + 2 == add {
                remove + 1
            } else {
                k + 2
            }
        };
    assert forall|k: int| 0 <= k < left.len() implies {
        &&& #[trigger] left[k] == places[from(k)]
        &&& 0 <= from(k) < places.len()
        &&& from(k) % 2 == k % 2
    } by {}
    assert forall|i: int, j: int| 0 <= i < j < left.len() implies #[trigger] left[i]
        != #[trigger] left[j] by {
        assert(left[i] == places[from(i)]);
        assert(left[j] == places[from(j)]);
        assert(from(i) != from(j));
    }
    assert forall|i: int, j: int|
        0 <= i < add && i < left.len() && i % 2 == 0 && 0 <= j < left.len() && j % 2
            == 1 implies terms[#[trigger] left[i]] != terms[#[trigger] left[j]] by {
        assert(left[i] == places[from(i)]);
        assert(left[j] == places[from(j)]);
        assert(from(i) < add);
    }
}

proof fn lemma_unmatched_goes_on<A>(terms: Seq<A>, places: Seq<int>, add: int)
    requires
        0 <= add < places.len(),
        add % 2 == 0,
        places.len() % 2 == 1,
        unmatched_before(terms, places, add),
        equal_remove(terms, places, terms[places[add]], 1) + 1 >= places.len(),
    ensures
        unmatched_before(terms, places, add + 2),
{
    lemma_equal_remove(terms, places, terms[places[add]], 1);
    assert forall|i: int, j: int|
        0 <= i < add + 2 && i < places.len() && i % 2 == 0 && 0 <= j < places.len() && j % 2
            == 1 implies terms[#[trigger] places[i]] != terms[#[trigger] places[j]] by {
        if i >= add {
            assert(i == add);
        }
    }
}

proof fn lemma_places_left<A>(terms: Seq<A>, places: Seq<int>, add: nat)
    requires
        alternate(places, terms.len()),
        add % 2 == 0,
        unmatched_before(terms, places, add as int),
    ensures
        ({
            let left = places_left(terms, places, add);
            &&& alternate(left, terms.len())
            &&& left.len() <= places.len()
            &&& unmatched_before(terms, left, left.len() as int)
        }),
    decreases places.len() + 2 - add,
{
    if add < places.len() {
        let value = terms[places[add as int]];
        let remove = equal_remove(terms, places, value, 1);
        lemma_equal_remove(terms, places, value, 1);
        if remove + 1 < places.len() {
            lemma_without_pair(terms, places, terms.len(), add as int, remove);
            lemma_places_left(terms, without_pair(places, add as int, remove), add);
        } else {
            lemma_unmatched_goes_on(terms, places, add as int);
            lemma_places_left(terms, places, add + 2);
        }
    }
}

/// What is left of terms that alternate alternates too, and each term that is
/// left was a term of the same sign before. Different terms come from different
/// places.
pub proof fn law_simplified_places<A>(terms: Seq<A>)
    requires
        terms.len() % 2 == 1,
    ensures
        simplified(terms).len() == simplified_places(terms).len(),
        simplified(terms).len() % 2 == 1,
        simplified(terms).len() <= terms.len(),
        forall|k: int|
            #![trigger simplified_places(terms)[k]]
            #![trigger simplified(terms)[k]]
            0 <= k < simplified(terms).len() ==> {
                &&& 0 <= simplified_places(terms)[k] < terms.len()
                &&& simplified_places(terms)[k] % 2 == k % 2
                &&& simplified(terms)[k] == terms[simplified_places(terms)[k]]
            },
        simplified_places(terms).no_duplicates(),
{
    let all = Seq::new(terms.len(), |i: int| i);
    lemma_places_left(terms, all, 0);
}

/// No positive term that is left equals a negative term that is left.
pub proof fn law_simplified_has_no_pair<A>(terms: Seq<A>)
    requires
        terms.len() % 2 == 1,
    ensures
        forall|i: int, j: int|
            0 <= i < adds(simplified(terms)).len() && 0 <= j < removes(simplified(terms)).len()
                ==> #[trigger] adds(simplified(terms))[i] != #[trigger] removes(
                simplified(terms),
            )[j],
{
    let all = Seq::new(terms.len(), |i: int| i);
    let left = simplified_places(terms);
    lemma_places_left(terms, all, 0);
    assert forall|i: int, j: int|
        0 <= i < adds(simplified(terms)).len() && 0 <= j < removes(
            simplified(terms),
        ).len() implies #[trigger] adds(simplified(terms))[i] != #[trigger] removes(
        simplified(terms),
    )[j] by {
        assert(terms[left[2 * i]] != terms[left[2 * j + 1]]);
    }
}

/// Each term that is left as a positive term was a positive term, and each that
/// is left as a negative term was a negative term.
pub proof fn law_simplified_keeps_signs<A>(terms: Seq<A>)
    requires
        terms.len() % 2 == 1,
    ensures
        forall|k: int|
            0 <= k < adds(simplified(terms)).len() ==> adds(terms).contains(
                #[trigger] adds(simplified(terms))[k],
            ),
        forall|k: int|
            0 <= k < removes(simplified(terms)).len() ==> removes(terms).contains(
                #[trigger] removes(simplified(terms))[k],
            ),
{
    law_simplified_places(terms);
    let places = simplified_places(terms);
    assert forall|k: int| 0 <= k < adds(simplified(terms)).len() implies adds(terms).contains(
        #[trigger] adds(simplified(terms))[k],
    ) by {
        assert(simplified(terms)[2 * k] == terms[places[2 * k]]);
        assert(adds(terms)[places[2 * k] / 2] == terms[places[2 * k]]);
    }
    assert forall|k: int| 0 <= k < removes(simplified(terms)).len() implies removes(
        terms,
    ).contains(#[trigger] removes(simplified(terms))[k]) by {
        assert(simplified(terms)[2 * k + 1] == terms[places[2 * k + 1]]);
        assert(removes(terms)[places[2 * k + 1] / 2] == terms[places[2 * k + 1]]);
    }
}

proof fn lemma_pair_keeps_balance<A>(terms: Seq<A>, places: Seq<int>, add: int, remove: int)
    requires
        places.len() % 2 == 1,
        0 <= add < places.len(),
        add % 2 == 0,
        0 < remove < places.len() - 1,
        remove % 2 == 1,
        terms[places[add]] == terms[places[remove]],
    ensures
        ({
            let before = terms_at_places(terms, places);
            let after = terms_at_places(terms, without_pair(places, add, remove));
            adds(after).to_multiset().add(removes(before).to_multiset()) =~= adds(
                before,
            ).to_multiset().add(removes(after).to_multiset())
        }),
{
    let before = terms_at_places(terms, places);
    let after = terms_at_places(terms, without_pair(places, add, remove));
    let value = before[add];
    let last = (remove + 1) / 2;
    let moved = adds(before).update(add / 2, adds(before)[last]);
    assert(adds(after) =~= moved.remove(last));
    assert(removes(after) =~= removes(before).remove(remove / 2));
    to_multiset_update(adds(before), add / 2, adds(before)[last]);
    to_multiset_remove(moved, last);
    to_multiset_remove(removes(before), remove / 2);
    assert(removes(before)[remove / 2] == value);
    adds(before).to_multiset_ensures();
    removes(before).to_multiset_ensures();
    assert(adds(before).contains(adds(before)[add / 2]));
    assert(removes(before).contains(removes(before)[remove / 2]));
    assert(adds(after).to_multiset() =~= adds(before).to_multiset().remove(value));
}

proof fn lemma_balance<A>(terms: Seq<A>, places: Seq<int>, add: nat)
    requires
        alternate(places, terms.len()),
        add % 2 == 0,
        unmatched_before(terms, places, add as int),
    ensures
        ({
            let before = terms_at_places(terms, places);
            let after = terms_at_places(terms, places_left(terms, places, add));
            adds(after).to_multiset().add(removes(before).to_multiset()) =~= adds(
                before,
            ).to_multiset().add(removes(after).to_multiset())
        }),
    decreases places.len() + 2 - add,
{
    if add < places.len() {
        let value = terms[places[add as int]];
        let remove = equal_remove(terms, places, value, 1);
        lemma_equal_remove(terms, places, value, 1);
        if remove + 1 < places.len() {
            let next = without_pair(places, add as int, remove);
            lemma_without_pair(terms, places, terms.len(), add as int, remove);
            lemma_pair_keeps_balance(terms, places, add as int, remove);
            lemma_balance(terms, next, add);
            let a = adds(terms_at_places(terms, places)).to_multiset();
            let b = removes(terms_at_places(terms, places)).to_multiset();
            let c = adds(terms_at_places(terms, next)).to_multiset();
            let d = removes(terms_at_places(terms, next)).to_multiset();
            let left = terms_at_places(terms, places_left(terms, next, add));
            let e = adds(left).to_multiset();
            let f = removes(left).to_multiset();
            assert forall|x: A| #[trigger] e.add(b).count(x) == a.add(f).count(x) by {
                assert(c.add(b).count(x) == a.add(d).count(x));
                assert(e.add(d).count(x) == c.add(f).count(x));
            }
        } else {
            lemma_unmatched_goes_on(terms, places, add as int);
            lemma_balance(terms, places, add + 2);
        }
    }
}

/// Simplification cancels each positive term with one negative term: the
/// positive terms left and the negative terms before are together the positive
/// terms before and the negative terms left.
pub proof fn law_simplified_keeps_balance<A>(terms: Seq<A>)
    requires
        terms.len() % 2 == 1,
    ensures
        adds(simplified(terms)).to_multiset().add(removes(terms).to_multiset()) == adds(
            terms,
        ).to_multiset().add(removes(simplified(terms)).to_multiset()),
{
    let all = Seq::new(terms.len(), |i: int| i);
    lemma_balance(terms, all, 0);
    assert(terms_at_places(terms, all) =~= terms);
}

proof fn lemma_nothing_to_cancel<A>(terms: Seq<A>, places: Seq<int>, add: nat)
    requires
        places.len() % 2 == 1,
        add % 2 == 0,
        unmatched_before(terms, places, places.len() as int),
    ensures
        places_left(terms, places, add) == places,
    decreases places.len() + 2 - add,
{
    if add < places.len() {
        let value = terms[places[add as int]];
        lemma_equal_remove(terms, places, value, 1);
        let remove = equal_remove(terms, places, value, 1);
        if remove < places.len() {
            assert(terms[places[add as int]] != terms[places[remove]]);
        }
        lemma_nothing_to_cancel(terms, places, add + 2);
    }
}

/// Terms of which no positive one equals a negative one stay as they are, and
/// so do terms that are simplified already.
pub proof fn law_simplified_twice<A>(terms: Seq<A>)
    requires
        terms.len() % 2 == 1,
    ensures
        (forall|i: int, j: int|
            0 <= i < adds(terms).len() && 0 <= j < removes(terms).len() ==> #[trigger] adds(
                terms,
            )[i] != #[trigger] removes(terms)[j]) ==> simplified(terms) == terms,
        simplified(simplified(terms)) == simplified(terms),
{
    law_simplified_places(terms);
    law_simplified_has_no_pair(terms);
    if forall|i: int, j: int|
        0 <= i < adds(terms).len() && 0 <= j < removes(terms).len() ==> #[trigger] adds(terms)[i]
            != #[trigger] removes(terms)[j] {
        lemma_unpaired_stays(terms);
    }
    lemma_unpaired_stays(simplified(terms));
}

proof fn lemma_unpaired_stays<A>(terms: Seq<A>)
    requires
        terms.len() % 2 == 1,
        forall|i: int, j: int|
            0 <= i < adds(terms).len() && 0 <= j < removes(terms).len() ==> #[trigger] adds(
                terms,
            )[i] != #[trigger] removes(terms)[j],
    ensures
        simplified(terms) == terms,
{
    let all = Seq::new(terms.len(), |i: int| i);
    assert forall|i: int, j: int|
        0 <= i < all.len() && i % 2 == 0 && 0 <= j < all.len() && j % 2 == 1 implies terms[
        #[trigger] all[i]
    ] != terms[#[trigger] all[j]] by {
        assert(adds(terms)[i / 2] == terms[i]);
        assert(removes(terms)[j / 2] == terms[j]);
    }
    lemma_nothing_to_cancel(terms, all, 0);
    assert(simplified(terms) =~= terms);
}

/// Each new term has the place of the term that it replaces, and all other
/// terms stay as they are. New terms that are those that were left change
/// nothing.
pub proof fn law_updated_from_simplified<A>(terms: Seq<A>, values: Seq<A>)
    requires
        terms.len() % 2 == 1,
        values.len() == simplified(terms).len(),
    ensures
        forall|k: int|
            0 <= k < values.len() ==> updated_from_simplified(terms, values)[
                #[trigger] simplified_places(terms)[k]
            ] == values[k],
        forall|i: int|
            0 <= i < terms.len() && !simplified_places(terms).contains(i)
                ==> #[trigger] updated_from_simplified(terms, values)[i] == terms[i],
        updated_from_simplified(terms, values).len() == terms.len(),
        forall|k: int|
            0 <= k < values.len() ==> updated_from_simplified(terms, values).contains(
                #[trigger] values[k],
            ),
        values == simplified(terms) ==> updated_from_simplified(terms, values) == terms,
{
    law_simplified_places(terms);
    let places = simplified_places(terms);
    let updated = updated_from_simplified(terms, values);
    assert forall|k: int| 0 <= k < values.len() implies updated[#[trigger] places[k]]
        == values[k] by {
        assert(places.contains(places[k]));
        assert(places[places.index_of(places[k])] == places[k]);
    }
    assert forall|k: int| 0 <= k < values.len() implies updated.contains(
        #[trigger] values[k],
    ) by {
        assert(updated[places[k]] == values[k]);
    }
    if values == simplified(terms) {
        assert forall|i: int| 0 <= i < terms.len() implies updated[i] == terms[i] by {
            if places.contains(i) {
                let k = places.index_of(i);
                assert(simplified(terms)[k] == terms[places[k]]);
            }
        }
        assert(updated =~= terms);
    }
}

/// Whether two lists of terms have equal terms at the same places.
pub open spec fn same_pattern<A, B>(a: Seq<A>, b: Seq<B>) -> bool {
    &&& a.len() == b.len()
    &&& forall|i: int, j: int|
        #![trigger a[i], a[j]]
        0 <= i < a.len() && 0 <= j < a.len() ==> (a[i] == a[j] <==> b[i] == b[j])
}

proof fn lemma_same_remove<A, B>(
    a: Seq<A>,
    b: Seq<B>,
    places: Seq<int>,
    place: int,
    from: int,
)
    requires
        same_pattern(a, b),
        alternate(places, a.len()),
        0 <= place < a.len(),
        0 <= from,
    ensures
        equal_remove(a, places, a[place], from) == equal_remove(b, places, b[place], from),
    decreases places.len() + 2 - from,
{
    if from < places.len() {
        assert(a[places[from]] == a[place] <==> b[places[from]] == b[place]);
        lemma_same_remove(a, b, places, place, from + 2);
    }
}

proof fn lemma_same_places<A, B>(a: Seq<A>, b: Seq<B>, places: Seq<int>, add: nat)
    requires
        same_pattern(a, b),
        alternate(places, a.len()),
        add % 2 == 0,
        unmatched_before(a, places, add as int),
    ensures
        places_left(a, places, add) == places_left(b, places, add),
    decreases places.len() + 2 - add,
{
    if add < places.len() {
        let value = a[places[add as int]];
        let remove = equal_remove(a, places, value, 1);
        lemma_equal_remove(a, places, value, 1);
        lemma_same_remove(a, b, places, places[add as int], 1);
        if remove + 1 < places.len() {
            lemma_without_pair(a, places, a.len(), add as int, remove);
            lemma_same_places(a, b, without_pair(places, add as int, remove), add);
        } else {
            lemma_unmatched_goes_on(a, places, add as int);
            lemma_same_places(a, b, places, add + 2);
        }
    }
}

/// Which terms are left depends only on which terms are equal.
pub proof fn law_simplification_compares_only<A, B>(a: Seq<A>, b: Seq<B>)
    requires
        a.len() % 2 == 1,
        same_pattern(a, b),
    ensures
        simplified_places(a) == simplified_places(b),
{
    let all = Seq::new(a.len(), |i: int| i);
    assert(all =~= Seq::new(b.len(), |i: int| i));
    lemma_same_places(a, b, all, 0);
}

} // verus!
