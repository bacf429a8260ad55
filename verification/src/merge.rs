//! Merges: alternating positive and negative terms.

use crate::simplification::{simplified, updated_from_simplified};
use vstd::prelude::*;

verus! {

/// A value that can be a term of a [`Merge`]. Contracts speak of its model.
pub trait Term: Sized {
    /// What the value stands for.
    type Model;

    /// What `self` stands for.
    spec fn model(&self) -> Self::Model;

    /// Whether two values stand for the same.
    fn same(&self, other: &Self) -> (same: bool)
        ensures
            same == (self.model() == other.model()),
    ;

    /// Another value that stands for the same.
    fn copy(&self) -> (copy: Self)
        ensures
            copy.model() == self.model(),
    ;
}

impl Term for Vec<u8> {
    type Model = Seq<u8>;

    open spec fn model(&self) -> Seq<u8> {
        self@
    }

    fn same(&self, other: &Self) -> (same: bool) {
        if self.len() != other.len() {
            return false;
        }
        for i in 0..self.len()
            invariant
                self.len() == other.len(),
                forall|j: int| 0 <= j < i ==> self@[j] == other@[j],
        {
            if self[i] != other[i] {
                return false;
            }
        }
        assert(self@ =~= other@);
        true
    }

    fn copy(&self) -> (copy: Self) {
        let copy = self.clone();
        assert(copy@ =~= self@);
        copy
    }
}

impl Term for String {
    type Model = Seq<char>;

    open spec fn model(&self) -> Seq<char> {
        self@
    }

    fn same(&self, other: &Self) -> (same: bool) {
        *self == *other
    }

    fn copy(&self) -> (copy: Self) {
        self.clone()
    }
}

impl<T: Term> Term for Option<T> {
    type Model = Option<T::Model>;

    open spec fn model(&self) -> Option<T::Model> {
        match self {
            Some(value) => Some(value.model()),
            None => None,
        }
    }

    fn same(&self, other: &Self) -> (same: bool) {
        match (self, other) {
            (Some(a), Some(b)) => a.same(b),
            (None, None) => true,
            _ => false,
        }
    }

    fn copy(&self) -> (copy: Self) {
        match self {
            Some(value) => Some(value.copy()),
            None => None,
        }
    }
}

/// The models of a sequence of values.
pub open spec fn models<T: Term>(values: Seq<T>) -> Seq<T::Model> {
    Seq::new(values.len(), |i: int| values[i].model())
}

/// The positive terms among alternating terms, of which the first is positive.
pub open spec fn adds<A>(terms: Seq<A>) -> Seq<A> {
    Seq::new(((terms.len() + 1) / 2) as nat, |k: int| terms[2 * k])
}

/// The negative terms among alternating terms, of which the first is positive.
pub open spec fn removes<A>(terms: Seq<A>) -> Seq<A> {
    Seq::new(terms.len() / 2, |k: int| terms[2 * k + 1])
}

/// The number of positive terms.
pub open spec fn num_sides<A>(terms: Seq<A>) -> nat {
    terms.len() / 2 + 1
}

/// Terms are what they are in their models: bytes, characters, or nothing.
pub proof fn law_model_of_terms(
    bytes: Vec<u8>,
    text: String,
    some: Option<Vec<u8>>,
    merge: Merge<Vec<u8>>,
    labels: Merge<String>,
)
    ensures
        bytes.model() == bytes@,
        text.model() == text@,
        match some {
            Some(bytes) => some.model() == Some(bytes@),
            None => some.model() is None,
        },
        merge@.len() == merge.values().len(),
        forall|i: int|
            0 <= i < merge.values().len() ==> #[trigger] merge@[i] == merge.values()[i]@,
        labels@.len() == labels.values().len(),
        forall|i: int|
            0 <= i < labels.values().len() ==> #[trigger] labels@[i] == labels.values()[i]@,
{
}

/// The positive terms stand at the even places and the negative terms at the
/// odd places; there is one positive term more.
pub proof fn law_terms_alternate<A>(terms: Seq<A>)
    requires
        terms.len() % 2 == 1,
    ensures
        adds(terms).len() == num_sides(terms) == removes(terms).len() + 1,
        adds(terms).len() + removes(terms).len() == terms.len(),
        forall|k: int| 0 <= k < adds(terms).len() ==> #[trigger] adds(terms)[k] == terms[2 * k],
        forall|k: int|
            0 <= k < removes(terms).len() ==> #[trigger] removes(terms)[k] == terms[2 * k + 1],
{
}

/// Alternating positive and negative terms, of which the first and the last
/// are positive. A merge of a single term is resolved.
#[derive(Debug)]
pub struct Merge<T> {
    pub(crate) values: Vec<T>,
}

impl<T: Term> View for Merge<T> {
    type V = Seq<T::Model>;

    open spec fn view(&self) -> Seq<T::Model> {
        models(self.values())
    }
}

impl<T> Merge<T> {
    /// The terms in order.
    pub closed spec fn values(self) -> Seq<T> {
        self.values@
    }

    /// Whether the number of terms is odd, so that the terms can alternate.
    pub open spec fn wf(self) -> bool {
        self.values().len() % 2 == 1
    }

    /// The number of terms can be counted in a `usize`.
    pub proof fn lemma_len(self)
        ensures
            self.values().len() <= usize::MAX,
    {
        assert(self.values.len() == self.values@.len());
    }

    /// A merge of the given terms.
    pub fn from_vec(values: Vec<T>) -> (merge: Self)
        requires
            values@.len() % 2 == 1,
        ensures
            merge.values() == values@,
            merge.wf(),
    {
        Merge { values }
    }

    /// A merge of a single term.
    pub fn resolved(value: T) -> (merge: Self)
        ensures
            merge.values() == seq![value],
            merge.wf(),
    {
        Merge { values: vec![value] }
    }

    /// The number of terms.
    pub fn len(&self) -> (len: usize)
        ensures
            len == self.values().len(),
    {
        self.values.len()
    }

    /// The number of positive terms.
    pub fn num_sides(&self) -> (sides: usize)
        ensures
            sides == num_sides(self.values()),
    {
        self.values.len() / 2 + 1
    }

    /// Whether there is only one term.
    pub fn is_resolved(&self) -> (resolved: bool)
        ensures
            resolved == (self.values().len() == 1),
    {
        self.values.len() == 1
    }

    /// The term at `index`, positive and negative terms counted together.
    pub fn get(&self, index: usize) -> (term: Option<&T>)
        ensures
            match term {
                Some(value) => index < self.values().len() && *value == self.values()[index as int],
                None => index >= self.values().len(),
            },
    {
        if index < self.values.len() {
            Some(&self.values[index])
        } else {
            None
        }
    }

    /// The positive term at `index` among the positive terms.
    pub fn get_add(&self, index: usize) -> (term: Option<&T>)
        ensures
            match term {
                Some(value) => index < adds(self.values()).len() && *value == adds(
                    self.values(),
                )[index as int],
                None => index >= adds(self.values()).len(),
            },
    {
        if index < self.values.len() && index <= (self.values.len() - 1) / 2 {
            Some(&self.values[2 * index])
        } else {
            None
        }
    }

    /// The negative term at `index` among the negative terms.
    pub fn get_remove(&self, index: usize) -> (term: Option<&T>)
        ensures
            match term {
                Some(value) => index < removes(self.values()).len() && *value == removes(
                    self.values(),
                )[index as int],
                None => index >= removes(self.values()).len(),
            },
    {
        if index < self.values.len() / 2 {
            Some(&self.values[2 * index + 1])
        } else {
            None
        }
    }

    /// The terms in order.
    pub fn into_vec(self) -> (values: Vec<T>)
        ensures
            values@ == self.values(),
    {
        self.values
    }
}

impl<T: Term> Merge<T> {
    /// Whether two merges have the same terms.
    pub fn same(&self, other: &Self) -> (same: bool)
        ensures
            same == (self@ == other@),
    {
        if self.values.len() != other.values.len() {
            assert(self@.len() != other@.len());
            return false;
        }
        for i in 0..self.values.len()
            invariant
                self.values@.len() == other.values@.len(),
                self@ == models(self.values@),
                other@ == models(other.values@),
                forall|j: int| 0 <= j < i ==> self@[j] == other@[j],
        {
            if !self.values[i].same(&other.values[i]) {
                assert(self@[i as int] != other@[i as int]);
                return false;
            }
        }
        assert(self@ =~= other@);
        true
    }

    /// A merge of the same terms.
    pub fn copy(&self) -> (copy: Self)
        ensures
            copy@ == self@,
            copy.values().len() == self.values().len(),
    {
        let mut values: Vec<T> = Vec::new();
        for i in 0..self.values.len()
            invariant
                values@.len() == i,
                forall|j: int| 0 <= j < i ==> values@[j].model() == self.values@[j].model(),
        {
            values.push(self.values[i].copy());
        }
        let copy = Merge { values };
        assert(copy@ =~= self@);
        copy
    }
}

/// Calls `jj_lib::merge::Merge::simplify`.
///
/// Trusted: going through the positive terms, each one that equals a negative
/// term is cancelled with the first such negative term; the positive term that
/// follows the negative one takes its place and is looked at next.
#[verifier::external_body]
pub(crate) fn simplify(merge: &Merge<Option<Vec<u8>>>) -> (left: Merge<Option<Vec<u8>>>)
    requires
        merge.wf(),
    ensures
        left@ == simplified(merge@),
{
    let terms = jj_lib::merge::Merge::from_vec(merge.values.clone());
    Merge { values: terms.simplify().into_iter().collect() }
}

/// Calls `jj_lib::merge::Merge::update_from_simplified`, which panics unless
/// there are as many new terms as the simplification leaves.
///
/// Trusted: each new term replaces the term that the simplification leaves in
/// its position, and all other terms stay.
#[verifier::external_body]
pub(crate) fn update_from_simplified(
    unsimplified: &Merge<Option<Vec<u8>>>,
    terms: Merge<Option<Vec<u8>>>,
) -> (updated: Merge<Option<Vec<u8>>>)
    requires
        unsimplified.wf(),
        terms@.len() == simplified(unsimplified@).len(),
    ensures
        updated@ == updated_from_simplified(unsimplified@, terms@),
{
    let unsimplified = jj_lib::merge::Merge::from_vec(unsimplified.values.clone());
    let terms = jj_lib::merge::Merge::from_vec(terms.values);
    Merge { values: unsimplified.update_from_simplified(terms).into_iter().collect() }
}

} // verus!
