//! Labels for the terms of a conflict.

use crate::merge::Merge;
use crate::simplification::{
    law_simplified_places, simplified, simplified_places, terms_at_places,
};
use crate::text::{decimal, decimal_string};
use vstd::prelude::*;

verus! {

/// The label at `index`, or none if there is no label or an empty one.
pub open spec fn label_at(labels: Seq<Seq<char>>, index: int) -> Option<Seq<char>> {
    if 0 <= index < labels.len() && labels[index].len() > 0 {
        Some(labels[index])
    } else {
        None
    }
}

/// The label of the positive term at `index`: its own, or its number.
pub open spec fn add_label(labels: Seq<Seq<char>>, index: int) -> Seq<char> {
    match label_at(labels, 2 * index) {
        Some(label) => label,
        None => "side #"@ + decimal((index + 1) as nat),
    }
}

/// The label of the negative term at `index`: its own, or its number.
pub open spec fn remove_label(labels: Seq<Seq<char>>, index: int) -> Seq<char> {
    match label_at(labels, 2 * index + 1) {
        Some(label) => label,
        None => "base #"@ + decimal((index + 1) as nat),
    }
}

/// The label of the term at `index`, positive and negative terms counted
/// together.
pub open spec fn term_label(labels: Seq<Seq<char>>, index: int) -> Seq<char> {
    if index % 2 == 0 {
        add_label(labels, index / 2)
    } else {
        remove_label(labels, index / 2)
    }
}

/// The single empty label that stands for a conflict without labels.
pub open spec fn no_labels() -> Seq<Seq<char>> {
    seq![Seq::<char>::empty()]
}

/// Whether some term has a label. A single term needs none.
pub open spec fn has_labels(labels: Seq<Seq<char>>) -> bool {
    labels.len() > 1 && exists|i: int| 0 <= i < labels.len() && (#[trigger] labels[i]).len() > 0
}

/// The labels, or none if no term has one.
pub open spec fn normalized_labels(labels: Seq<Seq<char>>) -> Seq<Seq<char>> {
    if has_labels(labels) {
        labels
    } else {
        no_labels()
    }
}

/// Labels for the terms of a conflict, in the order of the terms. A single
/// empty label stands for a conflict without labels.
#[derive(Debug)]
pub struct ConflictLabels {
    labels: Merge<String>,
}

impl View for ConflictLabels {
    type V = Seq<Seq<char>>;

    closed spec fn view(&self) -> Seq<Seq<char>> {
        self.labels@
    }
}

impl ConflictLabels {
    /// Whether there is an odd number of labels, and some label unless there
    /// are no labels at all.
    pub open spec fn wf(self) -> bool {
        self@.len() % 2 == 1 && (has_labels(self@) || self@ == no_labels())
    }

    /// Labels for the terms of a conflict. Labels that are all empty, and the
    /// label of a single term, are dropped.
    pub fn from_merge(labels: Merge<String>) -> (result: Self)
        requires
            labels.wf(),
        ensures
            result@ == normalized_labels(labels@),
            result.wf(),
    {
        let len = labels.len();
        if len == 1 {
            return Self::unlabeled();
        }
        for i in 0..len
            invariant
                labels.wf(),
                1 < len == labels@.len(),
                forall|j: int| 0 <= j < i ==> (#[trigger] labels@[j]).len() == 0,
        {
            if let Some(label) = labels.get(i) {
                if !label.as_str().is_empty() {
                    assert(labels@[i as int].len() > 0);
                    return ConflictLabels { labels };
                }
            }
        }
        Self::unlabeled()
    }

    /// No labels.
    pub fn unlabeled() -> (result: Self)
        ensures
            result@ == no_labels(),
            result.wf(),
    {
        let labels: Merge<String> = Merge::resolved(String::new());
        assert(labels@ =~= no_labels());
        ConflictLabels { labels }
    }

    /// The labels as a merge.
    pub fn as_merge(&self) -> (labels: &Merge<String>)
        ensures
            labels@ == self@,
    {
        &self.labels
    }

    /// The same labels.
    pub fn copy(&self) -> (copy: Self)
        ensures
            copy@ == self@,
    {
        ConflictLabels { labels: self.labels.copy() }
    }

    /// The label of the positive term at `index`, or `side #` and its number.
    pub fn get_add_or_default(&self, index: usize) -> (label: String)
        requires
            index < usize::MAX,
        ensures
            label@ == add_label(self@, index as int),
    {
        match self.labels.get_add(index) {
            Some(label) if !label.as_str().is_empty() => {
                label.clone()
            },
            _ => {
                let mut label = "side #".to_owned();
                label.append(decimal_string(index + 1).as_str());
                label
            },
        }
    }

    /// The label of the negative term at `index`, or `base #` and its number.
    pub fn get_remove_or_default(&self, index: usize) -> (label: String)
        requires
            index < usize::MAX,
        ensures
            label@ == remove_label(self@, index as int),
    {
        match self.labels.get_remove(index) {
            Some(label) if !label.as_str().is_empty() => {
                label.clone()
            },
            _ => {
                let mut label = "base #".to_owned();
                label.append(decimal_string(index + 1).as_str());
                label
            },
        }
    }

    /// The label of the term at `index`, positive and negative terms counted
    /// together, or the default label of that term.
    pub fn get_or_default(&self, index: usize) -> (label: String)
        ensures
            label@ == term_label(self@, index as int),
    {
        if index % 2 == 0 {
            self.get_add_or_default(index / 2)
        } else {
            self.get_remove_or_default(index / 2)
        }
    }
}

/// The labels of the terms that are left when equal positive and negative terms
/// are cancelled.
pub open spec fn simplified_labels<A>(labels: Seq<Seq<char>>, terms: Seq<A>) -> Seq<Seq<char>> {
    if labels.len() > 1 {
        normalized_labels(terms_at_places(labels, simplified_places(terms)))
    } else {
        no_labels()
    }
}

/// Calls `jj_lib::conflict_labels::ConflictLabels::simplify_with`, which panics
/// if there are labels, but not one for each term.
///
/// Trusted: the terms are simplified as `jj_lib::merge::Merge::simplify`
/// simplifies them, the labels of the terms that are left are kept in the same
/// order, and they are dropped if all of them are empty or only one is left.
#[verifier::external_body]
pub(crate) fn simplify_with(labels: &ConflictLabels, terms: Vec<usize>) -> (left: (
    ConflictLabels,
    Vec<usize>,
))
    requires
        labels.wf(),
        terms@.len() % 2 == 1,
        labels@.len() == 1 || labels@.len() == terms@.len(),
    ensures
        left.0@ == simplified_labels(labels@, terms@),
        left.1@ == simplified(terms@),
{
    let terms = jj_lib::merge::Merge::from_vec(terms);
    let labels = jj_lib::merge::Merge::from_vec(labels.labels.values.clone());
    let labels = jj_lib::conflict_labels::ConflictLabels::from_merge(labels);
    let (labels, terms) = labels.simplify_with(&terms);
    let labels = Merge { values: labels.into_merge().into_iter().collect() };
    (ConflictLabels { labels }, terms.into_iter().collect())
}

/// The labels that are left are labels for the terms that are left: there are
/// none, or one for each, and then each term that is left has the label that it
/// had before.
pub proof fn law_simplified_labels<A>(labels: Seq<Seq<char>>, terms: Seq<A>)
    requires
        terms.len() % 2 == 1,
        labels.len() == 1 || labels.len() == terms.len(),
    ensures
        simplified_labels(labels, terms) == no_labels() || {
            &&& simplified_labels(labels, terms).len() == simplified(terms).len()
            &&& has_labels(simplified_labels(labels, terms))
            &&& forall|k: int|
                #![trigger simplified_labels(labels, terms)[k]]
                #![trigger simplified(terms)[k]]
                0 <= k < simplified(terms).len() ==> {
                    let place = simplified_places(terms)[k];
                    &&& simplified_labels(labels, terms)[k] == labels[place]
                    &&& simplified(terms)[k] == terms[place]
                }
        },
{
    law_simplified_places(terms);
}

/// Labels are kept as they are if there are several and one of them is not
/// empty, and else dropped.
pub proof fn law_kept_labels(labels: Seq<Seq<char>>)
    ensures
        ({
            let any = exists|i: int| 0 <= i < labels.len() && (#[trigger] labels[i]).len() > 0;
            &&& labels.len() > 1 && any ==> normalized_labels(labels) == labels
            &&& labels.len() <= 1 || !any ==> {
                &&& normalized_labels(labels).len() == 1
                &&& normalized_labels(labels)[0].len() == 0
            }
        }),
{
}

} // verus!
