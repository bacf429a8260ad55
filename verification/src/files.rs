//! File contents split into hunks and put together again.

use crate::merge::Merge;
use jj_lib::files;
use jj_lib::merge::Merge as SourceMerge;
use vstd::prelude::*;

verus! {

/// Whether a change that all sides make resolves a conflict.
#[derive(Copy, Clone, Debug, PartialEq, Eq, Structural)]
pub enum SameChange {
    /// The conflict stays.
    Keep,
    /// The change is taken.
    Accept,
}

/// What contents are split into when they are merged.
#[derive(Copy, Clone, Debug, PartialEq, Eq, Structural)]
pub enum FileMergeHunkLevel {
    /// Lines.
    Line,
    /// Words.
    Word,
}

/// How contents are merged.
#[derive(Copy, Clone, Debug, PartialEq, Eq, Structural)]
pub struct MergeOptions {
    /// What contents are split into.
    pub hunk_level: FileMergeHunkLevel,
    /// Whether a change that all sides make resolves a conflict.
    pub same_change: SameChange,
}

/// Contents that are merged as far as they can be.
#[derive(Debug)]
pub enum MergeResult {
    /// The merged contents.
    Resolved(Vec<u8>),
    /// Hunks, of which some are conflicts and the others have a single term.
    Conflict(Vec<Merge<Vec<u8>>>),
}

/// What a [`MergeResult`] stands for.
pub enum MergeResultView {
    Resolved(Seq<u8>),
    Conflict(Seq<Seq<Seq<u8>>>),
}

/// The terms of each hunk.
pub open spec fn hunk_terms(hunks: Seq<Merge<Vec<u8>>>) -> Seq<Seq<Seq<u8>>> {
    Seq::new(hunks.len(), |i: int| hunks[i]@)
}

impl View for MergeResult {
    type V = MergeResultView;

    open spec fn view(&self) -> MergeResultView {
        match self {
            MergeResult::Resolved(contents) => MergeResultView::Resolved(contents@),
            MergeResult::Conflict(hunks) => MergeResultView::Conflict(hunk_terms(hunks@)),
        }
    }
}

impl MergeResultView {
    /// Whether each hunk has one term or `len` terms, and some hunk has more
    /// than one.
    pub open spec fn fits(self, len: nat) -> bool {
        match self {
            MergeResultView::Resolved(_) => true,
            MergeResultView::Conflict(hunks) => {
                &&& forall|i: int|
                    0 <= i < hunks.len() ==> (#[trigger] hunks[i]).len() == 1 || hunks[i].len()
                        == len
                &&& exists|i: int| 0 <= i < hunks.len() && (#[trigger] hunks[i]).len() != 1
            },
        }
    }
}

/// The hunks that `contents` splits into, as `jj_lib::files::merge_hunks`
/// splits and merges them.
pub uninterp spec fn merged_hunks(
    contents: Seq<Seq<u8>>,
    options: MergeOptions,
) -> MergeResultView;

/// Calls `jj_lib::files::merge_hunks`.
///
/// Trusted: the result is `merged_hunks` of the contents and the options; each
/// hunk has one term, or as many terms as the contents have; if there are
/// hunks, some hunk has more than one term.
#[verifier::external_body]
pub(crate) fn merge_hunks(contents: &Merge<Vec<u8>>, options: MergeOptions) -> (result: MergeResult)
    requires
        contents.wf(),
    ensures
        result@ == merged_hunks(contents@, options),
        result@.fits(contents@.len()),
{
    let options = jj_lib::tree_merge::MergeOptions {
        hunk_level: match options.hunk_level {
            FileMergeHunkLevel::Line => files::FileMergeHunkLevel::Line,
            FileMergeHunkLevel::Word => files::FileMergeHunkLevel::Word,
        },
        same_change: match options.same_change {
            SameChange::Keep => jj_lib::merge::SameChange::Keep,
            SameChange::Accept => jj_lib::merge::SameChange::Accept,
        },
    };
    let hunk = |hunk: SourceMerge<_>| Merge { values: hunk.into_iter().map(Vec::from).collect() };
    match files::merge_hunks(&SourceMerge::from_vec(contents.values.clone()), &options) {
        files::MergeResult::Resolved(contents) => MergeResult::Resolved(contents.into()),
        files::MergeResult::Conflict(hunks) => MergeResult::Conflict(hunks.into_iter().map(hunk).collect()),
    }
}

/// What a hunk adds to the term `k`: a hunk of a single term adds the same to
/// every term.
pub open spec fn hunk_part(hunk: Seq<Seq<u8>>, k: int) -> Seq<u8> {
    if hunk.len() == 1 {
        hunk[0]
    } else {
        hunk[k]
    }
}

/// What the hunks add to the term `k`, one after the other.
pub open spec fn joined_term(hunks: Seq<Seq<Seq<u8>>>, k: int) -> Seq<u8>
    decreases hunks.len(),
{
    if hunks.len() == 0 {
        Seq::empty()
    } else {
        joined_term(hunks.drop_last(), k) + hunk_part(hunks.last(), k)
    }
}

/// The number of terms of the hunks together: one if every hunk has one.
pub open spec fn joined_len(hunks: Seq<Seq<Seq<u8>>>) -> nat
    decreases hunks.len(),
{
    if hunks.len() == 0 {
        1
    } else if hunks.last().len() != 1 {
        hunks.last().len()
    } else {
        joined_len(hunks.drop_last())
    }
}

/// The hunks put together to one merge.
pub open spec fn joined(hunks: Seq<Seq<Seq<u8>>>) -> Seq<Seq<u8>> {
    Seq::new(joined_len(hunks), |k: int| joined_term(hunks, k))
}

/// Whether each hunk has one term or `len` terms.
pub open spec fn uniform(hunks: Seq<Seq<Seq<u8>>>, len: nat) -> bool {
    forall|i: int|
        0 <= i < hunks.len() ==> (#[trigger] hunks[i]).len() == 1 || hunks[i].len() == len
}

/// The number of terms of uniform hunks together.
pub proof fn lemma_joined_len(hunks: Seq<Seq<Seq<u8>>>, len: nat)
    requires
        uniform(hunks, len),
    ensures
        joined_len(hunks) == 1 || joined_len(hunks) == len,
        joined_len(hunks) == 1 <==> (forall|i: int|
            0 <= i < hunks.len() ==> (#[trigger] hunks[i]).len() == 1),
        uniform(hunks, joined_len(hunks)),
    decreases hunks.len(),
{
    if hunks.len() > 0 {
        let rest = hunks.drop_last();
        assert(hunks[hunks.len() - 1].len() == 1 || hunks[hunks.len() - 1].len() == len);
        assert forall|i: int| 0 <= i < rest.len() implies (#[trigger] rest[i]).len() == 1
            || rest[i].len() == len by {
            assert(hunks[i].len() == 1 || hunks[i].len() == len);
        }
        lemma_joined_len(rest, len);
        if hunks.last().len() == 1 && joined_len(rest) == 1 {
            assert forall|i: int| 0 <= i < hunks.len() implies (#[trigger] hunks[i]).len() == 1 by {
                if i < rest.len() {
                    assert(rest[i].len() == 1);
                }
            }
        }
        if forall|i: int| 0 <= i < hunks.len() ==> (#[trigger] hunks[i]).len() == 1 {
            assert forall|i: int| 0 <= i < rest.len() implies (#[trigger] rest[i]).len() == 1 by {
                assert(hunks[i].len() == 1);
            }
        }
    }
}

/// Puts hunks together to one merge. Hunks of a single term become part of
/// every term.
pub fn from_hunks(hunks: &Vec<Merge<Vec<u8>>>) -> (merge: Merge<Vec<u8>>)
    requires
        joined_len(hunk_terms(hunks@)) % 2 == 1,
        uniform(hunk_terms(hunks@), joined_len(hunk_terms(hunks@))),
    ensures
        merge@ == joined(hunk_terms(hunks@)),
        merge.wf(),
{
    let ghost all = hunk_terms(hunks@);
    let ghost len = joined_len(all);
    let mut num_terms: usize = 1;
    for i in 0..hunks.len()
        invariant
            all == hunk_terms(hunks@),
            num_terms == joined_len(all.take(i as int)),
    {
        assert(all.take(i + 1).drop_last() =~= all.take(i as int));
        if !hunks[i].is_resolved() {
            num_terms = hunks[i].len();
        }
    }
    assert(all.take(all.len() as int) =~= all);
    proof {
        lemma_joined_len(all, len);
    }
    let mut terms: Vec<Vec<u8>> = Vec::new();
    for k in 0..num_terms
        invariant
            all == hunk_terms(hunks@),
            uniform(all, len),
            num_terms == len == joined_len(all),
            num_terms == 1 ==> forall|i: int| 0 <= i < all.len() ==> (#[trigger] all[i]).len() == 1,
            terms@.len() == k,
            forall|j: int| 0 <= j < k ==> (#[trigger] terms@[j])@ == joined_term(all, j),
    {
        let mut term: Vec<u8> = Vec::new();
        for i in 0..hunks.len()
            invariant
                all == hunk_terms(hunks@),
                uniform(all, len),
                k < num_terms,
                num_terms == len,
                num_terms == 1 ==> forall|i: int|
                    0 <= i < all.len() ==> (#[trigger] all[i]).len() == 1,
                term@ == joined_term(all.take(i as int), k as int),
        {
            assert(all.take(i + 1).drop_last() =~= all.take(i as int));
            assert(all[i as int].len() == 1 || all[i as int].len() == len);
            let hunk = &hunks[i];
            let part = if hunk.is_resolved() {
                hunk.get(0).unwrap()
            } else {
                hunk.get(k).unwrap()
            };
            let ghost before = term@;
            term.extend_from_slice(part.as_slice());
            assert(term@ =~= before + part@);
        }
        assert(all.take(all.len() as int) =~= all);
        terms.push(term);
    }
    let merge = Merge::from_vec(terms);
    assert(merge@ =~= joined(all));
    merge
}

/// Hunks put together have one term if all of them have one, and else as many
/// as any hunk that has more. Each term is what the hunks have there, one after
/// the other; a hunk of a single term has it everywhere.
pub proof fn law_joined_hunks(hunks: Seq<Seq<Seq<u8>>>, len: nat, k: int)
    requires
        forall|i: int|
            0 <= i < hunks.len() ==> (#[trigger] hunks[i]).len() == 1 || hunks[i].len() == len,
    ensures
        (forall|i: int| 0 <= i < hunks.len() ==> (#[trigger] hunks[i]).len() == 1) ==> joined(
            hunks,
        ).len() == 1,
        (exists|i: int| 0 <= i < hunks.len() && (#[trigger] hunks[i]).len() != 1) ==> joined(
            hunks,
        ).len() == len,
        0 <= k < joined(hunks).len() ==> joined(hunks)[k] == Seq::new(
            hunks.len(),
            |i: int|
                if hunks[i].len() == 1 {
                    hunks[i][0]
                } else {
                    hunks[i][k]
                },
        ).flatten(),
{
    lemma_joined_len(hunks, len);
    lemma_joined_term(hunks, k);
}

proof fn lemma_joined_term(hunks: Seq<Seq<Seq<u8>>>, k: int)
    ensures
        joined_term(hunks, k) == Seq::new(
            hunks.len(),
            |i: int|
                if hunks[i].len() == 1 {
                    hunks[i][0]
                } else {
                    hunks[i][k]
                },
        ).flatten(),
    decreases hunks.len(),
{
    let parts = |hunks: Seq<Seq<Seq<u8>>>|
        Seq::new(
            hunks.len(),
            |i: int|
                if hunks[i].len() == 1 {
                    hunks[i][0]
                } else {
                    hunks[i][k]
                },
        );
    if hunks.len() > 0 {
        let rest = hunks.drop_last();
        lemma_joined_term(rest, k);
        let part = parts(hunks).last();
        assert(parts(hunks) =~= parts(rest).push(part));
        parts(rest).lemma_flatten_push(part);
    } else {
        assert(parts(hunks) =~= Seq::empty());
    }
}

} // verus!
