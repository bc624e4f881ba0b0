//! Putting together what the active views answered to a submission.
//!
//! A submission goes to every active view. The caller sends it and waits for
//! all views; the functions here turn the answers into what the submitter gets.

use vstd::prelude::*;
use crate::block_map::{entry_keys, lemma_pairs_to_map, pairs_to_map, BlockMap};
use crate::hash::BlockHash;

verus! {

/// Why a watched submission came to nothing.
#[derive(Debug)]
pub enum WatchError<E> {
    /// There was no active view to submit to.
    NoViews,
    /// Every active view rejected the transaction; this is what the first said.
    Rejected(E),
}

/// Whether one of the views accepted the transaction.
pub open spec fn accepted_somewhere<E>(answers: Seq<Result<(), E>>) -> bool {
    exists|i: int| 0 <= i < answers.len() && answers[i] is Ok
}

/// What a watched submission comes to, given what each view answered: success
/// where one view accepted, else an error, which is the first view's where
/// there was a view.
pub open spec fn watch_outcome<E>(answers: Seq<Result<(), E>>) -> Result<(), WatchError<E>> {
    if accepted_somewhere(answers) {
        Ok(())
    } else if answers.len() == 0 {
        Err(WatchError::NoViews)
    } else {
        Err(WatchError::Rejected(answers[0]->Err_0))
    }
}

/// A watched submission succeeds exactly where one view accepted. Without
/// views it fails, and says so; where every view rejected it fails with what
/// the first view said.
pub proof fn lemma_watch_outcome<E>(answers: Seq<Result<(), E>>)
    ensures
        watch_outcome(answers) is Ok <==> accepted_somewhere(answers),
        answers.len() == 0 ==> watch_outcome(answers) == Err::<(), WatchError<E>>(
            WatchError::NoViews,
        ),
        watch_outcome(answers) matches Err(WatchError::Rejected(error)) ==> answers.len() > 0
            && answers[0] == Err::<(), E>(error) && forall|i: int|
            0 <= i < answers.len() ==> answers[i] is Err,
        watch_outcome(answers) matches Err(WatchError::NoViews) ==> answers.len() == 0,
{
    if !accepted_somewhere(answers) && answers.len() > 0 {
        assert(answers[0] is Err);
    }
}

/// Whether every view gave exactly one result.
pub open spec fn single_results<R>(results: Map<BlockHash, Vec<R>>) -> bool {
    forall|hash: BlockHash| #[trigger] results.contains_key(hash) ==> results[hash]@.len() == 1
}

/// The results of a batch submitted to every active view, by view. `answers`
/// holds, for each view, its block hash and what it said of each transaction.
pub fn submit_at<R>(answers: Vec<(BlockHash, Vec<R>)>) -> (results: BlockMap<Vec<R>>)
    ensures
        results.wf(),
        results@ == pairs_to_map(answers@),
        entry_keys(answers@).no_duplicates() ==> results.keys() == entry_keys(answers@),
{
    BlockMap::from_pairs(answers)
}

/// Answers of `n` distinct views that each say something of each of `m`
/// transactions give `n` entries with `m` results each.
pub proof fn lemma_submit_at_shape<R>(answers: Seq<(BlockHash, Vec<R>)>, n: nat, m: nat)
    requires
        entry_keys(answers).no_duplicates(),
        answers.len() == n,
        forall|i: int| 0 <= i < answers.len() ==> (#[trigger] answers[i]).1@.len() == m,
    ensures
        pairs_to_map(answers).dom().finite(),
        pairs_to_map(answers).dom().len() == n,
        forall|hash: BlockHash| #[trigger]
            pairs_to_map(answers).contains_key(hash) ==> pairs_to_map(answers)[hash]@.len() == m,
{
    lemma_pairs_to_map(answers);
    assert forall|hash: BlockHash| #[trigger]
        pairs_to_map(answers).contains_key(hash) implies pairs_to_map(answers)[hash]@.len()
        == m by {
        assert(entry_keys(answers).to_set().contains(hash));
        let i = choose|i: int| 0 <= i < answers.len() && entry_keys(answers)[i] == hash;
        assert(answers[i].0 == hash);
        assert(answers[i].1@.len() == m);
    }
}

/// Answers that come from the views of `views`, one from each in the order of
/// its keys, give an entry for each of those views and for no other block.
pub proof fn lemma_submit_at_covers_views<V, R>(views: BlockMap<V>, answers: Seq<(BlockHash, Vec<R>)>)
    requires
        views.wf(),
        entry_keys(answers) == views.keys(),
    ensures
        pairs_to_map(answers).dom() == views@.dom(),
        pairs_to_map(answers).dom().len() == views@.dom().len(),
        forall|i: int|
            0 <= i < answers.len() ==> pairs_to_map(answers)[views.keys()[i]]
                == (#[trigger] answers[i]).1,
{
    views.lemma_keys();
    lemma_pairs_to_map(answers);
    assert forall|i: int| 0 <= i < answers.len() implies pairs_to_map(answers)[views.keys()[i]]
        == (#[trigger] answers[i]).1 by {
        assert(entry_keys(answers)[i] == answers[i].0);
    }
}

/// Whether every view gave exactly one result, as a submission of one
/// transaction requires.
pub fn has_single_results<R>(results: &BlockMap<Vec<R>>) -> (single: bool)
    requires
        results.wf(),
    ensures
        single == single_results(results@),
{
    let mut i: usize = 0;
    while i < results.len()
        invariant
            results.wf(),
            i <= results.keys().len(),
            forall|j: int|
                0 <= j < i ==> results@[#[trigger] results.keys()[j]]@.len() == 1,
        decreases results.keys().len() - i,
    {
        if results.value_at(i).len() != 1 {
            return false;
        }
        i += 1;
    }
    proof {
        results.lemma_keys();
        assert forall|hash: BlockHash| #[trigger] results@.contains_key(hash) implies results@[hash]@.len()
            == 1 by {
            assert(results.keys().contains(hash));
            let j = choose|j: int| 0 <= j < results.keys().len() && results.keys()[j] == hash;
            assert(results@[results.keys()[j]]@.len() == 1);
        }
    }
    true
}

/// The results of one transaction submitted to every active view, by view:
/// the one result that each view gave.
pub fn submit_one<R>(results: BlockMap<Vec<R>>) -> (output: BlockMap<R>)
    requires
        results.wf(),
        single_results(results@),
    ensures
        output.wf(),
        output@.dom() == results@.dom(),
        forall|hash: BlockHash| #[trigger]
            results@.contains_key(hash) ==> output@[hash] == results@[hash]@[0],
        output.keys() == results.keys(),
{
    let ghost all = results@;
    let ghost all_keys = results.keys();
    let mut rest = results;
    let mut output: BlockMap<R> = BlockMap::new();
    proof {
        rest.lemma_keys();
        assert(all_keys.subrange(0, 0) =~= Seq::<BlockHash>::empty());
    }
    while rest.len() > 0
        invariant
            rest.wf(),
            output.wf(),
            single_results(all),
            output.keys().len() + rest.keys().len() == all_keys.len(),
            output.keys() == all_keys.subrange(0, output.keys().len() as int),
            rest.keys() == all_keys.subrange(output.keys().len() as int, all_keys.len() as int),
            all_keys.no_duplicates(),
            forall|hash: BlockHash| all_keys.contains(hash) <==> all.contains_key(hash),
            forall|hash: BlockHash| #[trigger]
                rest@.contains_key(hash) ==> all.contains_key(hash) && rest@[hash] == all[hash],
            forall|hash: BlockHash| #[trigger]
                output@.contains_key(hash) ==> all.contains_key(hash) && output@[hash]
                    == all[hash]@[0],
        decreases rest.keys().len(),
    {
        let ghost done = output.keys().len() as int;
        let ghost rest_keys = rest.keys();
        let (hash, mut result) = rest.remove_at(0);
        proof {
            output.lemma_keys();
            assert(hash == all_keys[done]);
            assert(result == all[hash]);
            if output@.contains_key(hash) {
                assert(output.keys().contains(hash));
                let j = choose|j: int| 0 <= j < done && output.keys()[j] == hash;
                assert(all_keys[j] == all_keys[done]);
            }
        }
        match result.pop() {
            Some(value) => {
                output.insert(hash, value);
            },
            None => {},
        }
        proof {
            assert(rest.keys() =~= all_keys.subrange(done + 1, all_keys.len() as int));
            assert(output.keys() =~= all_keys.subrange(0, done + 1));
        }
    }
    proof {
        output.lemma_keys();
        assert(output.keys() =~= all_keys);
        assert(output@.dom() =~= all.dom());
    }
    output
}

/// What a watched submission of one transaction comes to. `answers` holds, for
/// each active view, whether it accepted the transaction (and its status stream
/// was attached) or why it did not. The submission succeeds where one view
/// accepted. Where none did it fails: with what the first view said, or, where
/// there was no view, with `NoViews`.
pub fn submit_and_watch<E>(answers: Vec<Result<(), E>>) -> (outcome: Result<(), WatchError<E>>)
    ensures
        outcome == watch_outcome(answers@),
        outcome is Ok <==> accepted_somewhere(answers@),
{
    let mut i: usize = 0;
    while i < answers.len()
        invariant
            i <= answers@.len(),
            forall|j: int| 0 <= j < i ==> answers@[j] is Err,
        decreases answers@.len() - i,
    {
        if answers[i].is_ok() {
            return Ok(());
        }
        i += 1;
    }
    if answers.len() == 0 {
        return Err(WatchError::NoViews);
    }
    let mut answers = answers;
    match answers.swap_remove(0) {
        Err(error) => Err(WatchError::Rejected(error)),
        Ok(accepted) => Ok(accepted),
    }
}

} // verus!
