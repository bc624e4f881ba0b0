//! What holds of the view store's operations, stated over its state.

use vstd::prelude::*;
use crate::hash::BlockHash;
use crate::store::{answers_lookup, retired_views, PoolView, StoreState};
use crate::tree_route::TreeRoute;

verus! {

/// The state after the views of `steps` were inserted one after the other,
/// each along its route.
pub open spec fn after_insertions<P>(
    state: StoreState<P>,
    steps: Seq<(PoolView<P>, TreeRoute)>,
) -> StoreState<P>
    decreases steps.len(),
{
    if steps.len() == 0 {
        state
    } else {
        after_insertions(state, steps.drop_last()).insert_new_view(steps.last().0, steps.last().1)
    }
}

/// A store without views has no block with both an active and a retracted view.
pub proof fn lemma_empty_is_disjoint<P>()
    ensures
        StoreState::<P>::empty().disjoint(),
        StoreState::<P>::empty().wf(),
{
}

/// An insertion keeps the active and the retracted views apart: where no
/// block had a view in both maps before, none has after.
pub proof fn lemma_insert_keeps_disjoint<P>(
    state: StoreState<P>,
    view: PoolView<P>,
    route: TreeRoute,
)
    requires
        state.disjoint(),
    ensures
        state.insert_new_view(view, route).disjoint(),
{
    let after = state.insert_new_view(view, route);
    assert forall|h: BlockHash|
        !(after.views.dom().contains(h) && after.retracted_views.dom().contains(h)) by {
        if after.views.dom().contains(h) && after.retracted_views.dom().contains(h) {
            assert(state.views.dom().contains(h));
            assert(!state.retracted_views.dom().contains(h));
        }
    }
}

/// Through any run of insertions, no block ever has both an active and a
/// retracted view, if none had at the start.
pub proof fn lemma_insertions_keep_disjoint<P>(
    state: StoreState<P>,
    steps: Seq<(PoolView<P>, TreeRoute)>,
    k: int,
)
    requires
        state.disjoint(),
        0 <= k <= steps.len(),
    ensures
        after_insertions(state, steps.subrange(0, k)).disjoint(),
    decreases k,
{
    if k > 0 {
        lemma_insertions_keep_disjoint(state, steps, k - 1);
        let done = steps.subrange(0, k - 1);
        let next = steps.subrange(0, k);
        assert(next.drop_last() =~= done);
        assert(next.last() == steps[k - 1]);
        lemma_insert_keeps_disjoint(after_insertions(state, done), steps[k - 1].0, steps[k - 1].1);
    }
}

/// After an insertion the new view is active under its block's hash, and it is
/// the most recent view. The state stays sound.
pub proof fn lemma_insert_installs<P>(state: StoreState<P>, view: PoolView<P>, route: TreeRoute)
    ensures
        state.insert_new_view(view, route).views.contains_key(view.at.hash),
        state.insert_new_view(view, route).views[view.at.hash] == view,
        state.insert_new_view(view, route).most_recent_view == Some(view.at.hash),
        !state.insert_new_view(view, route).retracted_views.contains_key(view.at.hash),
        state.wf() ==> state.insert_new_view(view, route).wf(),
{
    let after = state.insert_new_view(view, route);
    if state.wf() {
        let gone = route.superseded().to_set();
        assert(after.views.dom() =~= state.views.dom().difference(gone).insert(view.at.hash));
        assert(after.retracted_views.dom() =~= state.retracted_views.dom().union(
            state.views.dom().intersect(gone),
        ).remove(view.at.hash));
        vstd::set_lib::lemma_set_subset_finite(
            state.views.dom(),
            state.views.dom().difference(gone),
        );
        vstd::set_lib::lemma_set_subset_finite(
            state.views.dom(),
            state.views.dom().intersect(gone),
        );
        vstd::set_lib::lemma_set_union_finite_iff(
            state.retracted_views.dom(),
            state.views.dom().intersect(gone),
        );
    }
}

/// After an insertion every superseded block that had an active view, but
/// for the new view's own block, has that view among the retracted ones.
pub proof fn lemma_insert_retires<P>(
    state: StoreState<P>,
    view: PoolView<P>,
    route: TreeRoute,
    hash: BlockHash,
)
    requires
        route.superseded().contains(hash),
        state.views.contains_key(hash),
        hash != view.at.hash,
    ensures
        state.insert_new_view(view, route).retracted_views.contains_key(hash),
        state.insert_new_view(view, route).retracted_views[hash] == state.views[hash],
        !state.insert_new_view(view, route).views.contains_key(hash),
{
}

/// The hashes that an insertion reports are those of the views that it moved
/// to the retracted views: each is a superseded block that had an active view,
/// has that view as its retracted view afterwards, and has no active view. Each
/// such block is reported, and none twice.
pub proof fn lemma_retired_are_retracted<P>(
    state: StoreState<P>,
    view: PoolView<P>,
    route: TreeRoute,
)
    ensures
        state.retired_by(view, route).no_duplicates(),
        forall|hash: BlockHash| #[trigger]
            state.retired_by(view, route).contains(hash) ==> {
                &&& route.superseded().contains(hash)
                &&& state.views.contains_key(hash)
                &&& state.insert_new_view(view, route).retracted_views.contains_key(hash)
                &&& state.insert_new_view(view, route).retracted_views[hash] == state.views[hash]
                &&& !state.insert_new_view(view, route).views.contains_key(hash)
            },
        forall|hash: BlockHash|
            #[trigger] route.superseded().contains(hash) && state.views.contains_key(hash) && hash
                != view.at.hash ==> state.retired_by(view, route).contains(hash),
{
    lemma_retired_views(state.views.dom().remove(view.at.hash), route.superseded());
}

/// An insertion into a state without a block in both maps drops no retracted
/// view but that of the new view's own block.
pub proof fn lemma_insert_keeps_retracted<P>(
    state: StoreState<P>,
    view: PoolView<P>,
    route: TreeRoute,
    hash: BlockHash,
)
    requires
        state.disjoint(),
        state.retracted_views.contains_key(hash),
        hash != view.at.hash,
    ensures
        state.insert_new_view(view, route).retracted_views.contains_key(hash),
        state.insert_new_view(view, route).retracted_views[hash] == state.retracted_views[hash],
{
    assert(!state.views.dom().contains(hash));
}

/// The hashes that an insertion reports as retired are the superseded blocks
/// that had an active view, each reported once.
pub proof fn lemma_retired_views(known: Set<BlockHash>, hashes: Seq<BlockHash>)
    ensures
        retired_views(known, hashes).no_duplicates(),
        forall|hash: BlockHash| #[trigger]
            retired_views(known, hashes).contains(hash) ==> known.contains(hash)
                && hashes.contains(hash),
        forall|hash: BlockHash|
            known.contains(hash) && #[trigger] hashes.contains(hash) ==> retired_views(
                known,
                hashes,
            ).contains(hash),
    decreases hashes.len(),
{
    let retired = retired_views(known, hashes);
    if hashes.len() > 0 {
        let earlier = hashes.drop_last();
        let last = hashes.last();
        let before = retired_views(known, earlier);
        lemma_retired_views(known, earlier);
        assert forall|hash: BlockHash|
            (#[trigger] retired.contains(hash) ==> known.contains(hash) && hashes.contains(hash))
                && (known.contains(hash) && hashes.contains(hash) ==> retired.contains(
                hash,
            )) by {
            if retired.contains(hash) {
                let j = choose|j: int| 0 <= j < retired.len() && retired[j] == hash;
                if j < before.len() {
                    assert(before[j] == hash);
                    assert(before.contains(hash));
                    let k = choose|k: int| 0 <= k < earlier.len() && earlier[k] == hash;
                    assert(hashes[k] == hash);
                } else {
                    assert(hash == last);
                    assert(hashes[hashes.len() - 1] == hash);
                }
            }
            if known.contains(hash) && hashes.contains(hash) {
                let k = choose|k: int| 0 <= k < hashes.len() && hashes[k] == hash;
                if k < earlier.len() {
                    assert(earlier[k] == hash);
                    assert(earlier.contains(hash));
                    assert(before.contains(hash));
                    let j = choose|j: int| 0 <= j < before.len() && before[j] == hash;
                    assert(retired[j] == hash);
                } else {
                    if earlier.contains(hash) {
                        assert(before.contains(hash));
                        let j = choose|j: int| 0 <= j < before.len() && before[j] == hash;
                        assert(retired[j] == hash);
                    } else {
                        assert(retired[before.len() as int] == hash);
                    }
                }
            }
        }
        if known.contains(last) && !earlier.contains(last) {
            assert(!before.contains(last));
            assert forall|a: int, b: int|
                0 <= a < retired.len() && 0 <= b < retired.len() && a != b implies retired[a]
                != retired[b] by {
                if a < before.len() && b < before.len() {
                    assert(before[a] != before[b]);
                } else if a < before.len() {
                    assert(before.contains(before[a]));
                } else {
                    assert(before.contains(before[b]));
                }
            }
        }
    }
}

/// After an insertion a superseded block other than the new view's own has no
/// active view.
pub proof fn lemma_insert_deactivates<P>(
    state: StoreState<P>,
    view: PoolView<P>,
    route: TreeRoute,
    hash: BlockHash,
)
    requires
        route.superseded().contains(hash),
        hash != view.at.hash,
    ensures
        !state.insert_new_view(view, route).views.contains_key(hash),
{
}

/// An insertion leaves alone the views of blocks that are neither superseded
/// nor the new view's own.
pub proof fn lemma_insert_keeps_others<P>(
    state: StoreState<P>,
    view: PoolView<P>,
    route: TreeRoute,
    hash: BlockHash,
)
    requires
        !route.superseded().contains(hash),
        hash != view.at.hash,
    ensures
        state.insert_new_view(view, route).views.contains_key(hash) <==> state.views.contains_key(
            hash,
        ),
        state.views.contains_key(hash) ==> state.insert_new_view(view, route).views[hash]
            == state.views[hash],
        state.insert_new_view(view, route).retracted_views.contains_key(hash)
            <==> state.retracted_views.contains_key(hash),
{
}

/// After finalization at a known height `n`, every active view that is left is
/// above `n`, or is at `n` and is the view of the finalized block; every
/// retracted view that is left is above `n`. Every view that is left was there
/// before.
pub proof fn lemma_finalized_prunes<P>(state: StoreState<P>, finalized_hash: BlockHash, n: u64)
    requires
        state.wf(),
    ensures
        forall|hash: BlockHash| #[trigger]
            state.handle_finalized(finalized_hash, Some(n)).views.contains_key(hash) ==> {
                let view = state.handle_finalized(finalized_hash, Some(n)).views[hash];
                &&& state.views.contains_key(hash)
                &&& view == state.views[hash]
                &&& view.at.number > n || (view.at.number == n && hash == finalized_hash)
            },
        forall|hash: BlockHash| #[trigger]
            state.handle_finalized(finalized_hash, Some(n)).retracted_views.contains_key(hash) ==> {
                let view = state.handle_finalized(finalized_hash, Some(n)).retracted_views[hash];
                &&& state.retracted_views.contains_key(hash)
                &&& view == state.retracted_views[hash]
                &&& view.at.number > n
            },
        state.handle_finalized(finalized_hash, Some(n)).wf(),
{
    lemma_finalized_is_smaller(state, finalized_hash, Some(n));
}

/// Finalization keeps every active view above the finalized height, and the
/// view of the finalized block where it is at that height; it keeps every
/// retracted view above that height.
pub proof fn lemma_finalized_keeps<P>(
    state: StoreState<P>,
    finalized_hash: BlockHash,
    n: u64,
    hash: BlockHash,
)
    requires
        state.wf(),
    ensures
        state.views.contains_key(hash) && (state.views[hash].at.number > n || (
        state.views[hash].at.number == n && hash == finalized_hash))
            ==> state.handle_finalized(finalized_hash, Some(n)).views.contains_key(hash),
        state.retracted_views.contains_key(hash) && state.retracted_views[hash].at.number > n
            ==> state.handle_finalized(finalized_hash, Some(n)).retracted_views.contains_key(hash),
{
}

/// After finalization at an unknown height no retracted view is left, and no
/// active view but that of the finalized block, which stays if it was there.
pub proof fn lemma_finalized_unknown_height<P>(state: StoreState<P>, finalized_hash: BlockHash)
    requires
        state.wf(),
    ensures
        state.handle_finalized(finalized_hash, None).retracted_views == Map::<
            BlockHash,
            PoolView<P>,
        >::empty(),
        forall|hash: BlockHash| #[trigger]
            state.handle_finalized(finalized_hash, None).views.contains_key(hash) ==> hash
                == finalized_hash,
        state.views.contains_key(finalized_hash) ==> state.handle_finalized(
            finalized_hash,
            None,
        ).views.contains_key(finalized_hash),
{
    assert(state.handle_finalized(finalized_hash, None).retracted_views =~= Map::<
        BlockHash,
        PoolView<P>,
    >::empty());
}

/// Finalization only takes views away: what is left is sound, and is disjoint
/// where the state was. The most recent view stays as it was.
pub proof fn lemma_finalized_is_smaller<P>(
    state: StoreState<P>,
    finalized_hash: BlockHash,
    number: Option<u64>,
)
    requires
        state.wf(),
    ensures
        state.handle_finalized(finalized_hash, number).wf(),
        state.handle_finalized(finalized_hash, number).views.submap_of(state.views),
        state.handle_finalized(finalized_hash, number).retracted_views.submap_of(
            state.retracted_views,
        ),
        state.disjoint() ==> state.handle_finalized(finalized_hash, number).disjoint(),
        state.handle_finalized(finalized_hash, number).most_recent_view == state.most_recent_view,
{
    let after = state.handle_finalized(finalized_hash, number);
    assert(after.views.dom().subset_of(state.views.dom()));
    assert(after.retracted_views.dom().subset_of(state.retracted_views.dom()));
    vstd::set_lib::lemma_set_subset_finite(state.views.dom(), after.views.dom());
    vstd::set_lib::lemma_set_subset_finite(
        state.retracted_views.dom(),
        after.retracted_views.dom(),
    );
}

/// Two lookups of the same block in the same state, with the same leave to use
/// retracted views, find the same.
pub proof fn lemma_lookup_repeats<P>(
    state: StoreState<P>,
    at: BlockHash,
    allow_retracted: bool,
    first: Option<(&PoolView<P>, bool)>,
    second: Option<(&PoolView<P>, bool)>,
)
    requires
        answers_lookup(state, at, allow_retracted, first),
        answers_lookup(state, at, allow_retracted, second),
    ensures
        first == second,
{
}

/// A lookup finds an active view wherever there is one, and a retracted view
/// only where it may and no active one is there.
pub proof fn lemma_lookup_prefers_active<P>(
    state: StoreState<P>,
    at: BlockHash,
    allow_retracted: bool,
)
    ensures
        state.views.contains_key(at) ==> state.get_view_at(at, allow_retracted) == Some(
            (state.views[at], false),
        ),
        state.get_view_at(at, allow_retracted) matches Some((_, retracted)) ==> (retracted <==> (
        allow_retracted && !state.views.contains_key(at))),
        state.get_view_at(at, false) is Some <==> state.views.contains_key(at),
{
}

} // verus!
