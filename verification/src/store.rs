//! The view store: the active views, one per fork head, the retracted views
//! that newer heads have replaced, and the hash of the view that came last.

use vstd::prelude::*;
use crate::block_map::BlockMap;
use crate::hash::BlockHash;
use crate::tree_route::{HashAndNumber, TreeRoute};

verus! {

/// A pool view: the block it is anchored at, and the pool `P` that is valid
/// in the context of that block.
#[derive(Debug)]
pub struct PoolView<P> {
    pub at: HashAndNumber,
    pub pool: P,
}

/// Every view is stored under the hash of its own block.
pub open spec fn keyed_by_hash<P>(views: Map<BlockHash, PoolView<P>>) -> bool {
    forall|hash: BlockHash| #[trigger] views.contains_key(hash) ==> views[hash].at.hash == hash
}

/// The hashes of `hashes` that are in `known`, each once, where it first occurs.
pub open spec fn retired_views(known: Set<BlockHash>, hashes: Seq<BlockHash>) -> Seq<BlockHash>
    decreases hashes.len(),
{
    if hashes.len() == 0 {
        Seq::empty()
    } else {
        let earlier = hashes.drop_last();
        let hash = hashes.last();
        if known.contains(hash) && !earlier.contains(hash) {
            retired_views(known, earlier).push(hash)
        } else {
            retired_views(known, earlier)
        }
    }
}

/// The first hash of `path` that is in `known`, if any is.
pub open spec fn first_known(path: Seq<BlockHash>, known: Set<BlockHash>) -> Option<BlockHash>
    decreases path.len(),
{
    if path.len() == 0 {
        None
    } else if known.contains(path.first()) {
        Some(path.first())
    } else {
        first_known(path.drop_first(), known)
    }
}

/// `first_known` gives the hash at `i` where that one is known and none before it is.
pub proof fn lemma_first_known_at(path: Seq<BlockHash>, known: Set<BlockHash>, i: int)
    requires
        0 <= i < path.len(),
        known.contains(path[i]),
        forall|j: int| 0 <= j < i ==> !known.contains(path[j]),
    ensures
        first_known(path, known) == Some(path[i]),
    decreases i,
{
    if i > 0 {
        let rest = path.drop_first();
        assert forall|j: int| 0 <= j < i - 1 implies !known.contains(rest[j]) by {
            assert(rest[j] == path[j + 1]);
        }
        assert(rest[i - 1] == path[i]);
        lemma_first_known_at(rest, known, i - 1);
    }
}

/// `first_known` gives nothing exactly where no hash of the path is known, and
/// what it gives is a known hash of the path.
pub proof fn lemma_first_known(path: Seq<BlockHash>, known: Set<BlockHash>)
    ensures
        first_known(path, known) is None <==> forall|j: int|
            0 <= j < path.len() ==> !known.contains(path[j]),
        first_known(path, known) matches Some(hash) ==> known.contains(hash) && path.contains(
            hash,
        ),
    decreases path.len(),
{
    if path.len() > 0 {
        let rest = path.drop_first();
        lemma_first_known(rest, known);
        if known.contains(path.first()) {
            assert(path[0] == path.first());
        } else {
            if first_known(rest, known) is None {
                assert forall|j: int| 0 <= j < path.len() implies !known.contains(path[j]) by {
                    if j > 0 {
                        assert(rest[j - 1] == path[j]);
                    }
                }
            } else {
                let hash = first_known(rest, known)->Some_0;
                let j = choose|j: int| 0 <= j < rest.len() && rest[j] == hash;
                assert(path[j + 1] == hash);
            }
        }
    }
}

/// The finalized block's number as far as it is known: a failed lookup and a
/// block without a number both count as unknown.
pub open spec fn resolved_number<E>(answer: Result<Option<u64>, E>) -> Option<u64> {
    match answer {
        Ok(Some(number)) => Some(number),
        _ => None,
    }
}

/// Whether finalization keeps an active view at block `at`. Where the height of
/// the finalized block is unknown only the view at that block stays. Where it is
/// known, a view above it stays, and at that height only the view at the
/// finalized block itself.
pub open spec fn keeps_active(at: HashAndNumber, finalized_hash: BlockHash, number: Option<u64>) -> bool {
    match number {
        None => at.hash == finalized_hash,
        Some(n) => if at.number == n {
            at.hash == finalized_hash
        } else {
            at.number > n
        },
    }
}

/// Whether finalization keeps a retracted view at block `at`: only where the
/// height of the finalized block is known and the view is above it.
pub open spec fn keeps_retracted(at: HashAndNumber, number: Option<u64>) -> bool {
    match number {
        None => false,
        Some(n) => at.number > n,
    }
}

/// What a view store holds, as mathematical maps.
pub struct StoreState<P> {
    /// The views that take new submissions.
    pub views: Map<BlockHash, PoolView<P>>,
    /// The views that were replaced, kept for lookups.
    pub retracted_views: Map<BlockHash, PoolView<P>>,
    /// The block of the view that was inserted last.
    pub most_recent_view: Option<BlockHash>,
}

impl<P> StoreState<P> {
    /// The state of a store that has seen no view.
    pub open spec fn empty() -> StoreState<P> {
        StoreState {
            views: Map::empty(),
            retracted_views: Map::empty(),
            most_recent_view: None,
        }
    }

    /// Both maps are finite and keyed by the hash of the view's block.
    pub open spec fn wf(self) -> bool {
        &&& self.views.dom().finite()
        &&& self.retracted_views.dom().finite()
        &&& keyed_by_hash(self.views)
        &&& keyed_by_hash(self.retracted_views)
    }

    /// No block has both an active and a retracted view.
    pub open spec fn disjoint(self) -> bool {
        self.views.dom().disjoint(self.retracted_views.dom())
    }

    /// The state after a view was inserted for a new head that `route` leads
    /// to: the active views of the superseded blocks have moved to the retracted
    /// views, and `view` is active and the most recent one. The new view's own
    /// block has no retracted view: a block has a view in one map at most.
    pub open spec fn insert_new_view(self, view: PoolView<P>, route: TreeRoute) -> StoreState<P> {
        let gone = route.superseded().to_set();
        StoreState {
            views: self.views.remove_keys(gone).insert(view.at.hash, view),
            retracted_views: self.retracted_views.union_prefer_right(
                self.views.restrict(gone),
            ).remove(view.at.hash),
            most_recent_view: Some(view.at.hash),
        }
    }

    /// The hashes that an insertion reports: the superseded blocks whose active
    /// view went to the retracted views and is there after the insertion, in
    /// route order. The new view's own block is not among them.
    pub open spec fn retired_by(self, view: PoolView<P>, route: TreeRoute) -> Seq<BlockHash> {
        retired_views(self.views.dom().remove(view.at.hash), route.superseded())
    }

    /// The active view to seed a view at the new head of `route` from: the
    /// one at the first block of the route's search path that has an active view.
    pub open spec fn find_best_view(self, route: TreeRoute) -> Option<PoolView<P>> {
        match first_known(route.search_path(), self.views.dom()) {
            Some(hash) => Some(self.views[hash]),
            None => None,
        }
    }

    /// The state after block `finalized_hash` was finalized, `number` being its
    /// height as far as it is known: only the views that `keeps_active` and
    /// `keeps_retracted` name are left.
    pub open spec fn handle_finalized(self, finalized_hash: BlockHash, number: Option<u64>) -> StoreState<P> {
        StoreState {
            views: self.views.restrict(
                Set::new(|hash: BlockHash| keeps_active(self.views[hash].at, finalized_hash, number)),
            ),
            retracted_views: self.retracted_views.restrict(
                Set::new(|hash: BlockHash| keeps_retracted(self.retracted_views[hash].at, number)),
            ),
            most_recent_view: self.most_recent_view,
        }
    }

    /// The view at `at`: the active one, or, where there is none and
    /// `allow_retracted` is set, the retracted one. The flag tells whether the
    /// view is a retracted one.
    pub open spec fn get_view_at(self, at: BlockHash, allow_retracted: bool) -> Option<
        (PoolView<P>, bool),
    > {
        if self.views.contains_key(at) {
            Some((self.views[at], false))
        } else if allow_retracted && self.retracted_views.contains_key(at) {
            Some((self.retracted_views[at], true))
        } else {
            None
        }
    }
}

/// Whether `found` is what a lookup of `at` in `state` gives.
pub open spec fn answers_lookup<P>(
    state: StoreState<P>,
    at: BlockHash,
    allow_retracted: bool,
    found: Option<(&PoolView<P>, bool)>,
) -> bool {
    match found {
        Some((view, retracted)) => state.get_view_at(at, allow_retracted) == Some(
            (*view, retracted),
        ),
        None => state.get_view_at(at, allow_retracted) is None,
    }
}

/// The store of pool views.
pub struct ViewStore<P> {
    views: BlockMap<PoolView<P>>,
    retracted_views: BlockMap<PoolView<P>>,
    most_recent_view: Option<BlockHash>,
}

impl<P> View for ViewStore<P> {
    type V = StoreState<P>;

    closed spec fn view(&self) -> StoreState<P> {
        StoreState {
            views: self.views@,
            retracted_views: self.retracted_views@,
            most_recent_view: self.most_recent_view,
        }
    }
}

impl<P> ViewStore<P> {
    /// The store's representation is sound.
    pub closed spec fn wf(&self) -> bool {
        &&& self.views.wf()
        &&& self.retracted_views.wf()
        &&& keyed_by_hash(self.views@)
        &&& keyed_by_hash(self.retracted_views@)
    }

    /// A sound store has a sound state.
    pub proof fn lemma_wf_state(&self)
        requires
            self.wf(),
        ensures
            self@.wf(),
    {
        self.views.lemma_keys();
        self.retracted_views.lemma_keys();
    }

    /// A store without views.
    pub fn new() -> (store: ViewStore<P>)
        ensures
            store.wf(),
            store@ == StoreState::<P>::empty(),
    {
        ViewStore {
            views: BlockMap::new(),
            retracted_views: BlockMap::new(),
            most_recent_view: None,
        }
    }

    /// Whether there is no active view.
    pub fn is_empty(&self) -> (empty: bool)
        requires
            self.wf(),
        ensures
            empty <==> self@.views == Map::<BlockHash, PoolView<P>>::empty(),
    {
        self.views.is_empty()
    }

    /// The active views.
    pub fn views(&self) -> (views: &BlockMap<PoolView<P>>)
        requires
            self.wf(),
        ensures
            views.wf(),
            views@ == self@.views,
    {
        &self.views
    }

    /// The retracted views.
    pub fn retracted_views(&self) -> (views: &BlockMap<PoolView<P>>)
        requires
            self.wf(),
        ensures
            views.wf(),
            views@ == self@.retracted_views,
    {
        &self.retracted_views
    }

    /// The block of the view that was inserted last, if any was.
    pub fn most_recent_view(&self) -> (hash: Option<BlockHash>)
        ensures
            hash == self@.most_recent_view,
    {
        self.most_recent_view
    }

    /// Looks `at` up among the active views and, where it is not there and
    /// `allow_retracted` is set, among the retracted ones. The flag that comes
    /// with the view is set when the view is a retracted one.
    pub fn get_view_at(&self, at: &BlockHash, allow_retracted: bool) -> (found: Option<
        (&PoolView<P>, bool),
    >)
        requires
            self.wf(),
        ensures
            answers_lookup(self@, *at, allow_retracted, found),
    {
        if let Some(view) = self.views.get(at) {
            return Some((view, false));
        }
        if allow_retracted {
            if let Some(view) = self.retracted_views.get(at) {
                return Some((view, true));
            }
        }
        None
    }

    /// Installs `view` as the active view of its block. Before that, every
    /// block that `tree_route` supersedes (the common ancestor and the enacted
    /// blocks) and that has an active view loses it to the retracted views. A
    /// view that the new view's own block had, active or retracted, gives way
    /// to the new one. The hashes of the views that went to the retracted views
    /// come back, in route order, so that the caller can tell the listener to
    /// let go of them.
    pub fn insert_new_view(&mut self, view: PoolView<P>, tree_route: &TreeRoute) -> (retired: Vec<
        BlockHash,
    >)
        requires
            old(self).wf(),
            tree_route.wf(),
        ensures
            final(self).wf(),
            final(self)@ == old(self)@.insert_new_view(view, *tree_route),
            retired@ == old(self)@.retired_by(view, *tree_route),
    {
        let ghost before = self@;
        let at = view.at.hash;
        let ghost superseded = tree_route.superseded();
        let mut retired: Vec<BlockHash> = Vec::new();
        let end = tree_route.len();
        let start = tree_route.pivot_index();
        let mut i = start;
        proof {
            tree_route.lemma_superseded_is_tail();
            assert(superseded.subrange(0, 0) =~= Seq::<BlockHash>::empty());
            assert(Seq::<BlockHash>::empty().to_set() =~= Set::<BlockHash>::empty());
            assert(before.views.remove_keys(Set::empty()) =~= before.views);
            assert(before.retracted_views.union_prefer_right(
                before.views.restrict(Set::empty()),
            ) =~= before.retracted_views);
        }
        while i < end
            invariant
                tree_route.wf(),
                start == tree_route.pivot(),
                end == tree_route.blocks().len(),
                start <= i <= end,
                superseded == tree_route.superseded(),
                superseded == crate::tree_route::hashes_of(tree_route.blocks()).subrange(
                    start as int,
                    end as int,
                ),
                keyed_by_hash(before.views),
                self.views.wf(),
                self.retracted_views.wf(),
                keyed_by_hash(self.views@),
                keyed_by_hash(self.retracted_views@),
                self.most_recent_view == before.most_recent_view,
                self.views@ == before.views.remove_keys(superseded.subrange(0, i - start).to_set()),
                self.retracted_views@ == before.retracted_views.union_prefer_right(
                    before.views.restrict(superseded.subrange(0, i - start).to_set()),
                ),
                retired@ == retired_views(
                    before.views.dom().remove(at),
                    superseded.subrange(0, i - start),
                ),
            decreases end - i,
        {
            let hash = tree_route.block_at(i).hash;
            let ghost done = superseded.subrange(0, i - start);
            let ghost next = superseded.subrange(0, i - start + 1);
            let ghost views_now = self.views@;
            proof {
                assert(superseded[i - start] == hash);
                assert(next.drop_last() =~= done);
                assert(next.last() == hash);
                assert(next.to_set() =~= done.to_set().insert(hash)) by {
                    assert forall|h: BlockHash| next.contains(h) <==> done.contains(h) || h
                        == hash by {
                        if next.contains(h) {
                            let j = choose|j: int| 0 <= j < next.len() && next[j] == h;
                            if j < done.len() {
                                assert(done[j] == h);
                            }
                        }
                        if done.contains(h) {
                            let j = choose|j: int| 0 <= j < done.len() && done[j] == h;
                            assert(next[j] == h);
                        }
                        if h == hash {
                            assert(next[i - start] == h);
                        }
                    }
                }
                assert(views_now.contains_key(hash) <==> before.views.contains_key(hash)
                    && !done.contains(hash));
            }
            match self.views.remove(&hash) {
                Some(superseded_view) => {
                    self.retracted_views.insert(hash, superseded_view);
                    if hash != at {
                        retired.push(hash);
                    }
                    proof {
                        assert(self.retracted_views@ =~= before.retracted_views.union_prefer_right(
                            before.views.restrict(next.to_set()),
                        ));
                    }
                },
                None => {
                    proof {
                        assert(before.views.restrict(next.to_set()) =~= before.views.restrict(
                            done.to_set(),
                        ));
                    }
                },
            }
            proof {
                assert(self.views@ =~= before.views.remove_keys(next.to_set()));
            }
            i += 1;
        }
        proof {
            assert(superseded.subrange(0, end - start) =~= superseded);
        }
        self.retracted_views.remove(&at);
        self.views.insert(at, view);
        self.most_recent_view = Some(at);
        retired
    }

    /// Finds the active view that a view at the new head of `tree_route` is best
    /// seeded from. The enacted blocks are tried first, from the new head back
    /// to the common ancestor, then the common ancestor, then the retracted
    /// blocks from the common ancestor out to the old head. The first block
    /// with an active view decides.
    pub fn find_best_view(&self, tree_route: &TreeRoute) -> (best: Option<&PoolView<P>>)
        requires
            self.wf(),
            tree_route.wf(),
        ensures
            match best {
                Some(view) => self@.find_best_view(*tree_route) == Some(*view),
                None => self@.find_best_view(*tree_route) is None,
            },
    {
        let ghost path = tree_route.search_path();
        let ghost known = self@.views.dom();
        let len = tree_route.len();
        let mut tried: usize = 0;
        proof {
            tree_route.lemma_search_path_is_reverse();
        }
        while tried < len
            invariant
                self.wf(),
                tree_route.wf(),
                len == tree_route.blocks().len(),
                path == tree_route.search_path(),
                path == crate::tree_route::hashes_of(tree_route.blocks()).reverse(),
                known == self@.views.dom(),
                tried <= len,
                forall|j: int| 0 <= j < tried ==> !known.contains(path[j]),
            decreases len - tried,
        {
            let block = tree_route.block_at(len - 1 - tried);
            assert(path[tried as int] == block.hash);
            if let Some(view) = self.views.get(&block.hash) {
                proof {
                    lemma_first_known_at(path, known, tried as int);
                }
                return Some(view);
            }
            tried += 1;
        }
        proof {
            lemma_first_known(path, known);
        }
        None
    }

    /// Prunes the store after block `finalized_hash` was finalized.
    /// `finalized_number` is what the chain answered when asked for that block's
    /// height. Where it gave a height, the active views above it stay, and at
    /// that height the view at the finalized block; the retracted views above
    /// it stay. Where the lookup failed or gave nothing, only the active view at
    /// the finalized block stays and no retracted view does.
    pub fn handle_finalized<E>(
        &mut self,
        finalized_hash: BlockHash,
        finalized_number: Result<Option<u64>, E>,
    )
        requires
            old(self).wf(),
        ensures
            final(self).wf(),
            final(self)@ == old(self)@.handle_finalized(
                finalized_hash,
                resolved_number(finalized_number),
            ),
    {
        let number: Option<u64> = match finalized_number {
            Ok(Some(n)) => Some(n),
            _ => None,
        };
        let ghost before = self@;
        let mut i: usize = 0;
        while i < self.views.len()
            invariant
                self.views.wf(),
                self.retracted_views.wf(),
                keyed_by_hash(self.views@),
                keyed_by_hash(self.retracted_views@),
                self.retracted_views@ == before.retracted_views,
                self.most_recent_view == before.most_recent_view,
                i <= self.views.keys().len(),
                forall|hash: BlockHash| #[trigger]
                    self.views@.contains_key(hash) ==> before.views.contains_key(hash)
                        && self.views@[hash] == before.views[hash],
                forall|hash: BlockHash|
                    before.views.contains_key(hash) && keeps_active(
                        before.views[hash].at,
                        finalized_hash,
                        number,
                    ) ==> #[trigger] self.views@.contains_key(hash),
                forall|j: int|
                    0 <= j < i ==> keeps_active(
                        self.views@[#[trigger] self.views.keys()[j]].at,
                        finalized_hash,
                        number,
                    ),
            decreases self.views.keys().len() - i,
        {
            let at = self.views.value_at(i).at;
            let keep = match number {
                None => at.hash == finalized_hash,
                Some(n) => if at.number == n {
                    at.hash == finalized_hash
                } else {
                    at.number > n
                },
            };
            if keep {
                i += 1;
            } else {
                let ghost keys = self.views.keys();
                self.views.remove_at(i);
                proof {
                    self.views.lemma_keys();
                    assert forall|j: int| 0 <= j < i implies keeps_active(
                        self.views@[#[trigger] self.views.keys()[j]].at,
                        finalized_hash,
                        number,
                    ) by {
                        assert(self.views.keys()[j] == keys[j]);
                        assert(self.views.keys().contains(keys[j]));
                    }
                }
            }
        }
        proof {
            self.views.lemma_keys();
            assert forall|hash: BlockHash| self.views@.contains_key(hash) implies keeps_active(
                before.views[hash].at,
                finalized_hash,
                number,
            ) by {
                assert(self.views.keys().contains(hash));
                let j = choose|j: int|
                    0 <= j < self.views.keys().len() && self.views.keys()[j] == hash;
                assert(keeps_active(self.views@[self.views.keys()[j]].at, finalized_hash, number));
            }
            assert(self.views@ =~= before.handle_finalized(finalized_hash, number).views);
        }
        let mut k: usize = 0;
        while k < self.retracted_views.len()
            invariant
                self.views.wf(),
                self.retracted_views.wf(),
                keyed_by_hash(self.views@),
                keyed_by_hash(self.retracted_views@),
                self.views@ == before.handle_finalized(finalized_hash, number).views,
                self.most_recent_view == before.most_recent_view,
                k <= self.retracted_views.keys().len(),
                forall|hash: BlockHash| #[trigger]
                    self.retracted_views@.contains_key(hash) ==> before.retracted_views.contains_key(
                        hash,
                    ) && self.retracted_views@[hash] == before.retracted_views[hash],
                forall|hash: BlockHash|
                    before.retracted_views.contains_key(hash) && keeps_retracted(
                        before.retracted_views[hash].at,
                        number,
                    ) ==> #[trigger] self.retracted_views@.contains_key(hash),
                forall|j: int|
                    0 <= j < k ==> keeps_retracted(
                        self.retracted_views@[#[trigger] self.retracted_views.keys()[j]].at,
                        number,
                    ),
            decreases self.retracted_views.keys().len() - k,
        {
            let at = self.retracted_views.value_at(k).at;
            let keep = match number {
                None => false,
                Some(n) => at.number > n,
            };
            if keep {
                k += 1;
            } else {
                let ghost keys = self.retracted_views.keys();
                self.retracted_views.remove_at(k);
                proof {
                    self.retracted_views.lemma_keys();
                    assert forall|j: int| 0 <= j < k implies keeps_retracted(
                        self.retracted_views@[#[trigger] self.retracted_views.keys()[j]].at,
                        number,
                    ) by {
                        assert(self.retracted_views.keys()[j] == keys[j]);
                        assert(self.retracted_views.keys().contains(keys[j]));
                    }
                }
            }
        }
        proof {
            self.retracted_views.lemma_keys();
            assert forall|hash: BlockHash|
                self.retracted_views@.contains_key(hash) implies keeps_retracted(
                before.retracted_views[hash].at,
                number,
            ) by {
                assert(self.retracted_views.keys().contains(hash));
                let j = choose|j: int|
                    0 <= j < self.retracted_views.keys().len() && self.retracted_views.keys()[j]
                        == hash;
                assert(keeps_retracted(
                    self.retracted_views@[self.retracted_views.keys()[j]].at,
                    number,
                ));
            }
            assert(self.retracted_views@ =~= before.handle_finalized(
                finalized_hash,
                number,
            ).retracted_views);
        }
    }
}

} // verus!
