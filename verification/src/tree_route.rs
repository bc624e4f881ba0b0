//! The path through the block tree between two blocks.
//!
//! ```text
//! Route from R1 to E2: retracted [R1, R2, R3], common C, enacted [E1, E2].
//!   <- R3 <- R2 <- R1
//!  /
//! C
//!  \-> E1 -> E2
//! ```

use vstd::prelude::*;
use vstd::slice::slice_subrange;
use crate::hash::BlockHash;

verus! {

/// A block, named by its hash, with its height in the chain.
#[derive(Clone, Copy, Debug)]
pub struct HashAndNumber {
    pub number: u64,
    pub hash: BlockHash,
}

/// The hashes of a list of blocks, in order.
pub open spec fn hashes_of(blocks: Seq<HashAndNumber>) -> Seq<BlockHash> {
    Seq::new(blocks.len(), |i: int| blocks[i].hash)
}

/// A route from one block to another: the blocks left behind, from the old head
/// down to the child of the common ancestor; the common ancestor; and the blocks
/// adopted, from the child of the common ancestor up to the new head.
#[derive(Debug)]
pub struct TreeRoute {
    route: Vec<HashAndNumber>,
    pivot: usize,
}

impl TreeRoute {
    /// All blocks of the route: retracted, common, enacted.
    pub closed spec fn blocks(&self) -> Seq<HashAndNumber> {
        self.route@
    }

    /// The position of the common ancestor in `blocks`.
    pub closed spec fn pivot(&self) -> int {
        self.pivot as int
    }

    /// The common ancestor is one of the blocks.
    pub open spec fn wf(&self) -> bool {
        0 <= self.pivot() < self.blocks().len()
    }

    /// The blocks left behind, old head first.
    pub open spec fn spec_retracted(&self) -> Seq<HashAndNumber> {
        self.blocks().subrange(0, self.pivot())
    }

    /// The common ancestor.
    pub open spec fn spec_common_block(&self) -> HashAndNumber {
        self.blocks()[self.pivot()]
    }

    /// The blocks adopted, new head last.
    pub open spec fn spec_enacted(&self) -> Seq<HashAndNumber> {
        self.blocks().subrange(self.pivot() + 1, self.blocks().len() as int)
    }

    /// The order in which blocks are tried as the basis of a view at the new
    /// head: the enacted blocks from the new head back, then the common ancestor,
    /// then the retracted blocks from the common ancestor out to the old head.
    pub open spec fn search_path(&self) -> Seq<BlockHash> {
        hashes_of(self.spec_enacted()).reverse() + seq![self.spec_common_block().hash] + hashes_of(
            self.spec_retracted(),
        ).reverse()
    }

    /// The blocks whose views a view at the new head replaces: the common
    /// ancestor, then the enacted blocks.
    pub open spec fn superseded(&self) -> Seq<BlockHash> {
        seq![self.spec_common_block().hash] + hashes_of(self.spec_enacted())
    }

    /// The search path is the whole route walked backwards.
    pub proof fn lemma_search_path_is_reverse(&self)
        requires
            self.wf(),
        ensures
            self.search_path() == hashes_of(self.blocks()).reverse(),
            self.search_path().len() == self.blocks().len(),
    {
        assert(self.search_path() =~= hashes_of(self.blocks()).reverse());
    }

    /// The superseded blocks are the route from the common ancestor on.
    pub proof fn lemma_superseded_is_tail(&self)
        requires
            self.wf(),
        ensures
            self.superseded() == hashes_of(self.blocks()).subrange(
                self.pivot(),
                self.blocks().len() as int,
            ),
            self.superseded().len() == self.blocks().len() - self.pivot(),
    {
        assert(self.superseded() =~= hashes_of(self.blocks()).subrange(
            self.pivot(),
            self.blocks().len() as int,
        ));
    }

    /// A route over `route` with the common ancestor at `pivot`, or `None` where
    /// `pivot` is not a position in `route`.
    pub fn new(route: Vec<HashAndNumber>, pivot: usize) -> (made: Option<TreeRoute>)
        ensures
            made is Some <==> pivot < route@.len(),
            made matches Some(r) ==> r.wf() && r.blocks() == route@ && r.pivot() == pivot,
    {
        if pivot < route.len() {
            Some(TreeRoute { route, pivot })
        } else {
            None
        }
    }

    /// The blocks left behind, old head first.
    pub fn retracted(&self) -> (blocks: &[HashAndNumber])
        requires
            self.wf(),
        ensures
            blocks@ == self.spec_retracted(),
    {
        slice_subrange(self.route.as_slice(), 0, self.pivot)
    }

    /// The common ancestor.
    pub fn common_block(&self) -> (block: &HashAndNumber)
        requires
            self.wf(),
        ensures
            *block == self.spec_common_block(),
    {
        &self.route[self.pivot]
    }

    /// The blocks adopted, new head last.
    pub fn enacted(&self) -> (blocks: &[HashAndNumber])
        requires
            self.wf(),
        ensures
            blocks@ == self.spec_enacted(),
    {
        let end = self.route.len();
        slice_subrange(self.route.as_slice(), self.pivot + 1, end)
    }

    /// The number of blocks on the route.
    pub fn len(&self) -> (n: usize)
        ensures
            n == self.blocks().len(),
    {
        self.route.len()
    }

    /// The position of the common ancestor among the blocks.
    pub fn pivot_index(&self) -> (i: usize)
        ensures
            i == self.pivot(),
    {
        self.pivot
    }

    /// The block at position `i` of the route.
    pub fn block_at(&self, i: usize) -> (block: &HashAndNumber)
        requires
            i < self.blocks().len(),
        ensures
            *block == self.blocks()[i as int],
    {
        &self.route[i]
    }
}

} // verus!
