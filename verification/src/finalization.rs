//! Reporting the transactions of finalized blocks.
//!
//! When a block is finalized, every transaction in it and in the blocks that
//! lead up to it from the block finalized before is final. The caller fetches
//! the bodies of those blocks; the functions here say in which order the
//! blocks are visited, what the listener is told, and which transactions are
//! handed back.

use vstd::prelude::*;
use crate::hash::BlockHash;

verus! {

/// A transaction that became final: what the listener is told of it.
#[derive(Debug)]
pub struct FinalizedTransaction<X> {
    /// The transaction's hash.
    pub tx_hash: X,
    /// The block that holds the transaction.
    pub block: BlockHash,
    /// The transaction's position in that block.
    pub index: usize,
}

/// What finalizing a route comes to.
#[derive(Debug)]
pub struct FinalizedRoute<X> {
    /// What to tell the listener, in this order.
    pub notices: Vec<FinalizedTransaction<X>>,
    /// The hashes of all transactions that became final, in block order.
    pub transactions: Vec<X>,
}

/// The transactions of a block as far as its body could be had: a failed
/// request and a block without a body both give none.
pub open spec fn body_transactions<X, E>(body: Result<Option<Vec<X>>, E>) -> Seq<X> {
    match body {
        Ok(Some(transactions)) => transactions@,
        _ => Seq::empty(),
    }
}

/// The notices for the transactions of one block: one for each, with its position.
pub open spec fn block_notices<X>(block: BlockHash, transactions: Seq<X>) -> Seq<
    FinalizedTransaction<X>,
> {
    Seq::new(
        transactions.len(),
        |i: int| FinalizedTransaction { tx_hash: transactions[i], block, index: i as usize },
    )
}

/// The transactions of all blocks, block after block.
pub open spec fn route_transactions<X, E>(blocks: Seq<(BlockHash, Result<Option<Vec<X>>, E>)>) -> Seq<X>
    decreases blocks.len(),
{
    if blocks.len() == 0 {
        Seq::empty()
    } else {
        route_transactions(blocks.drop_last()) + body_transactions(blocks.last().1)
    }
}

/// The notices for all blocks, block after block.
pub open spec fn route_notices<X, E>(blocks: Seq<(BlockHash, Result<Option<Vec<X>>, E>)>) -> Seq<
    FinalizedTransaction<X>,
>
    decreases blocks.len(),
{
    if blocks.len() == 0 {
        Seq::empty()
    } else {
        route_notices(blocks.drop_last()) + block_notices(
            blocks.last().0,
            body_transactions(blocks.last().1),
        )
    }
}

/// There is one notice for each transaction, and it names that transaction.
pub proof fn lemma_notices_match_transactions<X, E>(
    blocks: Seq<(BlockHash, Result<Option<Vec<X>>, E>)>,
)
    ensures
        route_notices(blocks).len() == route_transactions(blocks).len(),
        forall|i: int|
            0 <= i < route_notices(blocks).len() ==> (#[trigger] route_notices(blocks)[i]).tx_hash
                == route_transactions(blocks)[i],
    decreases blocks.len(),
{
    if blocks.len() > 0 {
        lemma_notices_match_transactions(blocks.drop_last());
    }
}

/// Every transaction of every block whose body could be had is among the
/// transactions of the route.
pub proof fn lemma_route_holds_block<X, E>(
    blocks: Seq<(BlockHash, Result<Option<Vec<X>>, E>)>,
    b: int,
    i: int,
)
    requires
        0 <= b < blocks.len(),
        0 <= i < body_transactions(blocks[b].1).len(),
    ensures
        route_transactions(blocks).contains(body_transactions(blocks[b].1)[i]),
        route_notices(blocks).contains(
            FinalizedTransaction {
                tx_hash: body_transactions(blocks[b].1)[i],
                block: blocks[b].0,
                index: i as usize,
            },
        ),
    decreases blocks.len(),
{
    let earlier = blocks.drop_last();
    let before = route_transactions(earlier);
    let notices_before = route_notices(earlier);
    let body = body_transactions(blocks.last().1);
    if b == blocks.len() - 1 {
        assert(route_transactions(blocks)[before.len() + i] == body[i]);
        assert(route_notices(blocks)[notices_before.len() + i] == block_notices(
            blocks.last().0,
            body,
        )[i]);
    } else {
        assert(earlier[b] == blocks[b]);
        lemma_route_holds_block(earlier, b, i);
        let tx = body_transactions(blocks[b].1)[i];
        let j = choose|j: int| 0 <= j < before.len() && before[j] == tx;
        assert(route_transactions(blocks)[j] == tx);
        let notice = FinalizedTransaction { tx_hash: tx, block: blocks[b].0, index: i as usize };
        let k = choose|k: int| 0 <= k < notices_before.len() && notices_before[k] == notice;
        assert(route_notices(blocks)[k] == notice);
    }
}

/// The blocks to visit when `finalized_hash` is finalized: the blocks of
/// `tree_route`, which lead up to it, and then the finalized block itself.
pub fn finalization_path(finalized_hash: BlockHash, tree_route: &Vec<BlockHash>) -> (path: Vec<
    BlockHash,
>)
    ensures
        path@ == tree_route@.push(finalized_hash),
{
    let mut path: Vec<BlockHash> = Vec::new();
    let mut i: usize = 0;
    while i < tree_route.len()
        invariant
            i <= tree_route@.len(),
            path@ == tree_route@.subrange(0, i as int),
        decreases tree_route@.len() - i,
    {
        path.push(tree_route[i]);
        proof {
            assert(path@ =~= tree_route@.subrange(0, i + 1));
        }
        i += 1;
    }
    path.push(finalized_hash);
    proof {
        assert(path@ =~= tree_route@.push(finalized_hash));
    }
    path
}

/// Works out what finalizing a route comes to. `blocks` holds the blocks of the
/// finalization path in order, each with the hashes of the transactions in its
/// body, or with what came of asking for the body. The blocks are taken in
/// order and the transactions of each in the order in which the block holds them.
pub fn finalize_route<X: Copy, E>(blocks: &Vec<(BlockHash, Result<Option<Vec<X>>, E>)>) -> (done:
    FinalizedRoute<X>)
    ensures
        done.notices@ == route_notices(blocks@),
        done.transactions@ == route_transactions(blocks@),
{
    let mut notices: Vec<FinalizedTransaction<X>> = Vec::new();
    let mut transactions: Vec<X> = Vec::new();
    let mut b: usize = 0;
    proof {
        assert(blocks@.subrange(0, 0) =~= Seq::empty());
    }
    while b < blocks.len()
        invariant
            b <= blocks@.len(),
            notices@ == route_notices(blocks@.subrange(0, b as int)),
            transactions@ == route_transactions(blocks@.subrange(0, b as int)),
        decreases blocks@.len() - b,
    {
        let block = blocks[b].0;
        let ghost body = body_transactions(blocks@[b as int].1);
        let ghost notices_before = notices@;
        let ghost transactions_before = transactions@;
        proof {
            assert(blocks@.subrange(0, b + 1).drop_last() =~= blocks@.subrange(0, b as int));
            assert(blocks@.subrange(0, b + 1).last() == blocks@[b as int]);
        }
        match &blocks[b].1 {
            Ok(Some(hashes)) => {
                let mut i: usize = 0;
                while i < hashes.len()
                    invariant
                        i <= hashes@.len(),
                        hashes@ == body,
                        notices@ == notices_before + block_notices(block, body).subrange(
                            0,
                            i as int,
                        ),
                        transactions@ == transactions_before + body.subrange(0, i as int),
                    decreases hashes@.len() - i,
                {
                    let tx_hash = hashes[i];
                    notices.push(FinalizedTransaction { tx_hash, block, index: i });
                    transactions.push(tx_hash);
                    proof {
                        assert(notices@ =~= notices_before + block_notices(block, body).subrange(
                            0,
                            i + 1,
                        ));
                        assert(transactions@ =~= transactions_before + body.subrange(0, i + 1));
                    }
                    i += 1;
                }
                proof {
                    assert(body.subrange(0, body.len() as int) =~= body);
                    assert(block_notices(block, body).subrange(0, body.len() as int)
                        =~= block_notices(block, body));
                }
            },
            _ => {
                proof {
                    assert(notices@ =~= notices_before + block_notices(block, body));
                    assert(transactions@ =~= transactions_before + body);
                }
            },
        }
        b += 1;
    }
    proof {
        assert(blocks@.subrange(0, blocks@.len() as int) =~= blocks@);
    }
    FinalizedRoute { notices, transactions }
}

} // verus!
