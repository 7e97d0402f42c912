//! What holds of the synchronisation as a whole.

use vstd::prelude::*;

use crate::header::{BlockHeaderView, HeaderView};
use crate::header_chain::{CheckedHeader, HeadersChainView, BATCH};
use crate::message::NetworkMessageView;
use crate::node::{NodeView, SyncView, MAX_INVENTORY};

verus! {

/// A node after several lists of headers were added, with these lengths.
pub open spec fn after_lists(node: NodeView, counts: Seq<int>) -> NodeView
    decreases counts.len(),
{
    if counts.len() == 0 {
        node
    } else {
        after_lists(node, counts.drop_last()).after_headers(counts.last())
    }
}

/// The sum of the lengths.
pub open spec fn total(counts: Seq<int>) -> int
    decreases counts.len(),
{
    if counts.len() == 0 {
        0
    } else {
        total(counts.drop_last()) + counts.last()
    }
}

/// As long as the lists of headers together stay below the target, the header synchronisation
/// goes on and counts them all, and the list that reaches the target ends it.
pub proof fn law_header_sync_ends_at_its_target(node: NodeView, counts: Seq<int>, next: int)
    requires
        node.sync is HeaderSync,
        forall|i: int|
            0 <= i <= counts.len() ==> node.sync->current + #[trigger] total(counts.take(i))
                < node.sync->target,
    ensures
        after_lists(node, counts).sync == (SyncView::HeaderSync {
            target: node.sync->target,
            current: node.sync->current + total(counts),
        }),
        after_lists(node, counts).reaches_target(next) <==> node.sync->current + total(counts)
            + next >= node.sync->target,
    decreases counts.len(),
{
    assert(counts.take(counts.len() as int) == counts);
    if counts.len() > 0 {
        let init = counts.drop_last();
        assert forall|i: int| 0 <= i <= init.len() implies node.sync->current + #[trigger] total(
            init.take(i),
        ) < node.sync->target by {
            assert(init.take(i) == counts.take(i));
        }
        law_header_sync_ends_at_its_target(node, init, counts.last());
    }
}

/// A node that fetched an unbroken run of headers on top of the genesis block asks for their
/// blocks from the first on, a batch at a time, and after the last block of a batch for the
/// blocks that follow it.
pub proof fn law_blocks_are_requested_in_order(
    chain: HeadersChainView,
    genesis: Seq<u8>,
    items: Seq<CheckedHeader>,
    k: int,
)
    requires
        crate::header_laws::run_of_headers(chain, genesis, items),
        0 <= k < items.len(),
    ensures
        ({
            let after = chain.processed(items);
            let hashes = crate::header_laws::hashes_of(items);
            let first = if items.len() < BATCH {
                items.len() as int
            } else {
                BATCH as int
            };
            let next = if items.len() < k + 1 + BATCH {
                items.len() as int
            } else {
                k + 1 + BATCH
            };
            &&& crate::node::blocks_request(after, genesis) == NetworkMessageView::GetData(
                hashes.take(first),
            )
            &&& crate::node::blocks_request(after, items[k].hash) == NetworkMessageView::GetData(
                hashes.subrange(k + 1, next),
            )
        }),
{
    crate::header_laws::law_run_is_listed_in_order(chain, genesis, items, BATCH as nat);
    crate::header_laws::law_batches_cover_the_run(chain, genesis, items, k, BATCH as nat);
}

/// A node whose headers were saved once they were synchronised, and which starts again from what
/// is found in storage, does not synchronise them again. Where its blocks do not reach as far as
/// its headers it is in the block synchronisation, and first asks for the blocks after the tip of
/// its headers: for none, where that tip has no next block. Else it has caught up.
pub proof fn law_restart_keeps_the_headers(
    chain: HeadersChainView,
    saved: Seq<(Seq<u8>, BlockHeaderView)>,
    read: Seq<(Seq<u8>, BlockHeaderView)>,
    genesis: HeaderView,
    genesis_hash: Seq<u8>,
    blocks_tip: (int, Seq<u8>),
)
    requires
        chain.tip.0 != 0,
        crate::header_map::lists(saved, chain.headers),
        crate::header_map::lists(read, crate::header_map::written(Map::empty(), saved)),
    ensures
        ({
            let found = crate::header_chain::loaded(
                genesis,
                genesis_hash,
                Some(chain.tip),
                Some(read),
            );
            &&& found == chain
            &&& crate::node::initial_sync(found.tip, blocks_tip) == if chain.tip.0 > blocks_tip.0 {
                SyncView::BlockSync(chain.tip)
            } else {
                SyncView::InSync(blocks_tip)
            }
            &&& chain.headers[chain.tip.1].next_block is None ==> crate::node::blocks_request(
                found,
                chain.tip.1,
            ) == NetworkMessageView::GetData(seq![])
        }),
{
    crate::header_laws::law_saved_chain_is_found_again(
        chain,
        Map::empty(),
        saved,
        read,
        genesis,
        genesis_hash,
    );
    if chain.headers[chain.tip.1].next_block is None {
        assert(crate::header_chain::walk(chain.headers, chain.tip.1, BATCH as nat) =~= seq![]);
    }
}

/// The states that a node goes through: the state does not return to the header synchronisation
/// once it was left.
pub proof fn law_headers_are_synchronised_once(node: NodeView, count: int)
    ensures
        node.after_headers(count).sync is HeaderSync <==> node.sync is HeaderSync,
        node.after_headers(count).chain == node.chain,
        node.after_headers(count).peers == node.peers,
        node.after_headers(count).network == node.network,
{
}

/// A request for blocks can be sent up to the limit on its length, and not beyond; a batch is far
/// below it.
pub proof fn law_requests_fit_up_to_the_limit(hashes: Seq<Seq<u8>>)
    requires
        forall|i: int| 0 <= i < hashes.len() ==> (#[trigger] hashes[i]).len() == 32,
    ensures
        crate::wire::fits(NetworkMessageView::GetData(hashes)) <==> hashes.len() <= MAX_INVENTORY,
        BATCH <= MAX_INVENTORY,
{
    crate::wire::lemma_get_data_len(hashes);
}

/// A batch is complete with its last block and not before: while valid new blocks bring the tip
/// from `last + 1` up, the next batch is asked for when it has come as far as a batch is long,
/// and from then on the count starts again.
pub proof fn law_batches_follow_each_other(sync: SyncView, tip: (int, Seq<u8>))
    ensures
        crate::node::batch_done(sync, true, true, tip) <==> tip.0 - crate::node::last_sync_height(
            sync,
        ) >= BATCH,
        crate::node::batch_done(sync, true, true, tip) ==> !crate::node::batch_done(
            SyncView::InSync(tip),
            true,
            true,
            tip,
        ) && crate::node::last_sync_height(SyncView::InSync(tip)) == tip.0,
        !crate::node::batch_done(sync, false, true, tip),
        !crate::node::batch_done(sync, true, false, tip),
{
}

} // verus!
