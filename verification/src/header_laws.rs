//! What holds of the chain of headers across its operations.

use vstd::prelude::*;

use crate::error::BitcoinValidationError;
use crate::header::{BlockHeaderView, HeaderView, NextBlockView};
use crate::header_chain::{CheckedHeader, HeadersChainView};

verus! {

/// Whether every header is held under its own hash, and every link leads to a header that is
/// held.
pub open spec fn linked(headers: Map<Seq<u8>, BlockHeaderView>) -> bool {
    forall|hash: Seq<u8>| #[trigger]
        headers.contains_key(hash) ==> {
            &&& headers[hash].block_hash == hash
            &&& headers[hash].next_block matches Some(NextBlockView::Chain(next))
                ==> headers.contains_key(next)
        }
}

/// A chain that holds the genesis block alone is linked.
pub proof fn law_genesis_is_linked(genesis: HeaderView, hash: Seq<u8>, tip: Option<(int, Seq<u8>)>)
    ensures
        linked(crate::header_chain::loaded(genesis, hash, tip, None).headers),
{
}

/// Adding headers, accepted or not, keeps a chain linked.
pub proof fn law_processing_keeps_links(chain: HeadersChainView, items: Seq<CheckedHeader>)
    requires
        linked(chain.headers),
    ensures
        linked(chain.processed(items).headers),
    decreases items.len(),
{
    if items.len() > 0 && chain.verdict(items[0]) is Ok {
        let next = chain.extended(items[0].header, items[0].hash);
        assert(linked(next.headers));
        law_processing_keeps_links(next, items.drop_first());
    }
}

/// No header that is held is ever dropped, whatever headers are added.
pub proof fn law_headers_stay_held(chain: HeadersChainView, items: Seq<CheckedHeader>)
    ensures
        forall|hash: Seq<u8>| #[trigger]
            chain.headers.contains_key(hash) ==> chain.processed(items).headers.contains_key(hash),
    decreases items.len(),
{
    if items.len() > 0 && chain.verdict(items[0]) is Ok {
        let next = chain.extended(items[0].header, items[0].hash);
        law_headers_stay_held(next, items.drop_first());
        assert forall|hash: Seq<u8>| #[trigger]
            chain.headers.contains_key(hash) implies chain.processed(items).headers.contains_key(
            hash,
        ) by {
            assert(next.headers.contains_key(hash));
        }
    }
}

/// Whether the tip is held, at the height that it says.
pub open spec fn tip_held(chain: HeadersChainView) -> bool {
    chain.headers.contains_key(chain.tip.1) && chain.headers[chain.tip.1].height == chain.tip.0
}

/// A chain that starts from the genesis block holds its tip.
pub proof fn law_genesis_tip_is_held(genesis: HeaderView, hash: Seq<u8>)
    ensures
        tip_held(crate::header_chain::loaded(genesis, hash, None, None)),
{
}

/// Adding headers, accepted or not, keeps the tip among the headers. No header may be its own
/// parent.
pub proof fn law_tip_stays_held(chain: HeadersChainView, items: Seq<CheckedHeader>)
    requires
        linked(chain.headers),
        tip_held(chain),
        forall|i: int|
            0 <= i < items.len() ==> (#[trigger] items[i]).hash != items[i].header.prev_blockhash,
    ensures
        tip_held(chain.processed(items)),
    decreases items.len(),
{
    if items.len() > 0 && chain.verdict(items[0]) is Ok {
        let next = chain.extended(items[0].header, items[0].hash);
        assert(linked(next.headers));
        let rest = items.drop_first();
        assert forall|i: int| 0 <= i < rest.len() implies (#[trigger] rest[i]).hash
            != rest[i].header.prev_blockhash by {
            assert(rest[i] == items[i + 1]);
        }
        law_tip_stays_held(next, rest);
    }
}

/// In a linked chain the blocks after any known block can be listed.
pub proof fn law_linked_chains_can_be_walked(
    headers: Map<Seq<u8>, BlockHeaderView>,
    start: Seq<u8>,
    n: nat,
)
    requires
        linked(headers),
        headers.contains_key(start),
    ensures
        crate::header_chain::walk_holds(headers, start, n),
    decreases n,
{
    if n > 0 {
        match headers[start].next_block {
            Some(NextBlockView::Chain(next)) => {
                law_linked_chains_can_be_walked(headers, next, (n - 1) as nat);
                let way = crate::header_chain::walk(headers, start, n);
                let rest = crate::header_chain::walk(headers, next, (n - 1) as nat);
                assert forall|i: int| 0 <= i < way.len() implies headers.contains_key(
                    #[trigger] way[i],
                ) by {
                    if i > 0 {
                        assert(way[i] == rest[i - 1]);
                    }
                }
            },
            _ => {},
        }
    }
}

/// Whether the chain is linked, the block after a block names it as its parent, and every block
/// stands one above its parent.
pub open spec fn consistent(headers: Map<Seq<u8>, BlockHeaderView>) -> bool {
    forall|hash: Seq<u8>| #[trigger]
        headers.contains_key(hash) ==> {
            let block = headers[hash];
            &&& block.block_hash == hash
            &&& headers.contains_key(block.previous_block) ==> block.height
                == headers[block.previous_block].height + 1
            &&& block.next_block matches Some(NextBlockView::Chain(next)) ==> headers.contains_key(
                next,
            ) && headers[next].previous_block == hash
        }
}

/// A chain that holds the genesis block alone is consistent. The genesis block must not be its own
/// parent.
pub proof fn law_genesis_is_consistent(
    genesis: HeaderView,
    hash: Seq<u8>,
    tip: Option<(int, Seq<u8>)>,
)
    requires
        hash != genesis.prev_blockhash,
    ensures
        consistent(crate::header_chain::loaded(genesis, hash, tip, None).headers),
{
}

/// Whether the parent of every block but the genesis block is held, and no block has several
/// candidates for the next one.
pub open spec fn rooted(headers: Map<Seq<u8>, BlockHeaderView>, genesis: Seq<u8>) -> bool {
    forall|hash: Seq<u8>| #[trigger]
        headers.contains_key(hash) ==> {
            &&& hash == genesis || headers.contains_key(headers[hash].previous_block)
            &&& !(headers[hash].next_block matches Some(NextBlockView::Tip(_)))
        }
}

/// A chain that holds the genesis block alone is rooted in it.
pub proof fn law_genesis_is_rooted(genesis: HeaderView, hash: Seq<u8>, tip: Option<(int, Seq<u8>)>)
    ensures
        rooted(crate::header_chain::loaded(genesis, hash, tip, None).headers, hash),
{
}

/// Adding headers, accepted or not, keeps a chain rooted in its genesis block.
pub proof fn law_parents_stay_held(
    chain: HeadersChainView,
    items: Seq<CheckedHeader>,
    genesis: Seq<u8>,
)
    requires
        linked(chain.headers),
        rooted(chain.headers, genesis),
    ensures
        rooted(chain.processed(items).headers, genesis),
    decreases items.len(),
{
    if items.len() > 0 && chain.verdict(items[0]) is Ok {
        let next = chain.extended(items[0].header, items[0].hash);
        assert(linked(next.headers));
        assert(chain.headers.contains_key(items[0].header.prev_blockhash));
        assert(rooted(next.headers, genesis));
        law_parents_stay_held(next, items.drop_first(), genesis);
    }
}

/// Whether the hash of a header stands for this header alone: a block that is held under it has
/// the same parent, and if none is held, no held block names it as its parent.
pub open spec fn no_collision(headers: Map<Seq<u8>, BlockHeaderView>, item: CheckedHeader) -> bool {
    if headers.contains_key(item.hash) {
        headers[item.hash].previous_block == item.header.prev_blockhash
    } else {
        forall|hash: Seq<u8>| #[trigger]
            headers.contains_key(hash) ==> headers[hash].previous_block != item.hash
    }
}

/// Whether that holds of each header of a list when it is added.
pub open spec fn collision_free(chain: HeadersChainView, items: Seq<CheckedHeader>) -> bool
    decreases items.len(),
{
    items.len() > 0 && chain.verdict(items[0]) is Ok ==> {
        &&& no_collision(chain.headers, items[0])
        &&& collision_free(
            chain.extended(items[0].header, items[0].hash),
            items.drop_first(),
        )
    }
}

/// One accepted header keeps a chain consistent.
proof fn lemma_extended_consistent(chain: HeadersChainView, item: CheckedHeader)
    requires
        consistent(chain.headers),
        chain.verdict(item) is Ok,
        no_collision(chain.headers, item),
    ensures
        consistent(chain.extended(item.header, item.hash).headers),
{
    let before = chain.headers;
    let after = chain.extended(item.header, item.hash).headers;
    let (hash, prev) = (item.hash, item.header.prev_blockhash);
    let parent = before[prev];
    assert(before.contains_key(prev));
    assert(parent.block_hash == prev);
    // no block is its own parent
    assert(hash != prev);
    assert(after[hash] == item.header.stored(hash, parent.height + 1));
    assert(after[prev].previous_block == parent.previous_block);
    assert(after[prev].height == parent.height);
    assert forall|k: Seq<u8>| #[trigger] after.contains_key(k) implies {
        let block = after[k];
        &&& block.block_hash == k
        &&& after.contains_key(block.previous_block) ==> block.height
            == after[block.previous_block].height + 1
        &&& block.next_block matches Some(NextBlockView::Chain(next)) ==> after.contains_key(next)
            && after[next].previous_block == k
    } by {
        let block = after[k];
        if k != hash {
            assert(before.contains_key(k));
            assert(block.previous_block == before[k].previous_block);
            assert(block.height == before[k].height);
            let q = block.previous_block;
            if q == hash {
                assert(before.contains_key(hash));
            } else if after.contains_key(q) {
                assert(before.contains_key(q));
                assert(after[q].height == before[q].height);
            }
            if k != prev {
                assert(block == before[k]);
                match block.next_block {
                    Some(NextBlockView::Chain(next)) => {
                        assert(before.contains_key(next));
                        assert(after.contains_key(next));
                    },
                    _ => {},
                }
            }
        }
    }
}

/// Adding headers keeps a chain consistent, as long as the hash of each stands for it alone when
/// it is added.
pub proof fn law_heights_follow_parents(chain: HeadersChainView, items: Seq<CheckedHeader>)
    requires
        consistent(chain.headers),
        collision_free(chain, items),
    ensures
        consistent(chain.processed(items).headers),
    decreases items.len(),
{
    if items.len() > 0 && chain.verdict(items[0]) is Ok {
        lemma_extended_consistent(chain, items[0]);
        law_heights_follow_parents(
            chain.extended(items[0].header, items[0].hash),
            items.drop_first(),
        );
    }
}

/// In a consistent chain the blocks that are listed after a block form a chain on top of it: the
/// first has it as its parent, each other one has the one before as its parent, and each stands
/// one higher.
pub proof fn law_inventory_climbs(
    headers: Map<Seq<u8>, BlockHeaderView>,
    start: Seq<u8>,
    n: nat,
    i: int,
)
    requires
        consistent(headers),
        headers.contains_key(start),
        0 <= i < crate::header_chain::walk(headers, start, n).len(),
    ensures
        ({
            let way = crate::header_chain::walk(headers, start, n);
            &&& headers.contains_key(way[i])
            &&& headers[way[i]].previous_block == if i == 0 {
                start
            } else {
                way[i - 1]
            }
            &&& headers[way[i]].height == headers[start].height + i + 1
        }),
    decreases n,
{
    match headers[start].next_block {
        Some(NextBlockView::Chain(next)) => {
            let way = crate::header_chain::walk(headers, start, n);
            let rest = crate::header_chain::walk(headers, next, (n - 1) as nat);
            assert(headers[next].height == headers[start].height + 1);
            if i > 0 {
                assert(way[i] == rest[i - 1]);
                law_inventory_climbs(headers, next, (n - 1) as nat, i - 1);
                if i > 1 {
                    assert(way[i - 1] == rest[i - 2]);
                }
            }
        },
        _ => {},
    }
}

/// The number of leading headers that are accepted.
pub open spec fn accepted(chain: HeadersChainView, items: Seq<CheckedHeader>) -> nat
    decreases items.len(),
{
    if items.len() == 0 || chain.verdict(items[0]) is Err {
        0
    } else {
        1 + accepted(chain.extended(items[0].header, items[0].hash), items.drop_first())
    }
}

/// A list of headers has the effect of its accepted leading part: the first header that is
/// refused, and all that follow it, leave no trace, and its refusal is what is reported.
pub proof fn law_refused_headers_leave_no_trace(
    chain: HeadersChainView,
    items: Seq<CheckedHeader>,
)
    ensures
        ({
            let k = accepted(chain, items);
            let part = items.take(k as int);
            &&& k <= items.len()
            &&& chain.processed(items) == chain.processed(part)
            &&& chain.outcome(part) matches Ok(stored) && stored.len() == k
            &&& if k < items.len() {
                &&& chain.processed(part).verdict(items[k as int]) matches Err(error)
                    && chain.outcome(items) == Err::<
                    Seq<BlockHeaderView>,
                    crate::error::HeaderValidationError,
                >(error)
            } else {
                part == items
            }
        }),
    decreases items.len(),
{
    let k = accepted(chain, items);
    if items.len() == 0 || chain.verdict(items[0]) is Err {
        assert(items.take(0).len() == 0);
        assert(items.len() == 0 ==> items.take(0) == items);
    } else {
        let next = chain.extended(items[0].header, items[0].hash);
        let rest = items.drop_first();
        law_refused_headers_leave_no_trace(next, rest);
        assert(items.take(k as int).drop_first() == rest.take(k - 1));
        assert(items.take(k as int)[0] == items[0]);
        if k < items.len() {
            assert(rest[k - 1] == items[k as int]);
        } else {
            assert(items.take(k as int) =~= items);
        }
    }
}

/// Whether `items` is an unbroken run of blocks on top of `start`, known before or not: each has
/// the one before as its parent, each has done its work, and no two of them share a hash, nor
/// does one with `start`.
pub open spec fn run_of_headers(
    chain: HeadersChainView,
    start: Seq<u8>,
    items: Seq<CheckedHeader>,
) -> bool {
    &&& chain.headers.contains_key(start)
    &&& chain.headers[start].block_hash == start
    &&& items.len() > 0
    &&& items[0].header.prev_blockhash == start
    &&& forall|i: int|
        0 <= i < items.len() ==> (#[trigger] items[i]).pow is Ok && items[i].hash != start
    &&& forall|i: int, j: int|
        0 <= i < j < items.len() ==> (#[trigger] items[i]).hash != (#[trigger] items[j]).hash
    &&& forall|i: int, j: int|
        0 <= i && j == i + 1 && j < items.len() ==> (
        #[trigger] items[j]).header.prev_blockhash == (#[trigger] items[i]).hash
}

/// The hashes of a list of headers.
pub open spec fn hashes_of(items: Seq<CheckedHeader>) -> Seq<Seq<u8>> {
    items.map_values(|item: CheckedHeader| item.hash)
}

/// After an unbroken run of blocks was added on top of a block, all of them were accepted, the
/// last of them is the tip at its height, what else was held is as it was, and the blocks listed
/// after that block are those of the run, in order, whatever was listed there before.
pub proof fn law_run_is_listed_in_order(
    chain: HeadersChainView,
    start: Seq<u8>,
    items: Seq<CheckedHeader>,
    n: nat,
)
    requires
        run_of_headers(chain, start, items),
    ensures
        ({
            let after = chain.processed(items);
            let listed = if n < items.len() {
                n
            } else {
                items.len()
            };
            &&& chain.outcome(items) is Ok
            &&& after.tip == (chain.headers[start].height + items.len(), items.last().hash)
            &&& forall|hash: Seq<u8>| #[trigger]
                chain.headers.contains_key(hash) && hash != start && !hashes_of(items).contains(
                    hash,
                ) ==> after.headers.contains_key(hash) && after.headers[hash]
                    == chain.headers[hash]
            &&& crate::header_chain::walk(after.headers, start, n) == hashes_of(items).take(
                listed as int,
            )
        }),
    decreases items.len(),
{
    let (header, hash) = (items[0].header, items[0].hash);
    let next = chain.extended(header, hash);
    let rest = items.drop_first();
    let after = chain.processed(items);
    let hashes = hashes_of(items);
    assert(chain.verdict(items[0]) is Ok);
    assert(hash != start);
    assert(hashes[0] == hash);
    assert(next.headers[start].next_block == Some(NextBlockView::Chain(hash)));
    assert(next.headers[hash].next_block is None);
    if rest.len() == 0 {
        assert(after == next) by {
            reveal_with_fuel(HeadersChainView::processed, 2);
        }
        assert(next.outcome(rest) is Ok);
        if n > 0 {
            assert(crate::header_chain::walk(after.headers, hash, (n - 1) as nat) =~= seq![]);
            assert(crate::header_chain::walk(after.headers, start, n) =~= seq![hash]);
            assert(hashes.take(1) =~= seq![hash]);
        } else {
            assert(hashes.take(0) =~= seq![]);
        }
    } else {
        assert(run_of_headers(next, hash, rest)) by {
            assert(rest[0] == items[1]);
            assert forall|i: int| 0 <= i < rest.len() implies (#[trigger] rest[i]).pow is Ok
                && rest[i].hash != hash by {
                assert(rest[i] == items[i + 1]);
                assert(items[0].hash != items[i + 1].hash);
            }
            assert forall|i: int, j: int| 0 <= i < j < rest.len() implies (#[trigger] rest[i]).hash
                != (#[trigger] rest[j]).hash by {
                assert(rest[i] == items[i + 1] && rest[j] == items[j + 1]);
            }
            assert forall|i: int, j: int|
                0 <= i && j == i + 1 && j < rest.len() implies (
            #[trigger] rest[j]).header.prev_blockhash == (#[trigger] rest[i]).hash by {
                assert(rest[i] == items[i + 1] && rest[j] == items[j + 1]);
            }
        }
        let m = if n > 0 {
            (n - 1) as nat
        } else {
            0
        };
        law_run_is_listed_in_order(next, hash, rest, m);
        assert(after == next.processed(rest));
        assert(next.headers.contains_key(start) && !hashes_of(rest).contains(start)) by {
            assert forall|i: int| 0 <= i < rest.len() implies #[trigger] hashes_of(rest)[i]
                != start by {
                assert(rest[i] == items[i + 1]);
            }
        }
        assert(after.headers[start] == next.headers[start]);
        assert(rest.last() == items.last());
        assert forall|other: Seq<u8>| #[trigger]
            chain.headers.contains_key(other) && other != start && !hashes.contains(
                other,
            ) implies after.headers.contains_key(other) && after.headers[other]
            == chain.headers[other] by {
            assert forall|i: int| 0 <= i < rest.len() implies #[trigger] hashes_of(rest)[i]
                != other by {
                assert(hashes[i + 1] == hashes_of(rest)[i]);
            }
            assert(next.headers.contains_key(other) && other != hash);
        }
        if n > 0 {
            let rest_listed: int = if m < rest.len() {
                m as int
            } else {
                rest.len() as int
            };
            assert(crate::header_chain::walk(after.headers, start, n) == seq![hash]
                + hashes_of(rest).take(rest_listed));
            assert(hashes.take(rest_listed + 1) =~= seq![hash] + hashes_of(rest).take(
                rest_listed,
            ));
        } else {
            assert(hashes.take(0) =~= seq![]);
        }
    }
}

/// A walk goes on from where a shorter one ended.
proof fn lemma_walk_goes_on(
    headers: Map<Seq<u8>, BlockHeaderView>,
    start: Seq<u8>,
    m: nat,
    n: nat,
)
    requires
        m > 0,
        crate::header_chain::walk(headers, start, m).len() == m,
    ensures
        crate::header_chain::walk(headers, start, m + n) == crate::header_chain::walk(
            headers,
            start,
            m,
        ) + crate::header_chain::walk(
            headers,
            crate::header_chain::walk(headers, start, m).last(),
            n,
        ),
    decreases m,
{
    let first = crate::header_chain::walk(headers, start, m);
    match headers[start].next_block {
        Some(NextBlockView::Chain(next)) => {
            let rest = crate::header_chain::walk(headers, next, (m - 1) as nat);
            assert(first == seq![next] + rest);
            if m == 1 {
                assert(rest.len() == 0);
                assert(first.last() == next);
                assert(crate::header_chain::walk(headers, start, 1 + n) =~= first
                    + crate::header_chain::walk(headers, next, n));
            } else {
                assert(first.last() == rest.last());
                lemma_walk_goes_on(headers, next, (m - 1) as nat, n);
                let tail = crate::header_chain::walk(headers, first.last(), n);
                assert((m + n - 1) as nat == (m - 1) as nat + n);
                assert(crate::header_chain::walk(headers, start, m + n) =~= seq![next] + (rest
                    + tail));
                assert(seq![next] + (rest + tail) =~= first + tail);
            }
        },
        _ => {},
    }
}

/// After an unbroken run of blocks was added, the blocks listed after any block of the run
/// are those that follow it there, in order. So batches that each start from the last block of
/// the batch before list every block of the run once.
pub proof fn law_batches_cover_the_run(
    chain: HeadersChainView,
    start: Seq<u8>,
    items: Seq<CheckedHeader>,
    k: int,
    n: nat,
)
    requires
        run_of_headers(chain, start, items),
        0 <= k < items.len(),
    ensures
        ({
            let end = if k + 1 + n < items.len() {
                k + 1 + n
            } else {
                items.len() as int
            };
            crate::header_chain::walk(chain.processed(items).headers, items[k].hash, n)
                == hashes_of(items).subrange(k + 1, end)
        }),
{
    let headers = chain.processed(items).headers;
    let hashes = hashes_of(items);
    let m = (k + 1) as nat;
    law_run_is_listed_in_order(chain, start, items, m);
    law_run_is_listed_in_order(chain, start, items, m + n);
    let first = crate::header_chain::walk(headers, start, m);
    assert(first == hashes.take(k + 1));
    assert(first.last() == items[k].hash);
    lemma_walk_goes_on(headers, start, m, n);
    let end = if k + 1 + n < items.len() {
        k + 1 + n
    } else {
        items.len() as int
    };
    let rest = crate::header_chain::walk(headers, items[k].hash, n);
    assert(hashes.take(end) == first + rest);
    assert(rest =~= hashes.take(end).skip(k + 1));
    assert(hashes.take(end).skip(k + 1) =~= hashes.subrange(k + 1, end));
}

/// Of two headers with the same parent that are added in turn, both are held one above the
/// parent; the parent points to the later one, and the later one is the tip. Neither may be its
/// own parent.
pub proof fn law_later_sibling_is_linked(
    chain: HeadersChainView,
    first: CheckedHeader,
    second: CheckedHeader,
)
    requires
        first.header.prev_blockhash == second.header.prev_blockhash,
        first.hash != first.header.prev_blockhash,
        second.hash != second.header.prev_blockhash,
        chain.headers[first.header.prev_blockhash].block_hash == first.header.prev_blockhash,
        chain.outcome(seq![first]) is Ok,
        chain.processed(seq![first]).outcome(seq![second]) is Ok,
    ensures
        ({
            let parent = first.header.prev_blockhash;
            let height = chain.headers[parent].height + 1;
            let after = chain.processed(seq![first]).processed(seq![second]);
            &&& after.headers.contains_key(first.hash) && after.headers[first.hash].height == height
            &&& after.headers.contains_key(second.hash) && after.headers[second.hash].height
                == height
            &&& after.headers[parent].next_block == Some(NextBlockView::Chain(second.hash))
            &&& after.tip == (height, second.hash)
        }),
{
    lemma_processed_one(chain, first);
    lemma_processed_one(chain.processed(seq![first]), second);
}

/// A list of one accepted header extends the chain by it.
proof fn lemma_processed_one(chain: HeadersChainView, item: CheckedHeader)
    requires
        chain.outcome(seq![item]) is Ok,
    ensures
        chain.verdict(item) is Ok,
        chain.processed(seq![item]) == chain.extended(item.header, item.hash),
{
    let items = seq![item];
    assert(items[0] == item);
    let next = chain.extended(item.header, item.hash);
    assert(next.processed(items.drop_first()) == next);
}

/// Whether what is held under the hash of a header is that header.
pub open spec fn known_as(headers: Map<Seq<u8>, BlockHeaderView>, item: CheckedHeader) -> bool {
    headers.contains_key(item.hash) ==> headers[item.hash] == (BlockHeaderView {
        next_block: headers[item.hash].next_block,
        ..item.header.stored(item.hash, headers[item.hash].height)
    })
}

/// Whether no two headers share a hash, of those held and those in a list.
pub open spec fn hashes_name_headers(
    headers: Map<Seq<u8>, BlockHeaderView>,
    items: Seq<CheckedHeader>,
) -> bool {
    &&& forall|i: int| 0 <= i < items.len() ==> known_as(headers, #[trigger] items[i])
    &&& forall|i: int, j: int|
        0 <= i < items.len() && 0 <= j < items.len() && (#[trigger] items[i]).hash == (
        #[trigger] items[j]).hash ==> items[i].header == items[j].header
}

/// Whether what is held in `before` is held in `after`, whatever the links say.
pub open spec fn kept(
    before: Map<Seq<u8>, BlockHeaderView>,
    after: Map<Seq<u8>, BlockHeaderView>,
) -> bool {
    forall|hash: Seq<u8>| #[trigger]
        before.contains_key(hash) ==> after.contains_key(hash) && after[hash] == (BlockHeaderView {
            next_block: after[hash].next_block,
            ..before[hash]
        })
}

/// An accepted header changes nothing but links in what is held.
proof fn lemma_extended_keeps(chain: HeadersChainView, items: Seq<CheckedHeader>)
    requires
        items.len() > 0,
        consistent(chain.headers),
        chain.verdict(items[0]) is Ok,
        no_collision(chain.headers, items[0]),
        hashes_name_headers(chain.headers, items),
    ensures
        items[0].hash != items[0].header.prev_blockhash,
        kept(chain.headers, chain.extended(items[0].header, items[0].hash).headers),
        hashes_name_headers(
            chain.extended(items[0].header, items[0].hash).headers,
            items.drop_first(),
        ),
{
    let (hash, prev) = (items[0].hash, items[0].header.prev_blockhash);
    let before = chain.headers;
    let after = chain.extended(items[0].header, hash).headers;
    let rest = items.drop_first();
    assert(before.contains_key(prev));
    assert(known_as(before, items[0]));
    assert(hash != prev);
    assert forall|k: Seq<u8>| #[trigger] before.contains_key(k) implies after.contains_key(k)
        && after[k] == (BlockHeaderView { next_block: after[k].next_block, ..before[k] }) by {
        if k == hash {
            assert(before[k].height == before[prev].height + 1);
        }
    }
    assert forall|i: int| 0 <= i < rest.len() implies known_as(after, #[trigger] rest[i]) by {
        assert(rest[i] == items[i + 1]);
        assert(known_as(before, items[i + 1]));
        if rest[i].hash == hash {
            assert(items[0].header == items[i + 1].header);
        }
    }
    assert forall|i: int, j: int|
        0 <= i < rest.len() && 0 <= j < rest.len() && (#[trigger] rest[i]).hash == (
        #[trigger] rest[j]).hash implies rest[i].header == rest[j].header by {
        assert(rest[i] == items[i + 1] && rest[j] == items[j + 1]);
    }
}

/// A list of headers changes nothing but links in what is held.
proof fn lemma_processed_keeps(chain: HeadersChainView, items: Seq<CheckedHeader>)
    requires
        consistent(chain.headers),
        collision_free(chain, items),
        hashes_name_headers(chain.headers, items),
    ensures
        kept(chain.headers, chain.processed(items).headers),
    decreases items.len(),
{
    if items.len() > 0 && chain.verdict(items[0]) is Ok {
        let next = chain.extended(items[0].header, items[0].hash);
        lemma_extended_keeps(chain, items);
        lemma_extended_consistent(chain, items[0]);
        lemma_processed_keeps(next, items.drop_first());
        let last = chain.processed(items).headers;
        assert forall|k: Seq<u8>| #[trigger]
            chain.headers.contains_key(k) implies last.contains_key(k) && last[k] == (
        BlockHeaderView { next_block: last[k].next_block, ..chain.headers[k] }) by {
            assert(next.headers.contains_key(k));
        }
    }
}

/// Adding `items` to `first` gives `last`. Where `again` is `last` but for the `touched` entries,
/// which are those of `first`, adding `items` to it goes the same way.
proof fn lemma_added_again(
    first: HeadersChainView,
    again: HeadersChainView,
    touched: Set<Seq<u8>>,
    items: Seq<CheckedHeader>,
)
    requires
        consistent(first.headers),
        collision_free(first, items),
        hashes_name_headers(first.headers, items),
        first.outcome(items) is Ok,
        touched.subset_of(first.headers.dom()),
        again.headers.dom() == first.processed(items).headers.dom(),
        forall|k: Seq<u8>| #[trigger]
            again.headers.contains_key(k) ==> again.headers[k] == if touched.contains(k) {
                first.headers[k]
            } else {
                first.processed(items).headers[k]
            },
    ensures
        again.heights_fit(items) == first.heights_fit(items),
        again.outcome(items) == first.outcome(items),
        again.processed(items).headers == first.processed(items).headers,
        items.len() > 0 ==> again.processed(items).tip == first.processed(items).tip,
    decreases items.len(),
{
    let last = first.processed(items).headers;
    if items.len() == 0 {
        assert(again.headers =~= last);
    } else {
        let (header, hash) = (items[0].header, items[0].hash);
        let prev = header.prev_blockhash;
        let rest = items.drop_first();
        assert(first.verdict(items[0]) is Ok);
        let next = first.extended(header, hash);
        lemma_extended_keeps(first, items);
        lemma_extended_consistent(first, items[0]);
        lemma_processed_keeps(next, rest);
        assert(last == next.processed(rest).headers);
        assert(first.headers.contains_key(prev));
        assert(next.headers.contains_key(prev) && next.headers.contains_key(hash));
        assert(last.contains_key(prev) && last.contains_key(hash));
        assert(again.headers.contains_key(prev));
        assert(again.headers[prev] == (BlockHeaderView {
            next_block: again.headers[prev].next_block,
            ..first.headers[prev]
        }));
        let then = again.extended(header, hash);
        let now = touched.insert(hash).insert(prev);
        assert(then.headers.dom() =~= last.dom());
        assert forall|k: Seq<u8>| #[trigger] then.headers.contains_key(k) implies then.headers[k]
            == if now.contains(k) {
            next.headers[k]
        } else {
            last[k]
        } by {
            assert(again.headers.contains_key(k));
        }
        lemma_added_again(next, then, now, rest);
        if rest.len() == 0 {
            assert(then.processed(rest) == then);
            assert(next.processed(rest) == next);
        }
    }
}

/// Headers that were just accepted are accepted again, with the same result, and leave the chain
/// and its tip as they are. The hash of each must stand for it alone.
pub proof fn law_known_headers_change_nothing(chain: HeadersChainView, items: Seq<CheckedHeader>)
    requires
        consistent(chain.headers),
        collision_free(chain, items),
        hashes_name_headers(chain.headers, items),
        chain.outcome(items) is Ok,
    ensures
        ({
            let after = chain.processed(items);
            &&& after.heights_fit(items) == chain.heights_fit(items)
            &&& after.outcome(items) == chain.outcome(items)
            &&& after.processed(items) == after
        }),
{
    lemma_added_again(chain, chain.processed(items), Set::empty(), items);
}

/// A chain after several lists of headers were added, accepted or not.
pub open spec fn history(
    chain: HeadersChainView,
    lists: Seq<Seq<CheckedHeader>>,
) -> HeadersChainView
    decreases lists.len(),
{
    if lists.len() == 0 {
        chain
    } else {
        history(chain, lists.drop_last()).processed(lists.last())
    }
}

/// Whether a header stands in one of the lists.
pub open spec fn occurs(lists: Seq<Seq<CheckedHeader>>, item: CheckedHeader) -> bool {
    exists|l: int| 0 <= l < lists.len() && (#[trigger] lists[l]).contains(item)
}

/// Whether hashes do not collide: among the genesis block and all headers of the lists, equal
/// hashes mean equal headers, and none of them has the hash that the genesis block names as its
/// parent.
pub open spec fn hashes_differ(
    genesis: HeaderView,
    genesis_hash: Seq<u8>,
    lists: Seq<Seq<CheckedHeader>>,
) -> bool {
    &&& genesis_hash != genesis.prev_blockhash
    &&& forall|item: CheckedHeader| #[trigger]
        occurs(lists, item) ==> item.hash != genesis.prev_blockhash && (item.hash == genesis_hash
            ==> item.header == genesis)
    &&& forall|left: CheckedHeader, right: CheckedHeader| #[trigger]
        occurs(lists, left) && #[trigger] occurs(lists, right) && left.hash == right.hash
            ==> left.header == right.header
}

/// The header that a hash stands for.
spec fn header_of(
    genesis: HeaderView,
    genesis_hash: Seq<u8>,
    lists: Seq<Seq<CheckedHeader>>,
    hash: Seq<u8>,
) -> HeaderView {
    if hash == genesis_hash {
        genesis
    } else {
        (choose|item: CheckedHeader| #[trigger] occurs(lists, item) && item.hash == hash).header
    }
}

/// Whether everything holds of a chain that a history of additions keeps, where hashes stand for
/// the headers that `names` gives.
spec fn kept_by_history(
    chain: HeadersChainView,
    genesis_hash: Seq<u8>,
    names: spec_fn(Seq<u8>) -> HeaderView,
) -> bool {
    &&& consistent(chain.headers)
    &&& rooted(chain.headers, genesis_hash)
    &&& tip_held(chain)
    &&& forall|hash: Seq<u8>| #[trigger]
        chain.headers.contains_key(hash) ==> chain.headers[hash] == (BlockHeaderView {
            next_block: chain.headers[hash].next_block,
            ..names(hash).stored(hash, chain.headers[hash].height)
        })
}

/// One more list keeps it, and there are no collisions.
proof fn lemma_list_keeps_history(
    chain: HeadersChainView,
    items: Seq<CheckedHeader>,
    genesis_hash: Seq<u8>,
    names: spec_fn(Seq<u8>) -> HeaderView,
)
    requires
        kept_by_history(chain, genesis_hash, names),
        forall|i: int|
            0 <= i < items.len() ==> names((#[trigger] items[i]).hash) == items[i].header
                && items[i].hash != names(genesis_hash).prev_blockhash,
    ensures
        collision_free(chain, items),
        hashes_name_headers(chain.headers, items),
        kept_by_history(chain.processed(items), genesis_hash, names),
    decreases items.len(),
{
    assert forall|i: int| 0 <= i < items.len() implies known_as(
        chain.headers,
        #[trigger] items[i],
    ) by {}
    assert(hashes_name_headers(chain.headers, items));
    if items.len() > 0 && chain.verdict(items[0]) is Ok {
        let (header, hash) = (items[0].header, items[0].hash);
        let prev = header.prev_blockhash;
        let next = chain.extended(header, hash);
        let rest = items.drop_first();
        assert(names(hash) == header);
        assert(no_collision(chain.headers, items[0])) by {
            if !chain.headers.contains_key(hash) {
                assert forall|k: Seq<u8>| #[trigger] chain.headers.contains_key(k) implies
                    chain.headers[k].previous_block != hash by {
                    if k == genesis_hash {
                        assert(chain.headers[k].previous_block
                            == names(genesis_hash).prev_blockhash);
                    }
                }
            }
        }
        lemma_extended_keeps(chain, items);
        lemma_extended_consistent(chain, items[0]);
        assert(chain.headers.contains_key(prev));
        assert(rooted(next.headers, genesis_hash));
        assert(tip_held(next));
        assert forall|k: Seq<u8>| #[trigger] next.headers.contains_key(k) implies next.headers[k]
            == (BlockHeaderView {
            next_block: next.headers[k].next_block,
            ..names(k).stored(k, next.headers[k].height)
        }) by {
            if k != hash {
                assert(chain.headers.contains_key(k));
            }
        }
        assert forall|i: int| 0 <= i < rest.len() implies names((#[trigger] rest[i]).hash)
            == rest[i].header && rest[i].hash != names(genesis_hash).prev_blockhash by {
            assert(rest[i] == items[i + 1]);
        }
        lemma_list_keeps_history(next, rest, genesis_hash, names);
    }
}

/// Several lists keep it.
proof fn lemma_lists_keep_history(
    genesis: HeaderView,
    genesis_hash: Seq<u8>,
    lists: Seq<Seq<CheckedHeader>>,
    names: spec_fn(Seq<u8>) -> HeaderView,
)
    requires
        names(genesis_hash) == genesis,
        genesis_hash != genesis.prev_blockhash,
        forall|item: CheckedHeader| #[trigger]
            occurs(lists, item) ==> names(item.hash) == item.header && item.hash
                != genesis.prev_blockhash,
    ensures
        kept_by_history(
            history(crate::header_chain::loaded(genesis, genesis_hash, None, None), lists),
            genesis_hash,
            names,
        ),
    decreases lists.len(),
{
    let fresh = crate::header_chain::loaded(genesis, genesis_hash, None, None);
    if lists.len() > 0 {
        let init = lists.drop_last();
        let items = lists.last();
        assert forall|item: CheckedHeader| #[trigger] occurs(init, item) implies names(item.hash)
            == item.header && item.hash != genesis.prev_blockhash by {
            let l = choose|l: int| 0 <= l < init.len() && (#[trigger] init[l]).contains(item);
            assert(lists[l].contains(item));
            assert(occurs(lists, item));
        }
        lemma_lists_keep_history(genesis, genesis_hash, init, names);
        assert forall|i: int| 0 <= i < items.len() implies names((#[trigger] items[i]).hash)
            == items[i].header && items[i].hash != names(genesis_hash).prev_blockhash by {
            assert(lists[lists.len() - 1].contains(items[i]));
            assert(occurs(lists, items[i]));
        }
        lemma_list_keeps_history(history(fresh, init), items, genesis_hash, names);
    }
}

/// Where hashes do not collide, each header of the lists is what its hash stands for.
proof fn lemma_header_of(
    genesis: HeaderView,
    genesis_hash: Seq<u8>,
    lists: Seq<Seq<CheckedHeader>>,
    item: CheckedHeader,
)
    requires
        hashes_differ(genesis, genesis_hash, lists),
        occurs(lists, item),
    ensures
        header_of(genesis, genesis_hash, lists, item.hash) == item.header,
{
    if item.hash != genesis_hash {
        let other = choose|other: CheckedHeader| #[trigger]
            occurs(lists, other) && other.hash == item.hash;
        assert(occurs(lists, other) && other.hash == item.hash);
    }
}

/// Whatever lists of headers were added to a chain that started from the genesis block, accepted
/// or not: every header is held under its own hash; every block but the genesis block stands one
/// above its parent, which is held; a block that points to a next one points to exactly one,
/// which is held and names it as its parent; and the tip is held at its height. Hashes must not
/// collide.
pub proof fn law_history_is_sound(
    genesis: HeaderView,
    genesis_hash: Seq<u8>,
    lists: Seq<Seq<CheckedHeader>>,
)
    requires
        hashes_differ(genesis, genesis_hash, lists),
    ensures
        ({
            let chain = history(
                crate::header_chain::loaded(genesis, genesis_hash, None, None),
                lists,
            );
            &&& linked(chain.headers)
            &&& consistent(chain.headers)
            &&& rooted(chain.headers, genesis_hash)
            &&& tip_held(chain)
        }),
{
    let names = |hash: Seq<u8>| header_of(genesis, genesis_hash, lists, hash);
    assert forall|item: CheckedHeader| #[trigger] occurs(lists, item) implies names(item.hash)
        == item.header && item.hash != genesis.prev_blockhash by {
        lemma_header_of(genesis, genesis_hash, lists, item);
    }
    lemma_lists_keep_history(genesis, genesis_hash, lists, names);
}

/// Headers that are added to such a chain stand alone under their hashes. Where they are all
/// accepted, they are accepted again, with the same result, and leave the chain and its tip as
/// they are. Hashes must not collide.
pub proof fn law_history_takes_known_headers(
    genesis: HeaderView,
    genesis_hash: Seq<u8>,
    lists: Seq<Seq<CheckedHeader>>,
    items: Seq<CheckedHeader>,
)
    requires
        hashes_differ(genesis, genesis_hash, lists.push(items)),
    ensures
        ({
            let chain = history(
                crate::header_chain::loaded(genesis, genesis_hash, None, None),
                lists,
            );
            let after = chain.processed(items);
            &&& collision_free(chain, items)
            &&& chain.outcome(items) is Ok ==> {
                &&& after.heights_fit(items) == chain.heights_fit(items)
                &&& after.outcome(items) == chain.outcome(items)
                &&& after.processed(items) == after
            }
        }),
{
    let all = lists.push(items);
    let chain = history(crate::header_chain::loaded(genesis, genesis_hash, None, None), lists);
    let names = |hash: Seq<u8>| header_of(genesis, genesis_hash, all, hash);
    assert forall|item: CheckedHeader| #[trigger] occurs(lists, item) implies names(item.hash)
        == item.header && item.hash != genesis.prev_blockhash by {
        let l = choose|l: int| 0 <= l < lists.len() && (#[trigger] lists[l]).contains(item);
        assert(all[l].contains(item));
        lemma_header_of(genesis, genesis_hash, all, item);
    }
    lemma_lists_keep_history(genesis, genesis_hash, lists, names);
    assert forall|i: int| 0 <= i < items.len() implies names((#[trigger] items[i]).hash)
        == items[i].header && items[i].hash != names(genesis_hash).prev_blockhash by {
        assert(all[lists.len() as int].contains(items[i]));
        assert(occurs(all, items[i]));
        lemma_header_of(genesis, genesis_hash, all, items[i]);
    }
    lemma_list_keeps_history(chain, items, genesis_hash, names);
    if chain.outcome(items) is Ok {
        law_known_headers_change_nothing(chain, items);
    }
}

/// The check of a header against its own target compares its hash with the number that its bits
/// stand for.
pub proof fn law_work_is_measured_by_the_bits(header: HeaderView)
    ensures
        header.pow() == if crate::bytes::le_value(header.block_hash())
            <= crate::consensus::compact_target(header.bits) {
            Ok::<Seq<u8>, BitcoinValidationError>(header.block_hash())
        } else {
            Err(BitcoinValidationError::BadProofOfWork)
        },
{
    let target = crate::consensus::compact_target(header.bits);
    vstd::arithmetic::power::lemma_pow_positive(256, 32);
    assert(target < vstd::arithmetic::power::pow(256, 32));
    crate::bytes::lemma_le_value_of_bytes(target, 32);
}

/// A chain that was saved whole is found again: reading the table back, in any order, gives the
/// chain as it was, its links and its tip with it. What the table held before must be part of
/// the chain.
pub proof fn law_saved_chain_is_found_again(
    chain: HeadersChainView,
    table: Map<Seq<u8>, BlockHeaderView>,
    saved: Seq<(Seq<u8>, BlockHeaderView)>,
    read: Seq<(Seq<u8>, BlockHeaderView)>,
    genesis: HeaderView,
    genesis_hash: Seq<u8>,
)
    requires
        table.dom().subset_of(chain.headers.dom()),
        crate::header_map::lists(saved, chain.headers),
        crate::header_map::lists(read, crate::header_map::written(table, saved)),
    ensures
        crate::header_chain::loaded(genesis, genesis_hash, Some(chain.tip), Some(read)) == chain,
{
    crate::header_map::lemma_written_lists(table, saved, chain.headers);
    assert(crate::header_map::written(table, saved) =~= chain.headers);
    crate::header_map::lemma_written_lists(Map::empty(), read, chain.headers);
    assert(Map::<Seq<u8>, BlockHeaderView>::empty().union_prefer_right(chain.headers)
        =~= chain.headers);
}

/// A history of additions drops no header.
proof fn lemma_history_keeps(chain: HeadersChainView, lists: Seq<Seq<CheckedHeader>>)
    ensures
        forall|hash: Seq<u8>| #[trigger]
            chain.headers.contains_key(hash) ==> history(chain, lists).headers.contains_key(hash),
    decreases lists.len(),
{
    if lists.len() > 0 {
        lemma_history_keeps(chain, lists.drop_last());
        law_headers_stay_held(history(chain, lists.drop_last()), lists.last());
    }
}

/// A chain that was opened from a table, grew by any lists of headers, and was saved whole to
/// that same table is found again there: `opened` is what was read first, `saved` what was
/// written, and `read` what was read then, in any order.
pub proof fn law_reopened_chain_is_found_again(
    table: Map<Seq<u8>, BlockHeaderView>,
    opened: Seq<(Seq<u8>, BlockHeaderView)>,
    tip: Option<(int, Seq<u8>)>,
    lists: Seq<Seq<CheckedHeader>>,
    saved: Seq<(Seq<u8>, BlockHeaderView)>,
    read: Seq<(Seq<u8>, BlockHeaderView)>,
    genesis: HeaderView,
    genesis_hash: Seq<u8>,
)
    requires
        crate::header_map::lists(opened, table),
        ({
            let chain = history(
                crate::header_chain::loaded(genesis, genesis_hash, tip, Some(opened)),
                lists,
            );
            &&& crate::header_map::lists(saved, chain.headers)
            &&& crate::header_map::lists(read, crate::header_map::written(table, saved))
        }),
    ensures
        ({
            let chain = history(
                crate::header_chain::loaded(genesis, genesis_hash, tip, Some(opened)),
                lists,
            );
            crate::header_chain::loaded(genesis, genesis_hash, Some(chain.tip), Some(read)) == chain
        }),
{
    let start = crate::header_chain::loaded(genesis, genesis_hash, tip, Some(opened));
    let chain = history(start, lists);
    crate::header_map::lemma_written_lists(Map::empty(), opened, table);
    assert(start.headers =~= table);
    lemma_history_keeps(start, lists);
    assert forall|hash: Seq<u8>| #[trigger] table.dom().contains(hash) implies
        chain.headers.dom().contains(hash) by {
        assert(start.headers.contains_key(hash));
    }
    law_saved_chain_is_found_again(chain, table, saved, read, genesis, genesis_hash);
}

/// Whether two tables hold the same headers, whatever their links say.
pub open spec fn same_but_links(
    left: Map<Seq<u8>, BlockHeaderView>,
    right: Map<Seq<u8>, BlockHeaderView>,
) -> bool {
    &&& left.dom() == right.dom()
    &&& forall|hash: Seq<u8>| #[trigger]
        left.contains_key(hash) ==> left[hash] == (BlockHeaderView {
            next_block: left[hash].next_block,
            ..right[hash]
        })
}

/// Writing two lists one after the other is writing both.
proof fn lemma_written_in_turn(
    table: Map<Seq<u8>, BlockHeaderView>,
    first: Seq<(Seq<u8>, BlockHeaderView)>,
    second: Seq<(Seq<u8>, BlockHeaderView)>,
)
    ensures
        crate::header_map::written(table, first + second) == crate::header_map::written(
            crate::header_map::written(table, first),
            second,
        ),
    decreases second.len(),
{
    if second.len() == 0 {
        assert(first + second =~= first);
    } else {
        assert((first + second).drop_last() =~= first + second.drop_last());
        lemma_written_in_turn(table, first, second.drop_last());
    }
}

/// Headers that are saved as they come in keep the table up to date but for the links: where a
/// table held the headers of a chain, and the headers that were then added are written to it, it
/// holds the headers of the longer chain. No header may be its own parent.
pub proof fn law_saved_headers_are_found_again(
    chain: HeadersChainView,
    table: Map<Seq<u8>, BlockHeaderView>,
    items: Seq<CheckedHeader>,
)
    requires
        linked(chain.headers),
        same_but_links(table, chain.headers),
        chain.outcome(items) is Ok,
        forall|i: int|
            0 <= i < items.len() ==> (#[trigger] items[i]).hash != items[i].header.prev_blockhash,
    ensures
        same_but_links(
            crate::header_map::written(
                table,
                crate::header_chain::keyed(chain.outcome(items).unwrap()),
            ),
            chain.processed(items).headers,
        ),
    decreases items.len(),
{
    let stored = chain.outcome(items).unwrap();
    if items.len() == 0 {
        assert(crate::header_chain::keyed(stored) =~= seq![]);
    } else {
        let (header, hash) = (items[0].header, items[0].hash);
        let next = chain.extended(header, hash);
        let rest = items.drop_first();
        let parent = chain.headers[header.prev_blockhash];
        let first = header.stored(hash, parent.height + 1);
        let one = seq![(hash, first)];
        let later = next.outcome(rest).unwrap();
        assert(crate::header_chain::keyed(stored) =~= one + crate::header_chain::keyed(later));
        lemma_written_in_turn(table, one, crate::header_chain::keyed(later));
        let middle = crate::header_map::written(table, one);
        assert(middle == table.insert(hash, first)) by {
            assert(one.drop_last() =~= seq![]);
            assert(crate::header_map::written(table, one.drop_last()) == table);
        }
        assert(chain.headers.contains_key(header.prev_blockhash));
        assert(hash != header.prev_blockhash) by {
            assert(items[0].hash != items[0].header.prev_blockhash);
        }
        assert(same_but_links(middle, next.headers)) by {
            assert(middle.dom() =~= next.headers.dom());
            assert forall|k: Seq<u8>| #[trigger] middle.contains_key(k) implies middle[k] == (
            BlockHeaderView { next_block: middle[k].next_block, ..next.headers[k] }) by {
                if k != hash {
                    assert(table.contains_key(k));
                }
            }
        }
        assert(linked(next.headers));
        assert forall|i: int| 0 <= i < rest.len() implies (#[trigger] rest[i]).hash
            != rest[i].header.prev_blockhash by {
            assert(rest[i] == items[i + 1]);
        }
        law_saved_headers_are_found_again(next, middle, rest);
    }
}

} // verus!
