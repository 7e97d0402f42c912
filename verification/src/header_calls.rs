//! What calls on the chain of headers give, in terms of what goes in and what comes out.

use vstd::prelude::*;

use crate::error::{BitcoinValidationError, HeaderChainError, HeaderValidationError};
use crate::header::{
    BlockHash, BlockHeader, BlockHeaderView, BlockIndex, Header, HeaderView, Height, NextBlock,
    NextBlockView,
};
use crate::header_chain::{
    CheckedHeader, HeadersChain, HeadersChainView, Prospect, SavedHeaders,
};
use crate::header_map::HeaderMap;
use crate::message::Inventory;
use crate::network::Network;

verus! {

/// The hash of a header, from its fields.
pub open spec fn hash_of(header: HeaderView) -> Seq<u8> {
    crate::consensus::block_hash_of(
        header.version,
        header.prev_blockhash,
        header.merkle_root,
        header.time,
        header.bits,
        header.nonce,
    )
}

/// Whether the hash of a header, as a number, is at most the number that its bits stand for.
pub open spec fn worked(header: HeaderView) -> bool {
    crate::bytes::le_value(hash_of(header)) <= crate::consensus::compact_target(header.bits)
}

/// A header shows all that it holds.
pub proof fn law_view_of_header(header: Header)
    ensures
        header@.version == header.version,
        header@.prev_blockhash == header.prev_blockhash@,
        header@.merkle_root == header.merkle_root@,
        header@.time == header.time,
        header@.bits == header.bits,
        header@.nonce == header.nonce,
{
}

/// A stored header shows all that it holds, its link among it.
pub proof fn law_view_of_block_header(header: BlockHeader)
    ensures
        header@.block_hash == header.block_hash@,
        header@.previous_block == header.previous_block@,
        header@.merkle_root == header.merkle_root@,
        header@.time == header.time,
        header@.nonce == header.nonce,
        header@.height == header.height,
        header.next_block is None <==> header@.next_block is None,
        header.next_block matches Some(NextBlock::Chain(next)) ==> header@.next_block == Some(
            NextBlockView::Chain(next@),
        ),
        header.next_block matches Some(NextBlock::Tip(hashes)) ==> {
            &&& header@.next_block matches Some(NextBlockView::Tip(view))
            &&& view.len() == hashes@.len()
            &&& forall|i: int| 0 <= i < view.len() ==> #[trigger] view[i] == hashes@[i]@
        },
{
}

/// A height and a hash show both.
pub proof fn law_view_of_block_index(index: BlockIndex)
    ensures
        index@.0 == index.0,
        index@.1 == index.1@,
{
}

/// A header brings its own hash and the check of its own work.
pub proof fn law_checked_header(header: HeaderView)
    ensures
        header.checked().header == header,
        header.checked().hash == hash_of(header),
        header.checked().pow is Ok <==> worked(header),
        header.checked().pow is Err ==> header.checked().pow == Err::<
            Seq<u8>,
            BitcoinValidationError,
        >(BitcoinValidationError::BadProofOfWork),
{
    crate::header_laws::law_work_is_measured_by_the_bits(header);
}

/// A header is accepted exactly where its parent is held and its hash meets its own target,
/// whatever else it says; and the reason for a refusal is the first of the two that fails.
pub proof fn law_acceptance_is_parent_and_work(chain: HeadersChainView, header: HeaderView)
    ensures
        chain.verdict(header.checked()) is Ok <==> chain.headers.contains_key(header.prev_blockhash)
            && worked(header),
        chain.verdict(header.checked()) == Err::<(), HeaderValidationError>(
            HeaderValidationError::PrevBlockNotFound,
        ) <==> !chain.headers.contains_key(header.prev_blockhash),
        chain.verdict(header.checked()) == Err::<(), HeaderValidationError>(
            HeaderValidationError::BitcoinValidationError(BitcoinValidationError::BadProofOfWork),
        ) <==> chain.headers.contains_key(header.prev_blockhash) && !worked(header),
{
    law_checked_header(header);
}

/// What `validate_header` says: the parent is held, and the hash meets the target.
pub proof fn law_validate_header(
    chain: &HeadersChain,
    header: &Header,
    verdict: Result<(), HeaderValidationError>,
)
    requires
        call_ensures(HeadersChain::validate_header, (chain, header), verdict),
    ensures
        verdict is Ok <==> chain@.headers.contains_key(header.prev_blockhash@) && worked(header@),
        verdict == Err::<(), HeaderValidationError>(
            HeaderValidationError::PrevBlockNotFound,
        ) <==> !chain@.headers.contains_key(header.prev_blockhash@),
        verdict == Err::<(), HeaderValidationError>(
            HeaderValidationError::BitcoinValidationError(BitcoinValidationError::BadProofOfWork),
        ) <==> chain@.headers.contains_key(header.prev_blockhash@) && !worked(header@),
{
    law_acceptance_is_parent_and_work(chain@, header@);
}

/// What `check_header` says: the parent is held, and the work was found good.
pub proof fn law_check_header(
    chain: &HeadersChain,
    prev_blockhash: &BlockHash,
    pow: Result<BlockHash, BitcoinValidationError>,
    verdict: Result<(), HeaderValidationError>,
)
    requires
        call_ensures(HeadersChain::check_header, (chain, prev_blockhash, pow), verdict),
    ensures
        verdict is Ok <==> chain@.headers.contains_key(prev_blockhash@) && pow is Ok,
        verdict == Err::<(), HeaderValidationError>(
            HeaderValidationError::PrevBlockNotFound,
        ) <==> !chain@.headers.contains_key(prev_blockhash@),
        chain@.headers.contains_key(prev_blockhash@) ==> (pow matches Err(error) ==> verdict
            == Err::<(), HeaderValidationError>(
            HeaderValidationError::BitcoinValidationError(error),
        )),
{
}

/// Whether `stored` is `header` under `hash` at `height`, with no next block.
pub open spec fn is_stored(
    stored: BlockHeaderView,
    header: HeaderView,
    hash: Seq<u8>,
    height: int,
) -> bool {
    &&& stored.block_hash == hash
    &&& stored.previous_block == header.prev_blockhash
    &&& stored.merkle_root == header.merkle_root
    &&& stored.time == header.time
    &&& stored.nonce == header.nonce
    &&& stored.next_block is None
    &&& stored.height == height
}

/// A header is stored with its own fields under its own hash.
pub proof fn law_from_bitcoin_header(header: Header, height: Height, stored: BlockHeader)
    requires
        call_ensures(BlockHeader::from_bitcoin_header, (header, height), stored),
    ensures
        stored.block_hash@ == hash_of(header@),
        stored.previous_block@ == header.prev_blockhash@,
        stored.merkle_root@ == header.merkle_root@,
        stored.time == header.time,
        stored.nonce == header.nonce,
        stored.next_block is None,
        stored.height == height,
{
    law_view_of_block_header(stored);
}

/// A header is stored with its own fields under the hash that is given.
pub proof fn law_with_hash(header: Header, hash: BlockHash, height: Height, stored: BlockHeader)
    requires
        call_ensures(BlockHeader::with_hash, (header, hash, height), stored),
    ensures
        stored.block_hash@ == hash@,
        stored.previous_block@ == header.prev_blockhash@,
        stored.merkle_root@ == header.merkle_root@,
        stored.time == header.time,
        stored.nonce == header.nonce,
        stored.next_block is None,
        stored.height == height,
{
    law_view_of_block_header(stored);
}

/// Whether `after` is `before` with one header on top of its parent: the header is held one above
/// the parent and is the tip, the parent points to it and is else as it was, and nothing else
/// changed.
pub open spec fn grew_by(
    before: HeadersChainView,
    after: HeadersChainView,
    header: HeaderView,
    hash: Seq<u8>,
) -> bool {
    let parent = before.headers[header.prev_blockhash];
    &&& after.tip.0 == parent.height + 1
    &&& after.tip.1 == hash
    &&& forall|k: Seq<u8>| #[trigger]
        after.headers.contains_key(k) <==> before.headers.contains_key(k) || k == hash || k
            == parent.block_hash
    &&& hash != parent.block_hash ==> is_stored(
        after.headers[hash],
        header,
        hash,
        parent.height + 1,
    )
    &&& after.headers[parent.block_hash].next_block == Some(NextBlockView::Chain(hash))
    &&& after.headers[parent.block_hash].block_hash == parent.block_hash
    &&& after.headers[parent.block_hash].previous_block == parent.previous_block
    &&& after.headers[parent.block_hash].merkle_root == parent.merkle_root
    &&& after.headers[parent.block_hash].time == parent.time
    &&& after.headers[parent.block_hash].nonce == parent.nonce
    &&& after.headers[parent.block_hash].height == parent.height
    &&& forall|k: Seq<u8>| #[trigger]
        before.headers.contains_key(k) && k != hash && k != parent.block_hash ==> after.headers[k]
            == before.headers[k]
}

/// What `add_header` does.
pub proof fn law_add_header(
    chain: &mut HeadersChain,
    header: &Header,
    hash: BlockHash,
    stored: BlockHeader,
)
    requires
        call_ensures(HeadersChain::add_header, (chain, header, hash), stored),
    ensures
        grew_by(old(chain)@, final(chain)@, header@, hash@),
        is_stored(
            stored@,
            header@,
            hash@,
            old(chain)@.headers[header.prev_blockhash@].height + 1,
        ),
{
}

/// Adding nothing changes nothing.
pub proof fn law_no_headers_change_nothing(
    chain: &mut HeadersChain,
    headers: Vec<Header>,
    outcome: Result<Vec<BlockHeader>, HeaderChainError>,
)
    requires
        call_ensures(HeadersChain::process_headers, (chain, headers), outcome),
        headers@.len() == 0,
    ensures
        final(chain)@ == old(chain)@,
        outcome matches Ok(stored) && stored@.len() == 0,
{
    if let Ok(stored) = outcome {
        assert(crate::header_chain::stored_headers(stored@).len() == stored@.len());
    }
}

/// A list of one header: it is refused for want of its parent, then for want of work, and then
/// leaves the chain as it was; else the chain grows by it.
pub proof fn law_one_header_is_added(
    chain: &mut HeadersChain,
    headers: Vec<Header>,
    outcome: Result<Vec<BlockHeader>, HeaderChainError>,
)
    requires
        call_ensures(HeadersChain::process_headers, (chain, headers), outcome),
        headers@.len() == 1,
    ensures
        ({
            let header = headers@[0]@;
            let known = old(chain)@.headers.contains_key(header.prev_blockhash);
            if !known {
                &&& final(chain)@ == old(chain)@
                &&& outcome == Err::<Vec<BlockHeader>, HeaderChainError>(
                    HeaderChainError::ValidationError(HeaderValidationError::PrevBlockNotFound),
                )
            } else if !worked(header) {
                &&& final(chain)@ == old(chain)@
                &&& outcome == Err::<Vec<BlockHeader>, HeaderChainError>(
                    HeaderChainError::ValidationError(
                        HeaderValidationError::BitcoinValidationError(
                            BitcoinValidationError::BadProofOfWork,
                        ),
                    ),
                )
            } else {
                &&& grew_by(old(chain)@, final(chain)@, header, hash_of(header))
                &&& outcome matches Ok(stored) && stored@.len() == 1 && is_stored(
                    stored@[0]@,
                    header,
                    hash_of(header),
                    old(chain)@.headers[header.prev_blockhash].height + 1,
                )
            }
        }),
{
    let item = headers@[0]@.checked();
    let items = crate::header_chain::checked_headers(headers@);
    law_acceptance_is_parent_and_work(old(chain)@, headers@[0]@);
    law_checked_header(headers@[0]@);
    assert(items =~= seq![item]);
    lemma_one(old(chain)@, item);
    match outcome {
        Ok(stored) => {
            assert(crate::header_chain::stored_headers(stored@).len() == stored@.len());
            if stored@.len() > 0 {
                assert(crate::header_chain::stored_headers(stored@)[0] == stored@[0]@);
            }
        },
        Err(_) => {},
    }
}

/// A list of one header has the effect of that header.
proof fn lemma_one(chain: HeadersChainView, item: CheckedHeader)
    ensures
        chain.verdict(item) is Err ==> chain.processed(seq![item]) == chain,
        chain.verdict(item) is Ok ==> chain.processed(seq![item]) == chain.extended(
            item.header,
            item.hash,
        ),
        chain.outcome(seq![item]) == (match chain.verdict(item) {
            Ok(_) => Ok::<Seq<BlockHeaderView>, HeaderValidationError>(
                seq![
                    item.header.stored(
                        item.hash,
                        chain.headers[item.header.prev_blockhash].height + 1,
                    ),
                ],
            ),
            Err(error) => Err(error),
        }),
        chain.heights_fit(seq![item]) == (chain.verdict(item) is Ok
            ==> chain.headers[item.header.prev_blockhash].height < i32::MAX),
{
    let items = seq![item];
    let next = chain.extended(item.header, item.hash);
    let rest = items.drop_first();
    assert(items[0] == item);
    assert(rest.len() == 0);
    assert(next.processed(rest) == next);
    assert(next.outcome(rest) == Ok::<Seq<BlockHeaderView>, HeaderValidationError>(seq![]));
    assert(next.heights_fit(rest));
    let stored = item.header.stored(
        item.hash,
        chain.headers[item.header.prev_blockhash].height + 1,
    );
    assert(seq![stored] + Seq::<BlockHeaderView>::empty() =~= seq![stored]);
}

/// Two lists in a row have the effect of one after the other.
proof fn lemma_in_turn(
    chain: HeadersChainView,
    left: Seq<CheckedHeader>,
    right: Seq<CheckedHeader>,
)
    ensures
        chain.processed(left + right) == (match chain.outcome(left) {
            Ok(_) => chain.processed(left).processed(right),
            Err(_) => chain.processed(left),
        }),
        chain.outcome(left + right) == (match chain.outcome(left) {
            Ok(first) => match chain.processed(left).outcome(right) {
                Ok(second) => Ok::<Seq<BlockHeaderView>, HeaderValidationError>(first + second),
                Err(error) => Err(error),
            },
            Err(error) => Err(error),
        }),
        chain.heights_fit(left + right) == (chain.heights_fit(left) && (chain.outcome(left) is Ok
            ==> chain.processed(left).heights_fit(right))),
    decreases left.len(),
{
    if left.len() == 0 {
        assert(left + right =~= right);
        match chain.outcome(right) {
            Ok(second) => {
                assert(Seq::<BlockHeaderView>::empty() + second =~= second);
            },
            Err(_) => {},
        }
    } else {
        let both = left + right;
        assert(both[0] == left[0]);
        assert(both.drop_first() =~= left.drop_first() + right);
        if chain.verdict(left[0]) is Ok {
            let (header, hash) = (left[0].header, left[0].hash);
            let next = chain.extended(header, hash);
            lemma_in_turn(next, left.drop_first(), right);
            match next.outcome(left.drop_first()) {
                Ok(first) => match next.processed(left.drop_first()).outcome(right) {
                    Ok(second) => {
                        let height = chain.headers[header.prev_blockhash].height + 1;
                        let one = seq![header.stored(hash, height)];
                        assert(one + (first + second) =~= (one + first) + second);
                    },
                    Err(_) => {},
                },
                Err(_) => {},
            }
        }
    }
}

/// The headers of two lists in a row are those of one and of the other.
proof fn lemma_checked_in_turn(left: Seq<Header>, right: Seq<Header>)
    ensures
        crate::header_chain::checked_headers(left + right) == crate::header_chain::checked_headers(
            left,
        ) + crate::header_chain::checked_headers(right),
{
    assert(crate::header_chain::checked_headers(left + right)
        =~= crate::header_chain::checked_headers(left) + crate::header_chain::checked_headers(
        right,
    ));
}

/// A list of headers has the effect of its parts in turn, wherever it is parted: a refusal in the
/// first part is the end, and else the second part goes on from where the first one led.
pub proof fn law_lists_are_added_in_turn(
    whole: &mut HeadersChain,
    first: &mut HeadersChain,
    second: &mut HeadersChain,
    both: Vec<Header>,
    left: Vec<Header>,
    right: Vec<Header>,
    outcome: Result<Vec<BlockHeader>, HeaderChainError>,
    left_outcome: Result<Vec<BlockHeader>, HeaderChainError>,
    right_outcome: Result<Vec<BlockHeader>, HeaderChainError>,
)
    requires
        both@ == left@ + right@,
        old(whole)@ == old(first)@,
        final(first)@ == old(second)@,
        call_ensures(HeadersChain::process_headers, (whole, both), outcome),
        call_ensures(HeadersChain::process_headers, (first, left), left_outcome),
        call_ensures(HeadersChain::process_headers, (second, right), right_outcome),
    ensures
        left_outcome matches Err(error) ==> outcome == Err::<Vec<BlockHeader>, HeaderChainError>(
            error,
        ) && final(whole)@ == final(first)@,
        left_outcome is Ok ==> final(whole)@ == final(second)@,
        left_outcome is Ok ==> (right_outcome matches Err(error) ==> outcome == Err::<
            Vec<BlockHeader>,
            HeaderChainError,
        >(error)),
        left_outcome matches Ok(front) ==> (right_outcome matches Ok(back) ==> {
            &&& outcome matches Ok(all)
            &&& all@.len() == front@.len() + back@.len()
            &&& forall|i: int| 0 <= i < front@.len() ==> (#[trigger] all@[i])@ == front@[i]@
            &&& forall|i: int|
                front@.len() <= i < all@.len() ==> (#[trigger] all@[i])@ == back@[i
                    - front@.len()]@
        }),
{
    lemma_checked_in_turn(left@, right@);
    let (a, b) = (
        crate::header_chain::checked_headers(left@),
        crate::header_chain::checked_headers(right@),
    );
    lemma_in_turn(old(whole)@, a, b);
    match (left_outcome, right_outcome, outcome) {
        (Ok(front), Ok(back), Ok(all)) => {
            let (x, y, z) = (
                crate::header_chain::stored_headers(front@),
                crate::header_chain::stored_headers(back@),
                crate::header_chain::stored_headers(all@),
            );
            assert(z == x + y);
            assert forall|i: int| 0 <= i < front@.len() implies (#[trigger] all@[i])@
                == front@[i]@ by {
                assert(z[i] == x[i]);
            }
            assert forall|i: int| front@.len() <= i < all@.len() implies (#[trigger] all@[i])@
                == back@[i - front@.len()]@ by {
                assert(z[i] == y[i - front@.len()]);
            }
        },
        _ => {},
    }
}

/// Every header that a list adds to a chain came in that list, on top of a parent that is held,
/// and met its own target.
pub proof fn law_added_headers_met_their_target(
    chain: HeadersChainView,
    headers: Seq<HeaderView>,
    hash: Seq<u8>,
)
    requires
        crate::header_laws::linked(chain.headers),
        !chain.headers.contains_key(hash),
        chain.processed(
            headers.map_values(|header: HeaderView| header.checked()),
        ).headers.contains_key(hash),
    ensures
        ({
            let after = chain.processed(
                headers.map_values(|header: HeaderView| header.checked()),
            );
            exists|i: int|
                0 <= i < headers.len() && hash_of(#[trigger] headers[i]) == hash && worked(
                    headers[i],
                ) && after.headers.contains_key(headers[i].prev_blockhash)
        }),
    decreases headers.len(),
{
    let items = headers.map_values(|header: HeaderView| header.checked());
    if headers.len() > 0 && chain.verdict(items[0]) is Ok {
        let next = chain.extended(items[0].header, items[0].hash);
        let rest = headers.drop_first();
        law_acceptance_is_parent_and_work(chain, headers[0]);
        law_checked_header(headers[0]);
        assert(items.drop_first() =~= rest.map_values(|header: HeaderView| header.checked()));
        crate::header_laws::law_headers_stay_held(next, items.drop_first());
        assert(next.headers.contains_key(headers[0].prev_blockhash));
        assert(crate::header_laws::linked(next.headers));
        if next.headers.contains_key(hash) {
            assert(hash_of(headers[0]) == hash);
        } else {
            law_added_headers_met_their_target(next, rest, hash);
            let i = choose|i: int|
                0 <= i < rest.len() && hash_of(#[trigger] rest[i]) == hash && worked(rest[i])
                    && next.processed(
                    rest.map_values(|header: HeaderView| header.checked()),
                ).headers.contains_key(rest[i].prev_blockhash);
            assert(rest[i] == headers[i + 1]);
        }
    }
}

/// Where a list is accepted, each header of it has done its work and has a parent that was held
/// before or came earlier in the list, and what is given back for it is that header, under its
/// hash, with no next block.
pub proof fn law_accepted_lists_are_sound(
    chain: HeadersChainView,
    headers: Seq<HeaderView>,
    i: int,
)
    requires
        crate::header_laws::linked(chain.headers),
        chain.outcome(headers.map_values(|header: HeaderView| header.checked())) is Ok,
        0 <= i < headers.len(),
    ensures
        ({
            let stored = chain.outcome(
                headers.map_values(|header: HeaderView| header.checked()),
            ).unwrap();
            &&& stored.len() == headers.len()
            &&& is_stored(stored[i], headers[i], hash_of(headers[i]), stored[i].height)
            &&& worked(headers[i])
            &&& chain.headers.contains_key(headers[i].prev_blockhash) || exists|j: int|
                0 <= j < i && hash_of(#[trigger] headers[j]) == headers[i].prev_blockhash
        }),
    decreases headers.len(),
{
    let items = headers.map_values(|header: HeaderView| header.checked());
    let rest = headers.drop_first();
    let next = chain.extended(items[0].header, items[0].hash);
    law_acceptance_is_parent_and_work(chain, headers[0]);
    law_checked_header(headers[0]);
    assert(items.drop_first() =~= rest.map_values(|header: HeaderView| header.checked()));
    assert(chain.headers.contains_key(headers[0].prev_blockhash));
    assert(crate::header_laws::linked(next.headers));
    let stored = chain.outcome(items).unwrap();
    let later = next.outcome(items.drop_first()).unwrap();
    assert(stored.len() == later.len() + 1);
    if rest.len() > 0 {
        let at = if i > 0 {
            i - 1
        } else {
            0
        };
        law_accepted_lists_are_sound(next, rest, at);
        assert(rest[at] == headers[at + 1]);
        if i > 0 {
            assert(stored[i] == later[i - 1]);
            let prev = headers[i].prev_blockhash;
            if !chain.headers.contains_key(prev) {
                if next.headers.contains_key(prev) {
                    assert(hash_of(headers[0]) == prev);
                } else {
                    let j = choose|j: int|
                        0 <= j < at && hash_of(#[trigger] rest[j]) == rest[at].prev_blockhash;
                    assert(headers[j + 1] == rest[j]);
                }
            }
        }
    } else {
        assert(next.outcome(items.drop_first()) == Ok::<
            Seq<BlockHeaderView>,
            HeaderValidationError,
        >(seq![]));
    }
}

/// What `prospect` says comes true, and unless a header would stand too high the headers can be
/// added.
pub proof fn law_prospect_comes_true(
    chain: &HeadersChain,
    headers: &Vec<Header>,
    prospect: Prospect,
    later: &mut HeadersChain,
    added: Vec<Header>,
    outcome: Result<Vec<BlockHeader>, HeaderChainError>,
)
    requires
        added@ == headers@,
        old(later)@ == chain@,
        old(later).wf(),
        call_ensures(HeadersChain::prospect, (chain, headers), prospect),
        call_ensures(HeadersChain::process_headers, (later, added), outcome),
    ensures
        prospect is Accepted ==> outcome is Ok,
        prospect is Refused ==> outcome is Err,
        !(prospect is TooHigh) ==> call_requires(HeadersChain::process_headers, (later, added)),
{
}

/// One header stands too high exactly where it is accepted on top of a parent at the last height
/// of 32 bits.
pub proof fn law_prospect_of_one(chain: &HeadersChain, headers: &Vec<Header>, prospect: Prospect)
    requires
        call_ensures(HeadersChain::prospect, (chain, headers), prospect),
        headers@.len() == 1,
    ensures
        ({
            let header = headers@[0]@;
            let accepted = chain@.headers.contains_key(header.prev_blockhash) && worked(header);
            let last = chain@.headers[header.prev_blockhash].height >= i32::MAX;
            &&& prospect is Refused <==> !accepted
            &&& prospect is TooHigh <==> accepted && last
            &&& prospect is Accepted <==> accepted && !last
        }),
{
    let item = headers@[0]@.checked();
    law_acceptance_is_parent_and_work(chain@, headers@[0]@);
    assert(crate::header_chain::checked_headers(headers@) =~= seq![item]);
    lemma_one(chain@, item);
}

/// The prospect of a list is that of its parts in turn.
pub proof fn law_prospects_are_taken_in_turn(
    chain: &HeadersChain,
    first: &mut HeadersChain,
    both: &Vec<Header>,
    left: Vec<Header>,
    front: &Vec<Header>,
    right: &Vec<Header>,
    left_outcome: Result<Vec<BlockHeader>, HeaderChainError>,
    later: &HeadersChain,
    prospect: Prospect,
    left_prospect: Prospect,
    right_prospect: Prospect,
)
    requires
        both@ == left@ + right@,
        front@ == left@,
        old(first)@ == chain@,
        later@ == final(first)@,
        call_ensures(HeadersChain::process_headers, (first, left), left_outcome),
        call_ensures(HeadersChain::prospect, (chain, both), prospect),
        call_ensures(HeadersChain::prospect, (chain, front), left_prospect),
        call_ensures(HeadersChain::prospect, (later, right), right_prospect),
    ensures
        prospect == (if left_prospect is Accepted {
            right_prospect
        } else {
            left_prospect
        }),
{
    lemma_checked_in_turn(left@, right@);
    lemma_in_turn(
        chain@,
        crate::header_chain::checked_headers(left@),
        crate::header_chain::checked_headers(right@),
    );
}

/// Whether each of `hashes` is what the one before points to, the first what `start` points to.
pub open spec fn follows_links(
    headers: Map<Seq<u8>, BlockHeaderView>,
    start: Seq<u8>,
    hashes: Seq<Seq<u8>>,
) -> bool {
    forall|i: int|
        0 <= i < hashes.len() ==> headers[if i == 0 {
            start
        } else {
            hashes[i - 1]
        }].next_block == Some(NextBlockView::Chain(#[trigger] hashes[i]))
}

/// Whether `hashes` are the blocks after `start`, at most `most` of them, and fewer only where no
/// further block is pointed to.
pub open spec fn listed_after(
    headers: Map<Seq<u8>, BlockHeaderView>,
    start: Seq<u8>,
    hashes: Seq<Seq<u8>>,
    most: nat,
) -> bool {
    &&& hashes.len() <= most
    &&& follows_links(headers, start, hashes)
    &&& hashes.len() < most ==> !(headers[if hashes.len() == 0 {
        start
    } else {
        hashes.last()
    }].next_block matches Some(NextBlockView::Chain(_)))
}

/// A walk lists what the links say, and goes on as far as they lead.
pub proof fn law_walk_follows_links(
    headers: Map<Seq<u8>, BlockHeaderView>,
    start: Seq<u8>,
    n: nat,
)
    ensures
        listed_after(headers, start, crate::header_chain::walk(headers, start, n), n),
    decreases n,
{
    let way = crate::header_chain::walk(headers, start, n);
    if n > 0 {
        match headers[start].next_block {
            Some(NextBlockView::Chain(next)) => {
                let rest = crate::header_chain::walk(headers, next, (n - 1) as nat);
                law_walk_follows_links(headers, next, (n - 1) as nat);
                assert(way == seq![next] + rest);
                assert forall|i: int| 0 <= i < way.len() implies headers[if i == 0 {
                    start
                } else {
                    way[i - 1]
                }].next_block == Some(NextBlockView::Chain(#[trigger] way[i])) by {
                    if i > 0 {
                        assert(way[i] == rest[i - 1]);
                        if i > 1 {
                            assert(way[i - 1] == rest[i - 2]);
                        }
                    }
                }
                if rest.len() > 0 {
                    assert(way.last() == rest.last());
                }
            },
            _ => {},
        }
    }
}

/// Whatever follows the links is part of the walk.
proof fn lemma_links_are_walked(
    headers: Map<Seq<u8>, BlockHeaderView>,
    start: Seq<u8>,
    hashes: Seq<Seq<u8>>,
    n: nat,
)
    requires
        follows_links(headers, start, hashes),
        hashes.len() <= n,
    ensures
        hashes.len() <= crate::header_chain::walk(headers, start, n).len(),
        forall|i: int|
            0 <= i < hashes.len() ==> #[trigger] hashes[i] == crate::header_chain::walk(
                headers,
                start,
                n,
            )[i],
    decreases hashes.len(),
{
    if hashes.len() > 0 {
        let next = hashes[0];
        let rest = hashes.drop_first();
        let way = crate::header_chain::walk(headers, start, n);
        let tail = crate::header_chain::walk(headers, next, (n - 1) as nat);
        assert(headers[start].next_block == Some(NextBlockView::Chain(next)));
        assert(way == seq![next] + tail);
        assert forall|i: int| 0 <= i < rest.len() implies headers[if i == 0 {
            next
        } else {
            rest[i - 1]
        }].next_block == Some(NextBlockView::Chain(#[trigger] rest[i])) by {
            assert(rest[i] == hashes[i + 1]);
            if i > 0 {
                assert(rest[i - 1] == hashes[i]);
            }
        }
        lemma_links_are_walked(headers, next, rest, (n - 1) as nat);
        assert forall|i: int| 0 <= i < hashes.len() implies #[trigger] hashes[i] == way[i] by {
            if i > 0 {
                assert(hashes[i] == rest[i - 1]);
                assert(way[i] == tail[i - 1]);
            }
        }
    }
}

/// The hashes that an inventory asks for.
pub open spec fn asked(items: Seq<Inventory>) -> Seq<Seq<u8>> {
    Seq::new(items.len(), |i: int| items[i]->WitnessBlock_0@)
}

/// The blocks after a known block are listed along the links, five hundred at most; after an
/// unknown one none are.
pub proof fn law_get_block_inventory(
    chain: &HeadersChain,
    start_block: &BlockHash,
    inventory: Result<Vec<Inventory>, HeaderChainError>,
)
    requires
        call_ensures(HeadersChain::get_block_inventory, (chain, start_block), inventory),
    ensures
        inventory is Ok <==> chain@.headers.contains_key(start_block@),
        inventory matches Ok(items) ==> listed_after(
            chain@.headers,
            start_block@,
            asked(items@),
            500,
        ),
        inventory matches Err(error) ==> error == HeaderChainError::ValidationError(
            HeaderValidationError::PrevBlockNotFound,
        ),
{
    law_walk_follows_links(chain@.headers, start_block@, 500);
    match inventory {
        Ok(items) => {
            assert(asked(items@) =~= crate::message::inventory_view(items@));
        },
        Err(_) => {},
    }
}

/// The blocks after a block can be listed exactly where no way of five hundred links from it leads
/// to a block that is not held.
pub proof fn law_can_walk(
    chain: &HeadersChain,
    start: &BlockHash,
    holds: bool,
    hashes: Seq<Seq<u8>>,
)
    requires
        call_ensures(HeadersChain::can_walk, (chain, start), holds),
        follows_links(chain@.headers, start@, hashes),
        hashes.len() <= 500,
    ensures
        !chain@.headers.contains_key(start@) ==> holds,
        chain@.headers.contains_key(start@) && holds ==> forall|i: int|
            0 <= i < hashes.len() ==> chain@.headers.contains_key(#[trigger] hashes[i]),
        !holds ==> exists|way: Seq<Seq<u8>>, i: int|
            #![trigger way[i]]
            follows_links(chain@.headers, start@, way) && way.len() <= 500 && 0 <= i < way.len()
                && !chain@.headers.contains_key(way[i]),
        holds && chain.wf() ==> call_requires(HeadersChain::get_block_inventory, (chain, start)),
{
    let headers = chain@.headers;
    let way = crate::header_chain::walk(headers, start@, 500);
    law_walk_follows_links(headers, start@, 500);
    lemma_links_are_walked(headers, start@, hashes, 500);
    if chain@.headers.contains_key(start@) && holds {
        assert forall|i: int| 0 <= i < hashes.len() implies headers.contains_key(
            #[trigger] hashes[i],
        ) by {
            assert(headers.contains_key(way[i]));
        }
    }
    if !holds {
        let i = choose|i: int| 0 <= i < way.len() && !headers.contains_key(#[trigger] way[i]);
        assert(!headers.contains_key(way[i]));
    }
}

/// The tip is what the chain says it is.
pub proof fn law_tip(chain: &HeadersChain, tip: BlockIndex)
    requires
        call_ensures(HeadersChain::tip, (chain,), tip),
    ensures
        tip.0 == chain@.tip.0,
        tip.1@ == chain@.tip.1,
{
}

/// Of the records that are written to an empty table, those keys are held that occur, each with
/// its last record.
proof fn lemma_last_record_counts(records: Seq<(Seq<u8>, BlockHeaderView)>)
    ensures
        forall|k: Seq<u8>| #[trigger]
            crate::header_map::written(Map::empty(), records).contains_key(k) <==> exists|i: int|
                0 <= i < records.len() && (#[trigger] records[i]).0 == k,
        forall|i: int|
            0 <= i < records.len() && (forall|j: int|
                i < j < records.len() ==> (#[trigger] records[j]).0 != records[i].0)
                ==> crate::header_map::written(Map::empty(), records)[(#[trigger] records[i]).0]
                == records[i].1,
    decreases records.len(),
{
    if records.len() > 0 {
        let init = records.drop_last();
        let table = crate::header_map::written(Map::empty(), records);
        let before = crate::header_map::written(Map::empty(), init);
        lemma_last_record_counts(init);
        assert(records.last() == records[records.len() - 1]);
        assert forall|k: Seq<u8>| #[trigger] table.contains_key(k) <==> exists|i: int|
            0 <= i < records.len() && (#[trigger] records[i]).0 == k by {
            if before.contains_key(k) {
                let i = choose|i: int| 0 <= i < init.len() && (#[trigger] init[i]).0 == k;
                assert(records[i].0 == k);
            }
            if exists|i: int| 0 <= i < records.len() && (#[trigger] records[i]).0 == k {
                let i = choose|i: int| 0 <= i < records.len() && (#[trigger] records[i]).0 == k;
                if i < init.len() {
                    assert(init[i].0 == k);
                }
            }
        }
        assert forall|i: int|
            0 <= i < records.len() && (forall|j: int|
                i < j < records.len() ==> (#[trigger] records[j]).0
                    != records[i].0) implies table[(#[trigger] records[i]).0] == records[i].1 by {
            if i < init.len() {
                assert(records[records.len() - 1].0 != records[i].0);
                assert(init[i] == records[i]);
                assert forall|j: int| i < j < init.len() implies (#[trigger] init[j]).0
                    != init[i].0 by {
                    assert(init[j] == records[j]);
                }
                assert(before[init[i].0] == init[i].1);
            }
        }
    }
}

/// Whether `headers` holds what `records` say: the keys that occur, each with its last record.
pub open spec fn holds_records(
    headers: Map<Seq<u8>, BlockHeaderView>,
    records: Seq<(BlockHash, BlockHeader)>,
) -> bool {
    &&& forall|k: Seq<u8>| #[trigger]
        headers.contains_key(k) <==> exists|i: int|
            0 <= i < records.len() && (#[trigger] records[i]).0@ == k
    &&& forall|i: int|
        0 <= i < records.len() && (forall|j: int|
            i < j < records.len() ==> (#[trigger] records[j]).0@ != records[i].0@)
            ==> headers[(#[trigger] records[i]).0@] == records[i].1@
}

/// What is written from records holds them.
proof fn lemma_written_records(records: Seq<(BlockHash, BlockHeader)>)
    ensures
        holds_records(
            crate::header_map::written(Map::empty(), crate::header_map::records_view(records)),
            records,
        ),
{
    let view = crate::header_map::records_view(records);
    let headers = crate::header_map::written(Map::empty(), view);
    lemma_last_record_counts(view);
    assert forall|k: Seq<u8>| #[trigger] headers.contains_key(k) <==> exists|i: int|
        0 <= i < records.len() && (#[trigger] records[i]).0@ == k by {
        if headers.contains_key(k) {
            let i = choose|i: int| 0 <= i < view.len() && (#[trigger] view[i]).0 == k;
            assert(records[i].0@ == k);
        }
        if exists|i: int| 0 <= i < records.len() && (#[trigger] records[i]).0@ == k {
            let i = choose|i: int| 0 <= i < records.len() && (#[trigger] records[i]).0@ == k;
            assert(view[i].0 == k);
        }
    }
    assert forall|i: int|
        0 <= i < records.len() && (forall|j: int|
            i < j < records.len() ==> (#[trigger] records[j]).0@
                != records[i].0@) implies headers[(#[trigger] records[i]).0@] == records[i].1@ by {
        assert forall|j: int| i < j < view.len() implies (#[trigger] view[j]).0 != view[i].0 by {
            assert(records[j].0@ != records[i].0@);
        }
        assert(view[i].0 == records[i].0@);
    }
}

/// Whether `chain` is what is found in storage, where the genesis block is `genesis`.
pub open spec fn found(
    chain: HeadersChainView,
    genesis: HeaderView,
    hash: Seq<u8>,
    tip: Option<BlockIndex>,
    records: Option<Vec<(BlockHash, BlockHeader)>>,
) -> bool {
    &&& tip matches Some(tip) ==> chain.tip.0 == tip.0 && chain.tip.1 == tip.1@
    &&& tip is None ==> chain.tip.0 == 0 && chain.tip.1 == hash
    &&& records matches Some(records) ==> holds_records(chain.headers, records@)
    &&& records is None ==> {
        &&& forall|k: Seq<u8>| #[trigger] chain.headers.contains_key(k) <==> k == hash
        &&& is_stored(chain.headers[hash], genesis, hash, 0)
    }
}

/// A chain is made of what storage holds, and where it holds nothing, of the genesis block.
pub proof fn law_with_genesis(
    genesis: Header,
    hash: BlockHash,
    tip: Option<BlockIndex>,
    records: Option<Vec<(BlockHash, BlockHeader)>>,
    chain: HeadersChain,
)
    requires
        call_ensures(HeadersChain::with_genesis, (genesis, hash, tip, records), chain),
    ensures
        found(chain@, genesis@, hash@, tip, records),
{
    if let Some(records) = records {
        lemma_written_records(records@);
    }
}

/// A chain of a network starts at the genesis block of that network.
pub proof fn law_new_chain(
    network: Network,
    tip: Option<BlockIndex>,
    records: Option<Vec<(BlockHash, BlockHeader)>>,
    chain: HeadersChain,
)
    requires
        call_ensures(HeadersChain::new, (network, tip, records), chain),
    ensures
        found(
            chain@,
            crate::consensus::genesis_of(network),
            hash_of(crate::consensus::genesis_of(network)),
            tip,
            records,
        ),
{
    if let Some(records) = records {
        lemma_written_records(records@);
    }
}

/// The map of a table holds its records.
pub proof fn law_construct_headers_chain(
    records: Vec<(BlockHash, BlockHeader)>,
    chain: HeaderMap,
)
    requires
        call_ensures(crate::header_chain::construct_headers_chain, (records,), chain),
    ensures
        holds_records(chain@, records@),
{
    lemma_written_records(records@);
}

/// A map holds what was put into it last under each hash, and nothing else.
pub proof fn law_header_map(
    empty: HeaderMap,
    map: &mut HeaderMap,
    hash: BlockHash,
    header: BlockHeader,
    seen: &HeaderMap,
    other: &BlockHash,
    found: Option<&BlockHeader>,
    held: bool,
)
    requires
        call_ensures(HeaderMap::new, (), empty),
        call_ensures(HeaderMap::insert, (map, hash, header), ()),
        seen@ == final(map)@,
        call_ensures(HeaderMap::get, (seen, other), found),
        call_ensures(HeaderMap::contains_key, (seen, other), held),
    ensures
        forall|k: Seq<u8>| !(#[trigger] empty@.contains_key(k)),
        held <==> found is Some,
        other@ == hash@ ==> (found matches Some(inside) && inside@ == header@),
        other@ != hash@ ==> (held <==> old(map)@.contains_key(other@)),
        other@ != hash@ ==> (found matches Some(inside) ==> inside@ == old(map)@[other@]),
{
}

/// What is saved for headers is each of them as it is, its link with it, under its own hash and in
/// order, and the tip of the chain.
pub proof fn law_save_headers(
    chain: &HeadersChain,
    headers: Vec<BlockHeader>,
    saved: SavedHeaders,
)
    requires
        call_ensures(HeadersChain::save_headers, (chain, headers), saved),
    ensures
        saved.tip.0 == chain@.tip.0,
        saved.tip.1@ == chain@.tip.1,
        saved.records@.len() == headers@.len(),
        forall|i: int|
            0 <= i < headers@.len() ==> (#[trigger] saved.records@[i]).0@ == headers@[i].block_hash@
                && saved.records@[i].1@ == headers@[i]@ && saved.records@[i].1@.next_block
                == headers@[i]@.next_block,
{
    let view = crate::header_map::records_view(saved.records@);
    let all = crate::header_chain::keyed(crate::header_chain::stored_headers(headers@));
    assert(view.len() == saved.records@.len());
    assert(all.len() == headers@.len());
    assert forall|i: int| 0 <= i < headers@.len() implies (#[trigger] saved.records@[i]).0@
        == headers@[i].block_hash@ && saved.records@[i].1@ == headers@[i]@
        && saved.records@[i].1@.next_block == headers@[i]@.next_block by {
        assert(view[i] == (saved.records@[i].0@, saved.records@[i].1@));
        assert(all[i] == (headers@[i]@.block_hash, headers@[i]@));
    }
}

/// Headers stand in a table under their own hashes, as they are.
pub proof fn law_headers_are_keyed_by_hash(headers: Seq<BlockHeaderView>)
    ensures
        crate::header_chain::keyed(headers).len() == headers.len(),
        forall|i: int|
            0 <= i < headers.len() ==> (#[trigger] crate::header_chain::keyed(headers)[i]).0
                == headers[i].block_hash && crate::header_chain::keyed(headers)[i].1 == headers[i],
{
}

/// What is written for headers that were just accepted points nowhere: no record of them has a
/// next block, so no saved link leads to a block that does not name the saved one as its parent.
pub proof fn law_saved_new_headers_point_nowhere(
    chain: &mut HeadersChain,
    headers: Vec<Header>,
    outcome: Result<Vec<BlockHeader>, HeaderChainError>,
    saver: &HeadersChain,
    saved: SavedHeaders,
)
    requires
        call_ensures(HeadersChain::process_headers, (chain, headers), outcome),
        crate::header_laws::linked(old(chain)@.headers),
        outcome is Ok,
        call_ensures(HeadersChain::save_headers, (saver, outcome->Ok_0), saved),
    ensures
        saved.records@.len() == headers@.len(),
        forall|i: int|
            0 <= i < headers@.len() ==> (#[trigger] saved.records@[i]).0@ == hash_of(headers@[i]@)
                && is_stored(
                saved.records@[i].1@,
                headers@[i]@,
                hash_of(headers@[i]@),
                saved.records@[i].1@.height,
            ),
{
    let stored = outcome->Ok_0;
    let plain = crate::message::headers_view(headers@);
    law_save_headers(saver, stored, saved);
    assert(plain.map_values(|header: HeaderView| header.checked())
        =~= crate::header_chain::checked_headers(headers@));
    let view = crate::header_chain::stored_headers(stored@);
    assert(view.len() == stored@.len());
    lemma_outcome_len(old(chain)@, crate::header_chain::checked_headers(headers@));
    assert forall|i: int| 0 <= i < headers@.len() implies (#[trigger] saved.records@[i]).0@
        == hash_of(headers@[i]@) && is_stored(
        saved.records@[i].1@,
        headers@[i]@,
        hash_of(headers@[i]@),
        saved.records@[i].1@.height,
    ) by {
        law_accepted_lists_are_sound(old(chain)@, plain, i);
        assert(plain[i] == headers@[i]@);
        assert(view[i] == stored@[i]@);
        law_view_of_block_header(stored@[i]);
    }
}

/// As many headers are given back as were accepted.
proof fn lemma_outcome_len(chain: HeadersChainView, items: Seq<CheckedHeader>)
    requires
        chain.outcome(items) is Ok,
    ensures
        chain.outcome(items).unwrap().len() == items.len(),
    decreases items.len(),
{
    if items.len() > 0 {
        lemma_outcome_len(
            chain.extended(items[0].header, items[0].hash),
            items.drop_first(),
        );
    }
}

/// What is saved for a whole chain is each header that it holds, as it is, once, and the tip.
pub proof fn law_save_headers_chain(chain: &HeadersChain, saved: SavedHeaders)
    requires
        call_ensures(HeadersChain::save_headers_chain, (chain,), saved),
    ensures
        saved.tip.0 == chain@.tip.0,
        saved.tip.1@ == chain@.tip.1,
        forall|i: int|
            0 <= i < saved.records@.len() ==> chain@.headers.contains_key(
                (#[trigger] saved.records@[i]).0@,
            ) && chain@.headers[saved.records@[i].0@] == saved.records@[i].1@,
        forall|i: int, j: int|
            0 <= i < j < saved.records@.len() ==> (#[trigger] saved.records@[i]).0@ != (
            #[trigger] saved.records@[j]).0@,
        forall|k: Seq<u8>| #[trigger]
            chain@.headers.contains_key(k) ==> exists|i: int|
                0 <= i < saved.records@.len() && (#[trigger] saved.records@[i]).0@ == k,
{
    let view = crate::header_map::records_view(saved.records@);
    assert(view.len() == saved.records@.len());
    assert forall|i: int| 0 <= i < saved.records@.len() implies chain@.headers.contains_key(
        (#[trigger] saved.records@[i]).0@,
    ) && chain@.headers[saved.records@[i].0@] == saved.records@[i].1@ by {
        assert(view[i] == (saved.records@[i].0@, saved.records@[i].1@));
    }
    assert forall|i: int, j: int| 0 <= i < j < saved.records@.len() implies (
    #[trigger] saved.records@[i]).0@ != (#[trigger] saved.records@[j]).0@ by {
        assert(view[i].0 != view[j].0);
    }
    assert forall|k: Seq<u8>| #[trigger] chain@.headers.contains_key(k) implies exists|i: int|
        0 <= i < saved.records@.len() && (#[trigger] saved.records@[i]).0@ == k by {
        let i = choose|i: int| 0 <= i < view.len() && (#[trigger] view[i]).0 == k;
        assert(saved.records@[i].0@ == k);
    }
}

/// A chain that is saved whole and opened from what was saved is the same chain.
pub proof fn law_saved_chain_is_opened_again(
    chain: &HeadersChain,
    saved: SavedHeaders,
    network: Network,
    again: HeadersChain,
)
    requires
        call_ensures(HeadersChain::save_headers_chain, (chain,), saved),
        call_ensures(HeadersChain::new, (network, Some(saved.tip), Some(saved.records)), again),
    ensures
        again@ == chain@,
{
    law_save_headers_chain(chain, saved);
    law_new_chain(network, Some(saved.tip), Some(saved.records), again);
    assert forall|k: Seq<u8>| #[trigger] chain@.headers.contains_key(k) implies
        again@.headers.contains_key(k) && again@.headers[k] == chain@.headers[k] by {
        let i = choose|i: int| 0 <= i < saved.records@.len() && (#[trigger] saved.records@[i]).0@
            == k;
        assert(saved.records@[i].0@ == k);
        assert(again@.headers[saved.records@[i].0@] == saved.records@[i].1@);
    }
    assert(again@.headers =~= chain@.headers);
}

} // verus!
