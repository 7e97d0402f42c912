//! The chain of block headers.

use vstd::prelude::*;

use crate::consensus::{block_hash, genesis_header, target, validate_pow};
use crate::error::{BitcoinValidationError, HeaderChainError, HeaderValidationError};
use crate::header::{
    BlockHash, BlockHeader, BlockHeaderView, BlockIndex, Header, HeaderView, Height, NextBlock,
    NextBlockView,
};
use crate::header_map::HeaderMap;
use crate::message::Inventory;
use crate::network::Network;

verus! {

/// How many blocks one request asks for.
pub const BATCH: usize = 500;

/// A header together with what its checks computed: its hash, and the verdict on its proof of
/// work.
pub ghost struct CheckedHeader {
    pub header: HeaderView,
    pub hash: Seq<u8>,
    pub pow: Result<Seq<u8>, BitcoinValidationError>,
}

impl HeaderView {
    /// The header with its own hash and its own proof of work.
    pub open spec fn checked(self) -> CheckedHeader {
        CheckedHeader { header: self, hash: self.block_hash(), pow: self.pow() }
    }

    /// The header as the chain keeps it under `hash` at `height`, with no next block yet.
    pub open spec fn stored(self, hash: Seq<u8>, height: int) -> BlockHeaderView {
        BlockHeaderView {
            block_hash: hash,
            previous_block: self.prev_blockhash,
            merkle_root: self.merkle_root,
            time: self.time,
            nonce: self.nonce,
            next_block: None,
            height,
        }
    }
}

/// What a list of headers holds, each with its own hash and its own proof of work.
pub open spec fn checked_headers(headers: Seq<Header>) -> Seq<CheckedHeader> {
    headers.map_values(|header: Header| header@.checked())
}

/// What a list of stored headers holds.
pub open spec fn stored_headers(headers: Seq<BlockHeader>) -> Seq<BlockHeaderView> {
    headers.map_values(|header: BlockHeader| header@)
}

/// What a [`HeadersChain`] holds: the height and hash of its tip, and its headers by hash.
pub ghost struct HeadersChainView {
    pub tip: (int, Seq<u8>),
    pub headers: Map<Seq<u8>, BlockHeaderView>,
}

/// Whether a header whose parent is known or not, and of whose proof of work this was found, is
/// accepted.
pub open spec fn header_verdict(
    parent_known: bool,
    pow: Result<Seq<u8>, BitcoinValidationError>,
) -> Result<(), HeaderValidationError> {
    if !parent_known {
        Err(HeaderValidationError::PrevBlockNotFound)
    } else {
        match pow {
            Ok(_) => Ok(()),
            Err(error) => Err(HeaderValidationError::BitcoinValidationError(error)),
        }
    }
}

impl HeadersChainView {
    /// Whether `item` is accepted on top of this chain.
    pub open spec fn verdict(self, item: CheckedHeader) -> Result<(), HeaderValidationError> {
        header_verdict(self.headers.contains_key(item.header.prev_blockhash), item.pow)
    }

    /// The chain with an accepted header on top of its parent: the header is the new tip, and
    /// the parent points to it.
    pub open spec fn extended(self, header: HeaderView, hash: Seq<u8>) -> HeadersChainView {
        let parent = self.headers[header.prev_blockhash];
        let linked = BlockHeaderView { next_block: Some(NextBlockView::Chain(hash)), ..parent };
        HeadersChainView {
            tip: (parent.height + 1, hash),
            headers: self.headers.insert(hash, header.stored(hash, parent.height + 1)).insert(
                parent.block_hash,
                linked,
            ),
        }
    }

    /// The chain after the leading headers of `items` up to the first one that is not accepted.
    pub open spec fn processed(self, items: Seq<CheckedHeader>) -> HeadersChainView
        decreases items.len(),
    {
        if items.len() == 0 || self.verdict(items[0]) is Err {
            self
        } else {
            self.extended(items[0].header, items[0].hash).processed(items.drop_first())
        }
    }

    /// The headers as they were stored, or why the first one that is not accepted was refused.
    pub open spec fn outcome(self, items: Seq<CheckedHeader>) -> Result<
        Seq<BlockHeaderView>,
        HeaderValidationError,
    >
        decreases items.len(),
    {
        if items.len() == 0 {
            Ok(seq![])
        } else {
            match self.verdict(items[0]) {
                Err(error) => Err(error),
                Ok(_) => {
                    let (header, hash) = (items[0].header, items[0].hash);
                    let height = self.headers[header.prev_blockhash].height + 1;
                    match self.extended(header, hash).outcome(items.drop_first()) {
                        Ok(rest) => Ok(seq![header.stored(hash, height)] + rest),
                        Err(error) => Err(error),
                    }
                },
            }
        }
    }

    /// Whether every header of `items` that is accepted stands at a height of 32 bits.
    pub open spec fn heights_fit(self, items: Seq<CheckedHeader>) -> bool
        decreases items.len(),
    {
        items.len() == 0 || self.verdict(items[0]) is Err || {
            &&& self.headers[items[0].header.prev_blockhash].height < i32::MAX
            &&& self.extended(items[0].header, items[0].hash).heights_fit(items.drop_first())
        }
    }
}

/// The hashes met on the way from `start` along the links of the chain, at most `n` of them.
pub open spec fn walk(headers: Map<Seq<u8>, BlockHeaderView>, start: Seq<u8>, n: nat) -> Seq<
    Seq<u8>,
>
    decreases n,
{
    if n == 0 {
        seq![]
    } else {
        match headers[start].next_block {
            Some(NextBlockView::Chain(next)) => seq![next] + walk(headers, next, (n - 1) as nat),
            _ => seq![],
        }
    }
}

/// Whether every hash met on that way is held.
pub open spec fn walk_holds(
    headers: Map<Seq<u8>, BlockHeaderView>,
    start: Seq<u8>,
    n: nat,
) -> bool {
    forall|i: int|
        0 <= i < walk(headers, start, n).len() ==> headers.contains_key(
            #[trigger] walk(headers, start, n)[i],
        )
}

/// A walk from a block with a next block goes there, and on from there.
pub proof fn lemma_walk_step(
    headers: Map<Seq<u8>, BlockHeaderView>,
    start: Seq<u8>,
    n: nat,
    next: Seq<u8>,
)
    requires
        n > 0,
        headers[start].next_block == Some(NextBlockView::Chain(next)),
    ensures
        walk(headers, start, n).len() > 0,
        walk(headers, start, n)[0] == next,
        walk(headers, start, n).drop_first() == walk(headers, next, (n - 1) as nat),
{
    assert(walk(headers, start, n).drop_first() =~= walk(headers, next, (n - 1) as nat));
}

/// A walk is no longer than asked for.
pub proof fn lemma_walk_len(headers: Map<Seq<u8>, BlockHeaderView>, start: Seq<u8>, n: nat)
    ensures
        walk(headers, start, n).len() <= n,
    decreases n,
{
    if n > 0 {
        match headers[start].next_block {
            Some(NextBlockView::Chain(next)) => lemma_walk_len(headers, next, (n - 1) as nat),
            _ => {},
        }
    }
}

/// The chain that is found in storage. A missing tip is the genesis block at height zero; a
/// missing table of headers holds the genesis block alone.
pub open spec fn loaded(
    genesis: HeaderView,
    hash: Seq<u8>,
    tip: Option<(int, Seq<u8>)>,
    records: Option<Seq<(Seq<u8>, BlockHeaderView)>>,
) -> HeadersChainView {
    HeadersChainView {
        tip: match tip {
            Some(tip) => tip,
            None => (0, hash),
        },
        headers: match records {
            Some(records) => crate::header_map::written(Map::empty(), records),
            None => Map::empty().insert(hash, genesis.stored(hash, 0)),
        },
    }
}

/// What an optional tip holds.
pub open spec fn tip_view(tip: Option<BlockIndex>) -> Option<(int, Seq<u8>)> {
    match tip {
        Some(tip) => Some(tip@),
        None => None,
    }
}

/// What an optional list of records holds.
pub open spec fn stored_records(records: Option<Vec<(BlockHash, BlockHeader)>>) -> Option<
    Seq<(Seq<u8>, BlockHeaderView)>,
> {
    match records {
        Some(records) => Some(crate::header_map::records_view(records@)),
        None => None,
    }
}

/// Headers, each under its own hash.
pub open spec fn keyed(headers: Seq<BlockHeaderView>) -> Seq<(Seq<u8>, BlockHeaderView)> {
    headers.map_values(|header: BlockHeaderView| (header.block_hash, header))
}

/// The headers that a table of stored headers holds.
pub fn construct_headers_chain(records: Vec<(BlockHash, BlockHeader)>) -> (chain: HeaderMap)
    ensures
        chain.wf(),
        chain@ == crate::header_map::written(
            Map::empty(),
            crate::header_map::records_view(records@),
        ),
{
    HeaderMap::from_records(records)
}

/// What would become of a list of headers.
#[derive(Debug, Clone, Copy, PartialEq, Eq, Structural)]
pub enum Prospect {
    /// One of them would stand at a height beyond 32 bits.
    TooHigh,
    /// One of them is refused before that.
    Refused,
    /// All of them are accepted.
    Accepted,
}

/// What is written to storage: headers by hash, and the tip.
pub struct SavedHeaders {
    pub records: Vec<(BlockHash, BlockHeader)>,
    pub tip: BlockIndex,
}

impl BlockHeader {
    /// The header as the chain keeps it at `height`.
    pub fn from_bitcoin_header(header: Header, height: Height) -> (stored: BlockHeader)
        ensures
            stored@ == header@.stored(header@.block_hash(), height as int),
    {
        BlockHeader::with_hash(header, block_hash(&header), height)
    }

    /// The header as the chain keeps it under `hash` at `height`.
    pub fn with_hash(header: Header, hash: BlockHash, height: Height) -> (stored: BlockHeader)
        ensures
            stored@ == header@.stored(hash@, height as int),
    {
        BlockHeader {
            block_hash: hash,
            previous_block: header.prev_blockhash,
            merkle_root: header.merkle_root,
            time: header.time,
            nonce: header.nonce,
            next_block: None,
            height,
        }
    }
}

/// The headers of the best known chain and of its forks, and the header that was added last.
pub struct HeadersChain {
    headers_chain_tip: BlockIndex,
    headers_chain: HeaderMap,
}

impl View for HeadersChain {
    type V = HeadersChainView;

    closed spec fn view(&self) -> HeadersChainView {
        HeadersChainView { tip: self.headers_chain_tip@, headers: self.headers_chain@ }
    }
}

impl HeadersChain {
    pub closed spec fn wf(&self) -> bool {
        self.headers_chain.wf()
    }

    /// The tip.
    pub fn tip(&self) -> (tip: BlockIndex)
        ensures
            tip@ == self@.tip,
    {
        self.headers_chain_tip
    }

    /// Says whether a header may be added, from its parent's hash and from what was found of its
    /// proof of work.
    pub fn check_header(
        &self,
        prev_blockhash: &BlockHash,
        pow: Result<BlockHash, BitcoinValidationError>,
    ) -> (verdict: Result<(), HeaderValidationError>)
        requires
            self.wf(),
        ensures
            verdict == header_verdict(
                self@.headers.contains_key(prev_blockhash@),
                match pow {
                    Ok(hash) => Ok(hash@),
                    Err(error) => Err(error),
                },
            ),
    {
        // the parent must be a block that was seen before
        if !self.headers_chain.contains_key(prev_blockhash) {
            return Err(HeaderValidationError::PrevBlockNotFound);
        }
        match pow {
            Ok(_) => Ok(()),
            Err(error) => Err(HeaderValidationError::from(error)),
        }
    }

    /// Says whether a header may be added.
    pub fn validate_header(&self, header: &Header) -> (verdict: Result<(), HeaderValidationError>)
        requires
            self.wf(),
        ensures
            verdict == self@.verdict(header@.checked()),
    {
        self.check_header(&header.prev_blockhash, validate_pow(header, target(header)))
    }

    /// Adds a header under `hash` on top of its parent.
    pub fn add_header(&mut self, header: &Header, hash: BlockHash) -> (stored: BlockHeader)
        requires
            old(self).wf(),
            old(self)@.headers.contains_key(header.prev_blockhash@),
            old(self)@.headers[header.prev_blockhash@].height < i32::MAX,
        ensures
            final(self).wf(),
            final(self)@ == old(self)@.extended(header@, hash@),
            stored@ == header@.stored(
                hash@,
                old(self)@.headers[header.prev_blockhash@].height + 1,
            ),
    {
        match self.headers_chain.get(&header.prev_blockhash) {
            Some(previous_block) => {
                let mut previous_block = previous_block.clone();
                let height = previous_block.height + 1;
                let stored = BlockHeader::with_hash(*header, hash, height);
                self.headers_chain.insert(hash, stored.clone());
                self.headers_chain_tip = BlockIndex(height, hash);

                previous_block.next_block = Some(NextBlock::Chain(hash));
                self.headers_chain.insert(previous_block.block_hash, previous_block);
                stored
            },
            None => BlockHeader::with_hash(*header, hash, 0),
        }
    }

    /// Adds headers in order, up to the first one that is not accepted.
    pub fn process_headers(&mut self, headers: Vec<Header>) -> (outcome: Result<
        Vec<BlockHeader>,
        HeaderChainError,
    >)
        requires
            old(self).wf(),
            old(self)@.heights_fit(checked_headers(headers@)),
        ensures
            final(self).wf(),
            final(self)@ == old(self)@.processed(checked_headers(headers@)),
            match outcome {
                Ok(stored) => old(self)@.outcome(checked_headers(headers@)) == Ok::<
                    Seq<BlockHeaderView>,
                    HeaderValidationError,
                >(stored_headers(stored@)),
                Err(HeaderChainError::ValidationError(error)) => old(self)@.outcome(
                    checked_headers(headers@),
                ) == Err::<Seq<BlockHeaderView>, HeaderValidationError>(error),
            },
    {
        let mut block_headers: Vec<BlockHeader> = Vec::with_capacity(headers.len());
        let ghost items = checked_headers(headers@);
        assert(items.skip(0) == items);
        for i in 0..headers.len()
            invariant
                self.wf(),
                items == checked_headers(headers@),
                self@.heights_fit(items.skip(i as int)),
                old(self)@.processed(items) == self@.processed(items.skip(i as int)),
                old(self)@.outcome(items) == (match self@.outcome(items.skip(i as int)) {
                    Ok(rest) => Ok(stored_headers(block_headers@) + rest),
                    Err(error) => Err(error),
                }),
        {
            let header = headers[i];
            let ghost rest = items.skip(i as int);
            assert(rest[0] == header@.checked());
            assert(rest.drop_first() == items.skip(i + 1));
            match self.validate_header(&header) {
                Err(error) => return Err(HeaderChainError::from(error)),
                Ok(()) => {},
            }
            let ghost before = self@;
            let ghost earlier = block_headers@;
            assert(before.headers.contains_key(header.prev_blockhash@));
            let stored = self.add_header(&header, block_hash(&header));
            block_headers.push(stored);
            proof {
                let done = stored_headers(earlier);
                assert(stored_headers(block_headers@) == done.push(stored@));
                match self@.outcome(items.skip(i + 1)) {
                    Ok(tail) => {
                        assert(done.push(stored@) + tail == done + (seq![stored@] + tail));
                    },
                    Err(_) => {},
                }
            }
        }
        proof {
            assert(items.skip(items.len() as int).len() == 0);
            let done = stored_headers(block_headers@);
            assert(done + Seq::<BlockHeaderView>::empty() == done);
        }
        Ok(block_headers)
    }

    /// Says what [`HeadersChain::process_headers`] would make of these headers.
    pub fn prospect(&self, headers: &Vec<Header>) -> (prospect: Prospect)
        requires
            self.wf(),
        ensures
            prospect is TooHigh <==> !self@.heights_fit(checked_headers(headers@)),
            prospect is Refused ==> self@.outcome(checked_headers(headers@)) is Err,
            prospect is Accepted ==> self@.outcome(checked_headers(headers@)) is Ok,
    {
        // the headers that would be added or changed
        let mut changed = HeaderMap::new();
        let ghost items = checked_headers(headers@);
        let ghost mut chain = self@;
        assert(items.skip(0) == items);
        assert(chain.headers =~= self@.headers.union_prefer_right(changed@));
        for i in 0..headers.len()
            invariant
                self.wf(),
                changed.wf(),
                items == checked_headers(headers@),
                chain.headers == self@.headers.union_prefer_right(changed@),
                self@.heights_fit(items) == chain.heights_fit(items.skip(i as int)),
                self@.outcome(items) is Ok == chain.outcome(items.skip(i as int)) is Ok,
        {
            let header = headers[i];
            let ghost rest = items.skip(i as int);
            assert(rest[0] == header@.checked());
            assert(rest.drop_first() == items.skip(i + 1));
            let parent = match changed.get(&header.prev_blockhash) {
                Some(parent) => parent,
                None => match self.headers_chain.get(&header.prev_blockhash) {
                    Some(parent) => parent,
                    None => return Prospect::Refused,
                },
            };
            match validate_pow(&header, target(&header)) {
                Ok(_) => {},
                Err(_) => return Prospect::Refused,
            }
            if parent.height == i32::MAX {
                return Prospect::TooHigh;
            }
            let hash = block_hash(&header);
            let stored = BlockHeader::with_hash(header, hash, parent.height + 1);
            let mut parent = parent.clone();
            parent.next_block = Some(NextBlock::Chain(hash));
            let ghost before = changed@;
            proof {
                chain = chain.extended(header@, hash@);
                assert(chain.headers =~= self@.headers.union_prefer_right(
                    before.insert(hash@, stored@).insert(parent@.block_hash, parent@),
                ));
            }
            changed.insert(hash, stored);
            changed.insert(parent.block_hash, parent);
        }
        assert(items.skip(items.len() as int).len() == 0);
        Prospect::Accepted
    }

    /// Whether the blocks that [`HeadersChain::get_block_inventory`] would list from `start` on
    /// are all held.
    pub fn can_walk(&self, start: &BlockHash) -> (holds: bool)
        requires
            self.wf(),
        ensures
            holds == (self@.headers.contains_key(start@) ==> walk_holds(
                self@.headers,
                start@,
                BATCH as nat,
            )),
    {
        let ghost headers = self@.headers;
        let ghost full = walk(headers, start@, BATCH as nat);
        let mut current = match self.headers_chain.get(start) {
            Some(header) => header,
            None => return true,
        };
        let mut met: usize = 0;
        let ghost mut here = start@;
        assert(full.skip(0) == full);
        while met < BATCH
            invariant
                self.wf(),
                headers == self@.headers,
                full == walk(headers, start@, BATCH as nat),
                met <= BATCH,
                met <= full.len(),
                headers.contains_key(start@),
                headers.contains_key(here),
                headers[here] == current@,
                walk(headers, here, (BATCH - met) as nat) == full.skip(met as int),
                forall|i: int| 0 <= i < met ==> headers.contains_key(#[trigger] full[i]),
            decreases BATCH - met,
        {
            match &current.next_block {
                Some(NextBlock::Chain(hash)) => {
                    proof {
                        lemma_walk_step(headers, here, (BATCH - met) as nat, hash@);
                        assert(full.skip(met as int).drop_first() == full.skip(met + 1));
                        assert(full[met as int] == hash@);
                        here = hash@;
                    }
                    match self.headers_chain.get(hash) {
                        Some(header) => current = header,
                        None => {
                            assert(!headers.contains_key(
                                walk(headers, start@, BATCH as nat)[met as int],
                            ));
                            return false;
                        },
                    }
                },
                _ => {
                    assert(full.skip(met as int).len() == 0);
                    return true;
                },
            }
            met = met + 1;
        }
        assert(full.skip(met as int).len() == 0);
        true
    }

    /// The blocks to ask for after `start_block`, as many as one request holds.
    pub fn get_block_inventory(&self, start_block: &BlockHash) -> (inventory: Result<
        Vec<Inventory>,
        HeaderChainError,
    >)
        requires
            self.wf(),
            self@.headers.contains_key(start_block@) ==> walk_holds(
                self@.headers,
                start_block@,
                BATCH as nat,
            ),
        ensures
            match inventory {
                Ok(items) => self@.headers.contains_key(start_block@)
                    && crate::message::inventory_view(items@) == walk(
                    self@.headers,
                    start_block@,
                    BATCH as nat,
                ),
                Err(error) => !self@.headers.contains_key(start_block@) && error
                    == HeaderChainError::ValidationError(HeaderValidationError::PrevBlockNotFound),
            },
    {
        let ghost headers = self@.headers;
        let ghost full = walk(headers, start_block@, BATCH as nat);
        let mut current_block = match self.headers_chain.get(start_block) {
            Some(block_header) => block_header,
            None => {
                return Err(HeaderChainError::from(HeaderValidationError::PrevBlockNotFound));
            },
        };
        let mut inventory: Vec<Inventory> = Vec::with_capacity(BATCH);
        let ghost mut here = start_block@;
        assert(full.skip(0) == full);
        assert(full.take(0) == crate::message::inventory_view(inventory@));
        while inventory.len() < BATCH
            invariant
                self.wf(),
                headers == self@.headers,
                full == walk(headers, start_block@, BATCH as nat),
                forall|i: int| 0 <= i < full.len() ==> headers.contains_key(#[trigger] full[i]),
                inventory@.len() <= BATCH,
                inventory@.len() <= full.len(),
                headers.contains_key(start_block@),
                headers.contains_key(here),
                headers[here] == current_block@,
                walk(headers, here, (BATCH - inventory@.len()) as nat) == full.skip(
                    inventory@.len() as int,
                ),
                crate::message::inventory_view(inventory@) == full.take(inventory@.len() as int),
            decreases BATCH - inventory@.len(),
        {
            let ghost met = inventory@.len() as int;
            match &current_block.next_block {
                Some(NextBlock::Chain(hash)) => {
                    proof {
                        lemma_walk_step(headers, here, (BATCH - met) as nat, hash@);
                        assert(full.skip(met).drop_first() == full.skip(met + 1));
                        assert(full[met] == hash@);
                        here = hash@;
                    }
                    let ghost earlier = inventory@;
                    inventory.push(Inventory::WitnessBlock(*hash));
                    proof {
                        assert(crate::message::inventory_view(inventory@)
                            == crate::message::inventory_view(earlier).push(hash@));
                        assert(full.take(met + 1) == full.take(met).push(full[met]));
                    }
                    match self.headers_chain.get(hash) {
                        Some(block_header) => current_block = block_header,
                        None => {},
                    }
                },
                _ => {
                    assert(full.skip(met).len() == 0);
                    assert(full.take(met) == full);
                    return Ok(inventory);
                },
            }
        }
        assert(full.skip(inventory@.len() as int).len() == 0);
        assert(full.take(inventory@.len() as int) == full);
        Ok(inventory)
    }

    /// The chain that is found in storage: `tip` is the tip that was saved, if one was, and
    /// `records` are the headers that were saved, if a table of headers is there. What is not
    /// there starts at the genesis block.
    pub fn new(
        network: Network,
        tip: Option<BlockIndex>,
        records: Option<Vec<(BlockHash, BlockHeader)>>,
    ) -> (chain: HeadersChain)
        ensures
            chain.wf(),
            chain@ == loaded(
                crate::consensus::genesis_of(network),
                crate::consensus::genesis_of(network).block_hash(),
                tip_view(tip),
                stored_records(records),
            ),
    {
        let genesis = genesis_header(network);
        let hash = block_hash(&genesis);
        HeadersChain::with_genesis(genesis, hash, tip, records)
    }

    /// The chain that is found in storage, where the genesis block is `genesis` with this hash.
    pub fn with_genesis(
        genesis: Header,
        hash: BlockHash,
        tip: Option<BlockIndex>,
        records: Option<Vec<(BlockHash, BlockHeader)>>,
    ) -> (chain: HeadersChain)
        ensures
            chain.wf(),
            chain@ == loaded(genesis@, hash@, tip_view(tip), stored_records(records)),
    {
        let headers_chain_tip = match tip {
            Some(tip) => tip,
            None => BlockIndex(0, hash),
        };
        let headers_chain = match records {
            Some(records) => construct_headers_chain(records),
            // with no table of headers, start the chain from genesis
            None => {
                let mut chain = HeaderMap::new();
                chain.insert(hash, BlockHeader::with_hash(genesis, hash, 0));
                chain
            },
        };
        HeadersChain { headers_chain_tip, headers_chain }
    }

    /// What to write to storage for `headers`: each of them under its hash, and the tip.
    pub fn save_headers(&self, headers: Vec<BlockHeader>) -> (saved: SavedHeaders)
        ensures
            saved.tip@ == self@.tip,
            crate::header_map::records_view(saved.records@) == keyed(stored_headers(headers@)),
    {
        let mut records: Vec<(BlockHash, BlockHeader)> = Vec::with_capacity(headers.len());
        let ghost all = keyed(stored_headers(headers@));
        for i in 0..headers.len()
            invariant
                all == keyed(stored_headers(headers@)),
                crate::header_map::records_view(records@) == all.take(i as int),
        {
            let header = &headers[i];
            let ghost earlier = records@;
            records.push((header.block_hash, header.clone()));
            proof {
                let item = (header@.block_hash, header@);
                assert(crate::header_map::records_view(records@)
                    =~= crate::header_map::records_view(earlier).push(item));
                assert(crate::header_map::records_view(records@) =~= all.take(i + 1));
            }
        }
        assert(crate::header_map::records_view(records@) =~= all);
        SavedHeaders { records, tip: self.headers_chain_tip }
    }

    /// What to write to storage for the whole chain: every header under its hash, and the tip.
    pub fn save_headers_chain(&self) -> (saved: SavedHeaders)
        requires
            self.wf(),
        ensures
            saved.tip@ == self@.tip,
            crate::header_map::lists(
                crate::header_map::records_view(saved.records@),
                self@.headers,
            ),
    {
        SavedHeaders { records: self.headers_chain.records(), tip: self.headers_chain_tip }
    }
}

} // verus!
