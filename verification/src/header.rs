//! Block headers, as they travel between peers and as the chain keeps them.

use vstd::prelude::*;

verus! {

/// A block hash in the byte order of the wire.
pub type BlockHash = [u8; 32];

/// The number of blocks between a block and the genesis block.
pub type Height = i32;

/// A height and the hash of the block at that height.
#[derive(Debug, Clone, Copy)]
pub struct BlockIndex(pub i32, pub [u8; 32]);

impl View for BlockIndex {
    type V = (int, Seq<u8>);

    open spec fn view(&self) -> (int, Seq<u8>) {
        (self.0 as int, self.1@)
    }
}

/// A block header as peers announce it.
#[derive(Debug, Clone, Copy)]
pub struct Header {
    pub version: i32,
    pub prev_blockhash: BlockHash,
    pub merkle_root: [u8; 32],
    pub time: u32,
    pub bits: u32,
    pub nonce: u32,
}

/// What a [`Header`] holds.
pub ghost struct HeaderView {
    pub version: i32,
    pub prev_blockhash: Seq<u8>,
    pub merkle_root: Seq<u8>,
    pub time: u32,
    pub bits: u32,
    pub nonce: u32,
}

impl View for Header {
    type V = HeaderView;

    open spec fn view(&self) -> HeaderView {
        HeaderView {
            version: self.version,
            prev_blockhash: self.prev_blockhash@,
            merkle_root: self.merkle_root@,
            time: self.time,
            bits: self.bits,
            nonce: self.nonce,
        }
    }
}

/// Where the chain goes on from a block.
#[derive(Debug)]
pub enum NextBlock {
    /// A block inside the chain points to exactly one next block.
    Chain(BlockHash),
    /// A block at the tip may have several candidates, one per fork.
    Tip(Vec<BlockHash>),
}

/// What a [`NextBlock`] holds.
pub ghost enum NextBlockView {
    Chain(Seq<u8>),
    Tip(Seq<Seq<u8>>),
}

impl View for NextBlock {
    type V = NextBlockView;

    open spec fn view(&self) -> NextBlockView {
        match self {
            NextBlock::Chain(hash) => NextBlockView::Chain(hash@),
            NextBlock::Tip(hashes) => NextBlockView::Tip(hashes@.map_values(|h: BlockHash| h@)),
        }
    }
}

impl Clone for NextBlock {
    fn clone(&self) -> (copy: Self)
        ensures
            copy@ == self@,
    {
        match self {
            NextBlock::Chain(hash) => NextBlock::Chain(*hash),
            NextBlock::Tip(hashes) => {
                let mut copies: Vec<BlockHash> = Vec::with_capacity(hashes.len());
                for i in 0..hashes.len()
                    invariant
                        copies@ == hashes@.take(i as int),
                {
                    copies.push(hashes[i]);
                    assert(hashes@.take(i + 1) == hashes@.take(i as int).push(hashes@[i as int]));
                }
                assert(hashes@.take(hashes@.len() as int) == hashes@);
                NextBlock::Tip(copies)
            },
        }
    }
}

/// A block header as the chain keeps it.
#[derive(Debug)]
pub struct BlockHeader {
    pub block_hash: BlockHash,
    pub previous_block: BlockHash,
    pub merkle_root: [u8; 32],
    pub time: u32,
    pub nonce: u32,
    pub next_block: Option<NextBlock>,
    pub height: Height,
}

/// What a [`BlockHeader`] holds.
pub ghost struct BlockHeaderView {
    pub block_hash: Seq<u8>,
    pub previous_block: Seq<u8>,
    pub merkle_root: Seq<u8>,
    pub time: u32,
    pub nonce: u32,
    pub next_block: Option<NextBlockView>,
    pub height: int,
}

impl View for BlockHeader {
    type V = BlockHeaderView;

    open spec fn view(&self) -> BlockHeaderView {
        BlockHeaderView {
            block_hash: self.block_hash@,
            previous_block: self.previous_block@,
            merkle_root: self.merkle_root@,
            time: self.time,
            nonce: self.nonce,
            next_block: match self.next_block {
                Some(next) => Some(next@),
                None => None,
            },
            height: self.height as int,
        }
    }
}

impl Clone for BlockHeader {
    fn clone(&self) -> (copy: Self)
        ensures
            copy@ == self@,
    {
        BlockHeader {
            block_hash: self.block_hash,
            previous_block: self.previous_block,
            merkle_root: self.merkle_root,
            time: self.time,
            nonce: self.nonce,
            next_block: match &self.next_block {
                Some(next) => Some(next.clone()),
                None => None,
            },
            height: self.height,
        }
    }
}

} // verus!
