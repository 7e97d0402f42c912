//! The rules of proof of work and the genesis blocks, as the `bitcoin` crate computes them.

use bitcoin::hashes::Hash as HashBytes;
use vstd::prelude::*;

use crate::error::BitcoinValidationError;
use crate::header::{BlockHash, Header, HeaderView};
use crate::network::Network;

verus! {

/// The result of `bitcoin::block::Header::block_hash` for a header with these fields, in the
/// byte order of the wire: the double SHA-256 of the header's 80 bytes.
pub uninterp spec fn block_hash_of(
    version: i32,
    prev_blockhash: Seq<u8>,
    merkle_root: Seq<u8>,
    time: u32,
    bits: u32,
    nonce: u32,
) -> Seq<u8>;

/// The number that compact target bits stand for. The highest byte is the size of the number in
/// bytes, and the other three bytes are its highest ones. With their sign bit set they stand for
/// zero. A number of more than 32 bytes is cut to the lowest 32, and the places that it is shifted
/// by are counted modulo 32.
pub open spec fn compact_target(bits: u32) -> nat {
    let (size, digits) = (bits as int / 0x100_0000, bits as int % 0x100_0000);
    let (mantissa, shift) = if size <= 3 {
        (digits / vstd::arithmetic::power::pow(256, (3 - size) as nat), 0)
    } else {
        (digits, (size - 3) % 32)
    };
    if mantissa > 0x7f_ffff {
        0
    } else {
        (mantissa * vstd::arithmetic::power::pow(256, shift as nat)
            % vstd::arithmetic::power::pow(256, 32)) as nat
    }
}

impl HeaderView {
    /// The hash of the block.
    pub open spec fn block_hash(self) -> Seq<u8> {
        block_hash_of(
            self.version,
            self.prev_blockhash,
            self.merkle_root,
            self.time,
            self.bits,
            self.nonce,
        )
    }

    /// The target that the hash must not exceed, least significant byte first.
    pub open spec fn target(self) -> Seq<u8> {
        crate::bytes::le_bytes(compact_target(self.bits), 32)
    }

    /// What the check of the header against its own target says.
    pub open spec fn pow(self) -> Result<Seq<u8>, BitcoinValidationError> {
        pow_verdict(self.block_hash(), self.target(), self.target())
    }
}

/// What the check of a proof of work says of a header with this hash and this target, where
/// `required` is asked for: the hash, as a number, is at most the target.
pub open spec fn pow_verdict(hash: Seq<u8>, target: Seq<u8>, required: Seq<u8>) -> Result<
    Seq<u8>,
    BitcoinValidationError,
> {
    if target != required {
        Err(BitcoinValidationError::BadTarget)
    } else if crate::bytes::le_value(hash) <= crate::bytes::le_value(target) {
        Ok(hash)
    } else {
        Err(BitcoinValidationError::BadProofOfWork)
    }
}

/// Calls `bitcoin::block::Header::block_hash`. The result is the name [`block_hash_of`] applied
/// to the header's fields.
#[verifier::external_body]
pub(crate) fn block_hash(header: &Header) -> (hash: BlockHash)
    ensures
        hash@ == block_hash_of(
            header.version,
            header.prev_blockhash@,
            header.merkle_root@,
            header.time,
            header.bits,
            header.nonce,
        ),
{
    let header = bitcoin::block::Header {
        version: bitcoin::block::Version::from_consensus(header.version),
        prev_blockhash: bitcoin::BlockHash::from_byte_array(header.prev_blockhash),
        merkle_root: bitcoin::TxMerkleNode::from_byte_array(header.merkle_root),
        time: header.time,
        bits: bitcoin::CompactTarget::from_consensus(header.bits),
        nonce: header.nonce,
    };
    header.block_hash().to_byte_array()
}

/// Calls `bitcoin::block::Header::target`. The result is the number that the header's bits stand
/// for, [`compact_target`], in 32 bytes: the target rests on no other field.
#[verifier::external_body]
pub(crate) fn target(header: &Header) -> (target: [u8; 32])
    ensures
        target@ == crate::bytes::le_bytes(compact_target(header.bits), 32),
{
    let header = bitcoin::block::Header {
        version: bitcoin::block::Version::from_consensus(header.version),
        prev_blockhash: bitcoin::BlockHash::from_byte_array(header.prev_blockhash),
        merkle_root: bitcoin::TxMerkleNode::from_byte_array(header.merkle_root),
        time: header.time,
        bits: bitcoin::CompactTarget::from_consensus(header.bits),
        nonce: header.nonce,
    };
    header.target().to_le_bytes()
}

/// Calls `bitcoin::block::Header::validate_pow`. It fails with `BadTarget` where the header's
/// target is not the required one, then with `BadProofOfWork` where the hash, read as a number
/// least significant byte first, is above the target, and else gives the hash.
#[verifier::external_body]
pub(crate) fn validate_pow(header: &Header, required_target: [u8; 32]) -> (verdict: Result<
    BlockHash,
    BitcoinValidationError,
>)
    ensures
        pow_verdict(header@.block_hash(), header@.target(), required_target@) == (match verdict {
            Ok(hash) => Ok(hash@),
            Err(error) => Err(error),
        }),
{
    let header = bitcoin::block::Header {
        version: bitcoin::block::Version::from_consensus(header.version),
        prev_blockhash: bitcoin::BlockHash::from_byte_array(header.prev_blockhash),
        merkle_root: bitcoin::TxMerkleNode::from_byte_array(header.merkle_root),
        time: header.time,
        bits: bitcoin::CompactTarget::from_consensus(header.bits),
        nonce: header.nonce,
    };
    match header.validate_pow(bitcoin::Target::from_le_bytes(required_target)) {
        Ok(hash) => Ok(hash.to_byte_array()),
        Err(bitcoin::block::ValidationError::BadTarget) => Err(BitcoinValidationError::BadTarget),
        Err(_) => Err(BitcoinValidationError::BadProofOfWork),
    }
}

/// The transaction root of the genesis block that all networks but the fourth test network
/// share.
pub open spec fn genesis_merkle_root() -> Seq<u8> {
    seq![
        0x3bu8, 0xa3, 0xed, 0xfd, 0x7a, 0x7b, 0x12, 0xb2, 0x7a, 0xc7, 0x2c, 0x3e, 0x67, 0x76, 0x8f,
        0x61, 0x7f, 0xc8, 0x1b, 0xc3, 0x88, 0x8a, 0x51, 0x32, 0x3a, 0x9f, 0xb8, 0xaa, 0x4b, 0x1e,
        0x5e, 0x4a,
    ]
}

/// The transaction root of the fourth test network's genesis block.
pub open spec fn testnet4_merkle_root() -> Seq<u8> {
    seq![
        0x4eu8, 0x7b, 0x2b, 0x91, 0x28, 0xfe, 0x02, 0x91, 0xdb, 0x06, 0x93, 0xaf, 0x2a, 0xe4, 0x18,
        0xb7, 0x67, 0xe6, 0x57, 0xcd, 0x40, 0x7e, 0x80, 0xcb, 0x14, 0x34, 0x22, 0x1e, 0xae, 0xa7,
        0xa0, 0x7a,
    ]
}

/// The header of a network's genesis block.
pub open spec fn genesis_of(network: Network) -> HeaderView {
    let (merkle_root, time, bits, nonce) = match network {
        Network::Bitcoin => (genesis_merkle_root(), 1231006505u32, 0x1d00ffffu32, 2083236893u32),
        Network::Testnet => (genesis_merkle_root(), 1296688602u32, 0x1d00ffffu32, 414098458u32),
        Network::Testnet4 => (testnet4_merkle_root(), 1714777860u32, 0x1d00ffffu32, 393743547u32),
        Network::Signet => (genesis_merkle_root(), 1598918400u32, 0x1e0377aeu32, 52613770u32),
        Network::Regtest => (genesis_merkle_root(), 1296688602u32, 0x207fffffu32, 2u32),
    };
    HeaderView {
        version: 1,
        prev_blockhash: Seq::new(32, |i: int| 0u8),
        merkle_root,
        time,
        bits,
        nonce,
    }
}

/// Calls `bitcoin::constants::genesis_block`: each network has one fixed genesis block, whose
/// header is given by [`genesis_of`].
#[verifier::external_body]
pub(crate) fn genesis_header(network: Network) -> (header: Header)
    ensures
        header@ == genesis_of(network),
{
    let network = match network {
        Network::Bitcoin => bitcoin::Network::Bitcoin,
        Network::Testnet => bitcoin::Network::Testnet,
        Network::Testnet4 => bitcoin::Network::Testnet4,
        Network::Signet => bitcoin::Network::Signet,
        Network::Regtest => bitcoin::Network::Regtest,
    };
    let header = bitcoin::constants::genesis_block(bitcoin::params::Params::new(network)).header;
    let (version, bits) = (header.version.to_consensus(), header.bits.to_consensus());
    let prev_blockhash = header.prev_blockhash.to_byte_array();
    let merkle_root = header.merkle_root.to_byte_array();
    Header { version, prev_blockhash, merkle_root, time: header.time, bits, nonce: header.nonce }
}

} // verus!
