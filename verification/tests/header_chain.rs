use bitcoin::hashes::Hash as HashBytes;
use bitcoin_node::error::{BitcoinValidationError, HeaderChainError, HeaderValidationError};
use bitcoin_node::header::{BlockHash, BlockHeader, BlockIndex, Header, NextBlock};
use bitcoin_node::header_chain::{HeadersChain, Prospect, BATCH};
use bitcoin_node::message::Inventory;
use bitcoin_node::network::Network;

const EASY: u32 = 0x207fffff;

fn plain(header: &bitcoin::block::Header) -> Header {
    Header {
        version: header.version.to_consensus(),
        prev_blockhash: header.prev_blockhash.to_byte_array(),
        merkle_root: header.merkle_root.to_byte_array(),
        time: header.time,
        bits: header.bits.to_consensus(),
        nonce: header.nonce,
    }
}

fn outside(header: &Header) -> bitcoin::block::Header {
    bitcoin::block::Header {
        version: bitcoin::block::Version::from_consensus(header.version),
        prev_blockhash: bitcoin::BlockHash::from_byte_array(header.prev_blockhash),
        merkle_root: bitcoin::TxMerkleNode::from_byte_array(header.merkle_root),
        time: header.time,
        bits: bitcoin::CompactTarget::from_consensus(header.bits),
        nonce: header.nonce,
    }
}

fn hash(header: &Header) -> BlockHash {
    outside(header).block_hash().to_byte_array()
}

fn works(header: &Header) -> bool {
    let header = outside(header);
    header.validate_pow(header.target()).is_ok()
}

fn mined(prev_blockhash: BlockHash, time: u32) -> Header {
    let mut header =
        Header { version: 4, prev_blockhash, merkle_root: [7; 32], time, bits: EASY, nonce: 0 };
    while !works(&header) {
        header.nonce += 1;
    }
    header
}

fn unworked(prev_blockhash: BlockHash) -> Header {
    let mut header = mined(prev_blockhash, 77);
    while works(&header) {
        header.nonce += 1;
    }
    header
}

fn genesis(network: bitcoin::Network) -> Header {
    plain(&bitcoin::constants::genesis_block(network).header)
}

fn run_of(start: BlockHash, count: u32) -> Vec<Header> {
    let mut headers = Vec::new();
    let mut parent = start;
    for i in 0..count {
        let header = mined(parent, 1_700_000_000 + i);
        parent = hash(&header);
        headers.push(header);
    }
    headers
}

fn numbered(number: u32) -> BlockHash {
    let mut bytes = [0xee; 32];
    bytes[..4].copy_from_slice(&number.to_le_bytes());
    bytes
}

fn linked_to(parent: BlockHash) -> Header {
    Header { version: 1, prev_blockhash: parent, merkle_root: [0; 32], time: 1, bits: 2, nonce: 3 }
}

/// A chain of numbered blocks on top of block zero.
fn numbered_chain(count: u32) -> HeadersChain {
    let mut chain = HeadersChain::with_genesis(linked_to([0; 32]), numbered(0), None, None);
    for number in 1..=count {
        chain.add_header(&linked_to(numbered(number - 1)), numbered(number));
    }
    chain
}

fn listed(chain: &HeadersChain, start: &BlockHash) -> Vec<BlockHash> {
    assert!(chain.can_walk(start));
    let inventory = chain.get_block_inventory(start).unwrap();
    inventory.iter().map(|Inventory::WitnessBlock(hash)| *hash).collect()
}

fn tip(chain: &HeadersChain) -> (i32, BlockHash) {
    (chain.tip().0, chain.tip().1)
}

fn fields(header: &BlockHeader) -> (BlockHash, BlockHash, [u8; 32], u32, u32, i32) {
    (
        header.block_hash,
        header.previous_block,
        header.merkle_root,
        header.time,
        header.nonce,
        header.height,
    )
}

#[test]
fn a_fresh_chain_starts_at_the_genesis_block_of_its_network() {
    let networks = [
        (Network::Bitcoin, bitcoin::Network::Bitcoin),
        (Network::Testnet, bitcoin::Network::Testnet),
        (Network::Testnet4, bitcoin::Network::Testnet4),
        (Network::Signet, bitcoin::Network::Signet),
        (Network::Regtest, bitcoin::Network::Regtest),
    ];
    for (network, outside_network) in networks {
        let chain = HeadersChain::new(network, None, None);
        let expected = genesis(outside_network);
        assert_eq!(tip(&chain), (0, hash(&expected)));
        let saved = chain.save_headers_chain();
        assert_eq!(saved.records.len(), 1);
        let (key, header) = &saved.records[0];
        assert_eq!(*key, hash(&expected));
        assert_eq!(
            fields(header),
            (hash(&expected), [0; 32], expected.merkle_root, expected.time, expected.nonce, 0),
        );
        assert!(header.next_block.is_none());
        assert!(listed(&chain, key).is_empty());
    }
}

#[test]
fn genesis_blocks_are_those_of_the_protocol() {
    let numbers = |header: &Header| (header.version, header.time, header.bits, header.nonce);
    let main = genesis(bitcoin::Network::Bitcoin);
    assert_eq!(numbers(&main), (1, 1231006505, 0x1d00ffff, 2083236893));
    assert_eq!(main.merkle_root[..4], [0x3b, 0xa3, 0xed, 0xfd]);
    assert_eq!(main.merkle_root[28..], [0x4b, 0x1e, 0x5e, 0x4a]);
    let test = genesis(bitcoin::Network::Testnet);
    assert_eq!(numbers(&test), (1, 1296688602, 0x1d00ffff, 414098458));
    assert_eq!(test.merkle_root, main.merkle_root);
    let test4 = genesis(bitcoin::Network::Testnet4);
    assert_eq!(numbers(&test4), (1, 1714777860, 0x1d00ffff, 393743547));
    assert_eq!(test4.merkle_root[..4], [0x4e, 0x7b, 0x2b, 0x91]);
    assert_eq!(test4.merkle_root[28..], [0xae, 0xa7, 0xa0, 0x7a]);
    let signet = genesis(bitcoin::Network::Signet);
    assert_eq!(numbers(&signet), (1, 1598918400, 0x1e0377ae, 52613770));
    assert_eq!(signet.merkle_root, main.merkle_root);
    let regtest = genesis(bitcoin::Network::Regtest);
    assert_eq!(numbers(&regtest), (1, 1296688602, EASY, 2));
    assert_eq!(regtest.merkle_root, main.merkle_root);
    assert_eq!(regtest.prev_blockhash, [0; 32]);
}

#[test]
fn a_stored_header_keeps_the_fields_of_the_announced_one() {
    let header = mined([9; 32], 5);
    let stored = BlockHeader::from_bitcoin_header(header, 41);
    assert_eq!(fields(&stored), (hash(&header), [9; 32], [7; 32], 5, header.nonce, 41));
    assert!(stored.next_block.is_none());
    let stored = BlockHeader::with_hash(header, [1; 32], -3);
    assert_eq!(fields(&stored), ([1; 32], [9; 32], [7; 32], 5, header.nonce, -3));
}

#[test]
fn the_first_block_of_the_main_network_is_accepted() {
    let mut merkle_root: [u8; 32] = [
        0x0e, 0x3e, 0x23, 0x57, 0xe8, 0x06, 0xb6, 0xcd, 0xb1, 0xf7, 0x0b, 0x54, 0xc3, 0xa3, 0xa1,
        0x7b, 0x67, 0x14, 0xee, 0x1f, 0x0e, 0x68, 0xbe, 0xbb, 0x44, 0xa7, 0x4b, 0x1e, 0xfd, 0x51,
        0x20, 0x98,
    ];
    merkle_root.reverse();
    let mut expected: BlockHash = [
        0x00, 0x00, 0x00, 0x00, 0x83, 0x9a, 0x8e, 0x68, 0x86, 0xab, 0x59, 0x51, 0xd7, 0x6f, 0x41,
        0x14, 0x75, 0x42, 0x8a, 0xfc, 0x90, 0x94, 0x7e, 0xe3, 0x20, 0x16, 0x1b, 0xbf, 0x18, 0xeb,
        0x60, 0x48,
    ];
    expected.reverse();
    let mut chain = HeadersChain::new(Network::Bitcoin, None, None);
    let first = Header {
        version: 1,
        prev_blockhash: chain.tip().1,
        merkle_root,
        time: 1231469665,
        bits: 0x1d00ffff,
        nonce: 2573394689,
    };
    assert_eq!(chain.validate_header(&first), Ok(()));
    let mut wrong = first;
    wrong.nonce += 1;
    assert_eq!(
        chain.validate_header(&wrong),
        Err(HeaderValidationError::BitcoinValidationError(BitcoinValidationError::BadProofOfWork)),
    );
    let stored = chain.process_headers(vec![first]).unwrap();
    assert_eq!(stored.len(), 1);
    assert_eq!(fields(&stored[0]).0, expected);
    assert_eq!(tip(&chain), (1, expected));
}

#[test]
fn headers_are_checked_for_their_parent_then_for_their_work() {
    let chain = HeadersChain::new(Network::Regtest, None, None);
    let start = chain.tip().1;
    assert_eq!(chain.validate_header(&mined(start, 1)), Ok(()));
    assert_eq!(
        chain.validate_header(&mined([3; 32], 1)),
        Err(HeaderValidationError::PrevBlockNotFound),
    );
    assert_eq!(
        chain.validate_header(&unworked([3; 32])),
        Err(HeaderValidationError::PrevBlockNotFound),
    );
    assert_eq!(
        chain.validate_header(&unworked(start)),
        Err(HeaderValidationError::BitcoinValidationError(BitcoinValidationError::BadProofOfWork)),
    );
}

#[test]
fn the_verdict_on_the_work_decides_where_the_parent_is_known() {
    let chain = numbered_chain(2);
    let bad = BitcoinValidationError::BadTarget;
    assert_eq!(chain.check_header(&numbered(2), Ok([5; 32])), Ok(()));
    assert_eq!(
        chain.check_header(&numbered(2), Err(bad)),
        Err(HeaderValidationError::BitcoinValidationError(bad)),
    );
    assert_eq!(
        chain.check_header(&numbered(3), Err(bad)),
        Err(HeaderValidationError::PrevBlockNotFound),
    );
}

#[test]
fn a_run_of_headers_is_added_and_listed_in_order() {
    let mut chain = HeadersChain::new(Network::Regtest, None, None);
    let start = chain.tip().1;
    let headers = run_of(start, 5);
    let hashes: Vec<BlockHash> = headers.iter().map(hash).collect();
    assert_eq!(chain.prospect(&headers), Prospect::Accepted);
    let stored = chain.process_headers(headers.clone()).unwrap();
    assert_eq!(stored.len(), 5);
    for (i, header) in stored.iter().enumerate() {
        assert_eq!(header.block_hash, hashes[i]);
        assert_eq!(header.previous_block, headers[i].prev_blockhash);
        assert_eq!(header.height, i as i32 + 1);
        assert!(header.next_block.is_none());
    }
    assert_eq!(tip(&chain), (5, hashes[4]));
    assert_eq!(listed(&chain, &start), hashes);
    assert_eq!(listed(&chain, &hashes[1]), hashes[2..]);
    assert!(listed(&chain, &hashes[4]).is_empty());
}

#[test]
fn no_headers_change_nothing() {
    let mut chain = numbered_chain(3);
    assert_eq!(chain.prospect(&vec![]), Prospect::Accepted);
    assert!(chain.process_headers(vec![]).unwrap().is_empty());
    assert_eq!(tip(&chain), (3, numbered(3)));
}

#[test]
fn headers_before_a_refused_one_stay() {
    let mut chain = HeadersChain::new(Network::Regtest, None, None);
    let start = chain.tip().1;
    let mut headers = run_of(start, 4);
    let hashes: Vec<BlockHash> = headers.iter().map(hash).collect();
    headers[2] = unworked(hashes[1]);
    assert_eq!(chain.prospect(&headers), Prospect::Refused);
    assert_eq!(
        chain.process_headers(headers).unwrap_err(),
        HeaderChainError::ValidationError(HeaderValidationError::BitcoinValidationError(
            BitcoinValidationError::BadProofOfWork,
        )),
    );
    assert_eq!(tip(&chain), (2, hashes[1]));
    assert_eq!(listed(&chain, &start), hashes[..2]);
}

#[test]
fn a_header_without_its_parent_is_refused() {
    let mut chain = HeadersChain::new(Network::Regtest, None, None);
    let before = tip(&chain);
    let headers = vec![mined([3; 32], 1)];
    assert_eq!(chain.prospect(&headers), Prospect::Refused);
    assert_eq!(
        chain.process_headers(headers).unwrap_err(),
        HeaderChainError::ValidationError(HeaderValidationError::PrevBlockNotFound),
    );
    assert_eq!(tip(&chain), before);
}

#[test]
fn the_header_that_came_last_is_the_tip() {
    let mut chain = numbered_chain(3);
    let stored = chain.add_header(&linked_to(numbered(1)), numbered(100));
    assert_eq!(stored.height, 2);
    assert_eq!(tip(&chain), (2, numbered(100)));
    assert_eq!(listed(&chain, &numbered(0)), [numbered(1), numbered(100)]);
    assert_eq!(listed(&chain, &numbered(2)), [numbered(3)]);
}

/// All entries, by hash.
fn entries(chain: &HeadersChain) -> Vec<String> {
    let mut records = chain.save_headers_chain().records;
    records.sort_by_key(|(key, _)| *key);
    records.iter().map(|record| format!("{:?}", record)).collect()
}

#[test]
fn siblings_are_both_held_and_the_later_one_is_linked() {
    let mut chain = HeadersChain::new(Network::Regtest, None, None);
    let start = chain.tip().1;
    let (first, second) = (mined(start, 1), mined(start, 2));
    chain.process_headers(vec![first]).unwrap();
    chain.process_headers(vec![second]).unwrap();
    for header in [first, second] {
        let records = chain.save_headers_chain().records;
        let held = records.iter().find(|(key, _)| *key == hash(&header)).unwrap();
        assert_eq!(held.1.height, 1);
    }
    assert_eq!(listed(&chain, &start), [hash(&second)]);
    assert_eq!(tip(&chain), (1, hash(&second)));
}

#[test]
fn known_headers_are_accepted_again_and_change_nothing() {
    let mut chain = HeadersChain::new(Network::Regtest, None, None);
    let start = chain.tip().1;
    let mut headers = run_of(start, 3);
    headers.push(mined(hash(&headers[0]), 9));
    let first = chain.process_headers(headers.clone()).unwrap();
    let (before, before_tip) = (entries(&chain), tip(&chain));
    let second = chain.process_headers(headers).unwrap();
    assert_eq!(format!("{:?}", first), format!("{:?}", second));
    assert_eq!(entries(&chain), before);
    assert_eq!(tip(&chain), before_tip);
}

#[test]
fn a_run_that_is_announced_again_is_listed_in_place_of_what_was_there() {
    let mut chain = HeadersChain::new(Network::Regtest, None, None);
    let start = chain.tip().1;
    let headers = run_of(start, 4);
    let hashes: Vec<BlockHash> = headers.iter().map(hash).collect();
    chain.process_headers(headers.clone()).unwrap();
    let fork = mined(start, 9);
    chain.process_headers(vec![fork]).unwrap();
    assert_eq!(listed(&chain, &start), [hash(&fork)]);
    chain.process_headers(headers[..2].to_vec()).unwrap();
    assert_eq!(listed(&chain, &start), hashes[..2]);
    assert_eq!(tip(&chain), (2, hashes[1]));
}

#[test]
fn no_header_is_dropped_and_a_reopened_chain_is_found_again() {
    let mut table = numbered_chain(3).save_headers_chain().records;
    let tip_saved = numbered_chain(3).tip();
    let genesis = linked_to([0; 32]);
    let mut chain =
        HeadersChain::with_genesis(genesis, numbered(0), Some(tip_saved), Some(table.clone()));
    chain.add_header(&linked_to(numbered(1)), numbered(20));
    assert!(chain.process_headers(vec![unworked(numbered(20))]).is_err());
    let saved = chain.save_headers_chain();
    assert_eq!(saved.records.len(), 5);
    table.extend(saved.records);
    let again = HeadersChain::with_genesis(genesis, numbered(0), Some(saved.tip), Some(table));
    assert_eq!(entries(&again), entries(&chain));
    assert_eq!(tip(&again), (2, numbered(20)));
}

#[test]
fn every_parent_but_that_of_the_genesis_block_is_held() {
    let mut chain = HeadersChain::new(Network::Regtest, None, None);
    let start = chain.tip().1;
    chain.process_headers(run_of(start, 3)).unwrap();
    chain.process_headers(vec![mined(start, 9)]).unwrap();
    let records = chain.save_headers_chain().records;
    for (key, header) in &records {
        assert!(!matches!(header.next_block, Some(NextBlock::Tip(_))));
        let held = records.iter().any(|(other, _)| *other == header.previous_block);
        assert_eq!(held, *key != start);
    }
}

/// The number of 32 bytes that compact bits stand for, least significant byte first.
fn target_bytes(bits: u32) -> [u8; 32] {
    let (size, digits) = ((bits >> 24) as usize, bits & 0xff_ffff);
    let mut bytes = [0; 32];
    if size <= 3 {
        let number = if size == 0 { 0 } else { digits / 256u32.pow(3 - size as u32) };
        if number <= 0x7f_ffff {
            bytes[..4].copy_from_slice(&number.to_le_bytes());
        }
    } else if digits <= 0x7f_ffff {
        for (i, byte) in digits.to_le_bytes()[..3].iter().enumerate() {
            let place = (size - 3) % 32 + i;
            if place < 32 {
                bytes[place] = *byte;
            }
        }
    }
    bytes
}

#[test]
fn compact_bits_stand_for_the_target_of_the_bitcoin_crate() {
    for size in 0..=255u32 {
        for digits in [0, 1, 0xff, 0x1234, 0x12_3456, 0x7f_ffff, 0x80_0000, 0xff_ffff] {
            let bits = size << 24 | digits;
            let compact = bitcoin::CompactTarget::from_consensus(bits);
            let target = bitcoin::Target::from_compact(compact);
            assert_eq!(target.to_le_bytes(), target_bytes(bits), "bits {:x}", bits);
        }
    }
}

#[test]
fn a_block_that_is_its_own_parent_stays_below_the_tip() {
    let mut chain = numbered_chain(1);
    chain.add_header(&linked_to(numbered(1)), numbered(1));
    assert_eq!(tip(&chain), (2, numbered(1)));
    let saved = chain.save_headers_chain();
    let own = saved.records.iter().find(|(key, _)| *key == numbered(1)).unwrap();
    assert_eq!(own.1.height, 1);
    assert_eq!(listed(&chain, &numbered(1)).len(), BATCH);
}

#[test]
fn blocks_are_listed_in_batches() {
    let chain = numbered_chain(1203);
    let first = listed(&chain, &numbered(0));
    assert_eq!(BATCH, 500);
    assert_eq!(first.len(), 500);
    assert_eq!(first[0], numbered(1));
    assert_eq!(first[499], numbered(500));
    let second = listed(&chain, &numbered(500));
    assert_eq!(second.len(), 500);
    assert_eq!(second[0], numbered(501));
    assert_eq!(second[499], numbered(1000));
    let third = listed(&chain, &numbered(1000));
    assert_eq!(third.len(), 203);
    assert_eq!(third[202], numbered(1203));
    assert!(listed(&chain, &numbered(1203)).is_empty());
}

#[test]
fn blocks_after_an_unknown_block_are_not_listed() {
    let chain = numbered_chain(2);
    assert!(chain.can_walk(&numbered(9)));
    assert_eq!(
        chain.get_block_inventory(&numbered(9)).unwrap_err(),
        HeaderChainError::ValidationError(HeaderValidationError::PrevBlockNotFound),
    );
}

#[test]
fn a_link_to_a_missing_block_cannot_be_followed() {
    let mut header = BlockHeader::with_hash(linked_to([0; 32]), numbered(1), 1);
    header.next_block = Some(NextBlock::Chain(numbered(2)));
    let records = vec![(numbered(1), header)];
    let chain =
        HeadersChain::with_genesis(linked_to([0; 32]), numbered(0), None, Some(records));
    assert!(!chain.can_walk(&numbered(1)));
    assert!(chain.can_walk(&numbered(0)));
}

#[test]
fn forks_at_the_tip_end_the_list() {
    let mut header = BlockHeader::with_hash(linked_to([0; 32]), numbered(1), 1);
    header.next_block = Some(NextBlock::Tip(vec![numbered(2), numbered(3)]));
    let records = vec![(numbered(1), header)];
    let chain =
        HeadersChain::with_genesis(linked_to([0; 32]), numbered(0), None, Some(records));
    assert!(listed(&chain, &numbered(1)).is_empty());
}

#[test]
fn a_saved_chain_is_found_again() {
    let chain = numbered_chain(620);
    let mut saved = chain.save_headers_chain();
    assert_eq!(saved.records.len(), 621);
    assert_eq!((saved.tip.0, saved.tip.1), (620, numbered(620)));
    saved.records.sort_by_key(|(key, _)| *key);
    let again = HeadersChain::new(Network::Regtest, Some(saved.tip), Some(saved.records));
    assert_eq!(tip(&again), tip(&chain));
    assert_eq!(listed(&again, &numbered(0)), listed(&chain, &numbered(0)));
    assert_eq!(listed(&again, &numbered(500)), listed(&chain, &numbered(500)));
    let header = linked_to(numbered(620));
    let mut again = again;
    assert_eq!(again.add_header(&header, numbered(621)).height, 621);
}

#[test]
fn headers_are_saved_under_their_hashes() {
    let mut chain = HeadersChain::new(Network::Regtest, None, None);
    let headers = run_of(chain.tip().1, 3);
    let stored = chain.process_headers(headers.clone()).unwrap();
    let saved = chain.save_headers(stored);
    assert_eq!((saved.tip.0, saved.tip.1), (3, hash(&headers[2])));
    assert_eq!(saved.records.len(), 3);
    for (i, (key, header)) in saved.records.iter().enumerate() {
        assert_eq!(*key, hash(&headers[i]));
        assert_eq!(header.block_hash, hash(&headers[i]));
        assert_eq!(header.height, i as i32 + 1);
    }
}

#[test]
fn headers_that_are_saved_as_they_come_in_are_found_again() {
    let mut chain = HeadersChain::new(Network::Regtest, None, None);
    let start = chain.tip().1;
    let headers = run_of(start, 4);
    let hashes: Vec<BlockHash> = headers.iter().map(hash).collect();
    chain.process_headers(headers[..2].to_vec()).unwrap();
    let mut table = chain.save_headers_chain().records;
    let stored = chain.process_headers(headers[2..].to_vec()).unwrap();
    let saved = chain.save_headers(stored);
    table.extend(saved.records);

    let again = HeadersChain::new(Network::Regtest, Some(saved.tip), Some(table));
    assert_eq!(tip(&again), (4, hashes[3]));
    let found = again.save_headers_chain().records;
    let held = chain.save_headers_chain().records;
    assert_eq!(found.len(), held.len());
    for (key, header) in &held {
        let (_, same) = found.iter().find(|(other, _)| other == key).unwrap();
        assert_eq!(fields(same), fields(header));
    }
    // the links of the headers that were saved before are as they were
    assert_eq!(listed(&again, &start), hashes[..2]);
    assert_eq!(listed(&chain, &start), hashes);
}

#[test]
fn a_missing_tip_is_the_genesis_block_and_a_missing_table_holds_it() {
    let saved = numbered_chain(2).save_headers_chain();
    let chain = HeadersChain::new(Network::Regtest, None, Some(saved.records));
    assert_eq!(tip(&chain), (0, hash(&genesis(bitcoin::Network::Regtest))));
    assert_eq!(listed(&chain, &numbered(0)), [numbered(1), numbered(2)]);
    let chain = HeadersChain::new(Network::Regtest, Some(BlockIndex(8, numbered(8))), None);
    assert_eq!(tip(&chain), (8, numbered(8)));
    assert!(listed(&chain, &hash(&genesis(bitcoin::Network::Regtest))).is_empty());
}

#[test]
fn the_last_record_of_a_hash_counts() {
    let first = BlockHeader::with_hash(linked_to([0; 32]), numbered(1), 1);
    let second = BlockHeader::with_hash(linked_to([0; 32]), numbered(1), 2);
    let records = vec![(numbered(1), first), (numbered(1), second)];
    let chain = HeadersChain::with_genesis(linked_to([0; 32]), numbered(0), None, Some(records));
    let saved = chain.save_headers_chain();
    assert_eq!(saved.records.len(), 1);
    assert_eq!(saved.records[0].1.height, 2);
}

#[test]
fn hashes_that_start_alike_are_kept_apart() {
    let (mut left, mut right) = ([1; 32], [1; 32]);
    left[31] = 2;
    right[31] = 3;
    let mut chain = numbered_chain(0);
    chain.add_header(&linked_to(numbered(0)), left);
    chain.add_header(&linked_to(left), right);
    assert_eq!(listed(&chain, &numbered(0)), [left, right]);
    assert_eq!(tip(&chain), (2, right));
}

#[test]
fn a_header_above_the_highest_height_is_seen_coming() {
    let start = [4; 32];
    let high = BlockHeader::with_hash(linked_to([0; 32]), start, i32::MAX);
    let low = BlockHeader::with_hash(linked_to([0; 32]), [5; 32], i32::MAX - 1);
    let records = vec![(start, high), ([5; 32], low)];
    let chain = HeadersChain::with_genesis(linked_to([0; 32]), numbered(0), None, Some(records));
    assert_eq!(chain.prospect(&run_of(start, 1)), Prospect::TooHigh);
    assert_eq!(chain.prospect(&vec![unworked(start)]), Prospect::Refused);
    assert_eq!(chain.prospect(&run_of([5; 32], 1)), Prospect::Accepted);
    assert_eq!(chain.prospect(&run_of([5; 32], 2)), Prospect::TooHigh);
}
