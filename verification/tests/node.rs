use bitcoin::hashes::Hash as HashBytes;
use bitcoin_node::error::{
    BitcoinValidationError, HeaderChainError, HeaderValidationError, NodeError,
};
use bitcoin_node::header::{BlockHash, BlockHeader, BlockIndex, Header, NextBlock};
use bitcoin_node::header_chain::HeadersChain;
use bitcoin_node::message::{Inventory, NetworkMessage, PeerMessage, RawNetworkMessage};
use bitcoin_node::network::{BitcoinNetwork, Network};
use bitcoin_node::node::{Action, HeaderSyncState, IBDState, Node, SyncState, MAX_INVENTORY};
use bitcoin_node::p2p::Peer;

const REGTEST: [u8; 4] = [0xfa, 0xbf, 0xb5, 0xda];

fn outside(header: &Header) -> bitcoin::block::Header {
    bitcoin::block::Header {
        version: bitcoin::block::Version::from_consensus(header.version),
        prev_blockhash: bitcoin::BlockHash::from_byte_array(header.prev_blockhash),
        merkle_root: bitcoin::TxMerkleNode::from_byte_array(header.merkle_root),
        time: header.time,
        bits: bitcoin::CompactTarget::from_consensus(header.bits),
        nonce: header.nonce,
    }
}

fn hash(header: &Header) -> BlockHash {
    outside(header).block_hash().to_byte_array()
}

fn works(header: &Header) -> bool {
    let header = outside(header);
    header.validate_pow(header.target()).is_ok()
}

fn mined(prev_blockhash: BlockHash, time: u32) -> Header {
    let bits = 0x207fffff;
    let mut header =
        Header { version: 4, prev_blockhash, merkle_root: [7; 32], time, bits, nonce: 0 };
    while !works(&header) {
        header.nonce += 1;
    }
    header
}

fn run_of(start: BlockHash, count: u32) -> Vec<Header> {
    let mut headers = Vec::new();
    let mut parent = start;
    for i in 0..count {
        let header = mined(parent, 1_700_000_000 + i);
        parent = hash(&header);
        headers.push(header);
    }
    headers
}

fn numbered(number: u32) -> BlockHash {
    let mut bytes = [0xee; 32];
    bytes[..4].copy_from_slice(&number.to_le_bytes());
    bytes
}

fn linked_to(parent: BlockHash) -> Header {
    Header { version: 1, prev_blockhash: parent, merkle_root: [0; 32], time: 1, bits: 2, nonce: 3 }
}

fn numbered_chain(count: u32) -> HeadersChain {
    let mut chain = HeadersChain::with_genesis(linked_to([0; 32]), numbered(0), None, None);
    for number in 1..=count {
        chain.add_header(&linked_to(numbered(number - 1)), numbered(number));
    }
    chain
}

fn fresh_node() -> Node {
    let chain = HeadersChain::new(Network::Regtest, None, None);
    let genesis = chain.tip();
    Node::new(BitcoinNetwork::Regtest, chain, genesis, genesis)
}

/// A node on the regression test network.
fn node_with(chain: HeadersChain, chain_tip: BlockIndex) -> Node {
    Node::new(BitcoinNetwork::Regtest, chain, chain_tip, BlockIndex(0, numbered(0)))
}

fn some_peer() -> Peer {
    Peer::new(BlockIndex(7, [7; 32]), Network::Regtest)
}

/// The height that the node tells a peer.
fn told(peer: &Peer) -> i32 {
    match peer.open_handshake([0; 8], 0, 0).unwrap().payload() {
        NetworkMessage::Version(version) => version.start_height,
        _ => panic!("a handshake opens with a version message"),
    }
}

fn processed(
    node: &mut Node,
    valid: bool,
    new: bool,
    tip: BlockIndex,
) -> Result<Option<RawNetworkMessage>, NodeError> {
    node.block_processed(valid, new, tip, &mut some_peer())
}

fn announced(node: &Node) -> i32 {
    told(&node.peer_manager().run().unwrap().1)
}

fn genesis() -> BlockIndex {
    HeadersChain::new(Network::Regtest, None, None).tip()
}

fn asked_headers(message: &RawNetworkMessage) -> Vec<BlockHash> {
    assert_eq!(message.magic(), REGTEST);
    match message.payload() {
        NetworkMessage::GetHeaders(request) => {
            assert_eq!(request.version, 70001);
            assert_eq!(request.stop_hash, [0; 32]);
            request.locator_hashes.clone()
        }
        _ => panic!("headers are asked for"),
    }
}

fn asked_blocks(message: &RawNetworkMessage) -> Vec<BlockHash> {
    assert_eq!(message.magic(), REGTEST);
    match message.payload() {
        NetworkMessage::GetData(items) => {
            items.iter().map(|Inventory::WitnessBlock(hash)| *hash).collect()
        }
        _ => panic!("blocks are asked for"),
    }
}

fn header_sync(node: &Node) -> (i32, i32) {
    match node.sync_state() {
        SyncState::IBD(IBDState::HeaderSync(progress)) => {
            (progress.target_height, progress.current_sync_height)
        }
        _ => panic!("the node synchronises headers"),
    }
}

fn block_sync(node: &Node) -> (i32, BlockHash) {
    match node.sync_state() {
        SyncState::IBD(IBDState::BlockSync(block)) => (block.0, block.1),
        _ => panic!("the node synchronises blocks"),
    }
}

fn in_sync(node: &Node) -> (i32, BlockHash) {
    match node.sync_state() {
        SyncState::InSync(block) => (block.0, block.1),
        _ => panic!("the node has caught up"),
    }
}

fn taken(node: &mut Node, message: PeerMessage) -> Result<Action, NodeError> {
    node.take_message(message).unwrap()
}

#[test]
fn header_synchronisation_starts_from_nothing() {
    let state = HeaderSyncState::default();
    assert_eq!((state.target_height, state.current_sync_height), (0, 0));
}

#[test]
fn a_node_without_headers_starts_with_them() {
    let node = fresh_node();
    assert_eq!(header_sync(&node), (0, 0));
    assert_eq!(node.network(), Network::Regtest);
    assert_eq!(announced(&node), 0);
    let chain = HeadersChain::new(Network::Regtest, None, None);
    let tip = chain.tip();
    let node = Node::new(BitcoinNetwork::Regtest, chain, tip, BlockIndex(8, [8; 32]));
    assert_eq!(announced(&node), 8);
}

#[test]
fn a_node_with_more_headers_than_blocks_goes_on_with_the_blocks() {
    let node = node_with(numbered_chain(3), BlockIndex(2, numbered(2)));
    assert_eq!(block_sync(&node), (3, numbered(3)));
    assert_eq!(announced(&node), 3);
}

#[test]
fn a_node_with_all_blocks_has_caught_up() {
    let node = node_with(numbered_chain(3), BlockIndex(3, numbered(33)));
    assert_eq!(in_sync(&node), (3, numbered(33)));
    assert_eq!(announced(&node), 3);
}

#[test]
fn a_node_that_starts_again_keeps_its_headers() {
    let saved = numbered_chain(3).save_headers_chain();
    let chain = HeadersChain::new(Network::Regtest, Some(saved.tip), Some(saved.records));
    let node = node_with(chain, BlockIndex(0, numbered(0)));
    assert_eq!(block_sync(&node), (3, numbered(3)));
    assert_eq!(node.headers_chain().tip().0, 3);
}

#[test]
fn header_synchronisation_begins_at_the_tip_and_aims_at_the_height_of_the_peer() {
    let mut node = fresh_node();
    let message = node.run(&PeerMessage::Version { start_height: 12 }).unwrap();
    assert_eq!(asked_headers(&message), [genesis().1]);
    assert_eq!(header_sync(&node), (12, 0));
}

#[test]
fn a_first_message_without_a_height_aims_at_nothing() {
    let mut node = fresh_node();
    let message = node.run(&PeerMessage::Inv).unwrap();
    assert_eq!(asked_headers(&message), [genesis().1]);
    assert_eq!(header_sync(&node), (0, 0));
}

#[test]
fn block_synchronisation_begins_with_the_blocks_after_the_last_one() {
    let mut node = node_with(numbered_chain(3), BlockIndex(1, numbered(1)));
    assert!(node.headers_chain().can_walk(&numbered(3)));
    let message = node.run(&PeerMessage::Version { start_height: 12 }).unwrap();
    assert!(asked_blocks(&message).is_empty());
    assert_eq!(block_sync(&node), (3, numbered(3)));
}

#[test]
fn block_synchronisation_from_an_unknown_block_fails() {
    let tip = Some(BlockIndex(9, numbered(9)));
    let chain = HeadersChain::with_genesis(linked_to([0; 32]), numbered(0), tip, None);
    let mut node = node_with(chain, BlockIndex(0, numbered(0)));
    assert!(node.headers_chain().can_walk(&numbered(9)));
    assert!(matches!(
        node.run(&PeerMessage::Version { start_height: 12 }),
        Err(NodeError::HeaderChainError(HeaderChainError::ValidationError(
            HeaderValidationError::PrevBlockNotFound,
        ))),
    ));
}

#[test]
fn a_node_that_has_caught_up_asks_for_what_is_new() {
    let mut node = node_with(numbered_chain(3), BlockIndex(5, numbered(55)));
    let message = node.run(&PeerMessage::Version { start_height: 12 }).unwrap();
    assert_eq!(asked_headers(&message), [numbered(55)]);
    assert_eq!(in_sync(&node), (5, numbered(55)));
}

#[test]
fn a_request_for_headers_takes_any_locator() {
    let node = fresh_node();
    let message = node.build_get_headers_msg(vec![[1; 32], [2; 32]]).unwrap();
    assert_eq!(asked_headers(&message), [[1; 32], [2; 32]]);
}

#[test]
fn the_initial_download_goes_from_headers_to_blocks() {
    let mut node = fresh_node();
    node.run(&PeerMessage::Version { start_height: 5 }).unwrap();
    let headers = run_of(genesis().1, 5);
    let hashes: Vec<BlockHash> = headers.iter().map(hash).collect();

    match taken(&mut node, PeerMessage::Headers(headers[..3].to_vec())) {
        Ok(Action::Send(message)) => assert_eq!(asked_headers(&message), [hashes[2]]),
        _ => panic!("more headers are asked for"),
    }
    assert_eq!(header_sync(&node), (5, 3));

    let done = taken(&mut node, PeerMessage::Headers(headers[3..].to_vec()));
    assert!(matches!(done, Ok(Action::SaveChain)));
    assert_eq!(node.headers_chain().save_headers_chain().records.len(), 6);

    assert!(node.headers_chain().can_walk(&genesis().1));
    let message = node.chain_saved(genesis()).unwrap();
    assert_eq!(asked_blocks(&message), hashes);
    assert_eq!(block_sync(&node), (0, genesis().1));
}

#[test]
fn headers_after_the_download_are_saved_and_their_blocks_asked_for() {
    let mut node = fresh_node();
    node.run(&PeerMessage::Version { start_height: 0 }).unwrap();
    assert!(matches!(taken(&mut node, PeerMessage::Headers(vec![])), Ok(Action::SaveChain)));
    node.chain_saved(genesis()).unwrap();

    let headers = run_of(genesis().1, 2);
    let hashes: Vec<BlockHash> = headers.iter().map(hash).collect();
    match taken(&mut node, PeerMessage::Headers(headers)) {
        Ok(Action::SaveHeaders { headers, inventory }) => {
            let stored: Vec<(i32, BlockHash)> =
                headers.iter().map(|header| (header.height, header.block_hash)).collect();
            assert_eq!(stored, [(1, hashes[0]), (2, hashes[1])]);
            assert!(inventory.len() <= MAX_INVENTORY);
            let message = node.headers_saved(inventory).unwrap();
            assert_eq!(asked_blocks(&message), hashes);
        }
        _ => panic!("the headers are saved"),
    }
    assert_eq!(block_sync(&node), (0, genesis().1));
    assert_eq!(node.headers_chain().tip().0, 2);
}

#[test]
fn refused_headers_are_an_error_and_leave_the_progress_as_it_was() {
    let mut node = fresh_node();
    node.run(&PeerMessage::Version { start_height: 5 }).unwrap();
    let mut headers = run_of(genesis().1, 2);
    while works(&headers[1]) {
        headers[1].nonce += 1;
    }
    assert!(matches!(
        taken(&mut node, PeerMessage::Headers(headers)),
        Err(NodeError::HeaderChainError(HeaderChainError::ValidationError(
            HeaderValidationError::BitcoinValidationError(BitcoinValidationError::BadProofOfWork),
        ))),
    ));
    assert_eq!(header_sync(&node), (5, 0));
    assert_eq!(node.headers_chain().tip().0, 1);
}

#[test]
fn a_block_is_handed_to_the_validation_engine() {
    let mut node = fresh_node();
    match taken(&mut node, PeerMessage::Block(vec![1, 2, 3])) {
        Ok(Action::ProcessBlock(bytes)) => assert_eq!(bytes, [1, 2, 3]),
        _ => panic!("the block is handed on"),
    }
}

#[test]
fn an_announcement_is_answered_with_a_request_for_headers() {
    let mut node = node_with(numbered_chain(3), BlockIndex(3, numbered(3)));
    match taken(&mut node, PeerMessage::Inv) {
        Ok(Action::Send(message)) => assert_eq!(asked_headers(&message), [numbered(3)]),
        _ => panic!("headers are asked for"),
    }
}

#[test]
fn other_messages_are_not_acted_on() {
    let mut node = fresh_node();
    for message in [
        PeerMessage::Other,
        PeerMessage::Verack,
        PeerMessage::Version { start_height: 3 },
    ] {
        assert!(matches!(taken(&mut node, message), Ok(Action::Idle)));
        assert_eq!(header_sync(&node), (0, 0));
    }
}

fn downloading(count: u32) -> Node {
    let mut node = node_with(numbered_chain(count), BlockIndex(0, numbered(0)));
    node.chain_saved(BlockIndex(0, numbered(0))).unwrap();
    node
}

#[test]
fn the_next_batch_is_asked_for_when_one_is_complete() {
    let mut node = downloading(1203);
    for height in 1..500 {
        let asked = processed(&mut node, true, true, BlockIndex(height, numbered(height as u32)));
        assert!(matches!(asked, Ok(None)));
    }
    assert_eq!(block_sync(&node), (0, numbered(0)));
    let asked = processed(&mut node, true, true, BlockIndex(500, numbered(500))).unwrap().unwrap();
    let blocks = asked_blocks(&asked);
    assert_eq!(blocks.len(), 500);
    assert_eq!(blocks[0], numbered(501));
    assert_eq!(blocks[499], numbered(1000));
    assert_eq!(in_sync(&node), (500, numbered(500)));

    let asked = processed(&mut node, true, true, BlockIndex(999, numbered(999)));
    assert!(matches!(asked, Ok(None)));
    let asked = processed(&mut node, true, true, BlockIndex(1000, numbered(1000)));
    assert_eq!(asked_blocks(&asked.unwrap().unwrap()).len(), 203);
    assert_eq!(in_sync(&node), (1000, numbered(1000)));
}

#[test]
fn blocks_that_are_invalid_or_known_complete_no_batch() {
    let mut node = downloading(600);
    for (valid, new) in [(false, true), (true, false), (false, false)] {
        let asked = processed(&mut node, valid, new, BlockIndex(500, numbered(500)));
        assert!(matches!(asked, Ok(None)));
        assert_eq!(block_sync(&node), (0, numbered(0)));
    }
}

#[test]
fn peers_are_told_of_the_last_valid_new_block() {
    let mut node = downloading(600);
    let mut peer = some_peer();
    assert_eq!((announced(&node), told(&peer)), (600, 7));
    for (valid, new) in [(false, true), (true, false), (false, false)] {
        node.block_processed(valid, new, BlockIndex(4, numbered(4)), &mut peer).unwrap();
        assert_eq!((announced(&node), told(&peer)), (600, 7));
    }
    node.block_processed(true, true, BlockIndex(5, numbered(5)), &mut peer).unwrap();
    assert_eq!((announced(&node), told(&peer)), (5, 5));
    node.block_processed(true, true, BlockIndex(500, numbered(500)), &mut peer).unwrap();
    assert_eq!((announced(&node), told(&peer)), (500, 500));
    let unknown = BlockIndex(1000, [1; 32]);
    assert!(node.block_processed(true, true, unknown, &mut peer).is_err());
    assert_eq!((announced(&node), told(&peer)), (1000, 1000));
}

#[test]
fn a_batch_that_ends_with_an_unknown_block_is_an_error() {
    let mut node = downloading(3);
    assert!(matches!(
        processed(&mut node, true, true, BlockIndex(500, numbered(500))),
        Err(NodeError::HeaderChainError(HeaderChainError::ValidationError(
            HeaderValidationError::PrevBlockNotFound,
        ))),
    ));
    assert_eq!(in_sync(&node), (500, numbered(500)));
}

#[test]
fn blocks_during_the_header_synchronisation_count_from_the_genesis_block() {
    let mut node = fresh_node();
    let asked = processed(&mut node, true, true, BlockIndex(499, genesis().1));
    assert!(matches!(asked, Ok(None)));
    assert_eq!(header_sync(&node), (0, 0));
    let asked = processed(&mut node, true, true, BlockIndex(500, genesis().1)).unwrap();
    assert!(asked_blocks(&asked.unwrap()).is_empty());
    assert_eq!(in_sync(&node), (500, genesis().1));
}

#[test]
fn a_block_is_admitted_where_the_next_batch_can_be_listed() {
    let node = downloading(3);
    assert!(node.admits_block(true, true, &BlockIndex(500, numbered(2))));
    assert!(node.admits_block(true, true, &BlockIndex(500, numbered(9))));

    let mut header = BlockHeader::with_hash(linked_to([0; 32]), numbered(1), 1);
    header.next_block = Some(NextBlock::Chain(numbered(2)));
    let tip = Some(BlockIndex(1, numbered(1)));
    let records = Some(vec![(numbered(1), header)]);
    let chain = HeadersChain::with_genesis(linked_to([0; 32]), numbered(0), tip, records);
    let node = node_with(chain, BlockIndex(1, numbered(1)));
    assert!(node.admits_block(true, true, &BlockIndex(500, numbered(1))));
    assert!(!node.admits_block(true, true, &BlockIndex(501, numbered(1))));
    assert!(node.admits_block(false, true, &BlockIndex(501, numbered(1))));
    assert!(node.admits_block(true, false, &BlockIndex(501, numbered(1))));

    let high = BlockIndex(i32::MAX - 498, numbered(3));
    let node = node_with(numbered_chain(3), high);
    assert!(!node.admits_block(true, true, &high));
    assert!(node.admits_block(false, true, &high));
}

#[test]
fn messages_beyond_the_highest_height_are_not_taken() {
    let start = [4; 32];
    let mut high = BlockHeader::with_hash(linked_to([0; 32]), start, i32::MAX);
    high.next_block = Some(NextBlock::Tip(vec![]));
    let tip = Some(BlockIndex(i32::MAX, start));
    let chain =
        HeadersChain::with_genesis(linked_to([0; 32]), numbered(0), tip, Some(vec![(start, high)]));
    let mut node = node_with(chain, BlockIndex(0, numbered(0)));
    let message = PeerMessage::Headers(run_of(start, 1));
    assert!(!node.admits(&message));
    assert!(node.take_message(message).is_none());
    assert_eq!(node.headers_chain().tip().1, start);
    assert!(node.admits(&PeerMessage::Headers(run_of([5; 32], 1))));
    assert!(node.admits(&PeerMessage::Inv));
}

#[test]
fn the_longest_request_for_blocks_still_has_a_length() {
    assert_eq!(5 + 36 * MAX_INVENTORY as u64, u32::MAX as u64 - 34);
    assert!(5 + 36 * (MAX_INVENTORY as u64 + 1) > u32::MAX as u64);
}
