use bitcoin::hashes::Hash as HashBytes;
use bitcoin::p2p::message::{NetworkMessage as Payload, RawNetworkMessage as Framed};
use bitcoin_node::error::NodeError;
use bitcoin_node::header::{BlockHash, BlockIndex, Header};
use bitcoin_node::message::{
    GetHeadersMessage, Inventory, NetworkMessage, PeerMessage, RawNetworkMessage, VersionMessage,
    PROTOCOL_VERSION,
};
use bitcoin_node::network::Network;
use bitcoin_node::p2p::{
    build_raw_network_msg, build_version_msg, get_nodes, payload_length, read_network_msg,
    NodeSource, Peer, PeerManager,
};

const REGTEST: [u8; 4] = [0xfa, 0xbf, 0xb5, 0xda];

fn framed(payload: Payload) -> Vec<u8> {
    bitcoin::consensus::serialize(&Framed::new(bitcoin::p2p::Magic::REGTEST, payload))
}

fn split(bytes: &[u8]) -> ([u8; 24], Vec<u8>) {
    let mut header = [0; 24];
    header.copy_from_slice(&bytes[..24]);
    (header, bytes[24..].to_vec())
}

fn read(bytes: &[u8]) -> Result<PeerMessage, NodeError> {
    let (header, payload) = split(bytes);
    let length = payload_length(&header)?;
    assert_eq!(length as usize, payload.len());
    read_network_msg(&header, &payload)
}

fn sent(payload: NetworkMessage) -> Vec<u8> {
    build_raw_network_msg(Network::Regtest, payload).unwrap().serialize()
}

fn mapped(ip: [u8; 4]) -> [u16; 8] {
    let high = u16::from_be_bytes([ip[0], ip[1]]);
    let low = u16::from_be_bytes([ip[2], ip[3]]);
    [0, 0, 0, 0, 0, 0xffff, high, low]
}

fn outside_version(ip: [u8; 4], port: u16, time: i64, height: i32) -> Payload {
    let none = bitcoin::p2p::ServiceFlags::NONE;
    let address = bitcoin::p2p::Address { services: none, address: mapped(ip), port };
    let nowhere =
        bitcoin::p2p::Address { services: none, address: mapped([0, 0, 0, 0]), port: 0 };
    Payload::Version(bitcoin::p2p::message_network::VersionMessage::new(
        none,
        time,
        address,
        nowhere,
        0,
        "bitcoin-node".to_string(),
        height,
    ))
}

fn outside_block() -> bitcoin::Block {
    bitcoin::constants::genesis_block(bitcoin::Network::Regtest)
}

fn outside_header() -> bitcoin::block::Header {
    outside_block().header
}

#[test]
fn messages_carry_the_magic_of_their_network() {
    let networks = [
        (Network::Bitcoin, [0xf9, 0xbe, 0xb4, 0xd9], bitcoin::p2p::Magic::BITCOIN),
        (Network::Testnet4, [0x1c, 0x16, 0x3f, 0x28], bitcoin::p2p::Magic::TESTNET4),
        (Network::Signet, [0x0a, 0x03, 0xcf, 0x40], bitcoin::p2p::Magic::SIGNET),
        (Network::Regtest, REGTEST, bitcoin::p2p::Magic::REGTEST),
    ];
    for (network, magic, outside) in networks {
        let message = build_raw_network_msg(network, NetworkMessage::Verack).unwrap();
        assert_eq!(message.magic(), magic);
        assert_eq!(outside.to_bytes(), magic);
        assert!(matches!(message.payload(), NetworkMessage::Verack));
        assert_eq!(message.serialize()[..4], magic);
    }
}

#[test]
fn messages_to_an_unsupported_network_are_refused() {
    let refused = build_raw_network_msg(Network::Testnet, NetworkMessage::Verack);
    assert!(matches!(refused, Err(NodeError::NetworkNotSupported)));
}

#[test]
fn a_verack_is_a_frame_without_payload() {
    let expected = [
        0xfa, 0xbf, 0xb5, 0xda, b'v', b'e', b'r', b'a', b'c', b'k', 0, 0, 0, 0, 0, 0, 0, 0, 0, 0,
        0x5d, 0xf6, 0xe0, 0xe2,
    ];
    assert_eq!(sent(NetworkMessage::Verack), expected);
    assert_eq!(framed(Payload::Verack), expected);
}

#[test]
fn a_version_message_says_who_and_where_the_node_is() {
    let message = build_version_msg(mapped([10, 1, 2, 3]), 18444, 1_700_000_000, 42);
    assert_eq!(message.version, 70001);
    assert_eq!(PROTOCOL_VERSION, bitcoin::p2p::PROTOCOL_VERSION);
    assert_eq!(message.services, 0);
    assert_eq!(message.timestamp, 1_700_000_000);
    assert_eq!(message.receiver.services, 0);
    assert_eq!(message.receiver.address, mapped([10, 1, 2, 3]));
    assert_eq!(message.receiver.port, 18444);
    assert_eq!(message.sender.services, 0);
    assert_eq!(message.sender.address, [0, 0, 0, 0, 0, 0xffff, 0, 0]);
    assert_eq!(message.sender.port, 0);
    assert_eq!(message.nonce, 0);
    assert_eq!(message.user_agent, "bitcoin-node");
    assert_eq!(message.start_height, 42);
    assert!(!message.relay);
}

#[test]
fn a_version_message_is_written_field_by_field() {
    let message = build_version_msg(mapped([10, 1, 2, 3]), 18444, 1_700_000_000, 42);
    let bytes = sent(NetworkMessage::Version(message));
    assert_eq!(bytes, framed(outside_version([10, 1, 2, 3], 18444, 1_700_000_000, 42)));
    assert_eq!(bytes.len(), 24 + 98);
    assert_eq!(bytes[4..16], *b"version\0\0\0\0\0");
    assert_eq!(bytes[16..20], 98u32.to_le_bytes());
    let payload = &bytes[24..];
    assert_eq!(payload[..4], 70001u32.to_le_bytes());
    assert_eq!(payload[4..12], [0; 8]);
    assert_eq!(payload[12..20], 1_700_000_000i64.to_le_bytes());
    assert_eq!(payload[20..28], [0; 8]);
    assert_eq!(payload[28..44], [0, 0, 0, 0, 0, 0, 0, 0, 0, 0, 0xff, 0xff, 10, 1, 2, 3]);
    assert_eq!(payload[44..46], 18444u16.to_be_bytes());
    assert_eq!(payload[46..54], [0; 8]);
    assert_eq!(payload[54..72], [0, 0, 0, 0, 0, 0, 0, 0, 0, 0, 0xff, 0xff, 0, 0, 0, 0, 0, 0]);
    assert_eq!(payload[72..80], [0; 8]);
    assert_eq!(payload[80], 12);
    assert_eq!(payload[81..93], *b"bitcoin-node");
    assert_eq!(payload[93..97], 42i32.to_le_bytes());
    assert_eq!(payload[97], 0);
}

#[test]
fn all_fields_of_a_version_message_are_written() {
    let mut message: VersionMessage = build_version_msg(mapped([1, 2, 3, 4]), 5, -6, -7);
    message.version = 8;
    message.services = 9;
    message.nonce = 10;
    message.relay = true;
    message.receiver.services = 11;
    let bytes = sent(NetworkMessage::Version(message));
    let payload = &bytes[24..];
    assert_eq!(payload[..4], [8, 0, 0, 0]);
    assert_eq!(payload[4..12], [9, 0, 0, 0, 0, 0, 0, 0]);
    assert_eq!(payload[12..20], [0xfa, 0xff, 0xff, 0xff, 0xff, 0xff, 0xff, 0xff]);
    assert_eq!(payload[20..28], [11, 0, 0, 0, 0, 0, 0, 0]);
    assert_eq!(payload[72..80], [10, 0, 0, 0, 0, 0, 0, 0]);
    assert_eq!(payload[93..97], [0xf9, 0xff, 0xff, 0xff]);
    assert_eq!(payload[97], 1);
    assert!(matches!(read(&bytes), Ok(PeerMessage::Version { start_height: -7 })));
}

#[test]
fn a_request_for_headers_lists_its_locator_hashes() {
    let locator: Vec<BlockHash> = vec![[1; 32], [2; 32]];
    let request =
        GetHeadersMessage { version: 70001, locator_hashes: locator, stop_hash: [0; 32] };
    let bytes = sent(NetworkMessage::GetHeaders(request));
    let outside = bitcoin::p2p::message_blockdata::GetHeadersMessage::new(
        vec![
            bitcoin::BlockHash::from_byte_array([1; 32]),
            bitcoin::BlockHash::from_byte_array([2; 32]),
        ],
        bitcoin::BlockHash::from_byte_array([0; 32]),
    );
    assert_eq!(bytes, framed(Payload::GetHeaders(outside)));
    assert_eq!(bytes[4..16], *b"getheaders\0\0");
    assert_eq!(bytes[24..28], 70001u32.to_le_bytes());
    assert_eq!(bytes[28], 2);
    assert_eq!(bytes[29..61], [1; 32]);
    assert_eq!(bytes[61..93], [2; 32]);
    assert_eq!(bytes[93..], [0; 32]);
}

#[test]
fn a_request_for_blocks_lists_witness_blocks() {
    let bytes = sent(NetworkMessage::GetData(vec![
        Inventory::WitnessBlock([3; 32]),
        Inventory::WitnessBlock([4; 32]),
    ]));
    assert_eq!(bytes[4..16], *b"getdata\0\0\0\0\0");
    assert_eq!(bytes[24], 2);
    assert_eq!(bytes[25..29], [2, 0, 0, 0x40]);
    assert_eq!(bytes[29..61], [3; 32]);
    assert_eq!(bytes[61..65], [2, 0, 0, 0x40]);
    assert_eq!(bytes[65..], [4; 32]);
    let item = |byte| {
        bitcoin::p2p::message_blockdata::Inventory::WitnessBlock(
            bitcoin::BlockHash::from_byte_array([byte; 32]),
        )
    };
    assert_eq!(bytes, framed(Payload::GetData(vec![item(3), item(4)])));
}

#[test]
fn long_lists_have_a_longer_count() {
    let bytes = sent(NetworkMessage::GetData(vec![Inventory::WitnessBlock([3; 32]); 500]));
    assert_eq!(bytes.len(), 24 + 3 + 36 * 500);
    assert_eq!(bytes[16..20], (3 + 36 * 500u32).to_le_bytes());
    assert_eq!(bytes[24..27], [0xfd, 0xf4, 0x01]);
    let bytes = sent(NetworkMessage::GetData(vec![Inventory::WitnessBlock([3; 32]); 0xfc]));
    assert_eq!(bytes[24..26], [0xfc, 2]);
    let bytes = sent(NetworkMessage::GetData(vec![]));
    assert_eq!(bytes[24..], [0]);
}

#[test]
fn the_first_bytes_of_what_is_sent_announce_the_rest() {
    let messages = vec![
        NetworkMessage::Verack,
        NetworkMessage::Version(build_version_msg(mapped([127, 0, 0, 1]), 1, 2, 3)),
        NetworkMessage::GetData(vec![Inventory::WitnessBlock([3; 32]); 300]),
        NetworkMessage::GetHeaders(GetHeadersMessage {
            version: PROTOCOL_VERSION,
            locator_hashes: vec![[5; 32]],
            stop_hash: [0; 32],
        }),
    ];
    for message in messages {
        let bytes = sent(message);
        let (header, payload) = split(&bytes);
        assert_eq!(payload_length(&header).unwrap() as usize, payload.len());
    }
}

#[test]
fn the_messages_of_a_handshake_are_read_back() {
    assert!(matches!(read(&sent(NetworkMessage::Verack)), Ok(PeerMessage::Verack)));
    let version = NetworkMessage::Version(build_version_msg(mapped([127, 0, 0, 1]), 1, 2, 31));
    assert!(matches!(read(&sent(version)), Ok(PeerMessage::Version { start_height: 31 })));
}

#[test]
fn headers_are_read_with_all_their_fields() {
    let mut second = outside_header();
    second.prev_blockhash = outside_header().block_hash();
    second.nonce = 99;
    let bytes = framed(Payload::Headers(vec![outside_header(), second]));
    let headers: Vec<Header> = match read(&bytes) {
        Ok(PeerMessage::Headers(headers)) => headers,
        _ => panic!("headers were sent"),
    };
    assert_eq!(headers.len(), 2);
    assert_eq!(headers[0].version, 1);
    assert_eq!(headers[0].prev_blockhash, [0; 32]);
    assert_eq!(headers[0].merkle_root, outside_header().merkle_root.to_byte_array());
    assert_eq!(headers[0].time, 1296688602);
    assert_eq!(headers[0].bits, 0x207fffff);
    assert_eq!(headers[0].nonce, 2);
    assert_eq!(headers[1].prev_blockhash, outside_header().block_hash().to_byte_array());
    assert_eq!(headers[1].nonce, 99);
}

#[test]
fn blocks_are_read_in_their_serialised_form() {
    match read(&framed(Payload::Block(outside_block()))) {
        Ok(PeerMessage::Block(bytes)) => {
            assert_eq!(bytes, bitcoin::consensus::serialize(&outside_block()));
            assert_eq!(bytes.len(), 285);
        }
        _ => panic!("a block was sent"),
    }
}

#[test]
fn other_messages_are_told_apart() {
    assert!(matches!(read(&framed(Payload::Inv(vec![]))), Ok(PeerMessage::Inv)));
    assert!(matches!(read(&framed(Payload::Ping(7))), Ok(PeerMessage::Other)));
    assert!(matches!(read(&framed(Payload::SendHeaders)), Ok(PeerMessage::Other)));
}

#[test]
fn the_reader_does_not_look_at_the_magic() {
    let mut bytes = framed(Payload::Verack);
    bytes[..4].copy_from_slice(&[1, 2, 3, 4]);
    assert!(matches!(read(&bytes), Ok(PeerMessage::Verack)));
}

#[test]
fn a_wrong_checksum_is_an_error() {
    let mut bytes = framed(Payload::Ping(7));
    bytes[20] ^= 1;
    assert!(matches!(read(&bytes), Err(NodeError::BitcoinConsensusError(_))));
}

#[test]
fn a_cut_payload_is_an_error() {
    let (header, mut payload) = split(&framed(Payload::Ping(7)));
    payload.pop();
    assert!(matches!(
        read_network_msg(&header, &payload),
        Err(NodeError::BitcoinConsensusError(_)),
    ));
}

#[test]
fn a_command_that_is_not_ascii_is_an_error() {
    let (mut header, _) = split(&framed(Payload::Verack));
    assert_eq!(payload_length(&header).unwrap(), 0);
    header[15] = 0x80;
    assert!(matches!(payload_length(&header), Err(NodeError::BitcoinConsensusError(_))));
}

#[test]
fn the_announced_length_is_read_least_significant_byte_first() {
    let (mut header, _) = split(&framed(Payload::Verack));
    header[16..20].copy_from_slice(&[1, 2, 3, 4]);
    assert_eq!(payload_length(&header).unwrap(), 0x04030201);
    header[16..20].copy_from_slice(&[0xff; 4]);
    assert_eq!(payload_length(&header).unwrap(), u32::MAX);
}

#[test]
fn peers_are_found_by_network() {
    let seed = |network| match get_nodes(network) {
        Ok(NodeSource::Seed(seed)) => seed,
        _ => panic!("the network has a seed"),
    };
    assert_eq!(seed(Network::Bitcoin), "seed.bitcoin.sipa.be.");
    assert_eq!(seed(Network::Testnet4), "seed.testnet4.bitcoin.sprovoost.nl.");
    assert_eq!(seed(Network::Signet), "seed.signet.bitcoin.sprovoost.nl.");
    assert!(matches!(get_nodes(Network::Regtest), Ok(NodeSource::Address([127, 0, 0, 1]))));
    assert!(matches!(get_nodes(Network::Testnet), Err(NodeError::NetworkNotSupported)));
}

#[test]
fn peers_listen_on_the_port_of_their_network() {
    let port = |network| Peer::new(BlockIndex(0, [0; 32]), network).port();
    assert_eq!(port(Network::Bitcoin), 8333);
    assert_eq!(port(Network::Testnet4), 18333);
    assert_eq!(port(Network::Signet), 38333);
    assert_eq!(port(Network::Regtest), 18444);
    assert_eq!(port(Network::Testnet), 18444);
}

#[test]
fn a_handshake_opens_with_the_height_of_the_node() {
    let peer = Peer::new(BlockIndex(17, [0; 32]), Network::Regtest);
    let message = peer.open_handshake(mapped([127, 0, 0, 1]), 18444, 5).unwrap();
    match message.payload() {
        NetworkMessage::Version(version) => {
            assert_eq!(version.start_height, 17);
            assert_eq!(version.timestamp, 5);
            assert_eq!(version.receiver.address, mapped([127, 0, 0, 1]));
            assert_eq!(version.receiver.port, 18444);
        }
        _ => panic!("a handshake opens with a version message"),
    }
    assert_eq!(message.magic(), REGTEST);
    let peer = Peer::new(BlockIndex(17, [0; 32]), Network::Testnet);
    let refused = peer.open_handshake(mapped([127, 0, 0, 1]), 18444, 5);
    assert!(matches!(refused, Err(NodeError::NetworkNotSupported)));
}

fn is_verack(reply: &Option<RawNetworkMessage>) -> bool {
    match reply {
        Some(reply) => {
            reply.magic() == REGTEST && matches!(reply.payload(), NetworkMessage::Verack)
        }
        None => false,
    }
}

#[test]
fn a_handshake_ends_after_version_and_verack() {
    let mut peer = Peer::new(BlockIndex(0, [0; 32]), Network::Regtest);
    let step = peer.peer_handshake(&PeerMessage::Version { start_height: 9 }).unwrap();
    assert!(step.forward);
    assert!(step.reply.is_none());
    let step = peer.peer_handshake(&PeerMessage::Other).unwrap();
    assert!(!step.forward);
    assert!(step.reply.is_none());
    let step = peer.peer_handshake(&PeerMessage::Verack).unwrap();
    assert!(!step.forward);
    assert!(is_verack(&step.reply));
}

#[test]
fn a_handshake_ends_after_verack_and_version() {
    let mut peer = Peer::new(BlockIndex(0, [0; 32]), Network::Regtest);
    for message in [PeerMessage::Inv, PeerMessage::Verack, PeerMessage::Verack] {
        let step = peer.peer_handshake(&message).unwrap();
        assert!(!step.forward);
        assert!(step.reply.is_none());
    }
    let step = peer.peer_handshake(&PeerMessage::Version { start_height: 9 }).unwrap();
    assert!(step.forward);
    assert!(is_verack(&step.reply));
}

#[test]
fn a_handshake_on_an_unsupported_network_fails_at_its_end() {
    let mut peer = Peer::new(BlockIndex(0, [0; 32]), Network::Testnet);
    assert!(peer.peer_handshake(&PeerMessage::Verack).is_ok());
    assert!(matches!(
        peer.peer_handshake(&PeerMessage::Version { start_height: 9 }),
        Err(NodeError::NetworkNotSupported),
    ));
}

#[test]
fn the_last_block_that_peers_are_told_of_can_change() {
    let height = |peer: &Peer| match peer.open_handshake([0; 8], 0, 0).unwrap().payload() {
        NetworkMessage::Version(version) => version.start_height,
        _ => panic!("a handshake opens with a version message"),
    };
    let mut manager = PeerManager::new(BlockIndex(23, [0; 32]), Network::Signet);
    manager.update_block(BlockIndex(24, [1; 32]));
    let (_, mut peer) = manager.run().unwrap();
    assert_eq!(height(&peer), 24);
    peer.update_block(BlockIndex(25, [2; 32]));
    assert_eq!(height(&peer), 25);
    assert_eq!(peer.port(), 38333);
}

#[test]
fn the_peer_manager_gives_the_peer_to_connect_to() {
    let manager = PeerManager::new(BlockIndex(23, [0; 32]), Network::Signet);
    let (source, peer) = manager.run().unwrap();
    let seed = "seed.signet.bitcoin.sprovoost.nl.";
    assert!(matches!(source, NodeSource::Seed(found) if found == seed));
    assert_eq!(peer.port(), 38333);
    let opening = peer.open_handshake([0; 8], 0, 0).unwrap();
    assert!(matches!(
        opening.payload(),
        NetworkMessage::Version(version) if version.start_height == 23,
    ));
    let manager = PeerManager::new(BlockIndex(23, [0; 32]), Network::Testnet);
    assert!(matches!(manager.run(), Err(NodeError::NetworkNotSupported)));
}
