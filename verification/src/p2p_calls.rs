//! What calls on messages and peers give, in terms of what goes in and what comes out.

use vstd::prelude::*;

use crate::error::NodeError;
use crate::header::BlockIndex;
use crate::message::{
    AddressView, GetHeadersView, NetworkMessage, NetworkMessageView,
    PeerMessage, RawNetworkMessage, VersionMessage, VersionView,
};
use crate::network::{BitcoinNetwork, ChainType, Network};
use crate::p2p::{HandshakeStep, NodeSource, NodeSourceView, Peer, PeerManager};

verus! {

/// A version message shows all that it holds.
pub proof fn law_view_of_version_message(message: VersionMessage)
    ensures
        message@.version == message.version,
        message@.services == message.services,
        message@.timestamp == message.timestamp,
        message@.receiver.services == message.receiver.services,
        message@.receiver.address == message.receiver.address@,
        message@.receiver.port == message.receiver.port,
        message@.sender.services == message.sender.services,
        message@.sender.address == message.sender.address@,
        message@.sender.port == message.sender.port,
        message@.nonce == message.nonce,
        message@.user_agent == message.user_agent@,
        message@.start_height == message.start_height,
        message@.relay == message.relay,
{
}

/// A message that the node sends shows all that it holds.
pub proof fn law_view_of_network_message(message: NetworkMessage)
    ensures
        message matches NetworkMessage::Version(version) ==> message@
            == NetworkMessageView::Version(version@),
        message is Verack <==> message@ is Verack,
        message matches NetworkMessage::GetHeaders(request) ==> {
            &&& message@ matches NetworkMessageView::GetHeaders(view)
            &&& view.version == request.version
            &&& view.stop_hash == request.stop_hash@
            &&& view.locator_hashes.len() == request.locator_hashes@.len()
            &&& forall|i: int|
                0 <= i < view.locator_hashes.len() ==> #[trigger] view.locator_hashes[i]
                    == request.locator_hashes@[i]@
        },
        message matches NetworkMessage::GetData(items) ==> {
            &&& message@ matches NetworkMessageView::GetData(view)
            &&& view.len() == items@.len()
            &&& forall|i: int|
                0 <= i < view.len() ==> #[trigger] view[i] == items@[i]->WitnessBlock_0@
        },
{
}

/// The choices of a user stand for different chains and different networks, and for those that
/// bear their names.
pub proof fn law_chosen_networks(network: BitcoinNetwork, chain: ChainType, peers: Network)
    requires
        call_ensures(<ChainType as From<BitcoinNetwork>>::from, (network,), chain),
        call_ensures(<Network as From<BitcoinNetwork>>::from, (network,), peers),
    ensures
        network is Mainnet <==> chain is Mainnet,
        network is Testnet <==> chain is Testnet,
        network is Signet <==> chain is Signet,
        network is Regtest <==> chain is Regtest,
        network is Mainnet <==> peers is Bitcoin,
        network is Testnet <==> peers is Testnet4,
        network is Signet <==> peers is Signet,
        network is Regtest <==> peers is Regtest,
{
}

/// What was put into a message comes out of it.
pub proof fn law_raw_message(
    magic: [u8; 4],
    payload: NetworkMessage,
    message: RawNetworkMessage,
    seen: &NetworkMessage,
    bytes: [u8; 4],
)
    requires
        call_ensures(RawNetworkMessage::new, (magic, payload), message),
        call_ensures(RawNetworkMessage::payload, (&message,), seen),
        call_ensures(RawNetworkMessage::magic, (&message,), bytes),
    ensures
        seen@ == payload@,
        bytes@ == magic@,
        message@.payload == payload@,
        message@.magic == magic@,
{
}

/// A message goes out as it is, with the magic bytes of its network, and to every network but the
/// third test network.
pub proof fn law_build_raw_network_msg(
    network: Network,
    msg: NetworkMessage,
    raw: Result<RawNetworkMessage, NodeError>,
)
    requires
        call_ensures(crate::p2p::build_raw_network_msg, (network, msg), raw),
    ensures
        raw is Ok <==> network != Network::Testnet,
        raw matches Ok(raw) ==> raw@.payload == msg@ && crate::node_calls::goes_to(raw, network),
        raw matches Err(error) ==> error is NetworkNotSupported,
        network == Network::Testnet ==> call_requires(
            crate::p2p::build_raw_network_msg,
            (network, msg),
        ),
{
}

/// The version message that the node sends names the receiver, the time and the height that are
/// given, and else always the same.
pub open spec fn introduces(
    version: VersionView,
    address: Seq<u16>,
    port: u16,
    timestamp: i64,
    start_height: int,
) -> bool {
    &&& version.version == 70001
    &&& version.services == 0
    &&& version.timestamp == timestamp
    &&& version.receiver.services == 0
    &&& version.receiver.address == address
    &&& version.receiver.port == port
    &&& version.sender.services == 0
    &&& version.sender.address == seq![0u16, 0, 0, 0, 0, 0xffff, 0, 0]
    &&& version.sender.port == 0
    &&& version.nonce == 0
    &&& version.user_agent == "bitcoin-node"@
    &&& version.start_height == start_height
    &&& !version.relay
}

/// What `build_version_msg` gives.
pub proof fn law_build_version_msg(
    address: [u16; 8],
    port: u16,
    timestamp: i64,
    start_height: i32,
    message: VersionMessage,
)
    requires
        call_ensures(
            crate::p2p::build_version_msg,
            (address, port, timestamp, start_height),
            message,
        ),
    ensures
        introduces(message@, address@, port, timestamp, start_height as int),
{
}

/// A handshake opens with a version message of the height that the peer is told of.
pub proof fn law_open_handshake(
    peer: &Peer,
    address: [u16; 8],
    port: u16,
    timestamp: i64,
    message: Result<RawNetworkMessage, NodeError>,
)
    requires
        call_ensures(Peer::open_handshake, (peer, address, port, timestamp), message),
        i32::MIN <= peer@.current_block.0 <= i32::MAX,
    ensures
        message is Ok <==> peer@.network != Network::Testnet,
        message matches Ok(raw) ==> {
            &&& crate::node_calls::goes_to(raw, peer@.network)
            &&& raw@.payload matches NetworkMessageView::Version(version)
            &&& introduces(version, address@, port, timestamp, peer@.current_block.0)
        },
        message matches Err(error) ==> error is NetworkNotSupported,
{
}

/// A peer starts with what it is made of, and with nothing received.
pub proof fn law_new_peer(block: BlockIndex, network: Network, peer: Peer)
    requires
        call_ensures(Peer::new, (block, network), peer),
    ensures
        peer@.current_block == (block.0 as int, block.1@),
        peer@.network == network,
        !peer@.handshake.verack_received,
        !peer@.handshake.version_received,
        peer@.port == (match network {
            Network::Bitcoin => 8333u16,
            Network::Testnet4 => 18333,
            Network::Signet => 38333,
            _ => 18444,
        }),
{
}

/// The port of a peer is what it says.
pub proof fn law_port(peer: &Peer, port: u16)
    requires
        call_ensures(Peer::port, (peer,), port),
    ensures
        port == peer@.port,
{
}

/// The last block that a peer is told of changes, and nothing else of the peer.
pub proof fn law_update_peer(peer: &mut Peer, tip: BlockIndex)
    requires
        call_ensures(Peer::update_block, (peer, tip), ()),
    ensures
        final(peer)@.current_block == (tip.0 as int, tip.1@),
        final(peer)@.port == old(peer)@.port,
        final(peer)@.network == old(peer)@.network,
        final(peer)@.handshake == old(peer)@.handshake,
{
}

/// A handshake remembers both messages, hands version messages on and nothing else, and ends with
/// a `verack` as soon as both were received and not before.
pub proof fn law_peer_handshake(
    peer: &mut Peer,
    message: &PeerMessage,
    step: Result<HandshakeStep, NodeError>,
)
    requires
        call_ensures(Peer::peer_handshake, (peer, message), step),
    ensures
        final(peer)@.port == old(peer)@.port,
        final(peer)@.network == old(peer)@.network,
        final(peer)@.current_block == old(peer)@.current_block,
        final(peer)@.handshake.verack_received <==> old(peer)@.handshake.verack_received
            || message is Verack,
        final(peer)@.handshake.version_received <==> old(peer)@.handshake.version_received
            || message is Version,
        ({
            let both = final(peer)@.handshake.verack_received
                && final(peer)@.handshake.version_received;
            &&& step is Err <==> both && old(peer)@.network == Network::Testnet
            &&& step matches Err(error) ==> error is NetworkNotSupported
            &&& step matches Ok(step) ==> {
                &&& step.forward <==> message is Version
                &&& step.reply is Some <==> both
                &&& step.reply matches Some(raw) ==> raw@.payload is Verack
                    && crate::node_calls::goes_to(raw, old(peer)@.network)
            }
        }),
{
    crate::node_calls::law_view_of_peer_message(*message);
}

/// A peer manager starts with what it is made of.
pub proof fn law_new_manager(block: BlockIndex, network: Network, manager: PeerManager)
    requires
        call_ensures(PeerManager::new, (block, network), manager),
    ensures
        manager@.block_height == (block.0 as int, block.1@),
        manager@.network == network,
{
}

/// The peer manager gives a new peer of its network that is told of its last block, and says where
/// peers of that network are found.
pub proof fn law_run_manager(
    manager: &PeerManager,
    result: Result<(NodeSource, Peer), NodeError>,
    source: Result<NodeSource, NodeError>,
    block: BlockIndex,
    peer: Peer,
)
    requires
        call_ensures(PeerManager::run, (manager,), result),
        call_ensures(crate::p2p::get_nodes, (manager@.network,), source),
        manager@.block_height == (block.0 as int, block.1@),
        call_ensures(Peer::new, (block, manager@.network), peer),
    ensures
        result is Ok <==> source is Ok,
        result matches Ok((place, given)) ==> (source matches Ok(source) && place@ == source@
            && given@ == peer@),
        result matches Err(error) ==> error is NetworkNotSupported,
        source matches Err(error) ==> error is NetworkNotSupported,
{
}

/// The last block of a manager changes, and nothing else of it.
pub proof fn law_update_manager(manager: &mut PeerManager, tip: BlockIndex)
    requires
        call_ensures(PeerManager::update_block, (manager, tip), ()),
    ensures
        final(manager)@.network == old(manager)@.network,
        final(manager)@.block_height == (tip.0 as int, tip.1@),
{
}

/// The name of a network, and nothing else, chooses it.
pub proof fn law_from_name(text: &str, network: Option<BitcoinNetwork>)
    requires
        call_ensures(BitcoinNetwork::from_name, (text,), network),
    ensures
        network == Some(BitcoinNetwork::Mainnet) <==> text@ == "mainnet"@,
        network == Some(BitcoinNetwork::Testnet) <==> text@ == "testnet"@,
        network == Some(BitcoinNetwork::Signet) <==> text@ == "signet"@,
        network == Some(BitcoinNetwork::Regtest) <==> text@ == "regtest"@,
{
    crate::network::law_names_are_read_back(BitcoinNetwork::Mainnet, BitcoinNetwork::Testnet);
    crate::network::law_names_are_read_back(BitcoinNetwork::Testnet, BitcoinNetwork::Signet);
    crate::network::law_names_are_read_back(BitcoinNetwork::Signet, BitcoinNetwork::Regtest);
    crate::network::law_names_are_read_back(BitcoinNetwork::Regtest, BitcoinNetwork::Mainnet);
}

/// The length of the payload stands in four bytes, least significant first, after a command of
/// ASCII characters.
pub proof fn law_payload_length(header: &[u8; 24], length: Result<u32, NodeError>)
    requires
        call_ensures(crate::p2p::payload_length, (header,), length),
    ensures
        length is Ok <==> forall|i: int| 4 <= i < 16 ==> #[trigger] header@[i] < 0x80,
        length matches Ok(length) ==> length == header@[16] + 0x100 * header@[17] + 0x1_0000
            * header@[18] + 0x100_0000 * header@[19],
        length matches Err(error) ==> error is BitcoinConsensusError,
{
    let command = header@.subrange(4, 16);
    let digits = header@.subrange(16, 20);
    if crate::wire::ascii(command) {
        assert forall|i: int| 4 <= i < 16 implies #[trigger] header@[i] < 0x80 by {
            assert(command[i - 4] == header@[i]);
        }
    }
    if forall|i: int| 4 <= i < 16 ==> #[trigger] header@[i] < 0x80 {
        assert forall|i: int| 0 <= i < command.len() implies #[trigger] command[i] < 0x80 by {
            assert(command[i] == header@[i + 4]);
        }
    }
    lemma_four_digits(digits);
}

/// Four bytes spell a number.
proof fn lemma_four_digits(digits: Seq<u8>)
    requires
        digits.len() == 4,
    ensures
        crate::bytes::le_value(digits) == digits[0] + 0x100 * digits[1] + 0x1_0000 * digits[2]
            + 0x100_0000 * digits[3],
{
    let (a, b, c, d) = (
        digits,
        digits.drop_first(),
        digits.drop_first().drop_first(),
        digits.drop_first().drop_first().drop_first(),
    );
    assert(d.drop_first() =~= Seq::<u8>::empty());
    assert(crate::bytes::le_value(d.drop_first()) == 0);
    assert(crate::bytes::le_value(d) == d[0]);
    assert(crate::bytes::le_value(c) == c[0] + 256 * crate::bytes::le_value(d));
    assert(crate::bytes::le_value(b) == b[0] + 256 * crate::bytes::le_value(c));
    assert(crate::bytes::le_value(a) == a[0] + 256 * crate::bytes::le_value(b));
}

/// A message is read from its first bytes and its payload together.
pub proof fn law_read_network_msg(
    header: &[u8; 24],
    payload: &Vec<u8>,
    message: Result<PeerMessage, NodeError>,
)
    requires
        call_ensures(crate::p2p::read_network_msg, (header, payload), message),
    ensures
        message is Ok <==> crate::wire::decoded_message(header@ + payload@) is Some,
        message matches Ok(message) ==> crate::wire::decoded_message(header@ + payload@) == Some(
            message@,
        ),
        message matches Err(error) ==> error is BitcoinConsensusError,
{
}

/// A block is shown from its bytes.
pub proof fn law_block_text(block: &Vec<u8>, text: Result<String, NodeError>)
    requires
        call_ensures(crate::block::block_text, (block,), text),
    ensures
        text is Ok <==> crate::wire::block_text_of(block@) is Some,
        text matches Ok(text) ==> crate::wire::block_text_of(block@) == Some(text@),
        text matches Err(error) ==> error is BitcoinConsensusError,
{
}

/// A part of a joined sequence stands at its place.
proof fn lemma_joined_at(parts: Seq<Seq<u8>>, len: nat, i: int)
    requires
        forall|k: int| 0 <= k < parts.len() ==> (#[trigger] parts[k]).len() == len,
        0 <= i < parts.len(),
    ensures
        0 <= len * i,
        len * i + len <= crate::wire::joined(parts).len(),
        crate::wire::joined(parts).subrange(len * i, len * i + len) == parts[i],
    decreases parts.len(),
{
    let rest = parts.drop_first();
    let whole = crate::wire::joined(parts);
    let tail = crate::wire::joined(rest);
    assert(whole == parts[0] + tail);
    assert(parts[0].len() == len);
    if i == 0 {
        assert(len * i == 0) by (nonlinear_arith)
            requires
                i == 0,
        ;
        assert(whole.subrange(0, len as int) =~= parts[0]);
    } else {
        assert forall|k: int| 0 <= k < rest.len() implies (#[trigger] rest[k]).len() == len by {
            assert(rest[k] == parts[k + 1]);
        }
        lemma_joined_at(rest, len, i - 1);
        assert(len * i == len * (i - 1) + len) by (nonlinear_arith);
        assert(whole.subrange(len * i, len * i + len) =~= tail.subrange(
            len * (i - 1),
            len * (i - 1) + len,
        ));
        assert(rest[i - 1] == parts[i]);
    }
}

/// A request for blocks says how many there are, and then lists each in its place: the kind of a
/// block with its witness data, and the hash.
pub proof fn law_get_data_bytes(hashes: Seq<Seq<u8>>, i: int)
    requires
        forall|k: int| 0 <= k < hashes.len() ==> (#[trigger] hashes[k]).len() == 32,
        0 <= i < hashes.len(),
    ensures
        ({
            let bytes = crate::wire::payload_bytes(NetworkMessageView::GetData(hashes));
            let start = crate::wire::compact_size(hashes.len()).len() as int;
            &&& bytes.len() == start + 36 * hashes.len()
            &&& bytes.take(start) == crate::wire::compact_size(hashes.len())
            &&& bytes.subrange(start + 36 * i, start + 36 * i + 4) == seq![2u8, 0, 0, 0x40]
            &&& bytes.subrange(start + 36 * i + 4, start + 36 * i + 36) == hashes[i]
        }),
{
    let kind = crate::bytes::le_bytes(0x4000_0002, 4);
    let items = hashes.map_values(
        |hash: Seq<u8>| crate::bytes::le_bytes(0x4000_0002, 4) + hash,
    );
    let count = crate::wire::compact_size(hashes.len());
    let start = count.len() as int;
    let bytes = crate::wire::payload_bytes(NetworkMessageView::GetData(hashes));
    crate::bytes::lemma_le_bytes_len(0x4000_0002, 4);
    assert(kind =~= seq![2u8, 0, 0, 0x40]) by {
        reveal_with_fuel(crate::bytes::le_bytes, 5);
    }
    assert forall|k: int| 0 <= k < items.len() implies (#[trigger] items[k]).len() == 36 by {
        assert(hashes[k].len() == 32);
    }
    crate::wire::lemma_joined_len(items, 36);
    lemma_joined_at(items, 36, i);
    let body = crate::wire::joined(items);
    assert(bytes == count + body);
    assert(bytes.take(start) =~= count);
    assert(items[i] == kind + hashes[i]);
    let part = body.subrange(36 * i, 36 * i + 36);
    assert(part == kind + hashes[i]);
    assert(bytes.subrange(start + 36 * i, start + 36 * i + 4) =~= part.take(4));
    assert(part.take(4) =~= kind);
    assert(bytes.subrange(start + 36 * i + 4, start + 36 * i + 36) =~= part.skip(4));
    assert(part.skip(4) =~= hashes[i]);
}

/// A request for headers says the version, how many locator hashes there are, lists each in its
/// place, and ends with the hash to stop at.
pub proof fn law_get_headers_bytes(request: GetHeadersView, i: int)
    requires
        forall|k: int|
            0 <= k < request.locator_hashes.len() ==> (
            #[trigger] request.locator_hashes[k]).len() == 32,
        0 <= i < request.locator_hashes.len(),
    ensures
        ({
            let bytes = crate::wire::payload_bytes(NetworkMessageView::GetHeaders(request));
            let count = crate::wire::compact_size(request.locator_hashes.len());
            let start = 4 + count.len();
            let end = start + 32 * request.locator_hashes.len();
            &&& bytes.len() == end + request.stop_hash.len()
            &&& bytes.take(4) == crate::bytes::le_bytes(request.version as nat, 4)
            &&& bytes.subrange(4, start as int) == count
            &&& bytes.subrange(start + 32 * i, start + 32 * i + 32) == request.locator_hashes[i]
            &&& bytes.skip(end as int) == request.stop_hash
        }),
{
    let bytes = crate::wire::payload_bytes(NetworkMessageView::GetHeaders(request));
    let version = crate::bytes::le_bytes(request.version as nat, 4);
    let count = crate::wire::compact_size(request.locator_hashes.len());
    let body = crate::wire::joined(request.locator_hashes);
    let start = 4 + count.len();
    crate::bytes::lemma_le_bytes_len(request.version as nat, 4);
    crate::wire::lemma_joined_len(request.locator_hashes, 32);
    lemma_joined_at(request.locator_hashes, 32, i);
    assert(bytes == version + count + body + request.stop_hash);
    assert(bytes.take(4) =~= version);
    assert(bytes.subrange(4, start as int) =~= count);
    assert(bytes.subrange(start + 32 * i, start + 32 * i + 32) =~= body.subrange(
        32 * i,
        32 * i + 32,
    ));
    assert(bytes.skip((start + 32 * request.locator_hashes.len()) as int) =~= request.stop_hash);
}

/// An address stands in 26 bytes: the services, the words and the port.
pub proof fn law_address_bytes(address: AddressView, i: int)
    requires
        address.address.len() == 8,
        0 <= i < 8,
    ensures
        ({
            let bytes = crate::wire::address_bytes(address);
            &&& bytes.len() == 26
            &&& bytes.take(8) == crate::bytes::le_bytes(address.services as nat, 8)
            &&& bytes[8 + 2 * i] == address.address[i] / 256
            &&& bytes[9 + 2 * i] == address.address[i] % 256
            &&& bytes[24] == address.port / 256
            &&& bytes[25] == address.port % 256
        }),
{
    let bytes = crate::wire::address_bytes(address);
    let services = crate::bytes::le_bytes(address.services as nat, 8);
    let words = address.address.map_values(|word: u16| crate::wire::be_word(word));
    let body = crate::wire::joined(words);
    crate::bytes::lemma_le_bytes_len(address.services as nat, 8);
    assert forall|k: int| 0 <= k < words.len() implies (#[trigger] words[k]).len() == 2 by {}
    crate::wire::lemma_joined_len(words, 2);
    lemma_joined_at(words, 2, i);
    assert(bytes == services + body + crate::wire::be_word(address.port));
    assert(bytes.take(8) =~= services);
    let word = body.subrange(2 * i, 2 * i + 2);
    assert(word == crate::wire::be_word(address.address[i]));
    assert(word[0] == body[2 * i] && word[1] == body[2 * i + 1]);
}

/// A version message says each of its fields in its place.
pub proof fn law_version_bytes(version: VersionView)
    requires
        version.receiver.address.len() == 8,
        version.sender.address.len() == 8,
    ensures
        ({
            let bytes = crate::wire::payload_bytes(NetworkMessageView::Version(version));
            let agent = vstd::utf8::encode_utf8(version.user_agent);
            let count = crate::wire::compact_size(agent.len());
            let start = 80 + count.len();
            let end = start + agent.len() as int;
            &&& bytes.len() == end + 5
            &&& bytes.take(4) == crate::bytes::le_bytes(version.version as nat, 4)
            &&& bytes.subrange(4, 12) == crate::bytes::le_bytes(version.services as nat, 8)
            &&& version.timestamp >= 0 ==> bytes.subrange(12, 20) == crate::bytes::le_bytes(
                version.timestamp as nat,
                8,
            )
            &&& bytes.subrange(20, 46) == crate::wire::address_bytes(version.receiver)
            &&& bytes.subrange(46, 72) == crate::wire::address_bytes(version.sender)
            &&& bytes.subrange(72, 80) == crate::bytes::le_bytes(version.nonce as nat, 8)
            &&& bytes.subrange(80, start as int) == count
            &&& bytes.subrange(start as int, end) == agent
            &&& version.start_height >= 0 ==> bytes.subrange(end, end + 4)
                == crate::bytes::le_bytes(version.start_height as nat, 4)
            &&& bytes[end + 4] == if version.relay {
                1u8
            } else {
                0u8
            }
        }),
{
    let bytes = crate::wire::payload_bytes(NetworkMessageView::Version(version));
    let agent = vstd::utf8::encode_utf8(version.user_agent);
    let count = crate::wire::compact_size(agent.len());
    let start = 80 + count.len();
    let end = start + agent.len() as int;
    let time = (version.timestamp as int % 0x1_0000_0000_0000_0000) as nat;
    let height = (version.start_height as int % 0x1_0000_0000) as nat;
    crate::bytes::lemma_le_bytes_len(version.version as nat, 4);
    crate::bytes::lemma_le_bytes_len(version.services as nat, 8);
    crate::bytes::lemma_le_bytes_len(time, 8);
    crate::bytes::lemma_le_bytes_len(version.nonce as nat, 8);
    crate::bytes::lemma_le_bytes_len(height, 4);
    law_address_bytes(version.receiver, 0);
    law_address_bytes(version.sender, 0);
    assert(bytes.take(4) =~= crate::bytes::le_bytes(version.version as nat, 4));
    assert(bytes.subrange(4, 12) =~= crate::bytes::le_bytes(version.services as nat, 8));
    assert(bytes.subrange(12, 20) =~= crate::bytes::le_bytes(time, 8));
    assert(bytes.subrange(20, 46) =~= crate::wire::address_bytes(version.receiver));
    assert(bytes.subrange(46, 72) =~= crate::wire::address_bytes(version.sender));
    assert(bytes.subrange(72, 80) =~= crate::bytes::le_bytes(version.nonce as nat, 8));
    assert(bytes.subrange(80, start as int) =~= count);
    assert(bytes.subrange(start as int, end) =~= agent);
    assert(bytes.subrange(end, end + 4) =~= crate::bytes::le_bytes(height, 4));
}

/// A count is spelled so that it can be read: small ones in one byte, larger ones after a mark that
/// says how many bytes follow.
pub proof fn law_counts_are_spelled(n: nat)
    requires
        n <= 0xffff_ffff,
    ensures
        ({
            let bytes = crate::wire::compact_size(n);
            &&& n < 0xfd ==> bytes == seq![n as u8]
            &&& 0xfd <= n <= 0xffff ==> bytes.len() == 3 && bytes[0] == 0xfd
                && crate::bytes::le_value(bytes.skip(1)) == n
            &&& n > 0xffff ==> bytes.len() == 5 && bytes[0] == 0xfe && crate::bytes::le_value(
                bytes.skip(1),
            ) == n
        }),
{
    let bytes = crate::wire::compact_size(n);
    crate::bytes::lemma_le_bytes_len(n, 2);
    crate::bytes::lemma_le_bytes_len(n, 4);
    assert(vstd::arithmetic::power::pow(256, 2) == 0x1_0000
        && vstd::arithmetic::power::pow(256, 4) == 0x1_0000_0000) by {
        reveal_with_fuel(vstd::arithmetic::power::pow, 5);
    }
    if 0xfd <= n <= 0xffff {
        crate::bytes::lemma_le_value_of_bytes(n, 2);
        assert(bytes.skip(1) =~= crate::bytes::le_bytes(n, 2));
    } else if n > 0xffff {
        crate::bytes::lemma_le_value_of_bytes(n, 4);
        assert(bytes.skip(1) =~= crate::bytes::le_bytes(n, 4));
    }
}

/// Where peers are found, by network.
pub proof fn law_get_nodes(network: Network, source: Result<NodeSource, NodeError>)
    requires
        call_ensures(crate::p2p::get_nodes, (network,), source),
    ensures
        network is Testnet <==> source is Err,
        source matches Ok(source) ==> source@ == (match network {
            Network::Regtest => NodeSourceView::Address(seq![127u8, 0, 0, 1]),
            Network::Bitcoin => NodeSourceView::Seed("seed.bitcoin.sipa.be."@),
            Network::Testnet4 => NodeSourceView::Seed("seed.testnet4.bitcoin.sprovoost.nl."@),
            _ => NodeSourceView::Seed("seed.signet.bitcoin.sprovoost.nl."@),
        }),
{
}

} // verus!
