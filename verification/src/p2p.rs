//! The node's side of a connection to a peer.

use vstd::prelude::*;

use crate::error::NodeError;
use crate::header::BlockIndex;
use crate::message::{
    Address, NetworkMessage, PeerMessage, RawNetworkMessage, VersionMessage, PROTOCOL_VERSION,
};
use crate::network::Network;
use crate::wire::{decode_command, decode_magic, decode_message, decode_u32};

verus! {

/// How many bytes stand before the payload of a message: magic, command, length and checksum.
pub const FRAME_HEADER: usize = 24;

/// The magic bytes of a network that the node supports.
pub open spec fn network_magic(network: Network) -> Option<Seq<u8>> {
    match network {
        Network::Bitcoin => Some(seq![0xF9u8, 0xBE, 0xB4, 0xD9]),
        Network::Testnet4 => Some(seq![0x1cu8, 0x16, 0x3f, 0x28]),
        Network::Signet => Some(seq![0x0Au8, 0x03, 0xCF, 0x40]),
        Network::Regtest => Some(seq![0xFAu8, 0xBF, 0xB5, 0xDA]),
        Network::Testnet => None,
    }
}

/// Addresses a message to a network.
pub fn build_raw_network_msg(network: Network, msg: NetworkMessage) -> (raw: Result<
    RawNetworkMessage,
    NodeError,
>)
    requires
        network_magic(network) is Some ==> crate::wire::fits(msg@),
    ensures
        match raw {
            Ok(raw) => network_magic(network) == Some(raw@.magic) && raw@.payload == msg@
                && raw.wf(),
            Err(error) => network_magic(network) is None && error is NetworkNotSupported,
        },
{
    let network_magic: [u8; 4] = match network {
        Network::Bitcoin => [0xF9, 0xBE, 0xB4, 0xD9],
        Network::Testnet4 => [0x1c, 0x16, 0x3f, 0x28],
        Network::Signet => [0x0A, 0x03, 0xCF, 0x40],
        Network::Regtest => [0xFA, 0xBF, 0xB5, 0xDA],
        _ => return Err(NodeError::NetworkNotSupported),
    };
    proof {
        assert(crate::p2p::network_magic(network) == Some(network_magic@));
    }
    Ok(RawNetworkMessage::new(network_magic, msg))
}

/// The version message that the node sends to a peer at this address, at `timestamp` seconds
/// since the epoch, having reached `start_height`.
pub open spec fn version_message(
    address: Seq<u16>,
    port: u16,
    timestamp: i64,
    start_height: i32,
) -> crate::message::VersionView {
    crate::message::VersionView {
        version: PROTOCOL_VERSION,
        services: 0,
        timestamp,
        receiver: crate::message::AddressView { services: 0, address, port },
        sender: crate::message::AddressView {
            services: 0,
            address: seq![0u16, 0, 0, 0, 0, 0xffff, 0, 0],
            port: 0,
        },
        nonce: 0,
        user_agent: "bitcoin-node"@,
        start_height,
        relay: false,
    }
}

/// The version message that opens the handshake with a peer at this address.
pub fn build_version_msg(
    address: [u16; 8],
    port: u16,
    timestamp: i64,
    start_height: i32,
) -> (message: VersionMessage)
    ensures
        message@ == version_message(address@, port, timestamp, start_height),
{
    // no peer uses the sender's address, so it is that of no host
    let sender: [u16; 8] = [0, 0, 0, 0, 0, 0xffff, 0, 0];
    assert(sender@ =~= seq![0u16, 0, 0, 0, 0, 0xffff, 0, 0]);
    VersionMessage {
        version: PROTOCOL_VERSION,
        services: 0,
        timestamp,
        receiver: Address { services: 0, address, port },
        sender: Address { services: 0, address: sender, port: 0 },
        // connections are only made outwards, so there is none to oneself to detect
        nonce: 0,
        user_agent: "bitcoin-node".to_owned(),
        start_height,
        relay: false,
    }
}

/// Where the node finds peers.
#[derive(Debug)]
pub enum NodeSource {
    /// At this IPv4 address.
    Address([u8; 4]),
    /// At the addresses that the name server gives for this name.
    Seed(String),
}

/// What a [`NodeSource`] holds.
pub ghost enum NodeSourceView {
    Address(Seq<u8>),
    Seed(Seq<char>),
}

impl View for NodeSource {
    type V = NodeSourceView;

    open spec fn view(&self) -> NodeSourceView {
        match self {
            NodeSource::Address(address) => NodeSourceView::Address(address@),
            NodeSource::Seed(seed) => NodeSourceView::Seed(seed@),
        }
    }
}

/// Where peers of a network are found, where the node supports it.
pub open spec fn node_source(network: Network) -> Option<NodeSourceView> {
    match network {
        Network::Bitcoin => Some(NodeSourceView::Seed("seed.bitcoin.sipa.be."@)),
        Network::Testnet4 => Some(NodeSourceView::Seed("seed.testnet4.bitcoin.sprovoost.nl."@)),
        Network::Signet => Some(NodeSourceView::Seed("seed.signet.bitcoin.sprovoost.nl."@)),
        Network::Regtest => Some(NodeSourceView::Address(seq![127u8, 0, 0, 1])),
        Network::Testnet => None,
    }
}

/// Where to look for peers of a network.
pub fn get_nodes(network: Network) -> (source: Result<NodeSource, NodeError>)
    ensures
        match source {
            Ok(source) => node_source(network) == Some(source@),
            Err(error) => node_source(network) is None && error is NetworkNotSupported,
        },
{
    match network {
        Network::Bitcoin => Ok(NodeSource::Seed("seed.bitcoin.sipa.be.".to_owned())),
        Network::Testnet4 => Ok(
            NodeSource::Seed("seed.testnet4.bitcoin.sprovoost.nl.".to_owned()),
        ),
        Network::Signet => Ok(NodeSource::Seed("seed.signet.bitcoin.sprovoost.nl.".to_owned())),
        Network::Regtest => {
            let local: [u8; 4] = [127, 0, 0, 1];
            assert(local@ =~= seq![127u8, 0, 0, 1]);
            Ok(NodeSource::Address(local))
        },
        _ => Err(NodeError::NetworkNotSupported),
    }
}

/// The length of the payload that follows the first bytes of a message, where their command is
/// well formed.
pub open spec fn announced_length(header: Seq<u8>) -> Option<nat> {
    if crate::wire::ascii(header.subrange(4, 16)) {
        Some(crate::bytes::le_value(header.subrange(16, 20)))
    } else {
        None
    }
}

/// Reads the first bytes of a message, and says how many bytes of payload follow.
pub fn payload_length(header: &[u8; 24]) -> (length: Result<u32, NodeError>)
    ensures
        match length {
            Ok(length) => announced_length(header@) == Some(length as nat),
            Err(error) => announced_length(header@) is None && error is BitcoinConsensusError,
        },
{
    let magic = &header[0..4];
    let command = &header[4..16];
    let length = &header[16..20];
    let checksum = &header[20..24];
    assert(command@.take(12) == header@.subrange(4, 16));
    assert(length@.take(4) == header@.subrange(16, 20));

    match decode_magic(magic) {
        Ok(_) => {},
        Err(error) => return Err(NodeError::from(error)),
    }
    match decode_command(command) {
        Ok(_) => {},
        Err(error) => return Err(NodeError::from(error)),
    }
    let payload_length = match decode_u32(length) {
        Ok(payload_length) => payload_length,
        Err(error) => return Err(NodeError::from(error)),
    };
    match decode_u32(checksum) {
        Ok(_) => {},
        Err(error) => return Err(NodeError::from(error)),
    }
    Ok(payload_length)
}

/// Reads a message from its first bytes and its payload.
pub fn read_network_msg(header: &[u8; 24], payload: &Vec<u8>) -> (message: Result<
    PeerMessage,
    NodeError,
>)
    ensures
        match message {
            Ok(message) => crate::wire::decoded_message(header@ + payload@) == Some(message@),
            Err(error) => crate::wire::decoded_message(header@ + payload@) is None
                && error is BitcoinConsensusError,
        },
{
    let mut bytes: Vec<u8> = Vec::with_capacity(FRAME_HEADER);
    for i in 0..24usize
        invariant
            bytes@ == header@.take(i as int),
    {
        bytes.push(header[i]);
        assert(header@.take(i + 1) == header@.take(i as int).push(header@[i as int]));
    }
    assert(header@.take(24) == header@);
    for i in 0..payload.len()
        invariant
            bytes@ == header@ + payload@.take(i as int),
    {
        bytes.push(payload[i]);
        assert(payload@.take(i + 1) == payload@.take(i as int).push(payload@[i as int]));
    }
    assert(payload@.take(payload@.len() as int) == payload@);
    match decode_message(bytes.as_slice()) {
        Ok(message) => Ok(message),
        Err(error) => Err(NodeError::from(error)),
    }
}

/// What was received of the two messages that a handshake waits for.
#[derive(Debug, Clone, Copy, PartialEq, Eq, Structural)]
pub struct Handshake {
    pub verack_received: bool,
    pub version_received: bool,
}

impl Handshake {
    /// The handshake after one more message.
    pub open spec fn after(self, message: crate::message::PeerMessageView) -> Handshake {
        Handshake {
            verack_received: self.verack_received || message is Verack,
            version_received: self.version_received || message is Version,
        }
    }

    /// Whether both messages were received.
    pub open spec fn is_complete(self) -> bool {
        self.verack_received && self.version_received
    }
}

/// What to do after a message was received during the handshake.
#[derive(Debug)]
pub struct HandshakeStep {
    /// Hand the message to the node.
    pub forward: bool,
    /// Send this, and end the handshake.
    pub reply: Option<RawNetworkMessage>,
}

/// The port on which peers of a network listen. Networks without a port of their own share the
/// one of the regression test network.
pub open spec fn network_port(network: Network) -> u16 {
    match network {
        Network::Bitcoin => 8333,
        Network::Testnet4 => 18333,
        Network::Signet => 38333,
        _ => 18444,
    }
}

/// A peer, and how far the handshake with it has come.
pub struct Peer {
    port: u16,
    current_block: BlockIndex,
    network: Network,
    handshake: Handshake,
}

/// What a [`Peer`] holds.
pub ghost struct PeerView {
    pub port: u16,
    pub current_block: (int, Seq<u8>),
    pub network: Network,
    pub handshake: Handshake,
}

impl View for Peer {
    type V = PeerView;

    closed spec fn view(&self) -> PeerView {
        PeerView {
            port: self.port,
            current_block: self.current_block@,
            network: self.network,
            handshake: self.handshake,
        }
    }
}

impl Peer {
    /// A peer to connect to, for a node that has reached `current_block`.
    pub fn new(current_block: BlockIndex, network: Network) -> (peer: Peer)
        ensures
            peer@ == (PeerView {
                port: network_port(network),
                current_block: current_block@,
                network,
                handshake: Handshake { verack_received: false, version_received: false },
            }),
    {
        let port: u16 = match network {
            Network::Bitcoin => 8333,
            Network::Testnet4 => 18333,
            Network::Signet => 38333,
            _ => 18444,
        };
        Peer {
            port,
            current_block,
            network,
            handshake: Handshake { verack_received: false, version_received: false },
        }
    }

    /// The port on which the peer listens.
    pub fn port(&self) -> (port: u16)
        ensures
            port == self@.port,
    {
        self.port
    }

    /// Keeps `tip` as the last block that the node has.
    pub fn update_block(&mut self, tip: BlockIndex)
        ensures
            final(self)@ == (PeerView { current_block: tip@, ..old(self)@ }),
    {
        self.current_block = tip;
    }

    /// The message that opens the handshake with the peer at this address.
    pub fn open_handshake(&self, address: [u16; 8], port: u16, timestamp: i64) -> (message: Result<
        RawNetworkMessage,
        NodeError,
    >)
        ensures
            match message {
                Ok(message) => message.wf() && network_magic(self@.network) == Some(message@.magic)
                    && message@.payload == crate::message::NetworkMessageView::Version(
                    version_message(
                        address@,
                        port,
                        timestamp,
                        self@.current_block.0 as i32,
                    ),
                ),
                Err(error) => network_magic(self@.network) is None && error is NetworkNotSupported,
            },
    {
        let version = build_version_msg(address, port, timestamp, self.current_block.0);
        proof {
            lemma_version_fits(version@);
        }
        build_raw_network_msg(self.network, NetworkMessage::Version(version))
    }

    /// Takes a message that arrived during the handshake.
    pub fn peer_handshake(&mut self, message: &PeerMessage) -> (step: Result<
        HandshakeStep,
        NodeError,
    >)
        ensures
            final(self)@ == (PeerView {
                handshake: old(self)@.handshake.after(message@),
                ..old(self)@
            }),
            match step {
                Ok(step) => step.forward == (message@ is Version) && match step.reply {
                    Some(reply) => final(self)@.handshake.is_complete() && reply.wf()
                        && network_magic(old(self)@.network) == Some(reply@.magic) && reply@.payload
                        == crate::message::NetworkMessageView::Verack,
                    None => !final(self)@.handshake.is_complete(),
                },
                Err(error) => final(self)@.handshake.is_complete() && network_magic(
                    old(self)@.network,
                ) is None && error is NetworkNotSupported,
            },
    {
        let mut forward = false;
        match message {
            PeerMessage::Verack => self.handshake.verack_received = true,
            PeerMessage::Version { start_height: _ } => {
                self.handshake.version_received = true;
                forward = true;
            },
            // other messages are ignored during the handshake
            _ => {},
        }
        if self.handshake.verack_received && self.handshake.version_received {
            match build_raw_network_msg(self.network, NetworkMessage::Verack) {
                Ok(verack) => Ok(HandshakeStep { forward, reply: Some(verack) }),
                Err(error) => Err(error),
            }
        } else {
            Ok(HandshakeStep { forward, reply: None })
        }
    }
}

/// What the node tells its peers: the network it is on, and the last block it has.
pub struct PeerManager {
    block_height: BlockIndex,
    network: Network,
}

/// What a [`PeerManager`] holds.
pub ghost struct PeerManagerView {
    pub block_height: (int, Seq<u8>),
    pub network: Network,
}

impl View for PeerManager {
    type V = PeerManagerView;

    closed spec fn view(&self) -> PeerManagerView {
        PeerManagerView { block_height: self.block_height@, network: self.network }
    }
}

impl PeerManager {
    /// For a node on this network whose last block is `block_height`.
    pub fn new(block_height: BlockIndex, network: Network) -> (manager: PeerManager)
        ensures
            manager@ == (PeerManagerView { block_height: block_height@, network }),
    {
        PeerManager { block_height, network }
    }

    /// Keeps `tip` as the last block that the node has.
    pub fn update_block(&mut self, tip: BlockIndex)
        ensures
            final(self)@ == (PeerManagerView { block_height: tip@, ..old(self)@ }),
    {
        self.block_height = tip;
    }

    /// Begins to run: says where to look for peers, and gives the peer to connect to at the first
    /// address found there.
    pub fn run(&self) -> (peer: Result<(NodeSource, Peer), NodeError>)
        ensures
            match peer {
                Ok((source, peer)) => node_source(self@.network) == Some(source@) && peer@ == (
                PeerView {
                    port: network_port(self@.network),
                    current_block: self@.block_height,
                    network: self@.network,
                    handshake: Handshake { verack_received: false, version_received: false },
                }),
                Err(error) => node_source(self@.network) is None && error is NetworkNotSupported,
            },
    {
        match get_nodes(self.network) {
            Ok(source) => Ok((source, Peer::new(self.block_height, self.network))),
            Err(error) => Err(error),
        }
    }
}

/// The version message of the node is short.
proof fn lemma_version_fits(version: crate::message::VersionView)
    requires
        version.user_agent == "bitcoin-node"@,
        version.receiver.address.len() == 8,
        version.sender.address.len() == 8,
    ensures
        crate::wire::version_bytes(version).len() <= 1000,
{
    reveal_strlit("bitcoin-node");
    assert(vstd::utf8::is_ascii_chars(version.user_agent));
    vstd::utf8::is_ascii_chars_encode_utf8(version.user_agent);
    crate::wire::lemma_version_len(version);
}

} // verus!
