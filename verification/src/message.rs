//! The messages that the node exchanges with its peers.

use vstd::prelude::*;

use crate::header::{BlockHash, Header, HeaderView};

verus! {

/// The version of the peer-to-peer protocol that the node speaks.
pub const PROTOCOL_VERSION: u32 = 70001;

/// An object that a peer is asked for.
#[derive(Debug, Clone, Copy)]
pub enum Inventory {
    /// A block with its witness data.
    WitnessBlock(BlockHash),
}

impl View for Inventory {
    type V = Seq<u8>;

    /// The hash of the block asked for.
    open spec fn view(&self) -> Seq<u8> {
        match self {
            Inventory::WitnessBlock(hash) => hash@,
        }
    }
}

/// The hashes of the blocks that a list asks for.
pub open spec fn inventory_view(items: Seq<Inventory>) -> Seq<Seq<u8>> {
    items.map_values(|item: Inventory| item@)
}

/// The bytes of a list of hashes.
pub open spec fn hashes_view(hashes: Seq<BlockHash>) -> Seq<Seq<u8>> {
    hashes.map_values(|hash: BlockHash| hash@)
}

/// Where a peer is reached: its services, its IPv6 or mapped IPv4 address in eight words, and
/// its port.
#[derive(Debug, Clone, Copy)]
pub struct Address {
    pub services: u64,
    pub address: [u16; 8],
    pub port: u16,
}

/// What an [`Address`] holds.
pub ghost struct AddressView {
    pub services: u64,
    pub address: Seq<u16>,
    pub port: u16,
}

impl View for Address {
    type V = AddressView;

    open spec fn view(&self) -> AddressView {
        AddressView { services: self.services, address: self.address@, port: self.port }
    }
}

/// The message that opens a handshake.
#[derive(Debug, Clone)]
pub struct VersionMessage {
    pub version: u32,
    pub services: u64,
    pub timestamp: i64,
    pub receiver: Address,
    pub sender: Address,
    pub nonce: u64,
    pub user_agent: String,
    pub start_height: i32,
    pub relay: bool,
}

/// What a [`VersionMessage`] holds.
pub ghost struct VersionView {
    pub version: u32,
    pub services: u64,
    pub timestamp: i64,
    pub receiver: AddressView,
    pub sender: AddressView,
    pub nonce: u64,
    pub user_agent: Seq<char>,
    pub start_height: i32,
    pub relay: bool,
}

impl View for VersionMessage {
    type V = VersionView;

    open spec fn view(&self) -> VersionView {
        VersionView {
            version: self.version,
            services: self.services,
            timestamp: self.timestamp,
            receiver: self.receiver@,
            sender: self.sender@,
            nonce: self.nonce,
            user_agent: self.user_agent@,
            start_height: self.start_height,
            relay: self.relay,
        }
    }
}

/// The request for the headers that follow the first known locator hash.
#[derive(Debug, Clone)]
pub struct GetHeadersMessage {
    pub version: u32,
    pub locator_hashes: Vec<BlockHash>,
    pub stop_hash: BlockHash,
}

/// What a [`GetHeadersMessage`] holds.
pub ghost struct GetHeadersView {
    pub version: u32,
    pub locator_hashes: Seq<Seq<u8>>,
    pub stop_hash: Seq<u8>,
}

impl View for GetHeadersMessage {
    type V = GetHeadersView;

    open spec fn view(&self) -> GetHeadersView {
        GetHeadersView {
            version: self.version,
            locator_hashes: hashes_view(self.locator_hashes@),
            stop_hash: self.stop_hash@,
        }
    }
}

/// A message that the node sends.
#[derive(Debug, Clone)]
pub enum NetworkMessage {
    Version(VersionMessage),
    Verack,
    GetHeaders(GetHeadersMessage),
    GetData(Vec<Inventory>),
}

/// What a [`NetworkMessage`] holds.
pub ghost enum NetworkMessageView {
    Version(VersionView),
    Verack,
    GetHeaders(GetHeadersView),
    GetData(Seq<Seq<u8>>),
}

impl View for NetworkMessage {
    type V = NetworkMessageView;

    open spec fn view(&self) -> NetworkMessageView {
        match self {
            NetworkMessage::Version(version) => NetworkMessageView::Version(version@),
            NetworkMessage::Verack => NetworkMessageView::Verack,
            NetworkMessage::GetHeaders(request) => NetworkMessageView::GetHeaders(request@),
            NetworkMessage::GetData(items) => NetworkMessageView::GetData(inventory_view(items@)),
        }
    }
}

/// A message that a peer sent, as far as the node reads it.
#[derive(Debug, Clone)]
pub enum PeerMessage {
    /// The peer's version message, with the height that the peer has reached.
    Version { start_height: i32 },
    Verack,
    Headers(Vec<Header>),
    /// A block in its serialised form.
    Block(Vec<u8>),
    Inv,
    /// Any message that the node does not act on.
    Other,
}

/// What a [`PeerMessage`] holds.
pub ghost enum PeerMessageView {
    Version { start_height: i32 },
    Verack,
    Headers(Seq<HeaderView>),
    Block(Seq<u8>),
    Inv,
    Other,
}

/// What a list of headers holds.
pub open spec fn headers_view(headers: Seq<Header>) -> Seq<HeaderView> {
    headers.map_values(|header: Header| header@)
}

impl View for PeerMessage {
    type V = PeerMessageView;

    open spec fn view(&self) -> PeerMessageView {
        match self {
            PeerMessage::Version { start_height } => PeerMessageView::Version {
                start_height: *start_height,
            },
            PeerMessage::Verack => PeerMessageView::Verack,
            PeerMessage::Headers(headers) => PeerMessageView::Headers(headers_view(headers@)),
            PeerMessage::Block(bytes) => PeerMessageView::Block(bytes@),
            PeerMessage::Inv => PeerMessageView::Inv,
            PeerMessage::Other => PeerMessageView::Other,
        }
    }
}

/// A message with the magic bytes of the network that it is meant for.
#[derive(Debug, Clone)]
pub struct RawNetworkMessage {
    magic: [u8; 4],
    payload: NetworkMessage,
}

/// What a [`RawNetworkMessage`] holds.
pub ghost struct RawMessageView {
    pub magic: Seq<u8>,
    pub payload: NetworkMessageView,
}

impl View for RawNetworkMessage {
    type V = RawMessageView;

    closed spec fn view(&self) -> RawMessageView {
        RawMessageView { magic: self.magic@, payload: self.payload@ }
    }
}

impl RawNetworkMessage {
    /// The payload has a length that the frame can say.
    pub closed spec fn wf(&self) -> bool {
        crate::wire::fits(self.payload@)
    }

    /// A message with these magic bytes. Its payload must have a length that the frame can say.
    pub fn new(magic: [u8; 4], payload: NetworkMessage) -> (message: RawNetworkMessage)
        requires
            crate::wire::fits(payload@),
        ensures
            message.wf(),
            message@ == (RawMessageView { magic: magic@, payload: payload@ }),
    {
        RawNetworkMessage { magic, payload }
    }

    /// The message that is sent.
    pub fn payload(&self) -> (payload: &NetworkMessage)
        ensures
            payload@ == self@.payload,
    {
        &self.payload
    }

    /// The magic bytes of the network that the message is meant for.
    pub fn magic(&self) -> (magic: [u8; 4])
        ensures
            magic@ == self@.magic,
    {
        self.magic
    }

    /// The bytes that go over the connection. A node that reads the two messages of a handshake
    /// from them reads what was sent.
    pub fn serialize(&self) -> (bytes: Vec<u8>)
        requires
            self.wf(),
        ensures
            bytes@ == crate::wire::encoded(self@),
            bytes@.len() == 24 + crate::wire::payload_bytes(self@.payload).len(),
            self@.payload is Verack ==> crate::wire::decoded_message(bytes@) == Some(
                PeerMessageView::Verack,
            ),
            self@.payload matches NetworkMessageView::Version(version) ==> bytes@.len() <= 1_000_000
                ==> crate::wire::decoded_message(bytes@) == Some(
                PeerMessageView::Version { start_height: version.start_height },
            ),
    {
        match &self.payload {
            NetworkMessage::Version(version) => crate::wire::encode_version(self.magic, version),
            NetworkMessage::Verack => crate::wire::encode_verack(self.magic),
            NetworkMessage::GetHeaders(request) => crate::wire::encode_get_headers(
                self.magic,
                request,
            ),
            NetworkMessage::GetData(items) => crate::wire::encode_get_data(self.magic, items),
        }
    }
}

/// What is sent is a frame: the magic bytes, the length of the payload in its place, and after 24
/// bytes the payload and nothing more. Each kind of message has a name of its own in the frame.
pub proof fn law_frame(message: &RawNetworkMessage, bytes: Vec<u8>)
    requires
        message.wf(),
        call_ensures(RawNetworkMessage::serialize, (message,), bytes),
    ensures
        message@.magic.len() == 4,
        bytes@.take(4) == message@.magic,
        crate::bytes::le_value(bytes@.subrange(16, 20)) == bytes@.len() - 24,
        bytes@.skip(24) == crate::wire::payload_bytes(message@.payload),
        bytes@[7] == (match message@.payload {
            NetworkMessageView::Version(_) => 's',
            NetworkMessageView::Verack => 'a',
            NetworkMessageView::GetHeaders(_) => 'h',
            NetworkMessageView::GetData(_) => 'd',
        }) as u8,
{
    let payload = crate::wire::payload_bytes(message@.payload);
    let checksum = crate::wire::payload_checksum(payload);
    assert(message@.magic == message.magic@);
    crate::bytes::lemma_le_bytes_len(payload.len(), 4);
    assert(vstd::arithmetic::power::pow(256, 4) == 0x1_0000_0000) by {
        reveal_with_fuel(vstd::arithmetic::power::pow, 5);
    }
    crate::bytes::lemma_le_value_of_bytes(payload.len(), 4);
    assert(bytes@.take(4) =~= message@.magic);
    assert(bytes@.subrange(16, 20) =~= crate::bytes::le_bytes(payload.len(), 4));
    assert(checksum.len() == 4);
    assert(bytes@.skip(24) =~= payload);
    reveal_strlit("version");
    reveal_strlit("verack");
    reveal_strlit("getheaders");
    reveal_strlit("getdata");
}

} // verus!
