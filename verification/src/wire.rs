//! The bytes of messages on the wire, as the `bitcoin` crate writes and reads them.

use bitcoin::consensus::Decodable;
use bitcoin::hashes::Hash as HashBytes;
use bitcoin::p2p::message::NetworkMessage as Payload;
use bitcoin::p2p::message::RawNetworkMessage as Framed;
use bitcoin::p2p::message_blockdata::Inventory as Item;
use vstd::prelude::*;

use crate::header::Header;
use crate::message::{
    Address, AddressView, GetHeadersMessage, GetHeadersView, Inventory, NetworkMessageView,
    PeerMessage, PeerMessageView, RawMessageView, VersionMessage, VersionView,
};

verus! {

/// The checksum that `bitcoin::p2p::message::RawNetworkMessage::new` computes of a payload: the
/// first four bytes of its double SHA-256.
pub uninterp spec fn payload_checksum(payload: Seq<u8>) -> Seq<u8>;

/// The result of `bitcoin::p2p::message::RawNetworkMessage::consensus_decode` on these bytes,
/// as far as the node reads it; `None` where it fails. A block is given in the form that
/// `bitcoin::consensus::serialize` writes it in.
pub uninterp spec fn decoded_message(bytes: Seq<u8>) -> Option<PeerMessageView>;

/// The result of two calls in a row on these bytes: `bitcoin::consensus::deserialize` reads a
/// block, `None` where it fails, and `serde_json::to_string_pretty` shows it as text.
pub uninterp spec fn block_text_of(bytes: Seq<u8>) -> Option<Seq<char>>;

/// The prefix that says how many items follow.
pub open spec fn compact_size(n: nat) -> Seq<u8> {
    if n < 0xfd {
        seq![n as u8]
    } else if n <= 0xffff {
        seq![0xfdu8] + crate::bytes::le_bytes(n, 2)
    } else if n <= 0xffff_ffff {
        seq![0xfeu8] + crate::bytes::le_bytes(n, 4)
    } else {
        seq![0xffu8] + crate::bytes::le_bytes(n, 8)
    }
}

/// A sixteen bit number, most significant byte first.
pub open spec fn be_word(word: u16) -> Seq<u8> {
    seq![(word / 256) as u8, (word % 256) as u8]
}

/// The byte sequences one after another.
pub open spec fn joined(parts: Seq<Seq<u8>>) -> Seq<u8> {
    parts.flatten()
}

/// An address on the wire.
pub open spec fn address_bytes(address: AddressView) -> Seq<u8> {
    crate::bytes::le_bytes(address.services as nat, 8) + joined(
        address.address.map_values(|word: u16| be_word(word)),
    ) + be_word(address.port)
}

/// A version message on the wire. Signed numbers are in two's complement.
pub open spec fn version_bytes(version: VersionView) -> Seq<u8> {
    let user_agent = vstd::utf8::encode_utf8(version.user_agent);
    crate::bytes::le_bytes(version.version as nat, 4) + crate::bytes::le_bytes(
        version.services as nat,
        8,
    ) + crate::bytes::le_bytes((version.timestamp as int % 0x1_0000_0000_0000_0000) as nat, 8)
        + address_bytes(version.receiver) + address_bytes(version.sender) + crate::bytes::le_bytes(
        version.nonce as nat,
        8,
    ) + compact_size(user_agent.len()) + user_agent + crate::bytes::le_bytes(
        (version.start_height as int % 0x1_0000_0000) as nat,
        4,
    ) + seq![
        if version.relay {
            1u8
        } else {
            0u8
        },
    ]
}

/// A request for headers on the wire.
pub open spec fn get_headers_bytes(request: GetHeadersView) -> Seq<u8> {
    crate::bytes::le_bytes(request.version as nat, 4) + compact_size(request.locator_hashes.len())
        + joined(request.locator_hashes) + request.stop_hash
}

/// A request for blocks with their witness data on the wire: the type of such an object, and its
/// hash.
pub open spec fn get_data_bytes(hashes: Seq<Seq<u8>>) -> Seq<u8> {
    compact_size(hashes.len()) + joined(
        hashes.map_values(|hash: Seq<u8>| crate::bytes::le_bytes(0x4000_0002, 4) + hash),
    )
}

/// Parts of one length give a multiple of that length.
pub proof fn lemma_joined_len(parts: Seq<Seq<u8>>, len: nat)
    requires
        forall|i: int| 0 <= i < parts.len() ==> (#[trigger] parts[i]).len() == len,
    ensures
        joined(parts).len() == len * parts.len(),
    decreases parts.len(),
{
    if parts.len() > 0 {
        let rest = parts.drop_first();
        assert forall|i: int| 0 <= i < rest.len() implies (#[trigger] rest[i]).len() == len by {
            assert(rest[i] == parts[i + 1]);
        }
        lemma_joined_len(rest, len);
        assert(parts[0].len() == len);
        assert(len * parts.len() == len + len * rest.len()) by (nonlinear_arith)
            requires
                parts.len() == rest.len() + 1,
        ;
    } else {
        assert(len * parts.len() == 0) by (nonlinear_arith)
            requires
                parts.len() == 0,
        ;
    }
}

/// A count is at most nine bytes long, and one of more than 16 bits at least five.
proof fn lemma_compact_size_len(n: nat)
    ensures
        1 <= compact_size(n).len() <= 9,
        n > 0xffff ==> compact_size(n).len() >= 5,
{
    crate::bytes::lemma_le_bytes_len(n, 2);
    crate::bytes::lemma_le_bytes_len(n, 4);
    crate::bytes::lemma_le_bytes_len(n, 8);
}

/// Each block that is asked for takes 36 bytes.
pub proof fn lemma_get_data_len(hashes: Seq<Seq<u8>>)
    requires
        forall|i: int| 0 <= i < hashes.len() ==> (#[trigger] hashes[i]).len() == 32,
    ensures
        get_data_bytes(hashes).len() <= 9 + 36 * hashes.len(),
        hashes.len() > 0xffff ==> get_data_bytes(hashes).len() >= 5 + 36 * hashes.len(),
{
    crate::bytes::lemma_le_bytes_len(0x4000_0002, 4);
    lemma_compact_size_len(hashes.len());
    let items = hashes.map_values(
        |hash: Seq<u8>| crate::bytes::le_bytes(0x4000_0002, 4) + hash,
    );
    assert forall|i: int| 0 <= i < items.len() implies (#[trigger] items[i]).len() == 36 by {
        assert(hashes[i].len() == 32);
    }
    lemma_joined_len(items, 36);
}

/// Each locator hash takes 32 bytes.
pub proof fn lemma_get_headers_len(request: GetHeadersView)
    requires
        forall|i: int|
            0 <= i < request.locator_hashes.len() ==> (
            #[trigger] request.locator_hashes[i]).len() == 32,
        request.stop_hash.len() == 32,
    ensures
        get_headers_bytes(request).len() <= 45 + 32 * request.locator_hashes.len(),
{
    crate::bytes::lemma_le_bytes_len(request.version as nat, 4);
    lemma_compact_size_len(request.locator_hashes.len());
    lemma_joined_len(request.locator_hashes, 32);
}

/// An address takes 26 bytes.
proof fn lemma_address_len(address: AddressView)
    requires
        address.address.len() == 8,
    ensures
        address_bytes(address).len() == 26,
{
    crate::bytes::lemma_le_bytes_len(address.services as nat, 8);
    let words = address.address.map_values(|word: u16| be_word(word));
    assert forall|i: int| 0 <= i < words.len() implies (#[trigger] words[i]).len() == 2 by {}
    lemma_joined_len(words, 2);
}

/// A version message takes 85 bytes and its user agent.
pub proof fn lemma_version_len(version: VersionView)
    requires
        version.receiver.address.len() == 8,
        version.sender.address.len() == 8,
    ensures
        version_bytes(version).len() <= 94 + vstd::utf8::encode_utf8(version.user_agent).len(),
{
    crate::bytes::lemma_le_bytes_len(version.version as nat, 4);
    crate::bytes::lemma_le_bytes_len(version.services as nat, 8);
    crate::bytes::lemma_le_bytes_len(
        (version.timestamp as int % 0x1_0000_0000_0000_0000) as nat,
        8,
    );
    crate::bytes::lemma_le_bytes_len(version.nonce as nat, 8);
    crate::bytes::lemma_le_bytes_len((version.start_height as int % 0x1_0000_0000) as nat, 4);
    lemma_address_len(version.receiver);
    lemma_address_len(version.sender);
    lemma_compact_size_len(vstd::utf8::encode_utf8(version.user_agent).len());
}

/// The payload of a message on the wire.
pub open spec fn payload_bytes(message: NetworkMessageView) -> Seq<u8> {
    match message {
        NetworkMessageView::Version(version) => version_bytes(version),
        NetworkMessageView::Verack => seq![],
        NetworkMessageView::GetHeaders(request) => get_headers_bytes(request),
        NetworkMessageView::GetData(hashes) => get_data_bytes(hashes),
    }
}

/// The name of a message on the wire.
pub open spec fn command(message: NetworkMessageView) -> Seq<char> {
    match message {
        NetworkMessageView::Version(_) => "version"@,
        NetworkMessageView::Verack => "verack"@,
        NetworkMessageView::GetHeaders(_) => "getheaders"@,
        NetworkMessageView::GetData(_) => "getdata"@,
    }
}

/// Whether the length of the payload can be said in four bytes.
pub open spec fn fits(message: NetworkMessageView) -> bool {
    payload_bytes(message).len() <= u32::MAX
}

/// A message on the wire: the magic bytes, the command padded with zeros to twelve bytes, the
/// length of the payload, its checksum, and the payload.
pub open spec fn frame(
    magic: Seq<u8>,
    command: Seq<char>,
    payload: Seq<u8>,
    checksum: Seq<u8>,
) -> Seq<u8> {
    magic + Seq::new(
        12,
        |i: int|
            if i < command.len() {
                command[i] as u8
            } else {
                0u8
            },
    ) + crate::bytes::le_bytes(payload.len(), 4) + checksum + payload
}

/// A message on the wire.
pub open spec fn encoded(message: RawMessageView) -> Seq<u8> {
    let payload = payload_bytes(message.payload);
    frame(message.magic, command(message.payload), payload, payload_checksum(payload))
}

/// Calls `bitcoin::p2p::message::RawNetworkMessage::new` and `bitcoin::consensus::serialize` on a
/// version message with these fields. The result is the frame of its bytes, with a checksum of
/// four bytes, and unless it is larger than a message may be, it is read back as a version
/// message with this start height. A payload whose length four bytes cannot say would panic.
#[verifier::external_body]
pub(crate) fn encode_version(magic: [u8; 4], version: &VersionMessage) -> (bytes: Vec<u8>)
    requires
        version_bytes(version@).len() <= u32::MAX,
    ensures
        bytes@ == frame(
            magic@,
            "version"@,
            version_bytes(version@),
            payload_checksum(version_bytes(version@)),
        ),
        bytes@.len() == 24 + version_bytes(version@).len(),
        bytes@.len() <= 1_000_000 ==> decoded_message(bytes@) == Some(
            PeerMessageView::Version { start_height: version.start_height },
        ),
{
    let address = |a: &Address| {
        bitcoin::p2p::Address { services: a.services.into(), address: a.address, port: a.port }
    };
    let mut message = bitcoin::p2p::message_network::VersionMessage::new(
        version.services.into(),
        version.timestamp,
        address(&version.receiver),
        address(&version.sender),
        version.nonce,
        version.user_agent.clone(),
        version.start_height,
    );
    (message.version, message.relay) = (version.version, version.relay);
    let magic = bitcoin::p2p::Magic::from_bytes(magic);
    bitcoin::consensus::serialize(&Framed::new(magic, Payload::Version(message)))
}

/// Calls `bitcoin::p2p::message::RawNetworkMessage::new` and `bitcoin::consensus::serialize` on a
/// `verack` message. The result is a frame with an empty payload and a checksum of four bytes,
/// and it is read back as a `verack` message.
#[verifier::external_body]
pub(crate) fn encode_verack(magic: [u8; 4]) -> (bytes: Vec<u8>)
    ensures
        bytes@ == frame(magic@, "verack"@, seq![], payload_checksum(seq![])),
        bytes@.len() == 24,
        decoded_message(bytes@) == Some(PeerMessageView::Verack),
{
    let magic = bitcoin::p2p::Magic::from_bytes(magic);
    bitcoin::consensus::serialize(&Framed::new(magic, Payload::Verack))
}

/// Calls `bitcoin::p2p::message::RawNetworkMessage::new` and `bitcoin::consensus::serialize` on a
/// `getheaders` message with these fields. The result is the frame of its bytes, with a checksum
/// of four bytes. A payload whose length four bytes cannot say would panic.
#[verifier::external_body]
pub(crate) fn encode_get_headers(magic: [u8; 4], request: &GetHeadersMessage) -> (bytes: Vec<u8>)
    requires
        get_headers_bytes(request@).len() <= u32::MAX,
    ensures
        bytes@ == frame(
            magic@,
            "getheaders"@,
            get_headers_bytes(request@),
            payload_checksum(get_headers_bytes(request@)),
        ),
        bytes@.len() == 24 + get_headers_bytes(request@).len(),
{
    let hash = |hash: &[u8; 32]| bitcoin::BlockHash::from_byte_array(*hash);
    let message = bitcoin::p2p::message_blockdata::GetHeadersMessage {
        version: request.version,
        locator_hashes: request.locator_hashes.iter().map(hash).collect(),
        stop_hash: hash(&request.stop_hash),
    };
    let magic = bitcoin::p2p::Magic::from_bytes(magic);
    bitcoin::consensus::serialize(&Framed::new(magic, Payload::GetHeaders(message)))
}

/// Calls `bitcoin::p2p::message::RawNetworkMessage::new` and `bitcoin::consensus::serialize` on a
/// `getdata` message for these objects. The result is the frame of its bytes, with a checksum of
/// four bytes. A payload whose length four bytes cannot say would panic.
#[verifier::external_body]
pub(crate) fn encode_get_data(magic: [u8; 4], items: &Vec<Inventory>) -> (bytes: Vec<u8>)
    requires
        get_data_bytes(crate::message::inventory_view(items@)).len() <= u32::MAX,
    ensures
        bytes@ == frame(
            magic@,
            "getdata"@,
            get_data_bytes(crate::message::inventory_view(items@)),
            payload_checksum(get_data_bytes(crate::message::inventory_view(items@))),
        ),
        bytes@.len() == 24 + get_data_bytes(crate::message::inventory_view(items@)).len(),
{
    let item = |Inventory::WitnessBlock(hash): &Inventory| {
        Item::WitnessBlock(bitcoin::BlockHash::from_byte_array(*hash))
    };
    let message = Payload::GetData(items.iter().map(item).collect());
    let magic = bitcoin::p2p::Magic::from_bytes(magic);
    bitcoin::consensus::serialize(&Framed::new(magic, message))
}

/// Calls `bitcoin::p2p::Magic::consensus_decode`: it takes the first four bytes as they are, and
/// fails where there are fewer.
#[verifier::external_body]
pub(crate) fn decode_magic(bytes: &[u8]) -> (magic: Result<
    [u8; 4],
    bitcoin::consensus::encode::Error,
>)
    ensures
        magic is Ok == (bytes@.len() >= 4),
        magic matches Ok(magic) ==> magic@ == bytes@.take(4),
{
    Ok(bitcoin::p2p::Magic::consensus_decode(&mut &bytes[..])?.to_bytes())
}

/// The bytes without the zeros at their end.
pub open spec fn trimmed(bytes: Seq<u8>) -> Seq<u8>
    decreases bytes.len(),
{
    if bytes.len() > 0 && bytes.last() == 0 {
        trimmed(bytes.drop_last())
    } else {
        bytes
    }
}

/// Whether all bytes are ASCII characters.
pub open spec fn ascii(bytes: Seq<u8>) -> bool {
    forall|i: int| 0 <= i < bytes.len() ==> #[trigger] bytes[i] < 0x80
}

/// The characters of ASCII bytes.
pub open spec fn characters(bytes: Seq<u8>) -> Seq<char> {
    bytes.map_values(|byte: u8| byte as char)
}

/// Calls `bitcoin::p2p::message::CommandString::consensus_decode`: it takes the first twelve
/// bytes without the zeros at their end, and fails where there are fewer, or where one of them
/// is not ASCII.
#[verifier::external_body]
pub(crate) fn decode_command(bytes: &[u8]) -> (text: Result<
    String,
    bitcoin::consensus::encode::Error,
>)
    ensures
        text is Ok == (bytes@.len() >= 12 && ascii(bytes@.take(12))),
        text matches Ok(command) ==> command@ == characters(trimmed(bytes@.take(12))),
{
    let command = bitcoin::p2p::message::CommandString::consensus_decode(&mut &bytes[..])?;
    Ok(command.as_ref().to_owned())
}

/// Calls `u32::consensus_decode` of `bitcoin::consensus::Decodable`: it reads the first four
/// bytes, least significant byte first, and fails where there are fewer.
#[verifier::external_body]
pub(crate) fn decode_u32(bytes: &[u8]) -> (number: Result<u32, bitcoin::consensus::encode::Error>)
    ensures
        number is Ok == (bytes@.len() >= 4),
        number matches Ok(number) ==> number == crate::bytes::le_value(bytes@.take(4)),
{
    u32::consensus_decode(&mut &bytes[..])
}

/// Calls `bitcoin::p2p::message::RawNetworkMessage::consensus_decode`, and
/// `bitcoin::consensus::serialize` on the block of a `block` message. The result is the name
/// [`decoded_message`] applied to the bytes.
#[verifier::external_body]
pub(crate) fn decode_message(bytes: &[u8]) -> (message: Result<
    PeerMessage,
    bitcoin::consensus::encode::Error,
>)
    ensures
        decoded_message(bytes@) == (match message {
            Ok(message) => Some(message@),
            Err(_) => None,
        }),
{
    let raw = Framed::consensus_decode(&mut &bytes[..])?;
    Ok(match raw.into_payload() {
        Payload::Version(version) => PeerMessage::Version { start_height: version.start_height },
        Payload::Verack => PeerMessage::Verack,
        Payload::Headers(headers) => PeerMessage::Headers(headers.into_iter().map(|h| Header {
            version: h.version.to_consensus(), prev_blockhash: h.prev_blockhash.to_byte_array(),
            merkle_root: h.merkle_root.to_byte_array(), time: h.time,
            bits: h.bits.to_consensus(), nonce: h.nonce,
        }).collect()),
        Payload::Block(block) => PeerMessage::Block(bitcoin::consensus::serialize(&block)),
        Payload::Inv(_) => PeerMessage::Inv,
        _ => PeerMessage::Other,
    })
}

/// Calls `bitcoin::consensus::deserialize` for a block, and `serde_json::to_string_pretty` on it.
/// The result is the name [`block_text_of`] applied to the bytes: what stands between the two
/// calls is a value of which nothing is visible here. Writing a block as text does not fail.
#[verifier::external_body]
pub(crate) fn block_json(bytes: &[u8]) -> (text: Result<String, bitcoin::consensus::encode::Error>)
    ensures
        block_text_of(bytes@) == (match text {
            Ok(text) => Some(text@),
            Err(_) => None,
        }),
{
    let block: bitcoin::Block = bitcoin::consensus::deserialize(bytes)?;
    Ok(serde_json::to_string_pretty(&block).unwrap())
}

} // verus!
