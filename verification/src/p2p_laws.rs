//! What holds of connections to peers.

use vstd::prelude::*;

use crate::message::{PeerMessageView, RawMessageView};
use crate::network::{BitcoinNetwork, Network};
use crate::p2p::Handshake;

verus! {

/// The network that a user's choice stands for.
pub open spec fn chosen(network: BitcoinNetwork) -> Network {
    vstd::std_specs::convert::FromSpec::from_spec(network)
}

/// Every network that a user can choose is supported: messages can be addressed to it, and its
/// peers can be found.
pub proof fn law_chosen_networks_are_supported(network: BitcoinNetwork)
    ensures
        crate::p2p::network_magic(chosen(network)) is Some,
        crate::p2p::node_source(chosen(network)) is Some,
{
}

/// Messages for one network are not taken for messages for another, nor does the node look for
/// the peers of one network where those of another are.
pub proof fn law_networks_are_kept_apart(left: Network, right: Network)
    requires
        left != right,
        crate::p2p::network_magic(left) is Some,
        crate::p2p::network_magic(right) is Some,
    ensures
        crate::p2p::network_magic(left) != crate::p2p::network_magic(right),
        crate::p2p::node_source(left) != crate::p2p::node_source(right),
        crate::p2p::network_port(left) != crate::p2p::network_port(right),
{
    let a = crate::p2p::network_magic(left).unwrap();
    let b = crate::p2p::network_magic(right).unwrap();
    assert(a[0] != b[0]);
    reveal_strlit("seed.bitcoin.sipa.be.");
    reveal_strlit("seed.testnet4.bitcoin.sprovoost.nl.");
    reveal_strlit("seed.signet.bitcoin.sprovoost.nl.");
    assert("seed.bitcoin.sipa.be."@.len() == 21);
    assert("seed.testnet4.bitcoin.sprovoost.nl."@.len() == 35);
    assert("seed.signet.bitcoin.sprovoost.nl."@.len() == 33);
}

/// A handshake after a list of messages.
pub open spec fn after_all(handshake: Handshake, messages: Seq<PeerMessageView>) -> Handshake
    decreases messages.len(),
{
    if messages.len() == 0 {
        handshake
    } else {
        after_all(handshake, messages.drop_last()).after(messages.last())
    }
}

/// A handshake is complete as soon as a `version` and a `verack` message were received, in
/// either order, and whatever came between.
pub proof fn law_handshake_waits_for_both(messages: Seq<PeerMessageView>)
    ensures
        after_all(
            Handshake { verack_received: false, version_received: false },
            messages,
        ).is_complete() <==> (exists|i: int|
            0 <= i < messages.len() && #[trigger] messages[i] is Verack) && (exists|i: int|
            0 <= i < messages.len() && #[trigger] messages[i] is Version),
{
    lemma_received(messages);
}

/// What was received is what came in.
proof fn lemma_received(messages: Seq<PeerMessageView>)
    ensures
        ({
            let handshake = after_all(
                Handshake { verack_received: false, version_received: false },
                messages,
            );
            &&& handshake.verack_received <==> exists|i: int|
                0 <= i < messages.len() && #[trigger] messages[i] is Verack
            &&& handshake.version_received <==> exists|i: int|
                0 <= i < messages.len() && #[trigger] messages[i] is Version
        }),
    decreases messages.len(),
{
    if messages.len() > 0 {
        let init = messages.drop_last();
        lemma_received(init);
        assert forall|i: int| 0 <= i < init.len() implies init[i] == #[trigger] messages[i] by {}
        assert(messages[messages.len() - 1] == messages.last());
        if exists|i: int| 0 <= i < init.len() && #[trigger] init[i] is Verack {
            let i = choose|i: int| 0 <= i < init.len() && #[trigger] init[i] is Verack;
            assert(messages[i] is Verack);
        }
        if exists|i: int| 0 <= i < init.len() && #[trigger] init[i] is Version {
            let i = choose|i: int| 0 <= i < init.len() && #[trigger] init[i] is Version;
            assert(messages[i] is Version);
        }
    }
}

/// The reader takes a written message whole: the first bytes of what is written announce the
/// number of bytes that follow them.
pub proof fn law_reader_takes_whole_message(message: RawMessageView, bytes: Seq<u8>)
    requires
        message.magic.len() == 4,
        crate::wire::fits(message.payload),
        bytes == crate::wire::encoded(message),
        bytes.len() == 24 + crate::wire::payload_bytes(message.payload).len(),
    ensures
        crate::p2p::announced_length(bytes.take(24)) == Some((bytes.len() - 24) as nat),
        bytes.skip(24) == crate::wire::payload_bytes(message.payload),
        bytes.take(24) + bytes.skip(24) == bytes,
{
    let payload = crate::wire::payload_bytes(message.payload);
    let command = crate::wire::command(message.payload);
    let header = bytes.take(24);
    crate::bytes::lemma_le_bytes_len(payload.len(), 4);
    assert(vstd::arithmetic::power::pow(256, 4) == 0x1_0000_0000) by {
        reveal_with_fuel(vstd::arithmetic::power::pow, 5);
    }
    crate::bytes::lemma_le_value_of_bytes(payload.len(), 4);
    assert(header.subrange(16, 20) =~= crate::bytes::le_bytes(payload.len(), 4));
    reveal_strlit("version");
    reveal_strlit("verack");
    reveal_strlit("getheaders");
    reveal_strlit("getdata");
    assert forall|i: int| 0 <= i < 12 implies #[trigger] header.subrange(4, 16)[i] < 0x80 by {
        assert(header.subrange(4, 16)[i] == if i < command.len() {
            command[i] as u8
        } else {
            0u8
        });
        if i < command.len() {
            assert((command[i] as u32) < 0x80);
        }
    }
    assert(bytes.skip(24) =~= payload);
    assert(bytes.take(24) + bytes.skip(24) =~= bytes);
}

} // verus!
