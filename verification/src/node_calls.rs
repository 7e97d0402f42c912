//! What calls on the node give, in terms of what goes in and what comes out.

use vstd::prelude::*;

use crate::error::{HeaderChainError, HeaderValidationError, NodeError};
use crate::header::{BlockHash, BlockHeader, BlockHeaderView, BlockIndex, HeaderView};
use crate::header_chain::{CheckedHeader, HeadersChain, HeadersChainView};
use crate::message::{
    Inventory, NetworkMessageView, PeerMessage, PeerMessageView, RawNetworkMessage,
};
use crate::network::{BitcoinNetwork, Network};
use crate::node::{Action, HeaderSyncState, IBDState, Node, NodeView, SyncState, SyncView};
use crate::p2p::{Peer, PeerManager};

verus! {

/// Whether a message carries the magic bytes of a network.
pub open spec fn goes_to(raw: RawNetworkMessage, network: Network) -> bool {
    raw.wf() && match network {
        Network::Bitcoin => raw@.magic == seq![0xf9u8, 0xbe, 0xb4, 0xd9],
        Network::Testnet4 => raw@.magic == seq![0x1cu8, 0x16, 0x3f, 0x28],
        Network::Signet => raw@.magic == seq![0x0au8, 0x03, 0xcf, 0x40],
        Network::Regtest => raw@.magic == seq![0xfau8, 0xbf, 0xb5, 0xda],
        Network::Testnet => false,
    }
}

/// Whether a message asks for all headers that the peer has after the first of these hashes that
/// it knows.
pub open spec fn asks_for_headers(
    raw: RawNetworkMessage,
    network: Network,
    locator_hashes: Seq<Seq<u8>>,
) -> bool {
    &&& goes_to(raw, network)
    &&& raw@.payload matches NetworkMessageView::GetHeaders(request)
    &&& request.version == 70001
    &&& request.locator_hashes == locator_hashes
    &&& request.stop_hash.len() == 32
    &&& forall|i: int| 0 <= i < 32 ==> #[trigger] request.stop_hash[i] == 0
}

/// Whether a message asks for the blocks with these hashes.
pub open spec fn asks_for_blocks(
    raw: RawNetworkMessage,
    network: Network,
    hashes: Seq<Seq<u8>>,
) -> bool {
    goes_to(raw, network) && raw@.payload == NetworkMessageView::GetData(hashes)
}

/// Whether `outcome` asks for the blocks after a known block, along the links and five hundred at
/// most, or says that the block is not known.
pub open spec fn asks_for_batch(
    outcome: Result<RawNetworkMessage, NodeError>,
    chain: HeadersChainView,
    network: Network,
    hash: Seq<u8>,
) -> bool {
    &&& outcome is Ok <==> chain.headers.contains_key(hash)
    &&& outcome matches Ok(raw) ==> {
        &&& raw@.payload matches NetworkMessageView::GetData(hashes)
        &&& asks_for_blocks(raw, network, hashes)
        &&& crate::header_calls::listed_after(chain.headers, hash, hashes, 500)
    }
    &&& outcome matches Err(error) ==> error == NodeError::HeaderChainError(
        HeaderChainError::ValidationError(HeaderValidationError::PrevBlockNotFound),
    )
}

/// A message that is addressed to a network goes there.
proof fn lemma_addressed(raw: RawNetworkMessage, network: Network, payload: NetworkMessageView)
    requires
        crate::node::addressed(raw, network, payload),
    ensures
        goes_to(raw, network),
        raw@.payload == payload,
{
}

/// The request for a batch is what it is taken for.
proof fn lemma_blocks_requested(
    outcome: Result<RawNetworkMessage, NodeError>,
    node: NodeView,
    hash: Seq<u8>,
)
    requires
        crate::node::blocks_requested(outcome, node, hash),
    ensures
        asks_for_batch(outcome, node.chain, node.network, hash),
{
    crate::header_calls::law_walk_follows_links(node.chain.headers, hash, 500);
}

/// The state shows all that it holds.
pub proof fn law_view_of_sync_state(state: SyncState)
    ensures
        state matches SyncState::IBD(IBDState::HeaderSync(progress)) ==> state@
            == (SyncView::HeaderSync {
            target: progress.target_height as int,
            current: progress.current_sync_height as int,
        }),
        state matches SyncState::IBD(IBDState::BlockSync(block)) ==> state@ == SyncView::BlockSync(
            (block.0 as int, block.1@),
        ),
        state matches SyncState::InSync(block) ==> state@ == SyncView::InSync(
            (block.0 as int, block.1@),
        ),
{
}

/// What a peer sent shows all that it holds.
pub proof fn law_view_of_peer_message(message: PeerMessage)
    ensures
        message matches PeerMessage::Version { start_height } ==> message@
            == (PeerMessageView::Version { start_height }),
        message is Verack <==> message@ is Verack,
        message is Inv <==> message@ is Inv,
        message is Other <==> message@ is Other,
        message matches PeerMessage::Block(bytes) ==> message@ == PeerMessageView::Block(bytes@),
        message matches PeerMessage::Headers(headers) ==> {
            &&& message@ matches PeerMessageView::Headers(view)
            &&& view.len() == headers@.len()
            &&& forall|i: int| 0 <= i < view.len() ==> #[trigger] view[i] == headers@[i]@
        },
{
}

/// A node starts with the headers where it has none, goes on with the blocks where its headers
/// reach further, and has else caught up; and it tells its peers accordingly.
pub proof fn law_new_node(
    network: BitcoinNetwork,
    headers_chain: HeadersChain,
    chain_tip: BlockIndex,
    genesis: BlockIndex,
    node: Node,
)
    requires
        call_ensures(Node::new, (network, headers_chain, chain_tip, genesis), node),
    ensures
        node@.chain == headers_chain@,
        node@.network == (match network {
            BitcoinNetwork::Mainnet => Network::Bitcoin,
            BitcoinNetwork::Testnet => Network::Testnet4,
            BitcoinNetwork::Signet => Network::Signet,
            BitcoinNetwork::Regtest => Network::Regtest,
        }),
        node@.peers.network == node@.network,
        headers_chain@.tip.0 == 0 ==> {
            &&& node@.sync == (SyncView::HeaderSync { target: 0, current: 0 })
            &&& node@.peers.block_height == (genesis.0 as int, genesis.1@)
        },
        headers_chain@.tip.0 != 0 && headers_chain@.tip.0 > chain_tip.0 ==> {
            &&& node@.sync == SyncView::BlockSync(headers_chain@.tip)
            &&& node@.peers.block_height == headers_chain@.tip
        },
        headers_chain@.tip.0 != 0 && headers_chain@.tip.0 <= chain_tip.0 ==> {
            &&& node@.sync == SyncView::InSync((chain_tip.0 as int, chain_tip.1@))
            &&& node@.peers.block_height == (chain_tip.0 as int, chain_tip.1@)
        },
{
}

/// What the node lets be seen of it is what it holds.
pub proof fn law_node_is_seen(
    node: &Node,
    network: Network,
    state: SyncState,
    chain: &HeadersChain,
    manager: &PeerManager,
)
    requires
        call_ensures(Node::network, (node,), network),
        call_ensures(Node::sync_state, (node,), state),
        call_ensures(Node::headers_chain, (node,), chain),
        call_ensures(Node::peer_manager, (node,), manager),
    ensures
        network == node@.network,
        state@ == node@.sync,
        chain@ == node@.chain,
        manager@ == node@.peers,
{
}

/// The progress of a header synchronisation starts at nothing.
pub proof fn law_default_progress(state: HeaderSyncState)
    requires
        call_ensures(<HeaderSyncState as Default>::default, (), state),
    ensures
        state.target_height == 0,
        state.current_sync_height == 0,
{
}

/// Every block is handed to the validation engine as it came, in every state, and leaves the node
/// as it is.
pub proof fn law_blocks_are_handed_on(
    node: NodeView,
    bytes: Seq<u8>,
    after: NodeView,
    action: Result<Action, NodeError>,
)
    requires
        node.answers(PeerMessageView::Block(bytes), after, action),
    ensures
        after == node,
        action matches Ok(Action::ProcessBlock(block)) && block@ == bytes,
{
}

/// Every announcement is answered with a request for the headers after the tip, in every state,
/// and leaves the node as it is.
pub proof fn law_announcements_are_answered(
    node: NodeView,
    after: NodeView,
    action: Result<Action, NodeError>,
)
    requires
        node.answers(PeerMessageView::Inv, after, action),
    ensures
        after == node,
        action matches Ok(Action::Send(raw)) && asks_for_headers(
            raw,
            node.network,
            seq![node.chain.tip.1],
        ),
{
    if let Ok(Action::Send(raw)) = action {
        lemma_addressed(
            raw,
            node.network,
            crate::node::headers_request(node.chain.tip.1),
        );
    }
}

/// Messages of other kinds are not acted on, in any state.
pub proof fn law_other_messages_change_nothing(
    node: NodeView,
    message: PeerMessageView,
    after: NodeView,
    action: Result<Action, NodeError>,
)
    requires
        message is Version || message is Verack || message is Other,
        node.answers(message, after, action),
    ensures
        after == node,
        action matches Ok(Action::Idle),
{
}

/// Each header that is given back stands under the hash of the header that came in.
proof fn lemma_outcome_hashes(chain: HeadersChainView, items: Seq<CheckedHeader>, i: int)
    requires
        chain.outcome(items) is Ok,
        0 <= i < items.len(),
    ensures
        chain.outcome(items).unwrap().len() == items.len(),
        chain.outcome(items).unwrap()[i].block_hash == items[i].hash,
    decreases items.len(),
{
    let next = chain.extended(items[0].header, items[0].hash);
    let rest = items.drop_first();
    if rest.len() > 0 {
        let at = if i > 0 {
            i - 1
        } else {
            0
        };
        lemma_outcome_hashes(next, rest, at);
        if i > 0 {
            assert(chain.outcome(items).unwrap()[i] == next.outcome(rest).unwrap()[i - 1]);
        }
    } else {
        assert(next.outcome(rest) == Ok::<Seq<BlockHeaderView>, HeaderValidationError>(seq![]));
    }
}

/// Headers go to the chain in every state. Where one is refused, that is the answer, and the state
/// stays. Where all are accepted in the header synchronisation, the chain is saved once they reach
/// the target, and else more are asked for from the new tip. In every other state exactly these
/// headers are saved, and the blocks with their hashes are asked for in order.
pub proof fn law_headers_are_taken(
    node: NodeView,
    headers: Seq<HeaderView>,
    after: NodeView,
    action: Result<Action, NodeError>,
)
    requires
        node.answers(PeerMessageView::Headers(headers), after, action),
    ensures
        ({
            let items = headers.map_values(|header: HeaderView| header.checked());
            let count = headers.len() as i32;
            &&& after.chain == node.chain.processed(items)
            &&& after.network == node.network
            &&& after.peers == node.peers
            &&& node.chain.outcome(items) matches Err(error) ==> {
                &&& after.sync == node.sync
                &&& action == Err::<Action, NodeError>(
                    NodeError::HeaderChainError(HeaderChainError::ValidationError(error)),
                )
            }
            &&& node.chain.outcome(items) matches Ok(stored) ==> {
                &&& node.sync matches SyncView::HeaderSync { target, current } ==> {
                    if current + count >= target {
                        &&& after.sync == node.sync
                        &&& action matches Ok(Action::SaveChain)
                    } else {
                        &&& after.sync == (SyncView::HeaderSync { target, current: current + count })
                        &&& action matches Ok(Action::Send(raw)) && asks_for_headers(
                            raw,
                            node.network,
                            seq![after.chain.tip.1],
                        )
                    }
                }
                &&& !(node.sync is HeaderSync) ==> {
                    &&& after.sync == node.sync
                    &&& action matches Ok(Action::SaveHeaders { headers: saved, inventory })
                    &&& saved@.len() == headers.len()
                    &&& forall|i: int|
                        0 <= i < headers.len() ==> (#[trigger] saved@[i])@ == stored[i]
                    &&& crate::header_calls::asked(inventory@).len() == headers.len()
                    &&& forall|i: int|
                        0 <= i < headers.len() ==> #[trigger] crate::header_calls::asked(
                            inventory@,
                        )[i] == crate::header_calls::hash_of(headers[i])
                }
            }
        }),
{
    let items = headers.map_values(|header: HeaderView| header.checked());
    match action {
        Ok(Action::Send(raw)) => {
            lemma_addressed(
                raw,
                node.network,
                crate::node::headers_request(after.chain.tip.1),
            );
        },
        Ok(Action::SaveHeaders { headers: saved, inventory }) => {
            let stored = node.chain.outcome(items).unwrap();
            let view = crate::header_chain::stored_headers(saved@);
            let asked = crate::header_calls::asked(inventory@);
            assert(asked =~= crate::message::inventory_view(inventory@));
            assert(view.len() == saved@.len());
            if headers.len() > 0 {
                lemma_outcome_hashes(node.chain, items, 0);
            }
            assert(crate::node::stored_hashes(stored).len() == stored.len());
            assert forall|i: int| 0 <= i < headers.len() implies (#[trigger] saved@[i])@
                == stored[i] by {
                lemma_outcome_hashes(node.chain, items, i);
                assert(view[i] == saved@[i]@);
            }
            assert forall|i: int| 0 <= i < headers.len() implies #[trigger] asked[i]
                == crate::header_calls::hash_of(headers[i]) by {
                lemma_outcome_hashes(node.chain, items, i);
                crate::header_calls::law_checked_header(headers[i]);
                assert(crate::node::stored_hashes(stored)[i] == stored[i].block_hash);
            }
        },
        _ => {},
    }
}

/// `process_message` answers every message.
pub proof fn law_process_message(
    node: &mut Node,
    message: PeerMessage,
    action: Result<Action, NodeError>,
)
    requires
        call_ensures(Node::process_message, (node, message), action),
    ensures
        old(node)@.answers(message@, final(node)@, action),
        message matches PeerMessage::Block(bytes) ==> final(node)@ == old(node)@ && (
        action matches Ok(Action::ProcessBlock(block)) && block@ == bytes@),
        message is Inv ==> final(node)@ == old(node)@ && (action matches Ok(Action::Send(raw))
            && asks_for_headers(raw, old(node)@.network, seq![old(node)@.chain.tip.1])),
        message is Version || message is Verack || message is Other ==> final(node)@ == old(node)@
            && action matches Ok(Action::Idle),
{
    law_view_of_peer_message(message);
    match message {
        PeerMessage::Block(bytes) => {
            law_blocks_are_handed_on(old(node)@, bytes@, final(node)@, action);
        },
        PeerMessage::Inv => {
            law_announcements_are_answered(old(node)@, final(node)@, action);
        },
        _ => {},
    }
}

/// Headers that `process_message` takes go to the chain as `process_headers` takes them.
pub proof fn law_process_message_adds_headers(
    node: &mut Node,
    message: PeerMessage,
    action: Result<Action, NodeError>,
    chain: &mut HeadersChain,
    outcome: Result<Vec<BlockHeader>, HeaderChainError>,
)
    requires
        message is Headers,
        call_ensures(Node::process_message, (node, message), action),
        old(chain)@ == old(node)@.chain,
        call_ensures(HeadersChain::process_headers, (chain, message->Headers_0), outcome),
    ensures
        final(node)@.chain == final(chain)@,
        outcome matches Err(error) ==> action == Err::<Action, NodeError>(
            NodeError::HeaderChainError(error),
        ) && final(node)@.sync == old(node)@.sync,
        outcome is Ok ==> action is Ok,
        outcome matches Ok(stored) ==> (!(old(node)@.sync is HeaderSync) ==> {
            &&& action matches Ok(Action::SaveHeaders { headers, .. })
            &&& headers@.len() == stored@.len()
            &&& forall|i: int| 0 <= i < stored@.len() ==> (#[trigger] headers@[i])@ == stored@[i]@
        }),
{
    let headers = message->Headers_0;
    let view = crate::message::headers_view(headers@);
    assert(view.map_values(|header: HeaderView| header.checked())
        =~= crate::header_chain::checked_headers(headers@));
    law_headers_are_taken(old(node)@, view, final(node)@, action);
    match (outcome, action) {
        (Ok(stored), Ok(Action::SaveHeaders { headers: saved, .. })) => {
            let given = crate::header_chain::stored_headers(stored@);
            let kept = crate::header_chain::stored_headers(saved@);
            assert(given.len() == stored@.len());
            assert(kept.len() == saved@.len());
            assert forall|i: int| 0 <= i < stored@.len() implies (#[trigger] saved@[i])@
                == stored@[i]@ by {
                assert(given[i] == stored@[i]@);
                assert(kept[i] == saved@[i]@);
            }
        },
        _ => {},
    }
}

/// `take_message` can always be called, refuses what is not admitted and thus nothing but headers,
/// and answers all else as `process_message` does; what it refuses leaves the node as it is.
pub proof fn law_take_message(
    node: &mut Node,
    message: PeerMessage,
    action: Option<Result<Action, NodeError>>,
    seen: &Node,
    asked: &PeerMessage,
    admitted: bool,
)
    requires
        old(node).wf(),
        call_ensures(Node::take_message, (node, message), action),
        seen@ == old(node)@,
        *asked == message,
        call_ensures(Node::admits, (seen, asked), admitted),
    ensures
        call_requires(Node::take_message, (node, message)),
        action is Some <==> admitted,
        action is None ==> message is Headers && final(node)@ == old(node)@,
        action matches Some(action) ==> old(node)@.answers(message@, final(node)@, action),
        message matches PeerMessage::Block(bytes) ==> final(node)@ == old(node)@ && (
        action matches Some(Ok(Action::ProcessBlock(block))) && block@ == bytes@),
        message is Inv ==> final(node)@ == old(node)@ && (
        action matches Some(Ok(Action::Send(raw))) && asks_for_headers(
            raw,
            old(node)@.network,
            seq![old(node)@.chain.tip.1],
        )),
{
    law_view_of_peer_message(message);
    match (message, action) {
        (PeerMessage::Block(bytes), Some(action)) => {
            law_blocks_are_handed_on(old(node)@, bytes@, final(node)@, action);
        },
        (PeerMessage::Inv, Some(action)) => {
            law_announcements_are_answered(old(node)@, final(node)@, action);
        },
        _ => {},
    }
}

/// A message is admitted unless it brings headers of which one would stand too high, or which are
/// all accepted and would bring the progress of a header synchronisation beyond 32 bits.
pub proof fn law_admits(
    node: &Node,
    message: &PeerMessage,
    admitted: bool,
    chain: &HeadersChain,
    headers: &Vec<crate::header::Header>,
    prospect: crate::header_chain::Prospect,
)
    requires
        call_ensures(Node::admits, (node, message), admitted),
        chain@ == node@.chain,
        message matches PeerMessage::Headers(inside) ==> headers@ == inside@,
        call_ensures(HeadersChain::prospect, (chain, headers), prospect),
    ensures
        !(message is Headers) ==> admitted,
        message is Headers && prospect is TooHigh ==> !admitted,
        message is Headers && prospect is Refused ==> admitted,
        message is Headers && prospect is Accepted ==> (admitted <==> (
        node@.sync matches SyncView::HeaderSync { current, .. } ==> i32::MIN <= current
            + headers@.len() as i32 <= i32::MAX)),
{
    assert(crate::message::headers_view(headers@).map_values(
        |header: HeaderView| header.checked(),
    ) =~= crate::header_chain::checked_headers(headers@));
    match message {
        PeerMessage::Headers(inside) => {
            assert(message@ == PeerMessageView::Headers(crate::message::headers_view(inside@)));
        },
        _ => {},
    }
}

/// What follows after headers were added, in each state.
pub proof fn law_headers_processed(
    node: &mut Node,
    headers_len: i32,
    stored: Vec<BlockHeader>,
    action: Result<Action, NodeError>,
)
    requires
        call_ensures(Node::headers_processed, (node, headers_len, stored), action),
    ensures
        final(node)@.chain == old(node)@.chain,
        final(node)@.network == old(node)@.network,
        final(node)@.peers == old(node)@.peers,
        old(node)@.sync matches SyncView::HeaderSync { target, current } ==> {
            if current + headers_len >= target {
                &&& final(node)@.sync == old(node)@.sync
                &&& action matches Ok(Action::SaveChain)
            } else {
                &&& final(node)@.sync == (SyncView::HeaderSync {
                    target,
                    current: current + headers_len,
                })
                &&& action matches Ok(Action::Send(raw)) && asks_for_headers(
                    raw,
                    old(node)@.network,
                    seq![old(node)@.chain.tip.1],
                )
            }
        },
        !(old(node)@.sync is HeaderSync) ==> {
            &&& final(node)@.sync == old(node)@.sync
            &&& action matches Ok(Action::SaveHeaders { headers, inventory })
            &&& headers@.len() == stored@.len()
            &&& inventory@.len() == stored@.len()
            &&& forall|i: int| 0 <= i < stored@.len() ==> (#[trigger] headers@[i])@ == stored@[i]@
            &&& forall|i: int|
                0 <= i < stored@.len() ==> (#[trigger] inventory@[i])->WitnessBlock_0@
                    == stored@[i].block_hash@
        },
{
    match action {
        Ok(Action::Send(raw)) => {
            lemma_addressed(
                raw,
                old(node)@.network,
                crate::node::headers_request(old(node)@.chain.tip.1),
            );
        },
        Ok(Action::SaveHeaders { headers, inventory }) => {
            let given = crate::header_chain::stored_headers(stored@);
            let kept = crate::header_chain::stored_headers(headers@);
            let asked = crate::message::inventory_view(inventory@);
            assert(given.len() == stored@.len());
            assert(kept.len() == headers@.len());
            assert(asked.len() == inventory@.len());
            assert(crate::node::stored_hashes(given).len() == given.len());
            assert forall|i: int| 0 <= i < stored@.len() implies (#[trigger] headers@[i])@
                == stored@[i]@ by {
                assert(given[i] == stored@[i]@);
                assert(kept[i] == headers@[i]@);
            }
            assert forall|i: int| 0 <= i < stored@.len() implies (
            #[trigger] inventory@[i])->WitnessBlock_0@ == stored@[i].block_hash@ by {
                assert(asked[i] == inventory@[i]@);
                assert(crate::node::stored_hashes(given)[i] == given[i].block_hash);
                crate::header_calls::law_view_of_block_header(stored@[i]);
            }
        },
        _ => {},
    }
}

/// The blocks of an inventory are asked for, all of them and in order.
pub proof fn law_headers_saved(
    node: &Node,
    inventory: Vec<Inventory>,
    message: Result<RawNetworkMessage, NodeError>,
)
    requires
        call_ensures(Node::headers_saved, (node, inventory), message),
    ensures
        message matches Ok(raw) && asks_for_blocks(
            raw,
            node@.network,
            crate::header_calls::asked(inventory@),
        ),
{
    assert(crate::header_calls::asked(inventory@) =~= crate::message::inventory_view(inventory@));
    if let Ok(raw) = message {
        lemma_addressed(
            raw,
            node@.network,
            NetworkMessageView::GetData(crate::message::inventory_view(inventory@)),
        );
    }
}

/// A request for headers names the locator hashes as they are.
pub proof fn law_build_get_headers_msg(
    node: &Node,
    locator_hash: Vec<BlockHash>,
    message: Result<RawNetworkMessage, NodeError>,
)
    requires
        call_ensures(Node::build_get_headers_msg, (node, locator_hash), message),
    ensures
        message matches Ok(raw) && asks_for_headers(
            raw,
            node@.network,
            Seq::new(locator_hash@.len(), |i: int| locator_hash@[i]@),
        ),
{
    assert(Seq::new(locator_hash@.len(), |i: int| locator_hash@[i]@)
        =~= crate::message::hashes_view(locator_hash@));
    if let Ok(raw) = message {
        lemma_addressed(
            raw,
            node@.network,
            crate::node::locator_request(crate::message::hashes_view(locator_hash@)),
        );
    }
}

/// The first request of a node: in the header synchronisation for the headers after the tip, with
/// the height of the peer as the target; in the block synchronisation for the blocks after the
/// block that it stands at; and else for the headers after that block.
pub proof fn law_run(
    node: &mut Node,
    first: &PeerMessage,
    message: Result<RawNetworkMessage, NodeError>,
)
    requires
        call_ensures(Node::run, (node, first), message),
    ensures
        final(node)@.chain == old(node)@.chain,
        final(node)@.network == old(node)@.network,
        final(node)@.peers == old(node)@.peers,
        old(node)@.sync is HeaderSync ==> {
            &&& first matches PeerMessage::Version { start_height } ==> final(node)@.sync
                == (SyncView::HeaderSync { target: *start_height as int, current: 0 })
            &&& !(first is Version) ==> final(node)@.sync == (SyncView::HeaderSync {
                target: 0,
                current: 0,
            })
            &&& message matches Ok(raw) && asks_for_headers(
                raw,
                old(node)@.network,
                seq![old(node)@.chain.tip.1],
            )
        },
        old(node)@.sync matches SyncView::BlockSync(block) ==> {
            &&& final(node)@.sync == old(node)@.sync
            &&& asks_for_batch(message, old(node)@.chain, old(node)@.network, block.1)
        },
        old(node)@.sync matches SyncView::InSync(block) ==> {
            &&& final(node)@.sync == old(node)@.sync
            &&& message matches Ok(raw) && asks_for_headers(
                raw,
                old(node)@.network,
                seq![block.1],
            )
        },
        old(node).wf() && !(old(node)@.sync is BlockSync) ==> call_requires(
            Node::run,
            (node, first),
        ),
{
    match old(node)@.sync {
        SyncView::BlockSync(block) => {
            lemma_blocks_requested(message, old(node)@, block.1);
        },
        SyncView::HeaderSync { .. } => {
            if let Ok(raw) = message {
                lemma_addressed(
                    raw,
                    old(node)@.network,
                    crate::node::headers_request(old(node)@.chain.tip.1),
                );
            }
        },
        SyncView::InSync(block) => {
            if let Ok(raw) = message {
                lemma_addressed(
                    raw,
                    old(node)@.network,
                    crate::node::headers_request(block.1),
                );
            }
        },
    }
}

/// After the chain was saved the blocks after the genesis block are asked for.
pub proof fn law_chain_saved(
    node: &mut Node,
    genesis: BlockIndex,
    message: Result<RawNetworkMessage, NodeError>,
    chain: &HeadersChain,
    hash: &BlockHash,
    holds: bool,
)
    requires
        call_ensures(Node::chain_saved, (node, genesis), message),
        chain@ == old(node)@.chain,
        hash@ == genesis.1@,
        call_ensures(HeadersChain::can_walk, (chain, hash), holds),
    ensures
        final(node)@.chain == old(node)@.chain,
        final(node)@.network == old(node)@.network,
        final(node)@.peers == old(node)@.peers,
        final(node)@.sync == SyncView::BlockSync((genesis.0 as int, genesis.1@)),
        asks_for_batch(message, old(node)@.chain, old(node)@.network, genesis.1@),
        old(node).wf() && holds ==> call_requires(Node::chain_saved, (node, genesis)),
{
    lemma_blocks_requested(message, old(node)@, genesis.1@);
}

/// The height that the blocks of the current batch are counted from.
pub open spec fn counted_from(sync: SyncView) -> int {
    match sync {
        SyncView::HeaderSync { .. } => 0,
        SyncView::BlockSync(block) => block.0,
        SyncView::InSync(block) => block.0,
    }
}

/// After a valid new block, and no other, the peers are told of the tip; and where the tip is five
/// hundred blocks or more beyond where the batch started, in whatever state, the blocks after the
/// tip are asked for and the next batch is counted from it. Else nothing changes.
pub proof fn law_block_processed(
    node: &mut Node,
    valid: bool,
    new: bool,
    tip: BlockIndex,
    peer: &mut Peer,
    message: Result<Option<RawNetworkMessage>, NodeError>,
)
    requires
        call_ensures(Node::block_processed, (node, valid, new, tip, peer), message),
    ensures
        final(node)@.chain == old(node)@.chain,
        final(node)@.network == old(node)@.network,
        final(node)@.peers.network == old(node)@.peers.network,
        final(peer)@.port == old(peer)@.port,
        final(peer)@.network == old(peer)@.network,
        final(peer)@.handshake == old(peer)@.handshake,
        ({
            let at = (tip.0 as int, tip.1@);
            &&& valid && new ==> {
                &&& final(node)@.peers.block_height == at
                &&& final(peer)@.current_block == at
            }
            &&& !(valid && new) ==> {
                &&& final(node)@.peers.block_height == old(node)@.peers.block_height
                &&& final(peer)@.current_block == old(peer)@.current_block
            }
            &&& if valid && new && tip.0 >= counted_from(old(node)@.sync) + 500 {
                &&& final(node)@.sync == SyncView::InSync(at)
                &&& message matches Ok(asked) ==> asked is Some
                &&& asks_for_batch(
                    match message {
                        Ok(asked) => Ok(asked.unwrap()),
                        Err(error) => Err(error),
                    },
                    old(node)@.chain,
                    old(node)@.network,
                    tip.1@,
                )
            } else {
                &&& final(node)@.sync == old(node)@.sync
                &&& message == Ok::<Option<RawNetworkMessage>, NodeError>(None)
            }
        }),
{
    if crate::node::batch_done(old(node)@.sync, valid, new, tip@) {
        match message {
            Ok(Some(raw)) => {
                lemma_blocks_requested(Ok(raw), old(node)@, tip.1@);
            },
            Ok(None) => {},
            Err(error) => {
                lemma_blocks_requested(Err(error), old(node)@, tip.1@);
            },
        }
    }
}

/// A block is admitted unless the end of its batch is beyond 32 bits, or the batch is complete and
/// a way of links from the tip leads to a block that is not held; and what is admitted can be
/// processed.
pub proof fn law_admits_block(
    node: &mut Node,
    valid: bool,
    new: bool,
    tip: BlockIndex,
    peer: &mut Peer,
    seen: &Node,
    at: &BlockIndex,
    admitted: bool,
    chain: &HeadersChain,
    hash: &BlockHash,
    holds: bool,
)
    requires
        old(node).wf(),
        seen@ == old(node)@,
        *at == tip,
        chain@ == old(node)@.chain,
        hash@ == tip.1@,
        call_ensures(Node::admits_block, (seen, valid, new, at), admitted),
        call_ensures(HeadersChain::can_walk, (chain, hash), holds),
    ensures
        admitted <==> (valid && new ==> counted_from(old(node)@.sync) + 499 <= i32::MAX && (tip.0
            >= counted_from(old(node)@.sync) + 500 ==> holds)),
        admitted ==> call_requires(Node::block_processed, (node, valid, new, tip, peer)),
{
}

/// Whether `whole` is `left`, a slash, and `right`.
pub open spec fn is_path(whole: Seq<char>, left: Seq<char>, right: Seq<char>) -> bool {
    &&& whole.len() == left.len() + 1 + right.len()
    &&& forall|i: int| 0 <= i < left.len() ==> #[trigger] whole[i] == left[i]
    &&& whole[left.len() as int] == '/'
    &&& forall|i: int|
        left.len() < i < whole.len() ==> #[trigger] whole[i] == right[i - left.len() - 1]
}

/// Each network has a directory of its own name, and in it blocks and headers.
pub proof fn law_paths(
    node_dir: &str,
    network: BitcoinNetwork,
    dir: String,
    data_dir: &str,
    blocks: String,
    headers: String,
)
    requires
        call_ensures(crate::node::data_dir, (node_dir, network), dir),
        call_ensures(crate::node::blocks_dir, (data_dir,), blocks),
        call_ensures(crate::node::headers_path, (data_dir,), headers),
    ensures
        is_path(
            dir@,
            node_dir@,
            match network {
                BitcoinNetwork::Mainnet => "mainnet"@,
                BitcoinNetwork::Testnet => "testnet"@,
                BitcoinNetwork::Signet => "signet"@,
                BitcoinNetwork::Regtest => "regtest"@,
            },
        ),
        is_path(blocks@, data_dir@, "blocks"@),
        is_path(headers@, data_dir@, "header"@),
{
    reveal_strlit("/");
    assert("/"@.len() == 1);
    assert("/"@[0] == '/');
}

} // verus!
