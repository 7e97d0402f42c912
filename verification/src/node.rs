//! The synchronisation state machine of the node.

use vstd::prelude::*;

use crate::error::{HeaderChainError, HeaderValidationError, NodeError};
use crate::header::{BlockHash, BlockHeader, BlockHeaderView, BlockIndex, HeaderView};
use crate::header_chain::{HeadersChain, HeadersChainView, Prospect, BATCH};
use crate::message::{
    GetHeadersMessage, GetHeadersView, Inventory, NetworkMessage, NetworkMessageView, PeerMessage,
    PeerMessageView, RawNetworkMessage, PROTOCOL_VERSION,
};
use crate::network::{BitcoinNetwork, Network};
use crate::p2p::{build_raw_network_msg, Peer, PeerManager, PeerManagerView, PeerView};

verus! {

/// The most blocks that one message can ask for: four bytes say the length of its payload.
pub const MAX_INVENTORY: usize = 119_304_646;

/// How far the node has caught up with its peers.
#[derive(Debug, Clone, Copy)]
pub enum SyncState {
    IBD(IBDState),
    InSync(BlockIndex),
}

/// The stages of the initial block download: headers first, then blocks.
#[derive(Debug, Clone, Copy)]
pub enum IBDState {
    HeaderSync(HeaderSyncState),
    BlockSync(BlockIndex),
}

/// How far the headers are synchronised.
#[derive(Debug, Clone, Copy)]
pub struct HeaderSyncState {
    pub target_height: i32,
    pub current_sync_height: i32,
}

impl Default for HeaderSyncState {
    fn default() -> (state: Self)
        ensures
            state.target_height == 0,
            state.current_sync_height == 0,
    {
        HeaderSyncState { target_height: 0, current_sync_height: 0 }
    }
}

/// What a [`SyncState`] holds.
pub ghost enum SyncView {
    HeaderSync { target: int, current: int },
    BlockSync((int, Seq<u8>)),
    InSync((int, Seq<u8>)),
}

impl View for SyncState {
    type V = SyncView;

    open spec fn view(&self) -> SyncView {
        match self {
            SyncState::IBD(IBDState::HeaderSync(progress)) => SyncView::HeaderSync {
                target: progress.target_height as int,
                current: progress.current_sync_height as int,
            },
            SyncState::IBD(IBDState::BlockSync(block)) => SyncView::BlockSync(block@),
            SyncState::InSync(block) => SyncView::InSync(block@),
        }
    }
}

/// The state in which a node starts, with the tips of its headers and of its blocks: without
/// headers it starts with them, with headers beyond its blocks it fetches blocks, and else it has
/// caught up.
pub open spec fn initial_sync(headers_tip: (int, Seq<u8>), blocks_tip: (int, Seq<u8>)) -> SyncView {
    if headers_tip.0 == 0 {
        SyncView::HeaderSync { target: 0, current: 0 }
    } else if headers_tip.0 > blocks_tip.0 {
        SyncView::BlockSync(headers_tip)
    } else {
        SyncView::InSync(blocks_tip)
    }
}

/// The block that a node in this state announces to its peers as the last one it has.
pub open spec fn announced_block(sync: SyncView, genesis: (int, Seq<u8>)) -> (int, Seq<u8>) {
    match sync {
        SyncView::HeaderSync { .. } => genesis,
        SyncView::BlockSync(block) => block,
        SyncView::InSync(block) => block,
    }
}

/// The height of the last block of the batch before.
pub open spec fn last_sync_height(sync: SyncView) -> int {
    match sync {
        SyncView::HeaderSync { .. } => 0,
        SyncView::BlockSync(block) => block.0,
        SyncView::InSync(block) => block.0,
    }
}

/// The request for the headers after the first of these hashes that the peer knows, as many as
/// it gives.
pub open spec fn locator_request(locator_hashes: Seq<Seq<u8>>) -> NetworkMessageView {
    NetworkMessageView::GetHeaders(
        GetHeadersView {
            version: PROTOCOL_VERSION,
            locator_hashes,
            stop_hash: Seq::new(32, |i: int| 0u8),
        },
    )
}

/// The request for the headers after `hash`.
pub open spec fn headers_request(hash: Seq<u8>) -> NetworkMessageView {
    locator_request(seq![hash])
}

/// The request for the batch of blocks after `hash`.
pub open spec fn blocks_request(chain: HeadersChainView, hash: Seq<u8>) -> NetworkMessageView {
    NetworkMessageView::GetData(
        crate::header_chain::walk(chain.headers, hash, BATCH as nat),
    )
}

/// Whether the batch of blocks after `hash` can be listed.
pub open spec fn can_request_blocks(chain: HeadersChainView, hash: Seq<u8>) -> bool {
    chain.headers.contains_key(hash) ==> crate::header_chain::walk_holds(
        chain.headers,
        hash,
        BATCH as nat,
    )
}

/// Whether `raw` is `payload`, addressed to `network`.
pub open spec fn addressed(
    raw: RawNetworkMessage,
    network: Network,
    payload: NetworkMessageView,
) -> bool {
    raw.wf() && crate::p2p::network_magic(network) == Some(raw@.magic) && raw@.payload == payload
}

/// Whether `outcome` is the request for the batch of blocks after `hash`, or the error that the
/// block is not known.
pub open spec fn blocks_requested(
    outcome: Result<RawNetworkMessage, NodeError>,
    node: NodeView,
    hash: Seq<u8>,
) -> bool {
    match outcome {
        Ok(raw) => node.chain.headers.contains_key(hash) && addressed(
            raw,
            node.network,
            blocks_request(node.chain, hash),
        ),
        Err(error) => !node.chain.headers.contains_key(hash) && error
            == NodeError::HeaderChainError(
            HeaderChainError::ValidationError(HeaderValidationError::PrevBlockNotFound),
        ),
    }
}

/// What the node wants done.
pub enum Action {
    /// Nothing.
    Idle,
    /// Send this to the peer.
    Send(RawNetworkMessage),
    /// Hand this block to the validation engine, and the result to [`Node::block_processed`].
    ProcessBlock(Vec<u8>),
    /// Save the whole chain of headers, then call [`Node::chain_saved`].
    SaveChain,
    /// Save these headers, then call [`Node::headers_saved`] with the inventory.
    SaveHeaders { headers: Vec<BlockHeader>, inventory: Vec<Inventory> },
}

/// The node's state: how far it has caught up, the headers it knows, what it tells its peers, and
/// its network.
pub struct Node {
    sync_state: SyncState,
    headers_chain: HeadersChain,
    peer_manager: PeerManager,
    network: Network,
}

/// What a [`Node`] holds.
pub ghost struct NodeView {
    pub sync: SyncView,
    pub chain: HeadersChainView,
    pub peers: PeerManagerView,
    pub network: Network,
}

impl View for Node {
    type V = NodeView;

    closed spec fn view(&self) -> NodeView {
        NodeView {
            sync: self.sync_state@,
            chain: self.headers_chain@,
            peers: self.peer_manager@,
            network: self.network,
        }
    }
}

impl NodeView {
    /// Whether a message leads to no height beyond what 32 bits hold: neither of a header that is
    /// accepted, nor of the progress of a header synchronisation.
    pub open spec fn admits(self, message: PeerMessageView) -> bool {
        message matches PeerMessageView::Headers(headers) ==> {
            let items = headers.map_values(|header: HeaderView| header.checked());
            &&& self.chain.heights_fit(items)
            &&& self.chain.outcome(items) is Ok ==> self.admits_count(headers.len() as i32 as int)
        }
    }

    /// Whether the progress of a header synchronisation can grow by `count`.
    pub open spec fn admits_count(self, count: int) -> bool {
        self.sync matches SyncView::HeaderSync { current, .. } ==> i32::MIN <= current + count
            <= i32::MAX
    }

    /// Whether a block that brought the validation engine to this tip leads to no height beyond
    /// what 32 bits hold, and if it completes a batch, the next one can be listed.
    pub open spec fn admits_block(self, valid: bool, new: bool, tip: (int, Seq<u8>)) -> bool {
        valid && new ==> {
            &&& last_sync_height(self.sync) + BATCH - 1 <= i32::MAX
            &&& batch_done(self.sync, valid, new, tip) ==> can_request_blocks(self.chain, tip.1)
        }
    }

    /// The node after a block brought the validation engine to this tip: a valid new block is what
    /// the peers are told of from then on, and the last one of a batch is where the next batch
    /// starts.
    pub open spec fn after_block(self, valid: bool, new: bool, tip: (int, Seq<u8>)) -> NodeView {
        NodeView {
            sync: if batch_done(self.sync, valid, new, tip) {
                SyncView::InSync(tip)
            } else {
                self.sync
            },
            peers: if valid && new {
                PeerManagerView { block_height: tip, ..self.peers }
            } else {
                self.peers
            },
            ..self
        }
    }

    /// Whether headers that were just added, `count` of them, reach the target of the header
    /// synchronisation.
    pub open spec fn reaches_target(self, count: int) -> bool {
        self.sync matches SyncView::HeaderSync { target, current } && current + count >= target
    }

    /// The node after `count` headers were added: a header synchronisation that did not reach its
    /// target has come further.
    pub open spec fn after_headers(self, count: int) -> NodeView {
        match self.sync {
            SyncView::HeaderSync { target, current } if current + count < target => NodeView {
                sync: SyncView::HeaderSync { target, current: current + count },
                ..self
            },
            _ => self,
        }
    }

    /// Whether `action` is what follows after headers were added, `stored` of them counted as
    /// `count`: a header synchronisation that reached its target saves the chain, one that did
    /// not asks for more, and a node past it saves the headers and asks for their blocks.
    pub open spec fn headers_action(
        self,
        action: Action,
        stored: Seq<BlockHeaderView>,
        count: int,
    ) -> bool {
        if self.reaches_target(count) {
            action is SaveChain
        } else if self.sync is HeaderSync {
            action matches Action::Send(raw) && addressed(
                raw,
                self.network,
                headers_request(self.chain.tip.1),
            )
        } else {
            action matches Action::SaveHeaders { headers, inventory }
                && crate::header_chain::stored_headers(headers@) == stored
                && crate::message::inventory_view(inventory@) == stored_hashes(stored)
        }
    }
}

impl NodeView {
    /// Whether a node that takes `message` becomes `after`, and `action` is what it then wants
    /// done.
    pub open spec fn answers(
        self,
        message: PeerMessageView,
        after: NodeView,
        action: Result<Action, NodeError>,
    ) -> bool {
        match message {
            PeerMessageView::Headers(headers) => {
                let items = headers.map_values(|header: HeaderView| header.checked());
                let added = NodeView { chain: self.chain.processed(items), ..self };
                let count = headers.len() as i32 as int;
                match self.chain.outcome(items) {
                    Ok(stored) => {
                        &&& after == added.after_headers(count)
                        &&& action matches Ok(action) && added.headers_action(action, stored, count)
                    },
                    Err(error) => {
                        &&& after == added
                        &&& action == Err::<Action, NodeError>(
                            NodeError::HeaderChainError(HeaderChainError::ValidationError(error)),
                        )
                    },
                }
            },
            PeerMessageView::Block(bytes) => {
                &&& after == self
                &&& action matches Ok(Action::ProcessBlock(block)) && block@ == bytes
            },
            PeerMessageView::Inv => {
                &&& after == self
                &&& action matches Ok(Action::Send(raw)) && addressed(
                    raw,
                    self.network,
                    headers_request(self.chain.tip.1),
                )
            },
            _ => {
                &&& after == self
                &&& action matches Ok(Action::Idle)
            },
        }
    }
}

/// The hashes of stored headers.
pub open spec fn stored_hashes(headers: Seq<BlockHeaderView>) -> Seq<Seq<u8>> {
    headers.map_values(|header: BlockHeaderView| header.block_hash)
}

/// `left` and `right` with a slash between them.
pub open spec fn path(left: Seq<char>, right: Seq<char>) -> Seq<char> {
    left + "/"@ + right
}

fn join(left: &str, right: &str) -> (joined: String)
    ensures
        joined@ == path(left@, right@),
{
    let mut joined = left.to_owned();
    joined.append("/");
    joined.append(right);
    joined
}

/// Where the node keeps the data of a network.
pub fn data_dir(node_dir: &str, network: BitcoinNetwork) -> (dir: String)
    ensures
        dir@ == path(node_dir@, network.name()),
{
    join(node_dir, network.to_string().as_str())
}

/// Where the node keeps blocks.
pub fn blocks_dir(data_dir: &str) -> (dir: String)
    ensures
        dir@ == path(data_dir@, "blocks"@),
{
    join(data_dir, "blocks")
}

/// Where the node keeps headers.
pub fn headers_path(data_dir: &str) -> (file: String)
    ensures
        file@ == path(data_dir@, "header"@),
{
    join(data_dir, "header")
}

impl Node {
    /// The chain is well formed, and the network is one that the node supports.
    pub closed spec fn wf(&self) -> bool {
        self.headers_chain.wf() && crate::p2p::network_magic(self.network) is Some
    }

    /// A node with these headers, whose validation engine started at `genesis` and has reached
    /// `chain_tip`.
    pub fn new(
        network: BitcoinNetwork,
        headers_chain: HeadersChain,
        chain_tip: BlockIndex,
        genesis: BlockIndex,
    ) -> (node: Node)
        requires
            headers_chain.wf(),
        ensures
            node.wf(),
            node@ == (NodeView {
                sync: initial_sync(headers_chain@.tip, chain_tip@),
                chain: headers_chain@,
                peers: PeerManagerView {
                    block_height: announced_block(
                        initial_sync(headers_chain@.tip, chain_tip@),
                        genesis@,
                    ),
                    network: vstd::std_specs::convert::FromSpec::from_spec(network),
                },
                network: vstd::std_specs::convert::FromSpec::from_spec(network),
            }),
    {
        let headers_chain_tip = headers_chain.tip();

        // at height zero the node is just starting, with the headers
        let sync_state = if headers_chain_tip.0 == 0 {
            SyncState::IBD(IBDState::HeaderSync(HeaderSyncState::default()))
        } else if headers_chain_tip.0 > chain_tip.0 {
            // the headers are there, but not all of their blocks
            SyncState::IBD(IBDState::BlockSync(headers_chain_tip))
        } else {
            SyncState::InSync(chain_tip)
        };
        let block_height = match sync_state {
            SyncState::IBD(IBDState::HeaderSync(_)) => genesis,
            SyncState::IBD(IBDState::BlockSync(block)) => block,
            SyncState::InSync(block) => block,
        };
        let network = Network::from(network);
        let peer_manager = PeerManager::new(block_height, network);
        Node { sync_state, headers_chain, peer_manager, network }
    }

    /// The network that the node is on.
    pub fn network(&self) -> (network: Network)
        ensures
            network == self@.network,
    {
        self.network
    }

    /// How far the node has caught up.
    pub fn sync_state(&self) -> (sync_state: SyncState)
        ensures
            sync_state@ == self@.sync,
    {
        self.sync_state
    }

    /// The headers that the node knows.
    pub fn headers_chain(&self) -> (chain: &HeadersChain)
        requires
            self.wf(),
        ensures
            chain.wf(),
            chain@ == self@.chain,
    {
        &self.headers_chain
    }

    /// What the node tells its peers.
    pub fn peer_manager(&self) -> (manager: &PeerManager)
        ensures
            manager@ == self@.peers,
    {
        &self.peer_manager
    }

    /// Whether a message leads to no height beyond what 32 bits hold.
    pub fn admits(&self, message: &PeerMessage) -> (admitted: bool)
        requires
            self.wf(),
        ensures
            admitted == self@.admits(message@),
    {
        match message {
            PeerMessage::Headers(headers) => {
                assert(crate::message::headers_view(headers@).map_values(
                    |header: HeaderView| header.checked(),
                ) =~= crate::header_chain::checked_headers(headers@));
                let count = headers.len() as i32;
                match self.headers_chain.prospect(headers) {
                    Prospect::TooHigh => false,
                    Prospect::Refused => true,
                    Prospect::Accepted => match self.sync_state {
                        SyncState::IBD(IBDState::HeaderSync(progress)) => {
                            progress.current_sync_height.checked_add(count).is_some()
                        },
                        _ => true,
                    },
                }
            },
            _ => true,
        }
    }

    /// The request for the headers after the first of these hashes that the peer knows.
    pub fn build_get_headers_msg(&self, locator_hash: Vec<BlockHash>) -> (message: Result<
        RawNetworkMessage,
        NodeError,
    >)
        requires
            self.wf(),
            crate::wire::fits(locator_request(crate::message::hashes_view(locator_hash@))),
        ensures
            message matches Ok(raw) && addressed(
                raw,
                self@.network,
                locator_request(crate::message::hashes_view(locator_hash@)),
            ),
    {
        let stop_hash: BlockHash = [0; 32];
        let request = GetHeadersMessage {
            version: PROTOCOL_VERSION,
            locator_hashes: locator_hash,
            stop_hash,
        };
        assert(stop_hash@ =~= Seq::new(32, |i: int| 0u8));
        build_raw_network_msg(self.network, NetworkMessage::GetHeaders(request))
    }

    /// The request for the headers after `hash`.
    fn request_headers(&self, hash: BlockHash) -> (message: Result<RawNetworkMessage, NodeError>)
        requires
            self.wf(),
        ensures
            message matches Ok(raw) && addressed(raw, self@.network, headers_request(hash@)),
    {
        let mut locator: Vec<BlockHash> = Vec::new();
        locator.push(hash);
        proof {
            assert(crate::message::hashes_view(locator@) =~= seq![hash@]);
            crate::wire::lemma_get_headers_len(headers_request(hash@)->GetHeaders_0);
        }
        self.build_get_headers_msg(locator)
    }

    /// The request for the batch of blocks after `hash`.
    fn request_blocks(&self, hash: &BlockHash) -> (message: Result<RawNetworkMessage, NodeError>)
        requires
            self.wf(),
            can_request_blocks(self@.chain, hash@),
        ensures
            blocks_requested(message, self@, hash@),
    {
        match self.headers_chain.get_block_inventory(hash) {
            Ok(inventory) => {
                proof {
                    crate::header_chain::lemma_walk_len(self@.chain.headers, hash@, BATCH as nat);
                }
                self.headers_saved(inventory)
            },
            Err(error) => Err(NodeError::from(error)),
        }
    }

    /// The request for these blocks.
    pub fn headers_saved(&self, inventory: Vec<Inventory>) -> (message: Result<
        RawNetworkMessage,
        NodeError,
    >)
        requires
            self.wf(),
            inventory@.len() <= MAX_INVENTORY,
        ensures
            message matches Ok(raw) && addressed(
                raw,
                self@.network,
                NetworkMessageView::GetData(crate::message::inventory_view(inventory@)),
            ),
    {
        proof {
            crate::wire::lemma_get_data_len(crate::message::inventory_view(inventory@));
        }
        build_raw_network_msg(self.network, NetworkMessage::GetData(inventory))
    }

    /// Begins to run: takes the first message of the peer, and gives the first request to it.
    pub fn run(&mut self, first: &PeerMessage) -> (message: Result<RawNetworkMessage, NodeError>)
        requires
            old(self).wf(),
            old(self)@.sync matches SyncView::BlockSync(block) ==> can_request_blocks(
                old(self)@.chain,
                block.1,
            ),
        ensures
            final(self).wf(),
            match old(self)@.sync {
                SyncView::HeaderSync { .. } => {
                    let best_height = match first@ {
                        PeerMessageView::Version { start_height } => start_height as int,
                        _ => 0,
                    };
                    &&& final(self)@ == (NodeView {
                        sync: SyncView::HeaderSync { target: best_height, current: 0 },
                        ..old(self)@
                    })
                    &&& message matches Ok(raw) && addressed(
                        raw,
                        old(self)@.network,
                        headers_request(old(self)@.chain.tip.1),
                    )
                },
                SyncView::BlockSync(block) => {
                    &&& final(self)@ == old(self)@
                    &&& blocks_requested(message, old(self)@, block.1)
                },
                SyncView::InSync(block) => {
                    &&& final(self)@ == old(self)@
                    &&& message matches Ok(raw) && addressed(
                        raw,
                        old(self)@.network,
                        headers_request(block.1),
                    )
                },
            },
    {
        let best_height: i32 = match first {
            PeerMessage::Version { start_height } => *start_height,
            _ => 0,
        };
        match self.sync_state {
            SyncState::IBD(IBDState::HeaderSync(_)) => {
                match self.request_headers(self.headers_chain.tip().1) {
                    Ok(message) => {
                        self.sync_state = SyncState::IBD(
                            IBDState::HeaderSync(
                                HeaderSyncState {
                                    target_height: best_height,
                                    current_sync_height: 0,
                                },
                            ),
                        );
                        Ok(message)
                    },
                    Err(error) => Err(error),
                }
            },
            SyncState::IBD(IBDState::BlockSync(block)) => self.request_blocks(&block.1),
            SyncState::InSync(block) => self.request_headers(block.1),
        }
    }

    /// Takes a message of the peer.
    pub fn process_message(&mut self, message: PeerMessage) -> (action: Result<Action, NodeError>)
        requires
            old(self).wf(),
            old(self)@.admits(message@),
        ensures
            final(self).wf(),
            old(self)@.answers(message@, final(self)@, action),
    {
        match message {
            PeerMessage::Block(bytes) => Ok(Action::ProcessBlock(bytes)),
            PeerMessage::Headers(headers) => {
                assert(crate::message::headers_view(headers@).map_values(
                    |header: HeaderView| header.checked(),
                ) =~= crate::header_chain::checked_headers(headers@));
                let headers_len = headers.len() as i32;
                match self.headers_chain.process_headers(headers) {
                    Ok(stored) => self.headers_processed(headers_len, stored),
                    Err(error) => Err(NodeError::from(error)),
                }
            },
            PeerMessage::Inv => match self.request_headers(self.headers_chain.tip().1) {
                Ok(message) => Ok(Action::Send(message)),
                Err(error) => Err(error),
            },
            _ => Ok(Action::Idle),
        }
    }

    /// Takes a message of the peer, unless it would lead to a height beyond what 32 bits hold.
    pub fn take_message(&mut self, message: PeerMessage) -> (action: Option<
        Result<Action, NodeError>,
    >)
        requires
            old(self).wf(),
        ensures
            final(self).wf(),
            match action {
                Some(action) => old(self)@.admits(message@) && old(self)@.answers(
                    message@,
                    final(self)@,
                    action,
                ),
                None => !old(self)@.admits(message@) && final(self)@ == old(self)@,
            },
    {
        if self.admits(&message) {
            Some(self.process_message(message))
        } else {
            None
        }
    }

    /// Goes on after headers of a message were added to the chain, `headers_len` of them.
    pub fn headers_processed(&mut self, headers_len: i32, stored: Vec<BlockHeader>) -> (action:
        Result<Action, NodeError>)
        requires
            old(self).wf(),
            old(self)@.admits_count(headers_len as int),
        ensures
            final(self).wf(),
            final(self)@ == old(self)@.after_headers(headers_len as int),
            action matches Ok(action) && old(self)@.headers_action(
                action,
                crate::header_chain::stored_headers(stored@),
                headers_len as int,
            ),
    {
        match self.sync_state {
            SyncState::IBD(IBDState::HeaderSync(progress)) => {
                let new_sync_height = progress.current_sync_height + headers_len;
                if new_sync_height >= progress.target_height {
                    Ok(Action::SaveChain)
                } else {
                    self.sync_state = SyncState::IBD(
                        IBDState::HeaderSync(
                            HeaderSyncState {
                                target_height: progress.target_height,
                                current_sync_height: new_sync_height,
                            },
                        ),
                    );
                    match self.request_headers(self.headers_chain.tip().1) {
                        Ok(message) => Ok(Action::Send(message)),
                        Err(error) => Err(error),
                    }
                }
            },
            _ => {
                let mut inventory: Vec<Inventory> = Vec::with_capacity(stored.len());
                let ghost hashes = stored_hashes(crate::header_chain::stored_headers(stored@));
                for i in 0..stored.len()
                    invariant
                        hashes == stored_hashes(crate::header_chain::stored_headers(stored@)),
                        crate::message::inventory_view(inventory@) == hashes.take(i as int),
                {
                    let ghost earlier = inventory@;
                    inventory.push(Inventory::WitnessBlock(stored[i].block_hash));
                    proof {
                        assert(crate::message::inventory_view(inventory@)
                            == crate::message::inventory_view(earlier).push(hashes[i as int]));
                        assert(hashes.take(i + 1) == hashes.take(i as int).push(hashes[i as int]));
                    }
                }
                assert(hashes.take(hashes.len() as int) == hashes);
                Ok(Action::SaveHeaders { headers: stored, inventory })
            },
        }
    }

    /// Goes on after the chain of headers was saved: blocks are fetched from the genesis block
    /// on.
    pub fn chain_saved(&mut self, genesis: BlockIndex) -> (message: Result<
        RawNetworkMessage,
        NodeError,
    >)
        requires
            old(self).wf(),
            can_request_blocks(old(self)@.chain, genesis.1@),
        ensures
            final(self).wf(),
            final(self)@ == (NodeView { sync: SyncView::BlockSync(genesis@), ..old(self)@ }),
            blocks_requested(message, old(self)@, genesis.1@),
    {
        self.sync_state = SyncState::IBD(IBDState::BlockSync(genesis));
        self.request_blocks(&genesis.1)
    }

    /// The height of the last block of the batch before.
    fn last_sync_height(&self) -> (height: i32)
        ensures
            height == last_sync_height(self@.sync),
    {
        match self.sync_state {
            SyncState::IBD(IBDState::BlockSync(block)) => block.0,
            SyncState::InSync(block) => block.0,
            _ => 0,
        }
    }

    /// Whether [`Node::block_processed`] can be called with these arguments.
    pub fn admits_block(&self, valid: bool, new: bool, tip: &BlockIndex) -> (admitted: bool)
        requires
            self.wf(),
        ensures
            admitted == self@.admits_block(valid, new, tip@),
    {
        if valid && new {
            match self.last_sync_height().checked_add(BATCH as i32 - 1) {
                Some(height) => height >= tip.0 || self.headers_chain.can_walk(&tip.1),
                None => false,
            }
        } else {
            true
        }
    }

    /// Goes on after the validation engine took a block and now has this tip. A valid new block
    /// makes the tip the last block that the peers are told of. Once a batch of blocks was
    /// processed, the next one is asked for.
    pub fn block_processed(
        &mut self,
        valid: bool,
        new: bool,
        tip: BlockIndex,
        peer: &mut Peer,
    ) -> (message: Result<Option<RawNetworkMessage>, NodeError>)
        requires
            old(self).wf(),
            old(self)@.admits_block(valid, new, tip@),
        ensures
            final(self).wf(),
            final(self)@ == old(self)@.after_block(valid, new, tip@),
            final(peer)@ == (if valid && new {
                PeerView { current_block: tip@, ..old(peer)@ }
            } else {
                old(peer)@
            }),
            if batch_done(old(self)@.sync, valid, new, tip@) {
                match message {
                    Ok(Some(raw)) => blocks_requested(Ok(raw), old(self)@, tip.1@),
                    Ok(None) => false,
                    Err(error) => blocks_requested(Err(error), old(self)@, tip.1@),
                }
            } else {
                message matches Ok(None)
            },
    {
        if valid && new {
            self.peer_manager.update_block(tip);
            peer.update_block(tip);
            if self.last_sync_height() + (BATCH as i32 - 1) < tip.0 {
                self.sync_state = SyncState::InSync(tip);
                return match self.request_blocks(&tip.1) {
                    Ok(message) => Ok(Some(message)),
                    Err(error) => Err(error),
                };
            }
        }
        Ok(None)
    }
}

/// Whether a block completed a batch: it was valid and new, and the tip is a batch beyond the
/// last block of the batch before.
pub open spec fn batch_done(sync: SyncView, valid: bool, new: bool, tip: (int, Seq<u8>)) -> bool {
    valid && new && last_sync_height(sync) + BATCH <= tip.0
}

} // verus!
