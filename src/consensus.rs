//! The consensus engine's decisions: from its state and an event to the
//! next state and the actions to perform.
use vstd::prelude::*;
use crate::block::{Block, Header, Payload, PayloadHeader};
use crate::transaction::SignedTransaction;

verus! {

/// Why a block was not imported.
#[derive(Clone, Copy, Debug, PartialEq, Eq, Structural)]
pub enum BlockImportError {
    NoopImporter,
    ProviderError,
    BlockHeightError,
    AlreadyImportedBlock,
    NotChainedBlock,
}

/// What reaches the consensus engine.
#[derive(Debug)]
pub enum ConsensusEvent {
    /// The builder produced a payload.
    Payload(Payload),
    /// The builder found no pending transaction.
    PoolIsEmpty,
    /// The miner found a nonce.
    MiningSuccess(Header),
    /// The miner stopped.
    MiningHalted,
    /// A block import finished with this result.
    Imported(Block, Result<(), BlockImportError>),
    /// A new transaction entered the pool.
    NewTransaction,
}

/// What the consensus engine asks its collaborators to do.
#[derive(Debug)]
pub enum ConsensusAction {
    /// Ask the builder for a payload now.
    BuildPayload,
    /// Hand a header to the miner.
    MinePayload(PayloadHeader),
    /// Import a block through the common validation path.
    ImportBlock(Block),
    /// Remove the block's transactions from the pool and reorganize it.
    PrunePool(Block),
    /// Stop the miner.
    HaltMining,
    /// Send a block to every peer.
    BroadcastBlock(Block),
    /// The block does not extend this chain: probe a peer's chain.
    SyncChain,
}

/// A fresh copy of a list of transactions.
pub fn copy_body(body: &Vec<SignedTransaction>) -> (r: Vec<SignedTransaction>)
    ensures
        r@ == body@,
{
    let mut out: Vec<SignedTransaction> = Vec::new();
    let mut i: usize = 0;
    while i < body.len()
        invariant
            i <= body@.len(),
            out@ == body@.subrange(0, i as int),
        decreases body@.len() - i,
    {
        out.push(body[i]);
        i = i + 1;
        assert(out@ =~= body@.subrange(0, i as int));
    }
    assert(out@ =~= body@);
    out
}

/// The consensus engine's state: the payload being mined, if any.
pub struct ConsensusState {
    pub mining_payload: Option<Payload>,
}

/// Whether an action broadcasts a block.
pub open spec fn is_broadcast(a: ConsensusAction) -> bool {
    a is BroadcastBlock
}

/// Whether an action imports a block.
pub open spec fn is_import(a: ConsensusAction) -> bool {
    a is ImportBlock
}

/// The effect of one event: a non-empty payload is mined and remembered,
/// an empty one or an empty pool leaves the engine idle until a new
/// transaction arrives, a mining
/// result for the remembered payload's timestamp becomes a block to import
/// (any other is dropped), a halt forgets the payload and asks for a new
/// one, a successful import prunes the pool, halts mining, broadcasts the
/// block and asks for a new payload, an import that failed because the
/// block does not extend this chain asks for a chain probe (any other
/// failure does nothing), and a new transaction asks for a payload.
pub open spec fn step_ensures(
    before: ConsensusState,
    after: ConsensusState,
    event: ConsensusEvent,
    actions: Seq<ConsensusAction>,
) -> bool {
    match event {
        ConsensusEvent::Payload(p) => if p.body@.len() == 0 {
            actions.len() == 0 && after.mining_payload == before.mining_payload
        } else {
            actions == seq![ConsensusAction::MinePayload(p.header)] && after.mining_payload == Some(p)
        },
        ConsensusEvent::PoolIsEmpty => actions.len() == 0 && after.mining_payload == before.mining_payload,
        ConsensusEvent::MiningSuccess(h) => after.mining_payload == before.mining_payload && match before.mining_payload {
            Some(p) => if h.timestamp == p.header.timestamp {
                actions.len() == 1 && imports(actions[0], h, p.body@)
            } else {
                actions.len() == 0
            },
            None => actions.len() == 0,
        },
        ConsensusEvent::MiningHalted => actions == seq![ConsensusAction::BuildPayload] && after.mining_payload is None,
        ConsensusEvent::Imported(b, result) => match result {
            Ok(()) => {
                &&& after.mining_payload is None
                &&& actions.len() == 4
                &&& prunes(actions[0], b.header, b.body@)
                &&& actions[1] is HaltMining
                &&& broadcasts(actions[2], b.header, b.body@)
                &&& actions[3] is BuildPayload
            },
            Err(e) => after.mining_payload == before.mining_payload && if e is BlockHeightError || e is NotChainedBlock {
                actions == seq![ConsensusAction::SyncChain]
            } else {
                actions.len() == 0
            },
        },
        ConsensusEvent::NewTransaction => actions == seq![ConsensusAction::BuildPayload]
            && after.mining_payload == before.mining_payload,
    }
}

pub open spec fn imports(a: ConsensusAction, h: Header, body: Seq<SignedTransaction>) -> bool {
    match a {
        ConsensusAction::ImportBlock(b) => b.header == h && b.body@ == body,
        _ => false,
    }
}

pub open spec fn prunes(a: ConsensusAction, h: Header, body: Seq<SignedTransaction>) -> bool {
    match a {
        ConsensusAction::PrunePool(b) => b.header == h && b.body@ == body,
        _ => false,
    }
}

pub open spec fn broadcasts(a: ConsensusAction, h: Header, body: Seq<SignedTransaction>) -> bool {
    match a {
        ConsensusAction::BroadcastBlock(b) => b.header == h && b.body@ == body,
        _ => false,
    }
}

impl ConsensusState {
    /// At start nothing is being mined, and the builder is asked for a
    /// payload.
    pub fn new() -> (r: (ConsensusState, Vec<ConsensusAction>))
        ensures
            r.0.mining_payload is None,
            r.1@ == seq![ConsensusAction::BuildPayload],
    {
        let mut actions: Vec<ConsensusAction> = Vec::new();
        actions.push(ConsensusAction::BuildPayload);
        assert(actions@ =~= seq![ConsensusAction::BuildPayload]);
        (ConsensusState { mining_payload: None }, actions)
    }

    /// Handles one event.
    pub fn step(&mut self, event: ConsensusEvent) -> (r: Vec<ConsensusAction>)
        ensures
            step_ensures(*old(self), *final(self), event, r@),
    {
        let mut actions: Vec<ConsensusAction> = Vec::new();
        match event {
            ConsensusEvent::Payload(p) => {
                if p.body.len() == 0 {
                } else {
                    actions.push(ConsensusAction::MinePayload(p.header));
                    assert(actions@ =~= seq![ConsensusAction::MinePayload(p.header)]);
                    self.mining_payload = Some(p);
                }
            },
            ConsensusEvent::PoolIsEmpty => {},
            ConsensusEvent::MiningSuccess(h) => {
                match &self.mining_payload {
                    Some(p) => {
                        if h.timestamp == p.header.timestamp {
                            let block = Block { header: h, body: copy_body(&p.body) };
                            actions.push(ConsensusAction::ImportBlock(block));
                        }
                    },
                    None => {},
                }
            },
            ConsensusEvent::MiningHalted => {
                self.mining_payload = None;
                actions.push(ConsensusAction::BuildPayload);
                assert(actions@ =~= seq![ConsensusAction::BuildPayload]);
            },
            ConsensusEvent::Imported(b, result) => {
                match result {
                    Ok(()) => {
                        self.mining_payload = None;
                        actions.push(ConsensusAction::PrunePool(Block { header: b.header, body: copy_body(&b.body) }));
                        actions.push(ConsensusAction::HaltMining);
                        actions.push(ConsensusAction::BroadcastBlock(b));
                        actions.push(ConsensusAction::BuildPayload);
                    },
                    Err(e) => {
                        match e {
                            BlockImportError::BlockHeightError | BlockImportError::NotChainedBlock => {
                                actions.push(ConsensusAction::SyncChain);
                                assert(actions@ =~= seq![ConsensusAction::SyncChain]);
                            },
                            _ => {},
                        }
                    },
                }
            },
            ConsensusEvent::NewTransaction => {
                actions.push(ConsensusAction::BuildPayload);
                assert(actions@ =~= seq![ConsensusAction::BuildPayload]);
            },
        }
        actions
    }
}

/// A block is broadcast only in answer to the successful import of that
/// block: no other event, and no failed import, yields a broadcast.
pub proof fn lemma_broadcast_only_after_import(
    before: ConsensusState,
    after: ConsensusState,
    event: ConsensusEvent,
    actions: Seq<ConsensusAction>,
)
    requires
        step_ensures(before, after, event, actions),
    ensures
        forall|i: int|
            0 <= i < actions.len() && #[trigger] is_broadcast(actions[i]) ==> match event {
                ConsensusEvent::Imported(b, result) => result is Ok && broadcasts(actions[i], b.header, b.body@),
                _ => false,
            },
{
}

/// A mining result whose timestamp differs from the payload being mined, or
/// that comes with no payload being mined, yields no block.
pub proof fn lemma_stale_mining_discarded(
    before: ConsensusState,
    after: ConsensusState,
    h: Header,
    actions: Seq<ConsensusAction>,
)
    requires
        step_ensures(before, after, ConsensusEvent::MiningSuccess(h), actions),
        before.mining_payload is None || before.mining_payload->0.header.timestamp != h.timestamp,
    ensures
        actions.len() == 0,
        forall|i: int| 0 <= i < actions.len() ==> !is_import(#[trigger] actions[i]),
{
}

/// What other components send to the consensus engine.
#[derive(Debug)]
pub enum ConsensusHandleMessage {
    ImportBlock(Block),
    NewTransaction(crate::transaction::Recovered),
}

/// A send-only endpoint of a component, typed by its message.
pub trait Handle {
    type Msg;

    fn send(&self, msg: Self::Msg);
}

/// A consensus endpoint that drops every message, for start-up and for
/// running components alone.
#[derive(Clone, Copy, Debug, Default)]
pub struct NoopConsensusHandle;

impl Handle for NoopConsensusHandle {
    type Msg = ConsensusHandleMessage;

    fn send(&self, _msg: ConsensusHandleMessage) {
    }
}

} // verus!
