//! What a replica asks its surroundings to do.
//!
//! The protocol changes the state of a replica and appends actions to a list.
//! Whoever runs the replica performs them in order.

use crate::ledger::State;
use crate::messages::{MsgType, Msg, Wire};
use crate::validator::{Request, ValidateRequest};
use vstd::prelude::*;

verus! {

/// Why a replica does not vote for a proposal.
#[derive(Clone, Copy, Debug, PartialEq, Eq, Structural)]
pub enum SkipReason {
    /// The block is not valid.
    ValidFalse,
    /// The node is not safe.
    SafeNodeFalse,
}

/// A step of the protocol, for the event log.
#[derive(Clone, Copy, Debug, PartialEq, Eq)]
pub enum Event {
    ProposeSend { leaf_hash: [u8; 32], leaf_height: u64, high_qc_view: u64 },
    ProposeRecv { leaf_hash: [u8; 32], leaf_height: u64, high_qc_view: u64, sender: u32 },
    PrepareSkip { reason: SkipReason },
    PrepareVoteSend { leaf_hash: [u8; 32] },
    PreCommitVoteSend { node_hash: [u8; 32] },
    CommitVoteSend { node_hash: [u8; 32] },
    PhaseQcSend { phase: MsgType, node_hash: [u8; 32] },
    PhaseQcRecv { phase: MsgType },
    VoteRecv { phase: MsgType, voter: u32 },
    NewViewRecv { from_view: u64, sender: u32 },
    NewViewSend { to: u32, from_view: u64 },
    NextView,
    ViewStart { leader: u32, timeout_ms: u64 },
    ViewDecide { node_hash: [u8; 32] },
    ValidateStart { height: u64 },
    Execute { height: u64, node_hash: [u8; 32] },
}

/// Something that should not happen among correct replicas.
#[derive(Clone, Copy, Debug, PartialEq, Eq)]
pub enum Warning {
    /// The leader does not know the node of its highQC.
    HighQcNodeUnknown,
    /// A proposal does not come from the leader of its view.
    ProposalNotFromLeader { sender: u32, expected: u32 },
    /// The highQC of a proposal is not signed by a quorum.
    ProposalBadHighQc,
    /// The node of a proposal does not extend its highQC.
    ProposalWrongParent,
    /// A certificate does not come from the leader of its view.
    PhaseQcNotFromLeader { sender: u32, expected: u32 },
    /// A certificate announces a phase that has none.
    PhaseQcBadType { msg_type: MsgType },
    /// A certificate is for another phase or view than announced.
    PhaseQcMismatch,
    /// A certificate is not signed by a quorum.
    PhaseQcBadSigs,
    /// The key of a voter is not known.
    VoteUnknownVoter { voter: u32 },
    /// A vote is not signed by its voter.
    VoteBadSig { voter: u32 },
    /// The prepareQC of a NEW-VIEW message is not signed by a quorum.
    NewViewBadJustify,
    /// A committed block is not valid.
    ExecuteInvalid { height: u64 },
    /// A proposed command is not the command of the block at its height.
    CmdMismatch { height: u64 },
}

/// Why a replica cannot go on.
#[derive(Clone, Copy, Debug, PartialEq, Eq)]
pub enum Fault {
    /// The workload has no block at the height of a node.
    NoBlock { height: u64 },
    /// The proof of a committed block starts from another state root than the
    /// one that the chain has reached.
    ChainBreak { height: u64, pre: [u8; 32], expected: [u8; 32] },
}

/// Something for the surroundings of a replica to do.
pub enum Action {
    /// Send a message to every connected peer.
    Broadcast { msg: Wire },
    /// Send a message to one peer, if it is connected.
    SendTo { peer: u32, msg: Wire },
    /// Report the timer of `view` after `ms` milliseconds.
    ArmTimer { view: u64, ms: u64 },
    /// Validate a block on a state.
    Validate { req: ValidateRequest, input: State },
    /// Write an event of `view` to the log.
    Log { view: u64, event: Event },
    /// Write a warning to the error output.
    Warn { warning: Warning },
}

/// What an action asks.
#[allow(inconsistent_fields)]
#[verifier::ext_equal]
pub enum Effect {
    Broadcast { msg: Msg },
    SendTo { peer: u32, msg: Msg },
    ArmTimer { view: u64, ms: u64 },
    Validate { req: Request, input: Map<u32, u64> },
    Log { view: u64, event: Event },
    Warn { warning: Warning },
}

impl View for Action {
    type V = Effect;

    open spec fn view(&self) -> Effect {
        match *self {
            Action::Broadcast { msg } => Effect::Broadcast { msg: msg@ },
            Action::SendTo { peer, msg } => Effect::SendTo { peer, msg: msg@ },
            Action::ArmTimer { view, ms } => Effect::ArmTimer { view, ms },
            Action::Validate { req, input } => Effect::Validate { req: req@, input: input@ },
            Action::Log { view, event } => Effect::Log { view, event },
            Action::Warn { warning } => Effect::Warn { warning },
        }
    }
}

/// What each of the actions asks.
pub open spec fn effects(s: Seq<Action>) -> Seq<Effect> {
    Seq::new(s.len(), |i: int| s[i]@)
}

/// Appends an action.
pub fn act(out: &mut Vec<Action>, a: Action)
    ensures
        effects(final(out)@) == effects(old(out)@).push(a@),
{
    out.push(a);
    assert(effects(out@) =~= effects(old(out)@).push(a@));
}

} // verus!
