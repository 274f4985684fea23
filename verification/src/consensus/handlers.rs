//! Event handlers: incoming messages, timers, validation outcomes, and the
//! transition to a new view.
//!
//! The rules are tried again after every handler.

use crate::action::{act, Action, Event, Fault, Warning};
use crate::consensus::execute::maybe_kick_validation;
use crate::consensus::model::{
    is_qc_phase, message_step, new_view_msg_step, new_view_step, outcome_step, phase_before,
    phase_qc_step, proposal_step, timer_step, vote_step, votes_of, with_vote,
};
use crate::consensus::qc::verify_qc;
use crate::consensus::rules::stage;
use crate::consensus::{fault_of, local, Wiring};
use crate::digest::same;
use crate::ledger::State;
use crate::messages::{
    clone_qc, genesis_hash, node_hash, opt_cert, verify_vote_sig, Msg, MsgType, Node, Wire, QC,
};
use crate::state::{
    certs_view, new_views_view, states_view, votes_view, ReplicaState, TimerEvent, ViewData,
};
use crate::validator::ValidateOutcome;
use std::collections::HashMap;
use vstd::prelude::*;

verus! {

/// Enters `new_view`: NEW-VIEW(view = the view left, prepareQC) to the leader
/// of the new view, and the timer of the new view.
pub fn enter_new_view(
    rs: &mut ReplicaState,
    new_view: u64,
    w: &Wiring<'_>,
    out: &mut Vec<Action>,
)
    requires
        old(rs)@.n >= 1,
    ensures
        local(*final(rs), final(out)@) == new_view_step(
            local(*old(rs), old(out)@),
            w@,
            new_view,
        ),
{
    let prev_view = rs.view;
    rs.view = new_view;
    let next_leader = rs.leader_for(new_view);
    act(
        out,
        Action::Log {
            view: new_view,
            event: Event::ViewStart { leader: next_leader, timeout_ms: rs.timeout_interval_ms },
        },
    );
    let my_prepare_qc = clone_qc(&rs.prepare_qc);
    if next_leader == w.my_id {
        let vd = rs.vd_mut(prev_view);
        let ghost before = vd.new_view_msgs@;
        let ghost cert = opt_cert(my_prepare_qc);
        vd.new_view_msgs.insert(w.my_id, my_prepare_qc);
        assert(new_views_view(vd.new_view_msgs@) =~= new_views_view(before).insert(w.my_id, cert));
    } else {
        act(
            out,
            Action::SendTo {
                peer: next_leader,
                msg: Wire::NewView { view: prev_view, justify: my_prepare_qc, sender: w.my_id },
            },
        );
    }
    act(
        out,
        Action::Log {
            view: new_view,
            event: Event::NewViewSend { to: next_leader, from_view: prev_view },
        },
    );
    act(out, Action::ArmTimer { view: new_view, ms: rs.timeout_interval_ms });
}

/// NEXTVIEW: the timer of a view runs out. Unless the view has been left or
/// decided, the replica sends NEW-VIEW(view, prepareQC) to the leader of the
/// next view and enters it, with the timeout doubled.
pub fn handle_timer(
    rs: &mut ReplicaState,
    evt: TimerEvent,
    w: &Wiring<'_>,
    out: &mut Vec<Action>,
)
    requires
        old(rs)@.n >= 1,
        old(rs)@.view < u64::MAX,
    ensures
        local(*final(rs), final(out)@) == timer_step(local(*old(rs), old(out)@), w@, evt.view),
{
    if evt.view != rs.view {
        return;
    }
    if let Some(d) = rs.vd(rs.view) {
        if d.seen_decide_qc {
            return;
        }
    }
    act(out, Action::Log { view: rs.view, event: Event::NextView });
    rs.timeout_interval_ms = if rs.timeout_interval_ms > u64::MAX / 2 {
        u64::MAX
    } else {
        rs.timeout_interval_ms * 2
    };
    enter_new_view(rs, rs.view + 1, w, out);
}

/// Takes in a finished validation.
#[verifier::rlimit(40)]
pub fn ingest_validation(rs: &mut ReplicaState, o: ValidateOutcome)
    ensures
        final(rs)@ == outcome_step(old(rs)@, o@),
{
    let ghost posts = rs.post_state_by_node@;
    rs.validation_result.insert(o.node_hash, o.valid);
    if let Some(ps) = o.post_state {
        rs.post_state_by_node.insert(o.node_hash, ps);
        assert(states_view(rs.post_state_by_node@) =~= states_view(posts).insert(
            o.node_hash,
            ps@,
        ));
    }
    if let Some(pr) = o.post_root {
        rs.post_root_by_node.insert(o.node_hash, pr);
    }
    if let Some(pr) = o.pre_root {
        rs.pre_root_by_node.insert(o.node_hash, pr);
    }
    let _ = rs.in_flight.remove(&o.node_hash);
    let done = match &rs.pending_validation {
        Some(p) => same(p, &o.node_hash),
        None => false,
    };
    if done {
        rs.pending_validation = None;
    }
}

/// Takes in a proposal. `qc_ok` says whether a quorum signed its highQC, and
/// `hash` is the hash of the proposed node.
///
/// A highQC may be missing in any view before which no view has reached
/// PRE-COMMIT: then no replica has a prepareQC. Whether the node is safe to
/// vote for is checked with the vote.
#[verifier::rlimit(40)]
pub fn on_proposal(
    rs: &mut ReplicaState,
    w: &Wiring<'_>,
    live_state: &State,
    view: u64,
    node: Node,
    justify: Option<QC>,
    sender: u32,
    qc_ok: bool,
    hash: [u8; 32],
    out: &mut Vec<Action>,
) -> (r: Result<(), Fault>)
    requires
        old(rs)@.n >= 1,
    ensures
        (local(*final(rs), final(out)@), fault_of(r)) == proposal_step(
            local(*old(rs), old(out)@),
            w@,
            live_state@,
            view,
            node,
            opt_cert(justify),
            sender,
            qc_ok,
            hash,
        ),
{
    let expected = rs.leader_for(view);
    if sender != expected {
        act(out, Action::Warn { warning: Warning::ProposalNotFromLeader { sender, expected } });
        return Ok(());
    }
    if justify.is_some() && !qc_ok {
        act(out, Action::Warn { warning: Warning::ProposalBadHighQc });
        return Ok(());
    }
    let (expected_parent, high_qc_view) = match &justify {
        Some(q) => (q.node_hash, q.view),
        None => (genesis_hash(), 0),
    };
    if !same(&node.parent, &expected_parent) {
        act(out, Action::Warn { warning: Warning::ProposalWrongParent });
        return Ok(());
    }
    rs.tree.insert(hash, node);
    let vd = rs.vd_mut(view);
    if vd.proposal.is_none() {
        vd.proposal = Some((node, justify));
        act(
            out,
            Action::Log {
                view,
                event: Event::ProposeRecv {
                    leaf_hash: hash,
                    leaf_height: node.height,
                    high_qc_view,
                    sender,
                },
            },
        );
    }
    maybe_kick_validation(rs, w, hash, live_state, out)
}

/// The phase whose certificate `phase` is opened with, where there is one.
fn expected_type(phase: MsgType) -> (r: Option<MsgType>)
    ensures
        match r {
            Some(t) => is_qc_phase(phase) && t == phase_before(phase),
            None => !is_qc_phase(phase),
        },
{
    match phase {
        MsgType::PreCommit => Some(MsgType::Prepare),
        MsgType::Commit => Some(MsgType::PreCommit),
        MsgType::Decide => Some(MsgType::Commit),
        _ => None,
    }
}

/// Takes in a certificate. `qc_ok` says whether a quorum signed it.
///
/// A certificate for DECIDE commits its node whatever view the replica is in,
/// so that one that arrives late still leads to execution.
#[verifier::rlimit(40)]
pub fn on_phase_qc(
    rs: &mut ReplicaState,
    msg_type: MsgType,
    view: u64,
    justify: QC,
    sender: u32,
    qc_ok: bool,
    out: &mut Vec<Action>,
)
    requires
        old(rs)@.n >= 1,
    ensures
        local(*final(rs), final(out)@) == phase_qc_step(
            local(*old(rs), old(out)@),
            msg_type,
            view,
            justify@,
            sender,
            qc_ok,
        ),
{
    let ghost r0 = rs@;
    let ghost cert = justify@;
    let expected = rs.leader_for(view);
    if sender != expected {
        act(out, Action::Warn { warning: Warning::PhaseQcNotFromLeader { sender, expected } });
        return;
    }
    let qc_type = match expected_type(msg_type) {
        Some(t) => t,
        None => {
            act(out, Action::Warn { warning: Warning::PhaseQcBadType { msg_type } });
            return;
        },
    };
    if justify.msg_type != qc_type || justify.view != view {
        act(out, Action::Warn { warning: Warning::PhaseQcMismatch });
        return;
    }
    if !qc_ok {
        act(out, Action::Warn { warning: Warning::PhaseQcBadSigs });
        return;
    }
    let vd = rs.vd_mut(view);
    let known = match msg_type {
        MsgType::PreCommit => vd.seen_pre_commit_qc,
        MsgType::Commit => vd.seen_commit_qc,
        _ => vd.seen_decide_qc,
    };
    assert(rs@ == r0.touched(view));
    if known {
        return;
    }
    act(out, Action::Log { view, event: Event::PhaseQcRecv { phase: msg_type } });
    if msg_type == MsgType::Decide {
        let ghost m = rs.decided_nodes@;
        rs.decided_nodes.insert(justify.node_hash, justify.clone());
        assert(certs_view(rs.decided_nodes@) =~= certs_view(m).insert(cert.node_hash, cert));
    }
    stage(rs, msg_type, view, justify);
    assert(r0.view_data.insert(view, rs@.round(view)) =~= rs@.view_data);
}

/// Adds a vote to the record of a view, unless the voter has voted in that
/// phase. NEW-VIEW and DECIDE have no votes. Says whether it was added.
#[verifier::rlimit(40)]
fn add_vote(
    vd: &mut ViewData,
    msg_type: MsgType,
    voter: u32,
    hash: [u8; 32],
    sig: Vec<u8>,
) -> (r: bool)
    ensures
        r == (msg_type != MsgType::NewView && msg_type != MsgType::Decide && !votes_of(
            old(vd)@,
            msg_type,
        ).contains_key(voter)),
        final(vd)@ == if r {
            with_vote(old(vd)@, msg_type, voter, hash, sig@)
        } else {
            old(vd)@
        },
{
    let ghost before = *vd;
    let ghost vote = (hash, sig@);
    match msg_type {
        MsgType::Prepare => {
            if vd.prepare_votes.contains_key(&voter) {
                return false;
            }
            vd.prepare_votes.insert(voter, (hash, sig));
            assert(votes_view(vd.prepare_votes@) =~= before@.prepare_votes.insert(voter, vote));
        },
        MsgType::PreCommit => {
            if vd.precommit_votes.contains_key(&voter) {
                return false;
            }
            vd.precommit_votes.insert(voter, (hash, sig));
            assert(votes_view(vd.precommit_votes@) =~= before@.precommit_votes.insert(voter, vote));
        },
        MsgType::Commit => {
            if vd.commit_votes.contains_key(&voter) {
                return false;
            }
            vd.commit_votes.insert(voter, (hash, sig));
            assert(votes_view(vd.commit_votes@) =~= before@.commit_votes.insert(voter, vote));
        },
        _ => return false,
    }
    true
}

/// Takes in a vote. `known` says whether the key of the voter is known, and
/// `sig_ok` whether the voter signed the vote. Only the leader of a view
/// collects its votes, and only the first vote of a voter counts.
#[verifier::rlimit(40)]
pub fn on_vote(
    rs: &mut ReplicaState,
    w: &Wiring<'_>,
    msg_type: MsgType,
    view: u64,
    hash: [u8; 32],
    voter: u32,
    sig: Vec<u8>,
    known: bool,
    sig_ok: bool,
    out: &mut Vec<Action>,
)
    requires
        old(rs)@.n >= 1,
    ensures
        local(*final(rs), final(out)@) == vote_step(
            local(*old(rs), old(out)@),
            w@.id,
            msg_type,
            view,
            hash,
            voter,
            sig@,
            known,
            sig_ok,
        ),
{
    if rs.leader_for(view) != w.my_id {
        return;
    }
    if !known {
        act(out, Action::Warn { warning: Warning::VoteUnknownVoter { voter } });
        return;
    }
    if !sig_ok {
        act(out, Action::Warn { warning: Warning::VoteBadSig { voter } });
        return;
    }
    if !add_vote(rs.vd_mut(view), msg_type, voter, hash, sig) {
        return;
    }
    act(out, Action::Log { view, event: Event::VoteRecv { phase: msg_type, voter } });
}

/// Takes in a NEW-VIEW message. `qc_ok` says whether a quorum signed its
/// prepareQC. The leader of a view collects the NEW-VIEW messages of the view
/// before.
#[verifier::rlimit(40)]
pub fn on_new_view(
    rs: &mut ReplicaState,
    w: &Wiring<'_>,
    view: u64,
    justify: Option<QC>,
    sender: u32,
    qc_ok: bool,
    out: &mut Vec<Action>,
)
    requires
        old(rs)@.n >= 1,
        view < u64::MAX,
    ensures
        local(*final(rs), final(out)@) == new_view_msg_step(
            local(*old(rs), old(out)@),
            w@.id,
            view,
            opt_cert(justify),
            sender,
            qc_ok,
        ),
{
    if rs.leader_for(view + 1) != w.my_id {
        return;
    }
    if justify.is_some() && !qc_ok {
        act(out, Action::Warn { warning: Warning::NewViewBadJustify });
        return;
    }
    let ghost cert = opt_cert(justify);
    let vd = rs.vd_mut(view);
    let ghost before = *vd;
    assert(before@.new_view_msgs.contains_key(sender) == vd.new_view_msgs@.contains_key(sender));
    if vd.new_view_msgs.contains_key(&sender) {
        return;
    }
    vd.new_view_msgs.insert(sender, justify);
    assert(new_views_view(vd.new_view_msgs@) =~= new_views_view(before.new_view_msgs@).insert(
        sender,
        cert,
    ));
    act(
        out,
        Action::Log { view: view + 1, event: Event::NewViewRecv { from_view: view, sender } },
    );
}

/// Takes in a message of a peer, after its signatures have been checked under
/// the public keys `peer_keys`.
#[verifier::rlimit(40)]
pub fn handle_msg(
    rs: &mut ReplicaState,
    msg: Wire,
    peer_keys: &HashMap<u32, [u8; 32]>,
    w: &Wiring<'_>,
    live_state: &State,
    out: &mut Vec<Action>,
) -> (r: Result<(), Fault>)
    requires
        old(rs)@.n >= 1,
        msg@ matches Msg::NewView { view, .. } ==> view < u64::MAX,
    ensures
        (local(*final(rs), final(out)@), fault_of(r)) == message_step(
            local(*old(rs), old(out)@),
            w@,
            live_state@,
            msg@,
            peer_keys@,
        ),
{
    match msg {
        Wire::Hello { .. } => Ok(()),
        Wire::Proposal { view, node, justify, sender } => {
            let mut qc_ok = false;
            if let Some(qc) = &justify {
                if sender == rs.leader_for(view) {
                    qc_ok = verify_qc(qc, rs.quorum, peer_keys);
                }
            }
            let hash = node_hash(&node);
            on_proposal(rs, w, live_state, view, node, justify, sender, qc_ok, hash, out)
        },
        Wire::PhaseQc { msg_type, view, justify, sender } => {
            let qc_ok = sender == rs.leader_for(view) && justify.view == view && verify_qc(
                &justify,
                rs.quorum,
                peer_keys,
            );
            on_phase_qc(rs, msg_type, view, justify, sender, qc_ok, out);
            Ok(())
        },
        Wire::Vote { msg_type, view, node_hash, voter, partial_sig } => {
            let mut known = false;
            let mut sig_ok = false;
            if rs.leader_for(view) == w.my_id {
                if let Some(pk) = peer_keys.get(&voter) {
                    known = true;
                    sig_ok = verify_vote_sig(pk, msg_type, view, &node_hash, &partial_sig);
                }
            }
            on_vote(rs, w, msg_type, view, node_hash, voter, partial_sig, known, sig_ok, out);
            Ok(())
        },
        Wire::NewView { view, justify, sender } => {
            let mut qc_ok = false;
            if let Some(qc) = &justify {
                if rs.leader_for(view + 1) == w.my_id {
                    qc_ok = verify_qc(qc, rs.quorum, peer_keys);
                }
            }
            on_new_view(rs, w, view, justify, sender, qc_ok, out);
            Ok(())
        },
    }
}

} // verus!
