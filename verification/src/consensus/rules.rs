//! The rules of the four phases.
//!
//! Each rule fires at most once per view and role, and only when its
//! conditions hold:
//!   - [`leader_prepare`]: broadcast a proposal
//!   - [`replica_prepare`]: vote PREPARE
//!   - [`leader_pre_commit`]: broadcast prepareQC
//!   - [`replica_pre_commit`]: set prepareQC, vote PRE-COMMIT
//!   - [`leader_commit`]: broadcast precommitQC
//!   - [`replica_commit`]: set lockedQC, vote COMMIT
//!   - [`leader_decide`]: broadcast commitQC
//!   - [`replica_decide`]: execute, enter the next view

use crate::action::{act, Action, Event, Fault, SkipReason, Warning};
use crate::consensus::execute::{
    law_execution_keeps_protocol, maybe_kick_validation, try_execute_chain,
};
use crate::consensus::handlers::enter_new_view;
use crate::consensus::model::{
    cast, collected, is_highest, is_qc_phase, leader_phase_step, leader_prepare_step, leaf_hash,
    leaf_height, may_open, opened, phase_signature, proposed_hash, propose_on_step, propose_step,
    proposal_due, ranks_first, replica_decide_step, replica_phase_step, replica_prepare_step,
    vote_out_step, with_opened, with_seen, with_staged, with_voted, Local, Me,
};
use crate::consensus::qc::form_qc;
use crate::consensus::{fault_of, local, system, Wiring};
use crate::ledger::State;
use crate::messages::{
    clone_qc, genesis_hash, node_hash, opt_cert, sign_vote, vote_signature, Cert, MsgType, Node,
    Wire, QC,
};
use crate::state::{certs_view, new_views_view, safe_node_with_hash, votes_view, ReplicaState};
use crate::table::key_list;
use std::collections::HashMap;
use vstd::prelude::*;

verus! {

// ---- PREPARE ----

/// The prepareQC of the highest view among NEW-VIEW messages, if any carries
/// one; of several the one of the lowest sender.
pub fn highest_qc(msgs: &HashMap<u32, Option<QC>>) -> (r: Option<QC>)
    ensures
        is_highest(new_views_view(msgs@), opt_cert(r)),
{
    let ghost model = new_views_view(msgs@);
    let senders = key_list(msgs);
    let mut high: Option<QC> = None;
    let mut from: u32 = 0;
    let mut i: usize = 0;
    while i < senders.len()
        invariant
            i <= senders@.len(),
            model == new_views_view(msgs@),
            forall|k: u32| senders@.contains(k) <==> #[trigger] msgs@.contains_key(k),
            match opt_cert(high) {
                Some(q) => {
                    &&& model.contains_key(from)
                    &&& model[from] == Some(q)
                    &&& forall|j: int|
                        0 <= j < i && model[#[trigger] senders@[j]] is Some ==> {
                            ||| model[senders@[j]]->0.view < q.view
                            ||| model[senders@[j]]->0.view == q.view && from <= senders@[j]
                        }
                },
                None => forall|j: int| 0 <= j < i ==> model[#[trigger] senders@[j]] is None,
            },
        decreases senders@.len() - i,
    {
        assert(senders@.contains(senders@[i as int]));
        assert(model.contains_key(senders@[i as int]));
        if let Some(Some(q)) = msgs.get(&senders[i]) {
            let newer = match &high {
                Some(h) => q.view > h.view || (q.view == h.view && senders[i] < from),
                None => true,
            };
            if newer {
                high = Some(q.clone());
                from = senders[i];
                assert(model[senders@[i as int]] == opt_cert(high));
            }
        }
        i += 1;
    }
    proof {
        assert forall|k: u32| #[trigger] model.contains_key(k) implies exists|j: int|
            0 <= j < senders@.len() && #[trigger] senders@[j] == k by {
            assert(msgs@.contains_key(k));
        }
        assert(opt_cert(high) is Some ==> ranks_first(model, from));
    }
    high
}

/// Proposes the node `leaf`, whose hash is `hash`, on top of `high_qc`.
pub fn propose_leaf(
    rs: &mut ReplicaState,
    w: &Wiring<'_>,
    live_state: &State,
    high_qc: Option<QC>,
    leaf: Node,
    hash: [u8; 32],
    out: &mut Vec<Action>,
) -> (r: Result<(), Fault>)
    ensures
        (local(*final(rs), final(out)@), fault_of(r)) == propose_step(
            local(*old(rs), old(out)@),
            w@,
            live_state@,
            opt_cert(high_qc),
            leaf,
            hash,
        ),
{
    let v = rs.view;
    rs.tree.insert(hash, leaf);
    let high_qc_view = match &high_qc {
        Some(q) => q.view,
        None => 0,
    };
    act(
        out,
        Action::Log {
            view: v,
            event: Event::ProposeSend { leaf_hash: hash, leaf_height: leaf.height, high_qc_view },
        },
    );
    act(
        out,
        Action::Broadcast {
            msg: Wire::Proposal {
                view: v,
                node: leaf,
                justify: clone_qc(&high_qc),
                sender: w.my_id,
            },
        },
    );
    let vd = rs.vd_mut(v);
    if vd.proposal.is_none() {
        vd.proposal = Some((leaf, high_qc));
    }
    vd.broadcast_proposal = true;
    maybe_kick_validation(rs, w, hash, live_state, out)
}

/// Proposes a node on top of `high_qc`, unless the workload is exhausted.
#[verifier::rlimit(40)]
pub fn propose_on(
    rs: &mut ReplicaState,
    w: &Wiring<'_>,
    live_state: &State,
    high_qc: Option<QC>,
    out: &mut Vec<Action>,
) -> (r: Result<(), Fault>)
    ensures
        (local(*final(rs), final(out)@), fault_of(r)) == propose_on_step(
            local(*old(rs), old(out)@),
            w@,
            live_state@,
            opt_cert(high_qc),
            leaf_hash(old(rs)@, w@.work, opt_cert(high_qc)),
        ),
{
    let mut parent = genesis_hash();
    let mut height: u64 = 0;
    if let Some(q) = &high_qc {
        parent = q.node_hash;
        match rs.tree.get(&q.node_hash) {
            Some(parent_node) => {
                if parent_node.height == u64::MAX {
                    return Ok(());
                }
                height = parent_node.height + 1;
            },
            None => {
                act(out, Action::Warn { warning: Warning::HighQcNodeUnknown });
                return Ok(());
            },
        }
    }
    if height >= w.workload.manifest.num_blocks as u64 {
        return Ok(());
    }
    let cmd = match w.workload.block(height) {
        Some(b) => b.cmd,
        None => return Err(Fault::NoBlock { height }),
    };
    let leaf = Node { parent, cmd, height };
    let hash = node_hash(&leaf);
    propose_leaf(rs, w, live_state, high_qc, leaf, hash, out)
}

/// The leader waits for `n - f` NEW-VIEW messages of the view before, takes
/// the highest prepareQC among them as highQC, and proposes a node on top of
/// it.
#[verifier::rlimit(40)]
pub fn leader_prepare(
    rs: &mut ReplicaState,
    w: &Wiring<'_>,
    live_state: &State,
    out: &mut Vec<Action>,
) -> (r: Result<(), Fault>)
    requires
        old(rs)@.n >= 1,
    ensures
        exists|high: Option<Cert>|
            (proposal_due(old(rs)@, w@.id) ==> is_highest(collected(old(rs)@), high)) && (
            local(*final(rs), final(out)@),
            fault_of(r),
        ) == #[trigger] leader_prepare_step(
            local(*old(rs), old(out)@),
            w@,
            live_state@,
            high,
            leaf_hash(old(rs)@, w@.work, high),
        ),
{
    let ghost l0 = local(*rs, out@);
    // Where nothing is proposed, the step is the same for any certificate.
    let ghost idle = leader_prepare_step(
        l0,
        w@,
        live_state@,
        None,
        leaf_hash(rs@, w@.work, None),
    );
    let v = rs.view;
    if rs.leader_for(v) != w.my_id {
        return Ok(());
    }
    let done = rs.vd_mut(v).broadcast_proposal;
    assert(local(*rs, out@) == l0.touched(v));
    if done {
        return Ok(());
    }
    let prev_view = v.saturating_sub(1);
    let high_qc = match rs.vd(prev_view) {
        Some(d) => {
            assert(d@ == rs@.round(prev_view) && d@ == l0.rs.round(prev_view));
            assert(new_views_view(d.new_view_msgs@).dom() =~= d.new_view_msgs@.dom());
            if d.new_view_msgs.len() < rs.quorum as usize {
                return Ok(());
            }
            highest_qc(&d.new_view_msgs)
        },
        None => {
            assert(collected(l0.rs) == Map::<u32, Option<Cert>>::empty());
            if rs.quorum > 0 {
                return Ok(());
            }
            None
        },
    };
    let ghost high = opt_cert(high_qc);
    proof {
        assert(is_highest(collected(l0.rs), high));
        assert(proposal_due(l0.rs, w@.id));
        assert(leaf_height(rs@, high) == leaf_height(l0.rs, high));
        let proposing = leader_prepare_step(
            l0,
            w@,
            live_state@,
            high,
            leaf_hash(l0.rs, w@.work, high),
        );
    }
    propose_on(rs, w, live_state, high_qc, out)
}

/// Counts a vote for the leader of the current view, if the replica is the
/// leader, or else sends it there.
#[verifier::rlimit(40)]
fn cast_vote(
    rs: &mut ReplicaState,
    w: &Wiring<'_>,
    msg_type: MsgType,
    hash: &[u8; 32],
    sig: Vec<u8>,
    out: &mut Vec<Action>,
)
    requires
        old(rs)@.n >= 1,
    ensures
        local(*final(rs), final(out)@) == cast(
            local(*old(rs), old(out)@),
            w@,
            msg_type,
            *hash,
            sig@,
        ),
{
    let v = rs.view;
    let leader = rs.leader_for(v);
    if leader == w.my_id {
        let ghost sig_view = sig@;
        let vd = rs.vd_mut(v);
        let ghost before = *vd;
        match msg_type {
            MsgType::Prepare => {
                vd.prepare_votes.insert(w.my_id, (*hash, sig));
                assert(votes_view(vd.prepare_votes@) =~= votes_view(before.prepare_votes@).insert(
                    w.my_id,
                    (*hash, sig_view),
                ));
            },
            MsgType::PreCommit => {
                vd.precommit_votes.insert(w.my_id, (*hash, sig));
                assert(votes_view(vd.precommit_votes@) =~= votes_view(
                    before.precommit_votes@,
                ).insert(w.my_id, (*hash, sig_view)));
            },
            MsgType::Commit => {
                vd.commit_votes.insert(w.my_id, (*hash, sig));
                assert(votes_view(vd.commit_votes@) =~= votes_view(before.commit_votes@).insert(
                    w.my_id,
                    (*hash, sig_view),
                ));
            },
            _ => (),
        }
    } else {
        act(
            out,
            Action::SendTo {
                peer: leader,
                msg: Wire::Vote {
                    msg_type,
                    view: v,
                    node_hash: *hash,
                    voter: w.my_id,
                    partial_sig: sig,
                },
            },
        );
    }
}

/// Marks a view as voted in for a phase.
fn set_voted(rs: &mut ReplicaState, v: u64, msg_type: MsgType)
    ensures
        final(rs)@ == old(rs)@.with_round(v, with_voted(old(rs)@.round(v), msg_type)),
{
    let vd = rs.vd_mut(v);
    match msg_type {
        MsgType::Prepare => vd.voted_prepare = true,
        MsgType::PreCommit => vd.voted_precommit = true,
        MsgType::Commit => vd.voted_commit = true,
        _ => (),
    }
}

/// Votes for the node `hash` in a phase of the current view, with the
/// signature `sig`.
pub fn vote_out(
    rs: &mut ReplicaState,
    w: &Wiring<'_>,
    msg_type: MsgType,
    hash: &[u8; 32],
    sig: Vec<u8>,
    out: &mut Vec<Action>,
)
    requires
        old(rs)@.n >= 1,
    ensures
        local(*final(rs), final(out)@) == vote_out_step(
            local(*old(rs), old(out)@),
            w@,
            msg_type,
            *hash,
            sig@,
        ),
{
    let v = rs.view;
    cast_vote(rs, w, msg_type, hash, sig, out);
    set_voted(rs, v, msg_type);
    let event = match msg_type {
        MsgType::PreCommit => Event::PreCommitVoteSend { node_hash: *hash },
        MsgType::Commit => Event::CommitVoteSend { node_hash: *hash },
        _ => Event::PrepareVoteSend { leaf_hash: *hash },
    };
    act(out, Action::Log { view: v, event });
}

/// A replica that has a proposal checks that its block is valid and that the
/// node is safe, and sends a PREPARE vote to the leader. It waits for the
/// validation of the block.
pub fn replica_prepare(rs: &mut ReplicaState, w: &Wiring<'_>, out: &mut Vec<Action>)
    requires
        old(rs)@.n >= 1,
    ensures
        local(*final(rs), final(out)@) == replica_prepare_step(
            local(*old(rs), old(out)@),
            w@,
            proposed_hash(old(rs)@),
            vote_signature(
                w@.sk,
                MsgType::Prepare,
                old(rs)@.view,
                proposed_hash(old(rs)@),
            ),
        ),
{
    let hash = match rs.vd(rs.view) {
        Some(d) => match &d.proposal {
            Some((leaf, _)) => node_hash(leaf),
            None => return,
        },
        None => return,
    };
    replica_prepare_with_hash(rs, w, &hash, out)
}

/// [`replica_prepare`] for a proposed node whose hash is known.
pub fn replica_prepare_with_hash(
    rs: &mut ReplicaState,
    w: &Wiring<'_>,
    hash: &[u8; 32],
    out: &mut Vec<Action>,
)
    requires
        old(rs)@.n >= 1,
    ensures
        local(*final(rs), final(out)@) == replica_prepare_step(
            local(*old(rs), old(out)@),
            w@,
            *hash,
            vote_signature(w@.sk, MsgType::Prepare, old(rs)@.view, *hash),
        ),
{
    let v = rs.view;
    let (valid, is_safe) = match rs.vd(v) {
        Some(d) => match &d.proposal {
            Some((leaf, high_qc)) => {
                if d.voted_prepare {
                    return;
                }
                let valid = match rs.validation_result.get(hash) {
                    Some(b) => *b,
                    None => return,
                };
                (valid, safe_node_with_hash(hash, leaf, high_qc, &rs.locked_qc, &rs.tree))
            },
            None => return,
        },
        None => return,
    };
    if !valid {
        set_voted(rs, v, MsgType::Prepare);
        let event = Event::PrepareSkip { reason: SkipReason::ValidFalse };
        act(out, Action::Log { view: v, event });
        return;
    }
    if !is_safe {
        set_voted(rs, v, MsgType::Prepare);
        let event = Event::PrepareSkip { reason: SkipReason::SafeNodeFalse };
        act(out, Action::Log { view: v, event });
        return;
    }
    let sig = sign_vote(w.sk, MsgType::Prepare, v, hash);
    vote_out(rs, w, MsgType::Prepare, hash, sig, out);
}

// ---- PRE-COMMIT, COMMIT, DECIDE ----

/// Opens `phase` of the current view with the certificate `qc`: broadcasts it,
/// and stages it for the replica itself.
#[verifier::rlimit(40)]
pub fn open_phase(
    rs: &mut ReplicaState,
    w: &Wiring<'_>,
    phase: MsgType,
    qc: QC,
    out: &mut Vec<Action>,
)
    requires
        is_qc_phase(phase),
        old(rs)@.leader(old(rs)@.view) == w@.id,
        !opened(old(rs)@.round(old(rs)@.view), phase),
    ensures
        local(*final(rs), final(out)@) == leader_phase_step(
            local(*old(rs), old(out)@),
            w@,
            phase,
            Some(qc@),
        ),
{
    let ghost r0 = rs@;
    let v = rs.view;
    act(
        out,
        Action::Log { view: v, event: Event::PhaseQcSend { phase, node_hash: qc.node_hash } },
    );
    act(
        out,
        Action::Broadcast {
            msg: Wire::PhaseQc { msg_type: phase, view: v, justify: qc.clone(), sender: w.my_id },
        },
    );
    let vd = rs.vd_mut(v);
    let staged_already = match phase {
        MsgType::PreCommit => {
            vd.broadcast_pre_commit = true;
            vd.seen_pre_commit_qc
        },
        MsgType::Commit => {
            vd.broadcast_commit = true;
            vd.seen_commit_qc
        },
        _ => {
            vd.broadcast_decide = true;
            vd.seen_decide_qc
        },
    };
    assert(rs@ == r0.with_round(v, with_opened(r0.round(v), phase)));
    if !staged_already {
        stage(rs, phase, v, qc);
    }
    assert(r0.touched(v).view_data.insert(v, rs@.round(v)) =~= rs@.view_data);
}

/// Remembers the certificate `qc`, which opens `phase` of `view`.
pub fn stage(rs: &mut ReplicaState, phase: MsgType, view: u64, qc: QC)
    requires
        is_qc_phase(phase),
    ensures
        final(rs)@ == with_staged(
            old(rs)@.with_round(view, with_seen(old(rs)@.round(view), phase)),
            phase,
            view,
            qc@,
        ),
{
    let ghost cert = qc@;
    let vd = rs.vd_mut(view);
    match phase {
        MsgType::PreCommit => {
            vd.seen_pre_commit_qc = true;
            let ghost m = rs.staged_pre_commit_qc@;
            rs.staged_pre_commit_qc.insert(view, qc);
            assert(certs_view(rs.staged_pre_commit_qc@) =~= certs_view(m).insert(view, cert));
        },
        MsgType::Commit => {
            vd.seen_commit_qc = true;
            let ghost m = rs.staged_commit_qc@;
            rs.staged_commit_qc.insert(view, qc);
            assert(certs_view(rs.staged_commit_qc@) =~= certs_view(m).insert(view, cert));
        },
        _ => {
            vd.seen_decide_qc = true;
            let ghost m = rs.staged_decide_qc@;
            rs.staged_decide_qc.insert(view, qc);
            assert(certs_view(rs.staged_decide_qc@) =~= certs_view(m).insert(view, cert));
        },
    }
}

/// The outcome of a leader's rule for `phase`: a certificate that can be
/// formed from the votes of the phase before opens it.
pub open spec fn leads_phase(before: Local, after: Local, me: Me, phase: MsgType) -> bool {
    exists|q: Option<Cert>|
        may_open(before.rs, me.id, phase, q) && after == #[trigger] leader_phase_step(
            before,
            me,
            phase,
            q,
        )
}

/// The leader collects `n - f` votes of the phase before `phase`, forms a
/// certificate, and opens `phase` with it.
#[verifier::rlimit(40)]
fn leader_phase(rs: &mut ReplicaState, w: &Wiring<'_>, phase: MsgType, out: &mut Vec<Action>)
    requires
        old(rs)@.n >= 1,
        is_qc_phase(phase),
    ensures
        leads_phase(local(*old(rs), old(out)@), local(*final(rs), final(out)@), w@, phase),
{
    let ghost l0 = local(*rs, out@);
    // Where the phase is not opened, the step is that without a certificate.
    let ghost idle = leader_phase_step(l0, w@, phase, None);
    let v = rs.view;
    if rs.leader_for(v) != w.my_id {
        return;
    }
    let quorum = rs.quorum;
    let vd = rs.vd_mut(v);
    let done = match phase {
        MsgType::PreCommit => vd.broadcast_pre_commit,
        MsgType::Commit => vd.broadcast_commit,
        _ => vd.broadcast_decide,
    };
    assert(local(*rs, out@) == l0.touched(v));
    if done {
        return;
    }
    let vd = rs.vd_mut(v);
    let formed = match phase {
        MsgType::PreCommit => form_qc(&vd.prepare_votes, MsgType::Prepare, v, quorum),
        MsgType::Commit => form_qc(&vd.precommit_votes, MsgType::PreCommit, v, quorum),
        _ => form_qc(&vd.commit_votes, MsgType::Commit, v, quorum),
    };
    assert(local(*rs, out@) =~= l0.touched(v));
    match formed {
        Some(qc) => {
            let ghost cert = qc@;
            open_phase(rs, w, phase, qc, out);
            assert(local(*rs, out@) == leader_phase_step(l0, w@, phase, Some(cert)));
        },
        None => (),
    }
}

/// The leader collects `n - f` PREPARE votes, forms prepareQC, and broadcasts
/// PRE-COMMIT.
pub fn leader_pre_commit(rs: &mut ReplicaState, w: &Wiring<'_>, out: &mut Vec<Action>)
    requires
        old(rs)@.n >= 1,
    ensures
        leads_phase(
            local(*old(rs), old(out)@),
            local(*final(rs), final(out)@),
            w@,
            MsgType::PreCommit,
        ),
{
    leader_phase(rs, w, MsgType::PreCommit, out)
}

/// The leader collects `n - f` PRE-COMMIT votes, forms precommitQC, and
/// broadcasts COMMIT.
pub fn leader_commit(rs: &mut ReplicaState, w: &Wiring<'_>, out: &mut Vec<Action>)
    requires
        old(rs)@.n >= 1,
    ensures
        leads_phase(
            local(*old(rs), old(out)@),
            local(*final(rs), final(out)@),
            w@,
            MsgType::Commit,
        ),
{
    leader_phase(rs, w, MsgType::Commit, out)
}

/// The leader collects `n - f` COMMIT votes, forms commitQC, and broadcasts
/// DECIDE.
pub fn leader_decide(rs: &mut ReplicaState, w: &Wiring<'_>, out: &mut Vec<Action>)
    requires
        old(rs)@.n >= 1,
    ensures
        leads_phase(
            local(*old(rs), old(out)@),
            local(*final(rs), final(out)@),
            w@,
            MsgType::Decide,
        ),
{
    leader_phase(rs, w, MsgType::Decide, out)
}

/// A replica that has prepareQC sets it, and votes PRE-COMMIT.
pub fn replica_pre_commit(rs: &mut ReplicaState, w: &Wiring<'_>, out: &mut Vec<Action>)
    requires
        old(rs)@.n >= 1,
    ensures
        local(*final(rs), final(out)@) == replica_phase_step(
            local(*old(rs), old(out)@),
            w@,
            MsgType::PreCommit,
            phase_signature(old(rs)@, w@, MsgType::PreCommit),
        ),
{
    let v = rs.view;
    let vd = rs.vd_mut(v);
    if !vd.seen_pre_commit_qc || vd.voted_precommit {
        return;
    }
    let qc = match rs.staged_pre_commit_qc.get(&v) {
        Some(q) => q.clone(),
        None => return,
    };
    let nh = qc.node_hash;
    rs.prepare_qc = Some(qc);
    let sig = sign_vote(w.sk, MsgType::PreCommit, v, &nh);
    vote_out(rs, w, MsgType::PreCommit, &nh, sig, out);
}

/// A replica that has precommitQC locks it, and votes COMMIT.
pub fn replica_commit(rs: &mut ReplicaState, w: &Wiring<'_>, out: &mut Vec<Action>)
    requires
        old(rs)@.n >= 1,
    ensures
        local(*final(rs), final(out)@) == replica_phase_step(
            local(*old(rs), old(out)@),
            w@,
            MsgType::Commit,
            phase_signature(old(rs)@, w@, MsgType::Commit),
        ),
{
    let v = rs.view;
    let vd = rs.vd_mut(v);
    if !vd.seen_commit_qc || vd.voted_commit {
        return;
    }
    let qc = match rs.staged_commit_qc.get(&v) {
        Some(q) => q.clone(),
        None => return,
    };
    let nh = qc.node_hash;
    rs.locked_qc = Some(qc);
    let sig = sign_vote(w.sk, MsgType::Commit, v, &nh);
    vote_out(rs, w, MsgType::Commit, &nh, sig, out);
}

/// A replica that has commitQC executes commands through its node, resets the
/// timeout, and enters the next view.
#[verifier::rlimit(40)]
pub fn replica_decide(
    rs: &mut ReplicaState,
    w: &Wiring<'_>,
    live_state: &mut State,
    chained_root: &mut [u8; 32],
    out: &mut Vec<Action>,
) -> (r: Result<(), Fault>)
    requires
        old(rs)@.n >= 1,
        old(rs)@.view < u64::MAX,
    ensures
        (system(*final(rs), *final(live_state), *final(chained_root), final(out)@), fault_of(r))
            == replica_decide_step(
            system(*old(rs), *old(live_state), *old(chained_root), old(out)@),
            w@,
        ),
{
    let v = rs.view;
    if !rs.vd_mut(v).seen_decide_qc {
        return Ok(());
    }
    let qc = match rs.staged_decide_qc.get(&v) {
        Some(q) => q.clone(),
        None => return Ok(()),
    };
    let nh = qc.node_hash;
    let ghost cert = qc@;
    let ghost m = rs.decided_nodes@;
    rs.decided_nodes.insert(nh, qc);
    assert(certs_view(rs.decided_nodes@) =~= certs_view(m).insert(nh, cert));
    let ghost before = system(*rs, *live_state, *chained_root, out@);
    try_execute_chain(rs, w, live_state, chained_root, nh, out)?;
    proof {
        law_execution_keeps_protocol(before, w@, nh);
    }
    act(out, Action::Log { view: v, event: Event::ViewDecide { node_hash: nh } });
    rs.timeout_interval_ms = w.timeout_base_ms;
    enter_new_view(rs, v + 1, w, out);
    Ok(())
}

} // verus!
