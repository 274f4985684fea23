//! Authentic replicas: every vote that a leader collects is signed by its
//! voter, and every certificate that a replica keeps or broadcasts is signed by
//! a quorum. So the certificates of a correct leader are accepted by everybody
//! who knows the same keys.

use crate::action::{Effect, Event};
use crate::consensus::execute::law_execution_keeps_protocol;
use crate::consensus::model::{
    advance, announce, cast, collected, doubled, execute_step, execute_steps, is_highest,
    is_qc_phase, keep_proposal, kick_step, kick_steps, leader_phase_step, leaf_height, leaf_of,
    mark_voted, may_choose, may_open, message_step, new_view_msg_step, new_view_step, opens_next,
    outcome_step, pass_commit, pass_decide, pass_pre_commit, pass_prepare, pass_propose, pass_vote,
    phase_before, phase_qc_step, proposal_due, proposal_step, proposed_hash, replica_decide_step,
    seen, staged, start_step, timer_step, view_before, vote_out_step, vote_step, voted, votes_of,
    with_vote, Choices, Local, Me, Sys,
};
use crate::consensus::qc::{certified, law_formed_qc_is_certified};
use crate::messages::{hash_of, signs_vote, vote_signature, Cert, Msg, MsgType, Node};
use crate::state::{fresh_replica, Replica, Round};
use crate::validator::Outcome;
use vstd::prelude::*;

verus! {

/// Whether each vote of a phase of a view is signed under its voter's key.
pub open spec fn signed(
    votes: Map<u32, ([u8; 32], Seq<u8>)>,
    msg_type: MsgType,
    view: u64,
    keys: Map<u32, [u8; 32]>,
) -> bool {
    forall|k: u32| #[trigger]
        votes.contains_key(k) ==> keys.contains_key(k) && signs_vote(
            keys[k],
            msg_type,
            view,
            votes[k].0,
            votes[k].1,
        )
}

/// Whether a certificate, where there is one, is signed by a quorum.
pub open spec fn backed(q: Option<Cert>, quorum: u32, keys: Map<u32, [u8; 32]>) -> bool {
    q matches Some(c) ==> certified(c, quorum, keys)
}

/// Whether each of the certificates is signed by a quorum.
pub open spec fn all_backed<K>(
    certs: Map<K, Cert>,
    quorum: u32,
    keys: Map<u32, [u8; 32]>,
) -> bool {
    forall|k: K| #[trigger] certs.contains_key(k) ==> certified(certs[k], quorum, keys)
}

/// Whether the votes and certificates in the record of a view are signed.
pub open spec fn authentic_round(
    r: Round,
    view: u64,
    quorum: u32,
    keys: Map<u32, [u8; 32]>,
) -> bool {
    &&& signed(r.prepare_votes, MsgType::Prepare, view, keys)
    &&& signed(r.precommit_votes, MsgType::PreCommit, view, keys)
    &&& signed(r.commit_votes, MsgType::Commit, view, keys)
    &&& r.proposal matches Some(p) ==> backed(p.1, quorum, keys)
    &&& forall|k: u32| #[trigger]
        r.new_view_msgs.contains_key(k) ==> backed(r.new_view_msgs[k], quorum, keys)
}

/// Whether all votes and certificates of a replica are signed under the public
/// keys `keys`.
pub open spec fn authentic(rs: Replica, keys: Map<u32, [u8; 32]>) -> bool {
    &&& forall|v: u64| authentic_round(#[trigger] rs.round(v), v, rs.quorum, keys)
    &&& backed(rs.prepare_qc, rs.quorum, keys)
    &&& backed(rs.locked_qc, rs.quorum, keys)
    &&& all_backed(rs.staged_pre_commit_qc, rs.quorum, keys)
    &&& all_backed(rs.staged_commit_qc, rs.quorum, keys)
    &&& all_backed(rs.staged_decide_qc, rs.quorum, keys)
    &&& all_backed(rs.decided_nodes, rs.quorum, keys)
}

/// Whether the signatures of the replica itself are good under the key that is
/// known for it.
pub open spec fn signs_own(me: Me, keys: Map<u32, [u8; 32]>) -> bool {
    &&& keys.contains_key(me.id)
    &&& forall|t: MsgType, v: u64, h: [u8; 32]|
        signs_vote(keys[me.id], t, v, h, #[trigger] vote_signature(me.sk, t, v, h))
}

/// A replica starts authentic.
pub proof fn law_new_replica_is_authentic(n: u32, ms: u64, keys: Map<u32, [u8; 32]>)
    requires
        n >= 1,
    ensures
        authentic(fresh_replica(n, ms), keys),
{
}

/// A step that changes the record of the view `v` at most.
proof fn lemma_carry(a: Replica, b: Replica, v: u64, keys: Map<u32, [u8; 32]>)
    requires
        authentic(a, keys),
        b.quorum == a.quorum,
        b.view_data == a.view_data || b.view_data == a.view_data.insert(v, b.round(v)),
        authentic_round(b.round(v), v, b.quorum, keys),
        backed(b.prepare_qc, b.quorum, keys),
        backed(b.locked_qc, b.quorum, keys),
        all_backed(b.staged_pre_commit_qc, b.quorum, keys),
        all_backed(b.staged_commit_qc, b.quorum, keys),
        all_backed(b.staged_decide_qc, b.quorum, keys),
        all_backed(b.decided_nodes, b.quorum, keys),
    ensures
        authentic(b, keys),
{
    assert forall|u: u64| authentic_round(#[trigger] b.round(u), u, b.quorum, keys) by {
        assert(authentic_round(a.round(u), u, a.quorum, keys));
        assert(u != v ==> b.round(u) == a.round(u));
    }
}

proof fn lemma_touch(l: Local, v: u64, keys: Map<u32, [u8; 32]>)
    requires
        authentic(l.rs, keys),
    ensures
        authentic(l.touched(v).rs, keys),
{
    assert(authentic_round(l.rs.round(v), v, l.rs.quorum, keys));
    lemma_carry(l.rs, l.touched(v).rs, v, keys);
}

proof fn lemma_new_view(l: Local, me: Me, v: u64, keys: Map<u32, [u8; 32]>)
    requires
        authentic(l.rs, keys),
    ensures
        authentic(new_view_step(l, me, v).rs, keys),
{
    let prev = l.rs.view;
    assert(authentic_round(l.rs.round(prev), prev, l.rs.quorum, keys));
    lemma_carry(l.rs, new_view_step(l, me, v).rs, prev, keys);
}

proof fn lemma_kick(
    l: Local,
    me: Me,
    live: Map<u32, u64>,
    h: [u8; 32],
    keys: Map<u32, [u8; 32]>,
)
    requires
        authentic(l.rs, keys),
    ensures
        authentic(kick_step(l, me, live, h).0.rs, keys),
{
    assert(authentic_round(l.rs.round(0), 0, l.rs.quorum, keys));
    lemma_carry(l.rs, kick_step(l, me, live, h).0.rs, 0, keys);
}

proof fn lemma_kicks(
    l: Local,
    me: Me,
    live: Map<u32, u64>,
    order: Seq<[u8; 32]>,
    keys: Map<u32, [u8; 32]>,
)
    requires
        authentic(l.rs, keys),
    ensures
        authentic(kick_steps(l, me, live, order).0.rs, keys),
    decreases order.len(),
{
    if order.len() > 0 && l.rs.pending_validation is None {
        lemma_kick(l, me, live, order[0], keys);
        lemma_kicks(kick_step(l, me, live, order[0]).0, me, live, order.skip(1), keys);
    }
}

proof fn lemma_execute(s: Sys, me: Me, decided: [u8; 32], keys: Map<u32, [u8; 32]>)
    requires
        authentic(s.local.rs, keys),
    ensures
        authentic(execute_step(s, me, decided).0.local.rs, keys),
{
    let rs = s.local.rs;
    law_execution_keeps_protocol(s, me, decided);
    assert(authentic_round(rs.round(0), 0, rs.quorum, keys));
    lemma_carry(rs, execute_step(s, me, decided).0.local.rs, 0, keys);
}

proof fn lemma_executes(s: Sys, me: Me, order: Seq<[u8; 32]>, keys: Map<u32, [u8; 32]>)
    requires
        authentic(s.local.rs, keys),
    ensures
        authentic(execute_steps(s, me, order).0.local.rs, keys),
    decreases order.len(),
{
    if order.len() > 0 {
        lemma_execute(s, me, order[0], keys);
        lemma_executes(execute_step(s, me, order[0]).0, me, order.skip(1), keys);
    }
}

#[verifier::rlimit(40)]
proof fn lemma_leader_prepare(s: Sys, me: Me, c: Choices, keys: Map<u32, [u8; 32]>)
    requires
        authentic(s.local.rs, keys),
        proposal_due(s.local.rs, me.id) ==> is_highest(collected(s.local.rs), c.high),
    ensures
        authentic(pass_propose(s, me, c).0.rs, keys),
{
    let l = s.local;
    let v = l.rs.view;
    let l1 = l.touched(v);
    lemma_touch(l, v, keys);
    assert(leaf_height(l1.rs, c.high) == leaf_height(l.rs, c.high));
    if let Some(height) = leaf_height(l.rs, c.high) {
        if proposal_due(l.rs, me.id) {
            lemma_highest_backed(l.rs, c.high, keys);
            let leaf = leaf_of(me.work, c.high, height);
            let l2 = announce(l1, me, c.high, leaf, hash_of(leaf));
            assert(authentic_round(l1.rs.round(v), v, l.rs.quorum, keys));
            lemma_carry(l1.rs, l2.rs, v, keys);
            lemma_kick(l2, me, s.live, hash_of(leaf), keys);
        }
    }
}

/// The highQC that a leader builds on is signed by a quorum.
proof fn lemma_highest_backed(rs: Replica, high: Option<Cert>, keys: Map<u32, [u8; 32]>)
    requires
        authentic(rs, keys),
        is_highest(collected(rs), high),
    ensures
        backed(high, rs.quorum, keys),
{
    let prev = view_before(rs.view);
    assert(authentic_round(rs.round(prev), prev, rs.quorum, keys));
}

#[verifier::rlimit(40)]
proof fn lemma_vote_out(
    l: Local,
    me: Me,
    t: MsgType,
    h: [u8; 32],
    keys: Map<u32, [u8; 32]>,
)
    requires
        authentic(l.rs, keys),
        signs_own(me, keys),
    ensures
        authentic(
            vote_out_step(l, me, t, h, vote_signature(me.sk, t, l.rs.view, h)).rs,
            keys,
        ),
{
    let v = l.rs.view;
    let sig = vote_signature(me.sk, t, v, h);
    let r = l.rs.round(v);
    assert(authentic_round(r, v, l.rs.quorum, keys));
    assert(authentic_round(with_vote(r, t, me.id, h, sig), v, l.rs.quorum, keys));
    let l1 = cast(l, me, t, h, sig);
    lemma_carry(l.rs, l1.rs, v, keys);
    let l2 = mark_voted(l1, t);
    assert(authentic_round(l1.rs.round(v), v, l.rs.quorum, keys));
    lemma_carry(l1.rs, l2.rs, v, keys);
}

proof fn lemma_replica_prepare(l: Local, me: Me, keys: Map<u32, [u8; 32]>)
    requires
        authentic(l.rs, keys),
        signs_own(me, keys),
    ensures
        authentic(pass_prepare(l, me).rs, keys),
{
    let v = l.rs.view;
    lemma_vote_out(l, me, MsgType::Prepare, proposed_hash(l.rs), keys);
    assert(authentic_round(l.rs.round(v), v, l.rs.quorum, keys));
    lemma_carry(l.rs, mark_voted(l, MsgType::Prepare).rs, v, keys);
}

/// The certificate that a leader forms is signed by a quorum.
proof fn lemma_formed(
    rs: Replica,
    id: u32,
    phase: MsgType,
    q: Option<Cert>,
    keys: Map<u32, [u8; 32]>,
)
    requires
        authentic(rs, keys),
        is_qc_phase(phase),
        opens_next(rs, id, phase),
        may_open(rs, id, phase, q),
    ensures
        backed(q, rs.quorum, keys),
{
    let v = rs.view;
    assert(authentic_round(rs.round(v), v, rs.quorum, keys));
    if let Some(cert) = q {
        let before = phase_before(phase);
        law_formed_qc_is_certified(
            votes_of(rs.round(v), before),
            before,
            v,
            rs.quorum,
            cert,
            keys,
        );
    }
}

#[verifier::rlimit(40)]
proof fn lemma_leader_phase(
    l: Local,
    me: Me,
    phase: MsgType,
    q: Option<Cert>,
    keys: Map<u32, [u8; 32]>,
)
    requires
        authentic(l.rs, keys),
        is_qc_phase(phase),
        may_open(l.rs, me.id, phase, q),
    ensures
        authentic(leader_phase_step(l, me, phase, q).rs, keys),
{
    let v = l.rs.view;
    let b = leader_phase_step(l, me, phase, q).rs;
    lemma_touch(l, v, keys);
    if opens_next(l.rs, me.id, phase) && q is Some {
        lemma_formed(l.rs, me.id, phase, q, keys);
        assert(authentic_round(l.rs.round(v), v, l.rs.quorum, keys));
        assert(b.view_data =~= l.rs.view_data.insert(v, b.round(v)));
        lemma_carry(l.rs, b, v, keys);
    }
}

/// A leader broadcasts only certificates that are accepted under the known
/// keys.
pub proof fn law_broadcast_certificates_are_accepted(
    l: Local,
    me: Me,
    phase: MsgType,
    q: Option<Cert>,
    keys: Map<u32, [u8; 32]>,
)
    requires
        authentic(l.rs, keys),
        is_qc_phase(phase),
        may_open(l.rs, me.id, phase, q),
    ensures
        forall|i: int|
            l.out.len() <= i < leader_phase_step(l, me, phase, q).out.len() ==> (
            #[trigger] leader_phase_step(l, me, phase, q).out[i] matches Effect::Broadcast {
                msg,
            } ==> (msg matches Msg::PhaseQc { justify, .. } && certified(
                justify,
                l.rs.quorum,
                keys,
            ))),
{
    if opens_next(l.rs, me.id, phase) {
        lemma_formed(l.rs, me.id, phase, q, keys);
    }
}

/// A leader proposes only on top of certificates that are accepted under the
/// known keys.
#[verifier::rlimit(40)]
pub proof fn law_proposed_certificates_are_accepted(
    s: Sys,
    me: Me,
    c: Choices,
    keys: Map<u32, [u8; 32]>,
)
    requires
        authentic(s.local.rs, keys),
        may_choose(s, me, c),
    ensures
        forall|i: int|
            s.local.out.len() <= i < pass_propose(s, me, c).0.out.len() ==> (
            #[trigger] pass_propose(s, me, c).0.out[i] matches Effect::Broadcast { msg } ==> (
            msg matches Msg::Proposal { justify, .. } && backed(
                justify,
                s.local.rs.quorum,
                keys,
            ))),
{
    if proposal_due(s.local.rs, me.id) {
        lemma_highest_backed(s.local.rs, c.high, keys);
    }
}

#[verifier::rlimit(40)]
proof fn lemma_replica_phase(l: Local, me: Me, phase: MsgType, keys: Map<u32, [u8; 32]>)
    requires
        authentic(l.rs, keys),
        signs_own(me, keys),
        phase == MsgType::PreCommit || phase == MsgType::Commit,
    ensures
        authentic(pass_vote(l, me, phase).rs, keys),
{
    let v = l.rs.view;
    let l1 = l.touched(v);
    lemma_touch(l, v, keys);
    if seen(l.rs.round(v), phase) && !voted(l.rs.round(v), phase) && staged(
        l.rs,
        phase,
    ).contains_key(v) {
        let q = staged(l.rs, phase)[v];
        let l2 = l1.with(
            if phase == MsgType::PreCommit {
                Replica { prepare_qc: Some(q), ..l1.rs }
            } else {
                Replica { locked_qc: Some(q), ..l1.rs }
            },
        );
        assert(authentic_round(l1.rs.round(v), v, l.rs.quorum, keys));
        lemma_carry(l1.rs, l2.rs, v, keys);
        lemma_vote_out(l2, me, phase, q.node_hash, keys);
    }
}

#[verifier::rlimit(40)]
proof fn lemma_replica_decide(s: Sys, me: Me, keys: Map<u32, [u8; 32]>)
    requires
        authentic(s.local.rs, keys),
    ensures
        authentic(replica_decide_step(s, me).0.local.rs, keys),
{
    let l = s.local;
    let v = l.rs.view;
    let l1 = l.touched(v);
    lemma_touch(l, v, keys);
    if l.rs.round(v).seen_decide_qc && l.rs.staged_decide_qc.contains_key(v) {
        let q = l.rs.staged_decide_qc[v];
        let l2 = l1.with(
            Replica { decided_nodes: l1.rs.decided_nodes.insert(q.node_hash, q), ..l1.rs },
        );
        assert(authentic_round(l1.rs.round(v), v, l.rs.quorum, keys));
        lemma_carry(l1.rs, l2.rs, v, keys);
        let s2 = Sys { local: l2, ..s };
        lemma_execute(s2, me, q.node_hash, keys);
        let s3 = execute_step(s2, me, q.node_hash).0;
        let l4 = s3.local.log(v, Event::ViewDecide { node_hash: q.node_hash });
        let l5 = l4.with(Replica { timeout_interval_ms: me.base_ms, ..l4.rs });
        assert(authentic_round(l4.rs.round(v), v, l4.rs.quorum, keys));
        lemma_carry(l4.rs, l5.rs, v, keys);
        lemma_new_view(l5, me, (v + 1) as u64, keys);
    }
}

/// A pass over the rules keeps a replica authentic.
#[verifier::rlimit(40)]
pub proof fn law_rules_keep_authentic(s: Sys, me: Me, c: Choices, keys: Map<u32, [u8; 32]>)
    requires
        authentic(s.local.rs, keys),
        signs_own(me, keys),
        may_choose(s, me, c),
    ensures
        authentic(advance(s, me, c).0.local.rs, keys),
{
    let (l1, fault1) = pass_propose(s, me, c);
    lemma_leader_prepare(s, me, c, keys);
    if fault1 is None {
        let l2 = pass_prepare(l1, me);
        let l3 = pass_pre_commit(l1, me, c);
        let l4 = pass_vote(l3, me, MsgType::PreCommit);
        let l5 = pass_commit(l1, me, c);
        let l6 = pass_vote(l5, me, MsgType::Commit);
        let l7 = pass_decide(l1, me, c);
        lemma_replica_prepare(l1, me, keys);
        lemma_leader_phase(l2, me, MsgType::PreCommit, c.pre_commit, keys);
        lemma_replica_phase(l3, me, MsgType::PreCommit, keys);
        lemma_leader_phase(l4, me, MsgType::Commit, c.commit, keys);
        lemma_replica_phase(l5, me, MsgType::Commit, keys);
        lemma_leader_phase(l6, me, MsgType::Decide, c.decide, keys);
        let s1 = Sys { local: l7, ..s };
        lemma_replica_decide(s1, me, keys);
        let (s2, fault2) = replica_decide_step(s1, me);
        if fault2 is None {
            lemma_executes(s2, me, c.decided, keys);
            let (s3, fault3) = execute_steps(s2, me, c.decided);
            if fault3 is None {
                lemma_kicks(s3.local, me, s3.live, c.nodes, keys);
            }
        }
    }
}

/// Starting keeps a replica authentic.
pub proof fn law_start_is_authentic(n: u32, ms: u64, me: Me, keys: Map<u32, [u8; 32]>)
    requires
        n >= 1,
    ensures
        authentic(start_step(Local { rs: fresh_replica(n, ms), out: Seq::empty() }, me).rs, keys),
{
    lemma_new_view(Local { rs: fresh_replica(n, ms), out: Seq::empty() }, me, 1, keys);
}

/// A timer keeps a replica authentic.
pub proof fn law_timer_keeps_authentic(l: Local, me: Me, view: u64, keys: Map<u32, [u8; 32]>)
    requires
        authentic(l.rs, keys),
    ensures
        authentic(timer_step(l, me, view).rs, keys),
{
    let l1 = l.log(view, Event::NextView).with(
        Replica { timeout_interval_ms: doubled(l.rs.timeout_interval_ms), ..l.rs },
    );
    assert(authentic_round(l.rs.round(0), 0, l.rs.quorum, keys));
    lemma_carry(l.rs, l1.rs, 0, keys);
    lemma_new_view(l1, me, (view + 1) as u64, keys);
}

/// The outcome of a validation keeps a replica authentic.
pub proof fn law_outcome_keeps_authentic(rs: Replica, o: Outcome, keys: Map<u32, [u8; 32]>)
    requires
        authentic(rs, keys),
    ensures
        authentic(outcome_step(rs, o), keys),
{
    assert(authentic_round(rs.round(0), 0, rs.quorum, keys));
    lemma_carry(rs, outcome_step(rs, o), 0, keys);
}

#[verifier::rlimit(40)]
proof fn lemma_proposal(
    l: Local,
    me: Me,
    live: Map<u32, u64>,
    view: u64,
    node: Node,
    justify: Option<Cert>,
    sender: u32,
    keys: Map<u32, [u8; 32]>,
)
    requires
        authentic(l.rs, keys),
    ensures
        ({
            let ok = justify is Some && certified(justify->0, l.rs.quorum, keys);
            let h = hash_of(node);
            authentic(
                proposal_step(l, me, live, view, node, justify, sender, ok, h).0.rs,
                keys,
            )
        }),
{
    let h = hash_of(node);
    let l1 = keep_proposal(l, view, node, justify, sender, h);
    if backed(justify, l.rs.quorum, keys) {
        assert(authentic_round(l.rs.round(view), view, l.rs.quorum, keys));
        lemma_carry(l.rs, l1.rs, view, keys);
        lemma_kick(l1, me, live, h, keys);
    }
}

#[verifier::rlimit(40)]
proof fn lemma_phase_qc(
    l: Local,
    t: MsgType,
    view: u64,
    justify: Cert,
    sender: u32,
    keys: Map<u32, [u8; 32]>,
)
    requires
        authentic(l.rs, keys),
    ensures
        authentic(
            phase_qc_step(
                l,
                t,
                view,
                justify,
                sender,
                certified(justify, l.rs.quorum, keys),
            ).rs,
            keys,
        ),
{
    let b = phase_qc_step(l, t, view, justify, sender, certified(justify, l.rs.quorum, keys)).rs;
    assert(authentic_round(l.rs.round(view), view, l.rs.quorum, keys));
    lemma_carry(l.rs, b, view, keys);
}

#[verifier::rlimit(40)]
proof fn lemma_vote(
    l: Local,
    id: u32,
    t: MsgType,
    view: u64,
    h: [u8; 32],
    voter: u32,
    sig: Seq<u8>,
    keys: Map<u32, [u8; 32]>,
)
    requires
        authentic(l.rs, keys),
    ensures
        authentic(
            vote_step(
                l,
                id,
                t,
                view,
                h,
                voter,
                sig,
                keys.contains_key(voter),
                signs_vote(keys[voter], t, view, h, sig),
            ).rs,
            keys,
        ),
{
    let known = keys.contains_key(voter);
    let ok = signs_vote(keys[voter], t, view, h, sig);
    let b = vote_step(l, id, t, view, h, voter, sig, known, ok).rs;
    let r = l.rs.round(view);
    assert(authentic_round(r, view, l.rs.quorum, keys));
    if known && ok {
        assert(authentic_round(with_vote(r, t, voter, h, sig), view, l.rs.quorum, keys));
    }
    lemma_carry(l.rs, b, view, keys);
}

#[verifier::rlimit(40)]
proof fn lemma_new_view_msg(
    l: Local,
    id: u32,
    view: u64,
    justify: Option<Cert>,
    sender: u32,
    keys: Map<u32, [u8; 32]>,
)
    requires
        authentic(l.rs, keys),
    ensures
        ({
            let ok = justify is Some && certified(justify->0, l.rs.quorum, keys);
            authentic(new_view_msg_step(l, id, view, justify, sender, ok).rs, keys)
        }),
{
    let ok = justify is Some && certified(justify->0, l.rs.quorum, keys);
    assert(authentic_round(l.rs.round(view), view, l.rs.quorum, keys));
    lemma_carry(l.rs, new_view_msg_step(l, id, view, justify, sender, ok).rs, view, keys);
}

/// A message keeps a replica authentic, whoever sent it.
pub proof fn law_message_keeps_authentic(
    l: Local,
    me: Me,
    live: Map<u32, u64>,
    msg: Msg,
    keys: Map<u32, [u8; 32]>,
)
    requires
        authentic(l.rs, keys),
    ensures
        authentic(message_step(l, me, live, msg, keys).0.rs, keys),
{
    match msg {
        Msg::Hello { .. } => {},
        Msg::Proposal { view, node, justify, sender } => {
            lemma_proposal(l, me, live, view, node, justify, sender, keys);
        },
        Msg::PhaseQc { msg_type, view, justify, sender } => {
            lemma_phase_qc(l, msg_type, view, justify, sender, keys);
        },
        Msg::Vote { msg_type, view, node_hash, voter, partial_sig } => {
            lemma_vote(l, me.id, msg_type, view, node_hash, voter, partial_sig, keys);
        },
        Msg::NewView { view, justify, sender } => {
            lemma_new_view_msg(l, me.id, view, justify, sender, keys);
        },
    }
}

} // verus!
