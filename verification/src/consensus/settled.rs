//! Settled replicas: a pass over the rules leaves nothing for another pass to
//! do, until something happens or the view changes.

use crate::action::Fault;
use crate::consensus::execute::{
    all_rise, executes_only, idle_kick, law_execution_keeps_protocol, law_retry_executes_all_it_can,
    lemma_chain_grows, lemma_stuck_is_quiet, one_path, quiet, stuck,
};
use crate::consensus::laws::grown;
use crate::consensus::model::{
    advance, chain_of, collected, enumerates, execute_step, execute_steps, is_highest, is_qc_phase,
    kick_step, kick_steps, leader_phase_step, leaf_height, may_choose, may_open, opened, opens_next,
    pass_commit, pass_decide, pass_pre_commit, pass_prepare, pass_propose, pass_vote, phase_before,
    proposal_due, proposed_hash, ranks_first, replica_decide_step, seen, staged, view_before, voted,
    votes_of, Choices, Local, Me, Sys,
};
use crate::consensus::qc::{forms, lemma_list_len, supporters};
use crate::messages::{Cert, MsgType};
use crate::state::{Replica, Round};
use vstd::prelude::*;

verus! {

// ---- Execution ----

proof fn lemma_stuck_all_quiet(s: Sys, me: Me, order: Seq<[u8; 32]>)
    requires
        forall|i: int|
            0 <= i < order.len() ==> stuck(s.local.rs, me, s.live, #[trigger] order[i]),
    ensures
        ({
            let (after, fault) = execute_steps(s, me, order);
            &&& fault is None
            &&& quiet(s.local, after.local)
            &&& after.live == s.live
            &&& after.root == s.root
        }),
    decreases order.len(),
{
    if order.len() > 0 {
        lemma_stuck_is_quiet(s, me, order[0]);
        let s1 = execute_step(s, me, order[0]).0;
        let rest = order.skip(1);
        assert forall|i: int| 0 <= i < rest.len() implies stuck(
            s1.local.rs,
            me,
            s1.live,
            #[trigger] rest[i],
        ) by {
            assert(rest[i] == order[i + 1]);
        }
        lemma_stuck_all_quiet(s1, me, rest);
        lemma_quiet_composes(s.local, s1.local, execute_steps(s1, me, rest).0.local);
    }
}

proof fn lemma_quiet_composes(a: Local, b: Local, c: Local)
    requires
        quiet(a, b),
        quiet(b, c),
    ensures
        quiet(a, c),
{
    assert forall|i: int| 0 <= i < a.out.len() implies #[trigger] c.out[i] == a.out[i] by {
        assert(c.out[i] == b.out[i]);
        assert(b.out[i] == a.out[i]);
    }
    assert forall|i: int| a.out.len() <= i < c.out.len() implies (#[trigger] c.out[i]) is Warn by {
        if i < b.out.len() {
            assert(c.out[i] == b.out[i]);
        }
    }
}

// ---- Validation ----

/// Whether `b` differs from `a` in what is being validated at most, and still
/// has in flight what `a` has.
spec fn submits_only(a: Replica, b: Replica) -> bool {
    &&& b == Replica {
        pending_validation: b.pending_validation,
        in_flight: b.in_flight,
        ..a
    }
    &&& grown(a.in_flight, b.in_flight)
}

proof fn lemma_kicks_submit_only(l: Local, me: Me, live: Map<u32, u64>, order: Seq<[u8; 32]>)
    ensures
        submits_only(l.rs, kick_steps(l, me, live, order).0.rs),
    decreases order.len(),
{
    if order.len() > 0 && l.rs.pending_validation is None {
        lemma_kicks_submit_only(
            kick_step(l, me, live, order[0]).0,
            me,
            live,
            order.skip(1),
        );
    }
}

proof fn lemma_submitting_keeps_stuck(
    a: Replica,
    b: Replica,
    me: Me,
    live: Map<u32, u64>,
    d: [u8; 32],
)
    requires
        submits_only(a, b),
        stuck(a, me, live, d),
    ensures
        stuck(b, me, live, d),
{
    assert(chain_of(b, d) == chain_of(a, d));
}

/// Where a pass over the nodes ends with none being validated last, there was
/// nothing to submit.
proof fn lemma_kicks_exhaust(l: Local, me: Me, live: Map<u32, u64>, order: Seq<[u8; 32]>)
    requires
        kick_steps(l, me, live, order).1 is None,
        kick_steps(l, me, live, order).0.rs.pending_validation is None,
    ensures
        kick_steps(l, me, live, order).0.rs == l.rs,
        forall|i: int| 0 <= i < order.len() ==> idle_kick(l.rs, me, live, #[trigger] order[i]),
    decreases order.len(),
{
    if order.len() > 0 {
        let l1 = kick_step(l, me, live, order[0]).0;
        let rest = order.skip(1);
        lemma_kicks_exhaust(l1, me, live, rest);
        assert forall|i: int| 0 <= i < order.len() implies idle_kick(
            l.rs,
            me,
            live,
            #[trigger] order[i],
        ) by {
            if i > 0 {
                assert(order[i] == rest[i - 1]);
            }
        }
    }
}

proof fn lemma_idle_kicks_quiet(l: Local, me: Me, live: Map<u32, u64>, order: Seq<[u8; 32]>)
    requires
        l.rs.pending_validation is Some || forall|i: int|
            0 <= i < order.len() ==> idle_kick(l.rs, me, live, #[trigger] order[i]),
    ensures
        kick_steps(l, me, live, order).1 is None,
        quiet(l, kick_steps(l, me, live, order).0),
    decreases order.len(),
{
    if order.len() > 0 && l.rs.pending_validation is None {
        assert(idle_kick(l.rs, me, live, order[0]));
        let l1 = kick_step(l, me, live, order[0]).0;
        let rest = order.skip(1);
        assert(quiet(l, l1));
        assert forall|i: int| 0 <= i < rest.len() implies idle_kick(
            l1.rs,
            me,
            live,
            #[trigger] rest[i],
        ) by {
            assert(rest[i] == order[i + 1]);
        }
        lemma_idle_kicks_quiet(l1, me, live, rest);
        lemma_quiet_composes(l, l1, kick_steps(l1, me, live, rest).0);
    }
}

// ---- Rules ----

/// Whether no node has a quorum of the votes.
#[verifier::opaque]
spec fn no_quorum(votes: Map<u32, ([u8; 32], Seq<u8>)>, quorum: u32) -> bool {
    forall|k: u32| #[trigger]
        votes.contains_key(k) ==> supporters(votes, votes[k].0).len() < quorum
}

/// Whether the replica has no PREPARE vote to cast.
spec fn rests_prepare(rs: Replica) -> bool {
    let r = rs.round(rs.view);
    r.proposal is None || r.voted_prepare || !rs.validation_result.contains_key(proposed_hash(rs))
}

/// Whether the leader has no certificate to open `phase` with.
spec fn rests_open(rs: Replica, id: u32, phase: MsgType) -> bool {
    opens_next(rs, id, phase) ==> no_quorum(
        votes_of(rs.round(rs.view), phase_before(phase)),
        rs.quorum,
    )
}

/// Whether the replica has no vote to cast in `phase`.
spec fn rests_vote(rs: Replica, phase: MsgType) -> bool {
    !seen(rs.round(rs.view), phase) || voted(rs.round(rs.view), phase) || !staged(
        rs,
        phase,
    ).contains_key(rs.view)
}

/// Whether none of the rules between proposing and deciding has anything to do.
spec fn rests(rs: Replica, id: u32) -> bool {
    &&& rs.view_data.contains_key(rs.view)
    &&& rests_prepare(rs)
    &&& rests_open(rs, id, MsgType::PreCommit)
    &&& rests_vote(rs, MsgType::PreCommit)
    &&& rests_open(rs, id, MsgType::Commit)
    &&& rests_vote(rs, MsgType::Commit)
    &&& rests_open(rs, id, MsgType::Decide)
}

/// Whether the leader has nothing to propose on top of `high`.
spec fn rests_propose(rs: Replica, me: Me, high: Option<Cert>) -> bool {
    proposal_due(rs, me.id) ==> {
        &&& is_highest(collected(rs), high)
        &&& leaf_height(rs, high) matches Some(height) ==> height >= me.work.num_blocks
    }
}

/// Whether `b` has the same to propose as `a`.
spec fn same_front(a: Replica, b: Replica) -> bool {
    &&& b.n == a.n
    &&& b.quorum == a.quorum
    &&& b.view == a.view
    &&& b.tree == a.tree
    &&& b.round(b.view).broadcast_proposal == a.round(a.view).broadcast_proposal
    &&& collected(b) == collected(a)
}

proof fn lemma_front_rests(a: Replica, b: Replica, me: Me, high: Option<Cert>)
    requires
        same_front(a, b),
        rests_propose(a, me, high),
    ensures
        rests_propose(b, me, high),
{
}

#[verifier::rlimit(40)]
proof fn lemma_propose_rests(s: Sys, me: Me, c: Choices)
    requires
        pass_propose(s, me, c).1 is None,
        proposal_due(s.local.rs, me.id) ==> is_highest(collected(s.local.rs), c.high),
    ensures
        rests_propose(pass_propose(s, me, c).0.rs, me, c.high),
{
    let l = s.local;
    let l1 = l.touched(l.rs.view);
    assert(leaf_height(l1.rs, c.high) == leaf_height(l.rs, c.high));
}

proof fn lemma_prepare_rests(l: Local, me: Me)
    ensures
        rests_prepare(pass_prepare(l, me).rs),
        same_front(l.rs, pass_prepare(l, me).rs),
{
}

/// Without a quorum there is no certificate.
proof fn lemma_no_certificate(
    votes: Map<u32, ([u8; 32], Seq<u8>)>,
    t: MsgType,
    v: u64,
    quorum: u32,
    q: Option<Cert>,
)
    requires
        no_quorum(votes, quorum),
        forms(votes, t, v, quorum, q),
    ensures
        q is None,
{
    reveal(no_quorum);
    if let Some(cert) = q {
        lemma_list_len(cert.sigs, votes, cert.node_hash);
        let k = cert.sigs[0].0;
        assert(votes.contains_key(k));
    }
}

/// What opening `phase` in the current view leaves as it is.
spec fn opens_only(a: Replica, b: Replica, phase: MsgType) -> bool {
    let v = a.view;
    let r = a.round(v);
    let u = b.round(v);
    &&& b == Replica {
        view_data: b.view_data,
        staged_pre_commit_qc: b.staged_pre_commit_qc,
        staged_commit_qc: b.staged_commit_qc,
        staged_decide_qc: b.staged_decide_qc,
        ..a
    }
    &&& a.view_data.contains_key(v) ==> b.view_data.contains_key(v)
    &&& u == Round {
        broadcast_pre_commit: u.broadcast_pre_commit,
        broadcast_commit: u.broadcast_commit,
        broadcast_decide: u.broadcast_decide,
        seen_pre_commit_qc: u.seen_pre_commit_qc,
        seen_commit_qc: u.seen_commit_qc,
        seen_decide_qc: u.seen_decide_qc,
        ..r
    }
    &&& forall|p: MsgType| p != phase ==> #[trigger] opened(u, p) == opened(r, p)
    &&& forall|p: MsgType| p != phase ==> #[trigger] seen(u, p) == seen(r, p)
    &&& forall|p: MsgType| p != phase ==> #[trigger] staged(b, p) == staged(a, p)
    &&& forall|w: u64| w != v ==> #[trigger] b.round(w) == a.round(w)
}

#[verifier::rlimit(40)]
proof fn lemma_open_frame(l: Local, me: Me, phase: MsgType, q: Option<Cert>)
    requires
        is_qc_phase(phase),
    ensures
        opens_only(l.rs, leader_phase_step(l, me, phase, q).rs, phase),
        opens_next(l.rs, me.id, phase) && q is Some || opened(l.rs.round(l.rs.view), phase)
            ==> opened(leader_phase_step(l, me, phase, q).rs.round(l.rs.view), phase),
{
}

#[verifier::rlimit(40)]
proof fn lemma_open_rests(l: Local, me: Me, phase: MsgType, q: Option<Cert>)
    requires
        is_qc_phase(phase),
        may_open(l.rs, me.id, phase, q),
    ensures
        ({
            let b = leader_phase_step(l, me, phase, q).rs;
            &&& rests_open(b, me.id, phase)
            &&& same_front(l.rs, b)
            &&& l.rs.view_data.contains_key(l.rs.view) ==> b.view_data.contains_key(b.view)
            &&& rests_prepare(l.rs) ==> rests_prepare(b)
            &&& forall|p: MsgType|
                p != phase && #[trigger] rests_open(l.rs, me.id, p) ==> rests_open(b, me.id, p)
            &&& forall|p: MsgType|
                p != phase && #[trigger] rests_vote(l.rs, p) ==> rests_vote(b, p)
        }),
{
    lemma_open_frame(l, me, phase, q);
    lemma_opening_rests(l.rs, leader_phase_step(l, me, phase, q).rs, me.id, phase, q);
}

proof fn lemma_opening_rests(a: Replica, b: Replica, id: u32, phase: MsgType, q: Option<Cert>)
    requires
        opens_only(a, b, phase),
        may_open(a, id, phase, q),
        opens_next(a, id, phase) && q is Some || opened(a.round(a.view), phase) ==> opened(
            b.round(a.view),
            phase,
        ),
    ensures
        rests_open(b, id, phase),
        same_front(a, b),
        rests_prepare(a) ==> rests_prepare(b),
        forall|p: MsgType| p != phase && #[trigger] rests_open(a, id, p) ==> rests_open(b, id, p),
        forall|p: MsgType| p != phase && #[trigger] rests_vote(a, p) ==> rests_vote(b, p),
{
    let v = a.view;
    assert(b.leader(v) == a.leader(v));
    assert forall|p: MsgType| votes_of(b.round(v), p) == #[trigger] votes_of(a.round(v), p) by {}
    assert(collected(b) == collected(a));
    reveal(no_quorum);
}

#[verifier::rlimit(40)]
proof fn lemma_vote_rests(l: Local, me: Me, phase: MsgType)
    requires
        phase == MsgType::PreCommit || phase == MsgType::Commit,
    ensures
        ({
            let b = pass_vote(l, me, phase).rs;
            &&& rests_vote(b, phase)
            &&& same_front(l.rs, b)
            &&& b.view_data.contains_key(b.view)
            &&& rests_prepare(l.rs) ==> rests_prepare(b)
            &&& rests_open(l.rs, me.id, phase) ==> rests_open(b, me.id, phase)
            &&& rests_open(l.rs, me.id, MsgType::PreCommit) ==> rests_open(
                b,
                me.id,
                MsgType::PreCommit,
            )
            &&& forall|p: MsgType|
                p != phase && #[trigger] rests_vote(l.rs, p) ==> rests_vote(b, p)
        }),
{
    let v = l.rs.view;
    let b = pass_vote(l, me, phase).rs;
    let r = l.rs.round(v);
    assert(b.round(v).prepare_votes == r.prepare_votes);
    assert(phase == MsgType::Commit ==> b.round(v).precommit_votes == r.precommit_votes);
    assert(b.round(v).new_view_msgs == r.new_view_msgs);
    assert(b.round(v).proposal == r.proposal);
    assert(view_before(v) != v ==> b.round(view_before(v)) == l.rs.round(view_before(v)));
}

/// After the rules between proposing and deciding, none of them has anything
/// to do.
proof fn lemma_phases_rest(l: Local, me: Me, c: Choices)
    requires
        may_open(pass_prepare(l, me).rs, me.id, MsgType::PreCommit, c.pre_commit),
        may_open(
            pass_vote(pass_pre_commit(l, me, c), me, MsgType::PreCommit).rs,
            me.id,
            MsgType::Commit,
            c.commit,
        ),
        may_open(
            pass_vote(pass_commit(l, me, c), me, MsgType::Commit).rs,
            me.id,
            MsgType::Decide,
            c.decide,
        ),
    ensures
        rests(pass_decide(l, me, c).rs, me.id),
        same_front(l.rs, pass_decide(l, me, c).rs),
{
    let l2 = pass_prepare(l, me);
    let l3 = pass_pre_commit(l, me, c);
    let l4 = pass_vote(l3, me, MsgType::PreCommit);
    let l5 = pass_commit(l, me, c);
    let l6 = pass_vote(l5, me, MsgType::Commit);
    lemma_prepare_rests(l, me);
    lemma_open_rests(l2, me, MsgType::PreCommit, c.pre_commit);
    lemma_vote_rests(l3, me, MsgType::PreCommit);
    lemma_open_rests(l4, me, MsgType::Commit, c.commit);
    lemma_vote_rests(l5, me, MsgType::Commit);
    lemma_open_rests(l6, me, MsgType::Decide, c.decide);
}

proof fn lemma_resting_open(l: Local, me: Me, phase: MsgType, q: Option<Cert>)
    requires
        is_qc_phase(phase),
        l.rs.view_data.contains_key(l.rs.view),
        rests_open(l.rs, me.id, phase),
        may_open(l.rs, me.id, phase, q),
    ensures
        leader_phase_step(l, me, phase, q) == l,
{
    let v = l.rs.view;
    assert(l.touched(v).rs.view_data =~= l.rs.view_data);
    assert(l.touched(v) =~= l);
    if opens_next(l.rs, me.id, phase) {
        lemma_no_certificate(
            votes_of(l.rs.round(v), phase_before(phase)),
            phase_before(phase),
            v,
            l.rs.quorum,
            q,
        );
    }
}

proof fn lemma_resting_vote(l: Local, me: Me, phase: MsgType)
    requires
        l.rs.view_data.contains_key(l.rs.view),
        rests_vote(l.rs, phase),
    ensures
        pass_vote(l, me, phase) == l,
{
    assert(l.touched(l.rs.view).rs.view_data =~= l.rs.view_data);
    assert(l.touched(l.rs.view) =~= l);
}

/// Rules that have nothing to do change nothing.
proof fn lemma_resting_phases(l: Local, me: Me, c: Choices)
    requires
        rests(l.rs, me.id),
        may_open(pass_prepare(l, me).rs, me.id, MsgType::PreCommit, c.pre_commit),
        may_open(
            pass_vote(pass_pre_commit(l, me, c), me, MsgType::PreCommit).rs,
            me.id,
            MsgType::Commit,
            c.commit,
        ),
        may_open(
            pass_vote(pass_commit(l, me, c), me, MsgType::Commit).rs,
            me.id,
            MsgType::Decide,
            c.decide,
        ),
    ensures
        pass_decide(l, me, c) == l,
{
    assert(pass_prepare(l, me) == l);
    lemma_resting_open(l, me, MsgType::PreCommit, c.pre_commit);
    lemma_resting_vote(l, me, MsgType::PreCommit);
    lemma_resting_open(l, me, MsgType::Commit, c.commit);
    lemma_resting_vote(l, me, MsgType::Commit);
    lemma_resting_open(l, me, MsgType::Decide, c.decide);
}

/// There is one prepareQC on which to build.
proof fn lemma_one_highest(msgs: Map<u32, Option<Cert>>, a: Option<Cert>, b: Option<Cert>)
    requires
        is_highest(msgs, a),
        is_highest(msgs, b),
    ensures
        a == b,
{
    if a is Some {
        let k = choose|k: u32| #[trigger] ranks_first(msgs, k) && msgs[k] == a;
        assert(msgs.contains_key(k));
    }
    if b is Some {
        let k = choose|k: u32| #[trigger] ranks_first(msgs, k) && msgs[k] == b;
        assert(msgs.contains_key(k));
    }
}

/// A leader with nothing to propose changes nothing.
#[verifier::rlimit(40)]
proof fn lemma_resting_propose(s: Sys, me: Me, c: Choices, high: Option<Cert>)
    requires
        s.local.rs.view_data.contains_key(s.local.rs.view),
        rests_propose(s.local.rs, me, high),
        proposal_due(s.local.rs, me.id) ==> is_highest(collected(s.local.rs), c.high),
    ensures
        pass_propose(s, me, c).1 is None,
        quiet(s.local, pass_propose(s, me, c).0),
{
    let l = s.local;
    assert(l.touched(l.rs.view).rs.view_data =~= l.rs.view_data);
    assert(l.touched(l.rs.view) =~= l);
    if proposal_due(l.rs, me.id) {
        lemma_one_highest(collected(l.rs), c.high, high);
    }
}

// ---- The pass ----

/// Where a pass keeps the view, the replica had nothing to decide, and what is
/// left of the pass is executing and submitting.
#[verifier::rlimit(40)]
proof fn lemma_view_kept(s: Sys, me: Me, c: Choices)
    requires
        s.local.rs.view < u64::MAX,
        may_choose(s, me, c),
        advance(s, me, c).1 is None,
        advance(s, me, c).0.local.rs.view == s.local.rs.view,
    ensures
        ({
            let l7 = pass_decide(pass_propose(s, me, c).0, me, c);
            let s1 = Sys { local: l7, ..s };
            &&& rests(l7.rs, me.id)
            &&& rests_propose(l7.rs, me, c.high)
            &&& l7.rs.view == s.local.rs.view
            &&& !l7.rs.round(l7.rs.view).seen_decide_qc
                || !l7.rs.staged_decide_qc.contains_key(l7.rs.view)
            &&& replica_decide_step(s1, me) == (s1, None::<Fault>)
        }),
{
    let (l1, fault1) = pass_propose(s, me, c);
    let l7 = pass_decide(l1, me, c);
    let s1 = Sys { local: l7, ..s };
    let v = l7.rs.view;
    lemma_propose_rests(s, me, c);
    lemma_phases_rest(l1, me, c);
    lemma_front_rests(l1.rs, l7.rs, me, c.high);
    assert(l1.rs.view == s.local.rs.view);
    assert(l7.touched(v).rs.view_data =~= l7.rs.view_data);
    assert(l7.touched(v) =~= l7);
    let (s2, fault2) = replica_decide_step(s1, me);
    lemma_execute_steps_keep(s2, me, c.decided);
    let s3 = execute_steps(s2, me, c.decided).0;
    lemma_kicks_submit_only(s3.local, me, s3.live, c.nodes);
    assert(advance(s, me, c).0.local.rs.view == s2.local.rs.view);
    if l7.rs.round(v).seen_decide_qc && l7.rs.staged_decide_qc.contains_key(v) {
        assert(s2.local.rs.view == v + 1);
    }
}

/// Executing leaves the protocol and the tree alone.
proof fn lemma_execute_steps_keep(s: Sys, me: Me, order: Seq<[u8; 32]>)
    ensures
        executes_only(s.local.rs, execute_steps(s, me, order).0.local.rs),
        s.local.rs.last_executed_height <= execute_steps(
            s,
            me,
            order,
        ).0.local.rs.last_executed_height,
    decreases order.len(),
{
    if order.len() > 0 {
        law_execution_keeps_protocol(s, me, order[0]);
        lemma_chain_grows(s, me, chain_of(s.local.rs, order[0]));
        lemma_execute_steps_keep(execute_step(s, me, order[0]).0, me, order.skip(1));
    }
}

/// What a pass over the rules that keeps the view leaves behind: no rule has
/// anything to do, no decision has anything left to execute, and no node has
/// anything to be submitted while none is being validated last.
#[verifier::rlimit(40)]
proof fn lemma_pass_settles(s: Sys, me: Me, c: Choices)
    requires
        s.local.rs.tree.dom().finite(),
        s.local.rs.view < u64::MAX,
        may_choose(s, me, c),
        advance(s, me, c).1 is None,
        advance(s, me, c).0.local.rs.view == s.local.rs.view,
        all_rise(advance(s, me, c).0.local.rs),
        one_path(advance(s, me, c).0.local.rs),
    ensures
        ({
            let f = advance(s, me, c).0;
            let rs = f.local.rs;
            &&& rests(rs, me.id)
            &&& rests_propose(rs, me, c.high)
            &&& !rs.round(rs.view).seen_decide_qc || !rs.staged_decide_qc.contains_key(rs.view)
            &&& forall|d: [u8; 32]| #[trigger]
                rs.decided_nodes.contains_key(d) ==> stuck(rs, me, f.live, d)
            &&& rs.pending_validation is Some || forall|h: [u8; 32]| #[trigger]
                rs.tree.contains_key(h) ==> idle_kick(rs, me, f.live, h)
        }),
{
    let f = advance(s, me, c).0;
    let l7 = pass_decide(pass_propose(s, me, c).0, me, c);
    let s2 = Sys { local: l7, ..s };
    lemma_view_kept(s, me, c);
    lemma_execute_steps_keep(s2, me, c.decided);
    let s3 = execute_steps(s2, me, c.decided).0;
    lemma_kicks_submit_only(s3.local, me, s3.live, c.nodes);
    let rs = f.local.rs;
    assert(rs.tree == l7.rs.tree);
    assert(rs.decided_nodes == l7.rs.decided_nodes);
    assert(enumerates(c.decided, l7.rs.decided_nodes));
    assert(rs.tree.dom().finite());
    law_retry_executes_all_it_can(s2, me, c.decided);
    assert forall|d: [u8; 32]| #[trigger] rs.decided_nodes.contains_key(d) implies stuck(
        rs,
        me,
        f.live,
        d,
    ) by {
        lemma_submitting_keeps_stuck(s3.local.rs, rs, me, f.live, d);
    }
    if rs.pending_validation is None {
        lemma_kicks_exhaust(s3.local, me, s3.live, c.nodes);
        assert(enumerates(c.nodes, s3.local.rs.tree));
        assert forall|h: [u8; 32]| #[trigger] rs.tree.contains_key(h) implies idle_kick(
            rs,
            me,
            f.live,
            h,
        ) by {
            assert(c.nodes.contains(h));
            let i = choose|i: int| 0 <= i < c.nodes.len() && c.nodes[i] == h;
            assert(idle_kick(s3.local.rs, me, s3.live, c.nodes[i]));
        }
    }
    lemma_rest_carries(l7.rs, rs, me, c.high);
}

/// Executing and submitting give no rule anything to do.
proof fn lemma_rest_carries(a: Replica, b: Replica, me: Me, high: Option<Cert>)
    requires
        rests(a, me.id),
        rests_propose(a, me, high),
        b == (Replica {
            last_executed_height: b.last_executed_height,
            committed_at_height: b.committed_at_height,
            post_state_by_node: b.post_state_by_node,
            post_root_by_node: b.post_root_by_node,
            pending_validation: b.pending_validation,
            in_flight: b.in_flight,
            ..a
        }),
    ensures
        rests(b, me.id),
        rests_propose(b, me, high),
{
    assert(b.round(b.view) == a.round(a.view));
    assert(collected(b) == collected(a));
}

/// A pass over the rules is idempotent. Where it met no fault and kept the
/// view, another pass right after it changes neither the replica nor the
/// ledger, and emits nothing but warnings: no message, no request, no timer.
///
/// The decided nodes have to lie on one path of rising heights, as execution
/// depends on that.
#[verifier::rlimit(40)]
pub proof fn law_second_pass_changes_nothing(s: Sys, me: Me, c1: Choices, c2: Choices)
    requires
        s.local.rs.tree.dom().finite(),
        s.local.rs.view < u64::MAX,
        may_choose(s, me, c1),
        advance(s, me, c1).1 is None,
        advance(s, me, c1).0.local.rs.view == s.local.rs.view,
        all_rise(advance(s, me, c1).0.local.rs),
        one_path(advance(s, me, c1).0.local.rs),
        may_choose(advance(s, me, c1).0, me, c2),
    ensures
        ({
            let first = advance(s, me, c1).0;
            let (second, fault) = advance(first, me, c2);
            &&& fault is None
            &&& quiet(first.local, second.local)
            &&& second.live == first.live
            &&& second.root == first.root
        }),
{
    let f = advance(s, me, c1).0;
    let rs = f.local.rs;
    lemma_pass_settles(s, me, c1);
    lemma_resting_propose(f, me, c2, c1.high);
    let l1 = pass_propose(f, me, c2).0;
    lemma_resting_phases(l1, me, c2);
    let s1 = Sys { local: l1, ..f };
    let v = rs.view;
    assert(l1.touched(v).rs.view_data =~= l1.rs.view_data);
    assert(l1.touched(v) =~= l1);
    let s2 = replica_decide_step(s1, me).0;
    assert(s2 == s1);
    assert(enumerates(c2.decided, rs.decided_nodes));
    assert forall|i: int| 0 <= i < c2.decided.len() implies stuck(
        s2.local.rs,
        me,
        s2.live,
        #[trigger] c2.decided[i],
    ) by {
        assert(c2.decided.contains(c2.decided[i]));
        assert(rs.decided_nodes.contains_key(c2.decided[i]));
    }
    lemma_stuck_all_quiet(s2, me, c2.decided);
    let s3 = execute_steps(s2, me, c2.decided).0;
    lemma_quiet_composes(f.local, l1, s3.local);
    assert(enumerates(c2.nodes, rs.tree));
    if rs.pending_validation is None {
        assert forall|i: int| 0 <= i < c2.nodes.len() implies idle_kick(
            s3.local.rs,
            me,
            s3.live,
            #[trigger] c2.nodes[i],
        ) by {
            assert(c2.nodes.contains(c2.nodes[i]));
            assert(rs.tree.contains_key(c2.nodes[i]));
        }
    }
    lemma_idle_kicks_quiet(s3.local, me, s3.live, c2.nodes);
    let l4 = kick_steps(s3.local, me, s3.live, c2.nodes).0;
    lemma_quiet_composes(f.local, s3.local, l4);
}

} // verus!
