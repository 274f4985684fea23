//! What holds of every replica, whatever messages, timers and validation
//! outcomes reach it.
//!
//! Each law is stated of one step. A replica starts in a sound state, every
//! step leads from a sound state to a sound state, and so every state that a
//! replica reaches is sound.

use crate::action::{Effect, Event, SkipReason, Warning};
use crate::consensus::execute::{law_execution_keeps_protocol, lemma_chain_known};
use crate::consensus::model::{
    advance, announce, apply_chain, cast, cert_node, chain_of, doubled, execute_node, execute_step,
    execute_steps, is_qc_phase, keep_proposal, kick_step, kick_steps, leader_phase_step, leaf_height,
    leaf_of, mark_voted, may_choose, may_open, message_step, new_view_msg_step,
    new_view_step, opened, opens_next, outcome_step,
    pass_commit, pass_decide, pass_pre_commit, pass_prepare, pass_propose, pass_vote, phase_before,
    phase_qc_step, phase_signature, proposal_due, proposal_step, propose_step, proposed_hash, replica_decide_step, seen, staged,
    start_step, timer_step, vote_out_step, vote_step, voted, with_opened, with_seen, with_staged,
    with_vote, with_voted, Choices, Local, Me, Sys,
};
use crate::consensus::qc::certified;
use crate::messages::{hash_of, signs_vote, vote_signature, Cert, Msg, MsgType, Node};
use crate::state::{fresh_replica, max_faulty, safe, Replica, Round};
use crate::validator::Outcome;
use vstd::prelude::*;

verus! {

// ---- Soundness ----

/// The replica knows how many replicas there are and how many make a quorum.
pub open spec fn sound_size(rs: Replica) -> bool {
    &&& rs.n >= 1
    &&& rs.f == max_faulty(rs.n)
    &&& rs.quorum == rs.n - rs.f
}

/// The certificates that open `phase` are kept for just those views in which
/// one has been seen, and each is a certificate of the phase before, of its
/// view.
pub open spec fn sound_staged(rs: Replica, phase: MsgType) -> bool {
    forall|v: u64|
        #![trigger staged(rs, phase).contains_key(v)]
        #![trigger rs.round(v)]
        {
            &&& seen(rs.round(v), phase) <==> staged(rs, phase).contains_key(v)
            &&& staged(rs, phase).contains_key(v) ==> staged(rs, phase)[v].view == v && staged(
                rs,
                phase,
            )[v].msg_type == phase_before(phase)
        }
}

/// The replica has voted PRE-COMMIT and COMMIT in no later view than its own,
/// and prepareQC and lockedQC are certificates of the right phases, at least
/// as new as the last view in which it voted so.
pub open spec fn sound_locks(rs: Replica) -> bool {
    &&& rs.prepare_qc matches Some(q) ==> q.msg_type == MsgType::Prepare && q.view <= rs.view
    &&& rs.locked_qc matches Some(q) ==> q.msg_type == MsgType::PreCommit && q.view <= rs.view
    &&& forall|v: u64| (#[trigger] rs.round(v)).voted_precommit ==> v <= rs.view && (
        rs.prepare_qc matches Some(q) && v <= q.view)
    &&& forall|v: u64| (#[trigger] rs.round(v)).voted_commit ==> v <= rs.view && (
        rs.locked_qc matches Some(q) && v <= q.view)
}

/// Each node is kept under its hash, each decided node is kept with its
/// commitQC, each proposal is a known node on top of its highQC, and what is
/// being validated is known and has no verdict yet.
pub open spec fn sound_nodes(rs: Replica) -> bool {
    &&& rs.tree.dom().finite()
    &&& forall|h: [u8; 32]| #[trigger] rs.tree.contains_key(h) ==> hash_of(rs.tree[h]) == h
    &&& forall|h: [u8; 32]| #[trigger]
        rs.decided_nodes.contains_key(h) ==> rs.decided_nodes[h].node_hash == h
            && rs.decided_nodes[h].msg_type == MsgType::Commit
    &&& forall|v: u64| (#[trigger] rs.round(v)).proposal matches Some(p) ==> p.0.parent == cert_node(
        p.1,
    ) && rs.tree.contains_key(hash_of(p.0))
    &&& rs.pending_validation matches Some(h) ==> rs.in_flight.contains_key(h)
    &&& forall|h: [u8; 32]| #[trigger]
        rs.in_flight.contains_key(h) ==> rs.tree.contains_key(h)
            && !rs.validation_result.contains_key(h)
}

/// A node has been committed at each height up to the last executed one, and
/// at no other height; each is known.
pub open spec fn sound_chain(rs: Replica) -> bool {
    &&& rs.last_executed_height >= -1
    &&& forall|x: u64| #[trigger]
        rs.committed_at_height.contains_key(x) <==> x <= rs.last_executed_height
    &&& forall|x: u64| #[trigger]
        rs.committed_at_height.contains_key(x) ==> rs.tree.contains_key(rs.committed_at_height[x])
}

/// What holds of every state of a replica.
pub open spec fn sound(rs: Replica) -> bool {
    &&& sound_size(rs)
    &&& sound_staged(rs, MsgType::PreCommit)
    &&& sound_staged(rs, MsgType::Commit)
    &&& sound_staged(rs, MsgType::Decide)
    &&& sound_locks(rs)
    &&& sound_nodes(rs)
    &&& sound_chain(rs)
}

// ---- Progress ----

/// Whether `b` has all entries of `a`.
pub open spec fn kept<K, V>(a: Map<K, V>, b: Map<K, V>) -> bool {
    forall|k: K| #[trigger] a.contains_key(k) ==> b.contains_key(k) && b[k] == a[k]
}

/// Whether `b` has an entry for all keys of `a`.
pub open spec fn grown<K, V>(a: Map<K, V>, b: Map<K, V>) -> bool {
    forall|k: K| #[trigger] a.contains_key(k) ==> b.contains_key(k)
}

/// Whether the record `b` of a view comes after the record `a` of it: what
/// was done stays done, the proposal stays, and no voter is forgotten.
pub open spec fn round_follows(a: Round, b: Round) -> bool {
    &&& a.proposal is Some ==> b.proposal == a.proposal
    &&& a.voted_prepare ==> b.voted_prepare
    &&& a.voted_precommit ==> b.voted_precommit
    &&& a.voted_commit ==> b.voted_commit
    &&& a.seen_pre_commit_qc ==> b.seen_pre_commit_qc
    &&& a.seen_commit_qc ==> b.seen_commit_qc
    &&& a.seen_decide_qc ==> b.seen_decide_qc
    &&& a.broadcast_proposal ==> b.broadcast_proposal
    &&& a.broadcast_pre_commit ==> b.broadcast_pre_commit
    &&& a.broadcast_commit ==> b.broadcast_commit
    &&& a.broadcast_decide ==> b.broadcast_decide
    &&& grown(a.new_view_msgs, b.new_view_msgs)
    &&& grown(a.prepare_votes, b.prepare_votes)
    &&& grown(a.precommit_votes, b.precommit_votes)
    &&& grown(a.commit_votes, b.commit_votes)
}

/// Whether the certificate `b` is at least as new as `a`.
pub open spec fn cert_follows(a: Option<Cert>, b: Option<Cert>) -> bool {
    a matches Some(p) ==> (b matches Some(q) && p.view <= q.view)
}

/// Whether the block of a node has been submitted to validation.
pub open spec fn submitted(rs: Replica, h: [u8; 32]) -> bool {
    rs.in_flight.contains_key(h) || rs.validation_result.contains_key(h)
}

/// Whether the state `b` of a replica comes after its state `a`: the view and
/// the executed height never decrease, what was committed stays committed,
/// certificates that were staged stay, lockedQC and prepareQC never get older,
/// and what was done in a view stays done.
pub open spec fn follows(a: Replica, b: Replica) -> bool {
    &&& a.n == b.n && a.f == b.f && a.quorum == b.quorum
    &&& a.view <= b.view
    &&& a.last_executed_height <= b.last_executed_height
    &&& kept(a.committed_at_height, b.committed_at_height)
    &&& kept(a.staged_pre_commit_qc, b.staged_pre_commit_qc)
    &&& kept(a.staged_commit_qc, b.staged_commit_qc)
    &&& kept(a.staged_decide_qc, b.staged_decide_qc)
    &&& cert_follows(a.prepare_qc, b.prepare_qc)
    &&& cert_follows(a.locked_qc, b.locked_qc)
    &&& grown(a.tree, b.tree)
    &&& grown(a.decided_nodes, b.decided_nodes)
    &&& grown(a.validation_result, b.validation_result)
    &&& forall|h: [u8; 32]| submitted(a, h) ==> #[trigger] submitted(b, h)
    &&& forall|v: u64| round_follows(a.round(v), #[trigger] b.round(v))
}

/// Progress composes: what comes after a later state comes after the earlier
/// one.
pub proof fn law_progress_composes(a: Replica, b: Replica, c: Replica)
    requires
        follows(a, b),
        follows(b, c),
    ensures
        follows(a, c),
{
    assert forall|v: u64| round_follows(a.round(v), #[trigger] c.round(v)) by {
        assert(round_follows(a.round(v), b.round(v)));
    }
}

/// Whether a step keeps soundness and makes progress.
#[verifier::opaque]
spec fn good(a: Replica, b: Replica) -> bool {
    sound(a) ==> sound(b) && follows(a, b)
}

proof fn lemma_good_composes(a: Replica, b: Replica, c: Replica)
    requires
        good(a, b),
        good(b, c),
    ensures
        good(a, c),
{
    reveal(good);
    if sound(a) {
        law_progress_composes(a, b, c);
    }
}

proof fn lemma_good_refl(a: Replica)
    ensures
        good(a, a),
{
    reveal(good);
    assert forall|v: u64| round_follows(a.round(v), #[trigger] a.round(v)) by {}
}

/// A change of what a view's record says of votes and broadcasts.
#[verifier::rlimit(40)]
proof fn lemma_quiet_round(a: Replica, v: u64, r: Round)
    requires
        round_follows(a.round(v), r),
        r.proposal == a.round(v).proposal,
        r.voted_precommit == a.round(v).voted_precommit,
        r.voted_commit == a.round(v).voted_commit,
        r.seen_pre_commit_qc == a.round(v).seen_pre_commit_qc,
        r.seen_commit_qc == a.round(v).seen_commit_qc,
        r.seen_decide_qc == a.round(v).seen_decide_qc,
    ensures
        good(a, a.with_round(v, r)),
{
    reveal(good);
    lemma_rounds(a, a.with_round(v, r), v, r);
}

/// A certificate is staged.
#[verifier::rlimit(40)]
proof fn lemma_stage(a: Replica, v: u64, phase: MsgType, q: Cert)
    requires
        is_qc_phase(phase),
        !seen(a.round(v), phase),
        q.view == v,
        q.msg_type == phase_before(phase),
    ensures
        good(a, with_staged(a.with_round(v, with_seen(a.round(v), phase)), phase, v, q)),
{
    reveal(good);
    let r = with_seen(a.round(v), phase);
    let b = with_staged(a.with_round(v, r), phase, v, q);
    lemma_rounds(a, b, v, r);
    if sound(a) {
        assert(!staged(a, phase).contains_key(v));
        assert(sound_staged(b, MsgType::PreCommit));
        assert(sound_staged(b, MsgType::Commit));
        assert(sound_staged(b, MsgType::Decide));
    }
}

/// The replica has voted in its view.
#[verifier::rlimit(40)]
proof fn lemma_mark_voted(l: Local, t: MsgType)
    requires
        t == MsgType::PreCommit ==> (l.rs.prepare_qc matches Some(q) && q.view == l.rs.view),
        t == MsgType::Commit ==> (l.rs.locked_qc matches Some(q) && q.view == l.rs.view),
    ensures
        good(l.rs, mark_voted(l, t).rs),
{
    reveal(good);
    let v = l.rs.view;
    lemma_rounds(l.rs, mark_voted(l, t).rs, v, with_voted(l.rs.round(v), t));
}

/// A replica is sound before its first view.
pub proof fn law_new_replica_is_sound(n: u32, timeout_base_ms: u64)
    requires
        n >= 1,
    ensures
        sound(fresh_replica(n, timeout_base_ms)),
{
}

/// A replica is sound after it has started, and has sent nothing twice.
pub proof fn law_start_is_sound(n: u32, timeout_base_ms: u64, me: Me)
    requires
        n >= 1,
    ensures
        ({
            let l = Local { rs: fresh_replica(n, timeout_base_ms), out: Seq::empty() };
            sound(start_step(l, me).rs) && once(start_step(l, me))
        }),
{
    let l = Local { rs: fresh_replica(n, timeout_base_ms), out: Seq::empty() };
    reveal(fires);
    lemma_fires_new_view(l, me, 1);
}

/// The records of the views of `b`, which differ from those of `a` in the view
/// `v` at most.
proof fn lemma_rounds(a: Replica, b: Replica, v: u64, r: Round)
    requires
        b.view_data == a.view_data || (b.view_data == a.view_data.insert(v, a.round(v)) && r
            == a.round(v)) || b.view_data == a.view_data.insert(v, r),
    ensures
        forall|u: u64| #[trigger]
            b.round(u) == (if u == v && b.view_data != a.view_data {
                r
            } else {
                a.round(u)
            }),
{
}

#[verifier::rlimit(40)]
proof fn lemma_new_view(l: Local, me: Me, v: u64)
    requires
        l.rs.view <= v,
    ensures
        good(l.rs, new_view_step(l, me, v).rs),
{
    reveal(good);
    let b = new_view_step(l, me, v).rs;
    lemma_rounds(l.rs, b, l.rs.view, b.round(l.rs.view));
}

proof fn lemma_kick(l: Local, me: Me, live: Map<u32, u64>, h: [u8; 32])
    ensures
        good(l.rs, kick_step(l, me, live, h).0.rs),
{
    reveal(good);
    let b = kick_step(l, me, live, h).0.rs;
    lemma_rounds(l.rs, b, 0, b.round(0));
}

proof fn lemma_kicks(l: Local, me: Me, live: Map<u32, u64>, order: Seq<[u8; 32]>)
    ensures
        good(l.rs, kick_steps(l, me, live, order).0.rs),
    decreases order.len(),
{
    lemma_good_refl(l.rs);
    if order.len() > 0 && l.rs.pending_validation is None {
        lemma_kick(l, me, live, order[0]);
        let l1 = kick_step(l, me, live, order[0]).0;
        lemma_kicks(l1, me, live, order.skip(1));
        lemma_good_composes(l.rs, l1.rs, kick_steps(l1, me, live, order.skip(1)).0.rs);
    }
}

/// A height that is not negative as a signed number stays what it is.
pub(crate) proof fn lemma_signed_height(h: u64)
    ensures
        (h as i64) >= 0 ==> h as i64 == h,
{
    assert((h as i64) >= 0 ==> h < 0x8000_0000_0000_0000u64) by (bit_vector);
}

proof fn lemma_execute_node(s: Sys, h: [u8; 32])
    requires
        s.local.rs.tree.contains_key(h),
        (s.local.rs.tree[h].height as i64) as int == s.local.rs.last_executed_height + 1,
    ensures
        good(s.local.rs, execute_node(s, h).0.local.rs),
{
    reveal(good);
    let b = execute_node(s, h).0.local.rs;
    lemma_rounds(s.local.rs, b, 0, b.round(0));
    lemma_signed_height(s.local.rs.tree[h].height);
}

proof fn lemma_apply_chain(s: Sys, me: Me, chain: Seq<[u8; 32]>)
    requires
        forall|i: int|
            0 <= i < chain.len() ==> s.local.rs.tree.contains_key(#[trigger] chain[i]),
    ensures
        good(s.local.rs, apply_chain(s, me, chain).0.local.rs),
    decreases chain.len(),
{
    let rs = s.local.rs;
    lemma_good_refl(rs);
    if chain.len() > 0 {
        let h = chain[0];
        if (rs.tree[h].height as i64) as int == rs.last_executed_height + 1 {
            if !rs.validation_result.contains_key(h) {
                lemma_kick(s.local, me, s.live, h);
            } else if rs.validation_result[h] {
                lemma_execute_node(s, h);
                let s1 = execute_node(s, h).0;
                if execute_node(s, h).1 is None {
                    assert forall|i: int| 0 <= i < chain.skip(1).len() implies
                        s1.local.rs.tree.contains_key(#[trigger] chain.skip(1)[i]) by {
                        assert(chain.skip(1)[i] == chain[i + 1]);
                    }
                    lemma_apply_chain(s1, me, chain.skip(1));
                    lemma_good_composes(
                        rs,
                        s1.local.rs,
                        apply_chain(s1, me, chain.skip(1)).0.local.rs,
                    );
                }
            }
        }
    }
}

proof fn lemma_execute(s: Sys, me: Me, decided: [u8; 32])
    ensures
        good(s.local.rs, execute_step(s, me, decided).0.local.rs),
{
    let rs = s.local.rs;
    lemma_chain_known(rs, decided);
    lemma_apply_chain(s, me, chain_of(rs, decided));
}

proof fn lemma_executes(s: Sys, me: Me, order: Seq<[u8; 32]>)
    ensures
        good(s.local.rs, execute_steps(s, me, order).0.local.rs),
    decreases order.len(),
{
    lemma_good_refl(s.local.rs);
    if order.len() > 0 {
        lemma_execute(s, me, order[0]);
        let s1 = execute_step(s, me, order[0]).0;
        lemma_executes(s1, me, order.skip(1));
        lemma_good_composes(
            s.local.rs,
            s1.local.rs,
            execute_steps(s1, me, order.skip(1)).0.local.rs,
        );
    }
}

#[verifier::rlimit(40)]
proof fn lemma_announce(l: Local, me: Me, high: Option<Cert>, leaf: Node)
    requires
        leaf.parent == cert_node(high),
    ensures
        good(l.rs, announce(l, me, high, leaf, hash_of(leaf)).rs),
{
    let l1 = announce(l, me, high, leaf, hash_of(leaf));
    reveal(good);
    lemma_rounds(l.rs, l1.rs, l.rs.view, l1.rs.round(l.rs.view));
}

proof fn lemma_propose(
    l: Local,
    me: Me,
    live: Map<u32, u64>,
    high: Option<Cert>,
    leaf: Node,
)
    requires
        leaf.parent == cert_node(high),
    ensures
        good(l.rs, propose_step(l, me, live, high, leaf, hash_of(leaf)).0.rs),
{
    let h = hash_of(leaf);
    let l1 = announce(l, me, high, leaf, h);
    lemma_announce(l, me, high, leaf);
    lemma_kick(l1, me, live, h);
    lemma_good_composes(l.rs, l1.rs, kick_step(l1, me, live, h).0.rs);
}

proof fn lemma_touch(l: Local, v: u64)
    ensures
        good(l.rs, l.touched(v).rs),
{
    lemma_quiet_round(l.rs, v, l.rs.round(v));
}

proof fn lemma_leader_prepare(s: Sys, me: Me, c: Choices)
    ensures
        good(s.local.rs, pass_propose(s, me, c).0.rs),
{
    let l = s.local;
    let l1 = l.touched(l.rs.view);
    lemma_touch(l, l.rs.view);
    lemma_good_refl(l.rs);
    assert(leaf_height(l1.rs, c.high) == leaf_height(l.rs, c.high));
    if let Some(height) = leaf_height(l.rs, c.high) {
        let leaf = leaf_of(me.work, c.high, height);
        lemma_propose(l1, me, s.live, c.high, leaf);
        lemma_good_composes(
            l.rs,
            l1.rs,
            propose_step(l1, me, s.live, c.high, leaf, hash_of(leaf)).0.rs,
        );
    }
}

proof fn lemma_vote_out(l: Local, me: Me, t: MsgType, h: [u8; 32], sig: Seq<u8>)
    requires
        t == MsgType::PreCommit ==> (l.rs.prepare_qc matches Some(q) && q.view == l.rs.view),
        t == MsgType::Commit ==> (l.rs.locked_qc matches Some(q) && q.view == l.rs.view),
    ensures
        good(l.rs, vote_out_step(l, me, t, h, sig).rs),
{
    let l1 = cast(l, me, t, h, sig);
    let v = l.rs.view;
    lemma_good_refl(l.rs);
    lemma_quiet_round(l.rs, v, with_vote(l.rs.round(v), t, me.id, h, sig));
    lemma_mark_voted(l1, t);
    lemma_good_composes(l.rs, l1.rs, mark_voted(l1, t).rs);
}

proof fn lemma_replica_prepare(l: Local, me: Me)
    ensures
        good(l.rs, pass_prepare(l, me).rs),
{
    let v = l.rs.view;
    let h = proposed_hash(l.rs);
    lemma_vote_out(l, me, MsgType::Prepare, h, vote_signature(me.sk, MsgType::Prepare, v, h));
    lemma_good_refl(l.rs);
    lemma_mark_voted(l, MsgType::Prepare);
}

#[verifier::rlimit(40)]
proof fn lemma_leader_phase(l: Local, me: Me, phase: MsgType, q: Option<Cert>)
    requires
        is_qc_phase(phase),
        may_open(l.rs, me.id, phase, q),
    ensures
        good(l.rs, leader_phase_step(l, me, phase, q).rs),
{
    let v = l.rs.view;
    let r = with_opened(l.rs.round(v), phase);
    let a1 = l.rs.with_round(v, r);
    lemma_touch(l, v);
    lemma_good_refl(l.rs);
    lemma_quiet_round(l.rs, v, r);
    assert(l.touched(v).rs.with_round(v, r) =~= a1);
    if let Some(cert) = q {
        if opens_next(l.rs, me.id, phase) && !seen(r, phase) {
            lemma_stage(a1, v, phase, cert);
            let a2 = a1.with_round(v, with_seen(r, phase));
            assert(l.touched(v).rs.with_round(v, with_seen(r, phase)) =~= a2);
            lemma_good_composes(l.rs, a1, with_staged(a2, phase, v, cert));
        }
    }
}

proof fn lemma_replica_phase(l: Local, me: Me, phase: MsgType)
    requires
        phase == MsgType::PreCommit || phase == MsgType::Commit,
    ensures
        good(l.rs, pass_vote(l, me, phase).rs),
{
    let v = l.rs.view;
    let l1 = l.touched(v);
    lemma_touch(l, v);
    if !sound(l.rs) {
        reveal(good);
    } else if seen(l.rs.round(v), phase) && !voted(l.rs.round(v), phase) && staged(
        l.rs,
        phase,
    ).contains_key(v) {
        let q = staged(l.rs, phase)[v];
        let l2 = l1.with(
            if phase == MsgType::PreCommit {
                Replica { prepare_qc: Some(q), ..l1.rs }
            } else {
                Replica { locked_qc: Some(q), ..l1.rs }
            },
        );
        assert(good(l1.rs, l2.rs)) by {
            reveal(good);
            lemma_rounds(l1.rs, l2.rs, v, l2.rs.round(v));
            assert(staged(l.rs, phase).contains_key(v));
        }
        lemma_vote_out(l2, me, phase, q.node_hash, phase_signature(l.rs, me, phase));
        lemma_good_composes(l.rs, l1.rs, l2.rs);
        lemma_good_composes(l.rs, l2.rs, pass_vote(l, me, phase).rs);
    }
}

proof fn lemma_timeout(a: Replica, ms: u64)
    ensures
        good(a, Replica { timeout_interval_ms: ms, ..a }),
{
    reveal(good);
    lemma_rounds(a, Replica { timeout_interval_ms: ms, ..a }, 0, a.round(0));
}

#[verifier::rlimit(40)]
proof fn lemma_replica_decide(s: Sys, me: Me)
    requires
        s.local.rs.view < u64::MAX,
    ensures
        good(s.local.rs, replica_decide_step(s, me).0.local.rs),
{
    let l = s.local;
    let v = l.rs.view;
    let l1 = l.touched(v);
    lemma_touch(l, v);
    if !sound(l.rs) {
        reveal(good);
    } else if l.rs.round(v).seen_decide_qc && l.rs.staged_decide_qc.contains_key(v) {
        assert(staged(l.rs, MsgType::Decide).contains_key(v));
        let q = l.rs.staged_decide_qc[v];
        let l2 = l1.with(
            Replica { decided_nodes: l1.rs.decided_nodes.insert(q.node_hash, q), ..l1.rs },
        );
        assert(good(l1.rs, l2.rs)) by {
            reveal(good);
            lemma_rounds(l1.rs, l2.rs, v, l2.rs.round(v));
        }
        lemma_good_composes(l.rs, l1.rs, l2.rs);
        let s2 = Sys { local: l2, ..s };
        lemma_execute(s2, me, q.node_hash);
        let (s3, fault) = execute_step(s2, me, q.node_hash);
        lemma_good_composes(l.rs, l2.rs, s3.local.rs);
        if fault is None {
            law_execution_keeps_protocol(s2, me, q.node_hash);
            let l4 = s3.local.log(v, Event::ViewDecide { node_hash: q.node_hash });
            let l5 = l4.with(Replica { timeout_interval_ms: me.base_ms, ..l4.rs });
            lemma_timeout(l4.rs, me.base_ms);
            lemma_good_composes(l.rs, l4.rs, l5.rs);
            lemma_new_view(l5, me, (v + 1) as u64);
            lemma_good_composes(l.rs, l5.rs, new_view_step(l5, me, (v + 1) as u64).rs);
        }
    }
}

/// A pass over the rules keeps a replica sound, and makes progress.
pub proof fn law_rules_keep_sound(s: Sys, me: Me, c: Choices)
    requires
        sound(s.local.rs),
        s.local.rs.view < u64::MAX,
        may_choose(s, me, c),
    ensures
        sound(advance(s, me, c).0.local.rs),
        follows(s.local.rs, advance(s, me, c).0.local.rs),
{
    reveal(good);
    lemma_rules(s, me, c);
}

#[verifier::rlimit(40)]
proof fn lemma_rules(s: Sys, me: Me, c: Choices)
    requires
        s.local.rs.view < u64::MAX,
        may_choose(s, me, c),
    ensures
        good(s.local.rs, advance(s, me, c).0.local.rs),
{
    let rs = s.local.rs;
    let (l1, fault1) = pass_propose(s, me, c);
    lemma_leader_prepare(s, me, c);
    if fault1 is None {
        let l7 = pass_decide(l1, me, c);
        lemma_phases(l1, me, c);
        lemma_good_composes(rs, l1.rs, l7.rs);
        let s1 = Sys { local: l7, ..s };
        lemma_pass_keeps_view(s, me, c);
        lemma_replica_decide(s1, me);
        let (s2, fault2) = replica_decide_step(s1, me);
        lemma_good_composes(rs, l7.rs, s2.local.rs);
        if fault2 is None {
            lemma_executes(s2, me, c.decided);
            let (s3, fault3) = execute_steps(s2, me, c.decided);
            lemma_good_composes(rs, s2.local.rs, s3.local.rs);
            if fault3 is None {
                lemma_kicks(s3.local, me, s3.live, c.nodes);
                lemma_good_composes(
                    rs,
                    s3.local.rs,
                    kick_steps(s3.local, me, s3.live, c.nodes).0.rs,
                );
            }
        }
    }
}

proof fn lemma_phases(l: Local, me: Me, c: Choices)
    requires
        may_open(pass_prepare(l, me).rs, me.id, MsgType::PreCommit, c.pre_commit),
        may_open(
            pass_vote(pass_pre_commit(l, me, c), me, MsgType::PreCommit).rs,
            me.id,
            MsgType::Commit,
            c.commit,
        ),
        may_open(
            pass_vote(pass_commit(l, me, c), me, MsgType::Commit).rs,
            me.id,
            MsgType::Decide,
            c.decide,
        ),
    ensures
        good(l.rs, pass_decide(l, me, c).rs),
{
    let l2 = pass_prepare(l, me);
    let l3 = pass_pre_commit(l, me, c);
    let l4 = pass_vote(l3, me, MsgType::PreCommit);
    let l5 = pass_commit(l, me, c);
    let l6 = pass_vote(l5, me, MsgType::Commit);
    let l7 = pass_decide(l, me, c);
    lemma_replica_prepare(l, me);
    lemma_leader_phase(l2, me, MsgType::PreCommit, c.pre_commit);
    lemma_good_composes(l.rs, l2.rs, l3.rs);
    lemma_replica_phase(l3, me, MsgType::PreCommit);
    lemma_good_composes(l.rs, l3.rs, l4.rs);
    lemma_leader_phase(l4, me, MsgType::Commit, c.commit);
    lemma_good_composes(l.rs, l4.rs, l5.rs);
    lemma_replica_phase(l5, me, MsgType::Commit);
    lemma_good_composes(l.rs, l5.rs, l6.rs);
    lemma_leader_phase(l6, me, MsgType::Decide, c.decide);
    lemma_good_composes(l.rs, l6.rs, l7.rs);
}

/// The rules before DECIDE stay in the view.
proof fn lemma_pass_keeps_view(s: Sys, me: Me, c: Choices)
    ensures
        pass_decide(pass_propose(s, me, c).0, me, c).rs.view == s.local.rs.view,
{
    let l1 = pass_propose(s, me, c).0;
    let l2 = pass_prepare(l1, me);
    let l3 = pass_pre_commit(l1, me, c);
    let l4 = pass_vote(l3, me, MsgType::PreCommit);
    let l5 = pass_commit(l1, me, c);
    let l6 = pass_vote(l5, me, MsgType::Commit);
    assert(l1.rs.view == s.local.rs.view);
    assert(l2.rs.view == l1.rs.view);
    assert(l3.rs.view == l2.rs.view);
    assert(l4.rs.view == l3.rs.view);
    assert(l5.rs.view == l4.rs.view);
    assert(l6.rs.view == l5.rs.view);
}

/// A timer keeps a replica sound, and makes progress.
pub proof fn law_timer_keeps_sound(l: Local, me: Me, view: u64)
    requires
        sound(l.rs),
        l.rs.view < u64::MAX,
    ensures
        sound(timer_step(l, me, view).rs),
        follows(l.rs, timer_step(l, me, view).rs),
{
    reveal(good);
    lemma_good_refl(l.rs);
    if view == l.rs.view && !l.rs.round(view).seen_decide_qc {
        let l1 = l.log(view, Event::NextView).with(
            Replica { timeout_interval_ms: doubled(l.rs.timeout_interval_ms), ..l.rs },
        );
        lemma_timeout(l.rs, doubled(l.rs.timeout_interval_ms));
        lemma_new_view(l1, me, (view + 1) as u64);
        lemma_good_composes(l.rs, l1.rs, new_view_step(l1, me, (view + 1) as u64).rs);
    }
}

/// The outcome of a validation keeps a replica sound, and makes progress.
#[verifier::rlimit(40)]
pub proof fn law_outcome_keeps_sound(rs: Replica, o: Outcome)
    requires
        sound(rs),
    ensures
        sound(outcome_step(rs, o)),
        follows(rs, outcome_step(rs, o)),
{
    lemma_rounds(rs, outcome_step(rs, o), 0, rs.round(0));
}

/// A message keeps a replica sound, and makes progress, whoever sent it.
pub proof fn law_message_keeps_sound(
    l: Local,
    me: Me,
    live: Map<u32, u64>,
    msg: Msg,
    keys: Map<u32, [u8; 32]>,
)
    requires
        sound(l.rs),
    ensures
        sound(message_step(l, me, live, msg, keys).0.rs),
        follows(l.rs, message_step(l, me, live, msg, keys).0.rs),
{
    reveal(good);
    lemma_message(l, me, live, msg, keys);
}

#[verifier::rlimit(40)]
proof fn lemma_phase_qc(
    l: Local,
    msg_type: MsgType,
    view: u64,
    justify: Cert,
    sender: u32,
    qc_ok: bool,
)
    ensures
        good(l.rs, phase_qc_step(l, msg_type, view, justify, sender, qc_ok).rs),
{
    lemma_good_refl(l.rs);
    lemma_touch(l, view);
    let r = l.rs.round(view);
    if is_qc_phase(msg_type) && justify.msg_type == phase_before(msg_type) && justify.view == view
        && !seen(r, msg_type) {
        lemma_stage(l.rs, view, msg_type, justify);
        let a = with_staged(
            l.rs.with_round(view, with_seen(r, msg_type)),
            msg_type,
            view,
            justify,
        );
        let b = Replica {
            decided_nodes: a.decided_nodes.insert(justify.node_hash, justify),
            ..a
        };
        if msg_type == MsgType::Decide {
            assert(good(a, b)) by {
                reveal(good);
                lemma_rounds(a, b, 0, b.round(0));
            }
            lemma_good_composes(l.rs, a, b);
        }
    }
}

#[verifier::rlimit(40)]
proof fn lemma_keep_proposal(
    l: Local,
    view: u64,
    node: Node,
    justify: Option<Cert>,
    sender: u32,
)
    requires
        node.parent == cert_node(justify),
    ensures
        good(l.rs, keep_proposal(l, view, node, justify, sender, hash_of(node)).rs),
{
    let l1 = keep_proposal(l, view, node, justify, sender, hash_of(node));
    reveal(good);
    lemma_rounds(l.rs, l1.rs, view, l1.rs.round(view));
}

#[verifier::rlimit(40)]
proof fn lemma_proposal(
    l: Local,
    me: Me,
    live: Map<u32, u64>,
    view: u64,
    node: Node,
    justify: Option<Cert>,
    sender: u32,
    qc_ok: bool,
)
    ensures
        good(
            l.rs,
            proposal_step(
                l,
                me,
                live,
                view,
                node,
                justify,
                sender,
                qc_ok,
                hash_of(node),
            ).0.rs,
        ),
{
    lemma_good_refl(l.rs);
    let h = hash_of(node);
    let l1 = keep_proposal(l, view, node, justify, sender, h);
    if node.parent == cert_node(justify) {
        lemma_keep_proposal(l, view, node, justify, sender);
        lemma_kick(l1, me, live, h);
        lemma_good_composes(l.rs, l1.rs, kick_step(l1, me, live, h).0.rs);
    }
}

proof fn lemma_vote(
    l: Local,
    id: u32,
    t: MsgType,
    view: u64,
    h: [u8; 32],
    voter: u32,
    sig: Seq<u8>,
    known: bool,
    sig_ok: bool,
)
    ensures
        good(l.rs, vote_step(l, id, t, view, h, voter, sig, known, sig_ok).rs),
{
    lemma_good_refl(l.rs);
    lemma_touch(l, view);
    lemma_quiet_round(l.rs, view, with_vote(l.rs.round(view), t, voter, h, sig));
}

proof fn lemma_new_view_msg(
    l: Local,
    id: u32,
    view: u64,
    justify: Option<Cert>,
    sender: u32,
    qc_ok: bool,
)
    ensures
        good(l.rs, new_view_msg_step(l, id, view, justify, sender, qc_ok).rs),
{
    let r = l.rs.round(view);
    lemma_good_refl(l.rs);
    lemma_touch(l, view);
    lemma_quiet_round(
        l.rs,
        view,
        Round { new_view_msgs: r.new_view_msgs.insert(sender, justify), ..r },
    );
}

proof fn lemma_message(
    l: Local,
    me: Me,
    live: Map<u32, u64>,
    msg: Msg,
    keys: Map<u32, [u8; 32]>,
)
    ensures
        good(l.rs, message_step(l, me, live, msg, keys).0.rs),
{
    let quorum = l.rs.quorum;
    match msg {
        Msg::Hello { .. } => lemma_good_refl(l.rs),
        Msg::Proposal { view, node, justify, sender } => {
            let ok = justify is Some && certified(justify->0, quorum, keys);
            lemma_proposal(l, me, live, view, node, justify, sender, ok);
        },
        Msg::PhaseQc { msg_type, view, justify, sender } => {
            let ok = certified(justify, quorum, keys);
            lemma_phase_qc(l, msg_type, view, justify, sender, ok);
        },
        Msg::Vote { msg_type, view, node_hash, voter, partial_sig } => {
            let known = keys.contains_key(voter);
            let ok = signs_vote(keys[voter], msg_type, view, node_hash, partial_sig);
            lemma_vote(l, me.id, msg_type, view, node_hash, voter, partial_sig, known, ok);
        },
        Msg::NewView { view, justify, sender } => {
            let ok = justify is Some && certified(justify->0, quorum, keys);
            lemma_new_view_msg(l, me.id, view, justify, sender, ok);
        },
    }
}

// ---- At most once ----

/// What a replica may send at most once.
pub enum Slot {
    /// A vote in a phase of a view.
    Vote { phase: MsgType, view: u64 },
    /// A proposal in a view.
    Proposal { view: u64 },
    /// The certificate that opens a phase of a view.
    Opening { phase: MsgType, view: u64 },
    /// NEW-VIEW on leaving a view.
    Leaving { view: u64 },
    /// A request to validate the block of a node.
    Validation { node: [u8; 32] },
}

/// What an effect sends that may be sent at most once.
pub open spec fn slot_of(e: Effect) -> Option<Slot> {
    match e {
        Effect::SendTo { msg: Msg::Vote { msg_type, view, .. }, .. } => Some(
            Slot::Vote { phase: msg_type, view },
        ),
        Effect::SendTo { msg: Msg::NewView { view, .. }, .. } => Some(Slot::Leaving { view }),
        Effect::Broadcast { msg: Msg::Proposal { view, .. } } => Some(Slot::Proposal { view }),
        Effect::Broadcast { msg: Msg::PhaseQc { msg_type, view, .. } } => Some(
            Slot::Opening { phase: msg_type, view },
        ),
        Effect::Validate { req, .. } => Some(Slot::Validation { node: req.node_hash }),
        _ => None,
    }
}

/// Whether a replica will not send something again.
pub open spec fn spent(rs: Replica, slot: Slot) -> bool {
    match slot {
        Slot::Vote { phase, view } => voted(rs.round(view), phase),
        Slot::Proposal { view } => rs.round(view).broadcast_proposal,
        Slot::Opening { phase, view } => opened(rs.round(view), phase),
        Slot::Leaving { view } => view < rs.view,
        Slot::Validation { node } => submitted(rs, node),
    }
}

/// Whether the replica has sent nothing twice that may be sent at most once,
/// and knows what it has sent.
pub open spec fn once(l: Local) -> bool {
    &&& forall|i: int|
        0 <= i < l.out.len() ==> (slot_of(#[trigger] l.out[i]) matches Some(slot) ==> spent(
            l.rs,
            slot,
        ))
    &&& forall|i: int, j: int|
        0 <= i < j < l.out.len() && slot_of(#[trigger] l.out[i]) is Some ==> slot_of(
            #[trigger] l.out[j],
        ) != slot_of(l.out[i])
}

/// Whether a step keeps soundness and sends nothing twice.
#[verifier::opaque]
spec fn fires(a: Local, b: Local) -> bool {
    sound(a.rs) && once(a) ==> sound(b.rs) && once(b)
}

proof fn lemma_fires_composes(a: Local, b: Local, c: Local)
    requires
        fires(a, b),
        fires(b, c),
    ensures
        fires(a, c),
{
    reveal(fires);
}

/// Whether `b` has been asked for what `a` has, and for at most one more thing
/// that may be sent at most once: `slot`.
spec fn appends(a: Local, b: Local, slot: Option<Slot>) -> bool {
    &&& a.out.len() <= b.out.len()
    &&& forall|i: int| 0 <= i < a.out.len() ==> b.out[i] == #[trigger] a.out[i]
    &&& forall|i: int|
        a.out.len() <= i < b.out.len() && slot_of(#[trigger] b.out[i]) is Some ==> slot_of(b.out[i])
            == slot
    &&& forall|i: int, j: int|
        a.out.len() <= i < j < b.out.len() && slot_of(#[trigger] b.out[i]) is Some ==> slot_of(
            #[trigger] b.out[j],
        ) is None
}

#[verifier::rlimit(40)]
proof fn lemma_fires(a: Local, b: Local, slot: Option<Slot>)
    requires
        good(a.rs, b.rs),
        appends(a, b, slot),
        slot matches Some(x) ==> !spent(a.rs, x) && spent(b.rs, x),
    ensures
        fires(a, b),
{
    reveal(good);
    reveal(fires);
    if sound(a.rs) && once(a) {
        assert forall|x: Slot| #[trigger] spent(a.rs, x) implies spent(b.rs, x) by {
            match x {
                Slot::Vote { view, .. } => {
                    assert(round_follows(a.rs.round(view), b.rs.round(view)));
                },
                Slot::Proposal { view } => {
                    assert(round_follows(a.rs.round(view), b.rs.round(view)));
                },
                Slot::Opening { view, .. } => {
                    assert(round_follows(a.rs.round(view), b.rs.round(view)));
                },
                Slot::Leaving { .. } => {},
                Slot::Validation { node } => {
                    assert(submitted(b.rs, node));
                },
            }
        }
        assert forall|i: int| 0 <= i < b.out.len() implies (slot_of(#[trigger] b.out[i]) matches Some(
            x,
        ) ==> spent(b.rs, x)) by {
            if i < a.out.len() {
                assert(b.out[i] == a.out[i]);
            }
        }
        assert forall|i: int, j: int|
            0 <= i < j < b.out.len() && slot_of(#[trigger] b.out[i]) is Some implies slot_of(
            #[trigger] b.out[j],
        ) != slot_of(b.out[i]) by {
            if i < a.out.len() {
                assert(b.out[i] == a.out[i]);
                if j < a.out.len() {
                    assert(b.out[j] == a.out[j]);
                }
            }
        }
    }
}

proof fn lemma_fires_kick(l: Local, me: Me, live: Map<u32, u64>, h: [u8; 32])
    ensures
        fires(l, kick_step(l, me, live, h).0),
{
    lemma_kick(l, me, live, h);
    let l1 = kick_step(l, me, live, h).0;
    if submitted(l.rs, h) {
        lemma_fires(l, l1, None);
    } else {
        let slot = Slot::Validation { node: h };
        lemma_fires(l, l1, if submitted(l1.rs, h) { Some(slot) } else { None });
    }
}

proof fn lemma_fires_kicks(l: Local, me: Me, live: Map<u32, u64>, order: Seq<[u8; 32]>)
    ensures
        fires(l, kick_steps(l, me, live, order).0),
    decreases order.len(),
{
    reveal(fires);
    if order.len() > 0 && l.rs.pending_validation is None {
        lemma_fires_kick(l, me, live, order[0]);
        lemma_fires_kicks(kick_step(l, me, live, order[0]).0, me, live, order.skip(1));
    }
}

proof fn lemma_fires_chain(s: Sys, me: Me, chain: Seq<[u8; 32]>)
    requires
        forall|i: int|
            0 <= i < chain.len() ==> s.local.rs.tree.contains_key(#[trigger] chain[i]),
    ensures
        fires(s.local, apply_chain(s, me, chain).0.local),
    decreases chain.len(),
{
    let rs = s.local.rs;
    lemma_good_refl(rs);
    lemma_fires(s.local, s.local, None);
    if chain.len() > 0 {
        let h = chain[0];
        if (rs.tree[h].height as i64) as int == rs.last_executed_height + 1 {
            if !rs.validation_result.contains_key(h) {
                lemma_fires_kick(s.local, me, s.live, h);
            } else if !rs.validation_result[h] {
                lemma_fires(s.local, apply_chain(s, me, chain).0.local, None);
            } else {
                let s1 = execute_node(s, h).0;
                lemma_execute_node(s, h);
                lemma_fires(s.local, s1.local, None);
                if execute_node(s, h).1 is None {
                    assert forall|i: int| 0 <= i < chain.skip(1).len() implies
                        s1.local.rs.tree.contains_key(#[trigger] chain.skip(1)[i]) by {
                        assert(chain.skip(1)[i] == chain[i + 1]);
                    }
                    lemma_fires_chain(s1, me, chain.skip(1));
                    lemma_fires_composes(
                        s.local,
                        s1.local,
                        apply_chain(s1, me, chain.skip(1)).0.local,
                    );
                }
            }
        }
    }
}

proof fn lemma_fires_execute(s: Sys, me: Me, decided: [u8; 32])
    ensures
        fires(s.local, execute_step(s, me, decided).0.local),
{
    let rs = s.local.rs;
    lemma_chain_known(rs, decided);
    lemma_fires_chain(s, me, chain_of(rs, decided));
}

proof fn lemma_fires_executes(s: Sys, me: Me, order: Seq<[u8; 32]>)
    ensures
        fires(s.local, execute_steps(s, me, order).0.local),
    decreases order.len(),
{
    reveal(fires);
    if order.len() > 0 {
        lemma_fires_execute(s, me, order[0]);
        lemma_fires_executes(execute_step(s, me, order[0]).0, me, order.skip(1));
    }
}

proof fn lemma_fires_new_view(l: Local, me: Me, v: u64)
    requires
        l.rs.view < v,
    ensures
        fires(l, new_view_step(l, me, v)),
{
    lemma_new_view(l, me, v);
    if l.rs.leader(v) == me.id {
        lemma_fires(l, new_view_step(l, me, v), None);
    } else {
        lemma_fires(l, new_view_step(l, me, v), Some(Slot::Leaving { view: l.rs.view }));
    }
}

#[verifier::rlimit(40)]
proof fn lemma_fires_leader_prepare(s: Sys, me: Me, c: Choices)
    ensures
        fires(s.local, pass_propose(s, me, c).0),
{
    let l = s.local;
    let v = l.rs.view;
    let l1 = l.touched(v);
    lemma_good_refl(l.rs);
    lemma_touch(l, v);
    lemma_fires(l, l, None);
    lemma_fires(l, l1, None);
    let l2 = l1.warn(Warning::HighQcNodeUnknown);
    lemma_fires(l, l2, None);
    assert(leaf_height(l1.rs, c.high) == leaf_height(l.rs, c.high));
    if let Some(height) = leaf_height(l.rs, c.high) {
        if proposal_due(l.rs, me.id) {
            let leaf = leaf_of(me.work, c.high, height);
            let h = hash_of(leaf);
            let l3 = announce(l1, me, c.high, leaf, h);
            lemma_announce(l1, me, c.high, leaf);
            lemma_fires(l1, l3, Some(Slot::Proposal { view: v }));
            lemma_fires_kick(l3, me, s.live, h);
            lemma_fires_composes(l, l1, l3);
            lemma_fires_composes(l, l3, kick_step(l3, me, s.live, h).0);
        }
    }
}

proof fn lemma_fires_vote_out(l: Local, me: Me, t: MsgType, h: [u8; 32], sig: Seq<u8>)
    requires
        t == MsgType::Prepare || t == MsgType::PreCommit || t == MsgType::Commit,
        t == MsgType::PreCommit ==> (l.rs.prepare_qc matches Some(q) && q.view == l.rs.view),
        t == MsgType::Commit ==> (l.rs.locked_qc matches Some(q) && q.view == l.rs.view),
        !voted(l.rs.round(l.rs.view), t),
    ensures
        fires(l, vote_out_step(l, me, t, h, sig)),
{
    lemma_vote_out(l, me, t, h, sig);
    let l1 = vote_out_step(l, me, t, h, sig);
    if l.rs.leader(l.rs.view) == me.id {
        lemma_fires(l, l1, None);
    } else {
        lemma_fires(l, l1, Some(Slot::Vote { phase: t, view: l.rs.view }));
    }
}

proof fn lemma_fires_replica_prepare(l: Local, me: Me)
    ensures
        fires(l, pass_prepare(l, me)),
{
    let v = l.rs.view;
    let h = proposed_hash(l.rs);
    lemma_good_refl(l.rs);
    lemma_fires(l, l, None);
    lemma_mark_voted(l, MsgType::Prepare);
    let m = mark_voted(l, MsgType::Prepare);
    lemma_fires(l, m.log(v, Event::PrepareSkip { reason: SkipReason::ValidFalse }), None);
    lemma_fires(l, m.log(v, Event::PrepareSkip { reason: SkipReason::SafeNodeFalse }), None);
    if !l.rs.round(v).voted_prepare {
        let sig = vote_signature(me.sk, MsgType::Prepare, v, h);
        lemma_fires_vote_out(l, me, MsgType::Prepare, h, sig);
    }
}

#[verifier::rlimit(40)]
proof fn lemma_fires_leader_phase(l: Local, me: Me, phase: MsgType, q: Option<Cert>)
    requires
        is_qc_phase(phase),
        may_open(l.rs, me.id, phase, q),
    ensures
        fires(l, leader_phase_step(l, me, phase, q)),
{
    lemma_leader_phase(l, me, phase, q);
    let l1 = leader_phase_step(l, me, phase, q);
    if opens_next(l.rs, me.id, phase) && q is Some {
        lemma_fires(l, l1, Some(Slot::Opening { phase, view: l.rs.view }));
    } else {
        lemma_fires(l, l1, None);
    }
}

proof fn lemma_fires_replica_phase(l: Local, me: Me, phase: MsgType)
    requires
        phase == MsgType::PreCommit || phase == MsgType::Commit,
    ensures
        fires(l, pass_vote(l, me, phase)),
{
    let v = l.rs.view;
    let l1 = l.touched(v);
    lemma_touch(l, v);
    lemma_fires(l, l1, None);
    if !sound(l.rs) {
        reveal(fires);
    } else if seen(l.rs.round(v), phase) && !voted(l.rs.round(v), phase) && staged(
        l.rs,
        phase,
    ).contains_key(v) {
        let q = staged(l.rs, phase)[v];
        let l2 = l1.with(
            if phase == MsgType::PreCommit {
                Replica { prepare_qc: Some(q), ..l1.rs }
            } else {
                Replica { locked_qc: Some(q), ..l1.rs }
            },
        );
        assert(good(l.rs, l2.rs)) by {
            reveal(good);
            lemma_rounds(l.rs, l2.rs, v, l2.rs.round(v));
            assert(staged(l.rs, phase).contains_key(v));
        }
        lemma_fires(l, l2, None);
        lemma_fires_vote_out(l2, me, phase, q.node_hash, phase_signature(l.rs, me, phase));
        lemma_fires_composes(l, l2, pass_vote(l, me, phase));
    }
}

#[verifier::rlimit(40)]
proof fn lemma_fires_replica_decide(s: Sys, me: Me)
    requires
        s.local.rs.view < u64::MAX,
    ensures
        fires(s.local, replica_decide_step(s, me).0.local),
{
    let l = s.local;
    let v = l.rs.view;
    let l1 = l.touched(v);
    lemma_touch(l, v);
    lemma_fires(l, l1, None);
    if !sound(l.rs) {
        reveal(fires);
    } else if l.rs.round(v).seen_decide_qc && l.rs.staged_decide_qc.contains_key(v) {
        assert(staged(l.rs, MsgType::Decide).contains_key(v));
        let q = l.rs.staged_decide_qc[v];
        let l2 = l1.with(
            Replica { decided_nodes: l1.rs.decided_nodes.insert(q.node_hash, q), ..l1.rs },
        );
        assert(good(l.rs, l2.rs)) by {
            reveal(good);
            lemma_rounds(l.rs, l2.rs, v, l2.rs.round(v));
        }
        lemma_fires(l, l2, None);
        let s2 = Sys { local: l2, ..s };
        lemma_fires_execute(s2, me, q.node_hash);
        let (s3, fault) = execute_step(s2, me, q.node_hash);
        lemma_fires_composes(l, l2, s3.local);
        if fault is None {
            law_execution_keeps_protocol(s2, me, q.node_hash);
            let l4 = s3.local.log(v, Event::ViewDecide { node_hash: q.node_hash });
            let l5 = l4.with(Replica { timeout_interval_ms: me.base_ms, ..l4.rs });
            lemma_timeout(l4.rs, me.base_ms);
            lemma_fires(s3.local, l5, None);
            lemma_fires_composes(l, s3.local, l5);
            lemma_fires_new_view(l5, me, (v + 1) as u64);
            lemma_fires_composes(l, l5, new_view_step(l5, me, (v + 1) as u64));
        }
    }
}

/// A pass over the rules sends nothing twice: no second vote in a phase of a
/// view, no second proposal in a view, no second certificate for a phase of a
/// view, no second NEW-VIEW on leaving a view, and no second request to validate
/// the block of a node.
pub proof fn law_rules_send_once(s: Sys, me: Me, c: Choices)
    requires
        sound(s.local.rs),
        once(s.local),
        s.local.rs.view < u64::MAX,
        may_choose(s, me, c),
    ensures
        once(advance(s, me, c).0.local),
{
    lemma_fires_rules(s, me, c);
    reveal(fires);
}

proof fn lemma_fires_phases(l: Local, me: Me, c: Choices)
    requires
        may_open(pass_prepare(l, me).rs, me.id, MsgType::PreCommit, c.pre_commit),
        may_open(
            pass_vote(pass_pre_commit(l, me, c), me, MsgType::PreCommit).rs,
            me.id,
            MsgType::Commit,
            c.commit,
        ),
        may_open(
            pass_vote(pass_commit(l, me, c), me, MsgType::Commit).rs,
            me.id,
            MsgType::Decide,
            c.decide,
        ),
    ensures
        fires(l, pass_decide(l, me, c)),
{
    let l2 = pass_prepare(l, me);
    let l3 = pass_pre_commit(l, me, c);
    let l4 = pass_vote(l3, me, MsgType::PreCommit);
    let l5 = pass_commit(l, me, c);
    let l6 = pass_vote(l5, me, MsgType::Commit);
    let l7 = pass_decide(l, me, c);
    lemma_fires_replica_prepare(l, me);
    lemma_fires_leader_phase(l2, me, MsgType::PreCommit, c.pre_commit);
    lemma_fires_composes(l, l2, l3);
    lemma_fires_replica_phase(l3, me, MsgType::PreCommit);
    lemma_fires_composes(l, l3, l4);
    lemma_fires_leader_phase(l4, me, MsgType::Commit, c.commit);
    lemma_fires_composes(l, l4, l5);
    lemma_fires_replica_phase(l5, me, MsgType::Commit);
    lemma_fires_composes(l, l5, l6);
    lemma_fires_leader_phase(l6, me, MsgType::Decide, c.decide);
    lemma_fires_composes(l, l6, l7);
}

#[verifier::rlimit(40)]
proof fn lemma_fires_rules(s: Sys, me: Me, c: Choices)
    requires
        s.local.rs.view < u64::MAX,
        may_choose(s, me, c),
    ensures
        fires(s.local, advance(s, me, c).0.local),
{
    let l = s.local;
    let (l1, fault1) = pass_propose(s, me, c);
    lemma_fires_leader_prepare(s, me, c);
    if fault1 is None {
        let l7 = pass_decide(l1, me, c);
        lemma_fires_phases(l1, me, c);
        lemma_fires_composes(l, l1, l7);
        let s1 = Sys { local: l7, ..s };
        lemma_pass_keeps_view(s, me, c);
        lemma_fires_replica_decide(s1, me);
        let (s2, fault2) = replica_decide_step(s1, me);
        lemma_fires_composes(l, l7, s2.local);
        if fault2 is None {
            lemma_fires_executes(s2, me, c.decided);
            let (s3, fault3) = execute_steps(s2, me, c.decided);
            lemma_fires_composes(l, s2.local, s3.local);
            if fault3 is None {
                let l8 = kick_steps(s3.local, me, s3.live, c.nodes).0;
                lemma_fires_kicks(s3.local, me, s3.live, c.nodes);
                lemma_fires_composes(l, s3.local, l8);
            }
        }
    }
}

/// A timer sends nothing twice.
pub proof fn law_timer_sends_once(l: Local, me: Me, view: u64)
    requires
        sound(l.rs),
        once(l),
        l.rs.view < u64::MAX,
    ensures
        once(timer_step(l, me, view)),
{
    if view == l.rs.view && !l.rs.round(view).seen_decide_qc {
        let l1 = l.log(view, Event::NextView).with(
            Replica { timeout_interval_ms: doubled(l.rs.timeout_interval_ms), ..l.rs },
        );
        lemma_timeout(l.rs, doubled(l.rs.timeout_interval_ms));
        lemma_fires(l, l1, None);
        lemma_fires_new_view(l1, me, (view + 1) as u64);
        reveal(fires);
    }
}

/// A message makes a replica send no message at all: it answers through the
/// rules. It may ask for the validation of a proposed block, but not twice.
pub proof fn law_message_sends_once(
    l: Local,
    me: Me,
    live: Map<u32, u64>,
    msg: Msg,
    keys: Map<u32, [u8; 32]>,
)
    requires
        sound(l.rs),
        once(l),
    ensures
        once(message_step(l, me, live, msg, keys).0),
        forall|i: int|
            l.out.len() <= i < message_step(l, me, live, msg, keys).0.out.len() ==> is_local(
                #[trigger] message_step(l, me, live, msg, keys).0.out[i],
            ),
{
    reveal(fires);
    lemma_message_is_local(l, me, live, msg, keys);
    if let Msg::Proposal { view, node, justify, sender } = msg {
        let ok = justify is Some && certified(justify->0, l.rs.quorum, keys);
        lemma_fires_proposal(l, me, live, view, node, justify, sender, ok);
    } else {
        lemma_message(l, me, live, msg, keys);
        lemma_fires(l, message_step(l, me, live, msg, keys).0, None);
    }
}

/// Whether an effect concerns the replica's own machine only: the log, and
/// validation.
pub open spec fn is_local(e: Effect) -> bool {
    e is Log || e is Warn || e is Validate
}

#[verifier::rlimit(40)]
proof fn lemma_fires_proposal(
    l: Local,
    me: Me,
    live: Map<u32, u64>,
    view: u64,
    node: Node,
    justify: Option<Cert>,
    sender: u32,
    qc_ok: bool,
)
    ensures
        fires(
            l,
            proposal_step(
                l,
                me,
                live,
                view,
                node,
                justify,
                sender,
                qc_ok,
                hash_of(node),
            ).0,
        ),
{
    let h = hash_of(node);
    let after = proposal_step(l, me, live, view, node, justify, sender, qc_ok, h).0;
    let l1 = keep_proposal(l, view, node, justify, sender, h);
    lemma_proposal(l, me, live, view, node, justify, sender, qc_ok);
    if sender == l.rs.leader(view) && (justify is Some ==> qc_ok) && node.parent == cert_node(
        justify,
    ) {
        lemma_keep_proposal(l, view, node, justify, sender);
        lemma_fires(l, l1, None);
        lemma_fires_kick(l1, me, live, h);
        lemma_fires_composes(l, l1, after);
    } else {
        lemma_fires(l, after, None);
    }
}

/// The outcome of a validation sends nothing.
pub proof fn law_outcome_sends_once(l: Local, o: Outcome)
    requires
        sound(l.rs),
        once(l),
    ensures
        once(l.with(outcome_step(l.rs, o))),
{
    let b = l.with(outcome_step(l.rs, o));
    law_outcome_keeps_sound(l.rs, o);
    assert(good(l.rs, b.rs)) by {
        reveal(good);
    }
    lemma_fires(l, b, None);
    reveal(fires);
}

#[verifier::rlimit(40)]
proof fn lemma_message_is_local(
    l: Local,
    me: Me,
    live: Map<u32, u64>,
    msg: Msg,
    keys: Map<u32, [u8; 32]>,
)
    ensures
        forall|i: int|
            l.out.len() <= i < message_step(l, me, live, msg, keys).0.out.len() ==> is_local(
                #[trigger] message_step(l, me, live, msg, keys).0.out[i],
            ),
        !(msg is Proposal) ==> appends(l, message_step(l, me, live, msg, keys).0, None),
{
}

// ---- Votes ----

/// A replica votes PREPARE only for the proposed node, only if its block was
/// found valid, and only if the node is safe: it extends the locked node, or
/// its highQC is newer than the lock.
#[verifier::rlimit(40)]
pub proof fn law_prepare_votes_are_safe(l: Local, me: Me)
    ensures
        ({
            let v = l.rs.view;
            let h = proposed_hash(l.rs);
            let after = pass_prepare(l, me);
            let sent = exists|i: int|
                l.out.len() <= i < after.out.len() && slot_of(#[trigger] after.out[i]) is Some;
            let counted = after.rs.round(v).prepare_votes != l.rs.round(v).prepare_votes;
            sent || counted ==> {
                &&& l.rs.round(v).proposal matches Some(p) && safe(
                    h,
                    p.0,
                    p.1,
                    l.rs.locked_qc,
                    l.rs.tree,
                )
                &&& l.rs.validation_result.contains_key(h) && l.rs.validation_result[h]
                &&& after.rs.round(v).voted_prepare
            }
        }),
{
}

/// A replica that votes COMMIT locks the certificate that it votes on, and one
/// that votes PRE-COMMIT takes it as its prepareQC.
pub proof fn law_votes_lock(l: Local, me: Me, phase: MsgType)
    requires
        phase == MsgType::PreCommit || phase == MsgType::Commit,
        !voted(l.rs.round(l.rs.view), phase),
        voted(pass_vote(l, me, phase).rs.round(l.rs.view), phase),
    ensures
        staged(l.rs, phase).contains_key(l.rs.view),
        phase == MsgType::PreCommit ==> pass_vote(l, me, phase).rs.prepare_qc == Some(
            staged(l.rs, phase)[l.rs.view],
        ),
        phase == MsgType::Commit ==> pass_vote(l, me, phase).rs.locked_qc == Some(
            staged(l.rs, phase)[l.rs.view],
        ),
{
}

/// The rules of PREPARE, PRE-COMMIT and COMMIT are idempotent: tried again at
/// once, they change nothing.
#[verifier::rlimit(40)]
pub proof fn law_voting_rules_idempotent(l: Local, me: Me, phase: MsgType)
    requires
        phase == MsgType::PreCommit || phase == MsgType::Commit,
    ensures
        pass_prepare(pass_prepare(l, me), me) == pass_prepare(l, me),
        pass_vote(pass_vote(l, me, phase), me, phase) == pass_vote(l, me, phase),
{
    let a = pass_prepare(l, me);
    assert(a.rs.round(a.rs.view).proposal == l.rs.round(l.rs.view).proposal);
    let b = pass_vote(l, me, phase);
    let v = l.rs.view;
    assert(b.touched(v).rs.view_data =~= b.rs.view_data);
    assert(pass_vote(b, me, phase) =~= b);
}

/// The leader's rules of PRE-COMMIT, COMMIT and DECIDE are idempotent: tried
/// again at once, they change nothing.
#[verifier::rlimit(40)]
pub proof fn law_leading_rules_idempotent(l: Local, me: Me, phase: MsgType, q: Option<Cert>)
    requires
        is_qc_phase(phase),
    ensures
        ({
            let after = leader_phase_step(l, me, phase, q);
            leader_phase_step(after, me, phase, q) == after
        }),
{
    let v = l.rs.view;
    let a = leader_phase_step(l, me, phase, q);
    assert(l.rs.leader(v) == me.id ==> a.touched(v).rs.view_data =~= a.rs.view_data);
    assert(leader_phase_step(a, me, phase, q) =~= a);
}

/// A leader that has proposed in a view does not propose in it again, whatever
/// NEW-VIEW messages reach it.
pub proof fn law_proposes_once(s: Sys, me: Me, c1: Choices, c2: Choices)
    requires
        s.local.rs.round(s.local.rs.view).broadcast_proposal,
    ensures
        pass_propose(s, me, c1).0.out == s.local.out,
        pass_propose(s, me, c1) == pass_propose(s, me, c2),
{
}

/// A timer of a view that has been left, or that has been decided, changes
/// nothing.
pub proof fn law_stale_timers_are_ignored(l: Local, me: Me, view: u64)
    requires
        view != l.rs.view || l.rs.round(view).seen_decide_qc,
    ensures
        timer_step(l, me, view) == l,
{
}

} // verus!
