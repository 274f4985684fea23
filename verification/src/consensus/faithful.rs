//! Re-execution and verification are faithful.
//!
//! Re-execution: the live state of a replica that re-executes
//! blocks is the ledger that the committed blocks lead to, applied one after
//! the other.
//!
//! All blocks at one height are the same block of the workload, so the ledger
//! after each height does not depend on which node was committed there. What
//! it takes is that a block is validated on the state after its parent, and
//! that nodes are executed in order.
//!
//! Verification: the state root of a replica that verifies proofs is the one
//! that the proof of the last executed block ends with, and where the proofs
//! of the workload chain, execution never finds a break.
//!
//! The heights that a leader proposes are taken as they are. The laws on
//! re-execution are about trees in which they are in order: children of genesis have height 0,
//! and every other node is one higher than its parent.

use crate::action::{Effect, Fault};
use crate::consensus::execute::{law_execution_keeps_protocol, lemma_chain_known};
use crate::consensus::laws::{kept, lemma_signed_height};
use crate::consensus::model::{
    advance, apply_chain, chain_of, execute_node, execute_step, execute_steps, kick_step, kick_steps,
    message_step, ordered, outcome_step, pass_commit, pass_decide, pass_pre_commit,
    pass_prepare, pass_propose, pass_vote, replica_decide_step, timer_step, Choices, Local, Me, Sys,
};
use crate::ledger::{apply_txs, Tx};
use crate::messages::{Msg, MsgType};
use crate::state::{fresh_replica, Replica};
use crate::validator::{Mode, Outcome};
use vstd::prelude::*;

verus! {

/// The ledger after the first `count` blocks, where `txs` gives the
/// transactions of the block at each height.
pub open spec fn ledger_after_blocks(
    init: Map<u32, u64>,
    txs: spec_fn(nat) -> Seq<Tx>,
    count: nat,
) -> Map<u32, u64>
    decreases count,
{
    if count == 0 {
        init
    } else {
        apply_txs(ledger_after_blocks(init, txs, (count - 1) as nat), txs((count - 1) as nat))
    }
}

/// Whether the live state is the ledger after the executed blocks, and every
/// valid node above them is kept with the ledger after its height.
pub open spec fn faithful(
    rs: Replica,
    live: Map<u32, u64>,
    init: Map<u32, u64>,
    txs: spec_fn(nat) -> Seq<Tx>,
) -> bool {
    let last = rs.last_executed_height;
    &&& last >= -1
    &&& live == ledger_after_blocks(init, txs, (last + 1) as nat)
    &&& forall|h: [u8; 32]| #[trigger]
        rs.post_state_by_node.contains_key(h) ==> {
            &&& rs.tree.contains_key(h)
            &&& rs.tree[h].height > last ==> rs.post_state_by_node[h] == ledger_after_blocks(
                init,
                txs,
                (rs.tree[h].height + 1) as nat,
            )
        }
    &&& forall|h: [u8; 32]| #[trigger]
        rs.validation_result.contains_key(h) && rs.validation_result[h] ==> {
            &&& rs.tree.contains_key(h)
            &&& rs.tree[h].height > last ==> rs.post_state_by_node.contains_key(h)
        }
}

/// A replica starts faithful.
pub proof fn law_new_replica_is_faithful(
    n: u32,
    ms: u64,
    init: Map<u32, u64>,
    txs: spec_fn(nat) -> Seq<Tx>,
)
    requires
        n >= 1,
    ensures
        faithful(fresh_replica(n, ms), init, init, txs),
{
}

/// Blocks are re-executed on the state after their parent: where a node is
/// submitted to be re-executed, the state that goes with it is the ledger after
/// all the blocks below it.
pub proof fn law_validates_on_parent_state(
    l: Local,
    me: Me,
    live: Map<u32, u64>,
    h: [u8; 32],
    init: Map<u32, u64>,
    txs: spec_fn(nat) -> Seq<Tx>,
)
    requires
        me.mode == Mode::Reexecute,
        faithful(l.rs, live, init, txs),
        ordered(l.rs.tree),
    ensures
        forall|i: int|
            l.out.len() <= i < kick_step(l, me, live, h).0.out.len() ==> (#[trigger] kick_step(
                l,
                me,
                live,
                h,
            ).0.out[i] matches Effect::Validate { req, input } ==> input == ledger_after_blocks(
                init,
                txs,
                req.height as nat,
            )),
{
    if l.rs.tree.contains_key(h) {
        let node = l.rs.tree[h];
        if l.rs.tree.contains_key(node.parent) {
            assert(l.rs.tree[node.parent].height <= i64::MAX);
        }
    }
}

/// What a validation of the right block on the right state gives keeps a
/// replica faithful.
pub proof fn law_outcome_keeps_faithful(
    rs: Replica,
    o: Outcome,
    live: Map<u32, u64>,
    init: Map<u32, u64>,
    txs: spec_fn(nat) -> Seq<Tx>,
)
    requires
        faithful(rs, live, init, txs),
        rs.tree.contains_key(o.node_hash),
        o.valid ==> o.post_state is Some,
        o.post_state is Some && rs.tree[o.node_hash].height > rs.last_executed_height
            ==> o.post_state == Some(
            apply_txs(
                ledger_after_blocks(init, txs, rs.tree[o.node_hash].height as nat),
                txs(rs.tree[o.node_hash].height as nat),
            ),
        ),
    ensures
        faithful(outcome_step(rs, o), live, init, txs),
{
}

proof fn lemma_execute_node(
    s: Sys,
    h: [u8; 32],
    init: Map<u32, u64>,
    txs: spec_fn(nat) -> Seq<Tx>,
)
    requires
        faithful(s.local.rs, s.live, init, txs),
        ordered(s.local.rs.tree),
        s.local.rs.tree.contains_key(h),
        s.local.rs.validation_result.contains_key(h) && s.local.rs.validation_result[h],
        s.local.rs.tree[h].height == s.local.rs.last_executed_height + 1,
        execute_node(s, h).1 is None,
    ensures
        faithful(execute_node(s, h).0.local.rs, execute_node(s, h).0.live, init, txs),
{
    assert(s.local.rs.post_state_by_node.contains_key(h));
}

proof fn lemma_apply_chain(
    s: Sys,
    me: Me,
    chain: Seq<[u8; 32]>,
    init: Map<u32, u64>,
    txs: spec_fn(nat) -> Seq<Tx>,
)
    requires
        faithful(s.local.rs, s.live, init, txs),
        ordered(s.local.rs.tree),
        forall|i: int|
            0 <= i < chain.len() ==> s.local.rs.tree.contains_key(#[trigger] chain[i]),
        apply_chain(s, me, chain).1 is None,
    ensures
        faithful(
            apply_chain(s, me, chain).0.local.rs,
            apply_chain(s, me, chain).0.live,
            init,
            txs,
        ),
    decreases chain.len(),
{
    let rs = s.local.rs;
    if chain.len() > 0 {
        let h = chain[0];
        assert(rs.tree.contains_key(h));
        if (rs.tree[h].height as i64) as int == rs.last_executed_height + 1
            && rs.validation_result.contains_key(h) && rs.validation_result[h] {
            lemma_execute_node(s, h, init, txs);
            let s1 = execute_node(s, h).0;
            assert forall|i: int| 0 <= i < chain.skip(1).len() implies s1.local.rs.tree.contains_key(
                #[trigger] chain.skip(1)[i],
            ) by {
                assert(chain.skip(1)[i] == chain[i + 1]);
            }
            lemma_apply_chain(s1, me, chain.skip(1), init, txs);
        }
    }
}

/// Executing what a decision commits keeps a replica faithful.
pub proof fn law_execution_is_faithful(
    s: Sys,
    me: Me,
    decided: [u8; 32],
    init: Map<u32, u64>,
    txs: spec_fn(nat) -> Seq<Tx>,
)
    requires
        faithful(s.local.rs, s.live, init, txs),
        ordered(s.local.rs.tree),
        execute_step(s, me, decided).1 is None,
    ensures
        faithful(
            execute_step(s, me, decided).0.local.rs,
            execute_step(s, me, decided).0.live,
            init,
            txs,
        ),
{
    let rs = s.local.rs;
    lemma_chain_known(rs, decided);
    lemma_apply_chain(s, me, chain_of(rs, decided), init, txs);
}

proof fn lemma_execute_steps(
    s: Sys,
    me: Me,
    order: Seq<[u8; 32]>,
    init: Map<u32, u64>,
    txs: spec_fn(nat) -> Seq<Tx>,
)
    requires
        faithful(s.local.rs, s.live, init, txs),
        ordered(s.local.rs.tree),
        execute_steps(s, me, order).1 is None,
    ensures
        faithful(
            execute_steps(s, me, order).0.local.rs,
            execute_steps(s, me, order).0.live,
            init,
            txs,
        ),
        execute_steps(s, me, order).0.local.rs.tree == s.local.rs.tree,
    decreases order.len(),
{
    if order.len() > 0 {
        law_execution_is_faithful(s, me, order[0], init, txs);
        law_execution_keeps_protocol(s, me, order[0]);
        lemma_execute_steps(execute_step(s, me, order[0]).0, me, order.skip(1), init, txs);
    }
}

/// Whether `b` has the ledger of `a`: it has executed the same, keeps the same
/// states and verdicts, and has lost no node.
spec fn same_ledger(a: Replica, b: Replica) -> bool {
    &&& b.last_executed_height == a.last_executed_height
    &&& b.post_state_by_node == a.post_state_by_node
    &&& b.validation_result == a.validation_result
    &&& kept(a.tree, b.tree)
}

proof fn lemma_same_ledger(
    a: Replica,
    b: Replica,
    live: Map<u32, u64>,
    init: Map<u32, u64>,
    txs: spec_fn(nat) -> Seq<Tx>,
)
    requires
        same_ledger(a, b),
        faithful(a, live, init, txs),
    ensures
        faithful(b, live, init, txs),
{
}

proof fn lemma_kicks_quiet(l: Local, me: Me, live: Map<u32, u64>, order: Seq<[u8; 32]>)
    ensures
        same_ledger(l.rs, kick_steps(l, me, live, order).0.rs),
    decreases order.len(),
{
    if order.len() > 0 && l.rs.pending_validation is None {
        lemma_kicks_quiet(kick_step(l, me, live, order[0]).0, me, live, order.skip(1));
    }
}

/// The rules between proposing and deciding leave the ledger alone.
#[verifier::rlimit(40)]
proof fn lemma_phases_quiet(l: Local, me: Me, c: Choices)
    ensures
        same_ledger(l.rs, pass_decide(l, me, c).rs),
        pass_decide(l, me, c).rs.tree == l.rs.tree,
{
    let l2 = pass_prepare(l, me);
    let l3 = pass_pre_commit(l, me, c);
    let l4 = pass_vote(l3, me, MsgType::PreCommit);
    let l5 = pass_commit(l, me, c);
    let l6 = pass_vote(l5, me, MsgType::Commit);
    assert(same_ledger(l.rs, l2.rs) && l2.rs.tree == l.rs.tree);
    assert(same_ledger(l2.rs, l3.rs) && l3.rs.tree == l.rs.tree);
    assert(same_ledger(l3.rs, l4.rs) && l4.rs.tree == l.rs.tree);
    assert(same_ledger(l4.rs, l5.rs) && l5.rs.tree == l.rs.tree);
    assert(same_ledger(l5.rs, l6.rs) && l6.rs.tree == l.rs.tree);
}

/// A pass over the rules keeps a replica faithful, as long as the heights of
/// the tree are in order and no known node is replaced by another of the same
/// hash.
#[verifier::rlimit(40)]
pub proof fn law_rules_keep_faithful(
    s: Sys,
    me: Me,
    c: Choices,
    init: Map<u32, u64>,
    txs: spec_fn(nat) -> Seq<Tx>,
)
    requires
        faithful(s.local.rs, s.live, init, txs),
        advance(s, me, c).1 is None,
        ordered(pass_propose(s, me, c).0.rs.tree),
        kept(s.local.rs.tree, pass_propose(s, me, c).0.rs.tree),
    ensures
        faithful(advance(s, me, c).0.local.rs, advance(s, me, c).0.live, init, txs),
        advance(s, me, c).0.local.rs.tree == pass_propose(s, me, c).0.rs.tree,
{
    let l1 = pass_propose(s, me, c).0;
    assert(same_ledger(s.local.rs, l1.rs));
    lemma_same_ledger(s.local.rs, l1.rs, s.live, init, txs);
    let l7 = pass_decide(l1, me, c);
    lemma_phases_quiet(l1, me, c);
    lemma_same_ledger(l1.rs, l7.rs, s.live, init, txs);
    let s1 = Sys { local: l7, ..s };
    let s2 = replica_decide_step(s1, me).0;
    lemma_decide(s1, me, init, txs);
    lemma_execute_steps(s2, me, c.decided, init, txs);
    let s3 = execute_steps(s2, me, c.decided).0;
    lemma_kicks_quiet(s3.local, me, s3.live, c.nodes);
    let l4 = kick_steps(s3.local, me, s3.live, c.nodes).0;
    lemma_same_ledger(s3.local.rs, l4.rs, s3.live, init, txs);
    lemma_kicks_tree(s3.local, me, s3.live, c.nodes);
}

proof fn lemma_kicks_tree(l: Local, me: Me, live: Map<u32, u64>, order: Seq<[u8; 32]>)
    ensures
        kick_steps(l, me, live, order).0.rs.tree == l.rs.tree,
    decreases order.len(),
{
    if order.len() > 0 && l.rs.pending_validation is None {
        lemma_kicks_tree(kick_step(l, me, live, order[0]).0, me, live, order.skip(1));
    }
}

#[verifier::rlimit(40)]
proof fn lemma_decide(s: Sys, me: Me, init: Map<u32, u64>, txs: spec_fn(nat) -> Seq<Tx>)
    requires
        faithful(s.local.rs, s.live, init, txs),
        ordered(s.local.rs.tree),
        replica_decide_step(s, me).1 is None,
    ensures
        faithful(
            replica_decide_step(s, me).0.local.rs,
            replica_decide_step(s, me).0.live,
            init,
            txs,
        ),
        replica_decide_step(s, me).0.local.rs.tree == s.local.rs.tree,
{
    let l = s.local;
    let v = l.rs.view;
    let l1 = l.touched(v);
    lemma_same_ledger(l.rs, l1.rs, s.live, init, txs);
    if l.rs.round(v).seen_decide_qc && l.rs.staged_decide_qc.contains_key(v) {
        let q = l.rs.staged_decide_qc[v];
        let l2 = l1.with(
            Replica { decided_nodes: l1.rs.decided_nodes.insert(q.node_hash, q), ..l1.rs },
        );
        lemma_same_ledger(l.rs, l2.rs, s.live, init, txs);
        let s2 = Sys { local: l2, ..s };
        law_execution_is_faithful(s2, me, q.node_hash, init, txs);
        law_execution_keeps_protocol(s2, me, q.node_hash);
        let s3 = execute_step(s2, me, q.node_hash).0;
        let b = replica_decide_step(s, me).0;
        lemma_same_ledger(s3.local.rs, b.local.rs, s3.live, init, txs);
    }
}

/// A message keeps a replica faithful, as long as it brings no other node of
/// the hash of a known one.
#[verifier::rlimit(40)]
pub proof fn law_message_keeps_faithful(
    l: Local,
    me: Me,
    live: Map<u32, u64>,
    msg: Msg,
    keys: Map<u32, [u8; 32]>,
    init: Map<u32, u64>,
    txs: spec_fn(nat) -> Seq<Tx>,
)
    requires
        faithful(l.rs, live, init, txs),
        kept(l.rs.tree, message_step(l, me, live, msg, keys).0.rs.tree),
    ensures
        faithful(message_step(l, me, live, msg, keys).0.rs, live, init, txs),
{
    lemma_same_ledger(l.rs, message_step(l, me, live, msg, keys).0.rs, live, init, txs);
}

/// A timer keeps a replica faithful.
pub proof fn law_timer_keeps_faithful(
    l: Local,
    me: Me,
    view: u64,
    live: Map<u32, u64>,
    init: Map<u32, u64>,
    txs: spec_fn(nat) -> Seq<Tx>,
)
    requires
        faithful(l.rs, live, init, txs),
    ensures
        faithful(timer_step(l, me, view).rs, live, init, txs),
{
    lemma_same_ledger(l.rs, timer_step(l, me, view).rs, live, init, txs);
}

// ---- Verification ----

/// Whether the state root is the one after the executed blocks, and every
/// valid node is kept with the roots before and after its height, where
/// `roots` gives the root before each height.
pub open spec fn proven(rs: Replica, root: [u8; 32], roots: spec_fn(nat) -> [u8; 32]) -> bool {
    let last = rs.last_executed_height;
    &&& last >= -1
    &&& last >= 0 ==> root == roots((last + 1) as nat)
    &&& forall|h: [u8; 32]| #[trigger]
        rs.validation_result.contains_key(h) && rs.validation_result[h] ==> {
            &&& rs.tree.contains_key(h)
            &&& rs.pre_root_by_node.contains_key(h)
            &&& rs.pre_root_by_node[h] == roots(rs.tree[h].height as nat)
            &&& rs.tree[h].height > last ==> rs.post_root_by_node.contains_key(h)
                && rs.post_root_by_node[h] == roots((rs.tree[h].height + 1) as nat)
        }
}

/// Whether a fault is a proof that does not chain.
pub open spec fn breaks_chain(fault: Option<Fault>) -> bool {
    fault matches Some(f) && f is ChainBreak
}

/// A replica starts proven.
pub proof fn law_new_replica_is_proven(
    n: u32,
    ms: u64,
    root: [u8; 32],
    roots: spec_fn(nat) -> [u8; 32],
)
    requires
        n >= 1,
    ensures
        proven(fresh_replica(n, ms), root, roots),
{
}

/// What the proof of the right block gives keeps a replica proven.
pub proof fn law_outcome_keeps_proven(
    rs: Replica,
    o: Outcome,
    root: [u8; 32],
    roots: spec_fn(nat) -> [u8; 32],
)
    requires
        proven(rs, root, roots),
        o.valid ==> {
            &&& rs.tree.contains_key(o.node_hash)
            &&& o.pre_root == Some(roots(rs.tree[o.node_hash].height as nat))
            &&& o.post_root == Some(roots((rs.tree[o.node_hash].height + 1) as nat))
        },
    ensures
        proven(outcome_step(rs, o), root, roots),
{
}

proof fn lemma_proven_chain(
    s: Sys,
    me: Me,
    chain: Seq<[u8; 32]>,
    roots: spec_fn(nat) -> [u8; 32],
)
    requires
        proven(s.local.rs, s.root, roots),
    ensures
        !breaks_chain(apply_chain(s, me, chain).1),
        proven(apply_chain(s, me, chain).0.local.rs, apply_chain(s, me, chain).0.root, roots),
    decreases chain.len(),
{
    let rs = s.local.rs;
    if chain.len() > 0 {
        let h = chain[0];
        if (rs.tree[h].height as i64) as int == rs.last_executed_height + 1
            && rs.validation_result.contains_key(h) && rs.validation_result[h] {
            lemma_signed_height(rs.tree[h].height);
            let (s1, fault) = execute_node(s, h);
            assert(fault is None);
            assert(proven(s1.local.rs, s1.root, roots));
            lemma_proven_chain(s1, me, chain.skip(1), roots);
        }
    }
}

/// Executing what a decision commits keeps a replica proven, and finds no
/// break in the chain of proofs.
pub proof fn law_proofs_never_break(
    s: Sys,
    me: Me,
    decided: [u8; 32],
    roots: spec_fn(nat) -> [u8; 32],
)
    requires
        proven(s.local.rs, s.root, roots),
    ensures
        !breaks_chain(execute_step(s, me, decided).1),
        proven(
            execute_step(s, me, decided).0.local.rs,
            execute_step(s, me, decided).0.root,
            roots,
        ),
{
    lemma_proven_chain(s, me, chain_of(s.local.rs, decided), roots);
}

proof fn lemma_proven_steps(
    s: Sys,
    me: Me,
    order: Seq<[u8; 32]>,
    roots: spec_fn(nat) -> [u8; 32],
)
    requires
        proven(s.local.rs, s.root, roots),
    ensures
        !breaks_chain(execute_steps(s, me, order).1),
        proven(
            execute_steps(s, me, order).0.local.rs,
            execute_steps(s, me, order).0.root,
            roots,
        ),
    decreases order.len(),
{
    if order.len() > 0 {
        law_proofs_never_break(s, me, order[0], roots);
        lemma_proven_steps(execute_step(s, me, order[0]).0, me, order.skip(1), roots);
    }
}

/// Whether `b` has the proofs of `a`: it has executed the same, keeps the same
/// roots and verdicts, and has lost no node.
spec fn same_proofs(a: Replica, b: Replica) -> bool {
    &&& b.last_executed_height == a.last_executed_height
    &&& b.pre_root_by_node == a.pre_root_by_node
    &&& b.post_root_by_node == a.post_root_by_node
    &&& b.validation_result == a.validation_result
    &&& kept(a.tree, b.tree)
}

proof fn lemma_same_proofs(
    a: Replica,
    b: Replica,
    root: [u8; 32],
    roots: spec_fn(nat) -> [u8; 32],
)
    requires
        same_proofs(a, b),
        proven(a, root, roots),
    ensures
        proven(b, root, roots),
{
}

proof fn lemma_kicks_keep_proofs(
    l: Local,
    me: Me,
    live: Map<u32, u64>,
    order: Seq<[u8; 32]>,
)
    ensures
        same_proofs(l.rs, kick_steps(l, me, live, order).0.rs),
        !breaks_chain(kick_steps(l, me, live, order).1),
    decreases order.len(),
{
    if order.len() > 0 && l.rs.pending_validation is None {
        lemma_kicks_keep_proofs(
            kick_step(l, me, live, order[0]).0,
            me,
            live,
            order.skip(1),
        );
    }
}

#[verifier::rlimit(40)]
proof fn lemma_phases_keep_proofs(l: Local, me: Me, c: Choices)
    ensures
        same_proofs(l.rs, pass_decide(l, me, c).rs),
{
    let l2 = pass_prepare(l, me);
    let l3 = pass_pre_commit(l, me, c);
    let l4 = pass_vote(l3, me, MsgType::PreCommit);
    let l5 = pass_commit(l, me, c);
    let l6 = pass_vote(l5, me, MsgType::Commit);
    assert(same_proofs(l.rs, l2.rs));
    assert(same_proofs(l2.rs, l3.rs));
    assert(same_proofs(l3.rs, l4.rs));
    assert(same_proofs(l4.rs, l5.rs));
    assert(same_proofs(l5.rs, l6.rs));
}

#[verifier::rlimit(40)]
proof fn lemma_decide_proven(s: Sys, me: Me, roots: spec_fn(nat) -> [u8; 32])
    requires
        proven(s.local.rs, s.root, roots),
    ensures
        !breaks_chain(replica_decide_step(s, me).1),
        proven(replica_decide_step(s, me).0.local.rs, replica_decide_step(s, me).0.root, roots),
{
    let l = s.local;
    let v = l.rs.view;
    let l1 = l.touched(v);
    lemma_same_proofs(l.rs, l1.rs, s.root, roots);
    if l.rs.round(v).seen_decide_qc && l.rs.staged_decide_qc.contains_key(v) {
        let q = l.rs.staged_decide_qc[v];
        let l2 = l1.with(
            Replica { decided_nodes: l1.rs.decided_nodes.insert(q.node_hash, q), ..l1.rs },
        );
        lemma_same_proofs(l.rs, l2.rs, s.root, roots);
        let s2 = Sys { local: l2, ..s };
        law_proofs_never_break(s2, me, q.node_hash, roots);
        let (s3, fault) = execute_step(s2, me, q.node_hash);
        if fault is None {
            let b = replica_decide_step(s, me).0;
            lemma_same_proofs(s3.local.rs, b.local.rs, s3.root, roots);
        }
    }
}

/// A pass over the rules keeps a replica proven, and finds no break in the
/// chain of proofs, as long as no known node is replaced by another of the same
/// hash.
#[verifier::rlimit(40)]
pub proof fn law_rules_keep_proven(s: Sys, me: Me, c: Choices, roots: spec_fn(nat) -> [u8; 32])
    requires
        proven(s.local.rs, s.root, roots),
        kept(s.local.rs.tree, pass_propose(s, me, c).0.rs.tree),
    ensures
        !breaks_chain(advance(s, me, c).1),
        proven(advance(s, me, c).0.local.rs, advance(s, me, c).0.root, roots),
{
    let (l1, fault1) = pass_propose(s, me, c);
    assert(same_proofs(s.local.rs, l1.rs));
    lemma_same_proofs(s.local.rs, l1.rs, s.root, roots);
    if fault1 is None {
        let l7 = pass_decide(l1, me, c);
        lemma_phases_keep_proofs(l1, me, c);
        lemma_same_proofs(l1.rs, l7.rs, s.root, roots);
        let s1 = Sys { local: l7, ..s };
        lemma_decide_proven(s1, me, roots);
        let (s2, fault2) = replica_decide_step(s1, me);
        if fault2 is None {
            lemma_proven_steps(s2, me, c.decided, roots);
            let (s3, fault3) = execute_steps(s2, me, c.decided);
            if fault3 is None {
                lemma_kicks_keep_proofs(s3.local, me, s3.live, c.nodes);
                let l8 = kick_steps(s3.local, me, s3.live, c.nodes).0;
                lemma_same_proofs(s3.local.rs, l8.rs, s3.root, roots);
            }
        }
    }
}

/// A message keeps a replica proven, as long as it brings no other node of the
/// hash of a known one.
#[verifier::rlimit(40)]
pub proof fn law_message_keeps_proven(
    l: Local,
    me: Me,
    live: Map<u32, u64>,
    msg: Msg,
    keys: Map<u32, [u8; 32]>,
    root: [u8; 32],
    roots: spec_fn(nat) -> [u8; 32],
)
    requires
        proven(l.rs, root, roots),
        kept(l.rs.tree, message_step(l, me, live, msg, keys).0.rs.tree),
    ensures
        proven(message_step(l, me, live, msg, keys).0.rs, root, roots),
{
    lemma_same_proofs(l.rs, message_step(l, me, live, msg, keys).0.rs, root, roots);
}

/// A timer keeps a replica proven.
pub proof fn law_timer_keeps_proven(
    l: Local,
    me: Me,
    view: u64,
    root: [u8; 32],
    roots: spec_fn(nat) -> [u8; 32],
)
    requires
        proven(l.rs, root, roots),
    ensures
        proven(timer_step(l, me, view).rs, root, roots),
{
    lemma_same_proofs(l.rs, timer_step(l, me, view).rs, root, roots);
}

} // verus!
