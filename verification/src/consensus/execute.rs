//! Applying committed nodes to the ledger, and submitting blocks to
//! validation.
//!
//! A decision on a node commits the node and every ancestor that has not been
//! executed. [`try_execute_chain`] walks that path and applies it in order,
//! as far as the nodes have been validated.
//!
//! [`maybe_kick_validation`] is the only place where a block is submitted to
//! validation. It leaves out what has been validated or is being validated.

use crate::action::{act, Action, Event, Fault, Warning};
use crate::consensus::model::{
    apply_chain, chain_of, enumerates, execute_node, execute_step, execute_steps, kick_step,
    kick_steps, ordered, outcome_step, request_for, rises, unexecuted, validation_input, Local, Me,
    Sys,
};
use crate::consensus::laws::lemma_signed_height;
use crate::consensus::{fault_of, local, system, Wiring};
use crate::digest::same;
use crate::ledger::State;
use crate::messages::{genesis, genesis_hash, Node};
use crate::state::{ancestor, lemma_ancestor_adds, reaches, states_view, Replica, ReplicaState};
use crate::validator::{Mode, Outcome, ValidateRequest};
use vstd::prelude::*;

verus! {

/// The state that goes with the block of `node` to validation, where the block
/// can be submitted.
fn input_state(rs: &ReplicaState, mode: Mode, node: &Node, live_state: &State) -> (r: Option<
    State,
>)
    ensures
        match r {
            Some(s) => validation_input(rs@, mode, *node, live_state@) == Some(s@),
            None => validation_input(rs@, mode, *node, live_state@) is None,
        },
{
    if same(&node.parent, &genesis_hash()) {
        if rs.last_executed_height >= 0 {
            return None;
        }
        return Some(live_state.clone());
    }
    match rs.tree.get(&node.parent) {
        Some(parent_node) => {
            let parent_height = parent_node.height as i64;
            if parent_height < rs.last_executed_height {
                match mode {
                    Mode::Reexecute => None,
                    Mode::Verify => Some(live_state.clone()),
                }
            } else if parent_height == rs.last_executed_height {
                Some(live_state.clone())
            } else {
                match rs.post_state_by_node.get(&node.parent) {
                    Some(ps) => Some(ps.clone()),
                    None => None,
                }
            }
        },
        None => None,
    }
}

/// Submits the block of the node `leaf_hash` to validation, unless it has
/// been validated or is being validated.
///
/// Re-execution chains: a block has to be validated on the state after its
/// parent. The submission waits until the parent has been executed last, so
/// that the live state is the state after it, or validated, so that the state
/// after it is at hand. A node whose parent lies below the last executed height
/// is not re-executed: the state after its parent is gone. Its proof can still
/// be verified, as that needs no state.
#[verifier::rlimit(40)]
pub fn maybe_kick_validation(
    rs: &mut ReplicaState,
    w: &Wiring<'_>,
    leaf_hash: [u8; 32],
    live_state: &State,
    out: &mut Vec<Action>,
) -> (r: Result<(), Fault>)
    ensures
        (local(*final(rs), final(out)@), fault_of(r)) == kick_step(
            local(*old(rs), old(out)@),
            w@,
            live_state@,
            leaf_hash,
        ),
{
    if rs.validation_result.contains_key(&leaf_hash) || rs.in_flight.contains_key(&leaf_hash) {
        return Ok(());
    }
    let node: Node = match rs.tree.get(&leaf_hash) {
        Some(n) => *n,
        None => return Ok(()),
    };
    let block = match w.workload.block(node.height) {
        Some(b) => b,
        None => return Err(Fault::NoBlock { height: node.height }),
    };
    if !same(&block.cmd, &node.cmd) {
        act(out, Action::Warn { warning: Warning::CmdMismatch { height: node.height } });
        return Ok(());
    }
    let input = match input_state(rs, w.mode, &node, live_state) {
        Some(s) => s,
        None => return Ok(()),
    };
    rs.pending_validation = Some(leaf_hash);
    rs.in_flight.insert(leaf_hash, ());
    let req = ValidateRequest {
        node_hash: leaf_hash,
        height: node.height,
        cmd: block.cmd,
        txs_path: block.txs_path.clone(),
        proof_path: block.proof_path.clone(),
        txs_total: block.meta.txs_total,
    };
    assert(req@ == request_for(leaf_hash, node, block@));
    act(out, Action::Validate { req, input });
    act(
        out,
        Action::Log { view: rs.view, event: Event::ValidateStart { height: node.height } },
    );
    Ok(())
}

/// Tries to submit every known node to validation, while none is being
/// validated.
pub fn try_kick_pending_validations(
    rs: &mut ReplicaState,
    w: &Wiring<'_>,
    live_state: &State,
    out: &mut Vec<Action>,
) -> (r: Result<(), Fault>)
    ensures
        exists|order: Seq<[u8; 32]>|
            enumerates(order, old(rs)@.tree) && (
            local(*final(rs), final(out)@),
            fault_of(r),
        ) == #[trigger] kick_steps(
            local(*old(rs), old(out)@),
            w@,
            live_state@,
            order,
        ),
{
    let leaves = rs.tree.keys();
    kick_in_order(rs, w, live_state, leaves.as_slice(), out)
}

/// Tries to submit the nodes `leaves` to validation, in that order, while
/// none is being validated.
pub fn kick_in_order(
    rs: &mut ReplicaState,
    w: &Wiring<'_>,
    live_state: &State,
    leaves: &[[u8; 32]],
    out: &mut Vec<Action>,
) -> (r: Result<(), Fault>)
    ensures
        (local(*final(rs), final(out)@), fault_of(r)) == kick_steps(
            local(*old(rs), old(out)@),
            w@,
            live_state@,
            leaves@,
        ),
{
    let ghost whole = kick_steps(local(*rs, out@), w@, live_state@, leaves@);
    let mut i: usize = 0;
    assert(leaves@.skip(0) =~= leaves@);
    while i < leaves.len()
        invariant
            i <= leaves@.len(),
            whole == kick_steps(local(*old(rs), old(out)@), w@, live_state@, leaves@),
            kick_steps(local(*rs, out@), w@, live_state@, leaves@.skip(i as int)) == whole,
        decreases leaves@.len() - i,
    {
        assert(leaves@.skip(i as int)[0] == leaves@[i as int]);
        if rs.pending_validation.is_some() {
            return Ok(());
        }
        assert(leaves@.skip(i as int).skip(1) =~= leaves@.skip(i + 1));
        maybe_kick_validation(rs, w, leaves[i], live_state, out)?;
        i += 1;
    }
    Ok(())
}

/// The nodes from `decided_hash` upwards that have not been executed.
fn unexecuted_chain(rs: &ReplicaState, decided_hash: &[u8; 32]) -> (r: Vec<[u8; 32]>)
    ensures
        r@.reverse() == chain_of(rs@, *decided_hash),
        forall|i: int| 0 <= i < r@.len() ==> rs@.tree.contains_key(#[trigger] r@[i]),
{
    let ghost tree = rs@.tree;
    let ghost last = rs@.last_executed_height;
    let ghost whole = unexecuted(tree, last, *decided_hash, tree.dom().len());
    let mut chain: Vec<[u8; 32]> = Vec::new();
    let root = genesis_hash();
    let mut cur = *decided_hash;
    let mut fuel = rs.tree.len();
    assert(chain@ + whole =~= whole);
    while fuel > 0
        invariant_except_break
            chain@ + unexecuted(tree, last, cur, fuel as nat) == whole,
        invariant
            tree == rs@.tree,
            last == rs@.last_executed_height,
            root == genesis(),
            forall|i: int| 0 <= i < chain@.len() ==> tree.contains_key(#[trigger] chain@[i]),
        ensures
            chain@ == whole,
        decreases fuel,
    {
        let node: Node = match rs.tree.get(&cur) {
            Some(n) => *n,
            None => {
                assert(chain@ + Seq::<[u8; 32]>::empty() =~= chain@);
                break;
            },
        };
        if (node.height as i64) <= rs.last_executed_height {
            assert(chain@ + Seq::<[u8; 32]>::empty() =~= chain@);
            break;
        }
        let ghost before = chain@;
        chain.push(cur);
        if same(&node.parent, &root) {
            assert(chain@ =~= before + seq![cur]);
            break;
        }
        proof {
            let rest = unexecuted(tree, last, node.parent, (fuel - 1) as nat);
            assert(before + (seq![cur] + rest) =~= chain@ + rest);
        }
        cur = node.parent;
        fuel -= 1;
        assert(fuel == 0 ==> chain@ + Seq::<[u8; 32]>::empty() =~= chain@);
    }
    chain
}

/// Executes the node `nh`, which is valid and next in height: its state
/// becomes the live state, and its state root the root of the chain.
#[verifier::rlimit(40)]
pub fn execute_valid(
    rs: &mut ReplicaState,
    live_state: &mut State,
    chained_root: &mut [u8; 32],
    nh: &[u8; 32],
    height: u64,
    out: &mut Vec<Action>,
) -> (r: Result<(), Fault>)
    requires
        old(rs)@.tree.contains_key(*nh),
        old(rs)@.tree[*nh].height == height,
    ensures
        (system(*final(rs), *final(live_state), *final(chained_root), final(out)@), fault_of(r))
            == execute_node(
            system(*old(rs), *old(live_state), *old(chained_root), old(out)@),
            *nh,
        ),
{
    let ghost posts = rs.post_state_by_node@;
    match rs.post_state_by_node.remove(nh) {
        Some(ps) => *live_state = ps,
        None => (),
    }
    assert(states_view(posts.remove(*nh)) =~= states_view(posts).remove(*nh));
    assert(!posts.contains_key(*nh) ==> states_view(posts).remove(*nh) =~= states_view(posts));
    if let Some(pre) = rs.pre_root_by_node.get(nh) {
        let pre: [u8; 32] = *pre;
        if height > 0 && !same(&pre, chained_root) {
            return Err(Fault::ChainBreak { height, pre, expected: *chained_root });
        }
        let ghost roots = rs.post_root_by_node@;
        match rs.post_root_by_node.remove(nh) {
            Some(pr) => *chained_root = pr,
            None => (),
        }
        assert(!roots.contains_key(*nh) ==> roots.remove(*nh) =~= roots);
    }
    rs.last_executed_height = height as i64;
    rs.committed_at_height.insert(height, *nh);
    act(
        out,
        Action::Log { view: rs.view, event: Event::Execute { height, node_hash: *nh } },
    );
    Ok(())
}

/// Walks back from `decided_hash` through parent links, and executes what has
/// not been executed, from the last executed height upwards, as long as it
/// has been validated.
#[verifier::rlimit(40)]
pub fn try_execute_chain(
    rs: &mut ReplicaState,
    w: &Wiring<'_>,
    live_state: &mut State,
    chained_root: &mut [u8; 32],
    decided_hash: [u8; 32],
    out: &mut Vec<Action>,
) -> (r: Result<(), Fault>)
    ensures
        (system(*final(rs), *final(live_state), *final(chained_root), final(out)@), fault_of(r))
            == execute_step(
            system(*old(rs), *old(live_state), *old(chained_root), old(out)@),
            w@,
            decided_hash,
        ),
{
    let chain = unexecuted_chain(rs, &decided_hash);
    let ghost rev = chain@.reverse();
    let ghost s0 = system(*rs, *live_state, *chained_root, out@);
    let ghost whole = apply_chain(s0, w@, rev);
    let mut i: usize = chain.len();
    assert(rev.skip(0) =~= rev);
    while i > 0
        invariant
            i <= chain@.len(),
            rev == chain@.reverse(),
            s0 == system(*old(rs), *old(live_state), *old(chained_root), old(out)@),
            whole == execute_step(s0, w@, decided_hash),
            rs@.tree == old(rs)@.tree,
            forall|j: int| 0 <= j < chain@.len() ==> rs@.tree.contains_key(#[trigger] chain@[j]),
            apply_chain(
                system(*rs, *live_state, *chained_root, out@),
                w@,
                rev.skip(chain@.len() - i),
            ) == whole,
        decreases i,
    {
        let ghost rest = rev.skip(chain@.len() - i);
        i -= 1;
        let nh = chain[i];
        proof {
            assert(rest[0] == nh);
            assert(rest.skip(1) =~= rev.skip(chain@.len() - i));
            assert(rs@.tree.contains_key(chain@[i as int]));
        }
        let height: u64 = match rs.tree.get(&nh) {
            Some(n) => n.height,
            None => return Ok(()),
        };
        if rs.last_executed_height == i64::MAX || height as i64 != rs.last_executed_height + 1 {
            return Ok(());
        }
        match rs.validation_result.get(&nh) {
            Some(valid) => {
                if !*valid {
                    act(out, Action::Warn { warning: Warning::ExecuteInvalid { height } });
                    return Ok(());
                }
            },
            None => {
                return maybe_kick_validation(rs, w, nh, live_state, out);
            },
        }
        execute_valid(rs, live_state, chained_root, &nh, height, out)?;
    }
    Ok(())
}

/// Tries to execute every node that was ever decided.
///
/// A validation may finish only after its node was decided and the view has
/// moved on: this catches up.
pub fn retry_pending_execute(
    rs: &mut ReplicaState,
    w: &Wiring<'_>,
    live_state: &mut State,
    chained_root: &mut [u8; 32],
    out: &mut Vec<Action>,
) -> (r: Result<(), Fault>)
    ensures
        exists|order: Seq<[u8; 32]>|
            enumerates(order, old(rs)@.decided_nodes) && (
            system(*final(rs), *final(live_state), *final(chained_root), final(out)@),
            fault_of(r),
        ) == #[trigger] execute_steps(
            system(*old(rs), *old(live_state), *old(chained_root), old(out)@),
            w@,
            order,
        ),
{
    let hashes = rs.decided_nodes.keys();
    assert(forall|k: [u8; 32]|
        rs.decided_nodes@.contains_key(k) <==> #[trigger] rs@.decided_nodes.contains_key(k));
    execute_in_order(rs, w, live_state, chained_root, hashes.as_slice(), out)
}

/// Tries to execute what the decisions on the nodes `hashes` commit, in that
/// order.
pub fn execute_in_order(
    rs: &mut ReplicaState,
    w: &Wiring<'_>,
    live_state: &mut State,
    chained_root: &mut [u8; 32],
    hashes: &[[u8; 32]],
    out: &mut Vec<Action>,
) -> (r: Result<(), Fault>)
    ensures
        (system(*final(rs), *final(live_state), *final(chained_root), final(out)@), fault_of(r))
            == execute_steps(
            system(*old(rs), *old(live_state), *old(chained_root), old(out)@),
            w@,
            hashes@,
        ),
{
    let ghost s0 = system(*rs, *live_state, *chained_root, out@);
    let ghost whole = execute_steps(s0, w@, hashes@);
    let mut i: usize = 0;
    assert(hashes@.skip(0) =~= hashes@);
    while i < hashes.len()
        invariant
            i <= hashes@.len(),
            s0 == system(*old(rs), *old(live_state), *old(chained_root), old(out)@),
            whole == execute_steps(s0, w@, hashes@),
            execute_steps(
                system(*rs, *live_state, *chained_root, out@),
                w@,
                hashes@.skip(i as int),
            ) == whole,
        decreases hashes@.len() - i,
    {
        assert(hashes@.skip(i as int)[0] == hashes@[i as int]);
        assert(hashes@.skip(i as int).skip(1) =~= hashes@.skip(i + 1));
        try_execute_chain(rs, w, live_state, chained_root, hashes[i], out)?;
        i += 1;
    }
    Ok(())
}

// ---- Laws ----

/// Whether `b` differs from `a` in what has been executed at most: the last
/// height, the committed nodes, the states and roots at hand, and the nodes
/// that are being validated.
pub open spec fn executes_only(a: Replica, b: Replica) -> bool {
    b == Replica {
        last_executed_height: b.last_executed_height,
        committed_at_height: b.committed_at_height,
        post_state_by_node: b.post_state_by_node,
        post_root_by_node: b.post_root_by_node,
        pending_validation: b.pending_validation,
        in_flight: b.in_flight,
        ..a
    }
}

/// Executing nodes leaves the protocol alone: the view, the certificates, the
/// votes, the tree and the verdicts stay as they are.
pub proof fn law_execution_keeps_protocol(s: Sys, me: Me, decided: [u8; 32])
    ensures
        executes_only(s.local.rs, execute_step(s, me, decided).0.local.rs),
{
    lemma_chain_keeps_protocol(s, me, chain_of(s.local.rs, decided));
}

proof fn lemma_chain_keeps_protocol(s: Sys, me: Me, chain: Seq<[u8; 32]>)
    ensures
        executes_only(s.local.rs, apply_chain(s, me, chain).0.local.rs),
    decreases chain.len(),
{
    if chain.len() > 0 {
        lemma_chain_keeps_protocol(execute_node(s, chain[0]).0, me, chain.skip(1));
    }
}

/// The nodes that a decision has to execute are known.
pub(crate) proof fn lemma_chain_known(rs: Replica, decided: [u8; 32])
    ensures
        forall|i: int|
            0 <= i < chain_of(rs, decided).len() ==> rs.tree.contains_key(
                #[trigger] chain_of(rs, decided)[i],
            ),
{
    let last = rs.last_executed_height;
    let up = unexecuted(rs.tree, last, decided, rs.tree.dom().len());
    lemma_unexecuted_known(rs.tree, last, decided, rs.tree.dom().len());
    assert forall|i: int| 0 <= i < chain_of(rs, decided).len() implies rs.tree.contains_key(
        #[trigger] chain_of(rs, decided)[i],
    ) by {
        assert(chain_of(rs, decided)[i] == up[up.len() - 1 - i]);
    }
}

proof fn lemma_unexecuted_known(
    tree: Map<[u8; 32], Node>,
    last: i64,
    cur: [u8; 32],
    fuel: nat,
)
    ensures
        forall|i: int|
            0 <= i < unexecuted(tree, last, cur, fuel).len() ==> tree.contains_key(
                #[trigger] unexecuted(tree, last, cur, fuel)[i],
            ),
    decreases fuel,
{
    if fuel > 0 && tree.contains_key(cur) && (tree[cur].height as i64) > last && tree[cur].parent
        != genesis() {
        let rest = unexecuted(tree, last, tree[cur].parent, (fuel - 1) as nat);
        lemma_unexecuted_known(tree, last, tree[cur].parent, (fuel - 1) as nat);
        assert forall|i: int| 0 <= i < (seq![cur] + rest).len() implies tree.contains_key(
            #[trigger] (seq![cur] + rest)[i],
        ) by {
            if i > 0 {
                assert((seq![cur] + rest)[i] == rest[i - 1]);
            }
        }
    }
}

/// Heights in order rise towards every node.
pub proof fn law_ordered_rises(tree: Map<[u8; 32], Node>, from: [u8; 32])
    requires
        ordered(tree),
    ensures
        rises(tree, from),
{
}

/// Where the heights rise towards a node, they rise towards its parent.
proof fn lemma_rises_up(tree: Map<[u8; 32], Node>, cur: [u8; 32])
    requires
        rises(tree, cur),
        tree.contains_key(cur),
        tree[cur].parent != genesis(),
    ensures
        rises(tree, tree[cur].parent),
        tree.contains_key(tree[cur].parent) ==> (tree[tree[cur].parent].height as i64) < (
        tree[cur].height as i64),
{
    let up = tree[cur].parent;
    assert(ancestor(tree, cur, 0) == Some(cur));
    assert(reaches(tree, cur, cur));
    reveal_with_fuel(ancestor, 2);
    assert(ancestor(tree, cur, 1) == Some(up));
    assert forall|h: [u8; 32]| #[trigger] reaches(tree, up, h) implies reaches(tree, cur, h) by {
        let k = choose|k: nat| #[trigger] ancestor(tree, up, k) == Some(h);
        lemma_ancestor_adds(tree, cur, up, 1, k);
        assert(ancestor(tree, cur, 1 + k) == Some(h));
    }
}

/// The walk from a decided node upwards is complete: where the heights rise
/// towards the node, no longer walk finds more.
pub proof fn law_walk_is_complete(rs: Replica, decided: [u8; 32], fuel: nat)
    requires
        rises(rs.tree, decided),
        rs.tree.dom().finite(),
        rs.tree.dom().len() <= fuel,
    ensures
        unexecuted(rs.tree, rs.last_executed_height, decided, fuel).reverse() == chain_of(
            rs,
            decided,
        ),
    decreases fuel,
{
    let n = rs.tree.dom().len();
    let last = rs.last_executed_height;
    if fuel > n {
        let k = (fuel - 1) as nat;
        law_walk_is_complete(rs, decided, k);
        lemma_walk_grows(rs.tree, last, decided, k);
        lemma_walk_bounded(rs.tree, last, decided, fuel);
        lemma_walk_bounded(rs.tree, last, decided, n);
        let a = unexecuted(rs.tree, last, decided, n);
        let b = unexecuted(rs.tree, last, decided, k);
        assert(b =~= b.reverse().reverse());
        assert(a =~= a.reverse().reverse());
    }
}

/// One more link to follow adds at most one node to a walk, and none to a walk
/// that has ended.
proof fn lemma_walk_grows(tree: Map<[u8; 32], Node>, last: i64, cur: [u8; 32], fuel: nat)
    ensures
        ({
            let a = unexecuted(tree, last, cur, fuel);
            let b = unexecuted(tree, last, cur, fuel + 1);
            &&& a.len() <= fuel
            &&& b == a || (a.len() == fuel && b.len() == fuel + 1)
        }),
    decreases fuel,
{
    reveal_with_fuel(unexecuted, 2);
    if fuel > 0 && tree.contains_key(cur) && (tree[cur].height as i64) > last && tree[cur].parent
        != genesis() {
        lemma_walk_grows(tree, last, tree[cur].parent, (fuel - 1) as nat);
    }
}

/// Where the heights rise, a walk meets no node twice, and so no more nodes
/// than there are.
proof fn lemma_walk_bounded(tree: Map<[u8; 32], Node>, last: i64, cur: [u8; 32], fuel: nat)
    requires
        rises(tree, cur),
        tree.dom().finite(),
    ensures
        unexecuted(tree, last, cur, fuel).len() <= tree.dom().len(),
{
    let s = unexecuted(tree, last, cur, fuel);
    lemma_walk_descends(tree, last, cur, fuel);
    lemma_unexecuted_known(tree, last, cur, fuel);
    assert(s.no_duplicates());
    s.unique_seq_to_set();
    assert(s.to_set().subset_of(tree.dom()));
    vstd::set_lib::lemma_len_subset(s.to_set(), tree.dom());
}

/// Where the heights rise, they descend along a walk.
proof fn lemma_walk_descends(tree: Map<[u8; 32], Node>, last: i64, cur: [u8; 32], fuel: nat)
    requires
        rises(tree, cur),
    ensures
        ({
            let s = unexecuted(tree, last, cur, fuel);
            forall|i: int, j: int|
                0 <= i < j < s.len() ==> (tree[#[trigger] s[j]].height as i64) < (
                tree[#[trigger] s[i]].height as i64)
        }),
    decreases fuel,
{
    if fuel > 0 && tree.contains_key(cur) && (tree[cur].height as i64) > last && tree[cur].parent
        != genesis() {
        let up = tree[cur].parent;
        let rest = unexecuted(tree, last, up, (fuel - 1) as nat);
        lemma_rises_up(tree, cur);
        lemma_walk_descends(tree, last, up, (fuel - 1) as nat);
        let s = seq![cur] + rest;
        assert forall|i: int, j: int| 0 <= i < j < s.len() implies (tree[#[trigger] s[j]].height
            as i64) < (tree[#[trigger] s[i]].height as i64) by {
            assert(s[j] == rest[j - 1]);
            assert(rest[0] == up && tree.contains_key(up));
            if i > 0 {
                assert(s[i] == rest[i - 1]);
            } else if j > 1 {
                assert((tree[rest[j - 1]].height as i64) < (tree[rest[0]].height as i64));
            }
        }
    }
}

/// Once the first node of a chain has been executed, the rest is left.
proof fn lemma_walk_drops(tree: Map<[u8; 32], Node>, last: i64, cur: [u8; 32], fuel: nat)
    requires
        rises(tree, cur),
        last < i64::MAX,
        unexecuted(tree, last, cur, fuel).len() > 0,
        (tree[unexecuted(tree, last, cur, fuel).last()].height as i64) as int == last + 1,
    ensures
        unexecuted(tree, (last + 1) as i64, cur, fuel) == unexecuted(
            tree,
            last,
            cur,
            fuel,
        ).drop_last(),
    decreases fuel,
{
    if tree[cur].parent == genesis() {
        assert(seq![cur].drop_last() =~= Seq::<[u8; 32]>::empty());
    } else {
        let up = tree[cur].parent;
        let rest = unexecuted(tree, last, up, (fuel - 1) as nat);
        assert(unexecuted(tree, last, cur, fuel) == seq![cur] + rest);
        if rest.len() == 0 {
            assert((seq![cur] + rest) =~= seq![cur]);
            assert(seq![cur].drop_last() =~= Seq::<[u8; 32]>::empty());
        } else {
            assert(tree.contains_key(cur) && tree.contains_key(up));
            assert((seq![cur] + rest).last() == rest.last());
            lemma_rises_up(tree, cur);
            lemma_walk_drops(tree, last, up, (fuel - 1) as nat);
            assert((seq![cur] + rest).drop_last() =~= seq![cur] + rest.drop_last());
        }
    }
}

/// A walk leads to ancestors.
proof fn lemma_walk_is_path(
    tree: Map<[u8; 32], Node>,
    last: i64,
    cur: [u8; 32],
    fuel: nat,
    i: int,
)
    requires
        cur != genesis(),
        0 <= i < unexecuted(tree, last, cur, fuel).len(),
    ensures
        ancestor(tree, cur, i as nat) == Some(unexecuted(tree, last, cur, fuel)[i]),
    decreases fuel,
{
    if i > 0 {
        let up = tree[cur].parent;
        let rest = unexecuted(tree, last, up, (fuel - 1) as nat);
        assert((seq![cur] + rest)[i] == rest[i - 1]);
        lemma_walk_is_path(tree, last, up, (fuel - 1) as nat, i - 1);
        reveal_with_fuel(ancestor, 2);
        assert(ancestor(tree, cur, 1) == Some(up));
        lemma_ancestor_adds(tree, cur, up, 1, (i - 1) as nat);
    }
}

/// Whether `b` is `a`, but for further warnings.
pub open spec fn quiet(a: Local, b: Local) -> bool {
    &&& b.rs == a.rs
    &&& a.out.len() <= b.out.len()
    &&& forall|i: int| 0 <= i < a.out.len() ==> #[trigger] b.out[i] == a.out[i]
    &&& forall|i: int| a.out.len() <= i < b.out.len() ==> (#[trigger] b.out[i]) is Warn
}

/// Whether the node `h` has nothing to be submitted: it has a verdict, is being
/// validated, is not known, does not carry the command of its block, or has to
/// wait for its parent.
pub open spec fn idle_kick(rs: Replica, me: Me, live: Map<u32, u64>, h: [u8; 32]) -> bool {
    let node = rs.tree[h];
    ||| rs.validation_result.contains_key(h)
    ||| rs.in_flight.contains_key(h)
    ||| !rs.tree.contains_key(h)
    ||| node.height < me.work.blocks.len() && (me.work.blocks[node.height as int].cmd != node.cmd
        || validation_input(rs, me.mode, node, live) is None)
}

/// Whether the node `h` cannot be executed now: it is not next in height, has
/// no verdict and nothing to be submitted, or is not valid.
pub open spec fn blocked(rs: Replica, me: Me, live: Map<u32, u64>, h: [u8; 32]) -> bool {
    ||| (rs.tree[h].height as i64) as int != rs.last_executed_height + 1
    ||| !rs.validation_result.contains_key(h) && idle_kick(rs, me, live, h)
    ||| rs.validation_result.contains_key(h) && !rs.validation_result[h]
}

/// Whether a decision on `decided` has nothing left to execute now.
pub open spec fn stuck(rs: Replica, me: Me, live: Map<u32, u64>, decided: [u8; 32]) -> bool {
    let chain = chain_of(rs, decided);
    chain.len() == 0 || blocked(rs, me, live, chain[0])
}

/// Where nothing is left to execute, trying changes nothing.
pub(crate) proof fn lemma_stuck_is_quiet(s: Sys, me: Me, decided: [u8; 32])
    requires
        stuck(s.local.rs, me, s.live, decided),
    ensures
        ({
            let (after, fault) = execute_step(s, me, decided);
            &&& fault is None
            &&& quiet(s.local, after.local)
            &&& after.live == s.live
            &&& after.root == s.root
        }),
{
}

/// Executing leaves nothing to execute.
pub(crate) proof fn lemma_execution_settles(s: Sys, me: Me, decided: [u8; 32])
    requires
        rises(s.local.rs.tree, decided),
        execute_step(s, me, decided).1 is None,
    ensures
        ({
            let after = execute_step(s, me, decided).0;
            stuck(after.local.rs, me, after.live, decided)
        }),
    decreases chain_of(s.local.rs, decided).len(),
{
    let rs = s.local.rs;
    let chain = chain_of(rs, decided);
    if chain.len() > 0 {
        let h = chain[0];
        let up = unexecuted(rs.tree, rs.last_executed_height, decided, rs.tree.dom().len());
        assert(h == up.last());
        lemma_chain_known(rs, decided);
        assert(rs.tree.contains_key(chain[0]));
        if (rs.tree[h].height as i64) as int == rs.last_executed_height + 1
            && rs.validation_result.contains_key(h) && rs.validation_result[h] {
            let s1 = execute_node(s, h).0;
            lemma_walk_drops(rs.tree, rs.last_executed_height, decided, rs.tree.dom().len());
            assert(chain_of(s1.local.rs, decided) =~= chain.skip(1));
            lemma_execution_settles(s1, me, decided);
        }
    }
}

/// Executing what a decision commits is idempotent where the heights rise
/// towards the decided node: done again at once, it changes neither the replica
/// nor the ledger, and emits nothing but warnings.
pub proof fn law_execution_is_idempotent(s: Sys, me: Me, decided: [u8; 32])
    requires
        rises(s.local.rs.tree, decided),
        execute_step(s, me, decided).1 is None,
    ensures
        ({
            let once = execute_step(s, me, decided).0;
            let (twice, fault) = execute_step(once, me, decided);
            &&& fault is None
            &&& quiet(once.local, twice.local)
            &&& twice.live == once.live
            &&& twice.root == once.root
        }),
{
    lemma_execution_settles(s, me, decided);
    lemma_stuck_is_quiet(execute_step(s, me, decided).0, me, decided);
}

/// Whether of any two decided nodes one is an ancestor of the other.
pub open spec fn one_path(rs: Replica) -> bool {
    forall|a: [u8; 32], b: [u8; 32]|
        #![trigger rs.decided_nodes.contains_key(a), rs.decided_nodes.contains_key(b)]
        rs.decided_nodes.contains_key(a) && rs.decided_nodes.contains_key(b) ==> reaches(
            rs.tree,
            a,
            b,
        ) || reaches(rs.tree, b, a)
}

/// Whether the heights rise towards every decided node.
pub open spec fn all_rise(rs: Replica) -> bool {
    forall|d: [u8; 32]| #[trigger] rs.decided_nodes.contains_key(d) ==> rises(rs.tree, d)
}

/// The ancestors of a node are those of its parent, one link further away.
proof fn lemma_ancestor_shift(tree: Map<[u8; 32], Node>, cur: [u8; 32], k: nat)
    requires
        k > 0,
        ancestor(tree, cur, k) is Some,
    ensures
        cur != genesis(),
        tree.contains_key(cur),
        ancestor(tree, tree[cur].parent, (k - 1) as nat) == ancestor(tree, cur, k),
    decreases k,
{
    reveal_with_fuel(ancestor, 2);
    if k > 1 {
        lemma_ancestor_shift(tree, cur, (k - 1) as nat);
    }
}

/// A walk from a node passes through its ancestors, and so ends where theirs
/// end.
proof fn lemma_same_end(
    tree: Map<[u8; 32], Node>,
    last: i64,
    a: [u8; 32],
    b: [u8; 32],
    k: nat,
    fuel: nat,
)
    requires
        rises(tree, a),
        rises(tree, b),
        ancestor(tree, a, k) == Some(b),
        unexecuted(tree, last, b, fuel).len() > 0,
    ensures
        unexecuted(tree, last, a, fuel + k).len() > 0,
        unexecuted(tree, last, a, fuel + k).last() == unexecuted(tree, last, b, fuel).last(),
    decreases k,
{
    if k > 0 {
        lemma_ancestor_shift(tree, a, k);
        let up = tree[a].parent;
        if up == genesis() && k > 1 {
            lemma_ancestor_shift(tree, up, (k - 1) as nat);
        }
        lemma_rises_up(tree, a);
        lemma_same_end(tree, last, up, b, (k - 1) as nat, fuel);
        let rest = unexecuted(tree, last, up, (fuel + k - 1) as nat);
        assert(tree.contains_key(up));
        assert(unexecuted(tree, last, a, fuel + k) == seq![a] + rest);
        assert((seq![a] + rest).last() == rest.last());
    }
}

/// Two decisions on one path have the same node to execute next.
proof fn lemma_same_start(rs: Replica, a: [u8; 32], b: [u8; 32])
    requires
        rises(rs.tree, a),
        rises(rs.tree, b),
        rs.tree.dom().finite(),
        reaches(rs.tree, a, b),
        chain_of(rs, b).len() > 0,
    ensures
        chain_of(rs, a).len() > 0,
        chain_of(rs, a)[0] == chain_of(rs, b)[0],
{
    let n = rs.tree.dom().len();
    let last = rs.last_executed_height;
    let k = choose|k: nat| #[trigger] ancestor(rs.tree, a, k) == Some(b);
    lemma_same_end(rs.tree, last, a, b, k, n);
    law_walk_is_complete(rs, a, n + k);
}

/// Executing does not go back in height.
pub(crate) proof fn lemma_chain_grows(s: Sys, me: Me, chain: Seq<[u8; 32]>)
    ensures
        s.local.rs.last_executed_height <= apply_chain(
            s,
            me,
            chain,
        ).0.local.rs.last_executed_height,
    decreases chain.len(),
{
    if chain.len() > 0 {
        lemma_chain_grows(execute_node(s, chain[0]).0, me, chain.skip(1));
    }
}

/// A decision with nothing left to execute stays so when another decision on
/// its path is executed.
proof fn lemma_stuck_stays(s: Sys, me: Me, a: [u8; 32], b: [u8; 32])
    requires
        rises(s.local.rs.tree, a),
        rises(s.local.rs.tree, b),
        s.local.rs.tree.dom().finite(),
        reaches(s.local.rs.tree, a, b) || reaches(s.local.rs.tree, b, a),
        stuck(s.local.rs, me, s.live, a),
    ensures
        ({
            let after = execute_step(s, me, b).0;
            stuck(after.local.rs, me, after.live, a)
        }),
{
    let rs = s.local.rs;
    let after = execute_step(s, me, b).0;
    law_execution_keeps_protocol(s, me, b);
    lemma_chain_grows(s, me, chain_of(rs, b));
    if chain_of(rs, a).len() == 0 {
        let n = rs.tree.dom().len();
        assert(unexecuted(rs.tree, rs.last_executed_height, a, n).len() == 0);
        assert(unexecuted(rs.tree, after.local.rs.last_executed_height, a, n).len() == 0);
    } else if chain_of(rs, b).len() > 0 {
        if reaches(rs.tree, a, b) {
            lemma_same_start(rs, a, b);
        } else {
            lemma_same_start(rs, b, a);
        }
        lemma_stuck_is_quiet(s, me, b);
    }
}

/// Whether the nodes of `order` and `a` lie on one path, of rising heights.
spec fn path_with(tree: Map<[u8; 32], Node>, a: [u8; 32], order: Seq<[u8; 32]>) -> bool {
    &&& rises(tree, a)
    &&& forall|i: int|
        0 <= i < order.len() ==> {
            &&& rises(tree, #[trigger] order[i])
            &&& reaches(tree, a, order[i]) || reaches(tree, order[i], a)
        }
}

proof fn lemma_path_rest(tree: Map<[u8; 32], Node>, a: [u8; 32], order: Seq<[u8; 32]>)
    requires
        order.len() > 0,
        path_with(tree, a, order),
    ensures
        path_with(tree, a, order.skip(1)),
        rises(tree, order[0]),
        reaches(tree, a, order[0]) || reaches(tree, order[0], a),
{
    let rest = order.skip(1);
    assert(order[0] == order[0]);
    assert forall|i: int| 0 <= i < rest.len() implies {
        &&& rises(tree, #[trigger] rest[i])
        &&& reaches(tree, a, rest[i]) || reaches(tree, rest[i], a)
    } by {
        assert(rest[i] == order[i + 1]);
    }
}

proof fn lemma_stuck_stays_through(s: Sys, me: Me, a: [u8; 32], order: Seq<[u8; 32]>)
    requires
        s.local.rs.tree.dom().finite(),
        path_with(s.local.rs.tree, a, order),
        stuck(s.local.rs, me, s.live, a),
    ensures
        ({
            let after = execute_steps(s, me, order).0;
            stuck(after.local.rs, me, after.live, a)
        }),
    decreases order.len(),
{
    if order.len() > 0 {
        lemma_path_rest(s.local.rs.tree, a, order);
        lemma_stuck_stays(s, me, a, order[0]);
        law_execution_keeps_protocol(s, me, order[0]);
        lemma_stuck_stays_through(execute_step(s, me, order[0]).0, me, a, order.skip(1));
    }
}

proof fn lemma_executions_settle(s: Sys, me: Me, order: Seq<[u8; 32]>)
    requires
        s.local.rs.tree.dom().finite(),
        forall|i: int|
            0 <= i < order.len() ==> path_with(s.local.rs.tree, #[trigger] order[i], order),
        execute_steps(s, me, order).1 is None,
    ensures
        ({
            let after = execute_steps(s, me, order).0;
            forall|i: int|
                0 <= i < order.len() ==> stuck(
                    after.local.rs,
                    me,
                    after.live,
                    #[trigger] order[i],
                )
        }),
    decreases order.len(),
{
    if order.len() > 0 {
        let tree = s.local.rs.tree;
        let s1 = execute_step(s, me, order[0]).0;
        let rest = order.skip(1);
        assert(path_with(tree, order[0], order));
        lemma_path_rest(tree, order[0], order);
        lemma_execution_settles(s, me, order[0]);
        law_execution_keeps_protocol(s, me, order[0]);
        assert forall|i: int| 0 <= i < rest.len() implies path_with(
            tree,
            #[trigger] rest[i],
            rest,
        ) by {
            assert(rest[i] == order[i + 1]);
            lemma_path_rest(tree, order[i + 1], order);
        }
        lemma_stuck_stays_through(s1, me, order[0], rest);
        lemma_executions_settle(s1, me, rest);
        let after = execute_steps(s, me, order).0;
        assert forall|i: int| 0 <= i < order.len() implies stuck(
            after.local.rs,
            me,
            after.live,
            #[trigger] order[i],
        ) by {
            if i > 0 {
                assert(order[i] == rest[i - 1]);
            }
        }
    }
}

proof fn lemma_decided_path(rs: Replica, order: Seq<[u8; 32]>, d: [u8; 32])
    requires
        all_rise(rs),
        one_path(rs),
        enumerates(order, rs.decided_nodes),
        rs.decided_nodes.contains_key(d),
    ensures
        path_with(rs.tree, d, order),
{
    assert forall|i: int| 0 <= i < order.len() implies {
        &&& rises(rs.tree, #[trigger] order[i])
        &&& reaches(rs.tree, d, order[i]) || reaches(rs.tree, order[i], d)
    } by {
        assert(order.contains(order[i]));
        assert(rs.decided_nodes.contains_key(order[i]));
    }
}

/// Trying every decision executes all that can be executed: afterwards none of
/// the decided nodes has anything left to execute. They have to lie on one path
/// of rising heights.
pub proof fn law_retry_executes_all_it_can(s: Sys, me: Me, order: Seq<[u8; 32]>)
    requires
        s.local.rs.tree.dom().finite(),
        all_rise(s.local.rs),
        one_path(s.local.rs),
        enumerates(order, s.local.rs.decided_nodes),
        execute_steps(s, me, order).1 is None,
    ensures
        ({
            let after = execute_steps(s, me, order).0;
            forall|d: [u8; 32]| #[trigger]
                s.local.rs.decided_nodes.contains_key(d) ==> stuck(
                    after.local.rs,
                    me,
                    after.live,
                    d,
                )
        }),
{
    let rs = s.local.rs;
    assert forall|i: int| 0 <= i < order.len() implies path_with(
        rs.tree,
        #[trigger] order[i],
        order,
    ) by {
        assert(order.contains(order[i]));
        lemma_decided_path(rs, order, order[i]);
    }
    lemma_executions_settle(s, me, order);
    let after = execute_steps(s, me, order).0;
    assert forall|d: [u8; 32]| #[trigger] rs.decided_nodes.contains_key(d) implies stuck(
        after.local.rs,
        me,
        after.live,
        d,
    ) by {
        assert(order.contains(d));
        let i = choose|i: int| 0 <= i < order.len() && order[i] == d;
        assert(stuck(after.local.rs, me, after.live, order[i]));
    }
}

/// Whether the heights from `a` to `b` have been filled with the nodes of
/// `chain`, which are valid and have these heights, and nothing else has been
/// committed.
pub open spec fn fills(a: Replica, b: Replica, chain: Seq<[u8; 32]>) -> bool {
    let first = a.last_executed_height + 1;
    let count = b.last_executed_height - a.last_executed_height;
    &&& 0 <= count <= chain.len()
    &&& forall|i: int|
        0 <= i < count ==> {
            &&& a.tree.contains_key(#[trigger] chain[i])
            &&& a.tree[chain[i]].height == first + i
            &&& a.validation_result.contains_key(chain[i])
            &&& a.validation_result[chain[i]]
            &&& b.committed_at_height.contains_key(a.tree[chain[i]].height)
            &&& b.committed_at_height[a.tree[chain[i]].height] == chain[i]
        }
    &&& forall|w: u64|
        !(first <= w < first + count) ==> {
            &&& #[trigger] b.committed_at_height.contains_key(w)
                <==> a.committed_at_height.contains_key(w)
            &&& b.committed_at_height[w] == a.committed_at_height[w]
        }
}

proof fn lemma_chain_fills(s: Sys, me: Me, chain: Seq<[u8; 32]>)
    requires
        s.local.rs.last_executed_height >= -1,
        forall|i: int| 0 <= i < chain.len() ==> s.local.rs.tree.contains_key(#[trigger] chain[i]),
    ensures
        fills(s.local.rs, apply_chain(s, me, chain).0.local.rs, chain),
    decreases chain.len(),
{
    if chain.len() > 0 {
        let a = s.local.rs;
        let b = apply_chain(s, me, chain).0.local.rs;
        let h = chain[0];
        assert(a.tree.contains_key(chain[0]));
        lemma_signed_height(a.tree[h].height);
        if (a.tree[h].height as i64) as int == a.last_executed_height + 1
            && a.validation_result.contains_key(h) && a.validation_result[h] && execute_node(
            s,
            h,
        ).1 is None {
            let s1 = execute_node(s, h).0;
            let rest = chain.skip(1);
            assert forall|i: int| 0 <= i < rest.len() implies s1.local.rs.tree.contains_key(
                #[trigger] rest[i],
            ) by {
                assert(rest[i] == chain[i + 1]);
            }
            lemma_chain_fills(s1, me, rest);
            let count = b.last_executed_height - a.last_executed_height;
            assert(b.committed_at_height.contains_key(a.tree[h].height));
            assert forall|i: int| 0 <= i < count implies {
                &&& a.tree.contains_key(#[trigger] chain[i])
                &&& a.tree[chain[i]].height == a.last_executed_height + 1 + i
                &&& a.validation_result.contains_key(chain[i])
                &&& a.validation_result[chain[i]]
                &&& b.committed_at_height.contains_key(a.tree[chain[i]].height)
                &&& b.committed_at_height[a.tree[chain[i]].height] == chain[i]
            } by {
                if i > 0 {
                    assert(chain[i] == rest[i - 1]);
                }
            }
        }
    }
}

/// What a decision executes was valid, and lies at or above the decided node:
/// it is the first part of the path that the decision commits, its heights
/// follow the last executed height without a gap, and each node is committed at
/// its own height. Nothing else is committed, whatever fault is met.
pub proof fn law_executes_a_valid_path(s: Sys, me: Me, decided: [u8; 32])
    requires
        s.local.rs.last_executed_height >= -1,
        decided != genesis(),
    ensures
        ({
            let rs = s.local.rs;
            let chain = chain_of(rs, decided);
            &&& fills(rs, execute_step(s, me, decided).0.local.rs, chain)
            &&& forall|i: int|
                0 <= i < chain.len() ==> reaches(rs.tree, decided, #[trigger] chain[i])
        }),
{
    let rs = s.local.rs;
    let n = rs.tree.dom().len();
    let up = unexecuted(rs.tree, rs.last_executed_height, decided, n);
    let chain = chain_of(rs, decided);
    lemma_chain_known(rs, decided);
    lemma_chain_fills(s, me, chain);
    assert forall|i: int| 0 <= i < chain.len() implies reaches(
        rs.tree,
        decided,
        #[trigger] chain[i],
    ) by {
        let j = up.len() - 1 - i;
        assert(chain[i] == up[j]);
        lemma_walk_is_path(rs.tree, rs.last_executed_height, decided, n, j);
        assert(ancestor(rs.tree, decided, j as nat) == Some(chain[i]));
    }
}

/// What has been committed at an executed height stays.
proof fn lemma_committed_stays(s: Sys, me: Me, order: Seq<[u8; 32]>, w: u64)
    requires
        s.local.rs.last_executed_height >= -1,
        w <= s.local.rs.last_executed_height,
        s.local.rs.committed_at_height.contains_key(w),
    ensures
        ({
            let a = s.local.rs;
            let b = execute_steps(s, me, order).0.local.rs;
            &&& a.last_executed_height <= b.last_executed_height
            &&& b.committed_at_height.contains_key(w)
            &&& b.committed_at_height[w] == a.committed_at_height[w]
        }),
    decreases order.len(),
{
    if order.len() > 0 {
        lemma_chain_known(s.local.rs, order[0]);
        lemma_chain_fills(s, me, chain_of(s.local.rs, order[0]));
        let s1 = execute_step(s, me, order[0]).0;
        assert(s1.local.rs.committed_at_height.contains_key(w));
        lemma_committed_stays(s1, me, order.skip(1), w);
    }
}

proof fn lemma_next_is_executed(s: Sys, me: Me, order: Seq<[u8; 32]>, d: [u8; 32])
    requires
        s.local.rs.last_executed_height >= -1,
        s.local.rs.tree.dom().finite(),
        path_with(s.local.rs.tree, d, order),
        order.contains(d),
        can_go_on(s.local.rs, d),
        execute_steps(s, me, order).1 is None,
    ensures
        goes_on(s.local.rs, d, execute_steps(s, me, order).0.local.rs),
    decreases order.len(),
{
    let rs = s.local.rs;
    let b = order[0];
    lemma_path_rest(rs.tree, d, order);
    let rest = order.skip(1);
    if chain_of(rs, b).len() == 0 {
        let i = choose|i: int| 0 <= i < order.len() && order[i] == d;
        assert(rest[i - 1] == d);
        lemma_next_is_executed(s, me, rest, d);
    } else {
        if reaches(rs.tree, d, b) {
            lemma_same_start(rs, d, b);
        } else {
            lemma_same_start(rs, b, d);
        }
        let h = chain_of(rs, d)[0];
        let chain = chain_of(rs, b);
        lemma_chain_known(rs, b);
        assert(rs.tree.contains_key(chain[0]));
        let s1 = execute_node(s, h).0;
        assert(execute_step(s, me, b) == apply_chain(s1, me, chain.skip(1)));
        lemma_chain_grows(s1, me, chain.skip(1));
        lemma_chain_fills(s, me, chain);
        let s2 = execute_step(s, me, b).0;
        assert(s2.local.rs.committed_at_height[rs.tree[chain[0]].height] == chain[0]);
        lemma_committed_stays(s2, me, rest, rs.tree[h].height);
    }
}

/// Whether the next node to execute for a decision on `d` is valid and next in
/// height.
pub open spec fn can_go_on(rs: Replica, d: [u8; 32]) -> bool {
    let chain = chain_of(rs, d);
    &&& chain.len() > 0
    &&& rs.tree[chain[0]].height == rs.last_executed_height + 1
    &&& rs.validation_result.contains_key(chain[0])
    &&& rs.validation_result[chain[0]]
}

/// Whether the next node to execute for a decision on `d` in `a` has been
/// executed in `b`.
pub open spec fn goes_on(a: Replica, d: [u8; 32], b: Replica) -> bool {
    let h = chain_of(a, d)[0];
    &&& b.last_executed_height >= a.tree[h].height
    &&& b.committed_at_height.contains_key(a.tree[h].height)
    &&& b.committed_at_height[a.tree[h].height] == h
}

/// A late verdict is caught up. A decision on `d` waits for the verdict on the
/// next node to execute; once the verdict has come, and the node is valid, the
/// next try of all decisions executes the node. The decided nodes have to lie on
/// one path of rising heights.
pub proof fn law_late_verdict_is_caught_up(
    s: Sys,
    me: Me,
    o: Outcome,
    order: Seq<[u8; 32]>,
    d: [u8; 32],
)
    requires
        s.local.rs.last_executed_height >= -1,
        s.local.rs.tree.dom().finite(),
        all_rise(s.local.rs),
        one_path(s.local.rs),
        s.local.rs.decided_nodes.contains_key(d),
        chain_of(s.local.rs, d).len() > 0,
        s.local.rs.tree[chain_of(s.local.rs, d)[0]].height == s.local.rs.last_executed_height + 1,
        o.node_hash == chain_of(s.local.rs, d)[0],
        o.valid,
        enumerates(order, s.local.rs.decided_nodes),
        execute_steps(
            Sys { local: s.local.with(outcome_step(s.local.rs, o)), ..s },
            me,
            order,
        ).1 is None,
    ensures
        goes_on(
            s.local.rs,
            d,
            execute_steps(
                Sys { local: s.local.with(outcome_step(s.local.rs, o)), ..s },
                me,
                order,
            ).0.local.rs,
        ),
{
    let rs = outcome_step(s.local.rs, o);
    let s1 = Sys { local: s.local.with(rs), ..s };
    assert(chain_of(rs, d) == chain_of(s.local.rs, d));
    lemma_decided_path(rs, order, d);
    assert(order.contains(d));
    lemma_next_is_executed(s1, me, order, d);
}

/// The verified proofs chain: a node is executed only if its proof starts from
/// the state root that the chain has reached, and then the chain reaches the
/// root that its proof ends with. The first block may start from any root.
pub proof fn law_roots_chain(s: Sys, h: [u8; 32])
    requires
        s.local.rs.pre_root_by_node.contains_key(h),
        s.local.rs.post_root_by_node.contains_key(h),
    ensures
        execute_node(s, h).1 is None <==> (s.local.rs.tree[h].height == 0
            || s.local.rs.pre_root_by_node[h] == s.root),
        execute_node(s, h).1 is None ==> execute_node(s, h).0.root
            == s.local.rs.post_root_by_node[h],
        execute_node(s, h).1 is Some ==> execute_node(s, h).0.root == s.root,
{
}

} // verus!
