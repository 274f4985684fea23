//! What each step of the protocol does, as functions on mathematical models.
//!
//! A step takes what the replica knows and has asked for ([`Local`]) to what
//! it knows and has asked for afterwards. Steps that touch the ledger work on
//! a [`Sys`]. A step that meets a fault says so, and leaves the replica as it
//! was at that point.

use crate::action::{Effect, Event, Fault, SkipReason, Warning};
use crate::consensus::qc::{certified, forms};
use crate::messages::{genesis, hash_of, signs_vote, vote_signature, Cert, Msg, MsgType, Node};
use crate::state::{reaches, safe, Replica, Round};
use crate::validator::{Mode, Outcome, Request};
use crate::workload::{Block, Work};
use vstd::prelude::*;

verus! {

/// Who the replica is, the workload that it runs, and how it validates blocks.
#[verifier::ext_equal]
pub struct Me {
    pub id: u32,
    pub sk: [u8; 32],
    pub base_ms: u64,
    pub work: Work,
    pub mode: Mode,
}

/// A replica and what it has asked its surroundings to do.
#[verifier::ext_equal]
pub struct Local {
    pub rs: Replica,
    pub out: Seq<Effect>,
}

impl Local {
    /// With one more effect.
    pub open spec fn emit(self, e: Effect) -> Local {
        Local { out: self.out.push(e), ..self }
    }

    /// With one more event in the log.
    pub open spec fn log(self, view: u64, event: Event) -> Local {
        self.emit(Effect::Log { view, event })
    }

    /// With one more warning.
    pub open spec fn warn(self, warning: Warning) -> Local {
        self.emit(Effect::Warn { warning })
    }

    /// With another state of the replica.
    pub open spec fn with(self, rs: Replica) -> Local {
        Local { rs, ..self }
    }

    /// With another record of `view`.
    pub open spec fn with_round(self, view: u64, round: Round) -> Local {
        self.with(self.rs.with_round(view, round))
    }

    /// With a record of `view`, be it empty.
    pub open spec fn touched(self, view: u64) -> Local {
        self.with(self.rs.touched(view))
    }
}

/// A replica with its ledger: the live state, and the state root that the
/// chain of verified proofs has reached.
#[verifier::ext_equal]
pub struct Sys {
    pub local: Local,
    pub live: Map<u32, u64>,
    pub root: [u8; 32],
}

// ---- Validation and execution ----

/// The state that goes with the block of `node` to validation, the state after
/// its parent: the live state where the parent is at the last executed height,
/// the state kept with the parent where that is higher. `None` where it is not
/// at hand: the parent has not been validated yet, or later blocks have been
/// executed. A proof can be verified in the latter case too, as no state is
/// needed for it.
pub open spec fn validation_input(
    rs: Replica,
    mode: Mode,
    node: Node,
    live: Map<u32, u64>,
) -> Option<Map<u32, u64>> {
    if node.parent == genesis() {
        if rs.last_executed_height >= 0 {
            None
        } else {
            Some(live)
        }
    } else if !rs.tree.contains_key(node.parent) {
        None
    } else if (rs.tree[node.parent].height as i64) < rs.last_executed_height {
        match mode {
            Mode::Reexecute => None,
            Mode::Verify => Some(live),
        }
    } else if (rs.tree[node.parent].height as i64) == rs.last_executed_height {
        Some(live)
    } else if rs.post_state_by_node.contains_key(node.parent) {
        Some(rs.post_state_by_node[node.parent])
    } else {
        None
    }
}

/// The request to validate the block of a node.
pub open spec fn request_for(h: [u8; 32], node: Node, block: Block) -> Request {
    Request {
        node_hash: h,
        height: node.height,
        cmd: block.cmd,
        txs_path: block.txs_path,
        proof_path: block.proof_path,
        txs_total: block.txs_total,
    }
}

/// Asks for the validation of the node `h`, unless it has been validated, is
/// being validated, is not known, does not carry the command of its block, or
/// has to wait for its parent.
pub open spec fn kick_step(l: Local, me: Me, live: Map<u32, u64>, h: [u8; 32]) -> (
    Local,
    Option<Fault>,
) {
    let rs = l.rs;
    if rs.validation_result.contains_key(h) || rs.in_flight.contains_key(h)
        || !rs.tree.contains_key(h) {
        (l, None)
    } else {
        let node = rs.tree[h];
        if node.height >= me.work.blocks.len() {
            (l, Some(Fault::NoBlock { height: node.height }))
        } else {
            let block = me.work.blocks[node.height as int];
            if block.cmd != node.cmd {
                (l.warn(Warning::CmdMismatch { height: node.height }), None)
            } else {
                match validation_input(rs, me.mode, node, live) {
                    None => (l, None),
                    Some(input) => (
                        l.with(
                            Replica {
                                pending_validation: Some(h),
                                in_flight: rs.in_flight.insert(h, ()),
                                ..rs
                            },
                        ).emit(
                            Effect::Validate { req: request_for(h, node, block), input },
                        ).log(rs.view, Event::ValidateStart { height: node.height }),
                        None,
                    ),
                }
            }
        }
    }
}

/// Asks for the validation of the nodes of `order` in turn, while none is
/// being validated.
pub open spec fn kick_steps(
    l: Local,
    me: Me,
    live: Map<u32, u64>,
    order: Seq<[u8; 32]>,
) -> (Local, Option<Fault>)
    decreases order.len(),
{
    if order.len() == 0 || l.rs.pending_validation is Some {
        (l, None)
    } else {
        let (l1, fault) = kick_step(l, me, live, order[0]);
        if fault is Some {
            (l1, fault)
        } else {
            kick_steps(l1, me, live, order.skip(1))
        }
    }
}

/// Whether the heights of a tree are in order, and signed 64-bit numbers.
pub open spec fn ordered(tree: Map<[u8; 32], Node>) -> bool {
    &&& !tree.contains_key(genesis())
    &&& forall|h: [u8; 32]| #[trigger]
        tree.contains_key(h) ==> {
            &&& tree[h].height <= i64::MAX
            &&& tree[h].parent == genesis() ==> tree[h].height == 0
            &&& tree.contains_key(tree[h].parent) ==> tree[h].height == tree[tree[h].parent].height
                + 1
        }
}

/// Whether the heights rise towards the node `from`: each node at or above it
/// is higher than its parent, compared as signed numbers. Nothing is above
/// genesis, which is no node of the tree.
pub open spec fn rises(tree: Map<[u8; 32], Node>, from: [u8; 32]) -> bool {
    &&& from == genesis() ==> !tree.contains_key(from)
    &&& forall|h: [u8; 32]| #[trigger]
        reaches(tree, from, h) && h != genesis() && tree.contains_key(h) && tree[h].parent
            != genesis() && tree.contains_key(tree[h].parent) ==> (
        tree[tree[h].parent].height as i64) < (tree[h].height as i64)
}

/// The nodes from `cur` upwards that have not been executed: `cur`, its
/// parent, and so on, up to the first that is not known, has been executed,
/// or is a child of genesis; and no more than `fuel` of them.
pub open spec fn unexecuted(
    tree: Map<[u8; 32], Node>,
    last: i64,
    cur: [u8; 32],
    fuel: nat,
) -> Seq<[u8; 32]>
    decreases fuel,
{
    if fuel == 0 || !tree.contains_key(cur) || (tree[cur].height as i64) <= last {
        Seq::empty()
    } else if tree[cur].parent == genesis() {
        seq![cur]
    } else {
        seq![cur] + unexecuted(tree, last, tree[cur].parent, (fuel - 1) as nat)
    }
}

/// The nodes that a decision on `decided` has to execute, parents first.
pub open spec fn chain_of(rs: Replica, decided: [u8; 32]) -> Seq<[u8; 32]> {
    unexecuted(rs.tree, rs.last_executed_height, decided, rs.tree.dom().len()).reverse()
}

/// Executes the node `h`, which is valid and next in height.
pub open spec fn execute_node(s: Sys, h: [u8; 32]) -> (Sys, Option<Fault>) {
    let rs = s.local.rs;
    let height = rs.tree[h].height;
    let (live, posts) = if rs.post_state_by_node.contains_key(h) {
        (rs.post_state_by_node[h], rs.post_state_by_node.remove(h))
    } else {
        (s.live, rs.post_state_by_node)
    };
    let rs1 = Replica { post_state_by_node: posts, ..rs };
    if rs.pre_root_by_node.contains_key(h) && height > 0 && rs.pre_root_by_node[h] != s.root {
        (
            Sys { local: s.local.with(rs1), live, root: s.root },
            Some(Fault::ChainBreak { height, pre: rs.pre_root_by_node[h], expected: s.root }),
        )
    } else {
        let chained = rs.pre_root_by_node.contains_key(h) && rs.post_root_by_node.contains_key(h);
        let root = if chained {
            rs.post_root_by_node[h]
        } else {
            s.root
        };
        let roots = if chained {
            rs.post_root_by_node.remove(h)
        } else {
            rs.post_root_by_node
        };
        let rs2 = Replica {
            post_root_by_node: roots,
            last_executed_height: height as i64,
            committed_at_height: rs.committed_at_height.insert(height, h),
            ..rs1
        };
        (
            Sys {
                local: s.local.with(rs2).log(rs.view, Event::Execute { height, node_hash: h }),
                live,
                root,
            },
            None,
        )
    }
}

/// Executes the nodes of `chain` in turn, as long as each is next in height
/// and valid. A node that has not been validated yet is handed to validation.
pub open spec fn apply_chain(s: Sys, me: Me, chain: Seq<[u8; 32]>) -> (Sys, Option<Fault>)
    decreases chain.len(),
{
    if chain.len() == 0 {
        (s, None)
    } else {
        let h = chain[0];
        let rs = s.local.rs;
        let height = rs.tree[h].height;
        if (height as i64) as int != rs.last_executed_height + 1 {
            (s, None)
        } else if !rs.validation_result.contains_key(h) {
            let (l, fault) = kick_step(s.local, me, s.live, h);
            (Sys { local: l, ..s }, fault)
        } else if !rs.validation_result[h] {
            (Sys { local: s.local.warn(Warning::ExecuteInvalid { height }), ..s }, None)
        } else {
            let (s1, fault) = execute_node(s, h);
            if fault is Some {
                (s1, fault)
            } else {
                apply_chain(s1, me, chain.skip(1))
            }
        }
    }
}

/// Executes what a decision on `decided` commits, as far as possible.
pub open spec fn execute_step(s: Sys, me: Me, decided: [u8; 32]) -> (Sys, Option<Fault>) {
    apply_chain(s, me, chain_of(s.local.rs, decided))
}

/// Executes what the decisions on the nodes of `order` commit.
pub open spec fn execute_steps(s: Sys, me: Me, order: Seq<[u8; 32]>) -> (Sys, Option<Fault>)
    decreases order.len(),
{
    if order.len() == 0 {
        (s, None)
    } else {
        let (s1, fault) = execute_step(s, me, order[0]);
        if fault is Some {
            (s1, fault)
        } else {
            execute_steps(s1, me, order.skip(1))
        }
    }
}

/// `order` lists the digests that `m` has a value for, each once.
pub open spec fn enumerates<V>(order: Seq<[u8; 32]>, m: Map<[u8; 32], V>) -> bool {
    &&& order.no_duplicates()
    &&& forall|k: [u8; 32]| order.contains(k) <==> #[trigger] m.contains_key(k)
}

// ---- View changes ----

/// Leaves the current view for `new_view`: NEW-VIEW to the next leader, and
/// the timer of the new view.
pub open spec fn new_view_step(l: Local, me: Me, new_view: u64) -> Local {
    let prev = l.rs.view;
    let next_leader = l.rs.leader(new_view);
    let l1 = l.with(Replica { view: new_view, ..l.rs }).log(
        new_view,
        Event::ViewStart { leader: next_leader, timeout_ms: l.rs.timeout_interval_ms },
    );
    let l2 = if next_leader == me.id {
        let r = l1.rs.round(prev);
        l1.with_round(
            prev,
            Round { new_view_msgs: r.new_view_msgs.insert(me.id, l.rs.prepare_qc), ..r },
        )
    } else {
        l1.emit(
            Effect::SendTo {
                peer: next_leader,
                msg: Msg::NewView { view: prev, justify: l.rs.prepare_qc, sender: me.id },
            },
        )
    };
    l2.log(new_view, Event::NewViewSend { to: next_leader, from_view: prev }).emit(
        Effect::ArmTimer { view: new_view, ms: l.rs.timeout_interval_ms },
    )
}

/// The replica starts: it leaves view 0 for view 1.
pub open spec fn start_step(l: Local, me: Me) -> Local {
    new_view_step(l.with(Replica { view: 0, ..l.rs }), me, 1)
}

/// Twice `ms`, or the largest number where that is too much.
pub open spec fn doubled(ms: u64) -> u64 {
    if 2 * ms <= u64::MAX {
        (2 * ms) as u64
    } else {
        u64::MAX
    }
}

/// The timer of `view` runs out.
pub open spec fn timer_step(l: Local, me: Me, view: u64) -> Local {
    if view != l.rs.view || l.rs.round(view).seen_decide_qc {
        l
    } else {
        new_view_step(
            l.log(view, Event::NextView).with(
                Replica { timeout_interval_ms: doubled(l.rs.timeout_interval_ms), ..l.rs },
            ),
            me,
            (view + 1) as u64,
        )
    }
}

/// A validation has finished.
pub open spec fn outcome_step(rs: Replica, o: Outcome) -> Replica {
    Replica {
        validation_result: rs.validation_result.insert(o.node_hash, o.valid),
        post_state_by_node: match o.post_state {
            Some(s) => rs.post_state_by_node.insert(o.node_hash, s),
            None => rs.post_state_by_node,
        },
        post_root_by_node: match o.post_root {
            Some(r) => rs.post_root_by_node.insert(o.node_hash, r),
            None => rs.post_root_by_node,
        },
        pre_root_by_node: match o.pre_root {
            Some(r) => rs.pre_root_by_node.insert(o.node_hash, r),
            None => rs.pre_root_by_node,
        },
        in_flight: rs.in_flight.remove(o.node_hash),
        pending_validation: if rs.pending_validation == Some(o.node_hash) {
            None
        } else {
            rs.pending_validation
        },
        ..rs
    }
}

// ---- PREPARE ----

/// The view of a certificate, zero where there is none.
pub open spec fn cert_view(q: Option<Cert>) -> u64 {
    match q {
        Some(c) => c.view,
        None => 0,
    }
}

/// The node of a certificate, genesis where there is none.
pub open spec fn cert_node(q: Option<Cert>) -> [u8; 32] {
    match q {
        Some(c) => c.node_hash,
        None => genesis(),
    }
}

/// The view before `v`; view 0 comes before itself.
pub open spec fn view_before(v: u64) -> u64 {
    if v == 0 {
        0
    } else {
        (v - 1) as u64
    }
}

/// `high` is the prepareQC of the highest view among the NEW-VIEW messages
/// `msgs`, or none where they carry none. Of several prepareQCs of that view it
/// is the one of the lowest sender.
pub open spec fn is_highest(msgs: Map<u32, Option<Cert>>, high: Option<Cert>) -> bool {
    match high {
        Some(q) => exists|from: u32| #[trigger] ranks_first(msgs, from) && msgs[from] == Some(q),
        None => forall|k: u32| #[trigger] msgs.contains_key(k) ==> msgs[k] is None,
    }
}

/// Whether no other message carries a prepareQC of a higher view than that of
/// `from`, nor a lower sender's one of the same view.
pub open spec fn ranks_first(msgs: Map<u32, Option<Cert>>, from: u32) -> bool {
    &&& msgs.contains_key(from)
    &&& msgs[from] is Some
    &&& forall|k: u32|
        (#[trigger] msgs.contains_key(k) && msgs[k] is Some) ==> {
            ||| msgs[k]->0.view < msgs[from]->0.view
            ||| msgs[k]->0.view == msgs[from]->0.view && from <= k
        }
}

/// The NEW-VIEW messages on which the leader of the current view builds.
pub open spec fn collected(rs: Replica) -> Map<u32, Option<Cert>> {
    rs.round(view_before(rs.view)).new_view_msgs
}

/// Whether the replica, as the leader of its view, has to propose now.
pub open spec fn proposal_due(rs: Replica, id: u32) -> bool {
    &&& rs.leader(rs.view) == id
    &&& !rs.round(rs.view).broadcast_proposal
    &&& collected(rs).dom().len() >= rs.quorum
}

/// The height of a new node on top of the certificate `high`, where its node
/// is known.
pub open spec fn leaf_height(rs: Replica, high: Option<Cert>) -> Option<nat> {
    match high {
        Some(q) => if rs.tree.contains_key(q.node_hash) {
            Some((rs.tree[q.node_hash].height + 1) as nat)
        } else {
            None
        },
        None => Some(0),
    }
}

/// The node that a leader proposes at `height` on top of `high`.
pub open spec fn leaf_of(work: Work, high: Option<Cert>, height: nat) -> Node {
    Node {
        parent: cert_node(high),
        cmd: work.blocks[height as int].cmd,
        height: height as u64,
    }
}

/// Broadcasts the proposal of the node `leaf`, whose hash is `h`.
pub open spec fn announce(
    l: Local,
    me: Me,
    high: Option<Cert>,
    leaf: Node,
    h: [u8; 32],
) -> Local {
    let v = l.rs.view;
    let r = l.rs.round(v);
    l.with(Replica { tree: l.rs.tree.insert(h, leaf), ..l.rs }).log(
        v,
        Event::ProposeSend {
            leaf_hash: h,
            leaf_height: leaf.height,
            high_qc_view: cert_view(high),
        },
    ).emit(
        Effect::Broadcast {
            msg: Msg::Proposal { view: v, node: leaf, justify: high, sender: me.id },
        },
    ).with_round(
        v,
        Round {
            proposal: if r.proposal is None {
                Some((leaf, high))
            } else {
                r.proposal
            },
            broadcast_proposal: true,
            ..r
        },
    )
}

/// Proposes the node `leaf`, whose hash is `h`, and asks for its validation.
pub open spec fn propose_step(
    l: Local,
    me: Me,
    live: Map<u32, u64>,
    high: Option<Cert>,
    leaf: Node,
    h: [u8; 32],
) -> (Local, Option<Fault>) {
    kick_step(announce(l, me, high, leaf, h), me, live, h)
}

/// The hash of the node that a leader proposes on top of `high`.
pub open spec fn leaf_hash(rs: Replica, work: Work, high: Option<Cert>) -> [u8; 32] {
    match leaf_height(rs, high) {
        Some(height) => hash_of(leaf_of(work, high, height)),
        None => genesis(),
    }
}

/// The leader proposes a node on top of `high`, whose hash is `h`, unless the
/// workload is exhausted.
pub open spec fn propose_on_step(
    l: Local,
    me: Me,
    live: Map<u32, u64>,
    high: Option<Cert>,
    h: [u8; 32],
) -> (Local, Option<Fault>) {
    match leaf_height(l.rs, high) {
        None => (l.warn(Warning::HighQcNodeUnknown), None),
        Some(height) => if height >= me.work.num_blocks {
            (l, None)
        } else if height >= me.work.blocks.len() {
            (l, Some(Fault::NoBlock { height: height as u64 }))
        } else {
            propose_step(l, me, live, high, leaf_of(me.work, high, height), h)
        },
    }
}

/// The leader proposes a node on top of `high`, whose hash is `h`, if a quorum
/// has left the view before and it has not proposed yet.
pub open spec fn leader_prepare_step(
    l: Local,
    me: Me,
    live: Map<u32, u64>,
    high: Option<Cert>,
    h: [u8; 32],
) -> (Local, Option<Fault>) {
    let v = l.rs.view;
    if l.rs.leader(v) != me.id {
        (l, None)
    } else if !proposal_due(l.rs, me.id) {
        (l.touched(v), None)
    } else {
        propose_on_step(l.touched(v), me, live, high, h)
    }
}

/// Sends a vote to the leader of the view, or counts it where the replica is
/// the leader itself.
pub open spec fn cast(
    l: Local,
    me: Me,
    msg_type: MsgType,
    h: [u8; 32],
    sig: Seq<u8>,
) -> Local {
    let v = l.rs.view;
    let leader = l.rs.leader(v);
    if leader == me.id {
        l.with_round(v, with_vote(l.rs.round(v), msg_type, me.id, h, sig))
    } else {
        l.emit(
            Effect::SendTo {
                peer: leader,
                msg: Msg::Vote { msg_type, view: v, node_hash: h, voter: me.id, partial_sig: sig },
            },
        )
    }
}

/// The votes of a phase.
pub open spec fn votes_of(r: Round, msg_type: MsgType) -> Map<u32, ([u8; 32], Seq<u8>)> {
    match msg_type {
        MsgType::Prepare => r.prepare_votes,
        MsgType::PreCommit => r.precommit_votes,
        MsgType::Commit => r.commit_votes,
        _ => Map::empty(),
    }
}

/// The record of a view with one more vote.
pub open spec fn with_vote(
    r: Round,
    msg_type: MsgType,
    voter: u32,
    h: [u8; 32],
    sig: Seq<u8>,
) -> Round {
    match msg_type {
        MsgType::Prepare => Round { prepare_votes: r.prepare_votes.insert(voter, (h, sig)), ..r },
        MsgType::PreCommit => Round {
            precommit_votes: r.precommit_votes.insert(voter, (h, sig)),
            ..r
        },
        MsgType::Commit => Round { commit_votes: r.commit_votes.insert(voter, (h, sig)), ..r },
        _ => r,
    }
}

/// Whether the replica has voted in a phase.
pub open spec fn voted(r: Round, msg_type: MsgType) -> bool {
    match msg_type {
        MsgType::Prepare => r.voted_prepare,
        MsgType::PreCommit => r.voted_precommit,
        MsgType::Commit => r.voted_commit,
        _ => false,
    }
}

/// The record of a view after the replica has voted in a phase.
pub open spec fn with_voted(r: Round, msg_type: MsgType) -> Round {
    match msg_type {
        MsgType::Prepare => Round { voted_prepare: true, ..r },
        MsgType::PreCommit => Round { voted_precommit: true, ..r },
        MsgType::Commit => Round { voted_commit: true, ..r },
        _ => r,
    }
}

/// Marks the current view as voted in for a phase.
pub open spec fn mark_voted(l: Local, msg_type: MsgType) -> Local {
    l.with_round(l.rs.view, with_voted(l.rs.round(l.rs.view), msg_type))
}

/// The log entry of a vote.
pub open spec fn vote_event(msg_type: MsgType, h: [u8; 32]) -> Event {
    match msg_type {
        MsgType::PreCommit => Event::PreCommitVoteSend { node_hash: h },
        MsgType::Commit => Event::CommitVoteSend { node_hash: h },
        _ => Event::PrepareVoteSend { leaf_hash: h },
    }
}

/// Votes in a phase of the current view.
pub open spec fn vote_out_step(
    l: Local,
    me: Me,
    msg_type: MsgType,
    h: [u8; 32],
    sig: Seq<u8>,
) -> Local {
    mark_voted(cast(l, me, msg_type, h, sig), msg_type).log(l.rs.view, vote_event(msg_type, h))
}

/// The hash of the node that is proposed in the current view.
pub open spec fn proposed_hash(rs: Replica) -> [u8; 32] {
    hash_of((rs.round(rs.view).proposal->0).0)
}

/// The replica votes PREPARE for the proposal of its view, once its block has
/// been validated: only if the block is valid and the node is safe. `h` is
/// the hash of the proposed node and `sig` the signature of the vote.
pub open spec fn replica_prepare_step(l: Local, me: Me, h: [u8; 32], sig: Seq<u8>) -> Local {
    let v = l.rs.view;
    let r = l.rs.round(v);
    match r.proposal {
        None => l,
        Some(p) => if r.voted_prepare || !l.rs.validation_result.contains_key(h) {
            l
        } else if !l.rs.validation_result[h] {
            mark_voted(l, MsgType::Prepare).log(
                v,
                Event::PrepareSkip { reason: SkipReason::ValidFalse },
            )
        } else if !safe(h, p.0, p.1, l.rs.locked_qc, l.rs.tree) {
            mark_voted(l, MsgType::Prepare).log(
                v,
                Event::PrepareSkip { reason: SkipReason::SafeNodeFalse },
            )
        } else {
            vote_out_step(l, me, MsgType::Prepare, h, sig)
        },
    }
}

// ---- PRE-COMMIT, COMMIT, DECIDE ----

/// The phase whose certificate a phase is opened with.
pub open spec fn phase_before(phase: MsgType) -> MsgType {
    match phase {
        MsgType::PreCommit => MsgType::Prepare,
        MsgType::Commit => MsgType::PreCommit,
        MsgType::Decide => MsgType::Commit,
        _ => MsgType::NewView,
    }
}

/// Whether `phase` is opened with a certificate.
pub open spec fn is_qc_phase(phase: MsgType) -> bool {
    phase == MsgType::PreCommit || phase == MsgType::Commit || phase == MsgType::Decide
}

/// Whether the certificate that opens `phase` has been seen.
pub open spec fn seen(r: Round, phase: MsgType) -> bool {
    match phase {
        MsgType::PreCommit => r.seen_pre_commit_qc,
        MsgType::Commit => r.seen_commit_qc,
        MsgType::Decide => r.seen_decide_qc,
        _ => false,
    }
}

/// The record of a view after the certificate that opens `phase` was seen.
pub open spec fn with_seen(r: Round, phase: MsgType) -> Round {
    match phase {
        MsgType::PreCommit => Round { seen_pre_commit_qc: true, ..r },
        MsgType::Commit => Round { seen_commit_qc: true, ..r },
        MsgType::Decide => Round { seen_decide_qc: true, ..r },
        _ => r,
    }
}

/// Whether the leader has broadcast the certificate that opens `phase`.
pub open spec fn opened(r: Round, phase: MsgType) -> bool {
    match phase {
        MsgType::PreCommit => r.broadcast_pre_commit,
        MsgType::Commit => r.broadcast_commit,
        MsgType::Decide => r.broadcast_decide,
        _ => false,
    }
}

/// The record of a view after the leader has opened `phase`.
pub open spec fn with_opened(r: Round, phase: MsgType) -> Round {
    match phase {
        MsgType::PreCommit => Round { broadcast_pre_commit: true, ..r },
        MsgType::Commit => Round { broadcast_commit: true, ..r },
        MsgType::Decide => Round { broadcast_decide: true, ..r },
        _ => r,
    }
}

/// The certificates that open `phase`, by view.
pub open spec fn staged(rs: Replica, phase: MsgType) -> Map<u64, Cert> {
    match phase {
        MsgType::PreCommit => rs.staged_pre_commit_qc,
        MsgType::Commit => rs.staged_commit_qc,
        MsgType::Decide => rs.staged_decide_qc,
        _ => Map::empty(),
    }
}

/// The replica with the certificate `q` for `phase` in `view`.
pub open spec fn with_staged(rs: Replica, phase: MsgType, view: u64, q: Cert) -> Replica {
    match phase {
        MsgType::PreCommit => Replica {
            staged_pre_commit_qc: rs.staged_pre_commit_qc.insert(view, q),
            ..rs
        },
        MsgType::Commit => Replica { staged_commit_qc: rs.staged_commit_qc.insert(view, q), ..rs },
        MsgType::Decide => Replica { staged_decide_qc: rs.staged_decide_qc.insert(view, q), ..rs },
        _ => rs,
    }
}

/// Whether the leader of `rs`, if it is `id`, has yet to open `phase`.
pub open spec fn opens_next(rs: Replica, id: u32, phase: MsgType) -> bool {
    rs.leader(rs.view) == id && !opened(rs.round(rs.view), phase)
}

/// Whether `q` is what the leader may open `phase` with: a certificate of the
/// votes of the phase before, or none where no node has a quorum of them.
pub open spec fn may_open(rs: Replica, id: u32, phase: MsgType, q: Option<Cert>) -> bool {
    opens_next(rs, id, phase) ==> forms(
        votes_of(rs.round(rs.view), phase_before(phase)),
        phase_before(phase),
        rs.view,
        rs.quorum,
        q,
    )
}

/// The leader opens `phase` with the certificate `q`, if it could be formed
/// and has not been broadcast.
pub open spec fn leader_phase_step(l: Local, me: Me, phase: MsgType, q: Option<Cert>) -> Local {
    let v = l.rs.view;
    if l.rs.leader(v) != me.id {
        l
    } else if opened(l.rs.round(v), phase) {
        l.touched(v)
    } else {
        match q {
            None => l.touched(v),
            Some(cert) => {
                let l1 = l.touched(v).log(
                    v,
                    Event::PhaseQcSend { phase, node_hash: cert.node_hash },
                ).emit(
                    Effect::Broadcast {
                        msg: Msg::PhaseQc {
                            msg_type: phase,
                            view: v,
                            justify: cert,
                            sender: me.id,
                        },
                    },
                );
                let r = with_opened(l.rs.round(v), phase);
                if seen(r, phase) {
                    l1.with_round(v, r)
                } else {
                    l1.with(
                        with_staged(l1.rs.with_round(v, with_seen(r, phase)), phase, v, cert),
                    )
                }
            },
        }
    }
}

/// The signature of the replica's vote in `phase` of its view.
pub open spec fn phase_signature(rs: Replica, me: Me, phase: MsgType) -> Seq<u8> {
    vote_signature(me.sk, phase, rs.view, staged(rs, phase)[rs.view].node_hash)
}

/// The replica votes in `phase` (PRE-COMMIT or COMMIT) of its view, once its
/// certificate has come, and remembers the certificate: as prepareQC in
/// PRE-COMMIT, as lockedQC in COMMIT. `sig` is the signature of the vote.
pub open spec fn replica_phase_step(l: Local, me: Me, phase: MsgType, sig: Seq<u8>) -> Local {
    let v = l.rs.view;
    let r = l.rs.round(v);
    let l1 = l.touched(v);
    if !seen(r, phase) || voted(r, phase) || !staged(l.rs, phase).contains_key(v) {
        l1
    } else {
        let q = staged(l.rs, phase)[v];
        let rs = if phase == MsgType::PreCommit {
            Replica { prepare_qc: Some(q), ..l1.rs }
        } else {
            Replica { locked_qc: Some(q), ..l1.rs }
        };
        vote_out_step(l1.with(rs), me, phase, q.node_hash, sig)
    }
}

/// The replica executes what its view decided and enters the next view.
pub open spec fn replica_decide_step(s: Sys, me: Me) -> (Sys, Option<Fault>) {
    let l = s.local;
    let v = l.rs.view;
    let l1 = l.touched(v);
    if !l.rs.round(v).seen_decide_qc || !l.rs.staged_decide_qc.contains_key(v) {
        (Sys { local: l1, ..s }, None)
    } else {
        let q = l.rs.staged_decide_qc[v];
        let l2 = l1.with(
            Replica { decided_nodes: l1.rs.decided_nodes.insert(q.node_hash, q), ..l1.rs },
        );
        let (s3, fault) = execute_step(Sys { local: l2, ..s }, me, q.node_hash);
        if fault is Some {
            (s3, fault)
        } else {
            let l4 = s3.local.log(v, Event::ViewDecide { node_hash: q.node_hash });
            let l5 = l4.with(Replica { timeout_interval_ms: me.base_ms, ..l4.rs });
            (Sys { local: new_view_step(l5, me, (v + 1) as u64), ..s3 }, None)
        }
    }
}

// ---- Messages ----

/// Keeps the node of a proposal, whose hash is `h`, and the proposal if it is
/// the first of its view.
pub open spec fn keep_proposal(
    l: Local,
    view: u64,
    node: Node,
    justify: Option<Cert>,
    sender: u32,
    h: [u8; 32],
) -> Local {
    let l1 = l.with(Replica { tree: l.rs.tree.insert(h, node), ..l.rs });
    let r = l.rs.round(view);
    if r.proposal is None {
        l1.with_round(view, Round { proposal: Some((node, justify)), ..r }).log(
            view,
            Event::ProposeRecv {
                leaf_hash: h,
                leaf_height: node.height,
                high_qc_view: cert_view(justify),
                sender,
            },
        )
    } else {
        l1.touched(view)
    }
}

/// A proposal comes in. `qc_ok` says whether a quorum signed its highQC, and
/// `h` is the hash of the proposed node.
pub open spec fn proposal_step(
    l: Local,
    me: Me,
    live: Map<u32, u64>,
    view: u64,
    node: Node,
    justify: Option<Cert>,
    sender: u32,
    qc_ok: bool,
    h: [u8; 32],
) -> (Local, Option<Fault>) {
    let expected = l.rs.leader(view);
    if sender != expected {
        (l.warn(Warning::ProposalNotFromLeader { sender, expected }), None)
    } else if justify is Some && !qc_ok {
        (l.warn(Warning::ProposalBadHighQc), None)
    } else if node.parent != cert_node(justify) {
        (l.warn(Warning::ProposalWrongParent), None)
    } else {
        kick_step(keep_proposal(l, view, node, justify, sender, h), me, live, h)
    }
}

/// A certificate comes in. `qc_ok` says whether a quorum signed it.
pub open spec fn phase_qc_step(
    l: Local,
    msg_type: MsgType,
    view: u64,
    justify: Cert,
    sender: u32,
    qc_ok: bool,
) -> Local {
    let expected = l.rs.leader(view);
    if sender != expected {
        l.warn(Warning::PhaseQcNotFromLeader { sender, expected })
    } else if !is_qc_phase(msg_type) {
        l.warn(Warning::PhaseQcBadType { msg_type })
    } else if justify.msg_type != phase_before(msg_type) || justify.view != view {
        l.warn(Warning::PhaseQcMismatch)
    } else if !qc_ok {
        l.warn(Warning::PhaseQcBadSigs)
    } else {
        let r = l.rs.round(view);
        if seen(r, msg_type) {
            l.touched(view)
        } else {
            let rs = with_staged(
                l.rs.with_round(view, with_seen(r, msg_type)),
                msg_type,
                view,
                justify,
            );
            l.with(
                if msg_type == MsgType::Decide {
                    Replica {
                        decided_nodes: rs.decided_nodes.insert(justify.node_hash, justify),
                        ..rs
                    }
                } else {
                    rs
                },
            ).log(view, Event::PhaseQcRecv { phase: msg_type })
        }
    }
}

/// A vote comes in. `known` says whether the voter's key is known, and
/// `sig_ok` whether the voter signed the vote.
pub open spec fn vote_step(
    l: Local,
    id: u32,
    msg_type: MsgType,
    view: u64,
    h: [u8; 32],
    voter: u32,
    sig: Seq<u8>,
    known: bool,
    sig_ok: bool,
) -> Local {
    if l.rs.leader(view) != id {
        l
    } else if !known {
        l.warn(Warning::VoteUnknownVoter { voter })
    } else if !sig_ok {
        l.warn(Warning::VoteBadSig { voter })
    } else {
        let r = l.rs.round(view);
        if msg_type == MsgType::NewView || msg_type == MsgType::Decide || votes_of(
            r,
            msg_type,
        ).contains_key(voter) {
            l.touched(view)
        } else {
            l.with_round(view, with_vote(r, msg_type, voter, h, sig)).log(
                view,
                Event::VoteRecv { phase: msg_type, voter },
            )
        }
    }
}

/// A NEW-VIEW message comes in. `qc_ok` says whether a quorum signed its
/// prepareQC.
pub open spec fn new_view_msg_step(
    l: Local,
    id: u32,
    view: u64,
    justify: Option<Cert>,
    sender: u32,
    qc_ok: bool,
) -> Local {
    if l.rs.leader((view + 1) as u64) != id {
        l
    } else if justify is Some && !qc_ok {
        l.warn(Warning::NewViewBadJustify)
    } else {
        let r = l.rs.round(view);
        if r.new_view_msgs.contains_key(sender) {
            l.touched(view)
        } else {
            l.with_round(
                view,
                Round { new_view_msgs: r.new_view_msgs.insert(sender, justify), ..r },
            ).log((view + 1) as u64, Event::NewViewRecv { from_view: view, sender })
        }
    }
}

/// A message comes in, and the replica knows the public keys `keys`.
pub open spec fn message_step(
    l: Local,
    me: Me,
    live: Map<u32, u64>,
    msg: Msg,
    keys: Map<u32, [u8; 32]>,
) -> (Local, Option<Fault>) {
    let quorum = l.rs.quorum;
    match msg {
        Msg::Hello { .. } => (l, None),
        Msg::Proposal { view, node, justify, sender } => proposal_step(
            l,
            me,
            live,
            view,
            node,
            justify,
            sender,
            justify is Some && certified(justify->0, quorum, keys),
            hash_of(node),
        ),
        Msg::PhaseQc { msg_type, view, justify, sender } => (
            phase_qc_step(l, msg_type, view, justify, sender, certified(justify, quorum, keys)),
            None,
        ),
        Msg::Vote { msg_type, view, node_hash, voter, partial_sig } => (
            vote_step(
                l,
                me.id,
                msg_type,
                view,
                node_hash,
                voter,
                partial_sig,
                keys.contains_key(voter),
                signs_vote(keys[voter], msg_type, view, node_hash, partial_sig),
            ),
            None,
        ),
        Msg::NewView { view, justify, sender } => (
            new_view_msg_step(
                l,
                me.id,
                view,
                justify,
                sender,
                justify is Some && certified(justify->0, quorum, keys),
            ),
            None,
        ),
    }
}

// ---- All rules in turn ----

/// What is left open in one pass over the rules: which of several highest
/// prepareQCs the leader builds on, which of several nodes with a quorum it
/// opens a phase with, and in which order nodes are executed and submitted to
/// validation.
pub struct Choices {
    pub high: Option<Cert>,
    pub pre_commit: Option<Cert>,
    pub commit: Option<Cert>,
    pub decide: Option<Cert>,
    pub decided: Seq<[u8; 32]>,
    pub nodes: Seq<[u8; 32]>,
}

/// The leader's rule of PREPARE.
pub open spec fn pass_propose(s: Sys, me: Me, c: Choices) -> (Local, Option<Fault>) {
    leader_prepare_step(s.local, me, s.live, c.high, leaf_hash(s.local.rs, me.work, c.high))
}

/// The replica's rule of PREPARE.
pub open spec fn pass_prepare(l: Local, me: Me) -> Local {
    let h = proposed_hash(l.rs);
    replica_prepare_step(l, me, h, vote_signature(me.sk, MsgType::Prepare, l.rs.view, h))
}

/// The replica's rule of PRE-COMMIT or COMMIT.
pub open spec fn pass_vote(l: Local, me: Me, phase: MsgType) -> Local {
    replica_phase_step(l, me, phase, phase_signature(l.rs, me, phase))
}

/// The rules up to the leader's rule of PRE-COMMIT.
pub open spec fn pass_pre_commit(l: Local, me: Me, c: Choices) -> Local {
    leader_phase_step(pass_prepare(l, me), me, MsgType::PreCommit, c.pre_commit)
}

/// The rules up to the leader's rule of COMMIT.
pub open spec fn pass_commit(l: Local, me: Me, c: Choices) -> Local {
    leader_phase_step(
        pass_vote(pass_pre_commit(l, me, c), me, MsgType::PreCommit),
        me,
        MsgType::Commit,
        c.commit,
    )
}

/// The rules up to the leader's rule of DECIDE.
pub open spec fn pass_decide(l: Local, me: Me, c: Choices) -> Local {
    leader_phase_step(
        pass_vote(pass_commit(l, me, c), me, MsgType::Commit),
        me,
        MsgType::Decide,
        c.decide,
    )
}

/// One pass over all rules, then over the decided nodes that have not been
/// executed, then over the nodes that have not been validated.
pub open spec fn advance(s: Sys, me: Me, c: Choices) -> (Sys, Option<Fault>) {
    let (l1, fault1) = pass_propose(s, me, c);
    if fault1 is Some {
        (Sys { local: l1, ..s }, fault1)
    } else {
        let (s2, fault2) = replica_decide_step(Sys { local: pass_decide(l1, me, c), ..s }, me);
        if fault2 is Some {
            (s2, fault2)
        } else {
            let (s3, fault3) = execute_steps(s2, me, c.decided);
            if fault3 is Some {
                (s3, fault3)
            } else {
                let (l4, fault4) = kick_steps(s3.local, me, s3.live, c.nodes);
                (Sys { local: l4, ..s3 }, fault4)
            }
        }
    }
}

/// Whether one pass over the rules can make the choices `c`.
pub open spec fn may_choose(s: Sys, me: Me, c: Choices) -> bool {
    let (l1, fault1) = pass_propose(s, me, c);
    let (s2, fault2) = replica_decide_step(Sys { local: pass_decide(l1, me, c), ..s }, me);
    let (s3, fault3) = execute_steps(s2, me, c.decided);
    &&& proposal_due(s.local.rs, me.id) ==> is_highest(collected(s.local.rs), c.high)
    &&& fault1 is None ==> {
        &&& may_open(pass_prepare(l1, me).rs, me.id, MsgType::PreCommit, c.pre_commit)
        &&& may_open(
            pass_vote(pass_pre_commit(l1, me, c), me, MsgType::PreCommit).rs,
            me.id,
            MsgType::Commit,
            c.commit,
        )
        &&& may_open(
            pass_vote(pass_commit(l1, me, c), me, MsgType::Commit).rs,
            me.id,
            MsgType::Decide,
            c.decide,
        )
        &&& fault2 is None ==> {
            &&& enumerates(c.decided, s2.local.rs.decided_nodes)
            &&& fault3 is None ==> enumerates(c.nodes, s3.local.rs.tree)
        }
    }
}

} // verus!
