//! Per-replica consensus state for Basic HotStuff.
//!
//! Variables follow the names of the protocol:
//!   - `view` (curView): never decreases.
//!   - `locked_qc` (lockedQC): set when the replica votes COMMIT.
//!   - `prepare_qc` (prepareQC): set when the replica votes PRE-COMMIT.
//!
//! Bookkeeping of one view ([`ViewData`]) holds what the replica has done
//! and seen in it, and the votes that it collects as a leader. The leader's
//! fields stay empty in views that another replica leads.

use crate::digest::same;
use crate::ledger::State;
use crate::messages::{
    genesis, genesis_hash, hash_of, node_hash, opt_cert, Cert, Node, QC,
};
use crate::table::DigestMap;
use std::collections::HashMap;
use vstd::prelude::*;

verus! {

/// Timer of a view. Timers of other views than the current one are stale.
#[derive(Clone, Copy, Debug, PartialEq, Eq, Structural)]
pub struct TimerEvent {
    pub view: u64,
}

/// What happened in one view.
pub struct ViewData {
    /// Leaf node and highQC of the leader's PREPARE broadcast.
    pub proposal: Option<(Node, Option<QC>)>,
    pub voted_prepare: bool,
    pub voted_precommit: bool,
    pub voted_commit: bool,
    pub seen_pre_commit_qc: bool,
    pub seen_commit_qc: bool,
    pub seen_decide_qc: bool,
    pub timer_armed: bool,
    /// NEW-VIEW messages that leave this view, by sender. They are collected
    /// by the leader of the next view.
    pub new_view_msgs: HashMap<u32, Option<QC>>,
    pub prepare_votes: HashMap<u32, ([u8; 32], Vec<u8>)>,
    pub precommit_votes: HashMap<u32, ([u8; 32], Vec<u8>)>,
    pub commit_votes: HashMap<u32, ([u8; 32], Vec<u8>)>,
    pub broadcast_proposal: bool,
    pub broadcast_pre_commit: bool,
    pub broadcast_commit: bool,
    pub broadcast_decide: bool,
}

/// What [`ViewData`] says.
#[verifier::ext_equal]
pub struct Round {
    pub proposal: Option<(Node, Option<Cert>)>,
    pub voted_prepare: bool,
    pub voted_precommit: bool,
    pub voted_commit: bool,
    pub seen_pre_commit_qc: bool,
    pub seen_commit_qc: bool,
    pub seen_decide_qc: bool,
    pub timer_armed: bool,
    pub new_view_msgs: Map<u32, Option<Cert>>,
    pub prepare_votes: Map<u32, ([u8; 32], Seq<u8>)>,
    pub precommit_votes: Map<u32, ([u8; 32], Seq<u8>)>,
    pub commit_votes: Map<u32, ([u8; 32], Seq<u8>)>,
    pub broadcast_proposal: bool,
    pub broadcast_pre_commit: bool,
    pub broadcast_commit: bool,
    pub broadcast_decide: bool,
}

/// A view in which nothing has happened.
pub open spec fn empty_round() -> Round {
    Round {
        proposal: None,
        voted_prepare: false,
        voted_precommit: false,
        voted_commit: false,
        seen_pre_commit_qc: false,
        seen_commit_qc: false,
        seen_decide_qc: false,
        timer_armed: false,
        new_view_msgs: Map::empty(),
        prepare_votes: Map::empty(),
        precommit_votes: Map::empty(),
        commit_votes: Map::empty(),
        broadcast_proposal: false,
        broadcast_pre_commit: false,
        broadcast_commit: false,
        broadcast_decide: false,
    }
}

/// Each voter's node and signature.
pub open spec fn votes_view(m: Map<u32, ([u8; 32], Vec<u8>)>) -> Map<u32, ([u8; 32], Seq<u8>)> {
    Map::new(|k: u32| m.contains_key(k), |k: u32| (m[k].0, m[k].1@))
}

/// Each sender's prepareQC.
pub open spec fn new_views_view(m: Map<u32, Option<QC>>) -> Map<u32, Option<Cert>> {
    Map::new(|k: u32| m.contains_key(k), |k: u32| opt_cert(m[k]))
}

/// What each of the certificates says.
pub open spec fn certs_view<K>(m: Map<K, QC>) -> Map<K, Cert> {
    Map::new(|k: K| m.contains_key(k), |k: K| m[k]@)
}

/// The balances of each of the states.
pub open spec fn states_view(m: Map<[u8; 32], State>) -> Map<[u8; 32], Map<u32, u64>> {
    Map::new(|k: [u8; 32]| m.contains_key(k), |k: [u8; 32]| m[k]@)
}

/// What each of the views says.
pub open spec fn rounds_view(m: Map<u64, ViewData>) -> Map<u64, Round> {
    Map::new(|k: u64| m.contains_key(k), |k: u64| m[k]@)
}

impl View for ViewData {
    type V = Round;

    open spec fn view(&self) -> Round {
        Round {
            proposal: match self.proposal {
                Some(p) => Some((p.0, opt_cert(p.1))),
                None => None,
            },
            voted_prepare: self.voted_prepare,
            voted_precommit: self.voted_precommit,
            voted_commit: self.voted_commit,
            seen_pre_commit_qc: self.seen_pre_commit_qc,
            seen_commit_qc: self.seen_commit_qc,
            seen_decide_qc: self.seen_decide_qc,
            timer_armed: self.timer_armed,
            new_view_msgs: new_views_view(self.new_view_msgs@),
            prepare_votes: votes_view(self.prepare_votes@),
            precommit_votes: votes_view(self.precommit_votes@),
            commit_votes: votes_view(self.commit_votes@),
            broadcast_proposal: self.broadcast_proposal,
            broadcast_pre_commit: self.broadcast_pre_commit,
            broadcast_commit: self.broadcast_commit,
            broadcast_decide: self.broadcast_decide,
        }
    }
}

impl Default for ViewData {
    fn default() -> (r: Self)
        ensures
            r@ == empty_round(),
    {
        let r = ViewData {
            proposal: None,
            voted_prepare: false,
            voted_precommit: false,
            voted_commit: false,
            seen_pre_commit_qc: false,
            seen_commit_qc: false,
            seen_decide_qc: false,
            timer_armed: false,
            new_view_msgs: HashMap::new(),
            prepare_votes: HashMap::new(),
            precommit_votes: HashMap::new(),
            commit_votes: HashMap::new(),
            broadcast_proposal: false,
            broadcast_pre_commit: false,
            broadcast_commit: false,
            broadcast_decide: false,
        };
        assert(r@ =~= empty_round());
        r
    }
}

/// The state of a replica.
pub struct ReplicaState {
    pub n: u32,
    pub f: u32,
    /// `n - f`.
    pub quorum: u32,
    pub view: u64,
    pub locked_qc: Option<QC>,
    pub prepare_qc: Option<QC>,
    /// -1 where nothing has been committed yet.
    pub last_executed_height: i64,
    pub view_data: HashMap<u64, ViewData>,
    pub tree: DigestMap<Node>,
    /// Verdict on each node whose block has been validated.
    pub validation_result: DigestMap<bool>,
    /// The node whose block was submitted to validation last, until its outcome
    /// has come.
    pub pending_validation: Option<[u8; 32]>,
    /// All nodes whose block was submitted to validation, until its outcome has
    /// come.
    pub in_flight: DigestMap<()>,
    /// Re-execution: the state after each validated node.
    pub post_state_by_node: DigestMap<State>,
    /// Verification: the state root after each validated node.
    pub post_root_by_node: DigestMap<[u8; 32]>,
    /// Verification: the state root before each validated node.
    pub pre_root_by_node: DigestMap<[u8; 32]>,
    /// Nodes with a valid commitQC. They may not have been executed yet.
    pub decided_nodes: DigestMap<QC>,
    /// The node that was committed at each height.
    pub committed_at_height: HashMap<u64, [u8; 32]>,
    /// Certificates that the replica will act on in each view.
    pub staged_pre_commit_qc: HashMap<u64, QC>,
    pub staged_commit_qc: HashMap<u64, QC>,
    pub staged_decide_qc: HashMap<u64, QC>,
    /// Current timeout of a view: reset on a decision, doubled on every
    /// NEXTVIEW.
    pub timeout_interval_ms: u64,
}

/// What [`ReplicaState`] says.
#[verifier::ext_equal]
pub struct Replica {
    pub n: u32,
    pub f: u32,
    pub quorum: u32,
    pub view: u64,
    pub locked_qc: Option<Cert>,
    pub prepare_qc: Option<Cert>,
    pub last_executed_height: i64,
    pub view_data: Map<u64, Round>,
    pub tree: Map<[u8; 32], Node>,
    pub validation_result: Map<[u8; 32], bool>,
    pub pending_validation: Option<[u8; 32]>,
    pub in_flight: Map<[u8; 32], ()>,
    pub post_state_by_node: Map<[u8; 32], Map<u32, u64>>,
    pub post_root_by_node: Map<[u8; 32], [u8; 32]>,
    pub pre_root_by_node: Map<[u8; 32], [u8; 32]>,
    pub decided_nodes: Map<[u8; 32], Cert>,
    pub committed_at_height: Map<u64, [u8; 32]>,
    pub staged_pre_commit_qc: Map<u64, Cert>,
    pub staged_commit_qc: Map<u64, Cert>,
    pub staged_decide_qc: Map<u64, Cert>,
    pub timeout_interval_ms: u64,
}

impl View for ReplicaState {
    type V = Replica;

    open spec fn view(&self) -> Replica {
        Replica {
            n: self.n,
            f: self.f,
            quorum: self.quorum,
            view: self.view,
            locked_qc: opt_cert(self.locked_qc),
            prepare_qc: opt_cert(self.prepare_qc),
            last_executed_height: self.last_executed_height,
            view_data: rounds_view(self.view_data@),
            tree: self.tree@,
            validation_result: self.validation_result@,
            pending_validation: self.pending_validation,
            in_flight: self.in_flight@,
            post_state_by_node: states_view(self.post_state_by_node@),
            post_root_by_node: self.post_root_by_node@,
            pre_root_by_node: self.pre_root_by_node@,
            decided_nodes: certs_view(self.decided_nodes@),
            committed_at_height: self.committed_at_height@,
            staged_pre_commit_qc: certs_view(self.staged_pre_commit_qc@),
            staged_commit_qc: certs_view(self.staged_commit_qc@),
            staged_decide_qc: certs_view(self.staged_decide_qc@),
            timeout_interval_ms: self.timeout_interval_ms,
        }
    }
}

/// The number of faulty replicas that `n` replicas tolerate.
pub open spec fn max_faulty(n: u32) -> u32 {
    ((n - 1) / 3) as u32
}

/// A replica among `n` before its first view.
pub open spec fn fresh_replica(n: u32, timeout_base_ms: u64) -> Replica {
    Replica {
        n,
        f: max_faulty(n),
        quorum: (n - max_faulty(n)) as u32,
        view: 0,
        locked_qc: None,
        prepare_qc: None,
        last_executed_height: (-1) as i64,
        view_data: Map::empty(),
        tree: Map::empty(),
        validation_result: Map::empty(),
        pending_validation: None,
        in_flight: Map::empty(),
        post_state_by_node: Map::empty(),
        post_root_by_node: Map::empty(),
        pre_root_by_node: Map::empty(),
        decided_nodes: Map::empty(),
        committed_at_height: Map::empty(),
        staged_pre_commit_qc: Map::empty(),
        staged_commit_qc: Map::empty(),
        staged_decide_qc: Map::empty(),
        timeout_interval_ms: timeout_base_ms,
    }
}

/// The replica that leads `view` among `n`: round robin, from replica 0 in
/// view 1.
pub open spec fn leader_of(n: u32, view: u64) -> u32 {
    if view == 0 {
        0
    } else {
        ((view - 1) % n as int) as u32
    }
}

impl Replica {
    /// What happened in `view`.
    pub open spec fn round(self, view: u64) -> Round {
        if self.view_data.contains_key(view) {
            self.view_data[view]
        } else {
            empty_round()
        }
    }

    /// The replica with another record of `view`.
    pub open spec fn with_round(self, view: u64, round: Round) -> Replica {
        Replica { view_data: self.view_data.insert(view, round), ..self }
    }

    /// The replica with a record of `view`, be it empty.
    pub open spec fn touched(self, view: u64) -> Replica {
        self.with_round(view, self.round(view))
    }

    /// The leader of `view`.
    pub open spec fn leader(self, view: u64) -> u32 {
        leader_of(self.n, view)
    }
}

impl ReplicaState {
    /// The state of a replica among `n` before its first view.
    pub fn new(n: u32, timeout_base_ms: u64) -> (r: Self)
        requires
            n >= 1,
        ensures
            r@ == fresh_replica(n, timeout_base_ms),
    {
        let f = (n - 1) / 3;
        let quorum = n - f;
        let r = ReplicaState {
            n,
            f,
            quorum,
            view: 0,
            locked_qc: None,
            prepare_qc: None,
            last_executed_height: -1,
            view_data: HashMap::new(),
            tree: DigestMap::new(),
            validation_result: DigestMap::new(),
            pending_validation: None,
            in_flight: DigestMap::new(),
            post_state_by_node: DigestMap::new(),
            post_root_by_node: DigestMap::new(),
            pre_root_by_node: DigestMap::new(),
            decided_nodes: DigestMap::new(),
            committed_at_height: HashMap::new(),
            staged_pre_commit_qc: HashMap::new(),
            staged_commit_qc: HashMap::new(),
            staged_decide_qc: HashMap::new(),
            timeout_interval_ms: timeout_base_ms,
        };
        assert(r@ =~= fresh_replica(n, timeout_base_ms));
        r
    }

    /// Round-robin leader: view `v` is led by replica `(v - 1) mod n`, so that
    /// view 1 is led by replica 0.
    pub fn leader_for(&self, view: u64) -> (r: u32)
        requires
            self.n >= 1,
        ensures
            r == leader_of(self.n, view),
            r < self.n,
    {
        if view == 0 {
            return 0;
        }
        let r = (view - 1) % self.n as u64;
        assert(r < self.n) by (nonlinear_arith)
            requires
                r == (view - 1) as int % self.n as int,
                self.n >= 1,
        ;
        r as u32
    }

    /// The record of `view`, which is created where there is none.
    pub fn vd_mut(&mut self, view: u64) -> (r: &mut ViewData)
        ensures
            r@ == old(self)@.round(view),
            final(self)@ == old(self)@.with_round(view, (*final(r))@),
    {
        let r = self.view_data.entry(view).or_insert(ViewData::default());
        r
    }

    /// The record of `view`, where there is one.
    pub fn vd(&self, view: u64) -> (r: Option<&ViewData>)
        ensures
            match r {
                Some(d) => self@.view_data.contains_key(view) && d@ == self@.view_data[view],
                None => !self@.view_data.contains_key(view),
            },
    {
        self.view_data.get(&view)
    }
}

/// The node `k` parent links above `cur`. There is none above genesis, and
/// none above a node that the tree does not hold.
pub open spec fn ancestor(tree: Map<[u8; 32], Node>, cur: [u8; 32], k: nat) -> Option<[u8; 32]>
    decreases k,
{
    if k == 0 {
        Some(cur)
    } else {
        match ancestor(tree, cur, (k - 1) as nat) {
            Some(h) => if h != genesis() && tree.contains_key(h) {
                Some(tree[h].parent)
            } else {
                None
            },
            None => None,
        }
    }
}

/// Whether `target` is `cur` or one of its ancestors.
pub open spec fn reaches(tree: Map<[u8; 32], Node>, cur: [u8; 32], target: [u8; 32]) -> bool {
    exists|k: nat| #[trigger] ancestor(tree, cur, k) == Some(target)
}

/// Whether `node`, whose hash is `hash`, is `target` or descends from it.
pub open spec fn extends(
    hash: [u8; 32],
    node: Node,
    target: [u8; 32],
    tree: Map<[u8; 32], Node>,
) -> bool {
    hash == target || reaches(tree, node.parent, target)
}

/// Whether it is safe to vote for `node`, whose hash is `hash`, with the
/// justification `qc`: it extends the locked node (safety rule), or `qc` is
/// newer than the lock (liveness rule). Without a lock every node is safe.
pub open spec fn safe(
    hash: [u8; 32],
    node: Node,
    qc: Option<Cert>,
    locked_qc: Option<Cert>,
    tree: Map<[u8; 32], Node>,
) -> bool {
    match locked_qc {
        None => true,
        Some(locked) => extends(hash, node, locked.node_hash, tree) || (qc matches Some(q)
            && q.view > locked.view),
    }
}

/// The SafeNode predicate:
///
/// ```text
/// safeNode(node, qc) :=
///   (node extends from lockedQC.node)        // safety rule
///   OR (qc.viewNumber > lockedQC.viewNumber) // liveness rule
/// ```
///
/// The second rule lets a replica leave a stale lock when a certificate of a
/// higher view arrives.
pub fn safe_node(
    node: &Node,
    qc: &Option<QC>,
    locked_qc: &Option<QC>,
    tree: &DigestMap<Node>,
) -> (r: bool)
    ensures
        r == safe(hash_of(*node), *node, opt_cert(*qc), opt_cert(*locked_qc), tree@),
{
    let hash = node_hash(node);
    safe_node_with_hash(&hash, node, qc, locked_qc, tree)
}

/// [`safe_node`] for a node whose hash is known.
pub fn safe_node_with_hash(
    hash: &[u8; 32],
    node: &Node,
    qc: &Option<QC>,
    locked_qc: &Option<QC>,
    tree: &DigestMap<Node>,
) -> (r: bool)
    ensures
        r == safe(*hash, *node, opt_cert(*qc), opt_cert(*locked_qc), tree@),
{
    let locked = match locked_qc {
        Some(l) => l,
        None => return true,
    };
    if extends_from_with_hash(hash, node, &locked.node_hash, tree) {
        return true;
    }
    match qc {
        Some(q) => q.view > locked.view,
        None => false,
    }
}

/// True if `target_hash` is `node` itself or one of its ancestors via parent
/// pointers in `tree`.
pub fn extends_from(node: &Node, target_hash: &[u8; 32], tree: &DigestMap<Node>) -> (r: bool)
    ensures
        r == extends(hash_of(*node), *node, *target_hash, tree@),
{
    let hash = node_hash(node);
    extends_from_with_hash(&hash, node, target_hash, tree)
}

/// [`extends_from`] for a node whose hash is known.
pub fn extends_from_with_hash(
    hash: &[u8; 32],
    node: &Node,
    target_hash: &[u8; 32],
    tree: &DigestMap<Node>,
) -> (r: bool)
    ensures
        r == extends(*hash, *node, *target_hash, tree@),
{
    if same(hash, target_hash) {
        return true;
    }
    let root = genesis_hash();
    let known = tree.len();
    let mut cur = node.parent;
    let mut steps: usize = 0;
    loop
        invariant
            steps <= known,
            known == tree@.dom().len(),
            tree@.dom().finite(),
            root == genesis(),
            *hash != *target_hash,
            ancestor(tree@, node.parent, steps as nat) == Some(cur),
            forall|k: nat|
                k < steps ==> #[trigger] ancestor(tree@, node.parent, k) != Some(*target_hash),
        decreases known - steps,
    {
        if same(&cur, target_hash) {
            assert(reaches(tree@, node.parent, *target_hash));
            return true;
        }
        if same(&cur, &root) {
            proof {
                lemma_no_ancestor_above(tree@, node.parent, steps as nat);
            }
            return false;
        }
        let ghost next = ancestor(tree@, node.parent, (steps + 1) as nat);
        match tree.get(&cur) {
            Some(parent_node) => cur = parent_node.parent,
            None => {
                proof {
                    lemma_no_ancestor_above(tree@, node.parent, steps as nat);
                }
                return false;
            },
        }
        assert(next == Some(cur));
        if steps == known {
            // More links have been followed than there are nodes: the walk
            // goes round.
            proof {
                lemma_walk_returns(tree@, node.parent, known as nat);
            }
            return false;
        }
        steps += 1;
    }
}

/// Where one link cannot be followed, none of the later ones can.
proof fn lemma_no_ancestor_above(tree: Map<[u8; 32], Node>, cur: [u8; 32], k: nat)
    requires
        ancestor(tree, cur, k + 1) is None,
    ensures
        forall|j: nat| j > k ==> #[trigger] ancestor(tree, cur, j) is None,
{
    assert forall|j: nat| j > k implies #[trigger] ancestor(tree, cur, j) is None by {
        lemma_none_stays(tree, cur, k + 1, j);
    }
}

proof fn lemma_none_stays(tree: Map<[u8; 32], Node>, cur: [u8; 32], k: nat, j: nat)
    requires
        ancestor(tree, cur, k) is None,
        k <= j,
    ensures
        ancestor(tree, cur, j) is None,
    decreases j - k,
{
    if k < j {
        lemma_none_stays(tree, cur, k, (j - 1) as nat);
    }
}

/// Ancestors are counted on from an ancestor.
pub(crate) proof fn lemma_ancestor_adds(
    tree: Map<[u8; 32], Node>,
    cur: [u8; 32],
    mid: [u8; 32],
    j: nat,
    k: nat,
)
    requires
        ancestor(tree, cur, j) == Some(mid),
    ensures
        ancestor(tree, cur, j + k) == ancestor(tree, mid, k),
    decreases k,
{
    if k > 0 {
        lemma_ancestor_adds(tree, cur, mid, j, (k - 1) as nat);
    }
}

/// A link can be followed only after all links before it, each from a node of
/// the tree.
proof fn lemma_links_before(tree: Map<[u8; 32], Node>, cur: [u8; 32], j: nat, k: nat)
    requires
        ancestor(tree, cur, k) is Some,
        j < k,
    ensures
        ancestor(tree, cur, j) is Some,
        tree.contains_key(ancestor(tree, cur, j)->0),
    decreases k - j,
{
    if ancestor(tree, cur, (j + 1) as nat) is None {
        lemma_none_stays(tree, cur, (j + 1) as nat, k);
    }
}

/// A walk over more links than the tree has nodes comes back to a node.
proof fn lemma_walk_repeats(tree: Map<[u8; 32], Node>, cur: [u8; 32], n: nat) -> (r: (nat, nat))
    requires
        tree.dom().finite(),
        tree.dom().len() == n,
        ancestor(tree, cur, n + 1) is Some,
    ensures
        r.0 < r.1,
        r.1 <= n,
        ancestor(tree, cur, r.0) == ancestor(tree, cur, r.1),
{
    let walk = Seq::new(n + 1, |i: int| ancestor(tree, cur, i as nat)->0);
    assert forall|i: int| 0 <= i < walk.len() implies tree.dom().contains(#[trigger] walk[i])
        && ancestor(tree, cur, i as nat) == Some(walk[i]) by {
        lemma_links_before(tree, cur, i as nat, n + 1);
    }
    if walk.no_duplicates() {
        walk.unique_seq_to_set();
        assert(walk.to_set().subset_of(tree.dom()));
        vstd::set_lib::lemma_len_subset(walk.to_set(), tree.dom());
    }
    let (i, j) = choose|i: int, j: int|
        0 <= i < walk.len() && 0 <= j < walk.len() && i != j && #[trigger] walk[i]
            == #[trigger] walk[j];
    if i < j {
        (i as nat, j as nat)
    } else {
        (j as nat, i as nat)
    }
}

/// After a walk over more links than the tree has nodes, every ancestor has
/// been met.
proof fn lemma_walk_returns(tree: Map<[u8; 32], Node>, cur: [u8; 32], n: nat)
    requires
        tree.dom().finite(),
        tree.dom().len() == n,
        ancestor(tree, cur, n + 1) is Some,
    ensures
        forall|target: [u8; 32]| #[trigger]
            reaches(tree, cur, target) ==> exists|k: nat|
                k <= n && #[trigger] ancestor(tree, cur, k) == Some(target),
{
    let (i, j) = lemma_walk_repeats(tree, cur, n);
    assert forall|target: [u8; 32]| #[trigger] reaches(tree, cur, target) implies exists|k: nat|
        k <= n && #[trigger] ancestor(tree, cur, k) == Some(target) by {
        let k = choose|k: nat| #[trigger] ancestor(tree, cur, k) == Some(target);
        lemma_met(tree, cur, i, j, n, k);
    }
}

proof fn lemma_met(tree: Map<[u8; 32], Node>, cur: [u8; 32], i: nat, j: nat, n: nat, k: nat)
    requires
        i < j,
        j <= n,
        ancestor(tree, cur, n + 1) is Some,
        ancestor(tree, cur, i) == ancestor(tree, cur, j),
    ensures
        exists|m: nat| m <= n && #[trigger] ancestor(tree, cur, m) == ancestor(tree, cur, k),
    decreases k,
{
    if k <= n {
        assert(ancestor(tree, cur, k) == ancestor(tree, cur, k));
    } else {
        lemma_links_before(tree, cur, j, n + 1);
        let mid = ancestor(tree, cur, j)->0;
        let rest = (k - j) as nat;
        lemma_ancestor_adds(tree, cur, mid, j, rest);
        lemma_ancestor_adds(tree, cur, mid, i, rest);
        lemma_met(tree, cur, i, j, n, i + rest);
    }
}

// ---- Laws ----

/// Leadership rotates: every leader is one of the replicas, the leaders repeat
/// after `n` views, and no replica leads twice within `n` views.
pub proof fn law_leaders_rotate(n: u32, v: u64, w: u64)
    requires
        n >= 1,
        v >= 1,
        v < w,
    ensures
        leader_of(n, v) < n,
        w == v + n ==> leader_of(n, w) == leader_of(n, v),
        w < v + n ==> leader_of(n, w) != leader_of(n, v),
{
    let m = n as int;
    let a = v - 1;
    let b = w - 1;
    assert(0 <= a % m < m && 0 <= b % m < m) by (nonlinear_arith)
        requires
            m >= 1,
    ;
    vstd::arithmetic::div_mod::lemma_fundamental_div_mod(a, m);
    vstd::arithmetic::div_mod::lemma_fundamental_div_mod(b, m);
    if w == v + n {
        vstd::arithmetic::div_mod::lemma_mod_add_multiples_vanish(a, m);
    } else if w < v + n && a % m == b % m {
        assert(b - a == m * (b / m) - m * (a / m));
        assert(b - a == m * (b / m - a / m)) by (nonlinear_arith)
            requires
                b - a == m * (b / m) - m * (a / m),
        ;
        let k = b / m - a / m;
        assert(false) by (nonlinear_arith)
            requires
                0 < b - a,
                b - a < m,
                b - a == m * k,
        ;
    }
}

/// A node extends itself and its parent.
pub proof fn law_extends_parent(node: Node, tree: Map<[u8; 32], Node>)
    ensures
        extends(hash_of(node), node, hash_of(node), tree),
        extends(hash_of(node), node, node.parent, tree),
{
    assert(ancestor(tree, node.parent, 0) == Some(node.parent));
}

/// Without a lock every node is safe. With a lock, a node is safe if it
/// extends the locked node, or if its certificate is newer than the lock; a
/// node without a certificate that does not extend the locked node is not.
pub proof fn law_safe_node(
    node: Node,
    qc: Option<Cert>,
    locked: Cert,
    tree: Map<[u8; 32], Node>,
)
    ensures
        safe(hash_of(node), node, qc, None, tree),
        extends(hash_of(node), node, locked.node_hash, tree) ==> safe(
            hash_of(node),
            node,
            qc,
            Some(locked),
            tree,
        ),
        !extends(hash_of(node), node, locked.node_hash, tree) ==> !safe(
            hash_of(node),
            node,
            None,
            Some(locked),
            tree,
        ),
        qc matches Some(q) && q.view > locked.view ==> safe(
            hash_of(node),
            node,
            qc,
            Some(locked),
            tree,
        ),
{
}

/// Learning of further nodes does not make a node stop extending another.
pub proof fn law_extends_stays(
    node: Node,
    target: [u8; 32],
    tree: Map<[u8; 32], Node>,
    larger: Map<[u8; 32], Node>,
)
    requires
        tree.submap_of(larger),
        extends(hash_of(node), node, target, tree),
    ensures
        extends(hash_of(node), node, target, larger),
{
    if hash_of(node) != target {
        let k = choose|k: nat| #[trigger] ancestor(tree, node.parent, k) == Some(target);
        lemma_ancestor_stays(tree, larger, node.parent, k);
        assert(ancestor(larger, node.parent, k) == Some(target));
    }
}

proof fn lemma_ancestor_stays(
    tree: Map<[u8; 32], Node>,
    larger: Map<[u8; 32], Node>,
    cur: [u8; 32],
    k: nat,
)
    requires
        tree.submap_of(larger),
        ancestor(tree, cur, k) is Some,
    ensures
        ancestor(larger, cur, k) == ancestor(tree, cur, k),
    decreases k,
{
    if k > 0 {
        lemma_ancestor_stays(tree, larger, cur, (k - 1) as nat);
        let h = ancestor(tree, cur, (k - 1) as nat)->0;
        assert(larger.dom().contains(h) && larger[h] == tree[h]);
    }
}


/// The leaders take turns: replica 0 leads view 1, and after each replica comes
/// the next one, and after the last one replica 0 again. View 0 is led by
/// replica 0.
pub proof fn law_leaders_take_turns(n: u32, view: u64)
    requires
        n >= 1,
        1 <= view < u64::MAX,
    ensures
        leader_of(n, 0) == 0,
        leader_of(n, 1) == 0,
        leader_of(n, view) < n,
        leader_of(n, (view + 1) as u64) == (if leader_of(n, view) + 1 == n {
            0
        } else {
            leader_of(n, view) + 1
        }),
{
    let m = n as int;
    let a = view - 1;
    assert(0int % m == 0) by (nonlinear_arith)
        requires
            m >= 1,
    ;
    assert(0 <= a % m < m) by (nonlinear_arith)
        requires
            m >= 1,
    ;
    vstd::arithmetic::div_mod::lemma_fundamental_div_mod(a, m);
    let q = a / m;
    let r = a % m;
    if r + 1 < m {
        assert((a + 1) % m == r + 1) by {
            vstd::arithmetic::div_mod::lemma_fundamental_div_mod_converse(a + 1, m, q, r + 1);
        }
    } else {
        assert((a + 1) % m == 0) by {
            assert(a + 1 == (q + 1) * m + 0) by (nonlinear_arith)
                requires
                    a == m * q + r,
                    r + 1 == m,
            ;
            vstd::arithmetic::div_mod::lemma_fundamental_div_mod_converse(a + 1, m, q + 1, 0);
        }
    }
}

/// Of `n` replicas less than a third may be faulty, as many as that allows, and
/// the others make a quorum.
pub proof fn law_quorum_size(n: u32, timeout_base_ms: u64)
    requires
        n >= 1,
    ensures
        ({
            let rs = fresh_replica(n, timeout_base_ms);
            &&& rs.n == n
            &&& 3 * rs.f < n <= 3 * rs.f + 3
            &&& rs.quorum + rs.f == n
        }),
{
}

/// A new replica stands before its first view, has the base timeout, and knows
/// and has done nothing.
pub proof fn law_new_replica_knows_nothing(n: u32, timeout_base_ms: u64, view: u64, h: [u8; 32])
    ensures
        ({
            let rs = fresh_replica(n, timeout_base_ms);
            &&& rs.view == 0
            &&& rs.timeout_interval_ms == timeout_base_ms
            &&& rs.locked_qc is None
            &&& rs.prepare_qc is None
            &&& rs.last_executed_height == -1
            &&& rs.pending_validation is None
            &&& !rs.tree.contains_key(h)
            &&& !rs.validation_result.contains_key(h)
            &&& !rs.in_flight.contains_key(h)
            &&& !rs.post_state_by_node.contains_key(h)
            &&& !rs.post_root_by_node.contains_key(h)
            &&& !rs.pre_root_by_node.contains_key(h)
            &&& !rs.decided_nodes.contains_key(h)
            &&& !rs.committed_at_height.contains_key(view)
            &&& !rs.staged_pre_commit_qc.contains_key(view)
            &&& !rs.staged_commit_qc.contains_key(view)
            &&& !rs.staged_decide_qc.contains_key(view)
            &&& !rs.view_data.contains_key(view)
        }),
{
}

/// In a view of which there is no record, nothing has happened: there is no
/// proposal, no vote, no message and no certificate.
pub proof fn law_unrecorded_view_is_empty(rs: Replica, view: u64, k: u32)
    requires
        !rs.view_data.contains_key(view),
    ensures
        ({
            let r = rs.round(view);
            &&& r.proposal is None
            &&& !r.voted_prepare && !r.voted_precommit && !r.voted_commit
            &&& !r.seen_pre_commit_qc && !r.seen_commit_qc && !r.seen_decide_qc
            &&& !r.timer_armed
            &&& !r.broadcast_proposal && !r.broadcast_pre_commit
            &&& !r.broadcast_commit && !r.broadcast_decide
            &&& !r.new_view_msgs.contains_key(k)
            &&& !r.prepare_votes.contains_key(k)
            &&& !r.precommit_votes.contains_key(k)
            &&& !r.commit_votes.contains_key(k)
        }),
{
}

/// The record of a view is the one that was written last, and writing it leaves
/// the other views alone.
pub proof fn law_record_is_kept(rs: Replica, view: u64, round: Round, other: u64)
    ensures
        rs.view_data.contains_key(view) ==> rs.round(view) == rs.view_data[view],
        rs.with_round(view, round).round(view) == round,
        other != view ==> rs.with_round(view, round).round(other) == rs.round(other),
        rs.with_round(view, round) == (Replica {
            view_data: rs.view_data.insert(view, round),
            ..rs
        }),
        rs.touched(view).round(other) == rs.round(other),
{
}

/// Whether `path` leads from `from` to `to` by parent links in `tree`: it starts
/// with the one and ends with the other, and each of its nodes but the last is
/// known, is not genesis, and is a child of the next.
pub open spec fn leads_up(
    tree: Map<[u8; 32], Node>,
    path: Seq<[u8; 32]>,
    from: [u8; 32],
    to: [u8; 32],
) -> bool {
    &&& path.len() > 0
    &&& path[0] == from
    &&& path.last() == to
    &&& forall|i: int|
        0 <= i < path.len() - 1 ==> {
            &&& tree.contains_key(#[trigger] path[i])
            &&& path[i] != genesis()
            &&& tree[path[i]].parent == path[i + 1]
        }
}

/// A node extends those nodes to which a path of parent links leads from it.
pub proof fn law_extends_along_a_path(
    hash: [u8; 32],
    node: Node,
    target: [u8; 32],
    tree: Map<[u8; 32], Node>,
)
    ensures
        extends(hash, node, target, tree) <==> (hash == target || exists|path: Seq<[u8; 32]>|
            #[trigger]
            leads_up(tree, path, node.parent, target)),
{
    if exists|path: Seq<[u8; 32]>| #[trigger] leads_up(tree, path, node.parent, target) {
        let path = choose|path: Seq<[u8; 32]>| #[trigger]
            leads_up(tree, path, node.parent, target);
        lemma_path_is_ancestry(tree, path, node.parent, path.len() - 1);
        assert(ancestor(tree, node.parent, (path.len() - 1) as nat) == Some(target));
    }
    if reaches(tree, node.parent, target) {
        let k = choose|k: nat| #[trigger] ancestor(tree, node.parent, k) == Some(target);
        let path = Seq::new(k + 1, |i: int| ancestor(tree, node.parent, i as nat)->0);
        assert forall|i: int| 0 <= i < path.len() - 1 implies {
            &&& tree.contains_key(#[trigger] path[i])
            &&& path[i] != genesis()
            &&& tree[path[i]].parent == path[i + 1]
        } by {
            lemma_links_before(tree, node.parent, i as nat, k);
            if i + 1 < k {
                lemma_links_before(tree, node.parent, (i + 1) as nat, k);
            }
            assert(ancestor(tree, node.parent, (i + 1) as nat) is Some);
        }
        assert(leads_up(tree, path, node.parent, target));
    }
}

proof fn lemma_path_is_ancestry(
    tree: Map<[u8; 32], Node>,
    path: Seq<[u8; 32]>,
    from: [u8; 32],
    i: int,
)
    requires
        leads_up(tree, path, from, path.last()),
        0 <= i < path.len(),
    ensures
        ancestor(tree, from, i as nat) == Some(path[i]),
    decreases i,
{
    if i > 0 {
        lemma_path_is_ancestry(tree, path, from, i - 1);
        assert(tree.contains_key(path[i - 1]));
    }
}

/// SafeNode holds without a lock, for a node that is the locked one or extends
/// it, and for a node whose certificate is of a later view than the lock; and it
/// holds for no other node.
pub proof fn law_safe_node_is_one_of_three(
    hash: [u8; 32],
    node: Node,
    qc: Option<Cert>,
    locked_qc: Option<Cert>,
    tree: Map<[u8; 32], Node>,
)
    ensures
        safe(hash, node, qc, locked_qc, tree) <==> (match locked_qc {
            None => true,
            Some(lock) => {
                ||| hash == lock.node_hash
                ||| exists|path: Seq<[u8; 32]>| #[trigger]
                    leads_up(tree, path, node.parent, lock.node_hash)
                ||| qc is Some && qc->0.view > lock.view
            },
        }),
{
    if let Some(lock) = locked_qc {
        law_extends_along_a_path(hash, node, lock.node_hash, tree);
    }
}

/// A replica goes by the number of replicas that it was told.
pub proof fn law_replica_knows_the_leader(rs: Replica, view: u64)
    ensures
        rs.leader(view) == leader_of(rs.n, view),
{
}

} // verus!
