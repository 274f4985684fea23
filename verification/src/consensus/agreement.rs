//! Agreement: what correct replicas decide lies on one chain, as long as no
//! more than `f` of the `n` replicas are faulty.
//!
//! The law is about a run, the votes of the correct replicas in the order in
//! which they are cast. Each is cast by one of the rules, in a sound state; the
//! states of a replica follow each other; and the certificates that a replica
//! acts on are genuine: a correct replica's signature is under them only if
//! the replica has voted so before.

use crate::consensus::laws::{follows, round_follows, sound};
use crate::consensus::model::{
    pass_prepare, pass_vote, proposed_hash, seen, staged, voted, Local, Me,
};
use crate::consensus::qc::{certified, law_quorums_intersect, lemma_signers_known, signers};
use crate::messages::{hash_of, Cert, MsgType, Node};
use crate::state::{ancestor, extends, max_faulty, safe, Replica};
use vstd::prelude::*;

verus! {

/// A vote of the correct replica `who`, in a phase of its view: `before` is
/// the replica before the rule that casts it.
pub struct Cast {
    pub who: u32,
    pub me: Me,
    pub phase: MsgType,
    pub before: Local,
}

impl Cast {
    /// The view of the vote.
    pub open spec fn view(self) -> u64 {
        self.before.rs.view
    }

    /// The node that the vote is for.
    pub open spec fn node(self) -> [u8; 32] {
        if self.phase == MsgType::Prepare {
            proposed_hash(self.before.rs)
        } else {
            staged(self.before.rs, self.phase)[self.view()].node_hash
        }
    }

    /// The replica after the rule.
    pub open spec fn after(self) -> Replica {
        if self.phase == MsgType::Prepare {
            pass_prepare(self.before, self.me).rs
        } else {
            pass_vote(self.before, self.me, self.phase).rs
        }
    }

    /// Whether the rule casts a vote.
    pub open spec fn fires(self) -> bool {
        let rs = self.before.rs;
        let r = rs.round(rs.view);
        match self.phase {
            MsgType::Prepare => {
                &&& !r.voted_prepare
                &&& rs.validation_result.contains_key(self.node())
                &&& rs.validation_result[self.node()]
                &&& r.proposal matches Some(p) && safe(
                    self.node(),
                    p.0,
                    p.1,
                    rs.locked_qc,
                    rs.tree,
                )
            },
            MsgType::PreCommit | MsgType::Commit => {
                &&& !voted(r, self.phase)
                &&& seen(r, self.phase)
                &&& staged(rs, self.phase).contains_key(rs.view)
            },
            _ => false,
        }
    }
}

/// The replicas and their public keys, and which replicas are faulty.
pub struct Cluster {
    pub n: u32,
    pub keys: Map<u32, [u8; 32]>,
    pub faulty: Set<u32>,
}

/// Whether there are `n` replicas, of which no more are faulty than can be
/// tolerated.
pub open spec fn tolerable(c: Cluster) -> bool {
    &&& c.n >= 1
    &&& c.keys.dom().finite()
    &&& c.keys.dom().len() <= c.n
    &&& c.faulty.finite()
    &&& c.faulty.len() <= max_faulty(c.n)
}

/// Whether the correct replica `who` has cast a vote among the first `k`.
pub open spec fn has_cast(
    run: Seq<Cast>,
    k: int,
    who: u32,
    phase: MsgType,
    view: u64,
    node: [u8; 32],
) -> bool {
    exists|i: int|
        0 <= i < k && i < run.len() && (#[trigger] run[i]).who == who && run[i].phase == phase
            && run[i].view() == view && run[i].node() == node
}

/// Whether a certificate is genuine when the first `k` votes have been cast:
/// a quorum signed it, and those among them that are correct have voted so.
pub open spec fn genuine(c: Cluster, run: Seq<Cast>, k: int, q: Cert) -> bool {
    &&& certified(q, (c.n - max_faulty(c.n)) as u32, c.keys)
    &&& forall|r: u32| #[trigger]
        signers(q, c.keys).contains(r) && !c.faulty.contains(r) ==> has_cast(
            run,
            k,
            r,
            q.msg_type,
            q.view,
            q.node_hash,
        )
}

/// Whether the certificates that a vote rests on are genuine.
pub open spec fn well_founded(c: Cluster, run: Seq<Cast>, i: int) -> bool {
    let rs = run[i].before.rs;
    &&& run[i].phase != MsgType::Prepare ==> genuine(
        c,
        run,
        i,
        staged(rs, run[i].phase)[rs.view],
    )
    &&& run[i].phase == MsgType::Prepare ==> {
        &&& rs.locked_qc matches Some(q) ==> genuine(c, run, i, q)
        &&& rs.round(rs.view).proposal matches Some(p) ==> (p.1 matches Some(q) ==> genuine(
            c,
            run,
            i,
            q,
        ))
    }
}

/// Whether `run` is a run of correct replicas.
pub open spec fn correct_run(c: Cluster, run: Seq<Cast>) -> bool {
    &&& forall|i: int|
        0 <= i < run.len() ==> {
            &&& (#[trigger] run[i]).fires()
            &&& sound(run[i].before.rs)
            &&& well_founded(c, run, i)
        }
    &&& forall|i: int, j: int|
        0 <= i < j < run.len() && (#[trigger] run[i]).who == (#[trigger] run[j]).who ==> follows(
            run[i].after(),
            run[j].before.rs,
        )
}

/// The hash that `i` parent links lead to from `h`, through the nodes `path`.
pub open spec fn link(h: [u8; 32], path: Seq<Node>, i: int) -> [u8; 32] {
    if i == 0 {
        h
    } else {
        path[i - 1].parent
    }
}

/// Whether the nodes `path` lead from the node `h` to its ancestor `base`.
pub open spec fn leads(h: [u8; 32], path: Seq<Node>, base: [u8; 32]) -> bool {
    &&& forall|i: int|
        0 <= i < path.len() ==> hash_of(#[trigger] path[i]) == link(h, path, i)
    &&& link(h, path, path.len() as int) == base
}

/// Whether the node `h` is `base` or descends from it.
pub open spec fn descends(h: [u8; 32], base: [u8; 32]) -> bool {
    exists|path: Seq<Node>| #[trigger] leads(h, path, base)
}

proof fn lemma_descends_refl(h: [u8; 32])
    ensures
        descends(h, h),
{
    assert(leads(h, Seq::empty(), h));
}

proof fn lemma_descends_composes(h: [u8; 32], m: [u8; 32], base: [u8; 32])
    requires
        descends(h, m),
        descends(m, base),
    ensures
        descends(h, base),
{
    let a = choose|a: Seq<Node>| #[trigger] leads(h, a, m);
    let b = choose|b: Seq<Node>| #[trigger] leads(m, b, base);
    let path = a + b;
    assert forall|i: int| 0 <= i < path.len() implies hash_of(#[trigger] path[i]) == link(
        h,
        path,
        i,
    ) by {
        if i < a.len() {
            assert(path[i] == a[i]);
            assert(i > 0 ==> path[i - 1] == a[i - 1]);
        } else {
            let j = i - a.len();
            assert(path[i] == b[j]);
            assert(j > 0 ==> path[i - 1] == b[j - 1]);
            assert(j == 0 && i > 0 ==> path[i - 1] == a[i - 1]);
        }
    }
    assert(b.len() > 0 ==> path[path.len() - 1] == b[b.len() - 1]);
    assert(leads(h, path, base));
}

proof fn lemma_parent(n: Node, base: [u8; 32])
    requires
        descends(n.parent, base),
    ensures
        descends(hash_of(n), base),
{
    let path = seq![n];
    assert(leads(hash_of(n), path, n.parent));
    lemma_descends_composes(hash_of(n), n.parent, base);
}

/// The links that a replica follows in its tree lead to ancestors.
proof fn lemma_ancestor(tree: Map<[u8; 32], Node>, cur: [u8; 32], target: [u8; 32], k: nat)
    requires
        forall|h: [u8; 32]| #[trigger] tree.contains_key(h) ==> hash_of(tree[h]) == h,
        ancestor(tree, cur, k) == Some(target),
    ensures
        descends(cur, target),
    decreases k,
{
    if k == 0 {
        lemma_descends_refl(cur);
    } else {
        let h = ancestor(tree, cur, (k - 1) as nat)->0;
        lemma_ancestor(tree, cur, h, (k - 1) as nat);
        lemma_descends_refl(target);
        lemma_parent(tree[h], target);
        lemma_descends_composes(cur, h, target);
    }
}

proof fn lemma_extends(node: Node, target: [u8; 32], tree: Map<[u8; 32], Node>)
    requires
        forall|h: [u8; 32]| #[trigger] tree.contains_key(h) ==> hash_of(tree[h]) == h,
        extends(hash_of(node), node, target, tree),
    ensures
        descends(hash_of(node), target),
{
    if hash_of(node) == target {
        lemma_descends_refl(target);
    } else {
        let k = choose|k: nat| #[trigger] ancestor(tree, node.parent, k) == Some(target);
        lemma_ancestor(tree, node.parent, target, k);
        lemma_parent(node, target);
    }
}

/// Two certificates share a signer that is correct.
proof fn lemma_correct_signer(c: Cluster, p: Cert, q: Cert) -> (r: u32)
    requires
        tolerable(c),
        certified(p, (c.n - max_faulty(c.n)) as u32, c.keys),
        certified(q, (c.n - max_faulty(c.n)) as u32, c.keys),
    ensures
        signers(p, c.keys).contains(r),
        signers(q, c.keys).contains(r),
        !c.faulty.contains(r),
{
    let a = signers(p, c.keys);
    let b = signers(q, c.keys);
    lemma_signers_known(p, c.keys);
    lemma_signers_known(q, c.keys);
    law_quorums_intersect(c.n, c.keys.dom(), a, b);
    let both = a.intersect(b);
    if forall|r: u32| #[trigger] both.contains(r) ==> c.faulty.contains(r) {
        assert(both.subset_of(c.faulty));
        vstd::set_lib::lemma_len_subset(both, c.faulty);
    }
    choose|r: u32| #[trigger] both.contains(r) && !c.faulty.contains(r)
}

/// A correct replica votes once in a phase of a view, and its votes go up in
/// views.
#[verifier::rlimit(40)]
proof fn lemma_votes_in_order(c: Cluster, run: Seq<Cast>, i: int, j: int)
    requires
        correct_run(c, run),
        0 <= i < j < run.len(),
        run[i].who == run[j].who,
    ensures
        run[i].view() <= run[j].view(),
        run[i].phase == run[j].phase ==> run[i].view() != run[j].view(),
        run[i].phase == MsgType::Commit ==> (run[j].before.rs.locked_qc matches Some(q)
            && run[i].view() <= q.view && q.msg_type == MsgType::PreCommit),
{
    let a = run[i];
    let b = run[j];
    let v = a.view();
    assert(a.fires() && sound(a.before.rs));
    assert(b.fires() && sound(b.before.rs));
    assert(follows(a.after(), b.before.rs));
    assert(round_follows(a.after().round(v), b.before.rs.round(v)));
    assert(a.after().view == v);
    assert(voted(a.after().round(v), a.phase));
    if a.phase == MsgType::Commit {
        assert(staged(a.before.rs, MsgType::Commit).contains_key(v));
        assert(a.after().locked_qc == Some(staged(a.before.rs, MsgType::Commit)[v]));
    }
}

/// In one phase of one view there are genuine certificates for one node only.
proof fn lemma_one_per_view(c: Cluster, run: Seq<Cast>, k: int, p: Cert, l: int, q: Cert)
    requires
        tolerable(c),
        correct_run(c, run),
        genuine(c, run, k, p),
        genuine(c, run, l, q),
        p.msg_type == q.msg_type,
        p.view == q.view,
    ensures
        p.node_hash == q.node_hash,
{
    let r = lemma_correct_signer(c, p, q);
    assert(has_cast(run, k, r, p.msg_type, p.view, p.node_hash));
    assert(has_cast(run, l, r, q.msg_type, q.view, q.node_hash));
    let i = choose|i: int|
        0 <= i < k && i < run.len() && (#[trigger] run[i]).who == r && run[i].phase == p.msg_type
            && run[i].view() == p.view && run[i].node() == p.node_hash;
    let j = choose|j: int|
        0 <= j < l && j < run.len() && (#[trigger] run[j]).who == r && run[j].phase == q.msg_type
            && run[j].view() == q.view && run[j].node() == q.node_hash;
    if i < j {
        lemma_votes_in_order(c, run, i, j);
    } else if j < i {
        lemma_votes_in_order(c, run, j, i);
    }
}

/// A genuine certificate of any phase rests on a genuine prepareQC of its view
/// for its node, and that one was there earlier, unless it is one itself.
#[verifier::rlimit(40)]
proof fn lemma_prepared(c: Cluster, run: Seq<Cast>, k: int, q: Cert) -> (r: (int, Cert))
    requires
        tolerable(c),
        correct_run(c, run),
        genuine(c, run, k, q),
    ensures
        0 <= r.0 <= k,
        genuine(c, run, r.0, r.1),
        r.1.msg_type == MsgType::Prepare,
        r.1.view == q.view,
        r.1.node_hash == q.node_hash,
    decreases
            (if q.msg_type == MsgType::Prepare {
                0int
            } else if q.msg_type == MsgType::PreCommit {
                1
            } else {
                2
            }),
{
    let w = lemma_correct_signer(c, q, q);
    assert(has_cast(run, k, w, q.msg_type, q.view, q.node_hash));
    let i = choose|i: int|
        0 <= i < k && i < run.len() && (#[trigger] run[i]).who == w && run[i].phase == q.msg_type
            && run[i].view() == q.view && run[i].node() == q.node_hash;
    assert(run[i].fires() && sound(run[i].before.rs) && well_founded(c, run, i));
    if q.msg_type == MsgType::Prepare {
        (k, q)
    } else {
        let rs = run[i].before.rs;
        let p = staged(rs, q.msg_type)[rs.view];
        assert(staged(rs, q.msg_type).contains_key(rs.view));
        lemma_prepared(c, run, i, p)
    }
}

/// What is prepared after a node was committed descends from that node.
#[verifier::rlimit(40)]
proof fn lemma_prepared_descends(
    c: Cluster,
    run: Seq<Cast>,
    l: int,
    committed: Cert,
    k: int,
    prepared: Cert,
)
    requires
        tolerable(c),
        correct_run(c, run),
        genuine(c, run, l, committed),
        committed.msg_type == MsgType::Commit,
        genuine(c, run, k, prepared),
        prepared.msg_type == MsgType::Prepare,
        committed.view < prepared.view,
    ensures
        descends(prepared.node_hash, committed.node_hash),
    decreases k, 0int,
{
    let v = committed.view;
    let r = lemma_correct_signer(c, committed, prepared);
    assert(has_cast(run, k, r, MsgType::Prepare, prepared.view, prepared.node_hash));
    assert(has_cast(run, l, r, MsgType::Commit, v, committed.node_hash));
    let i = choose|i: int|
        0 <= i < k && i < run.len() && (#[trigger] run[i]).who == r && run[i].phase
            == MsgType::Prepare && run[i].view() == prepared.view && run[i].node()
            == prepared.node_hash;
    let j = choose|j: int|
        0 <= j < l && j < run.len() && (#[trigger] run[j]).who == r && run[j].phase
            == MsgType::Commit && run[j].view() == v && run[j].node() == committed.node_hash;
    if i < j {
        lemma_votes_in_order(c, run, i, j);
    }
    lemma_votes_in_order(c, run, j, i);
    let rs = run[i].before.rs;
    assert(run[i].fires() && sound(rs) && well_founded(c, run, i));
    let lock = rs.locked_qc->0;
    let proposal = rs.round(rs.view).proposal->0;
    let leaf = proposal.0;
    assert(hash_of(leaf) == prepared.node_hash);
    if extends(hash_of(leaf), leaf, lock.node_hash, rs.tree) {
        lemma_extends(leaf, lock.node_hash, rs.tree);
        lemma_on_chain(c, run, l, committed, i, lock);
        lemma_descends_composes(prepared.node_hash, lock.node_hash, committed.node_hash);
    } else {
        let just = proposal.1->0;
        assert(leaf.parent == just.node_hash);
        lemma_on_chain(c, run, l, committed, i, just);
        lemma_parent(leaf, committed.node_hash);
    }
}

/// A genuine certificate of the view of a committed node or a later one is for
/// a node that descends from it.
proof fn lemma_on_chain(c: Cluster, run: Seq<Cast>, l: int, committed: Cert, k: int, q: Cert)
    requires
        tolerable(c),
        correct_run(c, run),
        genuine(c, run, l, committed),
        committed.msg_type == MsgType::Commit,
        genuine(c, run, k, q),
        committed.view <= q.view,
    ensures
        descends(q.node_hash, committed.node_hash),
    decreases k, 1int,
{
    let (m, p) = lemma_prepared(c, run, k, q);
    if q.view == committed.view {
        let (m0, p0) = lemma_prepared(c, run, l, committed);
        lemma_one_per_view(c, run, m, p, m0, p0);
        lemma_descends_refl(q.node_hash);
    } else {
        lemma_prepared_descends(c, run, l, committed, m, p);
    }
}

/// Agreement: of two nodes that were committed by genuine certificates, one
/// descends from the other. In one view they are the same.
pub proof fn law_agreement(c: Cluster, run: Seq<Cast>, p: Cert, q: Cert)
    requires
        tolerable(c),
        correct_run(c, run),
        p.msg_type == MsgType::Commit,
        q.msg_type == MsgType::Commit,
        genuine(c, run, run.len() as int, p),
        genuine(c, run, run.len() as int, q),
        p.view <= q.view,
    ensures
        descends(q.node_hash, p.node_hash),
        p.view == q.view ==> p.node_hash == q.node_hash,
{
    let k = run.len() as int;
    lemma_on_chain(c, run, k, p, k, q);
    if p.view == q.view {
        lemma_one_per_view(c, run, k, p, k, q);
    }
}

} // verus!
