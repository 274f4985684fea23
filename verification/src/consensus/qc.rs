//! Quorum certificates: collect `n - f` signatures, and check them.
//!
//! A certificate is a plain list of ed25519 signatures. It counts if a quorum
//! of distinct known voters signed its phase, view and node.

use crate::bytes::copy_bytes;
use crate::crypto::ed25519_accepts;
use crate::digest::same;
use crate::messages::{signs_vote, sigs_view, verify_vote_sig, vote_bytes, Cert, MsgType, QC};
use crate::state::{max_faulty, votes_view};
use crate::table::key_list;
use std::collections::{HashMap, HashSet};
use vstd::prelude::*;

verus! {

/// The voters that voted for the node `h`.
pub open spec fn supporters(votes: Map<u32, ([u8; 32], Seq<u8>)>, h: [u8; 32]) -> Set<u32> {
    Set::new(|k: u32| votes.contains_key(k) && votes[k].0 == h)
}

/// Whether `sigs` lists the votes for the node `h`, each voter once.
pub open spec fn lists_votes(
    sigs: Seq<(u32, Seq<u8>)>,
    votes: Map<u32, ([u8; 32], Seq<u8>)>,
    h: [u8; 32],
) -> bool {
    &&& forall|i: int, j: int| 0 <= i < j < sigs.len() ==> sigs[i].0 != sigs[j].0
    &&& forall|i: int|
        0 <= i < sigs.len() ==> votes.contains_key((#[trigger] sigs[i]).0) && votes[sigs[i].0] == (
            h,
            sigs[i].1,
        )
    &&& forall|k: u32| #[trigger]
        votes.contains_key(k) && votes[k].0 == h ==> sigs.contains((k, votes[k].1))
}

/// What collecting `votes` into a certificate gives: a certificate of all the
/// votes for some node that has a quorum, or none where no node has one.
pub open spec fn forms(
    votes: Map<u32, ([u8; 32], Seq<u8>)>,
    msg_type: MsgType,
    view: u64,
    quorum: u32,
    r: Option<Cert>,
) -> bool {
    match r {
        Some(q) => {
            &&& q.msg_type == msg_type
            &&& q.view == view
            &&& lists_votes(q.sigs, votes, q.node_hash)
            &&& q.sigs.len() >= quorum
            &&& q.sigs.len() >= 1
        },
        None => forall|k: u32| #[trigger]
            votes.contains_key(k) ==> supporters(votes, votes[k].0).len() < quorum,
    }
}

/// The voters among `sigs` whose signature was accepted: `verdicts[i]` says
/// whether the signature number `i` was.
pub open spec fn accepted_voters(sigs: Seq<(u32, Seq<u8>)>, verdicts: Seq<bool>) -> Set<u32> {
    Set::new(
        |k: u32| exists|i: int| 0 <= i < sigs.len() && (#[trigger] sigs[i]).0 == k && verdicts[i],
    )
}

/// Whether each signature of a certificate is one of a known voter.
pub open spec fn verdicts_of(q: Cert, keys: Map<u32, [u8; 32]>) -> Seq<bool> {
    Seq::new(
        q.sigs.len(),
        |i: int|
            keys.contains_key(q.sigs[i].0) && signs_vote(
                keys[q.sigs[i].0],
                q.msg_type,
                q.view,
                q.node_hash,
                q.sigs[i].1,
            ),
    )
}

/// The known voters that signed a certificate.
pub open spec fn signers(q: Cert, keys: Map<u32, [u8; 32]>) -> Set<u32> {
    accepted_voters(q.sigs, verdicts_of(q, keys))
}

/// Whether a quorum of known voters signed a certificate.
pub open spec fn certified(q: Cert, quorum: u32, keys: Map<u32, [u8; 32]>) -> bool {
    signers(q, keys).len() >= quorum
}

/// Forms a certificate from collected votes if some node has at least
/// `quorum` of them.
pub fn form_qc(
    votes: &HashMap<u32, ([u8; 32], Vec<u8>)>,
    msg_type: MsgType,
    view: u64,
    quorum: u32,
) -> (r: Option<QC>)
    ensures
        forms(
            votes_view(votes@),
            msg_type,
            view,
            quorum,
            match r {
                Some(q) => Some(q@),
                None => None,
            },
        ),
{
    let ghost model = votes_view(votes@);
    let voters = key_list(votes);
    let mut i: usize = 0;
    while i < voters.len()
        invariant
            i <= voters.len(),
            model == votes_view(votes@),
            voters@.no_duplicates(),
            forall|k: u32| voters@.contains(k) <==> #[trigger] votes@.contains_key(k),
            forall|j: int|
                0 <= j < i ==> supporters(model, model[#[trigger] voters@[j]].0).len() < quorum,
        decreases voters.len() - i,
    {
        assert(voters@.contains(voters@[i as int]));
        if let Some(v) = votes.get(&voters[i]) {
            let h = v.0;
            let sigs = collect_votes(votes, voters.as_slice(), &h);
            if sigs.len() >= quorum as usize {
                proof {
                    let k = voters@[i as int];
                    assert(model.contains_key(k) && model[k].0 == h);
                    assert(sigs_view(sigs@).contains((k, model[k].1)));
                }
                return Some(QC { msg_type, view, node_hash: h, sigs });
            }
        }
        i += 1;
    }
    proof {
        assert forall|k: u32| #[trigger] model.contains_key(k) implies supporters(
            model,
            model[k].0,
        ).len() < quorum by {
            assert(votes@.contains_key(k));
            let j = choose|j: int| 0 <= j < voters@.len() && voters@[j] == k;
            assert(voters@[j] == k);
        }
    }
    None
}

/// The votes for the node `h`, of the voters `voters`.
fn collect_votes(
    votes: &HashMap<u32, ([u8; 32], Vec<u8>)>,
    voters: &[u32],
    h: &[u8; 32],
) -> (r: Vec<(u32, Vec<u8>)>)
    requires
        voters@.no_duplicates(),
        forall|k: u32| voters@.contains(k) <==> #[trigger] votes@.contains_key(k),
    ensures
        lists_votes(sigs_view(r@), votes_view(votes@), *h),
        supporters(votes_view(votes@), *h).len() == r@.len(),
{
    let ghost model = votes_view(votes@);
    let mut sigs: Vec<(u32, Vec<u8>)> = Vec::new();
    let mut i: usize = 0;
    while i < voters.len()
        invariant
            i <= voters.len(),
            model == votes_view(votes@),
            voters@.no_duplicates(),
            forall|k: u32| voters@.contains(k) <==> #[trigger] votes@.contains_key(k),
            forall|a: int, b: int|
                0 <= a < b < sigs@.len() ==> (#[trigger] sigs@[a]).0 != (#[trigger] sigs@[b]).0,
            forall|a: int|
                0 <= a < sigs@.len() ==> model.contains_key((#[trigger] sigs@[a]).0)
                    && model[sigs@[a].0] == (*h, sigs@[a].1@) && voters@.take(i as int).contains(
                    sigs@[a].0,
                ),
            forall|j: int|
                0 <= j < i && model[#[trigger] voters@[j]].0 == *h ==> sigs_view(sigs@).contains(
                    (voters@[j], model[voters@[j]].1),
                ),
        decreases voters.len() - i,
    {
        let ghost before = sigs@;
        let voter = voters[i];
        assert(voters@.contains(voter));
        if let Some(v) = votes.get(&voter) {
            if same(&v.0, h) {
                sigs.push((voter, copy_bytes(v.1.as_slice())));
                proof {
                    assert(sigs_view(sigs@)[sigs@.len() - 1] == (voter, model[voter].1));
                }
            }
        }
        proof {
            assert forall|a: int| 0 <= a < sigs@.len() implies voters@.take(i + 1).contains(
                (#[trigger] sigs@[a]).0,
            ) by {
                if a < before.len() {
                    let j = choose|j: int|
                        0 <= j < i && voters@.take(i as int)[j] == before[a].0;
                    assert(voters@.take(i + 1)[j] == sigs@[a].0);
                } else {
                    assert(voters@.take(i + 1)[i as int] == sigs@[a].0);
                }
            }
            assert forall|j: int| 0 <= j < i + 1 && model[#[trigger] voters@[j]].0
                == *h implies sigs_view(sigs@).contains((voters@[j], model[voters@[j]].1)) by {
                if j < i {
                    let x = (voters@[j], model[voters@[j]].1);
                    let a = choose|a: int| 0 <= a < before.len() && sigs_view(before)[a] == x;
                    assert(sigs_view(sigs@)[a] == x);
                }
            }
            assert forall|a: int, b: int| 0 <= a < b < sigs@.len() implies (#[trigger] sigs@[a]).0
                != (#[trigger] sigs@[b]).0 by {
                if b == before.len() {
                    let j = choose|j: int|
                        0 <= j < i && voters@.take(i as int)[j] == before[a].0;
                    assert(voters@[j] != voters@[i as int]);
                }
            }
        }
        i += 1;
    }
    proof {
        let s = sigs_view(sigs@);
        assert forall|k: u32| #[trigger] model.contains_key(k) && model[k].0
            == *h implies s.contains((k, model[k].1)) by {
            assert(votes@.contains_key(k));
            let j = choose|j: int| 0 <= j < voters@.len() && voters@[j] == k;
            assert(voters@[j] == k);
        }
        lemma_list_len(s, model, *h);
    }
    sigs
}

/// A list of the votes for a node is as long as the node has supporters.
pub(crate) proof fn lemma_list_len(
    sigs: Seq<(u32, Seq<u8>)>,
    votes: Map<u32, ([u8; 32], Seq<u8>)>,
    h: [u8; 32],
)
    requires
        lists_votes(sigs, votes, h),
    ensures
        supporters(votes, h).finite(),
        supporters(votes, h).len() == sigs.len(),
{
    let ks = Seq::new(sigs.len(), |i: int| sigs[i].0);
    assert(ks.no_duplicates());
    ks.unique_seq_to_set();
    assert forall|k: u32| ks.to_set().contains(k) <==> #[trigger] supporters(votes, h).contains(
        k,
    ) by {
        if supporters(votes, h).contains(k) {
            assert(votes.contains_key(k));
            let i = choose|i: int| 0 <= i < sigs.len() && sigs[i] == (k, votes[k].1);
            assert(ks[i] == k);
        }
        if ks.to_set().contains(k) {
            let i = choose|i: int| 0 <= i < ks.len() && ks[i] == k;
            assert(sigs[i].0 == k);
        }
    }
    assert(ks.to_set() =~= supporters(votes, h));
}

/// Whether the voters with an accepted signature are a quorum: `verdicts[i]`
/// says whether the signature number `i` was accepted.
pub fn quorum_accepted(qc: &QC, verdicts: &Vec<bool>, quorum: u32) -> (r: bool)
    requires
        verdicts@.len() == qc.sigs@.len(),
    ensures
        accepted_voters(qc@.sigs, verdicts@).finite(),
        r == (accepted_voters(qc@.sigs, verdicts@).len() >= quorum),
{
    let mut seen: HashSet<u32> = HashSet::new();
    let mut i: usize = 0;
    proof {
        assert(seen@ =~= accepted_voters(qc@.sigs.take(0), verdicts@));
    }
    while i < qc.sigs.len()
        invariant
            i <= qc.sigs@.len(),
            verdicts@.len() == qc.sigs@.len(),
            seen@ == accepted_voters(qc@.sigs.take(i as int), verdicts@),
            seen@.finite(),
        decreases qc.sigs@.len() - i,
    {
        let voter = qc.sigs[i].0;
        if verdicts[i] {
            let _ = seen.insert(voter);
        }
        proof {
            let s = qc@.sigs.take(i as int);
            let t = qc@.sigs.take(i + 1);
            assert forall|k: u32| seen@.contains(k) <==> #[trigger] accepted_voters(
                t,
                verdicts@,
            ).contains(k) by {
                if accepted_voters(s, verdicts@).contains(k) {
                    let j = choose|j: int|
                        0 <= j < s.len() && (#[trigger] s[j]).0 == k && verdicts@[j];
                    assert(t[j].0 == k && verdicts@[j]);
                }
                if accepted_voters(t, verdicts@).contains(k) {
                    let j = choose|j: int|
                        0 <= j < t.len() && (#[trigger] t[j]).0 == k && verdicts@[j];
                    if j < i {
                        assert(s[j].0 == k && verdicts@[j]);
                    } else {
                        assert(k == voter);
                    }
                }
                if verdicts@[i as int] {
                    assert(t[i as int].0 == voter);
                }
            }
            assert(seen@ =~= accepted_voters(t, verdicts@));
        }
        i += 1;
    }
    assert(qc@.sigs.take(i as int) =~= qc@.sigs);
    seen.len() >= quorum as usize
}

/// Whether a quorum of known voters signed a certificate.
pub fn verify_qc(qc: &QC, quorum: u32, keys: &HashMap<u32, [u8; 32]>) -> (r: bool)
    ensures
        r == certified(qc@, quorum, keys@),
{
    let mut verdicts: Vec<bool> = Vec::new();
    let mut i: usize = 0;
    while i < qc.sigs.len()
        invariant
            i <= qc.sigs@.len(),
            verdicts.len() == i,
            forall|j: int| 0 <= j < i ==> #[trigger] verdicts@[j] == verdicts_of(qc@, keys@)[j],
        decreases qc.sigs@.len() - i,
    {
        let ok = match keys.get(&qc.sigs[i].0) {
            Some(pk) => verify_vote_sig(
                pk,
                qc.msg_type,
                qc.view,
                &qc.node_hash,
                qc.sigs[i].1.as_slice(),
            ),
            None => false,
        };
        verdicts.push(ok);
        i += 1;
    }
    assert(verdicts@ =~= verdicts_of(qc@, keys@));
    quorum_accepted(qc, &verdicts, quorum)
}

// ---- Laws ----

/// The signers of a certificate are finitely many.
proof fn lemma_signers_finite(q: Cert, keys: Map<u32, [u8; 32]>)
    ensures
        signers(q, keys).finite(),
{
    let ks = Seq::new(q.sigs.len(), |i: int| q.sigs[i].0);
    assert forall|k: u32| #[trigger] signers(q, keys).contains(k) implies ks.to_set().contains(k) by {
        let v = verdicts_of(q, keys);
        let i = choose|i: int| 0 <= i < q.sigs.len() && (#[trigger] q.sigs[i]).0 == k && v[i];
        assert(ks[i] == k);
    }
    assert(signers(q, keys).subset_of(ks.to_set()));
    vstd::set_lib::lemma_len_subset(signers(q, keys), ks.to_set());
}

/// A certificate that a leader forms from votes with good signatures is
/// accepted by everybody who knows the voters' keys.
pub proof fn law_formed_qc_is_certified(
    votes: Map<u32, ([u8; 32], Seq<u8>)>,
    msg_type: MsgType,
    view: u64,
    quorum: u32,
    q: Cert,
    keys: Map<u32, [u8; 32]>,
)
    requires
        forms(votes, msg_type, view, quorum, Some(q)),
        forall|k: u32| #[trigger]
            votes.contains_key(k) ==> keys.contains_key(k) && signs_vote(
                keys[k],
                msg_type,
                view,
                votes[k].0,
                votes[k].1,
            ),
    ensures
        certified(q, quorum, keys),
{
    let v = verdicts_of(q, keys);
    assert forall|k: u32| supporters(votes, q.node_hash).contains(k) implies #[trigger] signers(
        q,
        keys,
    ).contains(k) by {
        assert(votes.contains_key(k));
        let i = choose|i: int| 0 <= i < q.sigs.len() && q.sigs[i] == (k, votes[k].1);
        assert(q.sigs[i].0 == k && v[i]);
    }
    lemma_list_len(q.sigs, votes, q.node_hash);
    lemma_signers_finite(q, keys);
    vstd::set_lib::lemma_len_subset(supporters(votes, q.node_hash), signers(q, keys));
}

/// Two quorums of `n - f` among `n` voters share more than `f` of them.
pub proof fn law_quorums_intersect(n: u32, all: Set<u32>, a: Set<u32>, b: Set<u32>)
    requires
        n >= 1,
        all.finite(),
        all.len() <= n,
        a.subset_of(all),
        b.subset_of(all),
        a.len() >= n - max_faulty(n),
        b.len() >= n - max_faulty(n),
    ensures
        a.intersect(b).len() >= max_faulty(n) + 1,
{
    vstd::set_lib::lemma_len_subset(a, all);
    vstd::set_lib::lemma_len_subset(b, all);
    vstd::set_lib::lemma_set_intersect_union_lens(a, b);
    assert(a.union(b).subset_of(all));
    vstd::set_lib::lemma_len_subset(a.union(b), all);
}

/// Two certificates for different nodes in one phase of one view need more
/// than `f` voters that signed for both nodes.
pub proof fn law_conflicting_certificates_need_double_voters(
    n: u32,
    keys: Map<u32, [u8; 32]>,
    p: Cert,
    q: Cert,
)
    requires
        n >= 1,
        keys.dom().finite(),
        keys.dom().len() <= n,
        p.msg_type == q.msg_type,
        p.view == q.view,
        p.node_hash != q.node_hash,
        certified(p, (n - max_faulty(n)) as u32, keys),
        certified(q, (n - max_faulty(n)) as u32, keys),
    ensures
        signers(p, keys).intersect(signers(q, keys)).len() >= max_faulty(n) + 1,
        forall|k: u32| #[trigger]
            signers(p, keys).intersect(signers(q, keys)).contains(k) ==> exists|s: Seq<u8>, t: Seq<u8>|

                #[trigger] signs_vote(keys[k], p.msg_type, p.view, p.node_hash, s) && #[trigger] signs_vote(
                    keys[k],
                    p.msg_type,
                    p.view,
                    q.node_hash,
                    t,
                ),
{
    lemma_signers_known(p, keys);
    lemma_signers_known(q, keys);
    law_quorums_intersect(n, keys.dom(), signers(p, keys), signers(q, keys));
    assert forall|k: u32| #[trigger]
        signers(p, keys).intersect(signers(q, keys)).contains(k) implies exists|
        s: Seq<u8>,
        t: Seq<u8>,
    | #[trigger]
        signs_vote(keys[k], p.msg_type, p.view, p.node_hash, s) && #[trigger] signs_vote(
            keys[k],
            p.msg_type,
            p.view,
            q.node_hash,
            t,
        ) by {
        let v = verdicts_of(p, keys);
        let w = verdicts_of(q, keys);
        let i = choose|i: int| 0 <= i < p.sigs.len() && (#[trigger] p.sigs[i]).0 == k && v[i];
        let j = choose|j: int| 0 <= j < q.sigs.len() && (#[trigger] q.sigs[j]).0 == k && w[j];
        assert(signs_vote(keys[k], p.msg_type, p.view, p.node_hash, p.sigs[i].1));
        assert(signs_vote(keys[k], p.msg_type, p.view, q.node_hash, q.sigs[j].1));
    }
}

pub(crate) proof fn lemma_signers_known(q: Cert, keys: Map<u32, [u8; 32]>)
    ensures
        signers(q, keys).subset_of(keys.dom()),
{
    let v = verdicts_of(q, keys);
    assert forall|k: u32| #[trigger] signers(q, keys).contains(k) implies keys.dom().contains(k) by {
        let i = choose|i: int| 0 <= i < q.sigs.len() && (#[trigger] q.sigs[i]).0 == k && v[i];
        assert(v[i]);
    }
}


/// A certificate counts exactly if there is a quorum of voters, each of whose
/// keys is known and each of which has signed the certificate's phase, view and
/// node in it.
pub proof fn law_certified_by_a_quorum(q: Cert, quorum: u32, keys: Map<u32, [u8; 32]>)
    ensures
        certified(q, quorum, keys) <==> exists|voters: Set<u32>|
            voters.finite() && voters.len() >= quorum && #[trigger] all_signed(q, voters, keys),
{
    lemma_signers_finite(q, keys);
    let v = verdicts_of(q, keys);
    if certified(q, quorum, keys) {
        let voters = signers(q, keys);
        assert forall|k: u32| #[trigger] voters.contains(k) implies exists|i: int|
            0 <= i < q.sigs.len() && (#[trigger] q.sigs[i]).0 == k && keys.contains_key(k)
                && ed25519_accepts(
                keys[k]@,
                vote_bytes(q.msg_type, q.view, q.node_hash),
                q.sigs[i].1,
            ) by {
            let i = choose|i: int| 0 <= i < q.sigs.len() && (#[trigger] q.sigs[i]).0 == k && v[i];
            assert(q.sigs[i].0 == k);
        }
        assert(all_signed(q, voters, keys));
    }
    if exists|voters: Set<u32>|
        voters.finite() && voters.len() >= quorum && #[trigger] all_signed(q, voters, keys) {
        let voters = choose|voters: Set<u32>|
            voters.finite() && voters.len() >= quorum && #[trigger] all_signed(q, voters, keys);
        assert forall|k: u32| #[trigger] voters.contains(k) implies signers(q, keys).contains(
            k,
        ) by {
            let i = choose|i: int|
                0 <= i < q.sigs.len() && (#[trigger] q.sigs[i]).0 == k && keys.contains_key(k)
                    && ed25519_accepts(
                    keys[k]@,
                    vote_bytes(q.msg_type, q.view, q.node_hash),
                    q.sigs[i].1,
                );
            assert(q.sigs[i].0 == k && v[i]);
        }
        assert(voters.subset_of(signers(q, keys)));
        vstd::set_lib::lemma_len_subset(voters, signers(q, keys));
    }
}

/// Whether the keys of all of `voters` are known, and each has signed the
/// certificate's phase, view and node in it.
pub open spec fn all_signed(q: Cert, voters: Set<u32>, keys: Map<u32, [u8; 32]>) -> bool {
    forall|k: u32| #[trigger]
        voters.contains(k) ==> exists|i: int|
            0 <= i < q.sigs.len() && (#[trigger] q.sigs[i]).0 == k && keys.contains_key(k)
                && ed25519_accepts(
                keys[k]@,
                vote_bytes(q.msg_type, q.view, q.node_hash),
                q.sigs[i].1,
            )
}

/// Votes of a quorum for one node make a certificate: wherever `voters`, all for
/// the node `h`, are a quorum, one is formed.
pub proof fn law_quorum_makes_a_certificate(
    votes: Map<u32, ([u8; 32], Seq<u8>)>,
    msg_type: MsgType,
    view: u64,
    quorum: u32,
    r: Option<Cert>,
    h: [u8; 32],
    voters: Set<u32>,
)
    requires
        forms(votes, msg_type, view, quorum, r),
        votes.dom().finite(),
        voters.finite(),
        voters.len() >= quorum,
        voters.len() >= 1,
        forall|k: u32| #[trigger] voters.contains(k) ==> votes.contains_key(k) && votes[k].0 == h,
    ensures
        r is Some,
{
    let k = voters.choose();
    assert(voters.contains(k)) by {
        if voters =~= Set::empty() {
            assert(voters.len() == 0);
        }
    }
    let all = supporters(votes, h);
    assert(voters.subset_of(all));
    assert(all.subset_of(votes.dom()));
    vstd::set_lib::lemma_set_subset_finite(votes.dom(), all);
    vstd::set_lib::lemma_len_subset(voters, all);
    assert(votes[k].0 == h);
}

/// A certificate that is formed is of the given phase and view, and holds the
/// votes of at least a quorum of different voters for its node, as they were
/// cast, and all of them.
pub proof fn law_certificate_holds_the_votes(
    votes: Map<u32, ([u8; 32], Seq<u8>)>,
    msg_type: MsgType,
    view: u64,
    quorum: u32,
    q: Cert,
    i: int,
    j: int,
    k: u32,
)
    requires
        forms(votes, msg_type, view, quorum, Some(q)),
    ensures
        q.msg_type == msg_type,
        q.view == view,
        q.sigs.len() >= quorum,
        q.sigs.len() >= 1,
        0 <= i < q.sigs.len() ==> votes.contains_key(q.sigs[i].0) && votes[q.sigs[i].0] == (
            q.node_hash,
            q.sigs[i].1,
        ),
        0 <= i < j < q.sigs.len() ==> q.sigs[i].0 != q.sigs[j].0,
        votes.contains_key(k) && votes[k].0 == q.node_hash ==> q.sigs.contains((k, votes[k].1)),
{
}

} // verus!
