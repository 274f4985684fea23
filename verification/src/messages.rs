//! Wire messages and vote signatures of the HotStuff protocol.
//!
//! Messages of the protocol are typed NEW-VIEW, PREPARE, PRE-COMMIT, COMMIT
//! and DECIDE. Four [`Wire`] variants carry them:
//!
//!   - `Proposal`: the leader's PREPARE broadcast, a new leaf node and the
//!     highQC that justifies it.
//!   - `PhaseQc`: the leader's PRE-COMMIT, COMMIT or DECIDE broadcast, with the
//!     certificate of the phase before.
//!   - `Vote`: a replica's PREPARE, PRE-COMMIT or COMMIT vote, with a signature
//!     over `(msg_type, view, node_hash)`.
//!   - `NewView`: a replica's NEW-VIEW to the leader of the next view, with its
//!     current prepareQC.
//!
//! A certificate is a list of ed25519 signatures of distinct voters.

use crate::bytes::{copy_bytes, le32, le64, lemma_le32, lemma_le64, push_bytes, push_le64};
use crate::codec::encode_vote;
use crate::crypto::{
    ed25519_accepts, ed25519_is_key, ed25519_public, ed25519_signature, sign, verify,
};
use crate::digest::{array32, lemma_array32, sha256, sha256_of};
use vstd::prelude::*;

verus! {

/// The type of a protocol message.
#[derive(Copy, Clone, Debug, PartialEq, Eq, Hash, Structural)]
pub enum MsgType {
    NewView,
    Prepare,
    PreCommit,
    Commit,
    Decide,
}

/// The number that stands for a message type in signed bytes.
pub open spec fn type_tag(t: MsgType) -> u32 {
    match t {
        MsgType::NewView => 0,
        MsgType::Prepare => 1,
        MsgType::PreCommit => 2,
        MsgType::Commit => 3,
        MsgType::Decide => 4,
    }
}

/// The name of a message type in reports.
pub open spec fn phase_name(t: MsgType) -> Seq<char> {
    match t {
        MsgType::NewView => "new_view"@,
        MsgType::Prepare => "prepare"@,
        MsgType::PreCommit => "pre_commit"@,
        MsgType::Commit => "commit"@,
        MsgType::Decide => "decide"@,
    }
}

impl MsgType {
    /// The name of the message type in reports.
    pub fn as_str(&self) -> (r: &'static str)
        ensures
            r@ == phase_name(*self),
    {
        match self {
            MsgType::NewView => "new_view",
            MsgType::Prepare => "prepare",
            MsgType::PreCommit => "pre_commit",
            MsgType::Commit => "commit",
            MsgType::Decide => "decide",
        }
    }

    /// The number that stands for the message type in signed bytes.
    pub fn tag(&self) -> (r: u32)
        ensures
            r == type_tag(*self),
    {
        match self {
            MsgType::NewView => 0,
            MsgType::Prepare => 1,
            MsgType::PreCommit => 2,
            MsgType::Commit => 3,
            MsgType::Decide => 4,
        }
    }
}

/// A tree node: parent link, the command (the transaction hash of a block) it
/// carries, and the height of that block.
#[derive(Clone, Copy, Debug, PartialEq, Eq)]
pub struct Node {
    pub parent: [u8; 32],
    pub cmd: [u8; 32],
    pub height: u64,
}

/// Sentinel parent of the first real node: all zeros. Genesis itself is
/// virtual.
pub open spec fn genesis() -> [u8; 32] {
    array32(Seq::new(32, |i: int| 0u8))
}

/// The sentinel parent of the first real node.
pub fn genesis_hash() -> (r: [u8; 32])
    ensures
        r == genesis(),
        forall|i: int| 0 <= i < 32 ==> #[trigger] r@[i] == 0,
{
    let r = [0u8; 32];
    proof {
        assert(r@ =~= Seq::new(32, |i: int| 0u8));
        lemma_array32(r);
    }
    r
}

/// The bytes that stand for a node.
pub open spec fn node_bytes(n: Node) -> Seq<u8> {
    n.parent@ + n.cmd@ + le64(n.height)
}

/// The hash by which a node is known.
pub open spec fn hash_of(n: Node) -> [u8; 32] {
    array32(sha256_of(node_bytes(n)))
}

/// The bytes that stand for a node.
pub fn encode_node(n: &Node) -> (r: Vec<u8>)
    ensures
        r@ == node_bytes(*n),
{
    let mut out: Vec<u8> = Vec::new();
    push_bytes(&mut out, n.parent.as_slice());
    push_bytes(&mut out, n.cmd.as_slice());
    push_le64(&mut out, n.height);
    assert(out@ =~= node_bytes(*n));
    out
}

/// The hash by which a node is known: SHA-256 of its bytes.
pub fn node_hash(n: &Node) -> (r: [u8; 32])
    ensures
        r == hash_of(*n),
        r@ == sha256_of(node_bytes(*n)),
{
    let bytes = encode_node(n);
    sha256(&bytes)
}

/// Quorum certificate over `(msg_type, view, node_hash)`: signatures of at
/// least `n - f` distinct voters.
#[derive(Debug)]
pub struct QC {
    pub msg_type: MsgType,
    pub view: u64,
    pub node_hash: [u8; 32],
    pub sigs: Vec<(u32, Vec<u8>)>,
}

/// What a certificate says.
#[verifier::ext_equal]
pub struct Cert {
    pub msg_type: MsgType,
    pub view: u64,
    pub node_hash: [u8; 32],
    pub sigs: Seq<(u32, Seq<u8>)>,
}

/// Each voter with the bytes of its signature.
pub open spec fn sigs_view(s: Seq<(u32, Vec<u8>)>) -> Seq<(u32, Seq<u8>)> {
    Seq::new(s.len(), |i: int| (s[i].0, s[i].1@))
}

impl View for QC {
    type V = Cert;

    open spec fn view(&self) -> Cert {
        Cert {
            msg_type: self.msg_type,
            view: self.view,
            node_hash: self.node_hash,
            sigs: sigs_view(self.sigs@),
        }
    }
}

/// What an optional certificate says.
pub open spec fn opt_cert(q: Option<QC>) -> Option<Cert> {
    match q {
        Some(c) => Some(c@),
        None => None,
    }
}

impl Clone for QC {
    fn clone(&self) -> (r: Self)
        ensures
            r@ == self@,
    {
        let mut sigs: Vec<(u32, Vec<u8>)> = Vec::new();
        let mut i: usize = 0;
        while i < self.sigs.len()
            invariant
                i <= self.sigs.len(),
                sigs.len() == i,
                forall|j: int|
                    0 <= j < i ==> (#[trigger] sigs@[j]).0 == self.sigs@[j].0 && sigs@[j].1@
                        == self.sigs@[j].1@,
            decreases self.sigs.len() - i,
        {
            sigs.push((self.sigs[i].0, copy_bytes(self.sigs[i].1.as_slice())));
            i += 1;
        }
        assert(sigs_view(sigs@) =~= sigs_view(self.sigs@));
        QC { msg_type: self.msg_type, view: self.view, node_hash: self.node_hash, sigs }
    }
}

/// Copies an optional certificate.
pub fn clone_qc(q: &Option<QC>) -> (r: Option<QC>)
    ensures
        opt_cert(r) == opt_cert(*q),
{
    match q {
        Some(c) => Some(c.clone()),
        None => None,
    }
}

/// The bytes that a vote signs.
pub open spec fn vote_bytes(msg_type: MsgType, view: u64, node_hash: [u8; 32]) -> Seq<u8> {
    le32(type_tag(msg_type)) + le64(view) + node_hash@
}

/// The signature of a vote under the secret key `sk`.
pub open spec fn vote_signature(
    sk: [u8; 32],
    msg_type: MsgType,
    view: u64,
    node_hash: [u8; 32],
) -> Seq<u8> {
    ed25519_signature(sk@, vote_bytes(msg_type, view, node_hash))
}

/// Whether `sig` signs a vote under the public key `pk`.
pub open spec fn signs_vote(
    pk: [u8; 32],
    msg_type: MsgType,
    view: u64,
    node_hash: [u8; 32],
    sig: Seq<u8>,
) -> bool {
    ed25519_accepts(pk@, vote_bytes(msg_type, view, node_hash), sig)
}

/// Bytes signed by each voter to produce the signature in a vote.
pub fn vote_digest(msg_type: MsgType, view: u64, node_hash: &[u8; 32]) -> (r: Vec<u8>)
    ensures
        r@ == vote_bytes(msg_type, view, *node_hash),
{
    encode_vote(msg_type.tag(), view, node_hash)
}

/// Signs a vote with the secret key `sk`.
pub fn sign_vote(sk: &[u8; 32], msg_type: MsgType, view: u64, node_hash: &[u8; 32]) -> (r: Vec<u8>)
    ensures
        r@ == vote_signature(*sk, msg_type, view, *node_hash),
        r@.len() == 64,
        ed25519_accepts(ed25519_public(sk@), vote_bytes(msg_type, view, *node_hash), r@),
{
    let bytes = vote_digest(msg_type, view, node_hash);
    sign(sk, bytes.as_slice())
}

/// Whether `sig` signs a vote under the public key `pk`.
pub fn verify_vote_sig(
    pk: &[u8; 32],
    msg_type: MsgType,
    view: u64,
    node_hash: &[u8; 32],
    sig: &[u8],
) -> (r: bool)
    ensures
        r == signs_vote(*pk, msg_type, view, *node_hash, sig@),
        r ==> ed25519_is_key(pk@) && sig@.len() == 64,
{
    let bytes = vote_digest(msg_type, view, node_hash);
    verify(pk, bytes.as_slice(), sig)
}

/// A message between replicas.
#[allow(inconsistent_fields)]
#[derive(Debug)]
pub enum Wire {
    /// First message of a connection, in both directions.
    Hello { node_id: u32, pubkey: [u8; 32] },
    /// PREPARE phase from the leader: a freshly created leaf and the highQC
    /// that justifies it (`None` where no replica has a prepareQC yet).
    Proposal { view: u64, node: Node, justify: Option<QC>, sender: u32 },
    /// PRE-COMMIT, COMMIT or DECIDE broadcast from the leader, carrying the
    /// certificate of the phase before.
    PhaseQc { msg_type: MsgType, view: u64, justify: QC, sender: u32 },
    /// PREPARE, PRE-COMMIT or COMMIT vote from a replica.
    Vote {
        msg_type: MsgType,
        view: u64,
        node_hash: [u8; 32],
        voter: u32,
        partial_sig: Vec<u8>,
    },
    /// NEW-VIEW(view = v) is sent by a replica to the leader of view v + 1 as
    /// it leaves view v. Carries the sender's current prepareQC.
    NewView { view: u64, justify: Option<QC>, sender: u32 },
}

/// What a message says.
#[allow(inconsistent_fields)]
#[verifier::ext_equal]
pub enum Msg {
    Hello { node_id: u32, pubkey: [u8; 32] },
    Proposal { view: u64, node: Node, justify: Option<Cert>, sender: u32 },
    PhaseQc { msg_type: MsgType, view: u64, justify: Cert, sender: u32 },
    Vote { msg_type: MsgType, view: u64, node_hash: [u8; 32], voter: u32, partial_sig: Seq<u8> },
    NewView { view: u64, justify: Option<Cert>, sender: u32 },
}

impl View for Wire {
    type V = Msg;

    open spec fn view(&self) -> Msg {
        match *self {
            Wire::Hello { node_id, pubkey } => Msg::Hello { node_id, pubkey },
            Wire::Proposal { view, node, justify, sender } => Msg::Proposal {
                view,
                node,
                justify: opt_cert(justify),
                sender,
            },
            Wire::PhaseQc { msg_type, view, justify, sender } => Msg::PhaseQc {
                msg_type,
                view,
                justify: justify@,
                sender,
            },
            Wire::Vote { msg_type, view, node_hash, voter, partial_sig } => Msg::Vote {
                msg_type,
                view,
                node_hash,
                voter,
                partial_sig: partial_sig@,
            },
            Wire::NewView { view, justify, sender } => Msg::NewView {
                view,
                justify: opt_cert(justify),
                sender,
            },
        }
    }
}

impl Clone for Wire {
    fn clone(&self) -> (r: Self)
        ensures
            r@ == self@,
    {
        match self {
            Wire::Hello { node_id, pubkey } => Wire::Hello { node_id: *node_id, pubkey: *pubkey },
            Wire::Proposal { view, node, justify, sender } => Wire::Proposal {
                view: *view,
                node: *node,
                justify: clone_qc(justify),
                sender: *sender,
            },
            Wire::PhaseQc { msg_type, view, justify, sender } => Wire::PhaseQc {
                msg_type: *msg_type,
                view: *view,
                justify: justify.clone(),
                sender: *sender,
            },
            Wire::Vote { msg_type, view, node_hash, voter, partial_sig } => Wire::Vote {
                msg_type: *msg_type,
                view: *view,
                node_hash: *node_hash,
                voter: *voter,
                partial_sig: copy_bytes(partial_sig.as_slice()),
            },
            Wire::NewView { view, justify, sender } => Wire::NewView {
                view: *view,
                justify: clone_qc(justify),
                sender: *sender,
            },
        }
    }
}

// ---- Laws ----

/// The signed bytes determine the vote: a signature for one phase, view or
/// node says nothing about another.
pub proof fn law_vote_bytes_injective(
    t1: MsgType,
    v1: u64,
    h1: [u8; 32],
    t2: MsgType,
    v2: u64,
    h2: [u8; 32],
)
    requires
        vote_bytes(t1, v1, h1) == vote_bytes(t2, v2, h2),
    ensures
        t1 == t2,
        v1 == v2,
        h1 == h2,
{
    let s = vote_bytes(t1, v1, h1);
    lemma_le32(type_tag(t1));
    lemma_le32(type_tag(t2));
    lemma_le64(v1);
    lemma_le64(v2);
    assert(s.subrange(0, 4) =~= le32(type_tag(t1)));
    assert(s.subrange(0, 4) =~= le32(type_tag(t2)));
    assert(s.subrange(4, 12) =~= le64(v1));
    assert(s.subrange(4, 12) =~= le64(v2));
    assert forall|i: int| 0 <= i < 32 implies h1[i] == h2[i] by {
        assert(s[12 + i] == h1@[i]);
        assert(s[12 + i] == h2@[i]);
    }
    assert(h1 =~= h2);
}

/// The hashed bytes determine the node.
pub proof fn law_node_bytes_injective(a: Node, b: Node)
    requires
        node_bytes(a) == node_bytes(b),
    ensures
        a == b,
{
    let s = node_bytes(a);
    lemma_le64(a.height);
    lemma_le64(b.height);
    assert(s.subrange(64, 72) =~= le64(a.height));
    assert(s.subrange(64, 72) =~= le64(b.height));
    assert forall|i: int| 0 <= i < 32 implies a.parent[i] == b.parent[i] && a.cmd[i]
        == b.cmd[i] by {
        assert(s[i] == a.parent@[i] && s[i] == b.parent@[i]);
        assert(s[32 + i] == a.cmd@[i] && s[32 + i] == b.cmd@[i]);
    }
    assert(a.parent =~= b.parent);
    assert(a.cmd =~= b.cmd);
}


/// A vote signs its type as a 32-bit number, its view as a 64-bit number, both
/// with the lowest byte first, and the hash of its node. The types are numbered
/// in the order of the phases.
pub proof fn law_vote_layout(msg_type: MsgType, view: u64, node_hash: [u8; 32])
    ensures
        vote_bytes(msg_type, view, node_hash) == le32(
            match msg_type {
                MsgType::NewView => 0u32,
                MsgType::Prepare => 1u32,
                MsgType::PreCommit => 2u32,
                MsgType::Commit => 3u32,
                MsgType::Decide => 4u32,
            },
        ) + le64(view) + node_hash@,
        vote_bytes(msg_type, view, node_hash).len() == 44,
{
    lemma_le32(type_tag(msg_type));
    lemma_le64(view);
}

/// A vote is signed with the voter's secret key, and checked with the public key
/// on the same bytes.
pub proof fn law_votes_are_signed_and_checked(
    sk: [u8; 32],
    pk: [u8; 32],
    msg_type: MsgType,
    view: u64,
    node_hash: [u8; 32],
    sig: Seq<u8>,
)
    ensures
        vote_signature(sk, msg_type, view, node_hash) == ed25519_signature(
            sk@,
            vote_bytes(msg_type, view, node_hash),
        ),
        signs_vote(pk, msg_type, view, node_hash, sig) == ed25519_accepts(
            pk@,
            vote_bytes(msg_type, view, node_hash),
            sig,
        ),
{
}

/// A node is hashed as its parent, its command, and its height as a 64-bit
/// number with the lowest byte first.
pub proof fn law_node_layout(n: Node)
    ensures
        node_bytes(n).len() == 72,
        node_bytes(n).take(32) == n.parent@,
        node_bytes(n).subrange(32, 64) == n.cmd@,
        node_bytes(n).skip(64) == le64(n.height),
        hash_of(n) == array32(sha256_of(n.parent@ + n.cmd@ + le64(n.height))),
{
    lemma_le64(n.height);
    assert(node_bytes(n).take(32) =~= n.parent@);
    assert(node_bytes(n).subrange(32, 64) =~= n.cmd@);
    assert(node_bytes(n).skip(64) =~= le64(n.height));
}

/// Genesis is the digest of all zeros.
pub proof fn law_genesis_is_zero(d: [u8; 32])
    requires
        forall|i: int| 0 <= i < 32 ==> #[trigger] d@[i] == 0,
    ensures
        d == genesis(),
{
    assert(d@ =~= Seq::new(32, |i: int| 0u8));
    lemma_array32(d);
}

/// The names of the message types in reports.
pub proof fn law_phases_are_named()
    ensures
        phase_name(MsgType::NewView) == "new_view"@,
        phase_name(MsgType::Prepare) == "prepare"@,
        phase_name(MsgType::PreCommit) == "pre_commit"@,
        phase_name(MsgType::Commit) == "commit"@,
        phase_name(MsgType::Decide) == "decide"@,
{
}

} // verus!
