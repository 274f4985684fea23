//! Duties: what each rule, message and timer has to bring about, and when.
//!
//! Each law names the situation in terms of what the replica knows, and says
//! what is sent, logged and recorded then, and that nothing else changes.

use crate::action::{Effect, Event, Fault, SkipReason, Warning};
use crate::consensus::laws::sound;
use crate::consensus::model::{
    kick_step, leader_phase_step, leader_prepare_step, may_open, new_view_step, outcome_step,
    pass_prepare, pass_vote, propose_on_step, replica_phase_step, replica_prepare_step, start_step,
    timer_step, Local, Me,
};
use crate::consensus::qc::{forms, law_quorum_makes_a_certificate};
use crate::consensus::rules::leads_phase;
use crate::crypto::ed25519_signature;
use crate::messages::{genesis, hash_of, vote_bytes, Cert, Msg, MsgType, Node};
use crate::state::{reaches, Replica, Round};
use crate::validator::Outcome;
use vstd::arithmetic::power2::{lemma2_to64, lemma_pow2_unfold, pow2};
use vstd::prelude::*;

verus! {

/// Whether `b` differs from `a` in the record of `view` at most.
pub open spec fn same_but_view(a: Replica, b: Replica, view: u64) -> bool {
    &&& b == Replica { view_data: b.view_data, ..a }
    &&& forall|w: u64| w != view ==> #[trigger] b.round(w) == a.round(w)
}

/// The view that is left for `view`; nothing comes before view 0.
pub open spec fn left_view(view: u64) -> u64 {
    if view >= 1 {
        (view - 1) as u64
    } else {
        0
    }
}

// ---- PREPARE ----

/// A replica votes for what it may vote for. The proposal of its view, whose
/// hash is `h`, gets its PREPARE vote if it has not voted PREPARE in the view
/// yet, the block is valid, and there is no lock, or the node is the locked one
/// or descends from it, or the highQC is newer than the lock. The vote goes to
/// the leader of the view, or is counted where the replica leads it.
pub proof fn law_safe_proposal_is_voted_for(l: Local, me: Me, h: [u8; 32], sig: Seq<u8>)
    requires
        l.rs.round(l.rs.view).proposal is Some,
        !l.rs.round(l.rs.view).voted_prepare,
        l.rs.validation_result.contains_key(h),
        l.rs.validation_result[h],
        ({
            let (leaf, high) = l.rs.round(l.rs.view).proposal->0;
            l.rs.locked_qc matches Some(lock) ==> {
                ||| h == lock.node_hash
                ||| reaches(l.rs.tree, leaf.parent, lock.node_hash)
                ||| high is Some && high->0.view > lock.view
            }
        }),
    ensures
        ({
            let v = l.rs.view;
            let r = l.rs.round(v);
            let leader = l.rs.leader(v);
            let after = replica_prepare_step(l, me, h, sig);
            let said = Effect::Log { view: v, event: Event::PrepareVoteSend { leaf_hash: h } };
            &&& same_but_view(l.rs, after.rs, v)
            &&& leader != me.id ==> {
                &&& after.out == l.out + seq![
                    Effect::SendTo {
                        peer: leader,
                        msg: Msg::Vote {
                            msg_type: MsgType::Prepare,
                            view: v,
                            node_hash: h,
                            voter: me.id,
                            partial_sig: sig,
                        },
                    },
                    said,
                ]
                &&& after.rs.round(v) == Round { voted_prepare: true, ..r }
            }
            &&& leader == me.id ==> {
                &&& after.out == l.out + seq![said]
                &&& after.rs.round(v) == Round {
                    voted_prepare: true,
                    prepare_votes: r.prepare_votes.insert(me.id, (h, sig)),
                    ..r
                }
            }
        }),
{
}

/// A replica does not vote for what it may not vote for: a block that is not
/// valid, or a node that neither is the locked one, nor descends from it, nor
/// has a highQC that is newer than the lock. It says why, and leaves it at that
/// for the view.
pub proof fn law_unsafe_proposal_is_skipped(l: Local, me: Me, h: [u8; 32], sig: Seq<u8>)
    requires
        l.rs.round(l.rs.view).proposal is Some,
        !l.rs.round(l.rs.view).voted_prepare,
        l.rs.validation_result.contains_key(h),
    ensures
        ({
            let v = l.rs.view;
            let (leaf, high) = l.rs.round(v).proposal->0;
            let conflicts = l.rs.locked_qc matches Some(lock) && h != lock.node_hash && !reaches(
                l.rs.tree,
                leaf.parent,
                lock.node_hash,
            ) && (high matches Some(q) ==> q.view <= lock.view);
            let after = replica_prepare_step(l, me, h, sig);
            !l.rs.validation_result[h] || conflicts ==> {
                &&& after.out == l.out + seq![
                    Effect::Log {
                        view: v,
                        event: Event::PrepareSkip {
                            reason: if !l.rs.validation_result[h] {
                                SkipReason::ValidFalse
                            } else {
                                SkipReason::SafeNodeFalse
                            },
                        },
                    },
                ]
                &&& same_but_view(l.rs, after.rs, v)
                &&& after.rs.round(v) == Round { voted_prepare: true, ..l.rs.round(v) }
            }
        }),
{
}

/// Without a proposal, without a verdict on its block, and after it has voted,
/// a replica does nothing in PREPARE.
pub proof fn law_prepare_waits(l: Local, me: Me, h: [u8; 32], sig: Seq<u8>)
    requires
        l.rs.round(l.rs.view).proposal is None || l.rs.round(l.rs.view).voted_prepare
            || !l.rs.validation_result.contains_key(h),
    ensures
        replica_prepare_step(l, me, h, sig) == l,
{
}

/// The PREPARE vote is about the proposed node in the replica's view, and
/// signed with the replica's key.
pub proof fn law_prepare_vote_is_signed(l: Local, me: Me)
    requires
        l.rs.round(l.rs.view).proposal is Some,
    ensures
        ({
            let h = hash_of((l.rs.round(l.rs.view).proposal->0).0);
            pass_prepare(l, me) == replica_prepare_step(
                l,
                me,
                h,
                ed25519_signature(me.sk@, vote_bytes(MsgType::Prepare, l.rs.view, h)),
            )
        }),
{
}

/// The leader of a view proposes as soon as a quorum has left the view before:
/// on top of the node of `high`, or of genesis where there is no certificate,
/// the block of the next height. It broadcasts the new node with its
/// certificate, keeps both, and has the block validated.
pub proof fn law_leader_proposes(
    l: Local,
    me: Me,
    live: Map<u32, u64>,
    high: Option<Cert>,
    h: [u8; 32],
)
    requires
        l.rs.leader(l.rs.view) == me.id,
        !l.rs.round(l.rs.view).broadcast_proposal,
        l.rs.round(left_view(l.rs.view)).new_view_msgs.dom().len() >= l.rs.quorum,
        high matches Some(q) ==> l.rs.tree.contains_key(q.node_hash),
    ensures
        ({
            let v = l.rs.view;
            let r = l.rs.round(v);
            let height: int = match high {
                Some(q) => l.rs.tree[q.node_hash].height + 1,
                None => 0,
            };
            let leaf = Node {
                parent: match high {
                    Some(q) => q.node_hash,
                    None => genesis(),
                },
                cmd: me.work.blocks[height].cmd,
                height: height as u64,
            };
            let (after, fault) = leader_prepare_step(l, me, live, high, h);
            let told = Local {
                rs: Replica {
                    tree: l.rs.tree.insert(h, leaf),
                    view_data: l.rs.view_data.insert(
                        v,
                        Round {
                            proposal: if r.proposal is Some {
                                r.proposal
                            } else {
                                Some((leaf, high))
                            },
                            broadcast_proposal: true,
                            ..r
                        },
                    ),
                    ..l.rs
                },
                out: l.out + seq![
                    Effect::Log {
                        view: v,
                        event: Event::ProposeSend {
                            leaf_hash: h,
                            leaf_height: height as u64,
                            high_qc_view: match high {
                                Some(q) => q.view,
                                None => 0,
                            },
                        },
                    },
                    Effect::Broadcast {
                        msg: Msg::Proposal { view: v, node: leaf, justify: high, sender: me.id },
                    },
                ],
            };
            &&& height < me.work.num_blocks && height < me.work.blocks.len() ==> (
            after,
            fault,
        ) == kick_step(told, me, live, h)
            &&& height < me.work.num_blocks && height >= me.work.blocks.len() ==> {
                &&& fault == Some(Fault::NoBlock { height: height as u64 })
                &&& after.out == l.out
                &&& same_but_view(l.rs, after.rs, v)
                &&& after.rs.round(v) == r
            }
            &&& height >= me.work.num_blocks ==> fault is None && after.out == l.out
                && same_but_view(l.rs, after.rs, v) && after.rs.round(v) == r
        }),
{
    let v = l.rs.view;
    assert(l.touched(v).rs.round(v) == l.rs.round(v));
    let r = l.rs.round(v);
    let a = leader_prepare_step(l, me, live, high, h);
    assert(l.touched(v).rs.view_data.insert(v, r) =~= l.rs.view_data.insert(v, r));
    assert forall|x: Round| #[trigger] l.touched(v).rs.view_data.insert(v, x)
        == l.rs.view_data.insert(v, x) by {
        assert(l.touched(v).rs.view_data.insert(v, x) =~= l.rs.view_data.insert(v, x));
    }
}

/// Only the leader of a view proposes, once, and only after a quorum has left
/// the view before.
pub proof fn law_proposing_waits(
    l: Local,
    me: Me,
    live: Map<u32, u64>,
    high: Option<Cert>,
    h: [u8; 32],
)
    requires
        l.rs.leader(l.rs.view) != me.id || l.rs.round(l.rs.view).broadcast_proposal
            || l.rs.round(left_view(l.rs.view)).new_view_msgs.dom().len() < l.rs.quorum,
    ensures
        ({
            let (after, fault) = leader_prepare_step(l, me, live, high, h);
            &&& fault is None
            &&& after.out == l.out
            &&& same_but_view(l.rs, after.rs, l.rs.view)
            &&& after.rs.round(l.rs.view) == l.rs.round(l.rs.view)
        }),
{
}

/// A leader that does not know the node of its certificate proposes nothing,
/// and says so.
pub proof fn law_unknown_parent_is_not_extended(
    l: Local,
    me: Me,
    live: Map<u32, u64>,
    q: Cert,
    h: [u8; 32],
)
    requires
        !l.rs.tree.contains_key(q.node_hash),
    ensures
        ({
            let v = l.rs.view;
            let (after, fault) = leader_prepare_step(l, me, live, Some(q), h);
            l.rs.leader(v) == me.id && !l.rs.round(v).broadcast_proposal && l.rs.round(
                left_view(v),
            ).new_view_msgs.dom().len() >= l.rs.quorum ==> {
                &&& fault is None
                &&& after.out == l.out.push(Effect::Warn { warning: Warning::HighQcNodeUnknown })
                &&& same_but_view(l.rs, after.rs, v)
                &&& after.rs.round(v) == l.rs.round(v)
            }
        }),
        propose_on_step(l, me, live, Some(q), h) == (
            Local {
                out: l.out.push(Effect::Warn { warning: Warning::HighQcNodeUnknown }),
                ..l
            },
            None::<Fault>,
        ),
{
}

// ---- PRE-COMMIT and COMMIT ----

/// A replica votes PRE-COMMIT for the node of the certificate that opened the
/// phase, once in a view, and makes the certificate its prepareQC.
pub proof fn law_pre_commit_is_voted(l: Local, me: Me, sig: Seq<u8>)
    requires
        l.rs.round(l.rs.view).seen_pre_commit_qc,
        !l.rs.round(l.rs.view).voted_precommit,
        l.rs.staged_pre_commit_qc.contains_key(l.rs.view),
    ensures
        ({
            let v = l.rs.view;
            let r = l.rs.round(v);
            let q = l.rs.staged_pre_commit_qc[v];
            let leader = l.rs.leader(v);
            let after = replica_phase_step(l, me, MsgType::PreCommit, sig);
            let said = Effect::Log {
                view: v,
                event: Event::PreCommitVoteSend { node_hash: q.node_hash },
            };
            &&& same_but_view(Replica { prepare_qc: Some(q), ..l.rs }, after.rs, v)
            &&& leader != me.id ==> {
                &&& after.out == l.out + seq![
                    Effect::SendTo {
                        peer: leader,
                        msg: Msg::Vote {
                            msg_type: MsgType::PreCommit,
                            view: v,
                            node_hash: q.node_hash,
                            voter: me.id,
                            partial_sig: sig,
                        },
                    },
                    said,
                ]
                &&& after.rs.round(v) == Round { voted_precommit: true, ..r }
            }
            &&& leader == me.id ==> {
                &&& after.out == l.out + seq![said]
                &&& after.rs.round(v) == Round {
                    voted_precommit: true,
                    precommit_votes: r.precommit_votes.insert(me.id, (q.node_hash, sig)),
                    ..r
                }
            }
        }),
{
}

/// A replica votes COMMIT for the node of the certificate that opened the
/// phase, once in a view, and locks the certificate.
pub proof fn law_commit_is_voted(l: Local, me: Me, sig: Seq<u8>)
    requires
        l.rs.round(l.rs.view).seen_commit_qc,
        !l.rs.round(l.rs.view).voted_commit,
        l.rs.staged_commit_qc.contains_key(l.rs.view),
    ensures
        ({
            let v = l.rs.view;
            let r = l.rs.round(v);
            let q = l.rs.staged_commit_qc[v];
            let leader = l.rs.leader(v);
            let after = replica_phase_step(l, me, MsgType::Commit, sig);
            let said = Effect::Log {
                view: v,
                event: Event::CommitVoteSend { node_hash: q.node_hash },
            };
            &&& same_but_view(Replica { locked_qc: Some(q), ..l.rs }, after.rs, v)
            &&& leader != me.id ==> {
                &&& after.out == l.out + seq![
                    Effect::SendTo {
                        peer: leader,
                        msg: Msg::Vote {
                            msg_type: MsgType::Commit,
                            view: v,
                            node_hash: q.node_hash,
                            voter: me.id,
                            partial_sig: sig,
                        },
                    },
                    said,
                ]
                &&& after.rs.round(v) == Round { voted_commit: true, ..r }
            }
            &&& leader == me.id ==> {
                &&& after.out == l.out + seq![said]
                &&& after.rs.round(v) == Round {
                    voted_commit: true,
                    commit_votes: r.commit_votes.insert(me.id, (q.node_hash, sig)),
                    ..r
                }
            }
        }),
{
}

/// Without a certificate, and after it has voted, a replica votes neither
/// PRE-COMMIT nor COMMIT.
pub proof fn law_voting_waits(l: Local, me: Me, sig: Seq<u8>)
    ensures
        ({
            let v = l.rs.view;
            let r = l.rs.round(v);
            let a = replica_phase_step(l, me, MsgType::PreCommit, sig);
            let b = replica_phase_step(l, me, MsgType::Commit, sig);
            &&& !r.seen_pre_commit_qc || r.voted_precommit
                || !l.rs.staged_pre_commit_qc.contains_key(v) ==> {
                &&& a.out == l.out
                &&& same_but_view(l.rs, a.rs, v)
                &&& a.rs.round(v) == r
            }
            &&& !r.seen_commit_qc || r.voted_commit || !l.rs.staged_commit_qc.contains_key(v) ==> {
                &&& b.out == l.out
                &&& same_but_view(l.rs, b.rs, v)
                &&& b.rs.round(v) == r
            }
        }),
{
}

/// PRE-COMMIT and COMMIT votes are about the node of the certificate, in the
/// replica's view, and signed with the replica's key.
pub proof fn law_phase_votes_are_signed(l: Local, me: Me)
    ensures
        ({
            let v = l.rs.view;
            &&& pass_vote(l, me, MsgType::PreCommit) == replica_phase_step(
                l,
                me,
                MsgType::PreCommit,
                ed25519_signature(
                    me.sk@,
                    vote_bytes(MsgType::PreCommit, v, l.rs.staged_pre_commit_qc[v].node_hash),
                ),
            )
            &&& pass_vote(l, me, MsgType::Commit) == replica_phase_step(
                l,
                me,
                MsgType::Commit,
                ed25519_signature(
                    me.sk@,
                    vote_bytes(MsgType::Commit, v, l.rs.staged_commit_qc[v].node_hash),
                ),
            )
        }),
{
}

// ---- Opening a phase ----

/// PRE-COMMIT is opened with a certificate of the PREPARE votes of the view,
/// COMMIT with one of the PRE-COMMIT votes, DECIDE with one of the COMMIT votes.
pub proof fn law_phases_follow_each_other(rs: Replica, q: Option<Cert>)
    ensures
        ({
            let id = rs.leader(rs.view);
            let r = rs.round(rs.view);
            &&& !r.broadcast_pre_commit && may_open(rs, id, MsgType::PreCommit, q) ==> forms(
                r.prepare_votes,
                MsgType::Prepare,
                rs.view,
                rs.quorum,
                q,
            )
            &&& !r.broadcast_commit && may_open(rs, id, MsgType::Commit, q) ==> forms(
                r.precommit_votes,
                MsgType::PreCommit,
                rs.view,
                rs.quorum,
                q,
            )
            &&& !r.broadcast_decide && may_open(rs, id, MsgType::Decide, q) ==> forms(
                r.commit_votes,
                MsgType::Commit,
                rs.view,
                rs.quorum,
                q,
            )
        }),
{
}

/// What the leader says when it opens `phase` with the certificate `q`.
pub open spec fn opening(me: Me, view: u64, phase: MsgType, q: Cert) -> Seq<Effect> {
    seq![
        Effect::Log { view, event: Event::PhaseQcSend { phase, node_hash: q.node_hash } },
        Effect::Broadcast {
            msg: Msg::PhaseQc { msg_type: phase, view, justify: q, sender: me.id },
        },
    ]
}

/// The leader of a view opens PRE-COMMIT once: it broadcasts the certificate,
/// and acts on it itself, unless it has seen one before.
pub proof fn law_leader_opens_pre_commit(l: Local, me: Me, q: Cert)
    requires
        l.rs.leader(l.rs.view) == me.id,
        !l.rs.round(l.rs.view).broadcast_pre_commit,
    ensures
        ({
            let v = l.rs.view;
            let r = l.rs.round(v);
            let after = leader_phase_step(l, me, MsgType::PreCommit, Some(q));
            &&& after.out == l.out + opening(me, v, MsgType::PreCommit, q)
            &&& after.rs.round(v) == Round {
                broadcast_pre_commit: true,
                seen_pre_commit_qc: true,
                ..r
            }
            &&& same_but_view(
                Replica {
                    staged_pre_commit_qc: if r.seen_pre_commit_qc {
                        l.rs.staged_pre_commit_qc
                    } else {
                        l.rs.staged_pre_commit_qc.insert(v, q)
                    },
                    ..l.rs
                },
                after.rs,
                v,
            )
        }),
{
}

/// The leader of a view opens COMMIT once: it broadcasts the certificate, and
/// acts on it itself, unless it has seen one before.
pub proof fn law_leader_opens_commit(l: Local, me: Me, q: Cert)
    requires
        l.rs.leader(l.rs.view) == me.id,
        !l.rs.round(l.rs.view).broadcast_commit,
    ensures
        ({
            let v = l.rs.view;
            let r = l.rs.round(v);
            let after = leader_phase_step(l, me, MsgType::Commit, Some(q));
            &&& after.out == l.out + opening(me, v, MsgType::Commit, q)
            &&& after.rs.round(v) == Round { broadcast_commit: true, seen_commit_qc: true, ..r }
            &&& same_but_view(
                Replica {
                    staged_commit_qc: if r.seen_commit_qc {
                        l.rs.staged_commit_qc
                    } else {
                        l.rs.staged_commit_qc.insert(v, q)
                    },
                    ..l.rs
                },
                after.rs,
                v,
            )
        }),
{
}

/// The leader of a view opens DECIDE once: it broadcasts the certificate, and
/// acts on it itself, unless it has seen one before.
pub proof fn law_leader_opens_decide(l: Local, me: Me, q: Cert)
    requires
        l.rs.leader(l.rs.view) == me.id,
        !l.rs.round(l.rs.view).broadcast_decide,
    ensures
        ({
            let v = l.rs.view;
            let r = l.rs.round(v);
            let after = leader_phase_step(l, me, MsgType::Decide, Some(q));
            &&& after.out == l.out + opening(me, v, MsgType::Decide, q)
            &&& after.rs.round(v) == Round { broadcast_decide: true, seen_decide_qc: true, ..r }
            &&& same_but_view(
                Replica {
                    staged_decide_qc: if r.seen_decide_qc {
                        l.rs.staged_decide_qc
                    } else {
                        l.rs.staged_decide_qc.insert(v, q)
                    },
                    ..l.rs
                },
                after.rs,
                v,
            )
        }),
{
}

/// PREPARE votes of a quorum for one node open PRE-COMMIT: the leader that
/// has them, and has not opened the phase, broadcasts a certificate of at least a
/// quorum of them.
pub proof fn law_prepare_quorum_opens_pre_commit(
    l: Local,
    after: Local,
    me: Me,
    h: [u8; 32],
    voters: Set<u32>,
)
    requires
        leads_phase(l, after, me, MsgType::PreCommit),
        l.rs.leader(l.rs.view) == me.id,
        !l.rs.round(l.rs.view).broadcast_pre_commit,
        l.rs.round(l.rs.view).prepare_votes.dom().finite(),
        voters.finite(),
        voters.len() >= l.rs.quorum,
        voters.len() >= 1,
        forall|k: u32| #[trigger]
            voters.contains(k) ==> l.rs.round(l.rs.view).prepare_votes.contains_key(k)
                && l.rs.round(l.rs.view).prepare_votes[k].0 == h,
    ensures
        exists|q: Cert|
            {
                &&& after.out == l.out + #[trigger] opening(me, l.rs.view, MsgType::PreCommit, q)
                &&& q.msg_type == MsgType::Prepare
                &&& q.view == l.rs.view
                &&& q.sigs.len() >= l.rs.quorum
                &&& forall|i: int|
                    0 <= i < q.sigs.len() ==> {
                        let votes = l.rs.round(l.rs.view).prepare_votes;
                        &&& votes.contains_key((#[trigger] q.sigs[i]).0)
                        &&& votes[q.sigs[i].0] == (q.node_hash, q.sigs[i].1)
                    }
            },
{
    let q = choose|q: Option<Cert>|
        may_open(l.rs, me.id, MsgType::PreCommit, q) && after == #[trigger] leader_phase_step(
            l,
            me,
            MsgType::PreCommit,
            q,
        );
    law_phases_follow_each_other(l.rs, q);
    law_quorum_makes_a_certificate(
        l.rs.round(l.rs.view).prepare_votes,
        MsgType::Prepare,
        l.rs.view,
        l.rs.quorum,
        q,
        h,
        voters,
    );
    law_leader_opens_pre_commit(l, me, q->0);
    assert(after.out == l.out + opening(me, l.rs.view, MsgType::PreCommit, q->0));
}

/// PRE-COMMIT votes of a quorum for one node open COMMIT: the leader that
/// has them, and has not opened the phase, broadcasts a certificate of at least a
/// quorum of them.
pub proof fn law_pre_commit_quorum_opens_commit(
    l: Local,
    after: Local,
    me: Me,
    h: [u8; 32],
    voters: Set<u32>,
)
    requires
        leads_phase(l, after, me, MsgType::Commit),
        l.rs.leader(l.rs.view) == me.id,
        !l.rs.round(l.rs.view).broadcast_commit,
        l.rs.round(l.rs.view).precommit_votes.dom().finite(),
        voters.finite(),
        voters.len() >= l.rs.quorum,
        voters.len() >= 1,
        forall|k: u32| #[trigger]
            voters.contains(k) ==> l.rs.round(l.rs.view).precommit_votes.contains_key(k)
                && l.rs.round(l.rs.view).precommit_votes[k].0 == h,
    ensures
        exists|q: Cert|
            {
                &&& after.out == l.out + #[trigger] opening(me, l.rs.view, MsgType::Commit, q)
                &&& q.msg_type == MsgType::PreCommit
                &&& q.view == l.rs.view
                &&& q.sigs.len() >= l.rs.quorum
                &&& forall|i: int|
                    0 <= i < q.sigs.len() ==> {
                        let votes = l.rs.round(l.rs.view).precommit_votes;
                        &&& votes.contains_key((#[trigger] q.sigs[i]).0)
                        &&& votes[q.sigs[i].0] == (q.node_hash, q.sigs[i].1)
                    }
            },
{
    let q = choose|q: Option<Cert>|
        may_open(l.rs, me.id, MsgType::Commit, q) && after == #[trigger] leader_phase_step(
            l,
            me,
            MsgType::Commit,
            q,
        );
    law_phases_follow_each_other(l.rs, q);
    law_quorum_makes_a_certificate(
        l.rs.round(l.rs.view).precommit_votes,
        MsgType::PreCommit,
        l.rs.view,
        l.rs.quorum,
        q,
        h,
        voters,
    );
    law_leader_opens_commit(l, me, q->0);
    assert(after.out == l.out + opening(me, l.rs.view, MsgType::Commit, q->0));
}

/// COMMIT votes of a quorum for one node open DECIDE: the leader that
/// has them, and has not opened the phase, broadcasts a certificate of at least a
/// quorum of them.
pub proof fn law_commit_quorum_opens_decide(
    l: Local,
    after: Local,
    me: Me,
    h: [u8; 32],
    voters: Set<u32>,
)
    requires
        leads_phase(l, after, me, MsgType::Decide),
        l.rs.leader(l.rs.view) == me.id,
        !l.rs.round(l.rs.view).broadcast_decide,
        l.rs.round(l.rs.view).commit_votes.dom().finite(),
        voters.finite(),
        voters.len() >= l.rs.quorum,
        voters.len() >= 1,
        forall|k: u32| #[trigger]
            voters.contains(k) ==> l.rs.round(l.rs.view).commit_votes.contains_key(k)
                && l.rs.round(l.rs.view).commit_votes[k].0 == h,
    ensures
        exists|q: Cert|
            {
                &&& after.out == l.out + #[trigger] opening(me, l.rs.view, MsgType::Decide, q)
                &&& q.msg_type == MsgType::Commit
                &&& q.view == l.rs.view
                &&& q.sigs.len() >= l.rs.quorum
                &&& forall|i: int|
                    0 <= i < q.sigs.len() ==> {
                        let votes = l.rs.round(l.rs.view).commit_votes;
                        &&& votes.contains_key((#[trigger] q.sigs[i]).0)
                        &&& votes[q.sigs[i].0] == (q.node_hash, q.sigs[i].1)
                    }
            },
{
    let q = choose|q: Option<Cert>|
        may_open(l.rs, me.id, MsgType::Decide, q) && after == #[trigger] leader_phase_step(
            l,
            me,
            MsgType::Decide,
            q,
        );
    law_phases_follow_each_other(l.rs, q);
    law_quorum_makes_a_certificate(
        l.rs.round(l.rs.view).commit_votes,
        MsgType::Commit,
        l.rs.view,
        l.rs.quorum,
        q,
        h,
        voters,
    );
    law_leader_opens_decide(l, me, q->0);
    assert(after.out == l.out + opening(me, l.rs.view, MsgType::Decide, q->0));
}

/// Only the leader opens phases, each once, and only with a certificate.
pub proof fn law_opening_waits(l: Local, me: Me, phase: MsgType, q: Option<Cert>)
    requires
        ({
            let r = l.rs.round(l.rs.view);
            ||| l.rs.leader(l.rs.view) != me.id
            ||| q is None
            ||| phase == MsgType::PreCommit && r.broadcast_pre_commit
            ||| phase == MsgType::Commit && r.broadcast_commit
            ||| phase == MsgType::Decide && r.broadcast_decide
        }),
    ensures
        ({
            let after = leader_phase_step(l, me, phase, q);
            &&& after.out == l.out
            &&& same_but_view(l.rs, after.rs, l.rs.view)
            &&& after.rs.round(l.rs.view) == l.rs.round(l.rs.view)
        }),
{
}

// ---- Views ----

/// A replica that leaves its view hands its prepareQC on: it sends NEW-VIEW with
/// it to the leader of the new view, or records it under its own id where it
/// leads the new view itself. It waits for the new view as long as its timeout
/// says.
pub proof fn law_prepare_qc_is_handed_on(l: Local, me: Me, new_view: u64)
    ensures
        ({
            let left = l.rs.view;
            let leader = l.rs.leader(new_view);
            let ms = l.rs.timeout_interval_ms;
            let after = new_view_step(l, me, new_view);
            let entered = Effect::Log {
                view: new_view,
                event: Event::ViewStart { leader, timeout_ms: ms },
            };
            let told = Effect::Log {
                view: new_view,
                event: Event::NewViewSend { to: leader, from_view: left },
            };
            let timer = Effect::ArmTimer { view: new_view, ms };
            &&& leader != me.id ==> {
                &&& after.rs == Replica { view: new_view, ..l.rs }
                &&& after.out == l.out + seq![
                    entered,
                    Effect::SendTo {
                        peer: leader,
                        msg: Msg::NewView {
                            view: left,
                            justify: l.rs.prepare_qc,
                            sender: me.id,
                        },
                    },
                    told,
                    timer,
                ]
            }
            &&& leader == me.id ==> {
                &&& after.out == l.out + seq![entered, told, timer]
                &&& same_but_view(Replica { view: new_view, ..l.rs }, after.rs, left)
                &&& after.rs.round(left) == Round {
                    new_view_msgs: l.rs.round(left).new_view_msgs.insert(
                        me.id,
                        l.rs.prepare_qc,
                    ),
                    ..l.rs.round(left)
                }
            }
        }),
{
}

/// The certificate that a replica hands on is never older than a view in which
/// it voted PRE-COMMIT.
pub proof fn law_handed_on_is_fresh(l: Local, me: Me, new_view: u64, voted_in: u64)
    requires
        sound(l.rs),
        l.rs.round(voted_in).voted_precommit,
    ensures
        ({
            let after = new_view_step(l, me, new_view);
            if l.rs.leader(new_view) == me.id {
                after.rs.round(l.rs.view).new_view_msgs[me.id] matches Some(q) && q.view
                    >= voted_in
            } else {
                after.out[l.out.len() as int + 1] matches Effect::SendTo { peer, msg } && (
                msg matches Msg::NewView { view, justify, sender } && (justify matches Some(q)
                    && q.view >= voted_in))
            }
        }),
{
    law_prepare_qc_is_handed_on(l, me, new_view);
}

/// A replica starts by entering view 1: whoever leads it is told that view 0 is
/// left.
pub proof fn law_start_enters_the_first_view(l: Local, me: Me)
    ensures
        start_step(l, me).rs.view == 1,
        start_step(l, me) == new_view_step(
            Local { rs: Replica { view: 0, ..l.rs }, ..l },
            me,
            1,
        ),
{
}

/// A view that times out undecided doubles the timeout, as far as 64 bits go,
/// and the next view is waited for that long.
pub proof fn law_timeout_doubles(l: Local, me: Me)
    requires
        l.rs.view < u64::MAX,
        !l.rs.round(l.rs.view).seen_decide_qc,
    ensures
        ({
            let t = l.rs.timeout_interval_ms as int;
            let after = timer_step(l, me, l.rs.view);
            let next = (l.rs.view + 1) as u64;
            &&& after.rs.timeout_interval_ms == if 2 * t <= u64::MAX {
                2 * t
            } else {
                u64::MAX as int
            }
            &&& after.rs.view == l.rs.view + 1
            &&& after.out[l.out.len() as int] == (Effect::Log {
                view: l.rs.view,
                event: Event::NextView,
            })
            &&& after.out.last() == (Effect::ArmTimer {
                view: next,
                ms: after.rs.timeout_interval_ms,
            })
            &&& after == new_view_step(
                Local {
                    rs: Replica {
                        timeout_interval_ms: after.rs.timeout_interval_ms,
                        ..l.rs
                    },
                    out: l.out.push(Effect::Log { view: l.rs.view, event: Event::NextView }),
                },
                me,
                next,
            )
        }),
{
}

/// The replica after the timers of `k` views in a row have run out.
pub open spec fn timed_out(l: Local, me: Me, k: nat) -> Local
    decreases k,
{
    if k == 0 {
        l
    } else {
        let before = timed_out(l, me, (k - 1) as nat);
        timer_step(before, me, before.rs.view)
    }
}

/// Back-off is exponential: `k` undecided views in a row that time out leave a
/// timeout of 2^k times the first one, as far as 64 bits go.
pub proof fn law_backoff_is_exponential(l: Local, me: Me, k: nat)
    requires
        l.rs.view + k <= u64::MAX,
        forall|w: u64|
            l.rs.view <= w < l.rs.view + k ==> !(#[trigger] l.rs.round(w)).seen_decide_qc,
    ensures
        ({
            let after = timed_out(l, me, k);
            let wanted = pow2(k) * l.rs.timeout_interval_ms as nat;
            &&& after.rs.view == l.rs.view + k
            &&& after.rs.timeout_interval_ms == if wanted <= u64::MAX {
                wanted as int
            } else {
                u64::MAX as int
            }
            &&& forall|w: u64|
                (#[trigger] after.rs.round(w)).seen_decide_qc == l.rs.round(w).seen_decide_qc
        }),
    decreases k,
{
    let t = l.rs.timeout_interval_ms as nat;
    if k == 0 {
        lemma2_to64();
        assert(pow2(0) * t == t);
    } else {
        let j = (k - 1) as nat;
        law_backoff_is_exponential(l, me, j);
        let before = timed_out(l, me, j);
        lemma_pow2_unfold(k);
        assert(pow2(k) * t == 2 * (pow2(j) * t)) by (nonlinear_arith)
            requires
                pow2(k) == 2 * pow2(j),
        ;
        law_timeout_doubles(before, me);
        let after = timed_out(l, me, k);
        assert forall|w: u64| (#[trigger] after.rs.round(w)).seen_decide_qc == l.rs.round(
            w,
        ).seen_decide_qc by {
            assert(after.rs.round(w).seen_decide_qc == before.rs.round(w).seen_decide_qc);
        }
    }
}

// ---- Outcomes ----

/// The outcome of a validation is kept under its node: the verdict, and the
/// state and roots that come with it. The node is no longer waited for; all
/// that is known of other nodes stays.
pub proof fn law_outcome_is_kept(rs: Replica, o: Outcome, other: [u8; 32])
    requires
        other != o.node_hash,
    ensures
        ({
            let after = outcome_step(rs, o);
            let h = o.node_hash;
            &&& after.validation_result == rs.validation_result.insert(h, o.valid)
            &&& !after.in_flight.contains_key(h)
            &&& after.in_flight.contains_key(other) == rs.in_flight.contains_key(other)
            &&& after.pending_validation == (if rs.pending_validation == Some(h) {
                None
            } else {
                rs.pending_validation
            })
            &&& o.post_state matches Some(s) ==> after.post_state_by_node
                == rs.post_state_by_node.insert(h, s)
            &&& o.post_state is None ==> after.post_state_by_node == rs.post_state_by_node
            &&& o.post_root matches Some(x) ==> after.post_root_by_node
                == rs.post_root_by_node.insert(h, x)
            &&& o.post_root is None ==> after.post_root_by_node == rs.post_root_by_node
            &&& o.pre_root matches Some(x) ==> after.pre_root_by_node
                == rs.pre_root_by_node.insert(h, x)
            &&& o.pre_root is None ==> after.pre_root_by_node == rs.pre_root_by_node
            &&& after == Replica {
                validation_result: after.validation_result,
                in_flight: after.in_flight,
                pending_validation: after.pending_validation,
                post_state_by_node: after.post_state_by_node,
                post_root_by_node: after.post_root_by_node,
                pre_root_by_node: after.pre_root_by_node,
                ..rs
            }
        }),
{
}

} // verus!
