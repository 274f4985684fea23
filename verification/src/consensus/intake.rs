//! Intake: what becomes of each message that comes in, which blocks are
//! submitted to validation, and what executing a node does.

use crate::action::{Effect, Event, Fault, Warning};
use crate::consensus::duties::same_but_view;
use crate::consensus::model::{
    advance, apply_chain, chain_of, enumerates, execute_node, execute_step, execute_steps,
    is_highest, kick_step, kick_steps, leader_phase_step, leader_prepare_step, message_step,
    new_view_step, ranks_first, replica_decide_step, replica_phase_step, replica_prepare_step,
    unexecuted, Choices, Local, Me, Sys,
};
use crate::consensus::qc::certified;
use crate::crypto::{ed25519_accepts, ed25519_signature};
use crate::messages::{genesis, hash_of, vote_bytes, Cert, Msg, MsgType, Node};
use crate::state::{Replica, Round};
use crate::validator::{Mode, Request};
use vstd::prelude::*;

verus! {

/// The replica, when a message brought nothing but a warning.
pub open spec fn warned(l: Local, warning: Warning) -> Local {
    Local { out: l.out.push(Effect::Warn { warning }), ..l }
}

// ---- Proposals ----

/// A proposal counts if it comes from the leader of its view, and its node
/// stands on the node of its highQC, which a quorum has signed, or on genesis
/// where it has none. The node is kept, the first proposal of a view is kept
/// and logged, and the block is submitted to validation.
pub proof fn law_good_proposal_is_kept(
    l: Local,
    me: Me,
    live: Map<u32, u64>,
    view: u64,
    node: Node,
    justify: Option<Cert>,
    keys: Map<u32, [u8; 32]>,
)
    requires
        match justify {
            Some(q) => certified(q, l.rs.quorum, keys) && node.parent == q.node_hash,
            None => node.parent == genesis(),
        },
    ensures
        ({
            let sender = l.rs.leader(view);
            let h = hash_of(node);
            let r = l.rs.round(view);
            let first = r.proposal is None;
            let kept = Local {
                rs: Replica {
                    tree: l.rs.tree.insert(h, node),
                    view_data: l.rs.view_data.insert(
                        view,
                        if first {
                            Round { proposal: Some((node, justify)), ..r }
                        } else {
                            r
                        },
                    ),
                    ..l.rs
                },
                out: if first {
                    l.out.push(
                        Effect::Log {
                            view,
                            event: Event::ProposeRecv {
                                leaf_hash: h,
                                leaf_height: node.height,
                                high_qc_view: match justify {
                                    Some(q) => q.view,
                                    None => 0,
                                },
                                sender,
                            },
                        },
                    )
                } else {
                    l.out
                },
            };
            message_step(l, me, live, Msg::Proposal { view, node, justify, sender }, keys)
                == kick_step(kept, me, live, h)
        }),
{
}

/// Any other proposal is turned down with a warning, and changes nothing.
pub proof fn law_bad_proposal_is_turned_down(
    l: Local,
    me: Me,
    live: Map<u32, u64>,
    view: u64,
    node: Node,
    justify: Option<Cert>,
    sender: u32,
    keys: Map<u32, [u8; 32]>,
)
    ensures
        ({
            let expected = l.rs.leader(view);
            let after = message_step(
                l,
                me,
                live,
                Msg::Proposal { view, node, justify, sender },
                keys,
            );
            let signed = justify matches Some(q) ==> certified(q, l.rs.quorum, keys);
            let on_top = node.parent == (match justify {
                Some(q) => q.node_hash,
                None => genesis(),
            });
            &&& sender != expected ==> after == (
                warned(l, Warning::ProposalNotFromLeader { sender, expected }),
                None::<Fault>,
            )
            &&& sender == expected && !signed ==> after == (
                warned(l, Warning::ProposalBadHighQc),
                None::<Fault>,
            )
            &&& sender == expected && signed && !on_top ==> after == (
                warned(l, Warning::ProposalWrongParent),
                None::<Fault>,
            )
        }),
{
}

// ---- Certificates ----

/// A certificate counts if it comes from the leader of its view, opens one of
/// the three phases that certificates open, is one of the phase before and of
/// the same view, and a quorum has signed it.
pub open spec fn opens(
    l: Local,
    msg_type: MsgType,
    view: u64,
    justify: Cert,
    sender: u32,
    keys: Map<u32, [u8; 32]>,
) -> bool {
    &&& sender == l.rs.leader(view)
    &&& justify.view == view
    &&& {
        ||| msg_type == MsgType::PreCommit && justify.msg_type == MsgType::Prepare
        ||| msg_type == MsgType::Commit && justify.msg_type == MsgType::PreCommit
        ||| msg_type == MsgType::Decide && justify.msg_type == MsgType::Commit
    }
    &&& certified(justify, l.rs.quorum, keys)
}

/// The first certificate that opens a phase of a view is kept for that view and
/// phase, and logged; a commitQC decides its node. Further ones change nothing.
pub proof fn law_good_certificate_is_kept(
    l: Local,
    me: Me,
    live: Map<u32, u64>,
    msg_type: MsgType,
    view: u64,
    justify: Cert,
    sender: u32,
    keys: Map<u32, [u8; 32]>,
)
    requires
        opens(l, msg_type, view, justify, sender, keys),
    ensures
        ({
            let r = l.rs.round(view);
            let (after, fault) = message_step(
                l,
                me,
                live,
                Msg::PhaseQc { msg_type, view, justify, sender },
                keys,
            );
            let said = l.out.push(
                Effect::Log { view, event: Event::PhaseQcRecv { phase: msg_type } },
            );
            let had = match msg_type {
                MsgType::PreCommit => r.seen_pre_commit_qc,
                MsgType::Commit => r.seen_commit_qc,
                _ => r.seen_decide_qc,
            };
            &&& fault is None
            &&& had ==> {
                &&& after.out == l.out
                &&& same_but_view(l.rs, after.rs, view)
                &&& after.rs.round(view) == r
            }
            &&& !had ==> after.out == said
            &&& !had && msg_type == MsgType::PreCommit ==> {
                &&& after.rs.round(view) == Round { seen_pre_commit_qc: true, ..r }
                &&& same_but_view(
                    Replica {
                        staged_pre_commit_qc: l.rs.staged_pre_commit_qc.insert(view, justify),
                        ..l.rs
                    },
                    after.rs,
                    view,
                )
            }
            &&& !had && msg_type == MsgType::Commit ==> {
                &&& after.rs.round(view) == Round { seen_commit_qc: true, ..r }
                &&& same_but_view(
                    Replica {
                        staged_commit_qc: l.rs.staged_commit_qc.insert(view, justify),
                        ..l.rs
                    },
                    after.rs,
                    view,
                )
            }
            &&& !had && msg_type == MsgType::Decide ==> {
                &&& after.rs.round(view) == Round { seen_decide_qc: true, ..r }
                &&& same_but_view(
                    Replica {
                        staged_decide_qc: l.rs.staged_decide_qc.insert(view, justify),
                        decided_nodes: l.rs.decided_nodes.insert(justify.node_hash, justify),
                        ..l.rs
                    },
                    after.rs,
                    view,
                )
            }
        }),
{
}

/// Any other certificate is turned down with a warning, and changes nothing.
pub proof fn law_bad_certificate_is_turned_down(
    l: Local,
    me: Me,
    live: Map<u32, u64>,
    msg_type: MsgType,
    view: u64,
    justify: Cert,
    sender: u32,
    keys: Map<u32, [u8; 32]>,
)
    requires
        !opens(l, msg_type, view, justify, sender, keys),
    ensures
        ({
            let expected = l.rs.leader(view);
            let phased = msg_type == MsgType::PreCommit || msg_type == MsgType::Commit || msg_type
                == MsgType::Decide;
            let after = message_step(
                l,
                me,
                live,
                Msg::PhaseQc { msg_type, view, justify, sender },
                keys,
            );
            let fits = justify.view == view && {
                ||| msg_type == MsgType::PreCommit && justify.msg_type == MsgType::Prepare
                ||| msg_type == MsgType::Commit && justify.msg_type == MsgType::PreCommit
                ||| msg_type == MsgType::Decide && justify.msg_type == MsgType::Commit
            };
            let warning = if sender != expected {
                Warning::PhaseQcNotFromLeader { sender, expected }
            } else if !phased {
                Warning::PhaseQcBadType { msg_type }
            } else if !fits {
                Warning::PhaseQcMismatch
            } else {
                Warning::PhaseQcBadSigs
            };
            after == (warned(l, warning), None::<Fault>)
        }),
{
}

// ---- Votes ----

/// The first PREPARE, PRE-COMMIT or COMMIT vote of a known voter in a view is
/// counted for its node by the leader of the view, if the voter signed it.
pub proof fn law_good_vote_is_counted(
    l: Local,
    me: Me,
    live: Map<u32, u64>,
    msg_type: MsgType,
    view: u64,
    h: [u8; 32],
    voter: u32,
    sig: Seq<u8>,
    keys: Map<u32, [u8; 32]>,
)
    requires
        l.rs.leader(view) == me.id,
        keys.contains_key(voter),
        ed25519_accepts(keys[voter]@, vote_bytes(msg_type, view, h), sig),
    ensures
        ({
            let r = l.rs.round(view);
            let (after, fault) = message_step(
                l,
                me,
                live,
                Msg::Vote { msg_type, view, node_hash: h, voter, partial_sig: sig },
                keys,
            );
            let said = l.out.push(
                Effect::Log { view, event: Event::VoteRecv { phase: msg_type, voter } },
            );
            let u = after.rs.round(view);
            &&& fault is None
            &&& same_but_view(l.rs, after.rs, view)
            &&& msg_type == MsgType::Prepare ==> if r.prepare_votes.contains_key(voter) {
                u == r && after.out == l.out
            } else {
                u == (Round { prepare_votes: r.prepare_votes.insert(voter, (h, sig)), ..r })
                    && after.out == said
            }
            &&& msg_type == MsgType::PreCommit ==> if r.precommit_votes.contains_key(voter) {
                u == r && after.out == l.out
            } else {
                u == (Round { precommit_votes: r.precommit_votes.insert(voter, (h, sig)), ..r })
                    && after.out == said
            }
            &&& msg_type == MsgType::Commit ==> if r.commit_votes.contains_key(voter) {
                u == r && after.out == l.out
            } else {
                u == (Round { commit_votes: r.commit_votes.insert(voter, (h, sig)), ..r })
                    && after.out == said
            }
            &&& msg_type == MsgType::NewView || msg_type == MsgType::Decide ==> u == r && after.out
                == l.out
        }),
{
}

/// A vote that reaches somebody else than the leader of its view is dropped. The
/// leader turns down a vote of an unknown voter, and one that the voter did not
/// sign, with a warning.
pub proof fn law_bad_vote_is_dropped(
    l: Local,
    me: Me,
    live: Map<u32, u64>,
    msg_type: MsgType,
    view: u64,
    h: [u8; 32],
    voter: u32,
    sig: Seq<u8>,
    keys: Map<u32, [u8; 32]>,
)
    ensures
        ({
            let after = message_step(
                l,
                me,
                live,
                Msg::Vote { msg_type, view, node_hash: h, voter, partial_sig: sig },
                keys,
            );
            let leads = l.rs.leader(view) == me.id;
            &&& !leads ==> after == (l, None::<Fault>)
            &&& leads && !keys.contains_key(voter) ==> after == (
                warned(l, Warning::VoteUnknownVoter { voter }),
                None::<Fault>,
            )
            &&& leads && keys.contains_key(voter) && !ed25519_accepts(
                keys[voter]@,
                vote_bytes(msg_type, view, h),
                sig,
            ) ==> after == (warned(l, Warning::VoteBadSig { voter }), None::<Fault>)
        }),
{
}

// ---- NEW-VIEW ----

/// The leader of the next view keeps the first NEW-VIEW message of each sender,
/// with its prepareQC, if that has been signed by a quorum.
pub proof fn law_new_view_is_counted(
    l: Local,
    me: Me,
    live: Map<u32, u64>,
    view: u64,
    justify: Option<Cert>,
    sender: u32,
    keys: Map<u32, [u8; 32]>,
)
    requires
        view < u64::MAX,
    ensures
        ({
            let r = l.rs.round(view);
            let (after, fault) = message_step(
                l,
                me,
                live,
                Msg::NewView { view, justify, sender },
                keys,
            );
            let leads = l.rs.leader((view + 1) as u64) == me.id;
            let signed = justify matches Some(q) ==> certified(q, l.rs.quorum, keys);
            &&& fault is None
            &&& !leads ==> after == l
            &&& leads && !signed ==> after == warned(l, Warning::NewViewBadJustify)
            &&& leads && signed && r.new_view_msgs.contains_key(sender) ==> {
                &&& after.out == l.out
                &&& same_but_view(l.rs, after.rs, view)
                &&& after.rs.round(view) == r
            }
            &&& leads && signed && !r.new_view_msgs.contains_key(sender) ==> {
                &&& after.out == l.out.push(
                    Effect::Log {
                        view: (view + 1) as u64,
                        event: Event::NewViewRecv { from_view: view, sender },
                    },
                )
                &&& same_but_view(l.rs, after.rs, view)
                &&& after.rs.round(view) == Round {
                    new_view_msgs: r.new_view_msgs.insert(sender, justify),
                    ..r
                }
            }
        }),
{
}

/// A greeting in the middle of a connection changes nothing.
pub proof fn law_greeting_is_dropped(
    l: Local,
    me: Me,
    live: Map<u32, u64>,
    node_id: u32,
    pubkey: [u8; 32],
    keys: Map<u32, [u8; 32]>,
)
    ensures
        message_step(l, me, live, Msg::Hello { node_id, pubkey }, keys) == (l, None::<Fault>),
{
}

/// The certificate on which a leader builds is one of those that it was sent,
/// and none of those is newer; of several that are as new it is the one of the
/// lowest sender. Without one, none was sent.
pub proof fn law_highest_is_newest(msgs: Map<u32, Option<Cert>>, high: Option<Cert>, k: u32)
    requires
        is_highest(msgs, high),
        msgs.contains_key(k),
    ensures
        msgs[k] matches Some(q) ==> high matches Some(p) && q.view <= p.view,
        high matches Some(p) ==> exists|j: u32| #[trigger]
            msgs.contains_key(j) && msgs[j] == high && (msgs[k] matches Some(q) && q.view == p.view
                ==> j <= k),
{
    if high is Some {
        let j = choose|j: u32| #[trigger] ranks_first(msgs, j) && msgs[j] == high;
        assert(msgs.contains_key(j));
    }
}

// ---- Validation ----

/// A block is submitted to validation once its node is known, has no verdict,
/// is not being validated and carries the command of its block, and the state
/// that it starts from is at hand: `input` is that state. It is the live state
/// for a child of genesis before anything has been executed and for a child of
/// the node at the last executed height, and the state kept with the parent
/// where that is higher. A proof needs no state, so that it may be late.
pub proof fn law_ready_block_is_submitted(
    l: Local,
    me: Me,
    live: Map<u32, u64>,
    h: [u8; 32],
    input: Map<u32, u64>,
)
    requires
        l.rs.tree.contains_key(h),
        !l.rs.validation_result.contains_key(h),
        !l.rs.in_flight.contains_key(h),
        l.rs.tree[h].height < me.work.blocks.len(),
        me.work.blocks[l.rs.tree[h].height as int].cmd == l.rs.tree[h].cmd,
        ({
            let parent = l.rs.tree[h].parent;
            let last = l.rs.last_executed_height;
            let at = l.rs.tree[parent].height as i64;
            ||| parent == genesis() && last < 0 && input == live
            ||| parent != genesis() && l.rs.tree.contains_key(parent) && at == last && input == live
            ||| parent != genesis() && l.rs.tree.contains_key(parent) && at > last
                && l.rs.post_state_by_node.contains_key(parent) && input
                == l.rs.post_state_by_node[parent]
            ||| parent != genesis() && l.rs.tree.contains_key(parent) && at < last && me.mode
                == Mode::Verify && input == live
        }),
    ensures
        ({
            let node = l.rs.tree[h];
            let block = me.work.blocks[node.height as int];
            kick_step(l, me, live, h) == (
                Local {
                    rs: Replica {
                        pending_validation: Some(h),
                        in_flight: l.rs.in_flight.insert(h, ()),
                        ..l.rs
                    },
                    out: l.out + seq![
                        Effect::Validate {
                            req: Request {
                                node_hash: h,
                                height: node.height,
                                cmd: block.cmd,
                                txs_path: block.txs_path,
                                proof_path: block.proof_path,
                                txs_total: block.txs_total,
                            },
                            input,
                        },
                        Effect::Log {
                            view: l.rs.view,
                            event: Event::ValidateStart { height: node.height },
                        },
                    ],
                },
                None::<Fault>,
            )
        }),
{
    let after = kick_step(l, me, live, h).0;
    let n = l.out.len() as int;
    assert(after.out =~= l.out + seq![after.out[n], after.out[n + 1]]);
}

/// A block is not submitted twice, nor before its node and the state that it
/// starts from are known; a node that carries another command than its block is
/// reported, and a height without a block is a fault.
pub proof fn law_unready_block_waits(l: Local, me: Me, live: Map<u32, u64>, h: [u8; 32])
    ensures
        ({
            let done = l.rs.validation_result.contains_key(h) || l.rs.in_flight.contains_key(h)
                || !l.rs.tree.contains_key(h);
            let node = l.rs.tree[h];
            let height = node.height;
            let last = l.rs.last_executed_height;
            let parent = node.parent;
            let at = l.rs.tree[parent].height as i64;
            let missing = {
                ||| parent == genesis() && last >= 0
                ||| parent != genesis() && !l.rs.tree.contains_key(parent)
                ||| parent != genesis() && at > last && !l.rs.post_state_by_node.contains_key(
                    parent,
                )
                ||| parent != genesis() && at < last && me.mode == Mode::Reexecute
            };
            let after = kick_step(l, me, live, h);
            &&& done ==> after == (l, None::<Fault>)
            &&& !done && height >= me.work.blocks.len() ==> after == (
                l,
                Some(Fault::NoBlock { height }),
            )
            &&& !done && height < me.work.blocks.len() && me.work.blocks[height as int].cmd
                != node.cmd ==> after == (warned(l, Warning::CmdMismatch { height }), None::<Fault>)
            &&& !done && height < me.work.blocks.len() && me.work.blocks[height as int].cmd
                == node.cmd && missing ==> after == (l, None::<Fault>)
        }),
{
}

/// Of several nodes, each is tried in turn until one is being validated.
pub proof fn law_one_block_at_a_time(
    l: Local,
    me: Me,
    live: Map<u32, u64>,
    h: [u8; 32],
    rest: Seq<[u8; 32]>,
)
    ensures
        kick_steps(l, me, live, Seq::empty()) == (l, None::<Fault>),
        l.rs.pending_validation is Some ==> kick_steps(l, me, live, seq![h] + rest) == (
            l,
            None::<Fault>,
        ),
        l.rs.pending_validation is None ==> ({
            let (l1, fault) = kick_step(l, me, live, h);
            kick_steps(l, me, live, seq![h] + rest) == if fault is Some {
                (l1, fault)
            } else {
                kick_steps(l1, me, live, rest)
            }
        }),
{
    assert((seq![h] + rest).skip(1) =~= rest);
    assert((seq![h] + rest)[0] == h);
}

// ---- Execution ----

/// Executing a node moves the ledger to the state that its validation left, if
/// there is one, and the state root to the one that its proof ends with, if it
/// has one and it starts from the root that was reached; the first block may
/// start anywhere. The node is committed at its height, and what was kept for it
/// is used up.
pub proof fn law_executing_moves_the_ledger(s: Sys, h: [u8; 32])
    ensures
        ({
            let rs = s.local.rs;
            let height = rs.tree[h].height;
            let proven = rs.pre_root_by_node.contains_key(h);
            let breaks = proven && height > 0 && rs.pre_root_by_node[h] != s.root;
            let (after, fault) = execute_node(s, h);
            &&& after.live == (if rs.post_state_by_node.contains_key(h) {
                rs.post_state_by_node[h]
            } else {
                s.live
            })
            &&& after.local.rs == Replica {
                post_state_by_node: rs.post_state_by_node.remove(h),
                post_root_by_node: if proven && !breaks {
                    rs.post_root_by_node.remove(h)
                } else {
                    rs.post_root_by_node
                },
                last_executed_height: after.local.rs.last_executed_height,
                committed_at_height: after.local.rs.committed_at_height,
                ..rs
            }
            &&& breaks ==> {
                &&& fault == Some(
                    Fault::ChainBreak { height, pre: rs.pre_root_by_node[h], expected: s.root },
                )
                &&& after.root == s.root
                &&& after.local.out == s.local.out
                &&& after.local.rs.last_executed_height == rs.last_executed_height
                &&& after.local.rs.committed_at_height == rs.committed_at_height
            }
            &&& !breaks ==> {
                &&& fault is None
                &&& after.root == (if proven && rs.post_root_by_node.contains_key(h) {
                    rs.post_root_by_node[h]
                } else {
                    s.root
                })
                &&& after.local.rs.last_executed_height == height as i64
                &&& after.local.rs.committed_at_height == rs.committed_at_height.insert(height, h)
                &&& after.local.out == s.local.out.push(
                    Effect::Log {
                        view: rs.view,
                        event: Event::Execute { height, node_hash: h },
                    },
                )
            }
        }),
{
    let rs = s.local.rs;
    if !rs.post_state_by_node.contains_key(h) {
        assert(rs.post_state_by_node.remove(h) =~= rs.post_state_by_node);
    }
    if !rs.post_root_by_node.contains_key(h) {
        assert(rs.post_root_by_node.remove(h) =~= rs.post_root_by_node);
    }
}

/// A chain of nodes is executed in order: each node that is next in height and
/// valid, up to the first that is not. That one is reported where it is known
/// not to be valid, and submitted to validation where there is no verdict.
pub proof fn law_chain_is_executed_in_order(s: Sys, me: Me, h: [u8; 32], rest: Seq<[u8; 32]>)
    ensures
        ({
            let rs = s.local.rs;
            let next = (rs.tree[h].height as i64) as int == rs.last_executed_height + 1;
            let known = rs.validation_result.contains_key(h);
            let done = apply_chain(s, me, seq![h] + rest);
            let (s1, fault) = execute_node(s, h);
            &&& apply_chain(s, me, Seq::empty()) == (s, None::<Fault>)
            &&& !next ==> done == (s, None::<Fault>)
            &&& next && !known ==> {
                let (l, f) = kick_step(s.local, me, s.live, h);
                done == (Sys { local: l, ..s }, f)
            }
            &&& next && known && !rs.validation_result[h] ==> done == (
                Sys {
                    local: warned(
                        s.local,
                        Warning::ExecuteInvalid { height: rs.tree[h].height },
                    ),
                    ..s
                },
                None::<Fault>,
            )
            &&& next && known && rs.validation_result[h] && fault is Some ==> done == (s1, fault)
            &&& next && known && rs.validation_result[h] && fault is None ==> done == apply_chain(
                s1,
                me,
                rest,
            )
        }),
{
    assert((seq![h] + rest).skip(1) =~= rest);
    assert((seq![h] + rest)[0] == h);
}

/// What a decision has to execute is the path to the decided node: it ends with
/// the node, each of its nodes is the parent of the next and has not been
/// executed, and it is there exactly if the node is known and has not been
/// executed.
pub proof fn law_decision_commits_the_path(rs: Replica, decided: [u8; 32], i: int)
    requires
        rs.tree.dom().finite(),
    ensures
        ({
            let chain = chain_of(rs, decided);
            let last = rs.last_executed_height;
            &&& chain.len() > 0 <==> rs.tree.contains_key(decided) && (
            rs.tree[decided].height as i64) > last
            &&& chain.len() > 0 ==> chain.last() == decided
            &&& 0 <= i < chain.len() ==> rs.tree.contains_key(chain[i]) && (
            rs.tree[chain[i]].height as i64) > last
            &&& 0 <= i < chain.len() - 1 ==> rs.tree[chain[i + 1]].parent == chain[i]
                && chain[i] != genesis()
        }),
{
    let n = rs.tree.dom().len();
    let up = unexecuted(rs.tree, rs.last_executed_height, decided, n);
    if rs.tree.contains_key(decided) {
        assert(rs.tree.dom().contains(decided));
        assert(n > 0) by {
            if n == 0 {
                assert(rs.tree.dom() =~= Set::empty());
            }
        }
    }
    if up.len() > 0 {
        lemma_walk_links(rs.tree, rs.last_executed_height, decided, n);
        assert(chain_of(rs, decided).last() == up[0]);
        if 0 <= i < up.len() {
            assert(chain_of(rs, decided)[i] == up[up.len() - 1 - i]);
            assert(up[up.len() - 1 - i] == up[up.len() - 1 - i]);
        }
        if 0 <= i < up.len() - 1 {
            let j = up.len() - 2 - i;
            assert(chain_of(rs, decided)[i + 1] == up[j]);
            assert(up[j + 1] == chain_of(rs, decided)[i]);
        }
    }
}

proof fn lemma_walk_links(tree: Map<[u8; 32], Node>, last: i64, cur: [u8; 32], fuel: nat)
    requires
        unexecuted(tree, last, cur, fuel).len() > 0,
    ensures
        ({
            let up = unexecuted(tree, last, cur, fuel);
            &&& up[0] == cur
            &&& forall|i: int|
                0 <= i < up.len() ==> tree.contains_key(#[trigger] up[i]) && (
                tree[up[i]].height as i64) > last
            &&& forall|i: int|
                0 <= i < up.len() - 1 ==> tree[#[trigger] up[i]].parent == up[i + 1] && up[i + 1]
                    != genesis()
        }),
    decreases fuel,
{
    let up = unexecuted(tree, last, cur, fuel);
    let parent = tree[cur].parent;
    if parent != genesis() {
        let rest = unexecuted(tree, last, parent, (fuel - 1) as nat);
        assert(up == seq![cur] + rest);
        if rest.len() > 0 {
            lemma_walk_links(tree, last, parent, (fuel - 1) as nat);
            assert forall|i: int| 0 <= i < up.len() implies tree.contains_key(#[trigger] up[i]) && (
            tree[up[i]].height as i64) > last by {
                if i > 0 {
                    assert(up[i] == rest[i - 1]);
                }
            }
            assert forall|i: int| 0 <= i < up.len() - 1 implies tree[#[trigger] up[i]].parent
                == up[i + 1] && up[i + 1] != genesis() by {
                assert(up[i + 1] == rest[i]);
                if i > 0 {
                    assert(up[i] == rest[i - 1]);
                }
            }
        } else {
            assert(up =~= seq![cur]);
        }
    }
}

/// The path that a decision has to execute goes all the way up: above its first
/// node there is genesis, a node that is not known, or one that has been
/// executed, unless the tree holds no further node.
pub proof fn law_path_goes_all_the_way(rs: Replica, decided: [u8; 32])
    requires
        rs.tree.dom().finite(),
        0 < chain_of(rs, decided).len() < rs.tree.dom().len(),
    ensures
        ({
            let top = rs.tree[chain_of(rs, decided)[0]].parent;
            ||| top == genesis()
            ||| !rs.tree.contains_key(top)
            ||| (rs.tree[top].height as i64) <= rs.last_executed_height
        }),
{
    let n = rs.tree.dom().len();
    let up = unexecuted(rs.tree, rs.last_executed_height, decided, n);
    lemma_walk_ends(rs.tree, rs.last_executed_height, decided, n);
    assert(chain_of(rs, decided)[0] == up.last());
}

proof fn lemma_walk_ends(tree: Map<[u8; 32], Node>, last: i64, cur: [u8; 32], fuel: nat)
    requires
        0 < unexecuted(tree, last, cur, fuel).len() < fuel,
    ensures
        ({
            let top = tree[unexecuted(tree, last, cur, fuel).last()].parent;
            ||| top == genesis()
            ||| !tree.contains_key(top)
            ||| (tree[top].height as i64) <= last
        }),
    decreases fuel,
{
    let parent = tree[cur].parent;
    if parent != genesis() {
        let rest = unexecuted(tree, last, parent, (fuel - 1) as nat);
        assert(unexecuted(tree, last, cur, fuel) == seq![cur] + rest);
        if rest.len() > 0 {
            lemma_walk_ends(tree, last, parent, (fuel - 1) as nat);
            assert((seq![cur] + rest).last() == rest.last());
        } else {
            assert((seq![cur] + rest).last() == cur);
        }
    }
}

// ---- DECIDE ----

/// A decided view is left: its node counts as decided, what it commits is
/// executed, the timeout goes back to its first length, and the next view is
/// entered.
pub proof fn law_decision_is_taken(s: Sys, me: Me)
    requires
        s.local.rs.view < u64::MAX,
        s.local.rs.round(s.local.rs.view).seen_decide_qc,
        s.local.rs.staged_decide_qc.contains_key(s.local.rs.view),
    ensures
        ({
            let rs = s.local.rs;
            let v = rs.view;
            let q = rs.staged_decide_qc[v];
            let decided = Sys {
                local: Local {
                    rs: Replica {
                        decided_nodes: rs.decided_nodes.insert(q.node_hash, q),
                        view_data: rs.view_data.insert(v, rs.round(v)),
                        ..rs
                    },
                    ..s.local
                },
                ..s
            };
            let (done, broken) = execute_step(decided, me, q.node_hash);
            let (after, fault) = replica_decide_step(s, me);
            &&& fault == broken
            &&& fault is Some ==> after == done
            &&& fault is None ==> {
                &&& after.live == done.live
                &&& after.root == done.root
                &&& after.local == new_view_step(
                    Local {
                        rs: Replica { timeout_interval_ms: me.base_ms, ..done.local.rs },
                        out: done.local.out.push(
                            Effect::Log {
                                view: v,
                                event: Event::ViewDecide { node_hash: q.node_hash },
                            },
                        ),
                    },
                    me,
                    (v + 1) as u64,
                )
                &&& after.local.rs.view == v + 1
                &&& after.local.rs.timeout_interval_ms == me.base_ms
                &&& after.local.out.last() == (Effect::ArmTimer {
                    view: (v + 1) as u64,
                    ms: me.base_ms,
                })
            }
        }),
{
}

/// An undecided view is not left by deciding.
pub proof fn law_deciding_waits(s: Sys, me: Me)
    requires
        !s.local.rs.round(s.local.rs.view).seen_decide_qc
            || !s.local.rs.staged_decide_qc.contains_key(s.local.rs.view),
    ensures
        ({
            let v = s.local.rs.view;
            let (after, fault) = replica_decide_step(s, me);
            &&& fault is None
            &&& after.live == s.live
            &&& after.root == s.root
            &&& after.local.out == s.local.out
            &&& same_but_view(s.local.rs, after.local.rs, v)
            &&& after.local.rs.round(v) == s.local.rs.round(v)
        }),
{
}

// ---- All of it in turn ----

/// The hash of the node that the leader proposes on top of `high`, where it can.
pub open spec fn next_hash(rs: Replica, me: Me, high: Option<Cert>) -> [u8; 32] {
    match high {
        Some(q) => hash_of(
            Node {
                parent: q.node_hash,
                cmd: me.work.blocks[rs.tree[q.node_hash].height + 1].cmd,
                height: (rs.tree[q.node_hash].height + 1) as u64,
            },
        ),
        None => hash_of(Node { parent: genesis(), cmd: me.work.blocks[0].cmd, height: 0 }),
    }
}

/// One pass tries the rules in the order of the phases, the leader's before the
/// replica's but for PREPARE, where the leader's proposal comes first as well;
/// then every decision, then every node that may have to be validated. The first
/// fault ends it.
pub proof fn law_pass_goes_through_the_phases(s: Sys, me: Me, c: Choices)
    requires
        c.high matches Some(q) ==> s.local.rs.tree.contains_key(q.node_hash),
    ensures
        ({
            let (l1, f1) = leader_prepare_step(
                s.local,
                me,
                s.live,
                c.high,
                next_hash(s.local.rs, me, c.high),
            );
            let v = l1.rs.view;
            let h = hash_of((l1.rs.round(v).proposal->0).0);
            let l2 = replica_prepare_step(
                l1,
                me,
                h,
                ed25519_signature(me.sk@, vote_bytes(MsgType::Prepare, v, h)),
            );
            let l3 = leader_phase_step(l2, me, MsgType::PreCommit, c.pre_commit);
            let l4 = replica_phase_step(
                l3,
                me,
                MsgType::PreCommit,
                ed25519_signature(
                    me.sk@,
                    vote_bytes(
                        MsgType::PreCommit,
                        l3.rs.view,
                        l3.rs.staged_pre_commit_qc[l3.rs.view].node_hash,
                    ),
                ),
            );
            let l5 = leader_phase_step(l4, me, MsgType::Commit, c.commit);
            let l6 = replica_phase_step(
                l5,
                me,
                MsgType::Commit,
                ed25519_signature(
                    me.sk@,
                    vote_bytes(
                        MsgType::Commit,
                        l5.rs.view,
                        l5.rs.staged_commit_qc[l5.rs.view].node_hash,
                    ),
                ),
            );
            let l7 = leader_phase_step(l6, me, MsgType::Decide, c.decide);
            let (s8, f8) = replica_decide_step(Sys { local: l7, ..s }, me);
            let (s9, f9) = execute_steps(s8, me, c.decided);
            let (l10, f10) = kick_steps(s9.local, me, s9.live, c.nodes);
            advance(s, me, c) == if f1 is Some {
                (Sys { local: l1, ..s }, f1)
            } else if f8 is Some {
                (s8, f8)
            } else if f9 is Some {
                (s9, f9)
            } else {
                (Sys { local: l10, ..s9 }, f10)
            }
        }),
{
}

/// Decisions are tried one after the other, up to the first fault.
pub proof fn law_decisions_are_tried_in_turn(s: Sys, me: Me, d: [u8; 32], rest: Seq<[u8; 32]>)
    ensures
        execute_steps(s, me, Seq::empty()) == (s, None::<Fault>),
        ({
            let (s1, fault) = apply_chain(s, me, chain_of(s.local.rs, d));
            execute_steps(s, me, seq![d] + rest) == if fault is Some {
                (s1, fault)
            } else {
                execute_steps(s1, me, rest)
            }
        }),
{
    assert((seq![d] + rest).skip(1) =~= rest);
    assert((seq![d] + rest)[0] == d);
}

/// An order of the known nodes, or of the decided ones, leaves none out and names
/// none twice or besides.
pub proof fn law_order_names_each_once<V>(
    order: Seq<[u8; 32]>,
    m: Map<[u8; 32], V>,
    k: [u8; 32],
    i: int,
    j: int,
)
    requires
        enumerates(order, m),
    ensures
        m.contains_key(k) ==> order.contains(k),
        0 <= i < order.len() ==> m.contains_key(order[i]),
        0 <= i < j < order.len() ==> order[i] != order[j],
{
    if 0 <= i < order.len() {
        assert(order.contains(order[i]));
    }
}

} // verus!
