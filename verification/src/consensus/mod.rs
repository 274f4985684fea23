//! Basic HotStuff.
//!
//! Each view has four phases (PREPARE, PRE-COMMIT, COMMIT, DECIDE), preceded
//! by the leader's collection of NEW-VIEW messages. The protocol is a set of
//! rules, each of which fires at most once per view; all of them are tried
//! again after every event.
//!
//!   - [`handlers`]: incoming messages, timers, validation outcomes, and the
//!     transition to a new view.
//!   - [`rules`]: the rules of the four phases.
//!   - [`execute`]: applying committed nodes, and submitting blocks to
//!     validation.
//!   - [`qc`]: forming and checking certificates.
//!   - [`model`]: what each step does.
//!
//! A replica votes PREPARE only once the block has been validated. The later
//! votes act on certificates alone. A committed node is applied only once it
//! and all its ancestors have been validated.

pub mod agreement;
pub mod authentic;
pub mod duties;
pub mod execute;
pub mod faithful;
pub mod handlers;
pub mod intake;
pub mod laws;
pub mod model;
pub mod qc;
pub mod rules;
pub mod settled;

use crate::action::{effects, Action, Fault};
use crate::consensus::model::{
    advance, collected, enumerates, execute_steps, is_highest, kick_steps, leader_phase_step,
    leader_prepare_step, leaf_hash, may_choose, may_open, pass_decide, pass_propose, proposal_due,
    start_step, Choices, Local, Me, Sys,
};
use crate::ledger::State;
use crate::messages::{Cert, MsgType};
use crate::state::ReplicaState;
use crate::validator::Mode;
use crate::workload::Workload;
use vstd::prelude::*;

verus! {

/// Who the replica is: its identity, its secret key, the workload that it
/// runs, the timeout of its first view, and how it validates blocks.
pub struct Wiring<'a> {
    pub my_id: u32,
    pub sk: &'a [u8; 32],
    pub workload: &'a Workload,
    pub timeout_base_ms: u64,
    pub mode: Mode,
}

impl<'a> View for Wiring<'a> {
    type V = Me;

    open spec fn view(&self) -> Me {
        Me {
            id: self.my_id,
            sk: *self.sk,
            base_ms: self.timeout_base_ms,
            work: self.workload@,
            mode: self.mode,
        }
    }
}

/// A replica and what it has asked for.
pub open spec fn local(rs: ReplicaState, out: Seq<Action>) -> Local {
    Local { rs: rs@, out: effects(out) }
}

/// A replica with its ledger.
pub open spec fn system(rs: ReplicaState, live: State, root: [u8; 32], out: Seq<Action>) -> Sys {
    Sys { local: local(rs, out), live: live@, root }
}

/// The fault that a step has met.
pub open spec fn fault_of(r: Result<(), Fault>) -> Option<Fault> {
    match r {
        Ok(_) => None,
        Err(f) => Some(f),
    }
}

/// Starts the protocol: leaves view 0 for view 1.
pub fn start_protocol(rs: &mut ReplicaState, w: &Wiring<'_>, out: &mut Vec<Action>)
    requires
        old(rs)@.n >= 1,
    ensures
        local(*final(rs), final(out)@) == start_step(local(*old(rs), old(out)@), w@),
{
    rs.view = 0;
    handlers::enter_new_view(rs, 1, w, out);
}

/// Tries every rule whose conditions may have come to hold, then what is left
/// to execute, then what is left to validate.
#[verifier::rlimit(40)]
pub fn try_advance(
    rs: &mut ReplicaState,
    w: &Wiring<'_>,
    live_state: &mut State,
    chained_root: &mut [u8; 32],
    out: &mut Vec<Action>,
) -> (r: Result<(), Fault>)
    requires
        old(rs)@.n >= 1,
        old(rs)@.view < u64::MAX,
    ensures
        exists|c: Choices|
            may_choose(
                system(*old(rs), *old(live_state), *old(chained_root), old(out)@),
                w@,
                c,
            ) && (
            system(*final(rs), *final(live_state), *final(chained_root), final(out)@),
            fault_of(r),
        ) == #[trigger] advance(
            system(*old(rs), *old(live_state), *old(chained_root), old(out)@),
            w@,
            c,
        ),
{
    let ghost s0 = system(*rs, *live_state, *chained_root, out@);
    let ghost me = w@;
    let ghost mut c = Choices {
        high: None,
        pre_commit: None,
        commit: None,
        decide: None,
        decided: Seq::empty(),
        nodes: Seq::empty(),
    };
    let proposed = rules::leader_prepare(rs, w, live_state, out);
    let ghost l1 = local(*rs, out@);
    proof {
        let high = choose|high: Option<Cert>|
            (proposal_due(s0.local.rs, me.id) ==> is_highest(collected(s0.local.rs), high)) && (
            l1,
            fault_of(proposed),
        ) == #[trigger] leader_prepare_step(
            s0.local,
            me,
            s0.live,
            high,
            leaf_hash(s0.local.rs, me.work, high),
        );
        c = Choices { high, ..c };
        assert(pass_propose(s0, me, c) == (l1, fault_of(proposed)));
        lemma_propose_keeps_view(s0, me, c);
    }
    if let Err(f) = proposed {
        assert(may_choose(s0, me, c));
        assert(advance(s0, me, c).0 == system(*rs, *live_state, *chained_root, out@));
        return Err(f);
    }
    rules::replica_prepare(rs, w, out);
    let ghost l2 = local(*rs, out@);
    rules::leader_pre_commit(rs, w, out);
    let ghost l3 = local(*rs, out@);
    rules::replica_pre_commit(rs, w, out);
    let ghost l4 = local(*rs, out@);
    rules::leader_commit(rs, w, out);
    let ghost l5 = local(*rs, out@);
    rules::replica_commit(rs, w, out);
    let ghost l6 = local(*rs, out@);
    rules::leader_decide(rs, w, out);
    let ghost l7 = local(*rs, out@);
    proof {
        let q1 = lemma_led(l2, l3, me, MsgType::PreCommit);
        let q2 = lemma_led(l4, l5, me, MsgType::Commit);
        let q3 = lemma_led(l6, l7, me, MsgType::Decide);
        c = Choices { pre_commit: q1, commit: q2, decide: q3, ..c };
        assert(l7 == pass_decide(l1, me, c));
    }
    let decided = rules::replica_decide(rs, w, live_state, chained_root, out);
    let ghost s2 = system(*rs, *live_state, *chained_root, out@);
    if let Err(f) = decided {
        assert(may_choose(s0, me, c));
        assert(advance(s0, me, c).0 == s2);
        return Err(f);
    }
    let executed = execute::retry_pending_execute(rs, w, live_state, chained_root, out);
    let ghost s3 = system(*rs, *live_state, *chained_root, out@);
    proof {
        let order = choose|order: Seq<[u8; 32]>|
            enumerates(order, s2.local.rs.decided_nodes) && (s3, fault_of(executed))
                == #[trigger] execute_steps(s2, me, order);
        c = Choices { decided: order, ..c };
    }
    if let Err(f) = executed {
        assert(may_choose(s0, me, c));
        assert(advance(s0, me, c).0 == s3);
        return Err(f);
    }
    let kicked = execute::try_kick_pending_validations(rs, w, live_state, out);
    proof {
        let l4 = local(*rs, out@);
        let order = choose|order: Seq<[u8; 32]>|
            enumerates(order, s3.local.rs.tree) && (l4, fault_of(kicked))
                == #[trigger] kick_steps(s3.local, me, s3.live, order);
        c = Choices { nodes: order, ..c };
        assert(may_choose(s0, me, c));
        assert(advance(s0, me, c).0 == system(*rs, *live_state, *chained_root, out@));
    }
    kicked
}

/// A proposal changes neither the view nor the number of replicas.
proof fn lemma_propose_keeps_view(s: Sys, me: Me, c: Choices)
    ensures
        pass_propose(s, me, c).0.rs.n == s.local.rs.n,
        pass_propose(s, me, c).0.rs.view == s.local.rs.view,
{
}

/// The certificate that a leader's rule has chosen.
proof fn lemma_led(before: Local, after: Local, me: Me, phase: MsgType) -> (q: Option<Cert>)
    requires
        rules::leads_phase(before, after, me, phase),
    ensures
        may_open(before.rs, me.id, phase, q),
        after == leader_phase_step(before, me, phase, q),
{
    choose|q: Option<Cert>|
        may_open(before.rs, me.id, phase, q) && after == #[trigger] leader_phase_step(
            before,
            me,
            phase,
            q,
        )
}

} // verus!
