use std::collections::{HashMap, VecDeque};
use zk_stf::action::{Action, Event, Fault, SkipReason, Warning};
use zk_stf::codec::write_txs;
use zk_stf::consensus::execute::{
    execute_in_order, kick_in_order, maybe_kick_validation, retry_pending_execute,
    try_execute_chain, try_kick_pending_validations,
};
use zk_stf::consensus::handlers::{
    enter_new_view, handle_msg, handle_timer, ingest_validation, on_proposal, on_vote,
};
use zk_stf::consensus::qc::verify_qc;
use zk_stf::consensus::rules::{
    highest_qc, leader_commit, leader_decide, leader_pre_commit, leader_prepare, replica_commit,
    replica_decide, replica_pre_commit, replica_prepare, replica_prepare_with_hash, vote_out,
};
use zk_stf::consensus::{start_protocol, try_advance, Wiring};
use zk_stf::crypto::public_key;
use zk_stf::generate::{generate_initial_state, generate_txs, INITIAL_SEED};
use zk_stf::ledger::{apply_block, hash_transactions, BlockCommit, State, Tx};
use zk_stf::messages::{genesis_hash, node_hash, sign_vote, MsgType, Node, Wire, QC};
use zk_stf::state::{ReplicaState, TimerEvent};
use zk_stf::validator::{run_validation, Mode, ValidateOutcome, ValidateRequest, Validator};
use zk_stf::workload::{BlockMeta, BlockRef, Manifest, Workload};

const BASE_MS: u64 = 1000;

fn blocks(count: u32) -> Vec<Vec<Tx>> {
    let mut seed = INITIAL_SEED;
    (0..count).map(|_| generate_txs(5, 4, &mut seed)).collect()
}

fn workload(count: u32) -> Workload {
    let refs = blocks(count)
        .iter()
        .enumerate()
        .map(|(i, txs)| BlockRef {
            cmd: hash_transactions(txs),
            meta: BlockMeta { block_number: i as u32, tx_hash: String::new(), txs_total: 5 },
            txs_path: format!("txs{}", i),
            proof_path: format!("proof{}", i),
        })
        .collect();
    Workload {
        dir: String::from("w"),
        manifest: Manifest { num_accounts: 4, initial_balance: 100, num_blocks: count },
        blocks: refs,
    }
}

fn sk(id: u32) -> [u8; 32] {
    [id as u8 + 1; 32]
}

fn keys(n: u32) -> HashMap<u32, [u8; 32]> {
    (0..n).map(|i| (i, public_key(&sk(i)))).collect()
}

fn wiring<'a>(id: u32, secret: &'a [u8; 32], w: &'a Workload) -> Wiring<'a> {
    wiring_in(Mode::Reexecute, id, secret, w)
}

fn wiring_in<'a>(mode: Mode, id: u32, secret: &'a [u8; 32], w: &'a Workload) -> Wiring<'a> {
    Wiring { my_id: id, sk: secret, workload: w, timeout_base_ms: BASE_MS, mode }
}

fn node(parent: [u8; 32], w: &Workload, height: u64) -> Node {
    Node { parent, cmd: w.blocks[height as usize].cmd, height }
}

fn qc(msg_type: MsgType, view: u64, hash: [u8; 32], voters: &[u32]) -> QC {
    QC {
        msg_type,
        view,
        node_hash: hash,
        sigs: voters.iter().map(|v| (*v, sign_vote(&sk(*v), msg_type, view, &hash))).collect(),
    }
}

fn valid(h: [u8; 32], height: u64, post: Option<State>) -> ValidateOutcome {
    ValidateOutcome {
        node_hash: h,
        height,
        valid: true,
        post_state: post,
        post_root: None,
        pre_root: None,
    }
}

fn warnings(out: &[Action]) -> Vec<Warning> {
    out.iter()
        .filter_map(|a| match a {
            Action::Warn { warning } => Some(*warning),
            _ => None,
        })
        .collect()
}

fn events(out: &[Action]) -> Vec<Event> {
    out.iter()
        .filter_map(|a| match a {
            Action::Log { event, .. } => Some(*event),
            _ => None,
        })
        .collect()
}

// ---- A cluster in memory ----

struct Replica {
    rs: ReplicaState,
    live: State,
    root: [u8; 32],
    log: Vec<Action>,
}

struct Cluster {
    n: u32,
    work: Workload,
    txs: Vec<Vec<Tx>>,
    verify: bool,
    replicas: Vec<Replica>,
    inbox: VecDeque<(u32, Wire)>,
    validations: VecDeque<(u32, ValidateRequest, State)>,
    down: Vec<u32>,
}

impl Cluster {
    fn new(n: u32, count: u32, verify: bool) -> Cluster {
        let replicas = (0..n)
            .map(|_| Replica {
                rs: ReplicaState::new(n, BASE_MS),
                live: if verify { State::new() } else { generate_initial_state(4, 100) },
                root: [0u8; 32],
                log: Vec::new(),
            })
            .collect();
        Cluster {
            n,
            work: workload(count),
            txs: blocks(count),
            verify,
            replicas,
            inbox: VecDeque::new(),
            validations: VecDeque::new(),
            down: Vec::new(),
        }
    }

    fn mode(&self) -> Mode {
        if self.verify { Mode::Verify } else { Mode::Reexecute }
    }

    fn perform(&mut self, id: u32, out: Vec<Action>) {
        for a in out {
            match &a {
                Action::Broadcast { msg } => {
                    for p in 0..self.n {
                        if p != id {
                            self.inbox.push_back((p, msg.clone()));
                        }
                    }
                }
                Action::SendTo { peer, msg } => self.inbox.push_back((*peer, msg.clone())),
                Action::Validate { req, input } => {
                    let copy = ValidateRequest {
                        node_hash: req.node_hash,
                        height: req.height,
                        cmd: req.cmd,
                        txs_path: req.txs_path.clone(),
                        proof_path: req.proof_path.clone(),
                        txs_total: req.txs_total,
                    };
                    self.validations.push_back((id, copy, input.clone()));
                }
                _ => {}
            }
            self.replicas[id as usize].log.push(a);
        }
    }

    fn advance(&mut self, id: u32, mut out: Vec<Action>) {
        let secret = sk(id);
        let w = wiring_in(self.mode(), id, &secret, &self.work);
        let r = &mut self.replicas[id as usize];
        try_advance(&mut r.rs, &w, &mut r.live, &mut r.root, &mut out).unwrap();
        self.perform(id, out);
    }

    fn start(&mut self) {
        for id in 0..self.n {
            if self.down.contains(&id) {
                continue;
            }
            let secret = sk(id);
            let mut out = Vec::new();
            let w = wiring_in(self.mode(), id, &secret, &self.work);
            start_protocol(&mut self.replicas[id as usize].rs, &w, &mut out);
            self.advance(id, out);
        }
    }

    fn root_at(&self, height: usize) -> [u8; 32] {
        let mut s = generate_initial_state(4, 100);
        for txs in &self.txs[..height] {
            apply_block(&mut s, txs);
        }
        s.hash()
    }

    fn step(&mut self) -> bool {
        if let Some((to, msg)) = self.inbox.pop_front() {
            if self.down.contains(&to) {
                return true;
            }
            let known = keys(self.n);
            let secret = sk(to);
            let mut out = Vec::new();
            let w = wiring_in(self.mode(), to, &secret, &self.work);
            let r = &mut self.replicas[to as usize];
            handle_msg(&mut r.rs, msg, &known, &w, &r.live, &mut out).unwrap();
            self.advance(to, out);
            return true;
        }
        if let Some((id, req, input)) = self.validations.pop_front() {
            let h = req.height as usize;
            let done = if self.verify {
                let commit = BlockCommit {
                    pre_state_root: self.root_at(h),
                    post_state_root: self.root_at(h + 1),
                    tx_hash: hash_transactions(&self.txs[h]),
                };
                run_validation(&req, input, &Validator::Verify, None, Some(commit))
            } else {
                let v = Validator::Reexecute { slow_delay_per_tx_ns: 0 };
                run_validation(&req, input, &v, Some(write_txs(&self.txs[h])), None)
            };
            ingest_validation(&mut self.replicas[id as usize].rs, done.unwrap().outcome);
            self.advance(id, Vec::new());
            return true;
        }
        false
    }

    fn run(&mut self, steps: usize) {
        for _ in 0..steps {
            if !self.step() {
                return;
            }
        }
    }

    fn timeout(&mut self, id: u32) {
        let secret = sk(id);
        let mut out = Vec::new();
        let view = self.replicas[id as usize].rs.view;
        let w = wiring_in(self.mode(), id, &secret, &self.work);
        handle_timer(&mut self.replicas[id as usize].rs, TimerEvent { view }, &w, &mut out);
        self.advance(id, out);
    }
}

fn sent_once(log: &[Action]) {
    let mut seen: Vec<String> = Vec::new();
    for a in log {
        let slot = match a {
            Action::SendTo { msg: Wire::Vote { msg_type, view, .. }, .. } => {
                format!("vote {:?} {}", msg_type, view)
            }
            Action::SendTo { msg: Wire::NewView { view, .. }, .. } => format!("leave {}", view),
            Action::Broadcast { msg: Wire::Proposal { view, .. } } => format!("propose {}", view),
            Action::Broadcast { msg: Wire::PhaseQc { msg_type, view, .. } } => {
                format!("open {:?} {}", msg_type, view)
            }
            _ => continue,
        };
        assert!(!seen.contains(&slot), "{} sent twice", slot);
        seen.push(slot);
    }
}

#[test]
fn four_replicas_commit_the_workload() {
    let mut c = Cluster::new(4, 3, false);
    c.start();
    c.run(10_000);
    let mut want = generate_initial_state(4, 100);
    for txs in &c.txs {
        apply_block(&mut want, txs);
    }
    for r in &c.replicas {
        assert_eq!(r.rs.last_executed_height, 2);
        assert_eq!(r.live.entries(), want.entries());
        assert!(r.rs.view > 3);
        assert_eq!(r.rs.timeout_interval_ms, BASE_MS);
        sent_once(&r.log);
        assert!(warnings(&r.log).is_empty());
    }
    for h in 0..3u64 {
        let first = c.replicas[0].rs.committed_at_height[&h];
        for r in &c.replicas {
            assert_eq!(r.rs.committed_at_height[&h], first);
            assert_eq!(r.rs.tree.get(&first).unwrap().height, h);
        }
    }
    let second = c.replicas[0].rs.tree.get(&c.replicas[0].rs.committed_at_height[&1]).unwrap();
    assert_eq!(second.parent, c.replicas[0].rs.committed_at_height[&0]);
}

#[test]
fn a_leaders_certificates_are_accepted() {
    let mut c = Cluster::new(4, 3, false);
    c.start();
    c.run(10_000);
    let known = keys(4);
    let mut opened = 0;
    let mut proposed = 0;
    for r in &c.replicas {
        for a in &r.log {
            match a {
                Action::Broadcast { msg: Wire::PhaseQc { justify, .. } } => {
                    assert!(verify_qc(justify, 3, &known));
                    opened += 1;
                }
                Action::Broadcast { msg: Wire::Proposal { justify: Some(q), .. } } => {
                    assert!(verify_qc(q, 3, &known));
                    proposed += 1;
                }
                _ => {}
            }
        }
    }
    assert!(opened >= 9);
    assert!(proposed >= 2);
}

#[test]
fn verified_proofs_chain_the_state_roots() {
    let mut c = Cluster::new(4, 3, true);
    c.start();
    c.run(10_000);
    let want = c.root_at(3);
    for r in &c.replicas {
        assert_eq!(r.rs.last_executed_height, 2);
        assert_eq!(r.root, want);
        assert!(r.live.entries().is_empty());
    }
}

#[test]
fn a_single_replica_commits_alone() {
    let mut c = Cluster::new(1, 2, false);
    c.start();
    c.run(1000);
    for _ in 0..20 {
        c.advance(0, Vec::new());
        c.run(1000);
    }
    assert_eq!(c.replicas[0].rs.last_executed_height, 1);
    assert!(c.inbox.is_empty());
}

#[test]
fn one_silent_leader_is_timed_out() {
    let mut c = Cluster::new(4, 2, false);
    c.down = vec![0];
    c.start();
    c.run(1000);
    for r in &c.replicas[1..] {
        assert_eq!(r.rs.view, 1);
        assert_eq!(r.rs.last_executed_height, -1);
    }
    for id in 1..4 {
        c.timeout(id);
    }
    assert_eq!(c.replicas[1].rs.timeout_interval_ms, 2 * BASE_MS);
    c.run(10_000);
    for r in &c.replicas[1..] {
        assert_eq!(r.rs.last_executed_height, 1);
        assert_eq!(r.rs.timeout_interval_ms, BASE_MS);
        sent_once(&r.log);
    }
}

// ---- Rules one by one ----

fn started(id: u32, n: u32, w: &Workload) -> (ReplicaState, Vec<Action>) {
    let secret = sk(id);
    let mut rs = ReplicaState::new(n, BASE_MS);
    let mut out = Vec::new();
    start_protocol(&mut rs, &wiring(id, &secret, w), &mut out);
    (rs, out)
}

#[test]
fn starting_enters_view_one() {
    let w = workload(1);
    let (rs, out) = started(1, 4, &w);
    assert_eq!(rs.view, 1);
    assert_eq!(out.len(), 4);
    assert_eq!(
        events(&out),
        vec![
            Event::ViewStart { leader: 0, timeout_ms: BASE_MS },
            Event::NewViewSend { to: 0, from_view: 0 },
        ]
    );
    assert!(matches!(
        &out[1],
        Action::SendTo { peer: 0, msg: Wire::NewView { view: 0, justify: None, sender: 1 } }
    ));
    assert!(matches!(out[3], Action::ArmTimer { view: 1, ms: BASE_MS }));

    let (rs, out) = started(0, 4, &w);
    assert!(rs.vd(0).unwrap().new_view_msgs.contains_key(&0));
    assert!(!out.iter().any(|a| matches!(a, Action::SendTo { .. })));
}

#[test]
fn a_leader_proposes_once_a_quorum_has_come() {
    let w = workload(1);
    let (mut rs, _) = started(0, 4, &w);
    let secret = sk(0);
    let wire = wiring(0, &secret, &w);
    let live = generate_initial_state(4, 100);
    let known = keys(4);
    let mut out = Vec::new();
    leader_prepare(&mut rs, &wire, &live, &mut out).unwrap();
    assert!(out.is_empty());
    for sender in 1..3 {
        let msg = Wire::NewView { view: 0, justify: None, sender };
        handle_msg(&mut rs, msg, &known, &wire, &live, &mut out).unwrap();
    }
    out.clear();
    leader_prepare(&mut rs, &wire, &live, &mut out).unwrap();
    let leaf = node(genesis_hash(), &w, 0);
    let h = node_hash(&leaf);
    assert_eq!(
        events(&out),
        vec![
            Event::ProposeSend { leaf_hash: h, leaf_height: 0, high_qc_view: 0 },
            Event::ValidateStart { height: 0 },
        ]
    );
    assert_eq!(rs.pending_validation, Some(h));
    assert!(rs.vd(1).unwrap().broadcast_proposal);
    out.clear();
    leader_prepare(&mut rs, &wire, &live, &mut out).unwrap();
    assert!(out.is_empty());
}

#[test]
fn a_leader_stops_when_the_workload_is_exhausted() {
    let w = workload(1);
    let secret = sk(0);
    let wire = wiring(0, &secret, &w);
    let live = State::new();
    let leaf = node(genesis_hash(), &w, 0);
    let h = node_hash(&leaf);

    let (mut rs, _) = started(0, 1, &w);
    rs.tree.insert(h, leaf);
    rs.vd_mut(0).new_view_msgs.insert(0, Some(qc(MsgType::Prepare, 0, h, &[0])));
    let mut out = Vec::new();
    leader_prepare(&mut rs, &wire, &live, &mut out).unwrap();
    assert!(out.is_empty());

    let (mut rs, _) = started(0, 1, &w);
    rs.vd_mut(0).new_view_msgs.insert(0, Some(qc(MsgType::Prepare, 0, h, &[0])));
    leader_prepare(&mut rs, &wire, &live, &mut out).unwrap();
    assert_eq!(warnings(&out), vec![Warning::HighQcNodeUnknown]);
}

#[test]
fn a_workload_with_missing_blocks_is_a_fault() {
    let mut w = workload(1);
    w.manifest.num_blocks = 2;
    w.blocks.clear();
    let (mut rs, _) = started(0, 1, &w);
    let secret = sk(0);
    let mut out = Vec::new();
    let r = leader_prepare(&mut rs, &wiring(0, &secret, &w), &State::new(), &mut out);
    assert_eq!(r, Err(Fault::NoBlock { height: 0 }));
}

#[test]
fn the_highest_certificate_wins() {
    let mut msgs: HashMap<u32, Option<QC>> = HashMap::new();
    assert!(highest_qc(&msgs).is_none());
    msgs.insert(0, None);
    assert!(highest_qc(&msgs).is_none());
    msgs.insert(1, Some(qc(MsgType::Prepare, 4, [1u8; 32], &[])));
    msgs.insert(2, Some(qc(MsgType::Prepare, 9, [2u8; 32], &[])));
    msgs.insert(3, Some(qc(MsgType::Prepare, 7, [3u8; 32], &[])));
    assert_eq!(highest_qc(&msgs).unwrap().view, 9);
    msgs.insert(7, Some(qc(MsgType::Prepare, 9, [7u8; 32], &[])));
    msgs.insert(5, Some(qc(MsgType::Prepare, 9, [5u8; 32], &[])));
    assert_eq!(highest_qc(&msgs).unwrap().node_hash, [2u8; 32]);
    msgs.remove(&2);
    assert_eq!(highest_qc(&msgs).unwrap().node_hash, [5u8; 32]);
}

fn proposed(id: u32, w: &Workload) -> (ReplicaState, [u8; 32]) {
    let (mut rs, _) = started(id, 4, w);
    let leaf = node(genesis_hash(), w, 0);
    let h = node_hash(&leaf);
    let secret = sk(id);
    let mut out = Vec::new();
    let live = generate_initial_state(4, 100);
    let wire = wiring(id, &secret, w);
    on_proposal(&mut rs, &wire, &live, 1, leaf, None, 0, false, h, &mut out).unwrap();
    (rs, h)
}

#[test]
fn a_replica_waits_for_validation_before_it_votes() {
    let w = workload(1);
    let (mut rs, h) = proposed(1, &w);
    let secret = sk(1);
    let wire = wiring(1, &secret, &w);
    let mut out = Vec::new();
    replica_prepare(&mut rs, &wire, &mut out);
    assert!(out.is_empty() && !rs.vd(1).unwrap().voted_prepare);

    ingest_validation(&mut rs, valid(h, 0, Some(State::new())));
    assert_eq!(rs.pending_validation, None);
    replica_prepare(&mut rs, &wire, &mut out);
    assert_eq!(events(&out), vec![Event::PrepareVoteSend { leaf_hash: h }]);
    match &out[0] {
        Action::SendTo { peer, msg: Wire::Vote { msg_type, view, node_hash, voter, partial_sig } } => {
            assert_eq!((*peer, *msg_type, *view, *node_hash, *voter), (0, MsgType::Prepare, 1, h, 1));
            assert_eq!(*partial_sig, sign_vote(&secret, MsgType::Prepare, 1, &h));
        }
        _ => panic!("no vote"),
    }
    out.clear();
    replica_prepare(&mut rs, &wire, &mut out);
    assert!(out.is_empty());
}

#[test]
fn a_replica_does_not_vote_for_an_invalid_block() {
    let w = workload(1);
    let (mut rs, h) = proposed(1, &w);
    let secret = sk(1);
    let mut outcome = valid(h, 0, None);
    outcome.valid = false;
    ingest_validation(&mut rs, outcome);
    let mut out = Vec::new();
    replica_prepare(&mut rs, &wiring(1, &secret, &w), &mut out);
    assert_eq!(events(&out), vec![Event::PrepareSkip { reason: SkipReason::ValidFalse }]);
    assert!(rs.vd(1).unwrap().voted_prepare);
    assert_eq!(out.len(), 1);
}

#[test]
fn a_replica_does_not_vote_against_its_lock() {
    let w = workload(1);
    let (mut rs, h) = proposed(1, &w);
    rs.locked_qc = Some(qc(MsgType::PreCommit, 0, [9u8; 32], &[]));
    ingest_validation(&mut rs, valid(h, 0, Some(State::new())));
    let secret = sk(1);
    let mut out = Vec::new();
    replica_prepare_with_hash(&mut rs, &wiring(1, &secret, &w), &h, &mut out);
    assert_eq!(events(&out), vec![Event::PrepareSkip { reason: SkipReason::SafeNodeFalse }]);
}

#[test]
fn leaders_open_each_phase_with_a_quorum() {
    let w = workload(1);
    let (mut rs, h) = proposed(0, &w);
    let secret = sk(0);
    let wire = wiring(0, &secret, &w);
    let mut out = Vec::new();
    for v in 0..2u32 {
        on_vote(&mut rs, &wire, MsgType::Prepare, 1, h, v, vec![v as u8], true, true, &mut out);
    }
    out.clear();
    leader_pre_commit(&mut rs, &wire, &mut out);
    assert!(out.is_empty());
    on_vote(&mut rs, &wire, MsgType::Prepare, 1, h, 2, vec![2], true, true, &mut out);
    out.clear();
    leader_pre_commit(&mut rs, &wire, &mut out);
    assert_eq!(
        events(&out),
        vec![Event::PhaseQcSend { phase: MsgType::PreCommit, node_hash: h }]
    );
    assert_eq!(rs.staged_pre_commit_qc[&1].msg_type, MsgType::Prepare);
    assert_eq!(rs.staged_pre_commit_qc[&1].sigs.len(), 3);
    out.clear();
    leader_pre_commit(&mut rs, &wire, &mut out);
    assert!(out.is_empty());

    for v in 0..3u32 {
        on_vote(&mut rs, &wire, MsgType::PreCommit, 1, h, v, vec![], true, true, &mut out);
        on_vote(&mut rs, &wire, MsgType::Commit, 1, h, v, vec![], true, true, &mut out);
    }
    out.clear();
    leader_commit(&mut rs, &wire, &mut out);
    leader_decide(&mut rs, &wire, &mut out);
    assert_eq!(rs.staged_commit_qc[&1].msg_type, MsgType::PreCommit);
    assert_eq!(rs.staged_decide_qc[&1].msg_type, MsgType::Commit);
    assert_eq!(events(&out).len(), 2);
}

#[test]
fn replicas_remember_what_they_vote_on() {
    let w = workload(1);
    let (mut rs, h) = proposed(1, &w);
    let secret = sk(1);
    let wire = wiring(1, &secret, &w);
    let known = keys(4);
    let live = State::new();
    let mut out = Vec::new();
    replica_pre_commit(&mut rs, &wire, &mut out);
    replica_commit(&mut rs, &wire, &mut out);
    assert!(out.is_empty() && rs.prepare_qc.is_none());
    for (phase, before) in [(MsgType::PreCommit, MsgType::Prepare), (MsgType::Commit, MsgType::PreCommit)] {
        let msg = Wire::PhaseQc {
            msg_type: phase,
            view: 1,
            justify: qc(before, 1, h, &[0, 2, 3]),
            sender: 0,
        };
        handle_msg(&mut rs, msg, &known, &wire, &live, &mut out).unwrap();
    }
    out.clear();
    replica_pre_commit(&mut rs, &wire, &mut out);
    assert_eq!(rs.prepare_qc.as_ref().unwrap().msg_type, MsgType::Prepare);
    assert!(rs.locked_qc.is_none());
    replica_commit(&mut rs, &wire, &mut out);
    assert_eq!(rs.locked_qc.as_ref().unwrap().view, 1);
    assert_eq!(
        events(&out),
        vec![Event::PreCommitVoteSend { node_hash: h }, Event::CommitVoteSend { node_hash: h }]
    );
    out.clear();
    replica_pre_commit(&mut rs, &wire, &mut out);
    replica_commit(&mut rs, &wire, &mut out);
    assert!(out.is_empty());
}

#[test]
fn a_leader_counts_its_own_votes() {
    let w = workload(1);
    let (mut rs, h) = proposed(0, &w);
    let secret = sk(0);
    let mut out = Vec::new();
    vote_out(&mut rs, &wiring(0, &secret, &w), MsgType::Commit, &h, vec![5], &mut out);
    assert_eq!(rs.vd(1).unwrap().commit_votes[&0], (h, vec![5]));
    assert_eq!(out.len(), 1);
}

#[test]
fn deciding_executes_and_moves_on() {
    let w = workload(1);
    let (mut rs, h) = proposed(1, &w);
    let secret = sk(1);
    let wire = wiring(1, &secret, &w);
    let mut post = State::new();
    post.set_balance(3, 33);
    ingest_validation(&mut rs, valid(h, 0, Some(post)));
    rs.timeout_interval_ms = 8 * BASE_MS;
    let mut live = generate_initial_state(4, 100);
    let mut root = [0u8; 32];
    let mut out = Vec::new();
    replica_decide(&mut rs, &wire, &mut live, &mut root, &mut out).unwrap();
    assert!(out.is_empty());
    let msg = Wire::PhaseQc {
        msg_type: MsgType::Decide,
        view: 1,
        justify: qc(MsgType::Commit, 1, h, &[0, 1, 2]),
        sender: 0,
    };
    handle_msg(&mut rs, msg, &keys(4), &wire, &live, &mut out).unwrap();
    assert!(rs.decided_nodes.contains_key(&h));
    out.clear();
    replica_decide(&mut rs, &wire, &mut live, &mut root, &mut out).unwrap();
    assert_eq!(rs.last_executed_height, 0);
    assert_eq!(rs.committed_at_height[&0], h);
    assert_eq!(live.get_balance(3), 33);
    assert_eq!(rs.view, 2);
    assert_eq!(rs.timeout_interval_ms, BASE_MS);
    assert_eq!(
        &events(&out)[..2],
        &[Event::Execute { height: 0, node_hash: h }, Event::ViewDecide { node_hash: h }]
    );
}

// ---- Execution ----

/// A tree of three nodes, one on top of the other.
fn three_nodes(w: &Workload) -> (ReplicaState, Vec<[u8; 32]>) {
    let mut rs = ReplicaState::new(4, BASE_MS);
    let mut parent = genesis_hash();
    let mut hashes = Vec::new();
    for height in 0..3 {
        let n = node(parent, w, height);
        parent = node_hash(&n);
        rs.tree.insert(parent, n);
        hashes.push(parent);
    }
    (rs, hashes)
}

fn balance(account: u32, amount: u64) -> State {
    let mut s = State::new();
    s.set_balance(account, amount);
    s
}

#[test]
fn ancestors_are_executed_first() {
    let w = workload(3);
    let (mut rs, h) = three_nodes(&w);
    for i in 0..3 {
        ingest_validation(&mut rs, valid(h[i], i as u64, Some(balance(0, i as u64 + 1))));
    }
    let secret = sk(1);
    let wire = wiring(1, &secret, &w);
    let mut live = State::new();
    let mut root = [0u8; 32];
    let mut out = Vec::new();
    try_execute_chain(&mut rs, &wire, &mut live, &mut root, h[2], &mut out).unwrap();
    assert_eq!(rs.last_executed_height, 2);
    assert_eq!(
        events(&out),
        (0..3)
            .map(|i| Event::Execute { height: i as u64, node_hash: h[i] })
            .collect::<Vec<Event>>()
    );
    assert_eq!(live.get_balance(0), 3);
    assert_eq!(rs.post_state_by_node.len(), 0);
    out.clear();
    try_execute_chain(&mut rs, &wire, &mut live, &mut root, h[2], &mut out).unwrap();
    assert!(out.is_empty());
}

#[test]
fn execution_waits_for_validation() {
    let w = workload(3);
    let (mut rs, h) = three_nodes(&w);
    ingest_validation(&mut rs, valid(h[0], 0, Some(balance(0, 1))));
    let secret = sk(1);
    let wire = wiring(1, &secret, &w);
    let mut live = State::new();
    let mut root = [0u8; 32];
    let mut out = Vec::new();
    rs.decided_nodes.insert(h[1], qc(MsgType::Commit, 2, h[1], &[]));
    retry_pending_execute(&mut rs, &wire, &mut live, &mut root, &mut out).unwrap();
    assert_eq!(rs.last_executed_height, 0);
    assert_eq!(rs.pending_validation, Some(h[1]));
    match out.iter().find(|a| matches!(a, Action::Validate { .. })) {
        Some(Action::Validate { req, input }) => {
            assert_eq!(req.height, 1);
            assert_eq!(req.cmd, w.blocks[1].cmd);
            assert_eq!(req.txs_path, "txs1");
            assert_eq!(req.proof_path, "proof1");
            assert_eq!(input.get_balance(0), 1);
        }
        _ => panic!("nothing to validate"),
    }
    let before = rs.last_executed_height;
    out.clear();
    retry_pending_execute(&mut rs, &wire, &mut live, &mut root, &mut out).unwrap();
    assert!(out.is_empty());
    assert_eq!(rs.last_executed_height, before);

    ingest_validation(&mut rs, valid(h[1], 1, Some(balance(0, 2))));
    execute_in_order(&mut rs, &wire, &mut live, &mut root, &[h[1]], &mut out).unwrap();
    assert_eq!(rs.last_executed_height, 1);
    assert_eq!(live.get_balance(0), 2);
}

#[test]
fn invalid_and_unknown_nodes_are_not_executed() {
    let w = workload(3);
    let (mut rs, h) = three_nodes(&w);
    let secret = sk(1);
    let wire = wiring(1, &secret, &w);
    let mut live = State::new();
    let mut root = [0u8; 32];
    let mut out = Vec::new();
    try_execute_chain(&mut rs, &wire, &mut live, &mut root, [9u8; 32], &mut out).unwrap();
    assert!(out.is_empty());
    let mut bad = valid(h[0], 0, None);
    bad.valid = false;
    ingest_validation(&mut rs, bad);
    try_execute_chain(&mut rs, &wire, &mut live, &mut root, h[2], &mut out).unwrap();
    assert_eq!(warnings(&out), vec![Warning::ExecuteInvalid { height: 0 }]);
    assert_eq!(rs.last_executed_height, -1);
}

fn proven(h: [u8; 32], height: u64, pre: u8, post: u8) -> ValidateOutcome {
    ValidateOutcome {
        node_hash: h,
        height,
        valid: true,
        post_state: None,
        post_root: Some([post; 32]),
        pre_root: Some([pre; 32]),
    }
}

#[test]
fn a_proof_that_does_not_chain_is_a_fault() {
    let w = workload(3);
    let (mut rs, h) = three_nodes(&w);
    ingest_validation(&mut rs, proven(h[0], 0, 1, 2));
    ingest_validation(&mut rs, proven(h[1], 1, 2, 3));
    ingest_validation(&mut rs, proven(h[2], 2, 9, 4));
    let secret = sk(1);
    let wire = wiring(1, &secret, &w);
    let mut live = State::new();
    let mut root = [0u8; 32];
    let mut out = Vec::new();
    try_execute_chain(&mut rs, &wire, &mut live, &mut root, h[1], &mut out).unwrap();
    assert_eq!(root, [3u8; 32]);
    let r = try_execute_chain(&mut rs, &wire, &mut live, &mut root, h[2], &mut out);
    assert_eq!(
        r,
        Err(Fault::ChainBreak { height: 2, pre: [9u8; 32], expected: [3u8; 32] })
    );
    assert_eq!(rs.last_executed_height, 1);
}

#[test]
fn validation_is_asked_for_once_and_in_order() {
    let w = workload(3);
    let (mut rs, h) = three_nodes(&w);
    let secret = sk(1);
    let wire = wiring(1, &secret, &w);
    let live = balance(7, 70);
    let mut out = Vec::new();
    maybe_kick_validation(&mut rs, &wire, h[1], &live, &mut out).unwrap();
    assert!(out.is_empty());
    try_kick_pending_validations(&mut rs, &wire, &live, &mut out).unwrap();
    assert_eq!(rs.pending_validation, Some(h[0]));
    assert_eq!(events(&out), vec![Event::ValidateStart { height: 0 }]);
    out.clear();
    maybe_kick_validation(&mut rs, &wire, h[0], &live, &mut out).unwrap();
    try_kick_pending_validations(&mut rs, &wire, &live, &mut out).unwrap();
    assert!(out.is_empty());
    ingest_validation(&mut rs, valid(h[0], 0, Some(balance(7, 71))));
    kick_in_order(&mut rs, &wire, &live, &[h[0], h[2], h[1]], &mut out).unwrap();
    assert_eq!(rs.pending_validation, Some(h[1]));
    assert!(matches!(&out[0], Action::Validate { input, .. } if input.get_balance(7) == 71));
}

#[test]
fn a_command_of_another_block_is_not_validated() {
    let w = workload(2);
    let mut rs = ReplicaState::new(4, BASE_MS);
    let forged = Node { parent: genesis_hash(), cmd: [1u8; 32], height: 0 };
    let missing = Node { parent: genesis_hash(), cmd: [1u8; 32], height: 5 };
    rs.tree.insert([1u8; 32], forged);
    rs.tree.insert([2u8; 32], missing);
    let secret = sk(1);
    let wire = wiring(1, &secret, &w);
    let live = State::new();
    let mut out = Vec::new();
    maybe_kick_validation(&mut rs, &wire, [1u8; 32], &live, &mut out).unwrap();
    assert_eq!(warnings(&out), vec![Warning::CmdMismatch { height: 0 }]);
    let r = maybe_kick_validation(&mut rs, &wire, [2u8; 32], &live, &mut out);
    assert_eq!(r, Err(Fault::NoBlock { height: 5 }));
    assert_eq!(rs.pending_validation, None);
}

#[test]
fn a_node_in_flight_is_not_submitted_again() {
    let w = workload(3);
    let mut rs = ReplicaState::new(4, BASE_MS);
    let a = node(genesis_hash(), &w, 0);
    let b = node(genesis_hash(), &w, 1);
    let (ha, hb) = (node_hash(&a), node_hash(&b));
    rs.tree.insert(ha, a);
    rs.tree.insert(hb, b);
    let secret = sk(1);
    let wire = wiring(1, &secret, &w);
    let live = balance(7, 70);
    let mut out = Vec::new();
    for h in [ha, hb, ha, hb] {
        maybe_kick_validation(&mut rs, &wire, h, &live, &mut out).unwrap();
    }
    assert_eq!(
        events(&out),
        vec![Event::ValidateStart { height: 0 }, Event::ValidateStart { height: 1 }]
    );
    assert!(rs.in_flight.contains_key(&ha) && rs.in_flight.contains_key(&hb));
    assert_eq!(rs.pending_validation, Some(hb));
    ingest_validation(&mut rs, valid(ha, 0, Some(balance(7, 71))));
    assert!(!rs.in_flight.contains_key(&ha));
    assert_eq!(rs.pending_validation, Some(hb));
    out.clear();
    maybe_kick_validation(&mut rs, &wire, ha, &live, &mut out).unwrap();
    assert!(out.is_empty());
}

#[test]
fn a_block_is_validated_on_the_state_after_its_parent_only() {
    let w = workload(3);
    let (mut rs, h) = three_nodes(&w);
    let late = node(h[0], &w, 2);
    let hl = node_hash(&late);
    rs.tree.insert(hl, late);
    rs.last_executed_height = 1;
    let secret = sk(1);
    let wire = wiring(1, &secret, &w);
    let live = balance(7, 70);
    let mut out = Vec::new();
    maybe_kick_validation(&mut rs, &wire, hl, &live, &mut out).unwrap();
    assert!(out.is_empty() && rs.in_flight.len() == 0);
    maybe_kick_validation(&mut rs, &wire, h[2], &live, &mut out).unwrap();
    assert!(matches!(&out[0], Action::Validate { req, input }
        if req.node_hash == h[2] && input.get_balance(7) == 70));
}

#[test]
fn a_late_proof_is_verified_without_the_state_after_its_parent() {
    let w = workload(3);
    let (mut rs, h) = three_nodes(&w);
    let late = node(h[0], &w, 2);
    let hl = node_hash(&late);
    rs.tree.insert(hl, late);
    rs.last_executed_height = 1;
    let secret = sk(1);
    let wire = wiring_in(Mode::Verify, 1, &secret, &w);
    let mut out = Vec::new();
    maybe_kick_validation(&mut rs, &wire, hl, &State::new(), &mut out).unwrap();
    assert!(matches!(&out[0], Action::Validate { req, .. } if req.node_hash == hl));
    assert_eq!(rs.pending_validation, Some(hl));
    out.clear();
    rs.last_executed_height = -1;
    maybe_kick_validation(&mut rs, &wire, h[1], &State::new(), &mut out).unwrap();
    assert!(out.is_empty());
    let again = Node { parent: genesis_hash(), cmd: w.blocks[2].cmd, height: 2 };
    let ha = node_hash(&again);
    rs.tree.insert(ha, again);
    rs.last_executed_height = 0;
    maybe_kick_validation(&mut rs, &wire, ha, &State::new(), &mut out).unwrap();
    assert!(out.is_empty());
}

#[test]
fn a_late_verdict_is_caught_up() {
    let w = workload(3);
    let (mut rs, h) = three_nodes(&w);
    rs.decided_nodes.insert(h[0], qc(MsgType::Commit, 1, h[0], &[]));
    rs.decided_nodes.insert(h[2], qc(MsgType::Commit, 3, h[2], &[]));
    let secret = sk(1);
    let wire = wiring(1, &secret, &w);
    let mut live = State::new();
    let mut root = [0u8; 32];
    let mut out = Vec::new();
    ingest_validation(&mut rs, valid(h[2], 2, Some(balance(0, 3))));
    ingest_validation(&mut rs, valid(h[1], 1, Some(balance(0, 2))));
    retry_pending_execute(&mut rs, &wire, &mut live, &mut root, &mut out).unwrap();
    assert_eq!(rs.last_executed_height, -1);
    assert!(rs.committed_at_height.is_empty());
    ingest_validation(&mut rs, valid(h[0], 0, Some(balance(0, 1))));
    retry_pending_execute(&mut rs, &wire, &mut live, &mut root, &mut out).unwrap();
    assert_eq!(rs.last_executed_height, 2);
    for height in 0..3u64 {
        assert_eq!(rs.committed_at_height[&height], h[height as usize]);
    }
    assert_eq!(live.get_balance(0), 3);
}

#[test]
fn a_second_pass_over_the_rules_changes_nothing() {
    let w = workload(3);
    let (mut rs, h) = three_nodes(&w);
    ingest_validation(&mut rs, valid(h[0], 0, Some(balance(0, 1))));
    rs.decided_nodes.insert(h[0], qc(MsgType::Commit, 1, h[0], &[]));
    rs.decided_nodes.insert(h[2], qc(MsgType::Commit, 3, h[2], &[]));
    rs.view = 5;
    let secret = sk(1);
    let wire = wiring(1, &secret, &w);
    let mut live = State::new();
    let mut root = [0u8; 32];
    let mut out = Vec::new();
    try_advance(&mut rs, &wire, &mut live, &mut root, &mut out).unwrap();
    assert_eq!((rs.view, rs.last_executed_height), (5, 0));
    assert_eq!(rs.pending_validation, Some(h[1]));
    out.clear();
    try_advance(&mut rs, &wire, &mut live, &mut root, &mut out).unwrap();
    assert!(out.is_empty());
    assert_eq!((rs.view, rs.last_executed_height), (5, 0));
    assert_eq!(live.entries(), balance(0, 1).entries());
}

// ---- Messages ----

fn receive(rs: &mut ReplicaState, id: u32, w: &Workload, msg: Wire) -> Vec<Action> {
    let secret = sk(id);
    let mut out = Vec::new();
    handle_msg(rs, msg, &keys(4), &wiring(id, &secret, w), &State::new(), &mut out).unwrap();
    out
}

#[test]
fn proposals_are_checked() {
    let w = workload(2);
    let (mut rs, _) = started(1, 4, &w);
    let leaf = node(genesis_hash(), &w, 0);
    let h = node_hash(&leaf);
    let propose = |node: Node, justify: Option<QC>, sender: u32| Wire::Proposal {
        view: 1,
        node,
        justify,
        sender,
    };
    let out = receive(&mut rs, 1, &w, propose(leaf, None, 2));
    assert_eq!(warnings(&out), vec![Warning::ProposalNotFromLeader { sender: 2, expected: 0 }]);
    let short = qc(MsgType::Prepare, 0, h, &[0, 2]);
    let out = receive(&mut rs, 1, &w, propose(node(h, &w, 1), Some(short), 0));
    assert_eq!(warnings(&out), vec![Warning::ProposalBadHighQc]);
    let full = qc(MsgType::Prepare, 0, h, &[0, 2, 3]);
    let out = receive(&mut rs, 1, &w, propose(leaf, Some(full), 0));
    assert_eq!(warnings(&out), vec![Warning::ProposalWrongParent]);
    assert_eq!(rs.tree.len(), 0);

    let out = receive(&mut rs, 1, &w, propose(leaf, None, 0));
    assert_eq!(
        events(&out)[0],
        Event::ProposeRecv { leaf_hash: h, leaf_height: 0, high_qc_view: 0, sender: 0 }
    );
    let out = receive(&mut rs, 1, &w, propose(leaf, None, 0));
    assert!(out.is_empty());
    assert_eq!(rs.vd(1).unwrap().proposal.as_ref().unwrap().0, leaf);
}

#[test]
fn certificates_are_checked() {
    let w = workload(1);
    let (mut rs, h) = proposed(1, &w);
    let open = |msg_type: MsgType, justify: QC, sender: u32| Wire::PhaseQc {
        msg_type,
        view: 1,
        justify,
        sender,
    };
    let good = || qc(MsgType::Prepare, 1, h, &[0, 2, 3]);
    let out = receive(&mut rs, 1, &w, open(MsgType::PreCommit, good(), 3));
    assert_eq!(warnings(&out), vec![Warning::PhaseQcNotFromLeader { sender: 3, expected: 0 }]);
    let out = receive(&mut rs, 1, &w, open(MsgType::Prepare, good(), 0));
    assert_eq!(warnings(&out), vec![Warning::PhaseQcBadType { msg_type: MsgType::Prepare }]);
    let out = receive(&mut rs, 1, &w, open(MsgType::Commit, good(), 0));
    assert_eq!(warnings(&out), vec![Warning::PhaseQcMismatch]);
    let stale = qc(MsgType::Prepare, 0, h, &[0, 2, 3]);
    let out = receive(&mut rs, 1, &w, open(MsgType::PreCommit, stale, 0));
    assert_eq!(warnings(&out), vec![Warning::PhaseQcMismatch]);
    let short = qc(MsgType::Prepare, 1, h, &[0, 2]);
    let out = receive(&mut rs, 1, &w, open(MsgType::PreCommit, short, 0));
    assert_eq!(warnings(&out), vec![Warning::PhaseQcBadSigs]);
    assert!(rs.staged_pre_commit_qc.is_empty());

    let out = receive(&mut rs, 1, &w, open(MsgType::PreCommit, good(), 0));
    assert_eq!(events(&out), vec![Event::PhaseQcRecv { phase: MsgType::PreCommit }]);
    let out = receive(&mut rs, 1, &w, open(MsgType::PreCommit, good(), 0));
    assert!(out.is_empty());
}

#[test]
fn votes_are_checked() {
    let w = workload(1);
    let (mut rs, h) = proposed(0, &w);
    let vote = |msg_type: MsgType, voter: u32, sig: Vec<u8>| Wire::Vote {
        msg_type,
        view: 1,
        node_hash: h,
        voter,
        partial_sig: sig,
    };
    let sig = |v: u32| sign_vote(&sk(v), MsgType::Prepare, 1, &h);
    let out = receive(&mut rs, 0, &w, vote(MsgType::Prepare, 9, sig(9)));
    assert_eq!(warnings(&out), vec![Warning::VoteUnknownVoter { voter: 9 }]);
    let out = receive(&mut rs, 0, &w, vote(MsgType::Prepare, 2, sig(3)));
    assert_eq!(warnings(&out), vec![Warning::VoteBadSig { voter: 2 }]);
    let out = receive(&mut rs, 0, &w, vote(MsgType::Prepare, 2, sig(2)));
    assert_eq!(events(&out), vec![Event::VoteRecv { phase: MsgType::Prepare, voter: 2 }]);
    let out = receive(&mut rs, 0, &w, vote(MsgType::Prepare, 2, sig(2)));
    assert!(out.is_empty());
    assert_eq!(rs.vd(1).unwrap().prepare_votes.len(), 1);
    let decide = sign_vote(&sk(2), MsgType::Decide, 1, &h);
    let out = receive(&mut rs, 0, &w, vote(MsgType::Decide, 2, decide));
    assert!(out.is_empty());

    let own = receive(&mut rs, 0, &w, vote(MsgType::Prepare, 0, vec![]));
    assert_eq!(warnings(&own), vec![Warning::VoteBadSig { voter: 0 }]);
    assert!(!rs.vd(1).unwrap().prepare_votes.contains_key(&0));
    let own = receive(&mut rs, 0, &w, vote(MsgType::Prepare, 0, sig(0)));
    assert_eq!(events(&own), vec![Event::VoteRecv { phase: MsgType::Prepare, voter: 0 }]);

    let (mut other, _) = proposed(1, &w);
    let out = receive(&mut other, 1, &w, vote(MsgType::Prepare, 2, sig(2)));
    assert!(out.is_empty());
    assert!(other.vd(1).unwrap().prepare_votes.is_empty());
}

#[test]
fn new_view_messages_are_checked() {
    let w = workload(1);
    let (mut rs, h) = proposed(1, &w);
    let leave = |justify: Option<QC>, sender: u32| Wire::NewView { view: 1, justify, sender };
    let out = receive(&mut rs, 1, &w, leave(Some(qc(MsgType::Prepare, 1, h, &[0])), 2));
    assert_eq!(warnings(&out), vec![Warning::NewViewBadJustify]);
    let good = qc(MsgType::Prepare, 1, h, &[0, 2, 3]);
    let out = receive(&mut rs, 1, &w, leave(Some(good), 2));
    assert_eq!(events(&out), vec![Event::NewViewRecv { from_view: 1, sender: 2 }]);
    let out = receive(&mut rs, 1, &w, leave(None, 2));
    assert!(out.is_empty());
    assert!(rs.vd(1).unwrap().new_view_msgs[&2].is_some());

    let (mut other, _) = proposed(2, &w);
    assert!(receive(&mut other, 2, &w, leave(None, 3)).is_empty());
    let greeting = Wire::Hello { node_id: 3, pubkey: [0u8; 32] };
    assert!(receive(&mut other, 2, &w, greeting).is_empty());
}

#[test]
fn late_decisions_are_kept() {
    let w = workload(1);
    let (mut rs, h) = proposed(1, &w);
    let secret = sk(1);
    let mut out = Vec::new();
    enter_new_view(&mut rs, 2, &wiring(1, &secret, &w), &mut out);
    let msg = Wire::PhaseQc {
        msg_type: MsgType::Decide,
        view: 1,
        justify: qc(MsgType::Commit, 1, h, &[0, 2, 3]),
        sender: 0,
    };
    receive(&mut rs, 1, &w, msg);
    assert!(rs.decided_nodes.contains_key(&h));
    ingest_validation(&mut rs, valid(h, 0, Some(State::new())));
    let mut live = State::new();
    let mut root = [0u8; 32];
    out.clear();
    let wire = wiring(1, &secret, &w);
    try_advance(&mut rs, &wire, &mut live, &mut root, &mut out).unwrap();
    assert_eq!(rs.last_executed_height, 0);
    assert_eq!(rs.view, 2);
}

// ---- Timers ----

#[test]
fn timeouts_double_until_a_decision() {
    let w = workload(1);
    let (mut rs, _) = started(3, 4, &w);
    let secret = sk(3);
    let wire = wiring(3, &secret, &w);
    let mut out = Vec::new();
    handle_timer(&mut rs, TimerEvent { view: 1 }, &wire, &mut out);
    assert_eq!(rs.view, 2);
    assert_eq!(rs.timeout_interval_ms, 2 * BASE_MS);
    assert_eq!(events(&out)[0], Event::NextView);
    assert!(matches!(out.last(), Some(Action::ArmTimer { view: 2, ms: 2000 })));
    out.clear();
    handle_timer(&mut rs, TimerEvent { view: 1 }, &wire, &mut out);
    assert!(out.is_empty());
    rs.vd_mut(2).seen_decide_qc = true;
    handle_timer(&mut rs, TimerEvent { view: 2 }, &wire, &mut out);
    assert!(out.is_empty());
    rs.vd_mut(2).seen_decide_qc = false;
    rs.timeout_interval_ms = u64::MAX / 2 + 1;
    handle_timer(&mut rs, TimerEvent { view: 2 }, &wire, &mut out);
    assert_eq!(rs.timeout_interval_ms, u64::MAX);
}
