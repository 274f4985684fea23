use std::collections::HashMap;
use zk_stf::action::{Event, SkipReason};
use zk_stf::codec::{to_hex, write_txs, HexError};
use zk_stf::crypto::public_key;
use zk_stf::ledger::{execute_block, hash_transactions, BlockCommit, State, Tx};
use zk_stf::logging::{
    event_fields, event_name, event_phase, log_line, now_ns, timestamp_of, total_ns, validation_fields,
};
use zk_stf::messages::{MsgType, Wire};
use zk_stf::network::{
    admit_checked_peer, admit_peer, cluster_size, frame, frame_len, greeting, hello, next_backoff,
    peers_ready, Admission, FIRST_BACKOFF_MS, HEADER_LEN, MAX_BACKOFF_MS,
};
use zk_stf::node::{workload_done, Tally, TallyError};
use zk_stf::replay::{check_proven, check_saved, chosen_task, describe_block, Mismatch, Task};
use zk_stf::validator::{
    init_state, run_validation, Mode, Speed, ValidateRequest, ValidationFault, Validator,
};
use zk_stf::workload::{block_at, BlockError, BlockMeta, Manifest, Workload};

// ---- Network ----

#[test]
fn frames_round_trip() {
    let payload: Vec<u8> = (0..300u32).map(|i| i as u8).collect();
    let f = frame(&payload);
    assert_eq!(&f[..HEADER_LEN], &[0, 0, 1, 44]);
    let mut header = [0u8; 4];
    header.copy_from_slice(&f[..HEADER_LEN]);
    assert_eq!(frame_len(&header), 300);
    assert_eq!(&f[HEADER_LEN..], &payload[..]);
    assert_eq!(frame(&[]), vec![0, 0, 0, 0]);
    assert_eq!(frame_len(&[255, 255, 255, 255]), u32::MAX);
    assert_eq!(frame_len(&[1, 2, 3, 4]), 0x01020304);
}

#[test]
fn the_first_message_has_to_be_a_greeting() {
    assert!(matches!(hello(3, [7u8; 32]), Wire::Hello { node_id: 3, pubkey } if pubkey == [7u8; 32]));
    assert!(matches!(greeting(hello(3, [7u8; 32])), Ok((3, k)) if k == [7u8; 32]));
    let other = Wire::NewView { view: 1, justify: None, sender: 2 };
    assert!(matches!(greeting(other), Err(Wire::NewView { view: 1, sender: 2, .. })));
}

#[test]
fn peers_are_admitted_once_and_with_a_key() {
    let mut keys: HashMap<u32, [u8; 32]> = HashMap::new();
    let pk = public_key(&[1u8; 32]);
    assert_eq!(admit_peer(&mut keys, 4, pk, false), Admission::Accepted);
    assert_eq!(keys[&4], pk);
    let other = public_key(&[2u8; 32]);
    assert_eq!(admit_peer(&mut keys, 4, other, true), Admission::Duplicate);
    assert_eq!(keys[&4], other);
    assert_eq!(
        admit_checked_peer(&mut keys, 5, [0u8; 32], false, false),
        Admission::InvalidKey
    );
    assert!(!keys.contains_key(&5));
}

#[test]
fn backoff_doubles_up_to_a_limit() {
    let mut ms = FIRST_BACKOFF_MS;
    let mut waits = vec![ms];
    for _ in 0..5 {
        ms = next_backoff(ms);
        waits.push(ms);
    }
    assert_eq!(waits, vec![200, 400, 800, 1600, 2000, 2000]);
    assert_eq!(MAX_BACKOFF_MS, 2000);
}

#[test]
fn a_node_waits_for_all_others() {
    assert_eq!(cluster_size(3), 4);
    assert!(!peers_ready(2, 4));
    assert!(peers_ready(3, 4));
    assert!(peers_ready(0, 1));
}

// ---- Log ----

#[test]
fn times_are_in_nanoseconds() {
    assert_eq!(total_ns(2, 5), 2_000_000_005);
    assert_eq!(total_ns(18_446_744_073, 709_551_616), 0);
    assert_eq!(total_ns(18_446_744_074, 0), 290_448_384);
    assert_eq!(timestamp_of(Some((2, 5))), Some(2_000_000_005));
    assert_eq!(timestamp_of(None), None);
    let a = now_ns().unwrap();
    let b = now_ns().unwrap();
    assert!(a > 1_500_000_000_000_000_000);
    assert!(b >= a || b < 1_000_000_000);
}

fn line(event: Event) -> String {
    log_line(2, 7, event_phase(&event), event_name(&event), 99, &event_fields(&event))
}

#[test]
fn log_lines_list_their_fields_by_key() {
    let h = [0xabu8; 32];
    let hex = to_hex(&h);
    let cases = vec![
        (
            Event::ProposeSend { leaf_hash: h, leaf_height: 3, high_qc_view: 6 },
            format!("phase=prepare event=propose_send ts_ns=99 high_qc_view=6 leaf_hash={} leaf_height=3", hex),
        ),
        (
            Event::ProposeRecv { leaf_hash: h, leaf_height: 3, high_qc_view: 6, sender: 1 },
            format!("phase=prepare event=propose_recv ts_ns=99 high_qc_view=6 leaf_hash={} leaf_height=3 sender=1", hex),
        ),
        (
            Event::PrepareSkip { reason: SkipReason::ValidFalse },
            String::from("phase=prepare event=prepare_skip ts_ns=99 reason=valid_false"),
        ),
        (
            Event::PrepareSkip { reason: SkipReason::SafeNodeFalse },
            String::from("phase=prepare event=prepare_skip ts_ns=99 reason=safe_node_false"),
        ),
        (
            Event::PrepareVoteSend { leaf_hash: h },
            format!("phase=prepare event=prepare_vote_send ts_ns=99 leaf_hash={}", hex),
        ),
        (
            Event::PreCommitVoteSend { node_hash: h },
            format!("phase=pre_commit event=pre_commit_vote_send ts_ns=99 node_hash={}", hex),
        ),
        (
            Event::CommitVoteSend { node_hash: h },
            format!("phase=commit event=commit_vote_send ts_ns=99 node_hash={}", hex),
        ),
        (
            Event::PhaseQcSend { phase: MsgType::Decide, node_hash: h },
            format!("phase=decide event=phase_qc_send ts_ns=99 node_hash={} phase=decide", hex),
        ),
        (
            Event::PhaseQcRecv { phase: MsgType::PreCommit },
            String::from("phase=pre_commit event=phase_qc_recv ts_ns=99 phase=pre_commit"),
        ),
        (
            Event::VoteRecv { phase: MsgType::Commit, voter: 3 },
            String::from("phase=commit event=vote_recv ts_ns=99 phase=commit voter=3"),
        ),
        (
            Event::NewViewRecv { from_view: 6, sender: 3 },
            String::from("phase=new_view event=new_view_recv ts_ns=99 from_view=6 sender=3"),
        ),
        (
            Event::NewViewSend { to: 1, from_view: 6 },
            String::from("phase=new_view event=new_view_send ts_ns=99 from_view=6 to=1"),
        ),
        (Event::NextView, String::from("phase=new_view event=next_view ts_ns=99 reason=timeout")),
        (
            Event::ViewStart { leader: 1, timeout_ms: 1000 },
            String::from("phase=new_view event=view_start ts_ns=99 leader=1 timeout_ms=1000"),
        ),
        (Event::ViewDecide { node_hash: h }, format!("phase=decide event=view_decide ts_ns=99 node_hash={}", hex)),
        (
            Event::ValidateStart { height: 4 },
            String::from("phase=prepare event=validate_start ts_ns=99 height=4"),
        ),
        (
            Event::Execute { height: 4, node_hash: h },
            format!("phase=decide event=execute ts_ns=99 height=4 node_hash={}", hex),
        ),
    ];
    for (event, want) in cases {
        assert_eq!(line(event), format!("[node 2] view=7 {}", want));
    }
    let done = validation_fields("reexec", true, 4, 123);
    assert_eq!(
        log_line(0, 1, MsgType::Prepare, "validate_end", 5, &done),
        "[node 0] view=1 phase=prepare event=validate_end ts_ns=5 elapsed_ns=123 height=4 kind=reexec valid=true"
    );
}

// ---- Workload ----

fn meta(number: u32, tx_hash: String) -> BlockMeta {
    BlockMeta { block_number: number, tx_hash, txs_total: 5 }
}

fn manifest(num_blocks: u32) -> Manifest {
    Manifest { num_accounts: 3, initial_balance: 10, num_blocks }
}

#[test]
fn blocks_are_found_by_height() {
    let metas = (0..3u32).map(|i| meta(i, to_hex(&[i as u8; 32]))).collect();
    let w = Workload::load(String::from("dir"), manifest(3), metas).unwrap();
    assert_eq!(w.elf_path(), "dir/ledger-program.elf");
    let b = w.block(2).unwrap();
    assert_eq!(b.cmd, [2u8; 32]);
    assert_eq!(b.meta.txs_total, 5);
    assert_eq!(b.txs_path, "dir/block_0002/transactions.bin");
    assert_eq!(b.proof_path, "dir/block_0002/proof.bin");
    assert!(w.block(3).is_none());
}

#[test]
fn corrupt_blocks_are_refused() {
    let e = block_at("dir", 1, meta(2, to_hex(&[2u8; 32]))).unwrap_err();
    assert_eq!(e, BlockError::WrongNumber { block_number: 2 });
    let e = block_at("dir", 1, meta(1, String::from("abc"))).unwrap_err();
    assert_eq!(e, BlockError::InvalidTxHash { error: HexError::OddLength });
    let metas = vec![meta(0, to_hex(&[0u8; 32])), meta(0, to_hex(&[0u8; 32]))];
    let e = Workload::load(String::from("dir"), manifest(2), metas).unwrap_err();
    assert_eq!(e, (1, BlockError::WrongNumber { block_number: 0 }));
}

#[test]
fn executed_transactions_are_counted() {
    let metas = (0..3u32).map(|i| meta(i, to_hex(&[i as u8; 32]))).collect();
    let w = Workload::load(String::from("dir"), manifest(3), metas).unwrap();
    let mut t = Tally::new();
    assert_eq!(t.count(&w, -1), Ok(()));
    assert_eq!(t.total_txs, 0);
    assert_eq!(t.count(&w, 0), Ok(()));
    assert_eq!(t.total_txs, 5);
    assert_eq!(t.count(&w, 2), Ok(()));
    assert_eq!((t.total_txs, t.last_counted_height), (15, 2));
    assert_eq!(t.count(&w, 1), Ok(()));
    assert_eq!(t.total_txs, 15);
    assert_eq!(t.count(&w, 3), Err(TallyError::NoBlock { height: 3 }));
    let mut full = Tally { total_txs: u64::MAX - 4, last_counted_height: -1 };
    assert_eq!(full.count(&w, 0), Err(TallyError::Overflow));
}

#[test]
fn a_workload_is_done_after_its_last_block() {
    assert!(workload_done(-1, 0));
    assert!(!workload_done(-1, 1));
    assert!(!workload_done(1, 3));
    assert!(workload_done(2, 3));
    assert!(workload_done(i64::MAX, u32::MAX));
}

// ---- Validation ----

fn request(cmd: [u8; 32], txs_total: u32) -> ValidateRequest {
    ValidateRequest {
        node_hash: [1u8; 32],
        height: 4,
        cmd,
        txs_path: String::from("t"),
        proof_path: String::from("p"),
        txs_total,
    }
}

fn one_transfer() -> Vec<Tx> {
    vec![Tx { from: 0, to: 1, amount: 4 }]
}

#[test]
fn validators_follow_mode_and_speed() {
    let slow = Validator::build(Mode::Reexecute, Speed::Slow, 7);
    assert_eq!(slow, Validator::Reexecute { slow_delay_per_tx_ns: 7 });
    assert_eq!(slow.kind(), "reexec");
    let fast = Validator::build(Mode::Reexecute, Speed::Fast, 7);
    assert_eq!(fast, Validator::Reexecute { slow_delay_per_tx_ns: 0 });
    let verify = Validator::build(Mode::Verify, Speed::Slow, 7);
    assert_eq!(verify, Validator::Verify);
    assert_eq!(verify.kind(), "verify");
    assert_eq!(init_state(Mode::Reexecute, &manifest(1)).entries(), vec![(0, 10), (1, 10), (2, 10)]);
    assert!(init_state(Mode::Verify, &manifest(1)).entries().is_empty());
}

#[test]
fn re_execution_yields_the_state_after_the_block() {
    let v = Validator::Reexecute { slow_delay_per_tx_ns: 100 };
    let before = init_state(Mode::Reexecute, &manifest(1));
    let file = write_txs(&one_transfer());
    let done = run_validation(&request([0u8; 32], 3), before, &v, Some(file), None).unwrap();
    assert_eq!(done.delay_ns, 300);
    let o = done.outcome;
    assert!(o.valid);
    assert_eq!((o.node_hash, o.height), ([1u8; 32], 4));
    assert_eq!(o.post_state.unwrap().entries(), vec![(0, 6), (1, 14), (2, 10)]);
    assert!(o.post_root.is_none() && o.pre_root.is_none());
}

#[test]
fn unreadable_blocks_are_invalid() {
    let v = Validator::Reexecute { slow_delay_per_tx_ns: 100 };
    for file in [None, Some(vec![1u8, 2, 3])] {
        let done = run_validation(&request([0u8; 32], 3), State::new(), &v, file, None).unwrap();
        assert!(!done.outcome.valid && done.outcome.post_state.is_none());
        assert_eq!(done.delay_ns, 0);
    }
    let done =
        run_validation(&request([0u8; 32], 3), State::new(), &Validator::Verify, None, None).unwrap();
    assert!(!done.outcome.valid);
}

#[test]
fn validations_that_overflow_are_faults() {
    let mut s = State::new();
    s.set_balance(0, 4);
    s.set_balance(1, u64::MAX);
    let v = Validator::Reexecute { slow_delay_per_tx_ns: u64::MAX };
    let file = write_txs(&one_transfer());
    let r = run_validation(&request([0u8; 32], 3), s.clone(), &v, Some(file.clone()), None);
    assert_eq!(r.unwrap_err(), ValidationFault::BalanceOverflow);
    s.set_balance(1, 0);
    let r = run_validation(&request([0u8; 32], 2), s, &v, Some(file), None);
    assert_eq!(r.unwrap_err(), ValidationFault::DelayOverflow);
}

#[test]
fn proofs_have_to_be_about_the_proposed_transactions() {
    let commit =
        BlockCommit { pre_state_root: [1u8; 32], post_state_root: [2u8; 32], tx_hash: [3u8; 32] };
    let v = Validator::Verify;
    let done = run_validation(&request([3u8; 32], 1), State::new(), &v, None, Some(commit)).unwrap();
    assert!(done.outcome.valid);
    assert_eq!(done.outcome.pre_root, Some([1u8; 32]));
    assert_eq!(done.outcome.post_root, Some([2u8; 32]));
    let done = run_validation(&request([4u8; 32], 1), State::new(), &v, None, Some(commit)).unwrap();
    assert!(!done.outcome.valid);
    assert!(done.outcome.pre_root.is_none() && done.outcome.post_root.is_none());
}

// ---- Replay ----

#[test]
fn described_blocks_check_out() {
    let txs = one_transfer();
    let run = execute_block(init_state(Mode::Reexecute, &manifest(1)), &txs);
    let mut saved = describe_block(6, &run, 1);
    assert_eq!((saved.block_number, saved.txs_applied, saved.txs_total), (6, 1, 1));
    assert_eq!(saved.tx_hash, to_hex(&hash_transactions(&txs)));
    assert_eq!(check_saved(&run.commit, &saved), Ok(()));
    saved.tx_hash = saved.tx_hash.to_uppercase();
    assert_eq!(check_saved(&run.commit, &saved), Err(Mismatch::TxHash));
    saved.post_state_root.push('0');
    assert_eq!(check_saved(&run.commit, &saved), Err(Mismatch::PostStateRoot));
    saved.pre_state_root.clear();
    assert_eq!(check_saved(&run.commit, &saved), Err(Mismatch::PreStateRoot));
}

#[test]
fn proofs_are_held_against_the_execution() {
    let txs = one_transfer();
    let run = execute_block(init_state(Mode::Reexecute, &manifest(1)), &txs);
    let mut proven = run.commit;
    assert_eq!(check_proven(&run.commit, &proven), Ok(()));
    proven.tx_hash[31] ^= 1;
    assert_eq!(check_proven(&run.commit, &proven), Err(Mismatch::TxHash));
    proven.post_state_root[0] ^= 1;
    assert_eq!(check_proven(&run.commit, &proven), Err(Mismatch::PostStateRoot));
    proven.pre_state_root[0] ^= 1;
    assert_eq!(check_proven(&run.commit, &proven), Err(Mismatch::PreStateRoot));
}

#[test]
fn exactly_one_task_is_chosen() {
    assert_eq!(chosen_task(true, false), Some(Task::Execute));
    assert_eq!(chosen_task(false, true), Some(Task::Prove));
    assert_eq!(chosen_task(true, true), None);
    assert_eq!(chosen_task(false, false), None);
}
