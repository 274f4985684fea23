use zk_stf::ledger::{
    apply_block, compute_state_root, encode_txs, execute_block, fits_block, hash_transactions,
    State, Tx,
};

fn hex(bytes: &[u8]) -> String {
    bytes.iter().map(|b| format!("{:02x}", b)).collect()
}

fn two_accounts() -> State {
    let mut s = State::new();
    s.set_balance(1, 10);
    s
}

#[test]
fn a_transfer_moves_money() {
    let mut s = two_accounts();
    let n = apply_block(&mut s, &[Tx { from: 1, to: 2, amount: 4 }]);
    assert_eq!(n, 1);
    assert_eq!(s.get_balance(1), 6);
    assert_eq!(s.get_balance(2), 4);
}

#[test]
fn transfers_that_cannot_be_made_are_skipped() {
    let mut s = two_accounts();
    let txs = [
        Tx { from: 1, to: 2, amount: 11 },
        Tx { from: 1, to: 2, amount: 0 },
        Tx { from: 1, to: 1, amount: 3 },
        Tx { from: 9, to: 1, amount: 1 },
        Tx { from: 1, to: 2, amount: 10 },
        Tx { from: 1, to: 2, amount: 1 },
    ];
    assert_eq!(apply_block(&mut s, &txs), 1);
    assert_eq!(s.get_balance(1), 0);
    assert_eq!(s.get_balance(2), 10);
    assert_eq!(s.get_balance(9), 0);
    assert_eq!(s.balances.len(), 2);
}

#[test]
fn supply_is_conserved() {
    let mut s = State::new();
    for i in 0..5u32 {
        s.set_balance(i, 100);
    }
    let txs: Vec<Tx> =
        (0..40u32).map(|i| Tx { from: i % 5, to: (i * 3 + 1) % 5, amount: (i % 7) as u64 * 9 }).collect();
    apply_block(&mut s, &txs);
    let total: u64 = (0..5u32).map(|i| s.get_balance(i)).sum();
    assert_eq!(total, 500);
}

#[test]
fn blocks_compose() {
    let txs = [
        Tx { from: 1, to: 2, amount: 4 },
        Tx { from: 2, to: 3, amount: 3 },
        Tx { from: 1, to: 3, amount: 7 },
    ];
    let mut once = two_accounts();
    let all = apply_block(&mut once, &txs);
    let mut twice = two_accounts();
    let first = apply_block(&mut twice, &txs[..1]);
    let second = apply_block(&mut twice, &txs[1..]);
    assert_eq!(all, first + second);
    assert_eq!(once.hash(), twice.hash());
}

#[test]
fn bystanders_are_untouched() {
    let mut s = two_accounts();
    s.set_balance(7, 77);
    apply_block(&mut s, &[Tx { from: 1, to: 2, amount: 4 }]);
    assert_eq!(s.get_balance(7), 77);
    assert!(s.entries().contains(&(7, 77)));
    assert!(s.entries().iter().all(|e| e.0 != 8));
}

#[test]
fn a_block_fits_if_no_balance_overflows() {
    let mut s = two_accounts();
    s.set_balance(2, u64::MAX - 3);
    assert!(fits_block(&s, &[Tx { from: 1, to: 2, amount: 3 }]));
    assert!(!fits_block(&s, &[Tx { from: 1, to: 2, amount: 4 }]));
    assert!(fits_block(&s, &[Tx { from: 1, to: 2, amount: 11 }]));
}

#[test]
fn hashes_have_known_values() {
    assert_eq!(
        hex(&State::new().hash()),
        "e3b0c44298fc1c149afbf4c8996fb92427ae41e4649b934ca495991b7852b855"
    );
    let mut s = State::new();
    s.set_balance(2, 4);
    s.set_balance(1, 6);
    assert_eq!(
        hex(&compute_state_root(&s)),
        "c31dd98a28426e0de3c5606afe98dd349f0da097e090382aa122a7bc3973d6e8"
    );
    assert_eq!(
        hex(&hash_transactions(&[Tx { from: 1, to: 2, amount: 4 }])),
        "2550740d6796094750d436a6758928e5e337cb4ec2de4ec44c74192696b6342c"
    );
}

#[test]
fn state_bytes_are_ordered_by_account() {
    let mut s = State::new();
    s.set_balance(258, 1);
    s.set_balance(1, 2);
    assert_eq!(s.entries(), vec![(1, 2), (258, 1)]);
    assert_eq!(
        s.encode(),
        vec![1, 0, 0, 0, 2, 0, 0, 0, 0, 0, 0, 0, 2, 1, 0, 0, 1, 0, 0, 0, 0, 0, 0, 0]
    );
}

#[test]
fn transaction_bytes_are_little_endian() {
    assert_eq!(
        encode_txs(&[Tx { from: 1, to: 2, amount: 256 }]),
        vec![1, 0, 0, 0, 2, 0, 0, 0, 0, 1, 0, 0, 0, 0, 0, 0]
    );
    assert_ne!(
        encode_txs(&[Tx { from: 1, to: 2, amount: 3 }]),
        encode_txs(&[Tx { from: 2, to: 1, amount: 3 }])
    );
}

#[test]
fn execution_commits_to_both_roots() {
    let txs = [Tx { from: 1, to: 2, amount: 4 }];
    let before = two_accounts();
    let pre = before.hash();
    let done = execute_block(before, &txs);
    assert_eq!(done.applied, 1);
    assert_eq!(done.commit.pre_state_root, pre);
    assert_eq!(
        hex(&done.commit.post_state_root),
        "c31dd98a28426e0de3c5606afe98dd349f0da097e090382aa122a7bc3973d6e8"
    );
    assert_eq!(done.commit.tx_hash, hash_transactions(&txs));
    assert_eq!(done.state.get_balance(2), 4);
}
