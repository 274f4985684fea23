use zk_stf::generate::{generate_initial_state, generate_txs, replay_generated, INITIAL_SEED};
use zk_stf::ledger::{apply_block, State, Tx};

fn tx(from: u32, to: u32, amount: u64) -> Tx {
    Tx { from, to, amount }
}

#[test]
fn generated_transactions_have_known_values() {
    let mut seed = INITIAL_SEED;
    let txs = generate_txs(3, 100, &mut seed);
    assert_eq!(txs, vec![tx(82, 63, 3), tx(97, 26, 2), tx(68, 45, 3)]);
    assert_eq!(seed, 11907682598963201182);
}

#[test]
fn a_receiver_that_is_the_sender_moves_on() {
    let mut seed = INITIAL_SEED;
    let txs = generate_txs(4, 2, &mut seed);
    assert_eq!(txs, vec![tx(0, 1, 3), tx(1, 0, 2), tx(0, 1, 3), tx(1, 0, 8)]);
    let mut seed = INITIAL_SEED;
    assert_eq!(generate_txs(1, 1, &mut seed), vec![tx(0, 0, 3)]);
    assert!(generate_txs(0, 0, &mut seed).is_empty());
}

#[test]
fn generation_continues_across_blocks() {
    let mut once = INITIAL_SEED;
    let all = generate_txs(7, 10, &mut once);
    let mut twice = INITIAL_SEED;
    let mut parts = generate_txs(3, 10, &mut twice);
    parts.extend(generate_txs(4, 10, &mut twice));
    assert_eq!(all, parts);
    assert_eq!(once, twice);
}

#[test]
fn generated_transactions_are_well_formed() {
    let mut seed = INITIAL_SEED;
    for t in generate_txs(500, 13, &mut seed) {
        assert!(t.from < 13 && t.to < 13 && t.from != t.to);
        assert!(1 <= t.amount && t.amount <= 10);
    }
}

#[test]
fn every_account_starts_with_the_same_balance() {
    let s = generate_initial_state(3, 1000);
    assert_eq!(s.entries(), vec![(0, 1000), (1, 1000), (2, 1000)]);
    assert!(generate_initial_state(0, 5).entries().is_empty());
}

#[test]
fn replay_reconstructs_the_state() {
    let mut state = generate_initial_state(10, 50);
    let mut seed = INITIAL_SEED;
    assert_eq!(replay_generated(&mut state, &mut seed, 3, 20, 10), Ok(()));

    let mut want = generate_initial_state(10, 50);
    let mut want_seed = INITIAL_SEED;
    for _ in 0..3 {
        let txs = generate_txs(20, 10, &mut want_seed);
        apply_block(&mut want, &txs);
    }
    assert_eq!(state.entries(), want.entries());
    assert_eq!(seed, want_seed);
}

#[test]
fn replay_stops_where_a_balance_would_overflow() {
    let mut state = State::new();
    state.set_balance(0, u64::MAX);
    state.set_balance(1, u64::MAX);
    let mut seed = INITIAL_SEED;
    assert_eq!(replay_generated(&mut state, &mut seed, 2, 1, 2), Err(0));
}
