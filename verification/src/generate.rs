//! Deterministic workloads: the first ledger state and pseudo-random blocks.

use crate::ledger::{
    apply_block, apply_txs, block_fits, fits_block, law_blocks_compose, law_supply_is_the_sum,
    total_supply, State, Tx,
};
use vstd::prelude::*;

verus! {

/// The seed that every workload starts from.
pub const INITIAL_SEED: u64 = 12345;

/// One step of the linear congruential generator, modulo 2^64.
#[verifier::opaque]
pub open spec fn lcg(seed: u64) -> u64 {
    ((seed * 6364136223846793005 + 1) % 0x1_0000_0000_0000_0000) as u64
}

/// The seed `k` steps later.
pub open spec fn seed_after(seed: u64, k: nat) -> u64
    decreases k,
{
    if k == 0 {
        seed
    } else {
        lcg(seed_after(seed, (k - 1) as nat))
    }
}

/// The transaction that the three steps behind `seed` make, between two of
/// `accounts` accounts.
pub open spec fn tx_from_seed(seed: u64, accounts: u32) -> Tx {
    let from = (seed_after(seed, 1) % accounts as u64) as u32;
    let to = (seed_after(seed, 2) % accounts as u64) as u32;
    Tx {
        from,
        to: if to == from {
            ((to + 1) % accounts as int) as u32
        } else {
            to
        },
        amount: (seed_after(seed, 3) % 10 + 1) as u64,
    }
}

/// The next `n` transactions.
pub open spec fn generated(n: nat, accounts: u32, seed: u64) -> Seq<Tx> {
    Seq::new(n, |i: int| tx_from_seed(seed_after(seed, (3 * i) as nat), accounts))
}

/// The ledger in which the accounts below `accounts` hold `balance` each.
pub open spec fn uniform_ledger(accounts: u32, balance: u64) -> Map<u32, u64> {
    Map::new(|a: u32| a < accounts, |a: u32| balance)
}

fn step(seed: u64) -> (r: u64)
    ensures
        r == lcg(seed),
{
    let m = seed.wrapping_mul(6364136223846793005);
    proof {
        reveal(lcg);
        let p = seed as nat * 6364136223846793005nat;
        assert(m == p % 0x1_0000_0000_0000_0000);
        assert(seed * 6364136223846793005 == p);
    }
    m.wrapping_add(1)
}

/// Deterministic pseudo-random transactions. The seed advances, so that the
/// next block continues where this one ended.
pub fn generate_txs(num_txs: u32, num_accounts: u32, seed: &mut u64) -> (r: Vec<Tx>)
    requires
        num_txs > 0 ==> num_accounts > 0,
    ensures
        r@ == generated(num_txs as nat, num_accounts, *old(seed)),
        *final(seed) == seed_after(*old(seed), (3 * num_txs) as nat),
{
    let ghost s0 = *seed;
    let mut txs: Vec<Tx> = Vec::with_capacity(num_txs as usize);
    let mut i: u32 = 0;
    while i < num_txs
        invariant
            i <= num_txs,
            num_txs > 0 ==> num_accounts > 0,
            txs.len() == i,
            *seed == seed_after(s0, (3 * i) as nat),
            forall|j: int|
                0 <= j < i ==> #[trigger] txs@[j] == tx_from_seed(
                    seed_after(s0, (3 * j) as nat),
                    num_accounts,
                ),
        decreases num_txs - i,
    {
        let ghost s = *seed;
        let ghost k = (3 * i) as nat;
        proof {
            lemma_seed_after_adds(s0, k, 1);
            lemma_seed_after_adds(s0, k, 2);
            lemma_seed_after_adds(s0, k, 3);
            reveal_with_fuel(seed_after, 4);
        }
        *seed = step(*seed);
        assert(*seed == seed_after(s, 1));
        let from = (*seed % num_accounts as u64) as u32;
        *seed = step(*seed);
        assert(*seed == seed_after(s, 2));
        let mut to: u32 = (*seed % num_accounts as u64) as u32;
        if to == from {
            to = (to + 1) % num_accounts;
        }
        *seed = step(*seed);
        assert(*seed == seed_after(s, 3));
        let amount = (*seed % 10) + 1;
        txs.push(Tx { from, to, amount });
        i += 1;
    }
    assert(txs@ =~= generated(num_txs as nat, num_accounts, s0));
    txs
}

/// The ledger that a workload starts from.
pub fn generate_initial_state(num_accounts: u32, initial_balance: u64) -> (r: State)
    ensures
        r@ == uniform_ledger(num_accounts, initial_balance),
{
    let mut state = State::new();
    let mut i: u32 = 0;
    while i < num_accounts
        invariant
            i <= num_accounts,
            state@ =~= uniform_ledger(i, initial_balance),
        decreases num_accounts - i,
    {
        state.set_balance(i, initial_balance);
        i += 1;
    }
    state
}

/// The ledger after the first `blocks` generated blocks.
pub open spec fn ledger_after(
    m: Map<u32, u64>,
    seed: u64,
    blocks: nat,
    num_txs: u32,
    accounts: u32,
) -> Map<u32, u64> {
    apply_txs(m, generated(blocks * num_txs as nat, accounts, seed))
}

/// Whether the generated block number `b` can be applied in its turn.
pub open spec fn generated_block_fits(
    m: Map<u32, u64>,
    seed: u64,
    b: nat,
    num_txs: u32,
    accounts: u32,
) -> bool {
    block_fits(
        ledger_after(m, seed, b, num_txs, accounts),
        generated(num_txs as nat, accounts, seed_after(seed, 3 * (b * num_txs as nat))),
    )
}

/// Replays the first `blocks` generated blocks, to resume a workload behind
/// them. Stops in front of the first block that would overflow, and returns
/// its number.
pub fn replay_generated(
    state: &mut State,
    seed: &mut u64,
    blocks: u32,
    num_txs: u32,
    num_accounts: u32,
) -> (r: Result<(), u32>)
    requires
        num_txs > 0 ==> num_accounts > 0,
    ensures
        match r {
            Ok(()) => {
                &&& forall|b: nat|
                    b < blocks ==> #[trigger] generated_block_fits(
                        old(state)@,
                        *old(seed),
                        b,
                        num_txs,
                        num_accounts,
                    )
                &&& final(state)@ == ledger_after(
                    old(state)@,
                    *old(seed),
                    blocks as nat,
                    num_txs,
                    num_accounts,
                )
                &&& *final(seed) == seed_after(*old(seed), 3 * (blocks as nat * num_txs as nat))
            },
            Err(b) => {
                &&& b < blocks
                &&& !generated_block_fits(old(state)@, *old(seed), b as nat, num_txs, num_accounts)
                &&& forall|c: nat|
                    c < b ==> #[trigger] generated_block_fits(
                        old(state)@,
                        *old(seed),
                        c,
                        num_txs,
                        num_accounts,
                    )
                &&& final(state)@ == ledger_after(
                    old(state)@,
                    *old(seed),
                    b as nat,
                    num_txs,
                    num_accounts,
                )
            },
        },
{
    let ghost m = state@;
    let ghost s0 = *seed;
    let mut b: u32 = 0;
    proof {
        assert(0 * num_txs as nat == 0) by (nonlinear_arith);
        assert(generated(0, num_accounts, s0) =~= Seq::empty());
    }
    while b < blocks
        invariant
            b <= blocks,
            m == old(state)@,
            s0 == *old(seed),
            num_txs > 0 ==> num_accounts > 0,
            state@ == ledger_after(m, s0, b as nat, num_txs, num_accounts),
            *seed == seed_after(s0, 3 * (b as nat * num_txs as nat)),
            forall|c: nat|
                c < b ==> #[trigger] generated_block_fits(m, s0, c, num_txs, num_accounts),
        decreases blocks - b,
    {
        let ghost k = b as nat * num_txs as nat;
        let txs = generate_txs(num_txs, num_accounts, seed);
        proof {
            assert((b as nat + 1) * num_txs as nat == k + num_txs as nat) by (nonlinear_arith)
                requires
                    k == b as nat * num_txs as nat,
            ;
            law_generation_continues(k, num_txs as nat, num_accounts, s0);
            law_blocks_compose(m, generated(k, num_accounts, s0), txs@);
            lemma_seed_after_adds(s0, 3 * k, (3 * num_txs) as nat);
        }
        if !fits_block(&*state, txs.as_slice()) {
            return Err(b);
        }
        let _ = apply_block(state, txs.as_slice());
        b += 1;
    }
    Ok(())
}

// ---- Laws ----

proof fn lemma_seed_after_adds(seed: u64, a: nat, b: nat)
    ensures
        seed_after(seed, a + b) == seed_after(seed_after(seed, a), b),
    decreases b,
{
    if b > 0 {
        lemma_seed_after_adds(seed, a, (b - 1) as nat);
    }
}

/// Generating in two parts gives what generating at once gives.
pub proof fn law_generation_continues(a: nat, b: nat, accounts: u32, seed: u64)
    ensures
        generated(a + b, accounts, seed) == generated(a, accounts, seed) + generated(
            b,
            accounts,
            seed_after(seed, 3 * a),
        ),
{
    let whole = generated(a + b, accounts, seed);
    let parts = generated(a, accounts, seed) + generated(b, accounts, seed_after(seed, 3 * a));
    assert forall|i: int| 0 <= i < a + b implies whole[i] == parts[i] by {
        if i >= a {
            lemma_seed_after_adds(seed, 3 * a, (3 * (i - a)) as nat);
            assert(3 * a + (3 * (i - a)) as nat == (3 * i) as nat);
        }
    }
    assert(whole =~= parts);
}

/// Every generated transaction pays between 1 and 10 from one existing
/// account to another, as soon as there are two accounts.
pub proof fn law_generated_well_formed(n: nat, accounts: u32, seed: u64, i: int)
    requires
        accounts >= 2,
        0 <= i < n,
    ensures
        generated(n, accounts, seed)[i].from < accounts,
        generated(n, accounts, seed)[i].to < accounts,
        generated(n, accounts, seed)[i].from != generated(n, accounts, seed)[i].to,
        1 <= generated(n, accounts, seed)[i].amount <= 10,
{
    let s = seed_after(seed, (3 * i) as nat);
    lemma_endpoints(seed_after(s, 1), seed_after(s, 2), accounts);
}

proof fn lemma_endpoints(x: u64, y: u64, accounts: u32)
    requires
        accounts >= 2,
    ensures
        x % (accounts as u64) < accounts,
        y % (accounts as u64) < accounts,
        (y % accounts as u64 + 1) % (accounts as int) < accounts,
        (y % accounts as u64 + 1) % (accounts as int) >= 0,
        (y % accounts as u64 + 1) % (accounts as int) != y % accounts as u64,
{
    let t = (y % accounts as u64) as int;
    let n = accounts as int;
    assert(0 <= x % (accounts as u64) < accounts) by (nonlinear_arith)
        requires
            accounts >= 2,
    ;
    assert(0 <= y % (accounts as u64) < accounts) by (nonlinear_arith)
        requires
            accounts >= 2,
    ;
    if t + 1 < n {
        vstd::arithmetic::div_mod::lemma_small_mod((t + 1) as nat, n as nat);
    } else {
        vstd::arithmetic::div_mod::lemma_mod_self_0(n);
    }
}


/// In the initial ledger every account below the number of accounts holds the
/// initial balance, and there is no other account; so the supply is the number
/// of accounts times the initial balance.
pub proof fn law_initial_ledger(accounts: u32, balance: u64, account: u32)
    ensures
        ({
            let m = uniform_ledger(accounts, balance);
            &&& m.contains_key(account) <==> account < accounts
            &&& account < accounts ==> m[account] == balance
            &&& m.dom().finite()
            &&& total_supply(m) == accounts * balance
        }),
    decreases accounts,
{
    let m = uniform_ledger(accounts, balance);
    if accounts == 0 {
        assert(m =~= Map::empty());
        law_supply_is_the_sum(Map::empty(), 0, 0);
        assert(0 * balance == 0) by (nonlinear_arith);
    } else {
        let less = (accounts - 1) as u32;
        let n = uniform_ledger(less, balance);
        law_initial_ledger(less, balance, account);
        law_supply_is_the_sum(n, less, balance);
        assert(m =~= n.insert(less, balance));
        assert(accounts * balance == less * balance + balance) by (nonlinear_arith)
            requires
                accounts == less + 1,
        ;
    }
}

/// Each seed follows from the one before: it is multiplied by a constant, one is
/// added, and the result is taken modulo 2^64.
pub proof fn law_seeds_follow(seed: u64, k: nat)
    ensures
        INITIAL_SEED == 12345,
        seed_after(seed, 0) == seed,
        seed_after(seed, k + 1) == (seed_after(seed, k) * 6364136223846793005 + 1)
            % 0x1_0000_0000_0000_0000,
{
    reveal(lcg);
}

/// Every transaction is made of three seeds in a row: sender, receiver and
/// amount. A receiver that is the sender is replaced by the next account.
pub proof fn law_generated_from_seeds(n: nat, accounts: u32, seed: u64, i: nat)
    requires
        accounts >= 1,
        i < n,
    ensures
        ({
            let tx = generated(n, accounts, seed)[i as int];
            let a = seed_after(seed, 3 * i + 1) as int % accounts as int;
            let b = seed_after(seed, 3 * i + 2) as int % accounts as int;
            let c = seed_after(seed, 3 * i + 3);
            &&& generated(n, accounts, seed).len() == n
            &&& tx.from == a
            &&& tx.to == if b != a {
                b
            } else if b + 1 < accounts {
                b + 1
            } else {
                0
            }
            &&& tx.amount == c % 10 + 1
        }),
{
    let s = seed_after(seed, 3 * i);
    lemma_seed_after_adds(seed, 3 * i, 1);
    lemma_seed_after_adds(seed, 3 * i, 2);
    lemma_seed_after_adds(seed, 3 * i, 3);
    let x = seed_after(s, 1);
    let y = seed_after(s, 2);
    let m = accounts as int;
    assert(0 <= x as int % m < m && 0 <= y as int % m < m) by (nonlinear_arith)
        requires
            m >= 1,
    ;
    let b = y as int % m;
    if b + 1 < m {
        vstd::arithmetic::div_mod::lemma_small_mod((b + 1) as nat, m as nat);
    } else {
        vstd::arithmetic::div_mod::lemma_mod_self_0(m);
    }
}

/// Replaying generated blocks is applying all their transactions in turn: block
/// number `b` continues where the blocks before it have left the ledger and the
/// seed.
pub proof fn law_replay_continues(
    m: Map<u32, u64>,
    seed: u64,
    b: nat,
    num_txs: u32,
    accounts: u32,
)
    ensures
        ledger_after(m, seed, 0, num_txs, accounts) == m,
        ({
            let block = generated(
                num_txs as nat,
                accounts,
                seed_after(seed, 3 * (b * num_txs as nat)),
            );
            let before = ledger_after(m, seed, b, num_txs, accounts);
            &&& ledger_after(m, seed, b + 1, num_txs, accounts) == apply_txs(before, block)
            &&& generated_block_fits(m, seed, b, num_txs, accounts) == block_fits(before, block)
        }),
{
    let k = b * num_txs as nat;
    assert(0 * num_txs as nat == 0) by (nonlinear_arith);
    assert(generated(0, accounts, seed) =~= Seq::empty());
    assert((b + 1) * num_txs as nat == k + num_txs as nat) by (nonlinear_arith)
        requires
            k == b * num_txs as nat,
    ;
    law_generation_continues(k, num_txs as nat, accounts, seed);
    law_blocks_compose(
        m,
        generated(k, accounts, seed),
        generated(num_txs as nat, accounts, seed_after(seed, 3 * k)),
    );
}

} // verus!
