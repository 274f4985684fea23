//! The token ledger: balances, transfers, and the digests that commit to them.

use crate::bytes::{le32, le64, le_value, lemma_le32, lemma_le64, push_le32, push_le64};
use crate::digest::{sha256, sha256_of};
use std::collections::BTreeMap;
use vstd::prelude::*;
use vstd::std_specs::btree::increasing_seq;
use vstd::std_specs::cmp::OrdSpec;
use vstd::std_specs::iter::IteratorSpec;

verus! {

/// A single balance transfer.
#[derive(Clone, Copy, Debug, PartialEq, Eq, Structural)]
pub struct Tx {
    pub from: u32,
    pub to: u32,
    pub amount: u64,
}

/// Ledger state: account id to balance.
///
/// The map is ordered, so walking it visits accounts in increasing order.
#[derive(Debug)]
pub struct State {
    pub balances: BTreeMap<u32, u64>,
}

impl View for State {
    type V = Map<u32, u64>;

    open spec fn view(&self) -> Map<u32, u64> {
        self.balances@
    }
}

/// The balance of `account`: accounts that were never set hold nothing.
pub open spec fn balance_of(m: Map<u32, u64>, account: u32) -> u64 {
    if m.contains_key(account) {
        m[account]
    } else {
        0
    }
}

/// Whether `tx` moves money in the ledger `m`: the sender can pay, something
/// is paid, and it is paid to somebody else.
pub open spec fn tx_applies(m: Map<u32, u64>, tx: Tx) -> bool {
    balance_of(m, tx.from) >= tx.amount && tx.amount > 0 && tx.from != tx.to
}

/// The ledger after `tx`, which is `m` itself where `tx` is skipped.
pub open spec fn apply_tx(m: Map<u32, u64>, tx: Tx) -> Map<u32, u64> {
    if tx_applies(m, tx) {
        m.insert(tx.from, (balance_of(m, tx.from) - tx.amount) as u64).insert(
            tx.to,
            (balance_of(m, tx.to) + tx.amount) as u64,
        )
    } else {
        m
    }
}

/// The ledger after all of `txs`, in order.
pub open spec fn apply_txs(m: Map<u32, u64>, txs: Seq<Tx>) -> Map<u32, u64>
    decreases txs.len(),
{
    if txs.len() == 0 {
        m
    } else {
        apply_tx(apply_txs(m, txs.drop_last()), txs.last())
    }
}

/// How many of `txs` are not skipped.
pub open spec fn count_applied(m: Map<u32, u64>, txs: Seq<Tx>) -> nat
    decreases txs.len(),
{
    if txs.len() == 0 {
        0
    } else {
        count_applied(m, txs.drop_last()) + if tx_applies(
            apply_txs(m, txs.drop_last()),
            txs.last(),
        ) {
            1nat
        } else {
            0nat
        }
    }
}

/// Whether `tx` can be applied without overflowing the receiver's balance.
pub open spec fn tx_fits(m: Map<u32, u64>, tx: Tx) -> bool {
    tx_applies(m, tx) ==> balance_of(m, tx.to) + tx.amount <= u64::MAX
}

/// Whether a block can be applied without overflow: no receiver's balance
/// passes the largest 64-bit number on the way, and the number of applied
/// transactions fits 32 bits.
pub open spec fn block_fits(m: Map<u32, u64>, txs: Seq<Tx>) -> bool {
    &&& forall|i: int|
        0 <= i < txs.len() ==> tx_fits(#[trigger] apply_txs(m, txs.take(i)), txs[i])
    &&& count_applied(m, txs) <= u32::MAX
}

/// All balances together.
pub open spec fn total_supply(m: Map<u32, u64>) -> nat
    decreases m.dom().len(),
    when m.dom().finite()
{
    if m.dom().len() == 0 {
        0
    } else {
        let k = m.dom().choose();
        m[k] as nat + total_supply(m.remove(k))
    }
}

/// `s` lists the accounts of `m` in increasing order, each with its balance.
pub open spec fn lists_entries(s: Seq<(u32, u64)>, m: Map<u32, u64>) -> bool {
    &&& forall|i: int, j: int| 0 <= i < j < s.len() ==> s[i].0 < s[j].0
    &&& forall|i: int| 0 <= i < s.len() ==> m.contains_key((#[trigger] s[i]).0) && m[s[i].0] == s[i].1
    &&& forall|k: u32| #[trigger] m.contains_key(k) ==> s.contains((k, m[k]))
}

/// The accounts of `m` in increasing order, each with its balance.
pub open spec fn sorted_entries(m: Map<u32, u64>) -> Seq<(u32, u64)> {
    choose|s: Seq<(u32, u64)>| lists_entries(s, m)
}

/// Account and balance of each entry, as little-endian bytes.
pub open spec fn encode_entries(s: Seq<(u32, u64)>) -> Seq<u8>
    decreases s.len(),
{
    if s.len() == 0 {
        Seq::empty()
    } else {
        encode_entries(s.drop_last()) + (le32(s.last().0) + le64(s.last().1))
    }
}

/// The bytes that stand for a ledger state: its entries, by increasing account.
pub open spec fn state_bytes(m: Map<u32, u64>) -> Seq<u8> {
    encode_entries(sorted_entries(m))
}

/// Sender, receiver and amount of one transaction, as little-endian bytes.
pub open spec fn tx_bytes(tx: Tx) -> Seq<u8> {
    le32(tx.from) + le32(tx.to) + le64(tx.amount)
}

/// The bytes of each transaction, in order.
pub open spec fn txs_bytes(txs: Seq<Tx>) -> Seq<u8>
    decreases txs.len(),
{
    if txs.len() == 0 {
        Seq::empty()
    } else {
        txs_bytes(txs.drop_last()) + tx_bytes(txs.last())
    }
}

/// A ledger has one list of entries.
proof fn lemma_entries_unique(a: Seq<(u32, u64)>, b: Seq<(u32, u64)>, m: Map<u32, u64>)
    requires
        lists_entries(a, m),
        lists_entries(b, m),
    ensures
        a == b,
    decreases a.len(),
{
    if a.len() == 0 {
        if b.len() > 0 {
            assert(m.contains_key(b[0].0));
            assert(a.contains((b[0].0, m[b[0].0])));
        }
        assert(a =~= b);
    } else {
        assert(m.contains_key(a[0].0));
        assert(b.contains((a[0].0, m[a[0].0])));
        let x = a.last();
        let y = b.last();
        assert(m.contains_key(x.0) && m.contains_key(y.0));
        assert(b.contains((x.0, m[x.0])));
        let i = choose|i: int| 0 <= i < b.len() && b[i] == (x.0, m[x.0]);
        assert(a.contains((y.0, m[y.0])));
        let j = choose|j: int| 0 <= j < a.len() && a[j] == (y.0, m[y.0]);
        assert(x.0 == y.0);
        let rest = m.remove(x.0);
        lemma_entries_drop_last(a, m);
        lemma_entries_drop_last(b, m);
        lemma_entries_unique(a.drop_last(), b.drop_last(), rest);
        assert(a =~= a.drop_last().push(x));
        assert(b =~= b.drop_last().push(y));
    }
}

/// Without its last entry a list of entries lists the rest of the map.
proof fn lemma_entries_drop_last(a: Seq<(u32, u64)>, m: Map<u32, u64>)
    requires
        lists_entries(a, m),
        a.len() > 0,
    ensures
        lists_entries(a.drop_last(), m.remove(a.last().0)),
{
    let x = a.last();
    let rest = m.remove(x.0);
    let s = a.drop_last();
    assert forall|i: int| 0 <= i < s.len() implies rest.contains_key((#[trigger] s[i]).0)
        && rest[s[i].0] == s[i].1 by {
        assert(s[i] == a[i]);
        assert(a[i].0 < a[a.len() - 1].0);
    }
    assert forall|k: u32| #[trigger] rest.contains_key(k) implies s.contains((k, rest[k])) by {
        assert(m.contains_key(k));
        assert(a.contains((k, m[k])));
        let i = choose|i: int| 0 <= i < a.len() && a[i] == (k, m[k]);
        assert(i < a.len() - 1);
        assert(s[i] == (k, rest[k]));
    }
}

impl Default for State {
    fn default() -> (r: Self)
        ensures
            r@ == Map::<u32, u64>::empty(),
    {
        State { balances: BTreeMap::new() }
    }
}

impl Clone for State {
    fn clone(&self) -> (r: Self)
        ensures
            r@ == self@,
    {
        State { balances: self.balances.clone() }
    }
}

impl State {
    /// A ledger without accounts.
    pub fn new() -> (r: Self)
        ensures
            r@ == Map::<u32, u64>::empty(),
    {
        Self::default()
    }

    /// The balance of `account`, zero where it was never set.
    pub fn get_balance(&self, account: u32) -> (r: u64)
        ensures
            r == balance_of(self@, account),
    {
        match self.balances.get(&account) {
            Some(b) => *b,
            None => 0,
        }
    }

    /// Sets the balance of `account`.
    pub fn set_balance(&mut self, account: u32, amount: u64)
        ensures
            final(self)@ == old(self)@.insert(account, amount),
    {
        let _ = self.balances.insert(account, amount);
    }

    /// The accounts in increasing order, each with its balance.
    pub fn entries(&self) -> (r: Vec<(u32, u64)>)
        ensures
            lists_entries(r@, self@),
            r@ == sorted_entries(self@),
    {
        let mut out: Vec<(u32, u64)> = Vec::new();
        let iter = self.balances.iter();
        let ghost all = iter.remaining();
        proof {
            let keys = all.map_values(|kv: (&u32, &u64)| *kv.0);
            assert(increasing_seq(keys));
            assert forall|i: int, j: int| 0 <= i < j < all.len() implies *all[i].0 < *all[j].0 by {
                assert(keys[i].cmp_spec(&keys[j]) is Less);
            }
        }
        for kv in it: iter
            invariant
                it.seq() == all,
                out.len() == it.index(),
                forall|i: int|
                    0 <= i < out.len() ==> (#[trigger] out@[i]).0 == *all[i].0 && out@[i].1
                        == *all[i].1,
        {
            out.push((*kv.0, *kv.1));
        }
        proof {
            assert forall|i: int| 0 <= i < out.len() implies self@.contains_key(
                (#[trigger] out@[i]).0,
            ) && self@[out@[i].0] == out@[i].1 by {
                assert(self@.contains_key(*all[i].0));
            }
            assert forall|k: u32| #[trigger] self@.contains_key(k) implies out@.contains(
                (k, self@[k]),
            ) by {
                assert(all.contains((&k, &self@[k])));
                let i = choose|i: int| 0 <= i < all.len() && all[i] == (&k, &self@[k]);
                assert(out@[i] == (k, self@[k]));
            }
            assert(lists_entries(out@, self@));
            lemma_entries_unique(out@, sorted_entries(self@), self@);
        }
        out
    }

    /// The bytes that stand for this state.
    pub fn encode(&self) -> (r: Vec<u8>)
        ensures
            r@ == state_bytes(self@),
    {
        let entries = self.entries();
        let mut out: Vec<u8> = Vec::new();
        let mut i: usize = 0;
        while i < entries.len()
            invariant
                i <= entries.len(),
                out@ == encode_entries(entries@.take(i as int)),
            decreases entries.len() - i,
        {
            let ghost before = out@;
            push_le32(&mut out, entries[i].0);
            push_le64(&mut out, entries[i].1);
            proof {
                let e = entries@[i as int];
                assert(entries@.take(i + 1).drop_last() =~= entries@.take(i as int));
                assert(out@ =~= before + (le32(e.0) + le64(e.1)));
            }
            i += 1;
        }
        assert(entries@.take(i as int) =~= entries@);
        out
    }

    /// Deterministic SHA-256 hash of the full state.
    pub fn hash(&self) -> (r: [u8; 32])
        ensures
            r@ == sha256_of(state_bytes(self@)),
    {
        let bytes = self.encode();
        sha256(&bytes)
    }
}

/// Whether `txs` can be applied to `state` without overflow.
pub fn fits_block(state: &State, txs: &[Tx]) -> (r: bool)
    ensures
        r == block_fits(state@, txs@),
{
    let mut s = state.clone();
    let mut applied: u64 = 0;
    let mut i: usize = 0;
    while i < txs.len()
        invariant
            i <= txs.len(),
            s@ == apply_txs(state@, txs@.take(i as int)),
            applied == count_applied(state@, txs@.take(i as int)),
            applied <= i,
            forall|j: int|
                0 <= j < i ==> tx_fits(#[trigger] apply_txs(state@, txs@.take(j)), txs@[j]),
        decreases txs.len() - i,
    {
        let tx = txs[i];
        proof {
            assert(txs@.take(i + 1).drop_last() =~= txs@.take(i as int));
        }
        let from_bal = s.get_balance(tx.from);
        if from_bal >= tx.amount && tx.amount > 0 && tx.from != tx.to {
            let to_bal = s.get_balance(tx.to);
            if to_bal > u64::MAX - tx.amount {
                assert(!tx_fits(apply_txs(state@, txs@.take(i as int)), txs@[i as int]));
                return false;
            }
            s.set_balance(tx.from, from_bal - tx.amount);
            s.set_balance(tx.to, to_bal + tx.amount);
            applied += 1;
        }
        i += 1;
    }
    assert(txs@.take(i as int) =~= txs@);
    applied <= u32::MAX as u64
}

/// Apply a block of transactions to the state.
///
/// Skips any transaction whose sender has insufficient balance, that moves
/// nothing, or that pays its own sender. Returns the number of applied
/// transactions.
pub fn apply_block(state: &mut State, txs: &[Tx]) -> (r: u32)
    requires
        block_fits(old(state)@, txs@),
    ensures
        final(state)@ == apply_txs(old(state)@, txs@),
        r == count_applied(old(state)@, txs@),
{
    let ghost m = state@;
    let mut applied: u32 = 0;
    let mut i: usize = 0;
    while i < txs.len()
        invariant
            i <= txs.len(),
            block_fits(m, txs@),
            state@ == apply_txs(m, txs@.take(i as int)),
            applied == count_applied(m, txs@.take(i as int)),
        decreases txs.len() - i,
    {
        let tx = txs[i];
        proof {
            assert(txs@.take(i + 1).drop_last() =~= txs@.take(i as int));
            assert(tx_fits(apply_txs(m, txs@.take(i as int)), txs@[i as int]));
            lemma_count_grows(m, txs@, i + 1);
        }
        let from_bal = state.get_balance(tx.from);
        if from_bal >= tx.amount && tx.amount > 0 && tx.from != tx.to {
            let ghost before = state@;
            state.set_balance(tx.from, from_bal - tx.amount);
            let to_bal = state.get_balance(tx.to);
            assert(to_bal == balance_of(before, tx.to));
            state.set_balance(tx.to, to_bal + tx.amount);
            applied += 1;
        }
        i += 1;
    }
    assert(txs@.take(i as int) =~= txs@);
    applied
}

/// A longer block applies at least as many transactions.
proof fn lemma_count_grows(m: Map<u32, u64>, txs: Seq<Tx>, i: int)
    requires
        0 <= i <= txs.len(),
    ensures
        count_applied(m, txs.take(i)) <= count_applied(m, txs),
    decreases txs.len(),
{
    if i == txs.len() {
        assert(txs.take(i) =~= txs);
    } else {
        lemma_count_grows(m, txs.drop_last(), i);
        assert(txs.drop_last().take(i) =~= txs.take(i));
    }
}

/// The bytes that stand for a list of transactions.
pub fn encode_txs(txs: &[Tx]) -> (r: Vec<u8>)
    ensures
        r@ == txs_bytes(txs@),
{
    let mut out: Vec<u8> = Vec::new();
    let mut i: usize = 0;
    while i < txs.len()
        invariant
            i <= txs.len(),
            out@ == txs_bytes(txs@.take(i as int)),
        decreases txs.len() - i,
    {
        let ghost before = out@;
        push_le32(&mut out, txs[i].from);
        push_le32(&mut out, txs[i].to);
        push_le64(&mut out, txs[i].amount);
        proof {
            assert(txs@.take(i + 1).drop_last() =~= txs@.take(i as int));
            assert(out@ =~= before + tx_bytes(txs@[i as int]));
        }
        i += 1;
    }
    assert(txs@.take(i as int) =~= txs@);
    out
}

/// SHA-256 hash of a transaction list.
pub fn hash_transactions(txs: &[Tx]) -> (r: [u8; 32])
    ensures
        r@ == sha256_of(txs_bytes(txs@)),
{
    let bytes = encode_txs(txs);
    sha256(&bytes)
}

/// The root that stands for a ledger state in a [`BlockCommit`].
pub fn compute_state_root(state: &State) -> (r: [u8; 32])
    ensures
        r@ == sha256_of(state_bytes(state@)),
{
    state.hash()
}

/// Public values committed by the proof of a block.
///
/// Validators check these against their expected state root and the hash of
/// the proposed transaction list.
#[derive(Clone, Copy, Debug, PartialEq, Eq)]
pub struct BlockCommit {
    pub pre_state_root: [u8; 32],
    pub post_state_root: [u8; 32],
    pub tx_hash: [u8; 32],
}

/// What executing a block yields: the state after it, how many transactions
/// were applied, and the commitment to both.
pub struct Execution {
    pub state: State,
    pub applied: u32,
    pub commit: BlockCommit,
}

/// `c` commits to running `txs` on the ledger `m`.
pub open spec fn commits_to(c: BlockCommit, m: Map<u32, u64>, txs: Seq<Tx>) -> bool {
    &&& c.pre_state_root@ == sha256_of(state_bytes(m))
    &&& c.post_state_root@ == sha256_of(state_bytes(apply_txs(m, txs)))
    &&& c.tx_hash@ == sha256_of(txs_bytes(txs))
}

/// Executes a block on `state` and commits to it: the function whose runs are
/// proven, and which re-executing nodes run themselves.
pub fn execute_block(state: State, txs: &[Tx]) -> (r: Execution)
    requires
        block_fits(state@, txs@),
    ensures
        r.state@ == apply_txs(state@, txs@),
        r.applied == count_applied(state@, txs@),
        commits_to(r.commit, state@, txs@),
{
    let pre_state_root = compute_state_root(&state);
    let tx_hash = hash_transactions(txs);
    let mut new_state = state;
    let applied = apply_block(&mut new_state, txs);
    let post_state_root = compute_state_root(&new_state);
    Execution {
        state: new_state,
        applied,
        commit: BlockCommit { pre_state_root, post_state_root, tx_hash },
    }
}

// ---- Laws ----

/// Any account can be the first to be counted.
proof fn lemma_supply_remove(m: Map<u32, u64>, k: u32)
    requires
        m.dom().finite(),
        m.contains_key(k),
    ensures
        total_supply(m) == m[k] + total_supply(m.remove(k)),
    decreases m.dom().len(),
{
    let c = m.dom().choose();
    assert(m.dom().contains(k));
    assert(m.dom().len() > 0) by {
        if m.dom().len() == 0 {
            assert(m.dom() =~= Set::empty());
        }
    }
    assert(m.dom().contains(c));
    if c != k {
        assert(m.remove(c).dom() =~= m.dom().remove(c));
        assert(m.remove(k).dom() =~= m.dom().remove(k));
        lemma_supply_remove(m.remove(c), k);
        lemma_supply_remove(m.remove(k), c);
        assert(m.remove(c).remove(k) =~= m.remove(k).remove(c));
    }
}

/// Setting a balance changes the supply by the difference.
proof fn lemma_supply_insert(m: Map<u32, u64>, k: u32, v: u64)
    requires
        m.dom().finite(),
    ensures
        m.insert(k, v).dom().finite(),
        total_supply(m.insert(k, v)) + balance_of(m, k) == total_supply(m) + v,
{
    let n = m.insert(k, v);
    assert(n.dom() =~= m.dom().insert(k));
    lemma_supply_remove(n, k);
    if m.contains_key(k) {
        lemma_supply_remove(m, k);
        assert(n.remove(k) =~= m.remove(k));
    } else {
        assert(n.remove(k) =~= m);
    }
}

/// Two different accounts together hold no more than there is.
proof fn lemma_supply_bounds(m: Map<u32, u64>, a: u32, b: u32)
    requires
        m.dom().finite(),
        a != b,
    ensures
        balance_of(m, a) + balance_of(m, b) <= total_supply(m),
{
    if m.contains_key(a) {
        lemma_supply_remove(m, a);
        if m.contains_key(b) {
            lemma_supply_remove(m.remove(a), b);
        }
    } else if m.contains_key(b) {
        lemma_supply_remove(m, b);
    }
}

/// Conservation: no block creates or destroys money.
pub proof fn law_supply_conserved(m: Map<u32, u64>, txs: Seq<Tx>)
    requires
        m.dom().finite(),
        block_fits(m, txs),
    ensures
        apply_txs(m, txs).dom().finite(),
        total_supply(apply_txs(m, txs)) == total_supply(m),
    decreases txs.len(),
{
    if txs.len() > 0 {
        let front = txs.drop_last();
        let tx = txs.last();
        let n = apply_txs(m, front);
        assert forall|i: int| 0 <= i < front.len() implies tx_fits(
            #[trigger] apply_txs(m, front.take(i)),
            front[i],
        ) by {
            assert(front.take(i) =~= txs.take(i));
            assert(tx_fits(apply_txs(m, txs.take(i)), txs[i]));
        }
        law_supply_conserved(m, front);
        assert(txs.take(txs.len() - 1) =~= front);
        assert(tx_fits(apply_txs(m, txs.take(txs.len() - 1)), txs[txs.len() - 1]));
        if tx_applies(n, tx) {
            let v = (balance_of(n, tx.from) - tx.amount) as u64;
            lemma_supply_insert(n, tx.from, v);
            lemma_supply_insert(n.insert(tx.from, v), tx.to, (balance_of(n, tx.to) + tx.amount) as u64);
        }
    }
}

/// A ledger whose whole supply fits 64 bits never overflows a balance, however
/// many transactions, up to the largest 32-bit count, a block holds.
pub proof fn law_bounded_supply_fits(m: Map<u32, u64>, txs: Seq<Tx>)
    requires
        m.dom().finite(),
        total_supply(m) <= u64::MAX,
        txs.len() <= u32::MAX,
    ensures
        block_fits(m, txs),
    decreases txs.len(),
{
    lemma_count_bounded(m, txs);
    if txs.len() > 0 {
        let front = txs.drop_last();
        law_bounded_supply_fits(m, front);
        law_supply_conserved(m, front);
        assert forall|i: int| 0 <= i < txs.len() implies tx_fits(
            #[trigger] apply_txs(m, txs.take(i)),
            txs[i],
        ) by {
            if i < front.len() {
                assert(front.take(i) =~= txs.take(i));
                assert(tx_fits(apply_txs(m, front.take(i)), front[i]));
            } else {
                assert(txs.take(i) =~= front);
                let n = apply_txs(m, front);
                if tx_applies(n, txs[i]) {
                    lemma_supply_bounds(n, txs[i].from, txs[i].to);
                }
            }
        }
    }
}

/// A block applies at most as many transactions as it holds.
proof fn lemma_count_bounded(m: Map<u32, u64>, txs: Seq<Tx>)
    ensures
        count_applied(m, txs) <= txs.len(),
    decreases txs.len(),
{
    if txs.len() > 0 {
        lemma_count_bounded(m, txs.drop_last());
    }
}

/// Two blocks one after the other do what their concatenation does.
pub proof fn law_blocks_compose(m: Map<u32, u64>, a: Seq<Tx>, b: Seq<Tx>)
    ensures
        apply_txs(m, a + b) == apply_txs(apply_txs(m, a), b),
        count_applied(m, a + b) == count_applied(m, a) + count_applied(apply_txs(m, a), b),
    decreases b.len(),
{
    if b.len() == 0 {
        assert(a + b =~= a);
    } else {
        assert((a + b).drop_last() =~= a + b.drop_last());
        law_blocks_compose(m, a, b.drop_last());
    }
}

/// A block leaves every account alone that no transaction of it names: the
/// account keeps its balance, and its entry in the ledger or the lack of one.
pub proof fn law_bystanders_untouched(m: Map<u32, u64>, txs: Seq<Tx>, account: u32)
    requires
        forall|i: int|
            0 <= i < txs.len() ==> (#[trigger] txs[i]).from != account && txs[i].to != account,
    ensures
        balance_of(apply_txs(m, txs), account) == balance_of(m, account),
        apply_txs(m, txs).contains_key(account) == m.contains_key(account),
        m.contains_key(account) ==> apply_txs(m, txs)[account] == m[account],
    decreases txs.len(),
{
    if txs.len() > 0 {
        let front = txs.drop_last();
        assert forall|i: int| 0 <= i < front.len() implies (#[trigger] front[i]).from != account
            && front[i].to != account by {
            assert(front[i] == txs[i]);
        }
        law_bystanders_untouched(m, front, account);
        assert(txs[txs.len() - 1] == txs.last());
    }
}

/// The bytes of a transaction list determine the list: two lists that hash the
/// same bytes are equal.
pub proof fn law_txs_bytes_injective(a: Seq<Tx>, b: Seq<Tx>)
    requires
        txs_bytes(a) == txs_bytes(b),
    ensures
        a == b,
    decreases a.len(),
{
    lemma_txs_bytes_len(a);
    lemma_txs_bytes_len(b);
    if a.len() == 0 {
        assert(a =~= b);
    } else {
        let x = a.last();
        let y = b.last();
        let p = txs_bytes(a.drop_last());
        let q = txs_bytes(b.drop_last());
        lemma_txs_bytes_len(a.drop_last());
        lemma_txs_bytes_len(b.drop_last());
        lemma_tx_bytes(x);
        lemma_tx_bytes(y);
        let s = txs_bytes(a);
        let n = p.len() as int;
        assert(s.take(n) =~= p);
        assert(s.take(n) =~= q);
        assert(s.skip(n) =~= tx_bytes(x));
        assert(s.skip(n) =~= tx_bytes(y));
        assert(x == y);
        law_txs_bytes_injective(a.drop_last(), b.drop_last());
        assert(a =~= a.drop_last().push(x));
        assert(b =~= b.drop_last().push(y));
    }
}

/// A transaction can be read back from its sixteen bytes.
proof fn lemma_tx_bytes(tx: Tx)
    ensures
        tx_bytes(tx).len() == 16,
        le_value(tx_bytes(tx).subrange(0, 4)) == tx.from,
        le_value(tx_bytes(tx).subrange(4, 8)) == tx.to,
        le_value(tx_bytes(tx).subrange(8, 16)) == tx.amount,
{
    lemma_le32(tx.from);
    lemma_le32(tx.to);
    lemma_le64(tx.amount);
    assert(tx_bytes(tx).subrange(0, 4) =~= le32(tx.from));
    assert(tx_bytes(tx).subrange(4, 8) =~= le32(tx.to));
    assert(tx_bytes(tx).subrange(8, 16) =~= le64(tx.amount));
}

proof fn lemma_txs_bytes_len(a: Seq<Tx>)
    ensures
        txs_bytes(a).len() == 16 * a.len(),
    decreases a.len(),
{
    if a.len() > 0 {
        lemma_txs_bytes_len(a.drop_last());
        lemma_tx_bytes(a.last());
    }
}

/// The bytes of a ledger state determine the state: two states that hash the
/// same bytes are equal.
pub proof fn law_state_bytes_injective(a: Map<u32, u64>, b: Map<u32, u64>)
    requires
        a.dom().finite(),
        b.dom().finite(),
        state_bytes(a) == state_bytes(b),
    ensures
        a == b,
{
    lemma_entries_exist(a);
    lemma_entries_exist(b);
    lemma_encode_injective(sorted_entries(a), sorted_entries(b));
    let s = sorted_entries(a);
    assert forall|k: u32| a.contains_key(k) <==> b.contains_key(k) by {
        if a.contains_key(k) {
            assert(s.contains((k, a[k])));
        }
        if b.contains_key(k) {
            assert(s.contains((k, b[k])));
        }
    }
    assert forall|k: u32| #[trigger] a.contains_key(k) implies a[k] == b[k] by {
        assert(s.contains((k, a[k])));
    }
    assert(a =~= b);
}

/// Every finite ledger has a list of its entries.
proof fn lemma_entries_exist(m: Map<u32, u64>)
    requires
        m.dom().finite(),
    ensures
        lists_entries(sorted_entries(m), m),
    decreases m.dom().len(),
{
    if m.dom().len() == 0 {
        assert(m.dom() =~= Set::empty());
        assert(lists_entries(Seq::empty(), m));
    } else {
        let k = lemma_largest(m.dom());
        let rest = m.remove(k);
        assert(rest.dom() =~= m.dom().remove(k));
        lemma_entries_exist(rest);
        let s = sorted_entries(rest).push((k, m[k]));
        assert forall|i: int, j: int| 0 <= i < j < s.len() implies s[i].0 < s[j].0 by {
            assert(rest.contains_key(sorted_entries(rest)[i].0));
        }
        assert forall|i: int| 0 <= i < s.len() implies m.contains_key((#[trigger] s[i]).0)
            && m[s[i].0] == s[i].1 by {
            if i < s.len() - 1 {
                assert(rest.contains_key(sorted_entries(rest)[i].0));
            }
        }
        assert forall|j: u32| #[trigger] m.contains_key(j) implies s.contains((j, m[j])) by {
            if j == k {
                assert(s[s.len() - 1] == (j, m[j]));
            } else {
                assert(rest.contains_key(j));
                let r = sorted_entries(rest);
                assert(r.contains((j, rest[j])));
                let i = choose|i: int| 0 <= i < r.len() && r[i] == (j, rest[j]);
                assert(s[i] == (j, m[j]));
            }
        }
        assert(lists_entries(s, m));
    }
}

/// A finite set of accounts that is not empty has a largest one.
proof fn lemma_largest(s: Set<u32>) -> (k: u32)
    requires
        s.finite(),
        s.len() > 0,
    ensures
        s.contains(k),
        forall|j: u32| #[trigger] s.contains(j) ==> j <= k,
    decreases s.len(),
{
    let c = s.choose();
    if s.len() == 1 {
        assert forall|j: u32| #[trigger] s.contains(j) implies j <= c by {
            if j != c {
                assert(s.remove(c).contains(j));
                assert(s.remove(c).len() == 0);
            }
        }
        c
    } else {
        let k = lemma_largest(s.remove(c));
        assert(s.remove(c).contains(k));
        let r = if k < c { c } else { k };
        assert forall|j: u32| #[trigger] s.contains(j) implies j <= r by {
            if j != c {
                assert(s.remove(c).contains(j));
            }
        }
        r
    }
}

proof fn lemma_entry_bytes(e: (u32, u64))
    ensures
        (le32(e.0) + le64(e.1)).len() == 12,
        le_value((le32(e.0) + le64(e.1)).subrange(0, 4)) == e.0,
        le_value((le32(e.0) + le64(e.1)).subrange(4, 12)) == e.1,
{
    lemma_le32(e.0);
    lemma_le64(e.1);
    assert((le32(e.0) + le64(e.1)).subrange(0, 4) =~= le32(e.0));
    assert((le32(e.0) + le64(e.1)).subrange(4, 12) =~= le64(e.1));
}

proof fn lemma_encode_len(a: Seq<(u32, u64)>)
    ensures
        encode_entries(a).len() == 12 * a.len(),
    decreases a.len(),
{
    if a.len() > 0 {
        lemma_encode_len(a.drop_last());
        lemma_entry_bytes(a.last());
    }
}

proof fn lemma_encode_injective(a: Seq<(u32, u64)>, b: Seq<(u32, u64)>)
    requires
        encode_entries(a) == encode_entries(b),
    ensures
        a == b,
    decreases a.len(),
{
    lemma_encode_len(a);
    lemma_encode_len(b);
    if a.len() == 0 {
        assert(a =~= b);
    } else {
        let x = a.last();
        let y = b.last();
        let p = encode_entries(a.drop_last());
        let q = encode_entries(b.drop_last());
        lemma_encode_len(a.drop_last());
        lemma_encode_len(b.drop_last());
        lemma_entry_bytes(x);
        lemma_entry_bytes(y);
        let s = encode_entries(a);
        let n = p.len() as int;
        assert(s.take(n) =~= p);
        assert(s.take(n) =~= q);
        assert(s.skip(n) =~= le32(x.0) + le64(x.1));
        assert(s.skip(n) =~= le32(y.0) + le64(y.1));
        assert(x == y);
        lemma_encode_injective(a.drop_last(), b.drop_last());
        assert(a =~= a.drop_last().push(x));
        assert(b =~= b.drop_last().push(y));
    }
}


/// An account holds what its entry says, and nothing where it has no entry.
/// Setting a balance sets that of the account, and of no other.
pub proof fn law_balances_are_entries(m: Map<u32, u64>, account: u32, amount: u64, other: u32)
    ensures
        m.contains_key(account) ==> balance_of(m, account) == m[account],
        !m.contains_key(account) ==> balance_of(m, account) == 0,
        balance_of(m.insert(account, amount), account) == amount,
        other != account ==> balance_of(m.insert(account, amount), other) == balance_of(m, other),
{
}

/// A transfer is made whenever it can be: where something is to be paid to
/// somebody else, and the sender has it, a block of this transfer alone applies
/// one transaction, takes the amount from the sender and gives it to the
/// receiver, whoever they are. Any other transfer applies nothing, and leaves
/// the ledger as it is.
pub proof fn law_transfer(m: Map<u32, u64>, tx: Tx)
    ensures
        ({
            let pays: int = if m.contains_key(tx.from) {
                m[tx.from] as int
            } else {
                0
            };
            let gets: int = if m.contains_key(tx.to) {
                m[tx.to] as int
            } else {
                0
            };
            let made = tx.amount > 0 && tx.from != tx.to && pays >= tx.amount;
            let after = apply_txs(m, seq![tx]);
            &&& made && gets + tx.amount <= u64::MAX ==> {
                &&& count_applied(m, seq![tx]) == 1
                &&& after.contains_key(tx.from)
                &&& after[tx.from] == pays - tx.amount
                &&& after.contains_key(tx.to)
                &&& after[tx.to] == gets + tx.amount
                &&& forall|a: u32|
                    a != tx.from && a != tx.to ==> {
                        &&& #[trigger] after.contains_key(a) == m.contains_key(a)
                        &&& m.contains_key(a) ==> after[a] == m[a]
                    }
            }
            &&& !made ==> after == m && count_applied(m, seq![tx]) == 0
        }),
{
    assert(seq![tx].drop_last() =~= Seq::<Tx>::empty());
    assert(seq![tx].last() == tx);
    reveal_with_fuel(apply_txs, 2);
    reveal_with_fuel(count_applied, 2);
}

/// A block is applied transaction by transaction: the last one to the ledger
/// that the others have left. An empty block does nothing.
pub proof fn law_block_goes_in_order(m: Map<u32, u64>, txs: Seq<Tx>, tx: Tx)
    ensures
        apply_txs(m, Seq::empty()) == m,
        count_applied(m, Seq::empty()) == 0,
        apply_txs(m, txs.push(tx)) == apply_txs(apply_txs(m, txs), seq![tx]),
        count_applied(m, txs.push(tx)) == count_applied(m, txs) + count_applied(
            apply_txs(m, txs),
            seq![tx],
        ),
{
    assert(txs.push(tx) =~= txs + seq![tx]);
    law_blocks_compose(m, txs, seq![tx]);
}

/// A transfer fits a ledger unless it is made and carries the receiver's balance
/// over the largest 64-bit number.
pub proof fn law_transfer_fits(m: Map<u32, u64>, tx: Tx)
    ensures
        ({
            let pays: int = if m.contains_key(tx.from) {
                m[tx.from] as int
            } else {
                0
            };
            let gets: int = if m.contains_key(tx.to) {
                m[tx.to] as int
            } else {
                0
            };
            let made = tx.amount > 0 && tx.from != tx.to && pays >= tx.amount;
            block_fits(m, seq![tx]) <==> !made || gets + tx.amount <= u64::MAX
        }),
{
    let s = seq![tx];
    law_transfer(m, tx);
    lemma_count_bounded(m, s);
    assert(s.take(0) =~= Seq::<Tx>::empty());
    if block_fits(m, s) {
        assert(tx_fits(apply_txs(m, s.take(0)), s[0]));
    }
    assert forall|i: int| 0 <= i < s.len() && tx_fits(m, tx) implies tx_fits(
        #[trigger] apply_txs(m, s.take(i)),
        s[i],
    ) by {
        assert(i == 0);
    }
}

/// A block fits if each transfer fits the ledger that those before it leave, and
/// no more are applied than 32 bits can count.
pub proof fn law_block_fits_in_order(m: Map<u32, u64>, txs: Seq<Tx>, tx: Tx)
    ensures
        block_fits(m, Seq::empty()),
        block_fits(m, txs.push(tx)) <==> block_fits(m, txs) && block_fits(
            apply_txs(m, txs),
            seq![tx],
        ) && count_applied(m, txs.push(tx)) <= u32::MAX,
{
    let all = txs.push(tx);
    let n = apply_txs(m, txs);
    law_block_goes_in_order(m, txs, tx);
    lemma_count_bounded(n, seq![tx]);
    assert(seq![tx].take(0) =~= Seq::<Tx>::empty());
    assert(all.take(txs.len() as int) =~= txs);
    assert forall|i: int| 0 <= i < txs.len() implies #[trigger] txs.take(i) == all.take(i) by {
        assert(txs.take(i) =~= all.take(i));
    }
    if block_fits(m, all) {
        assert forall|i: int| 0 <= i < txs.len() implies tx_fits(
            #[trigger] apply_txs(m, txs.take(i)),
            txs[i],
        ) by {
            assert(tx_fits(apply_txs(m, all.take(i)), all[i]));
        }
        assert(tx_fits(apply_txs(m, all.take(txs.len() as int)), all[txs.len() as int]));
        assert forall|i: int| 0 <= i < 1 implies tx_fits(
            #[trigger] apply_txs(n, seq![tx].take(i)),
            seq![tx][i],
        ) by {
            assert(i == 0);
        }
    }
    if block_fits(m, txs) && block_fits(n, seq![tx]) && count_applied(m, all) <= u32::MAX {
        assert(tx_fits(apply_txs(n, seq![tx].take(0)), seq![tx][0]));
        assert forall|i: int| 0 <= i < all.len() implies tx_fits(
            #[trigger] apply_txs(m, all.take(i)),
            all[i],
        ) by {
            if i < txs.len() {
                assert(tx_fits(apply_txs(m, txs.take(i)), txs[i]));
            }
        }
    }
}

/// The supply is the sum of all balances: nothing in an empty ledger, and one
/// balance more or less as entries are set.
pub proof fn law_supply_is_the_sum(m: Map<u32, u64>, account: u32, amount: u64)
    requires
        m.dom().finite(),
    ensures
        total_supply(Map::empty()) == 0,
        m.insert(account, amount).dom().finite(),
        total_supply(m.insert(account, amount)) == total_supply(m) + amount - (
        if m.contains_key(account) {
            m[account] as int
        } else {
            0
        }),
{
    lemma_supply_insert(m, account, amount);
    assert(Map::<u32, u64>::empty().dom() =~= Set::empty());
}

/// A state is written down account by account, from the lowest to the highest:
/// twelve bytes each, the account and then the balance, with the lowest byte
/// first. `s` lists the accounts so.
pub proof fn law_state_layout(m: Map<u32, u64>, s: Seq<(u32, u64)>, i: int)
    requires
        forall|a: int, b: int| 0 <= a < b < s.len() ==> s[a].0 < s[b].0,
        forall|a: int|
            0 <= a < s.len() ==> m.contains_key((#[trigger] s[a]).0) && m[s[a].0] == s[a].1,
        forall|k: u32| #[trigger] m.contains_key(k) ==> s.contains((k, m[k])),
        0 <= i < s.len(),
    ensures
        state_bytes(m).len() == 12 * s.len(),
        state_bytes(m).subrange(12 * i, 12 * i + 4) == le32(s[i].0),
        state_bytes(m).subrange(12 * i + 4, 12 * i + 12) == le64(s[i].1),
{
    assert(lists_entries(s, m));
    lemma_entries_unique(s, sorted_entries(m), m);
    lemma_entry_at(s, i);
}

proof fn lemma_entry_at(s: Seq<(u32, u64)>, i: int)
    requires
        0 <= i < s.len(),
    ensures
        encode_entries(s).len() == 12 * s.len(),
        encode_entries(s).subrange(12 * i, 12 * i + 4) == le32(s[i].0),
        encode_entries(s).subrange(12 * i + 4, 12 * i + 12) == le64(s[i].1),
    decreases s.len(),
{
    let front = s.drop_last();
    let x = s.last();
    lemma_le32(x.0);
    lemma_le64(x.1);
    if front.len() > 0 {
        lemma_entry_at(front, if i < front.len() { i } else { 0 });
    }
    let a = encode_entries(front);
    let b = encode_entries(s);
    assert(a.len() == 12 * front.len());
    if i < front.len() {
        assert(b.subrange(12 * i, 12 * i + 4) =~= a.subrange(12 * i, 12 * i + 4));
        assert(b.subrange(12 * i + 4, 12 * i + 12) =~= a.subrange(12 * i + 4, 12 * i + 12));
    } else {
        assert(b.subrange(12 * i, 12 * i + 4) =~= le32(x.0));
        assert(b.subrange(12 * i + 4, 12 * i + 12) =~= le64(x.1));
    }
}

/// A transaction list is written down transaction by transaction: sixteen bytes
/// each, the sender, the receiver and the amount, with the lowest byte first.
pub proof fn law_txs_layout(txs: Seq<Tx>, tx: Tx)
    ensures
        txs_bytes(Seq::empty()) == Seq::<u8>::empty(),
        txs_bytes(txs.push(tx)) == txs_bytes(txs) + le32(tx.from) + le32(tx.to) + le64(tx.amount),
{
    assert(txs.push(tx).drop_last() =~= txs);
    assert(txs_bytes(txs.push(tx)) =~= txs_bytes(txs) + le32(tx.from) + le32(tx.to) + le64(
        tx.amount,
    ));
}

/// A block commits to the digest of the state before it, the digest of the state
/// after it, and the digest of its transactions. So the commitments of blocks in
/// a row chain: each starts from the root that the one before ends with.
pub proof fn law_commitments_chain(
    m: Map<u32, u64>,
    a: Seq<Tx>,
    b: Seq<Tx>,
    first: BlockCommit,
    second: BlockCommit,
)
    requires
        commits_to(first, m, a),
        commits_to(second, apply_txs(m, a), b),
    ensures
        first.pre_state_root@ == sha256_of(state_bytes(m)),
        first.post_state_root@ == sha256_of(state_bytes(apply_txs(m, a))),
        first.tx_hash@ == sha256_of(txs_bytes(a)),
        second.pre_state_root@ == first.post_state_root@,
{
}

} // verus!
