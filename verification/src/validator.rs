//! Block validation: re-execute the block, or rely on its verified proof.
//!
//! The slow-node delay is part of validation: a slow node that re-executes
//! waits for a time that grows with the block.

use crate::codec::{decode_txs, read_txs};
use crate::digest::same;
use crate::generate::{generate_initial_state, uniform_ledger};
use crate::ledger::{apply_block, apply_txs, block_fits, fits_block, BlockCommit, State, Tx};
use crate::workload::Manifest;
use vstd::prelude::*;

verus! {

/// How fast a node is meant to be.
#[derive(Clone, Copy, Debug, PartialEq, Eq, Structural)]
pub enum Speed {
    Fast,
    Slow,
}

/// How a node validates blocks.
#[derive(Clone, Copy, Debug, PartialEq, Eq, Structural)]
pub enum Mode {
    Reexecute,
    Verify,
}

/// How blocks are validated.
#[derive(Clone, Copy, Debug, PartialEq, Eq, Structural)]
pub enum Validator {
    Reexecute {
        /// Delay for each transaction of a block; zero on fast nodes.
        slow_delay_per_tx_ns: u64,
    },
    Verify,
}

/// The validator of a node: only slow nodes that re-execute are delayed.
pub open spec fn validator_for(mode: Mode, speed: Speed, slow_delay_per_tx_ns: u64) -> Validator {
    match (mode, speed) {
        (Mode::Verify, _) => Validator::Verify,
        (Mode::Reexecute, Speed::Slow) => Validator::Reexecute { slow_delay_per_tx_ns },
        (Mode::Reexecute, Speed::Fast) => Validator::Reexecute { slow_delay_per_tx_ns: 0 },
    }
}

/// The name of the kind of validation in reports.
pub open spec fn kind_name(v: Validator) -> Seq<char> {
    match v {
        Validator::Reexecute { .. } => "reexec"@,
        Validator::Verify => "verify"@,
    }
}

/// The delay of a block of `txs_total` transactions.
pub open spec fn delay_of(v: Validator, txs_total: u32) -> nat {
    match v {
        Validator::Reexecute { slow_delay_per_tx_ns } => (slow_delay_per_tx_ns
            * txs_total) as nat,
        Validator::Verify => 0,
    }
}

/// The ledger that a node starts from, with `accounts` accounts that hold
/// `balance` each.
pub open spec fn first_ledger(mode: Mode, accounts: u32, balance: u64) -> Map<u32, u64> {
    match mode {
        Mode::Reexecute => uniform_ledger(accounts, balance),
        Mode::Verify => Map::empty(),
    }
}

impl Validator {
    /// The validator of a node: only slow nodes that re-execute are delayed.
    pub fn build(mode: Mode, speed: Speed, slow_delay_per_tx_ns: u64) -> (r: Self)
        ensures
            r == validator_for(mode, speed, slow_delay_per_tx_ns),
            r == (match mode {
                Mode::Verify => Validator::Verify,
                Mode::Reexecute => Validator::Reexecute {
                    slow_delay_per_tx_ns: if speed == Speed::Slow {
                        slow_delay_per_tx_ns
                    } else {
                        0
                    },
                },
            }),
    {
        match mode {
            Mode::Verify => Validator::Verify,
            Mode::Reexecute => {
                let slow_delay: u64 = if speed == Speed::Slow {
                    slow_delay_per_tx_ns
                } else {
                    0
                };
                Validator::Reexecute { slow_delay_per_tx_ns: slow_delay }
            },
        }
    }

    /// The name of the kind of validation in reports.
    pub fn kind(&self) -> (r: &'static str)
        ensures
            r@ == kind_name(*self),
            r@ == (match *self {
                Validator::Reexecute { .. } => "reexec"@,
                Validator::Verify => "verify"@,
            }),
    {
        match self {
            Validator::Reexecute { .. } => "reexec",
            Validator::Verify => "verify",
        }
    }
}

/// The ledger that a node starts from. A node that verifies proofs keeps no
/// balances.
pub fn init_state(mode: Mode, manifest: &Manifest) -> (r: State)
    ensures
        r@ == first_ledger(mode, manifest.num_accounts, manifest.initial_balance),
        r@ == (match mode {
            Mode::Reexecute => uniform_ledger(manifest.num_accounts, manifest.initial_balance),
            Mode::Verify => Map::<u32, u64>::empty(),
        }),
{
    match mode {
        Mode::Reexecute => generate_initial_state(manifest.num_accounts, manifest.initial_balance),
        Mode::Verify => State::new(),
    }
}

/// A block to validate.
#[derive(Debug)]
pub struct ValidateRequest {
    /// The node that the block belongs to.
    pub node_hash: [u8; 32],
    /// The height of the node.
    pub height: u64,
    /// The hash of the proposed transactions.
    pub cmd: [u8; 32],
    pub txs_path: String,
    pub proof_path: String,
    pub txs_total: u32,
}

/// What a request asks.
#[verifier::ext_equal]
pub struct Request {
    pub node_hash: [u8; 32],
    pub height: u64,
    pub cmd: [u8; 32],
    pub txs_path: Seq<char>,
    pub proof_path: Seq<char>,
    pub txs_total: u32,
}

impl View for ValidateRequest {
    type V = Request;

    open spec fn view(&self) -> Request {
        Request {
            node_hash: self.node_hash,
            height: self.height,
            cmd: self.cmd,
            txs_path: self.txs_path@,
            proof_path: self.proof_path@,
            txs_total: self.txs_total,
        }
    }
}

/// The outcome of a validation.
#[derive(Debug)]
pub struct ValidateOutcome {
    pub node_hash: [u8; 32],
    pub height: u64,
    pub valid: bool,
    /// Re-execution: the state after the block, for when it is committed.
    pub post_state: Option<State>,
    /// Verification: the state root after the block, from the proof.
    pub post_root: Option<[u8; 32]>,
    /// Verification: the state root before the block, from the proof.
    pub pre_root: Option<[u8; 32]>,
}

/// What an outcome says.
#[verifier::ext_equal]
pub struct Outcome {
    pub node_hash: [u8; 32],
    pub height: u64,
    pub valid: bool,
    pub post_state: Option<Map<u32, u64>>,
    pub post_root: Option<[u8; 32]>,
    pub pre_root: Option<[u8; 32]>,
}

impl View for ValidateOutcome {
    type V = Outcome;

    open spec fn view(&self) -> Outcome {
        Outcome {
            node_hash: self.node_hash,
            height: self.height,
            valid: self.valid,
            post_state: match self.post_state {
                Some(s) => Some(s@),
                None => None,
            },
            post_root: self.post_root,
            pre_root: self.pre_root,
        }
    }
}

/// The outcome for a block that is not valid.
pub open spec fn invalid(req: Request) -> Outcome {
    Outcome {
        node_hash: req.node_hash,
        height: req.height,
        valid: false,
        post_state: None,
        post_root: None,
        pre_root: None,
    }
}

/// The outcome of re-executing a block on the ledger `m`, given the bytes of
/// its transaction file, if it could be read.
pub open spec fn reexecuted(req: Request, m: Map<u32, u64>, file: Option<Seq<u8>>) -> Outcome {
    match transactions(file) {
        Some(txs) => Outcome {
            valid: true,
            post_state: Some(apply_txs(m, txs)),
            ..invalid(req)
        },
        None => invalid(req),
    }
}

/// The outcome of verifying the proof of a block, given what the proof commits
/// to, if it could be read and was accepted. The proof has to be about the
/// proposed transactions.
pub open spec fn verified(req: Request, commit: Option<BlockCommit>) -> Outcome {
    match commit {
        Some(c) => if c.tx_hash == req.cmd {
            Outcome {
                valid: true,
                post_root: Some(c.post_state_root),
                pre_root: Some(c.pre_state_root),
                ..invalid(req)
            }
        } else {
            invalid(req)
        },
        None => invalid(req),
    }
}

/// The transactions of a file, if it could be read and holds any.
pub open spec fn transactions(file: Option<Seq<u8>>) -> Option<Seq<Tx>> {
    match file {
        Some(bytes) => read_txs(bytes),
        None => None,
    }
}

/// The bytes of a file, if it could be read.
pub open spec fn contents(file: Option<Vec<u8>>) -> Option<Seq<u8>> {
    match file {
        Some(b) => Some(b@),
        None => None,
    }
}

/// A finished validation, and how long the node has to wait before it counts.
#[derive(Debug)]
pub struct Validation {
    pub outcome: ValidateOutcome,
    pub delay_ns: u64,
}

/// Why a block could not be validated at all.
#[derive(Clone, Copy, Debug, PartialEq, Eq, Structural)]
pub enum ValidationFault {
    /// A transfer would carry a balance over the largest 64-bit number.
    BalanceOverflow,
    /// The delay of the block is longer than 64 bits of nanoseconds.
    DelayOverflow,
}

fn invalid_outcome(req: &ValidateRequest) -> (r: ValidateOutcome)
    ensures
        r@ == invalid(req@),
{
    ValidateOutcome {
        node_hash: req.node_hash,
        height: req.height,
        valid: false,
        post_state: None,
        post_root: None,
        pre_root: None,
    }
}

/// Validates a block.
///
/// A re-executing validator applies the transactions of `txs_file` to the
/// snapshot; a verifying one takes over what `commit`, the accepted proof,
/// says, if it is about the proposed transactions. Either argument is `None`
/// where the file could not be read or the proof was rejected, and then the
/// block is invalid.
pub fn run_validation(
    req: &ValidateRequest,
    state_snapshot: State,
    v: &Validator,
    txs_file: Option<Vec<u8>>,
    commit: Option<BlockCommit>,
) -> (r: Result<Validation, ValidationFault>)
    ensures
        r matches Ok(done) ==> (done.outcome.valid ==> done.delay_ns == delay_of(
            *v,
            req.txs_total,
        )),
        match *v {
            Validator::Reexecute { slow_delay_per_tx_ns } => {
                let txs = transactions(contents(txs_file));
                let fits = txs is Some ==> block_fits(state_snapshot@, txs->0);
                let delay = slow_delay_per_tx_ns * req.txs_total;
                match r {
                    Ok(done) => {
                        &&& fits
                        &&& done.outcome@ == reexecuted(
                            req@,
                            state_snapshot@,
                            contents(txs_file),
                        )
                        &&& done.delay_ns == (if txs is Some {
                            delay
                        } else {
                            0
                        })
                    },
                    Err(ValidationFault::BalanceOverflow) => !fits,
                    Err(ValidationFault::DelayOverflow) => fits && txs is Some && delay > u64::MAX,
                }
            },
            Validator::Verify => r matches Ok(done) && done.outcome@ == verified(req@, commit)
                && done.delay_ns == 0,
        },
{
    match v {
        Validator::Reexecute { slow_delay_per_tx_ns } => {
            let bytes = match txs_file {
                Some(b) => b,
                None => return Ok(Validation { outcome: invalid_outcome(req), delay_ns: 0 }),
            };
            let txs = match decode_txs(bytes.as_slice()) {
                Some(t) => t,
                None => return Ok(Validation { outcome: invalid_outcome(req), delay_ns: 0 }),
            };
            if !fits_block(&state_snapshot, txs.as_slice()) {
                return Err(ValidationFault::BalanceOverflow);
            }
            let mut s = state_snapshot;
            let _ = apply_block(&mut s, txs.as_slice());
            let delay_ns = match slow_delay_per_tx_ns.checked_mul(req.txs_total as u64) {
                Some(d) => d,
                None => return Err(ValidationFault::DelayOverflow),
            };
            let outcome = ValidateOutcome {
                node_hash: req.node_hash,
                height: req.height,
                valid: true,
                post_state: Some(s),
                post_root: None,
                pre_root: None,
            };
            Ok(Validation { outcome, delay_ns })
        },
        Validator::Verify => match commit {
            None => Ok(Validation { outcome: invalid_outcome(req), delay_ns: 0 }),
            Some(c) => {
                if !same(&c.tx_hash, &req.cmd) {
                    return Ok(Validation { outcome: invalid_outcome(req), delay_ns: 0 });
                }
                let outcome = ValidateOutcome {
                    node_hash: req.node_hash,
                    height: req.height,
                    valid: true,
                    post_state: None,
                    post_root: Some(c.post_state_root),
                    pre_root: Some(c.pre_state_root),
                };
                Ok(Validation { outcome, delay_ns: 0 })
            },
        },
    }
}


// ---- Laws ----

/// A node that verifies proofs is never delayed, and neither is a fast one; a
/// slow node that re-executes is delayed for each transaction of a block.
pub proof fn law_only_slow_reexecution_is_delayed(
    mode: Mode,
    speed: Speed,
    delay_ns: u64,
    txs_total: u32,
)
    ensures
        ({
            let v = validator_for(mode, speed, delay_ns);
            &&& v is Verify <==> mode == Mode::Verify
            &&& delay_of(v, txs_total) == if mode == Mode::Reexecute && speed == Speed::Slow {
                delay_ns * txs_total
            } else {
                0
            }
        }),
{
    assert(0 * txs_total == 0);
}

/// A node that re-executes starts with every account at the initial balance; one
/// that verifies proofs starts with no account.
pub proof fn law_first_ledger(mode: Mode, accounts: u32, balance: u64, account: u32)
    ensures
        ({
            let m = first_ledger(mode, accounts, balance);
            &&& m.contains_key(account) <==> mode == Mode::Reexecute && account < accounts
            &&& m.contains_key(account) ==> m[account] == balance
        }),
{
}

/// Re-executing a block makes it valid if its transactions can be read, and leaves
/// the ledger after them; it says nothing of roots. An outcome is about the node
/// that was asked about.
pub proof fn law_reexecution_applies_the_block(
    req: Request,
    m: Map<u32, u64>,
    file: Option<Seq<u8>>,
)
    ensures
        ({
            let o = reexecuted(req, m, file);
            &&& o.node_hash == req.node_hash
            &&& o.height == req.height
            &&& o.valid <==> file is Some && read_txs(file->0) is Some
            &&& o.valid ==> o.post_state == Some(apply_txs(m, read_txs(file->0)->0))
            &&& !o.valid ==> o.post_state is None
            &&& o.post_root is None
            &&& o.pre_root is None
        }),
{
}

/// Verifying a block makes it valid if its proof was accepted and is about the
/// proposed transactions, and leaves the roots of the proof, the one before and
/// the one after; it says nothing of balances. An outcome is about the node that
/// was asked about.
pub proof fn law_verification_takes_over_the_roots(req: Request, commit: Option<BlockCommit>)
    ensures
        ({
            let o = verified(req, commit);
            &&& o.node_hash == req.node_hash
            &&& o.height == req.height
            &&& o.valid <==> commit is Some && commit->0.tx_hash == req.cmd
            &&& o.valid ==> o.pre_root == Some(commit->0.pre_state_root)
            &&& o.valid ==> o.post_root == Some(commit->0.post_state_root)
            &&& !o.valid ==> o.pre_root is None && o.post_root is None
            &&& o.post_state is None
        }),
{
}

/// What is validated are the bytes of the file, where it could be read.
pub proof fn law_file_is_what_it_holds(bytes: Vec<u8>)
    ensures
        contents(Some(bytes)) == Some(bytes@),
        contents(None) is None,
        transactions(Some(bytes@)) == read_txs(bytes@),
        transactions(None) is None,
{
}

/// The names of the kinds of validation in reports.
pub proof fn law_kinds_are_named(delay_ns: u64)
    ensures
        kind_name(Validator::Verify) == "verify"@,
        kind_name(Validator::Reexecute { slow_delay_per_tx_ns: delay_ns }) == "reexec"@,
{
}

} // verus!
