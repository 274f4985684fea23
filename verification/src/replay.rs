//! Checking a saved workload: what a block's execution commits to, against the
//! saved metadata and against the proof; and describing an executed block.

use crate::codec::{hex_text, law_hex_text_injective, to_hex};
use crate::digest::same;
use crate::ledger::{BlockCommit, Execution};
use vstd::prelude::*;

verus! {

/// The contents of a block's `commit.json`, as far as they can be recomputed.
#[derive(Debug)]
pub struct SavedCommit {
    pub block_number: u32,
    pub pre_state_root: String,
    pub post_state_root: String,
    pub tx_hash: String,
    pub txs_applied: u32,
    pub txs_total: u32,
}

/// What differs between a saved block and its execution.
#[derive(Clone, Copy, Debug, PartialEq, Eq, Structural)]
pub enum Mismatch {
    PreStateRoot,
    PostStateRoot,
    TxHash,
}

/// The first of the three that differs.
pub open spec fn first_mismatch(pre: bool, post: bool, tx: bool) -> Option<Mismatch> {
    if !pre {
        Some(Mismatch::PreStateRoot)
    } else if !post {
        Some(Mismatch::PostStateRoot)
    } else if !tx {
        Some(Mismatch::TxHash)
    } else {
        None
    }
}

/// Whether the three digests of `saved` are those of `commit`, in lower-case
/// hexadecimal.
pub open spec fn describes(saved: SavedCommit, commit: BlockCommit) -> bool {
    &&& saved.pre_state_root@ == hex_text(commit.pre_state_root@)
    &&& saved.post_state_root@ == hex_text(commit.post_state_root@)
    &&& saved.tx_hash@ == hex_text(commit.tx_hash@)
}

/// Describes the executed block `block_number`, of `txs_total` transactions.
pub fn describe_block(block_number: u32, execution: &Execution, txs_total: u32) -> (r: SavedCommit)
    ensures
        describes(r, execution.commit),
        r.block_number == block_number,
        r.pre_state_root@ == hex_text(execution.commit.pre_state_root@),
        r.post_state_root@ == hex_text(execution.commit.post_state_root@),
        r.tx_hash@ == hex_text(execution.commit.tx_hash@),
        r.txs_applied == execution.applied,
        r.txs_total == txs_total,
{
    SavedCommit {
        block_number,
        pre_state_root: to_hex(&execution.commit.pre_state_root),
        post_state_root: to_hex(&execution.commit.post_state_root),
        tx_hash: to_hex(&execution.commit.tx_hash),
        txs_applied: execution.applied,
        txs_total,
    }
}

/// Whether `digest` is written as `text`.
fn written_as(digest: &[u8; 32], text: &String) -> (r: bool)
    ensures
        r == (text@ == hex_text(digest@)),
{
    let local = to_hex(digest);
    local == *text
}

/// Compares what the execution of a block commits to with the saved metadata:
/// the state root before it, the state root after it, and the hash of its
/// transactions, in lower-case hexadecimal.
pub fn check_saved(local: &BlockCommit, saved: &SavedCommit) -> (r: Result<(), Mismatch>)
    ensures
        r is Ok <==> describes(*saved, *local),
        r == (match first_mismatch(
            saved.pre_state_root@ == hex_text(local.pre_state_root@),
            saved.post_state_root@ == hex_text(local.post_state_root@),
            saved.tx_hash@ == hex_text(local.tx_hash@),
        ) {
            Some(m) => Err::<(), Mismatch>(m),
            None => Ok(()),
        }),
{
    if !written_as(&local.pre_state_root, &saved.pre_state_root) {
        return Err(Mismatch::PreStateRoot);
    }
    if !written_as(&local.post_state_root, &saved.post_state_root) {
        return Err(Mismatch::PostStateRoot);
    }
    if !written_as(&local.tx_hash, &saved.tx_hash) {
        return Err(Mismatch::TxHash);
    }
    Ok(())
}

/// Compares what the execution of a block commits to with what its proof
/// commits to.
pub fn check_proven(local: &BlockCommit, proven: &BlockCommit) -> (r: Result<(), Mismatch>)
    ensures
        r == (match first_mismatch(
            proven.pre_state_root == local.pre_state_root,
            proven.post_state_root == local.post_state_root,
            proven.tx_hash == local.tx_hash,
        ) {
            Some(m) => Err::<(), Mismatch>(m),
            None => Ok(()),
        }),
        r is Ok <==> *proven == *local,
{
    if !same(&proven.pre_state_root, &local.pre_state_root) {
        return Err(Mismatch::PreStateRoot);
    }
    if !same(&proven.post_state_root, &local.post_state_root) {
        return Err(Mismatch::PostStateRoot);
    }
    if !same(&proven.tx_hash, &local.tx_hash) {
        return Err(Mismatch::TxHash);
    }
    Ok(())
}

/// What to do with a generated block.
#[derive(Clone, Copy, Debug, PartialEq, Eq, Structural)]
pub enum Task {
    /// Execute it, natively and in the virtual machine.
    Execute,
    /// Execute it natively, prove it, and verify the proof.
    Prove,
}

/// The task that two flags ask for.
pub open spec fn task_of(execute: bool, prove: bool) -> Option<Task> {
    match (execute, prove) {
        (true, false) => Some(Task::Execute),
        (false, true) => Some(Task::Prove),
        _ => None,
    }
}

/// The task that two flags ask for. Exactly one of them has to be set.
pub fn chosen_task(execute: bool, prove: bool) -> (r: Option<Task>)
    ensures
        r == task_of(execute, prove),
        r == (if execute && !prove {
            Some(Task::Execute)
        } else if prove && !execute {
            Some(Task::Prove)
        } else {
            None::<Task>
        }),
{
    if execute == prove {
        None
    } else if execute {
        Some(Task::Execute)
    } else {
        Some(Task::Prove)
    }
}

// ---- Laws ----

/// Saved metadata belongs to one execution only: two blocks that both check
/// out against it commit to the same roots and transactions.
pub proof fn law_saved_commit_is_unique(a: BlockCommit, b: BlockCommit, saved: SavedCommit)
    requires
        saved.pre_state_root@ == hex_text(a.pre_state_root@),
        saved.post_state_root@ == hex_text(a.post_state_root@),
        saved.tx_hash@ == hex_text(a.tx_hash@),
        saved.pre_state_root@ == hex_text(b.pre_state_root@),
        saved.post_state_root@ == hex_text(b.post_state_root@),
        saved.tx_hash@ == hex_text(b.tx_hash@),
    ensures
        a == b,
{
    law_hex_text_injective(a.pre_state_root, b.pre_state_root);
    law_hex_text_injective(a.post_state_root, b.post_state_root);
    law_hex_text_injective(a.tx_hash, b.tx_hash);
}


/// The first of the three that differs is reported, and none where all agree.
pub proof fn law_first_mismatch(pre: bool, post: bool, tx: bool)
    ensures
        first_mismatch(pre, post, tx) is None <==> pre && post && tx,
        first_mismatch(pre, post, tx) == Some(Mismatch::PreStateRoot) <==> !pre,
        first_mismatch(pre, post, tx) == Some(Mismatch::PostStateRoot) <==> pre && !post,
        first_mismatch(pre, post, tx) == Some(Mismatch::TxHash) <==> pre && post && !tx,
{
}

/// A task is chosen exactly if one flag is set and the other is not, and it is
/// the one that is set.
pub proof fn law_one_task(execute: bool, prove: bool)
    ensures
        task_of(execute, prove) is Some <==> execute != prove,
        task_of(execute, prove) == Some(Task::Execute) ==> execute,
        task_of(execute, prove) == Some(Task::Prove) ==> prove,
{
}

/// A description tells commitments apart: it describes a commitment exactly if it
/// gives the three digests of it, each in its own place, and so at most one.
pub proof fn law_description_fits_one_commitment(
    saved: SavedCommit,
    a: BlockCommit,
    b: BlockCommit,
)
    ensures
        describes(saved, a) <==> {
            &&& saved.pre_state_root@ == hex_text(a.pre_state_root@)
            &&& saved.post_state_root@ == hex_text(a.post_state_root@)
            &&& saved.tx_hash@ == hex_text(a.tx_hash@)
        },
        describes(saved, a) && describes(saved, b) ==> a == b,
{
    if describes(saved, a) && describes(saved, b) {
        law_saved_commit_is_unique(a, b, saved);
    }
}

} // verus!
