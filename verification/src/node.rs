//! The rules of a node's main loop: when the workload is done, and how many
//! transactions have been executed.

use crate::workload::{Work, Workload};
use vstd::prelude::*;

verus! {

/// Whether the last of `num_blocks` blocks has been executed.
pub open spec fn all_executed(last_executed_height: i64, num_blocks: u32) -> bool {
    last_executed_height + 1 >= num_blocks
}

/// Whether all blocks of a workload have been executed.
pub fn workload_done(last_executed_height: i64, num_blocks: u32) -> (r: bool)
    ensures
        r == (last_executed_height + 1 >= num_blocks),
        r == all_executed(last_executed_height, num_blocks),
{
    last_executed_height >= num_blocks as i64 - 1
}

/// The number of transactions in the blocks at the heights from `from` up to
/// and including `to`.
pub open spec fn txs_between(work: Work, from: int, to: int) -> nat
    decreases to - from + 1,
{
    if to < from {
        0
    } else {
        txs_between(work, from, to - 1) + work.blocks[to].txs_total as nat
    }
}

/// A count of `total` transactions up to the height `last`, continued up to the
/// height `to`: the new count, and how far it goes.
pub open spec fn counted(work: Work, total: int, last: int, to: int) -> (int, int) {
    (
        total + txs_between(work, last + 1, to),
        if to > last {
            to
        } else {
            last
        },
    )
}

/// Why transactions could not be counted.
#[derive(Clone, Copy, Debug, PartialEq, Eq, Structural)]
pub enum TallyError {
    /// The workload has no block at a height.
    NoBlock { height: u64 },
    /// There are more transactions than 64 bits can count.
    Overflow,
}

/// Counts the executed transactions.
pub struct Tally {
    pub total_txs: u64,
    /// -1 where nothing has been counted yet.
    pub last_counted_height: i64,
}

impl Tally {
    /// Nothing has been counted yet.
    pub fn new() -> (r: Self)
        ensures
            r.total_txs == 0,
            r.last_counted_height == -1,
    {
        Tally { total_txs: 0, last_counted_height: -1 }
    }

    /// Counts the transactions of the blocks up to `last_executed_height` that
    /// have not been counted.
    pub fn count(&mut self, workload: &Workload, last_executed_height: i64) -> (r: Result<
        (),
        TallyError,
    >)
        requires
            old(self).last_counted_height >= -1,
        ensures
            ({
                let from = old(self).last_counted_height + 1;
                let to = last_executed_height as int;
                let work = workload@;
                match r {
                    Ok(_) => {
                        &&& (
                            final(self).total_txs as int,
                            final(self).last_counted_height as int,
                        ) == counted(work, old(self).total_txs as int, from - 1, to)
                        &&& to >= from ==> to < work.blocks.len()
                        &&& final(self).total_txs == old(self).total_txs + txs_between(
                            work,
                            from,
                            to,
                        )
                        &&& final(self).last_counted_height == if to >= from {
                            to
                        } else {
                            from - 1
                        }
                    },
                    Err(TallyError::NoBlock { height }) => {
                        &&& from <= height <= to
                        &&& height == if from >= work.blocks.len() {
                            from
                        } else {
                            work.blocks.len() as int
                        }
                        &&& old(self).total_txs + txs_between(work, from, height - 1) <= u64::MAX
                    },
                    Err(TallyError::Overflow) => exists|h: int|
                        from <= h <= to && h < work.blocks.len() && old(self).total_txs
                            + #[trigger] txs_between(work, from, h) > u64::MAX,
                }
            }),
    {
        let ghost from = self.last_counted_height + 1;
        let ghost work = workload@;
        while self.last_counted_height < last_executed_height
            invariant
                work == workload@,
                from == old(self).last_counted_height + 1,
                from >= 0,
                self.last_counted_height >= from - 1,
                self.last_counted_height >= from ==> self.last_counted_height
                    <= last_executed_height && self.last_counted_height < work.blocks.len(),
                self.total_txs == old(self).total_txs + txs_between(
                    work,
                    from,
                    self.last_counted_height as int,
                ),
            decreases last_executed_height - self.last_counted_height,
        {
            let h = (self.last_counted_height + 1) as u64;
            let block = match workload.block(h) {
                Some(b) => b,
                None => return Err(TallyError::NoBlock { height: h }),
            };
            assert(txs_between(work, from, h as int) == txs_between(work, from, h - 1)
                + work.blocks[h as int].txs_total);
            self.total_txs = match self.total_txs.checked_add(block.meta.txs_total as u64) {
                Some(t) => t,
                None => {
                    assert(old(self).total_txs + txs_between(work, from, h as int) > u64::MAX);
                    return Err(TallyError::Overflow);
                },
            };
            self.last_counted_height = self.last_counted_height + 1;
        }
        Ok(())
    }
}

// ---- Laws ----

/// Counting in two goes counts the same as counting at once.
pub proof fn law_tally_composes(work: Work, from: int, mid: int, to: int)
    requires
        from <= mid + 1,
        mid <= to,
    ensures
        txs_between(work, from, to) == txs_between(work, from, mid) + txs_between(
            work,
            mid + 1,
            to,
        ),
    decreases to - mid,
{
    if mid < to {
        law_tally_composes(work, from, mid, to - 1);
    }
}


/// A workload is done exactly when no block of it is left: then every height of
/// it has been executed, and before that its highest one has not.
pub proof fn law_done_when_all_are_executed(
    last_executed_height: i64,
    num_blocks: u32,
    height: u32,
)
    requires
        last_executed_height >= -1,
    ensures
        all_executed(last_executed_height, num_blocks) && height < num_blocks ==> height
            <= last_executed_height,
        !all_executed(last_executed_height, num_blocks) ==> num_blocks > 0 && num_blocks - 1
            > last_executed_height,
{
}

/// One block counts its own transactions, and no block counts none.
pub proof fn law_tally_of_one_block(work: Work, height: int)
    ensures
        txs_between(work, height, height) == work.blocks[height].txs_total,
        txs_between(work, height, height - 1) == 0,
{
    reveal_with_fuel(txs_between, 2);
}

/// Every block is counted once: counting up to a height again, or up to a lower
/// one, adds nothing, and each further block adds its transactions.
pub proof fn law_every_block_counts_once(work: Work, total: int, last: int, to: int)
    ensures
        to <= last ==> counted(work, total, last, to) == (total, last),
        counted(work, total, last, last + 1) == (
            total + work.blocks[last + 1].txs_total,
            last + 1,
        ),
        to >= last ==> {
            let (t, l) = counted(work, total, last, to);
            &&& l == to
            &&& counted(work, t, l, to + 1) == counted(work, total, last, to + 1)
        },
{
    law_tally_of_one_block(work, last + 1);
    law_tally_of_one_block(work, to + 1);
    if to >= last {
        law_tally_composes(work, last + 1, to, to + 1);
    }
}

} // verus!
