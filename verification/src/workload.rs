//! A recorded workload: one directory with a manifest and one directory for
//! each block.
//!
//! ```text
//! <workload>/
//!   the manifest                  (accounts, initial balance, number of blocks)
//!   ledger-program.elf            (only needed to verify proofs)
//!   block_0000/
//!     transactions.bin
//!     proof.bin
//!     commit.json                 (block number, transaction hash, count)
//!   block_0001/...
//! ```
//!
//! The identifier of a block in consensus, the `cmd` of a node, is the
//! transaction hash of its `commit.json`.

use crate::codec::{decodes_hex32, from_hex, hex_value, is_hex, law_hex_is_read, HexError};
use crate::text::{block_dir, block_dir_name, join, joined, law_joined_path};
use vstd::prelude::*;
use vstd::string::StringSliceAdditionalSpecFns;
use vstd::utf8::encode_utf8;

verus! {

/// The manifest of a workload.
#[derive(Clone, Copy, Debug, PartialEq, Eq, Structural)]
pub struct Manifest {
    pub num_accounts: u32,
    pub initial_balance: u64,
    pub num_blocks: u32,
}

/// The contents of `commit.json`, as far as consensus reads them.
#[derive(Debug)]
pub struct BlockMeta {
    /// Checked at load time against the position of the block, to catch
    /// workload corruption.
    pub block_number: u32,
    pub tx_hash: String,
    pub txs_total: u32,
}

/// A block of the workload.
#[derive(Debug)]
pub struct BlockRef {
    /// The block's content identifier, used as the `cmd` of nodes.
    pub cmd: [u8; 32],
    pub meta: BlockMeta,
    pub txs_path: String,
    pub proof_path: String,
}

/// A workload whose block metadata has been read.
#[derive(Debug)]
pub struct Workload {
    pub dir: String,
    pub manifest: Manifest,
    /// The block at each height.
    pub blocks: Vec<BlockRef>,
}

/// Why a block cannot be used.
#[derive(Clone, Copy, Debug, PartialEq, Eq, Structural)]
pub enum BlockError {
    /// The metadata names another block number than the directory.
    WrongNumber { block_number: u32 },
    /// The transaction hash is not the hexadecimal form of 32 bytes.
    InvalidTxHash { error: HexError },
}

/// What a block is to consensus.
#[verifier::ext_equal]
pub struct Block {
    pub cmd: [u8; 32],
    pub txs_total: u32,
    pub txs_path: Seq<char>,
    pub proof_path: Seq<char>,
}

impl View for BlockRef {
    type V = Block;

    open spec fn view(&self) -> Block {
        Block {
            cmd: self.cmd,
            txs_total: self.meta.txs_total,
            txs_path: self.txs_path@,
            proof_path: self.proof_path@,
        }
    }
}

/// What a workload is to consensus: how many blocks there are to commit, and
/// the block at each height.
#[verifier::ext_equal]
pub struct Work {
    pub num_blocks: u32,
    pub blocks: Seq<Block>,
}

impl View for Workload {
    type V = Work;

    open spec fn view(&self) -> Work {
        Work {
            num_blocks: self.manifest.num_blocks,
            blocks: Seq::new(self.blocks@.len(), |i: int| self.blocks@[i]@),
        }
    }
}

/// The directory of the block at `height` in the workload directory `dir`.
pub open spec fn block_path(dir: Seq<char>, height: u64) -> Seq<char> {
    joined(dir, block_dir(height))
}

/// The program of the workload directory `dir`.
pub open spec fn program_path(dir: Seq<char>) -> Seq<char> {
    joined(dir, "ledger-program.elf"@)
}

/// What reading the metadata `number`, `tx_hash`, `txs_total` for the block at
/// `height` gives.
pub open spec fn reads_block(
    dir: Seq<char>,
    height: u64,
    number: u32,
    tx_hash: Seq<char>,
    txs_total: u32,
    r: Result<Block, BlockError>,
) -> bool {
    if number != height {
        r == Err::<Block, BlockError>(BlockError::WrongNumber { block_number: number })
    } else {
        match r {
            Ok(b) => {
                &&& decodes_hex32(encode_utf8(tx_hash), Ok(b.cmd))
                &&& b.txs_total == txs_total
                &&& b.txs_path == joined(block_path(dir, height), "transactions.bin"@)
                &&& b.proof_path == joined(block_path(dir, height), "proof.bin"@)
            },
            Err(e) => match e {
                BlockError::WrongNumber { .. } => false,
                BlockError::InvalidTxHash { error } => decodes_hex32(
                    encode_utf8(tx_hash),
                    Err(error),
                ),
            },
        }
    }
}

/// Whether the metadata `meta` is right for the block at `height`.
pub open spec fn usable_block(dir: Seq<char>, height: u64, meta: BlockMeta) -> bool {
    exists|b: Block| #[trigger]
        reads_block(dir, height, meta.block_number, meta.tx_hash@, meta.txs_total, Ok(b))
}

/// Checks the metadata of the block at `height` and locates its files.
pub fn block_at(workload_dir: &str, height: u64, meta: BlockMeta) -> (r: Result<
    BlockRef,
    BlockError,
>)
    ensures
        reads_block(
            workload_dir@,
            height,
            meta.block_number,
            meta.tx_hash@,
            meta.txs_total,
            match r {
                Ok(b) => Ok(b@),
                Err(e) => Err(e),
            },
        ),
        r matches Ok(b) ==> b.meta == meta,
{
    if meta.block_number as u64 != height {
        return Err(BlockError::WrongNumber { block_number: meta.block_number });
    }
    let cmd = match from_hex(meta.tx_hash.as_str()) {
        Ok(c) => c,
        Err(e) => return Err(BlockError::InvalidTxHash { error: e }),
    };
    let name = block_dir_name(height);
    let block_dir = join(workload_dir, name.as_str());
    let txs_path = join(block_dir.as_str(), "transactions.bin");
    let proof_path = join(block_dir.as_str(), "proof.bin");
    Ok(BlockRef { cmd, meta, txs_path, proof_path })
}

impl Workload {
    /// A workload from its manifest and the metadata of its blocks, by height.
    /// The first block whose metadata is wrong makes it unusable.
    pub fn load(dir: String, manifest: Manifest, metas: Vec<BlockMeta>) -> (r: Result<
        Self,
        (u64, BlockError),
    >)
        ensures
            match r {
                Ok(w) => {
                    &&& w.dir == dir
                    &&& w.manifest == manifest
                    &&& w.blocks@.len() == metas@.len()
                    &&& forall|i: int|
                        0 <= i < metas@.len() ==> #[trigger] w.blocks@[i].meta == metas@[i]
                            && reads_block(
                            dir@,
                            i as u64,
                            metas@[i].block_number,
                            metas@[i].tx_hash@,
                            metas@[i].txs_total,
                            Ok(w@.blocks[i]),
                        )
                },
                Err((h, e)) => {
                    &&& h < metas@.len()
                    &&& reads_block(
                        dir@,
                        h,
                        metas@[h as int].block_number,
                        metas@[h as int].tx_hash@,
                        metas@[h as int].txs_total,
                        Err(e),
                    )
                    &&& forall|i: int|
                        0 <= i < h ==> usable_block(dir@, i as u64, #[trigger] metas@[i])
                },
            },
    {
        let ghost all = metas@;
        let mut blocks: Vec<BlockRef> = Vec::new();
        let mut h: u64 = 0;
        for meta in it: metas
            invariant
                it.seq() == all,
                h == it.index(),
                blocks.len() == h,
                forall|i: int|
                    0 <= i < h ==> (#[trigger] blocks@[i]).meta == all[i] && reads_block(
                        dir@,
                        i as u64,
                        all[i].block_number,
                        all[i].tx_hash@,
                        all[i].txs_total,
                        Ok(blocks@[i]@),
                    ),
        {
            match block_at(dir.as_str(), h, meta) {
                Ok(b) => blocks.push(b),
                Err(e) => {
                    assert forall|i: int| 0 <= i < h implies usable_block(
                        dir@,
                        i as u64,
                        #[trigger] all[i],
                    ) by {
                        assert(blocks@[i].meta == all[i]);
                    }
                    return Err((h, e));
                },
            }
            h += 1;
        }
        Ok(Workload { dir, manifest, blocks })
    }

    /// The program whose proofs the workload holds.
    pub fn elf_path(&self) -> (r: String)
        ensures
            r@ == joined(self.dir@, "ledger-program.elf"@),
            r@ == program_path(self.dir@),
    {
        join(self.dir.as_str(), "ledger-program.elf")
    }

    /// The block at `height`, where the workload has one.
    pub fn block(&self, height: u64) -> (r: Option<&BlockRef>)
        ensures
            match r {
                Some(b) => height < self@.blocks.len() && b@ == self@.blocks[height as int] && *b
                    == self.blocks@[height as int],
                None => height >= self@.blocks.len(),
            },
    {
        if height < self.blocks.len() as u64 {
            Some(&self.blocks[height as usize])
        } else {
            None
        }
    }
}


// ---- Laws ----

/// A block can be used exactly if its metadata names its height and its
/// transaction hash is 64 hexadecimal digits. Its command is then that hash, and
/// its files stand in the directory of its height.
pub proof fn law_block_metadata(
    dir: Seq<char>,
    height: u64,
    number: u32,
    tx_hash: Seq<char>,
    txs_total: u32,
    r: Result<Block, BlockError>,
    k: int,
)
    requires
        reads_block(dir, height, number, tx_hash, txs_total, r),
        0 <= k < 32,
    ensures
        ({
            let text = encode_utf8(tx_hash);
            let home = joined(dir, block_dir(height));
            &&& number != height ==> r == Err::<Block, BlockError>(
                BlockError::WrongNumber { block_number: number },
            )
            &&& number == height ==> !(r matches Err(BlockError::WrongNumber { .. }))
            &&& number == height && text.len() == 64 && (forall|i: int|
                0 <= i < 64 ==> is_hex(#[trigger] text[i])) ==> r is Ok
            &&& r matches Ok(b) ==> {
                &&& number == height
                &&& text.len() == 64
                &&& forall|i: int| 0 <= i < 64 ==> is_hex(#[trigger] text[i])
                &&& b.cmd@[k] == 16 * hex_value(text[2 * k]) + hex_value(text[2 * k + 1])
                &&& b.txs_total == txs_total
                &&& b.txs_path == joined(home, "transactions.bin"@)
                &&& b.proof_path == joined(home, "proof.bin"@)
            }
        }),
{
    let text = encode_utf8(tx_hash);
    match r {
        Ok(b) => {
            assert(decodes_hex32(text, Ok(b.cmd)));
            law_hex_is_read(text, b.cmd, k);
        },
        Err(BlockError::InvalidTxHash { error }) => {
            assert(number == height);
            assert(decodes_hex32(text, Err(error)));
            if let HexError::InvalidHexCharacter { c, index } = error {
                assert(!is_hex(text[index as int]));
            }
        },
        Err(_) => {},
    }
}

/// The program stands in the workload directory itself, and each block in a
/// directory of its own below it.
pub proof fn law_workload_layout(dir: Seq<char>, height: u64)
    requires
        dir.len() > 0,
        dir.last() != '/',
    ensures
        program_path(dir) == dir.push('/') + "ledger-program.elf"@,
        block_path(dir, height) == dir.push('/') + block_dir(height),
{
    law_joined_path(dir, "ledger-program.elf"@);
    law_joined_path(dir, block_dir(height));
}

} // verus!
