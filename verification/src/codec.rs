//! The byte and text formats of other programs: bincode and hexadecimal.

use crate::bytes::{le32, le64, le_value, lemma_le32, lemma_le64};
use crate::ledger::{tx_bytes, txs_bytes, Tx};
use vstd::prelude::*;
use vstd::string::StringSliceAdditionalSpecFns;
use vstd::utf8::is_ascii_chars_encode_utf8;

verus! {

// ---- bincode ----

/// A transaction as the triple of its fields.
pub open spec fn tx_of(t: (u32, u32, u64)) -> Tx {
    Tx { from: t.0, to: t.1, amount: t.2 }
}

/// Each triple as a transaction.
pub open spec fn txs_of(s: Seq<(u32, u32, u64)>) -> Seq<Tx> {
    Seq::new(s.len(), |i: int| tx_of(s[i]))
}

/// How many transactions `bytes` announces in its first eight bytes.
pub open spec fn announced_len(bytes: Seq<u8>) -> nat {
    le_value(bytes.take(8))
}

/// The transaction whose sixteen bytes start at `at`.
pub open spec fn tx_at(bytes: Seq<u8>, at: int) -> Tx {
    Tx {
        from: le_value(bytes.subrange(at, at + 4)) as u32,
        to: le_value(bytes.subrange(at + 4, at + 8)) as u32,
        amount: le_value(bytes.subrange(at + 8, at + 16)) as u64,
    }
}

/// The transaction list that `bytes` holds: a 64-bit count, then that many
/// transactions of sixteen bytes. What follows them is ignored; where there
/// are fewer bytes than announced there is no list.
pub open spec fn read_txs(bytes: Seq<u8>) -> Option<Seq<Tx>> {
    if bytes.len() >= 8 && 8 + 16 * announced_len(bytes) <= bytes.len() {
        Some(Seq::new(announced_len(bytes), |i: int| tx_at(bytes, 8 + 16 * i)))
    } else {
        None
    }
}

/// The bytes that hold a transaction list.
pub open spec fn written_txs(txs: Seq<Tx>) -> Seq<u8> {
    le64(txs.len() as u64) + txs_bytes(txs)
}

/// Calls `bincode::serialize` on a tuple. What is trusted: the default
/// configuration writes integers at their fixed width, least significant byte
/// first, and a fixed-size array without a length, and cannot fail on these.
#[verifier::external_body]
fn bincode_serialize_vote(tag: u32, view: u64, hash: &[u8; 32]) -> (r: Vec<u8>)
    ensures
        r@ == le32(tag) + le64(view) + hash@,
{
    bincode::serialize(&(tag, view, *hash)).expect("vote digest")
}

/// Calls `bincode::serialize` on a vector of tuples. What is trusted: it
/// writes the length as 64 bits and then the fields of each tuple in turn,
/// and cannot fail on these.
#[verifier::external_body]
fn bincode_serialize_triples(triples: &Vec<(u32, u32, u64)>) -> (r: Vec<u8>)
    ensures
        r@ == written_txs(txs_of(triples@)),
{
    bincode::serialize(triples).expect("failed to serialize transactions")
}

/// Calls `bincode::deserialize` for a vector of tuples. What is trusted: it
/// reads what `bincode::serialize` writes, ignores bytes behind it, and fails
/// exactly where the bytes end too early.
#[verifier::external_body]
fn bincode_deserialize_triples(bytes: &[u8]) -> (r: Option<Vec<(u32, u32, u64)>>)
    ensures
        match r {
            Some(v) => read_txs(bytes@) == Some(txs_of(v@)),
            None => read_txs(bytes@) is None,
        },
{
    bincode::deserialize(bytes).ok()
}

/// The bytes of `(tag, view, hash)`, as votes sign them.
pub fn encode_vote(tag: u32, view: u64, hash: &[u8; 32]) -> (r: Vec<u8>)
    ensures
        r@ == le32(tag) + le64(view) + hash@,
{
    bincode_serialize_vote(tag, view, hash)
}

/// The contents of a `transactions.bin` file.
pub fn write_txs(txs: &[Tx]) -> (r: Vec<u8>)
    ensures
        r@ == written_txs(txs@),
{
    let mut triples: Vec<(u32, u32, u64)> = Vec::new();
    let mut i: usize = 0;
    while i < txs.len()
        invariant
            i <= txs.len(),
            triples.len() == i,
            forall|j: int| 0 <= j < i ==> tx_of(#[trigger] triples@[j]) == txs@[j],
        decreases txs.len() - i,
    {
        triples.push((txs[i].from, txs[i].to, txs[i].amount));
        i += 1;
    }
    assert(txs_of(triples@) =~= txs@);
    bincode_serialize_triples(&triples)
}

/// Reads a `transactions.bin` file.
pub fn decode_txs(bytes: &[u8]) -> (r: Option<Vec<Tx>>)
    ensures
        match r {
            Some(txs) => read_txs(bytes@) == Some(txs@),
            None => read_txs(bytes@) is None,
        },
{
    match bincode_deserialize_triples(bytes) {
        None => None,
        Some(triples) => {
            let mut txs: Vec<Tx> = Vec::new();
            let mut i: usize = 0;
            while i < triples.len()
                invariant
                    i <= triples.len(),
                    txs.len() == i,
                    forall|j: int| 0 <= j < i ==> #[trigger] txs@[j] == tx_of(triples@[j]),
                decreases triples.len() - i,
            {
                let t = triples[i];
                txs.push(Tx { from: t.0, to: t.1, amount: t.2 });
                i += 1;
            }
            assert(txs@ =~= txs_of(triples@));
            Some(txs)
        },
    }
}

/// Where the bytes of the `i`th transaction stand.
proof fn lemma_txs_bytes_at(txs: Seq<Tx>, i: int)
    requires
        0 <= i < txs.len(),
    ensures
        txs_bytes(txs).len() == 16 * txs.len(),
        txs_bytes(txs).subrange(16 * i, 16 * i + 16) == tx_bytes(txs[i]),
    decreases txs.len(),
{
    let front = txs.drop_last();
    let x = txs.last();
    lemma_le32(x.from);
    lemma_le32(x.to);
    lemma_le64(x.amount);
    if front.len() > 0 {
        lemma_txs_bytes_at(front, if i < front.len() { i } else { 0 });
    } else {
        assert(txs_bytes(front) == Seq::<u8>::empty());
    }
    if i < front.len() {
        assert(txs_bytes(txs).subrange(16 * i, 16 * i + 16) =~= txs_bytes(front).subrange(
            16 * i,
            16 * i + 16,
        ));
    } else {
        assert(txs_bytes(txs).subrange(16 * i, 16 * i + 16) =~= tx_bytes(x));
    }
}

/// Reading a transaction file gives back what was written, whatever follows it.
pub proof fn law_txs_round_trip(txs: Seq<Tx>, tail: Seq<u8>)
    requires
        txs.len() <= u64::MAX,
    ensures
        read_txs(written_txs(txs) + tail) == Some(txs),
{
    let b = written_txs(txs) + tail;
    let head = le64(txs.len() as u64);
    lemma_le64(txs.len() as u64);
    assert(b.take(8) =~= head);
    if txs.len() > 0 {
        lemma_txs_bytes_at(txs, 0);
    } else {
        assert(txs_bytes(txs).len() == 0);
    }
    let got = Seq::new(announced_len(b), |i: int| tx_at(b, 8 + 16 * i));
    assert forall|i: int| 0 <= i < txs.len() implies #[trigger] got[i] == txs[i] by {
        lemma_txs_bytes_at(txs, i);
        let x = txs[i];
        let at = 8 + 16 * i;
        let t = tx_bytes(x);
        lemma_le32(x.from);
        lemma_le32(x.to);
        lemma_le64(x.amount);
        assert(b.subrange(at, at + 16) =~= t);
        assert(b.subrange(at, at + 4) =~= t.subrange(0, 4));
        assert(b.subrange(at + 4, at + 8) =~= t.subrange(4, 8));
        assert(b.subrange(at + 8, at + 16) =~= t.subrange(8, 16));
        assert(t.subrange(0, 4) =~= le32(x.from));
        assert(t.subrange(4, 8) =~= le32(x.to));
        assert(t.subrange(8, 16) =~= le64(x.amount));
    }
    assert(got =~= txs);
}

// ---- hexadecimal ----

/// Why a text is not the hexadecimal form of 32 bytes.
#[derive(Clone, Copy, Debug, PartialEq, Eq, Structural)]
pub enum HexError {
    /// An odd number of digits.
    OddLength,
    /// Not twice as many digits as bytes.
    InvalidStringLength,
    /// The first byte of the text that is no digit, and where it stands.
    InvalidHexCharacter { c: char, index: usize },
}

/// The lower-case digit of `d`.
pub open spec fn hex_digit(d: u8) -> char {
    if d < 10 {
        (0x30 + d) as char
    } else {
        (0x57 + d) as char
    }
}

/// Two lower-case digits for each byte.
pub open spec fn hex_text(data: Seq<u8>) -> Seq<char> {
    Seq::new(
        2 * data.len(),
        |i: int| hex_digit(if i % 2 == 0 { data[i / 2] / 16 } else { data[i / 2] % 16 }),
    )
}

/// Whether `b` is the ASCII code of a hexadecimal digit, of either case.
pub open spec fn is_hex(b: u8) -> bool {
    0x30 <= b <= 0x39 || 0x41 <= b <= 0x46 || 0x61 <= b <= 0x66
}

/// The value of a hexadecimal digit.
pub open spec fn hex_value(b: u8) -> int {
    if b <= 0x39 {
        b - 0x30
    } else if b <= 0x46 {
        b - 0x37
    } else {
        b - 0x57
    }
}

/// What decoding the text with the UTF-8 bytes `b` into 32 bytes gives.
pub open spec fn decodes_hex32(b: Seq<u8>, r: Result<[u8; 32], HexError>) -> bool {
    match r {
        Ok(d) => {
            &&& b.len() == 64
            &&& forall|i: int| 0 <= i < 64 ==> is_hex(#[trigger] b[i])
            &&& forall|k: int|
                0 <= k < 32 ==> #[trigger] d@[k] == 16 * hex_value(b[2 * k]) + hex_value(
                    b[2 * k + 1],
                )
        },
        Err(HexError::OddLength) => b.len() % 2 != 0,
        Err(HexError::InvalidStringLength) => b.len() % 2 == 0 && b.len() != 64,
        Err(HexError::InvalidHexCharacter { c, index }) => {
            &&& b.len() == 64
            &&& index < 64
            &&& !is_hex(b[index as int])
            &&& c as u32 == b[index as int]
            &&& forall|i: int| 0 <= i < index ==> is_hex(#[trigger] b[i])
        },
    }
}

/// Calls `hex::encode`. What is trusted: it writes two lower-case digits for
/// each byte.
#[verifier::external_body]
fn hex_encode(data: &[u8]) -> (r: String)
    ensures
        r@ == hex_text(data@),
{
    hex::encode(data)
}

/// Calls `hex::decode_to_slice` with room for 32 bytes. What is trusted: it
/// checks the length first, then reads digits of either case from the left,
/// and reports the first byte that is none.
#[verifier::external_body]
fn hex_decode_to_slice(s: &str) -> (r: Result<[u8; 32], HexError>)
    ensures
        decodes_hex32(s.spec_bytes(), r),
{
    let mut out = [0u8; 32];
    match hex::decode_to_slice(s, &mut out) {
        Ok(()) => Ok(out),
        Err(hex::FromHexError::OddLength) => Err(HexError::OddLength),
        Err(hex::FromHexError::InvalidStringLength) => Err(HexError::InvalidStringLength),
        Err(hex::FromHexError::InvalidHexCharacter { c, index }) => {
            Err(HexError::InvalidHexCharacter { c, index })
        },
    }
}

/// A digest in lower-case hexadecimal.
pub fn to_hex(data: &[u8; 32]) -> (r: String)
    ensures
        r@ == hex_text(data@),
{
    hex_encode(data.as_slice())
}

/// Reads a digest from hexadecimal.
pub fn from_hex(s: &str) -> (r: Result<[u8; 32], HexError>)
    ensures
        decodes_hex32(s.spec_bytes(), r),
{
    hex_decode_to_slice(s)
}

/// A text decodes in one way only.
pub proof fn law_hex_decoding_unique(
    b: Seq<u8>,
    r: Result<[u8; 32], HexError>,
    q: Result<[u8; 32], HexError>,
)
    requires
        decodes_hex32(b, r),
        decodes_hex32(b, q),
    ensures
        r == q,
{
    match (r, q) {
        (Ok(d), Ok(e)) => {
            assert forall|k: int| 0 <= k < 32 implies d[k] == e[k] by {
                assert(d@[k] == e@[k]);
            }
            assert(d =~= e);
        },
        (Ok(d), Err(_)) => {
            if let Err(HexError::InvalidHexCharacter { c, index }) = q {
                assert(is_hex(b[index as int]));
            }
        },
        (Err(_), Ok(e)) => {
            if let Err(HexError::InvalidHexCharacter { c, index }) = r {
                assert(is_hex(b[index as int]));
            }
        },
        (Err(x), Err(y)) => {
            if let HexError::InvalidHexCharacter { c, index } = x {
                if let HexError::InvalidHexCharacter { c: c2, index: index2 } = y {
                    if index < index2 {
                        assert(is_hex(b[index as int]));
                    }
                    if index2 < index {
                        assert(is_hex(b[index2 as int]));
                    }
                }
            }
        },
    }
}

/// A digest that was written in hexadecimal is read back.
pub proof fn law_hex_round_trip(d: [u8; 32], s: &str)
    requires
        s@ == hex_text(d@),
    ensures
        decodes_hex32(s.spec_bytes(), Ok(d)),
{
    let t = hex_text(d@);
    assert forall|i: int| 0 <= i < t.len() implies (#[trigger] t[i]) as u32 <= 0x66 by {
        assert(d@[i / 2] / 16 < 16 && d@[i / 2] % 16 < 16);
    }
    is_ascii_chars_encode_utf8(s@);
    let b = s.spec_bytes();
    assert(b =~= Seq::new(t.len(), |i: int| t[i] as u8));
    assert forall|i: int| 0 <= i < 64 implies is_hex(#[trigger] b[i]) by {
        assert(d@[i / 2] / 16 < 16 && d@[i / 2] % 16 < 16);
    }
    assert forall|k: int| 0 <= k < 32 implies #[trigger] d@[k] == 16 * hex_value(b[2 * k])
        + hex_value(b[2 * k + 1]) by {
        let x = d@[k];
        assert(x / 16 < 16 && x % 16 < 16);
        assert((2 * k) / 2 == k && (2 * k + 1) / 2 == k);
        assert(hex_value(b[2 * k]) == x / 16);
        assert(hex_value(b[2 * k + 1]) == x % 16);
    }
}

/// Digests are written differently where they differ.
pub proof fn law_hex_text_injective(a: [u8; 32], b: [u8; 32])
    requires
        hex_text(a@) == hex_text(b@),
    ensures
        a == b,
{
    assert forall|k: int| 0 <= k < 32 implies a[k] == b[k] by {
        let t = hex_text(a@);
        let x = a@[k];
        let y = b@[k];
        assert(x / 16 < 16 && x % 16 < 16 && y / 16 < 16 && y % 16 < 16);
        assert((2 * k) / 2 == k && (2 * k + 1) / 2 == k);
        assert(t[2 * k] == hex_digit(x / 16) && t[2 * k] == hex_digit(y / 16));
        assert(t[2 * k + 1] == hex_digit(x % 16) && t[2 * k + 1] == hex_digit(y % 16));
    }
    assert(a =~= b);
}


/// A transaction file is the number of transactions, as a 64-bit number with the
/// lowest byte first, and then the transactions.
pub proof fn law_txs_file_layout(txs: Seq<Tx>)
    requires
        txs.len() <= u64::MAX,
    ensures
        written_txs(txs) == le64(txs.len() as u64) + txs_bytes(txs),
        written_txs(txs).len() == 8 + 16 * txs.len(),
        le_value(written_txs(txs).take(8)) == txs.len(),
{
    lemma_le64(txs.len() as u64);
    assert(written_txs(txs).take(8) =~= le64(txs.len() as u64));
    if txs.len() > 0 {
        lemma_txs_bytes_at(txs, 0);
    }
}

/// A file is a transaction list exactly if it has as many bytes as its first
/// eight announce, sixteen for each transaction; the transaction number `i` is
/// then made of the numbers that stand at its place.
pub proof fn law_txs_file_is_read(bytes: Seq<u8>, i: int)
    ensures
        ({
            let count = le_value(bytes.take(8));
            let at = 8 + 16 * i;
            &&& read_txs(bytes) is Some <==> bytes.len() >= 8 && bytes.len() >= 8 + 16 * count
            &&& read_txs(bytes) matches Some(txs) ==> {
                &&& txs.len() == count
                &&& 0 <= i < count ==> {
                    &&& txs[i].from == le_value(bytes.subrange(at, at + 4)) as u32
                    &&& txs[i].to == le_value(bytes.subrange(at + 4, at + 8)) as u32
                    &&& txs[i].amount == le_value(bytes.subrange(at + 8, at + 16)) as u64
                }
            }
        }),
{
}

/// A digest is written with two digits for each byte, the higher one first: 0 to
/// 9, and then the letters a to f.
pub proof fn law_hex_digits(data: Seq<u8>, k: int)
    requires
        0 <= k < data.len(),
    ensures
        ({
            let high = (data[k] / 16) as int;
            let low = (data[k] % 16) as int;
            &&& hex_text(data).len() == 2 * data.len()
            &&& hex_text(data)[2 * k] as int == if high < 10 {
                0x30 + high
            } else {
                0x61 + (high - 10)
            }
            &&& hex_text(data)[2 * k + 1] as int == if low < 10 {
                0x30 + low
            } else {
                0x61 + (low - 10)
            }
        }),
{
    assert(data[k] / 16 < 16 && data[k] % 16 < 16);
    assert((2 * k) / 2 == k && (2 * k + 1) / 2 == k);
}

/// Digits of either case are read, and both cases of a letter alike; nothing else
/// is a digit.
pub proof fn law_hex_digits_are_read(b: u8)
    ensures
        is_hex(b) <==> (0x30 <= b <= 0x39 || 0x41 <= b <= 0x46 || 0x61 <= b <= 0x66),
        0x30 <= b <= 0x39 ==> hex_value(b) == b - 0x30,
        0x61 <= b <= 0x66 ==> hex_value(b) == b - 0x61 + 10,
        0x41 <= b <= 0x46 ==> hex_value(b) == hex_value((b + 0x20) as u8),
{
}

/// The bytes that are read are those that their digits stand for, in pairs, the
/// higher one first; all digits are read, and there are 64 of them.
pub proof fn law_hex_is_read(b: Seq<u8>, d: [u8; 32], k: int)
    requires
        decodes_hex32(b, Ok(d)),
        0 <= k < 32,
    ensures
        b.len() == 64,
        is_hex(b[2 * k]),
        is_hex(b[2 * k + 1]),
        d@[k] == 16 * hex_value(b[2 * k]) + hex_value(b[2 * k + 1]),
{
    let r: Result<[u8; 32], HexError> = Ok(d);
    match r {
        Ok(e) => {
            assert(e == d);
            assert(e@[k] == 16 * hex_value(b[2 * k]) + hex_value(b[2 * k + 1]));
        },
        Err(_) => {},
    }
}

/// A triple stands for the transfer from its first to its second account, of its
/// third number.
pub proof fn law_triples_are_transfers(s: Seq<(u32, u32, u64)>, i: int)
    requires
        0 <= i < s.len(),
    ensures
        txs_of(s).len() == s.len(),
        txs_of(s)[i].from == s[i].0,
        txs_of(s)[i].to == s[i].1,
        txs_of(s)[i].amount == s[i].2,
{
}

/// A text that is no digest is turned down for its length first, and then for its
/// first byte that is no digit.
pub proof fn law_hex_errors(b: Seq<u8>, r: Result<[u8; 32], HexError>, i: int)
    requires
        decodes_hex32(b, r),
    ensures
        b.len() % 2 == 1 ==> r == Err::<[u8; 32], HexError>(HexError::OddLength),
        b.len() % 2 == 0 && b.len() != 64 ==> r == Err::<[u8; 32], HexError>(
            HexError::InvalidStringLength,
        ),
        b.len() == 64 && 0 <= i < 64 && !is_hex(b[i]) ==> {
            &&& r matches Err(HexError::InvalidHexCharacter { c, index })
            &&& index <= i
            &&& !is_hex(b[index as int])
            &&& c as u32 == b[index as int]
        },
{
}

} // verus!
