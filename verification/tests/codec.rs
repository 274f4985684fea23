use zk_stf::codec::{decode_txs, encode_vote, from_hex, to_hex, write_txs, HexError};
use zk_stf::digest::{same, sha256};
use zk_stf::ledger::Tx;
use zk_stf::text::{block_dir_name, join, push_decimal, split_commas};

#[test]
fn sha256_has_known_values() {
    assert_eq!(
        to_hex(&sha256(b"")),
        "e3b0c44298fc1c149afbf4c8996fb92427ae41e4649b934ca495991b7852b855"
    );
    assert_eq!(
        to_hex(&sha256(b"abc")),
        "ba7816bf8f01cfea414140de5dae2223b00361a396177a9cb410ff61f20015ad"
    );
}

#[test]
fn digests_are_compared_to_the_last_byte() {
    let a = [7u8; 32];
    let mut b = a;
    assert!(same(&a, &b));
    b[31] = 8;
    assert!(!same(&a, &b));
}

#[test]
fn votes_are_encoded_at_fixed_width() {
    let bytes = encode_vote(2, 0x0102, &[9u8; 32]);
    let mut want = vec![2, 0, 0, 0, 2, 1, 0, 0, 0, 0, 0, 0];
    want.extend_from_slice(&[9u8; 32]);
    assert_eq!(bytes, want);
}

#[test]
fn transaction_files_round_trip() {
    let txs = vec![Tx { from: 1, to: 2, amount: 3 }, Tx { from: 4, to: 5, amount: u64::MAX }];
    let bytes = write_txs(&txs);
    assert_eq!(bytes.len(), 8 + 16 * 2);
    assert_eq!(&bytes[..8], &[2, 0, 0, 0, 0, 0, 0, 0]);
    assert_eq!(decode_txs(&bytes), Some(txs));
}

#[test]
fn transaction_files_must_be_long_enough() {
    let bytes = write_txs(&[Tx { from: 1, to: 2, amount: 3 }]);
    assert_eq!(decode_txs(&bytes[..bytes.len() - 1]), None);
    assert_eq!(decode_txs(&bytes[..7]), None);
    assert_eq!(decode_txs(&[255u8; 8]), None);
    assert_eq!(decode_txs(&[]), None);
}

#[test]
fn bytes_behind_the_transactions_are_ignored() {
    let mut bytes = write_txs(&[Tx { from: 1, to: 2, amount: 3 }]);
    bytes.push(77);
    assert_eq!(decode_txs(&bytes), Some(vec![Tx { from: 1, to: 2, amount: 3 }]));
    assert_eq!(decode_txs(&[0u8; 8]), Some(vec![]));
}

#[test]
fn hex_round_trips() {
    let mut d = [0u8; 32];
    for i in 0..32 {
        d[i] = (i * 8 + 7) as u8;
    }
    let text = to_hex(&d);
    assert_eq!(text.len(), 64);
    assert!(text.starts_with("070f171f"));
    assert_eq!(from_hex(&text), Ok(d));
    assert_eq!(from_hex(&text.to_uppercase()), Ok(d));
}

#[test]
fn hex_that_is_not_32_bytes_is_refused() {
    assert_eq!(from_hex("abc"), Err(HexError::OddLength));
    assert_eq!(from_hex(""), Err(HexError::InvalidStringLength));
    assert_eq!(from_hex(&"0".repeat(62)), Err(HexError::InvalidStringLength));
    assert_eq!(from_hex(&"0".repeat(66)), Err(HexError::InvalidStringLength));
    let mut bad = "0".repeat(10);
    bad.push('g');
    bad.push_str(&"x".repeat(53));
    assert_eq!(from_hex(&bad), Err(HexError::InvalidHexCharacter { c: 'g', index: 10 }));
}

#[test]
fn different_digests_are_written_differently() {
    let a = [0x10u8; 32];
    let mut b = a;
    b[5] = 0x01;
    assert_ne!(to_hex(&a), to_hex(&b));
}

#[test]
fn decimals_and_block_directories() {
    let mut s = String::from("n=");
    push_decimal(&mut s, u64::MAX);
    assert_eq!(s, "n=18446744073709551615");
    assert_eq!(block_dir_name(0), "block_0000");
    assert_eq!(block_dir_name(42), "block_0042");
    assert_eq!(block_dir_name(999), "block_0999");
    assert_eq!(block_dir_name(1000), "block_1000");
    assert_eq!(block_dir_name(123456), "block_123456");
    assert_ne!(block_dir_name(12), block_dir_name(120));
}

#[test]
fn paths_are_joined_with_one_slash() {
    assert_eq!(join("a/b", "c"), "a/b/c");
    assert_eq!(join("a/b/", "c"), "a/b/c");
    assert_eq!(join("", "c"), "c");
}

#[test]
fn peer_lists_are_split_at_commas() {
    assert_eq!(split_commas("ariel,caliban,orcus"), vec!["ariel", "caliban", "orcus"]);
    assert_eq!(split_commas(",ariel,,orcus,"), vec!["ariel", "orcus"]);
    assert!(split_commas("").is_empty());
}
