use std::collections::HashMap;
use zk_stf::codec::to_hex;
use zk_stf::consensus::qc::{form_qc, quorum_accepted, verify_qc};
use zk_stf::crypto::{is_public_key, public_key, sign, verify};
use zk_stf::messages::{
    encode_node, genesis_hash, node_hash, sign_vote, verify_vote_sig, vote_digest, MsgType, Node,
    Wire, QC,
};

fn unhex(s: &str) -> Vec<u8> {
    (0..s.len() / 2).map(|i| u8::from_str_radix(&s[2 * i..2 * i + 2], 16).unwrap()).collect()
}

fn seed() -> [u8; 32] {
    let v = unhex("9d61b19deffd5a60ba844af492ec2cc44449c5697b326919703bac031cae7f60");
    let mut a = [0u8; 32];
    a.copy_from_slice(&v);
    a
}

#[test]
fn keys_and_signatures_have_known_values() {
    let pk = public_key(&seed());
    assert_eq!(to_hex(&pk), "d75a980182b10ab7d54bfed3c964073a0ee172f3daa62325af021a68f707511a");
    let sig = sign(&seed(), b"");
    assert_eq!(
        sig,
        unhex("e5564300c360ac729086e2cc806e828a84877f1eb8e5d974d873e06522490155\
               5fb8821590a33bacc61e39701cf9b46bd25bf5f0595bbe24655141438e7a100b")
    );
    assert!(verify(&pk, b"", &sig));
    assert!(!verify(&pk, b"x", &sig));
    assert!(!verify(&pk, b"", &sig[..63]));
}

#[test]
fn not_all_bytes_are_a_public_key() {
    assert!(is_public_key(&public_key(&seed())));
    let mut refused = 0;
    for b in 0..32u8 {
        let mut k = [0u8; 32];
        k[0] = b;
        if !is_public_key(&k) {
            refused += 1;
            assert!(!verify(&k, b"m", &[0u8; 64]));
        }
    }
    assert!(refused > 0);
}

#[test]
fn vote_bytes_tell_phase_view_and_node_apart() {
    let h = [3u8; 32];
    let bytes = vote_digest(MsgType::PreCommit, 7, &h);
    assert_eq!(bytes.len(), 44);
    assert_eq!(&bytes[..12], &[2, 0, 0, 0, 7, 0, 0, 0, 0, 0, 0, 0]);
    assert_ne!(bytes, vote_digest(MsgType::Commit, 7, &h));
    assert_ne!(bytes, vote_digest(MsgType::PreCommit, 8, &h));
    assert_ne!(bytes, vote_digest(MsgType::PreCommit, 7, &[4u8; 32]));
}

#[test]
fn a_vote_signature_is_good_for_one_vote() {
    let pk = public_key(&seed());
    let h = [3u8; 32];
    let sig = sign_vote(&seed(), MsgType::Prepare, 7, &h);
    assert_eq!(sig.len(), 64);
    assert!(verify_vote_sig(&pk, MsgType::Prepare, 7, &h, &sig));
    assert!(!verify_vote_sig(&pk, MsgType::Commit, 7, &h, &sig));
    assert!(!verify_vote_sig(&pk, MsgType::Prepare, 8, &h, &sig));
    assert!(!verify_vote_sig(&pk, MsgType::Prepare, 7, &[4u8; 32], &sig));
    assert!(!verify_vote_sig(&public_key(&[1u8; 32]), MsgType::Prepare, 7, &h, &sig));
    assert!(!verify_vote_sig(&pk, MsgType::Prepare, 7, &h, &sig[1..]));
}

#[test]
fn nodes_are_known_by_their_hash() {
    let n = Node { parent: genesis_hash(), cmd: [7u8; 32], height: 3 };
    assert_eq!(encode_node(&n).len(), 72);
    assert_eq!(
        to_hex(&node_hash(&n)),
        "545462c6ffb3c6ce410ee2899a99a7d6637cbd3465665da05fc49d0700f1d669"
    );
    let m = Node { height: 4, ..n };
    assert_ne!(node_hash(&n), node_hash(&m));
    assert_eq!(genesis_hash(), [0u8; 32]);
}

#[test]
fn phases_have_names_and_numbers() {
    let all = [
        (MsgType::NewView, "new_view", 0),
        (MsgType::Prepare, "prepare", 1),
        (MsgType::PreCommit, "pre_commit", 2),
        (MsgType::Commit, "commit", 3),
        (MsgType::Decide, "decide", 4),
    ];
    for (t, name, tag) in all {
        assert_eq!(t.as_str(), name);
        assert_eq!(t.tag(), tag);
    }
}

fn votes(h: [u8; 32], voters: &[u32]) -> HashMap<u32, ([u8; 32], Vec<u8>)> {
    voters
        .iter()
        .map(|v| (*v, (h, sign_vote(&[*v as u8; 32], MsgType::Prepare, 5, &h))))
        .collect()
}

fn keys(n: u32) -> HashMap<u32, [u8; 32]> {
    (0..n).map(|v| (v, public_key(&[v as u8; 32]))).collect()
}

#[test]
fn a_quorum_of_votes_forms_a_certificate() {
    let h = [3u8; 32];
    let qc = form_qc(&votes(h, &[0, 1, 3]), MsgType::Prepare, 5, 3).unwrap();
    assert_eq!(qc.msg_type, MsgType::Prepare);
    assert_eq!(qc.view, 5);
    assert_eq!(qc.node_hash, h);
    let mut voters: Vec<u32> = qc.sigs.iter().map(|s| s.0).collect();
    voters.sort();
    assert_eq!(voters, vec![0, 1, 3]);
    assert!(verify_qc(&qc, 3, &keys(4)));
}

#[test]
fn votes_for_different_nodes_do_not_add_up() {
    let mut v = votes([3u8; 32], &[0, 1]);
    v.extend(votes([4u8; 32], &[2, 3]));
    assert!(form_qc(&v, MsgType::Prepare, 5, 3).is_none());
    assert!(form_qc(&v, MsgType::Prepare, 5, 2).is_some());
    assert!(form_qc(&HashMap::new(), MsgType::Prepare, 5, 1).is_none());
}

#[test]
fn a_certificate_needs_distinct_known_voters() {
    let h = [3u8; 32];
    let full = form_qc(&votes(h, &[0, 1, 2]), MsgType::Prepare, 5, 3).unwrap();
    assert!(!verify_qc(&full, 4, &keys(4)));
    assert!(!verify_qc(&full, 3, &keys(2)));

    let mut doubled: QC = full.clone();
    doubled.sigs.pop();
    let first = doubled.sigs[0].clone();
    doubled.sigs.push(first);
    assert_eq!(doubled.sigs.len(), 3);
    assert!(!verify_qc(&doubled, 3, &keys(4)));

    let mut renamed: QC = full.clone();
    renamed.view = 6;
    assert!(!verify_qc(&renamed, 1, &keys(4)));

    let mut mixed: QC = full.clone();
    mixed.sigs.push((3, vec![0u8; 64]));
    assert!(verify_qc(&mixed, 3, &keys(4)));
    assert!(!verify_qc(&mixed, 4, &keys(4)));
}

#[test]
fn accepted_signatures_are_counted_by_voter() {
    let qc = QC {
        msg_type: MsgType::Commit,
        view: 1,
        node_hash: [0u8; 32],
        sigs: vec![(0, vec![]), (1, vec![]), (1, vec![]), (2, vec![])],
    };
    assert!(quorum_accepted(&qc, &vec![true, true, true, true], 3));
    assert!(!quorum_accepted(&qc, &vec![true, true, true, false], 3));
    assert!(quorum_accepted(&qc, &vec![false, false, true, false], 1));
    assert!(quorum_accepted(&qc, &vec![false, false, false, false], 0));
}

#[test]
fn two_quorums_of_four_share_two_voters() {
    let n = 4u32;
    let quorum = n - (n - 1) / 3;
    for a in 0..n {
        for b in 0..n {
            let shared = (0..n).filter(|v| *v != a && *v != b).count() as u32;
            assert_eq!(quorum, 3);
            assert!(shared >= (n - 1) / 3 + 1);
        }
    }
}

#[test]
fn messages_are_copied_whole() {
    let qc = form_qc(&votes([3u8; 32], &[0]), MsgType::Prepare, 5, 1).unwrap();
    let m = Wire::NewView { view: 5, justify: Some(qc), sender: 2 };
    assert_eq!(format!("{:?}", m.clone()), format!("{:?}", m));
}
