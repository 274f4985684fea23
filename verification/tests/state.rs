use zk_stf::messages::{genesis_hash, node_hash, MsgType, Node, QC};
use zk_stf::state::{extends_from, safe_node, ReplicaState, ViewData};
use zk_stf::table::DigestMap;

fn node(parent: [u8; 32], height: u64) -> Node {
    Node { parent, cmd: [height as u8; 32], height }
}

fn lock(view: u64, node_hash: [u8; 32]) -> Option<QC> {
    Some(QC { msg_type: MsgType::PreCommit, view, node_hash, sigs: vec![] })
}

#[test]
fn quorums_follow_the_number_of_replicas() {
    let sizes = [(1, 0, 1), (2, 0, 2), (3, 0, 3), (4, 1, 3), (7, 2, 5), (10, 3, 7)];
    for (n, f, quorum) in sizes {
        let rs = ReplicaState::new(n, 250);
        assert_eq!((rs.n, rs.f, rs.quorum), (n, f, quorum));
        assert_eq!(rs.view, 0);
        assert_eq!(rs.last_executed_height, -1);
        assert_eq!(rs.timeout_interval_ms, 250);
        assert!(rs.vd(0).is_none());
    }
}

#[test]
fn leaders_rotate() {
    let rs = ReplicaState::new(4, 1000);
    let leaders: Vec<u32> = (0..10).map(|v| rs.leader_for(v)).collect();
    assert_eq!(leaders, vec![0, 0, 1, 2, 3, 0, 1, 2, 3, 0]);
    assert_eq!(rs.leader_for(u64::MAX), 2);
}

#[test]
fn records_of_views_are_created_on_demand() {
    let mut rs = ReplicaState::new(4, 1000);
    rs.vd_mut(5).voted_commit = true;
    assert!(rs.vd(5).unwrap().voted_commit);
    assert!(rs.vd(4).is_none());
    let fresh = ViewData::default();
    assert!(!fresh.seen_decide_qc && fresh.proposal.is_none() && fresh.prepare_votes.is_empty());
}

#[test]
fn nodes_extend_their_ancestors() {
    let a = node(genesis_hash(), 0);
    let b = node(node_hash(&a), 1);
    let c = node(node_hash(&b), 2);
    let fork = node(node_hash(&a), 9);
    let mut tree: DigestMap<Node> = DigestMap::new();
    tree.insert(node_hash(&a), a);
    tree.insert(node_hash(&b), b);
    assert!(extends_from(&c, &node_hash(&c), &tree));
    assert!(extends_from(&c, &node_hash(&b), &tree));
    assert!(extends_from(&c, &node_hash(&a), &tree));
    assert!(extends_from(&c, &genesis_hash(), &tree));
    assert!(!extends_from(&c, &node_hash(&fork), &tree));
    assert!(!extends_from(&fork, &node_hash(&b), &tree));
    tree.remove(&node_hash(&b));
    assert!(!extends_from(&c, &node_hash(&a), &tree));
}

#[test]
fn the_walk_ends_in_a_loop() {
    let mut tree: DigestMap<Node> = DigestMap::new();
    for i in 0..5u8 {
        let parent = [if i == 4 { 2 } else { i + 1 }; 32];
        tree.insert([i + 1; 32], Node { parent: [parent[0] + 1; 32], cmd: [0u8; 32], height: 1 });
    }
    let start = Node { parent: [1u8; 32], cmd: [0u8; 32], height: 1 };
    for met in 1..6u8 {
        assert!(extends_from(&start, &[met; 32], &tree));
    }
    assert!(!extends_from(&start, &[6u8; 32], &tree));
    assert!(!extends_from(&start, &genesis_hash(), &tree));
    let own = Node { parent: [9u8; 32], cmd: [0u8; 32], height: 1 };
    tree.insert([9u8; 32], own);
    assert!(extends_from(&own, &[9u8; 32], &tree));
    assert!(!extends_from(&own, &[1u8; 32], &tree));
}

#[test]
fn the_first_of_many_ancestors_is_found() {
    let mut tree: DigestMap<Node> = DigestMap::new();
    let first = node(genesis_hash(), 0);
    let mut last = first;
    for height in 1..3000u64 {
        tree.insert(node_hash(&last), last);
        last = node(node_hash(&last), height);
    }
    assert!(extends_from(&last, &node_hash(&first), &tree));
    assert!(extends_from(&last, &genesis_hash(), &tree));
    assert!(!extends_from(&last, &[7u8; 32], &tree));
}

#[test]
fn a_node_is_safe_on_the_locked_branch_or_with_a_newer_certificate() {
    let a = node(genesis_hash(), 0);
    let b = node(node_hash(&a), 1);
    let mut tree: DigestMap<Node> = DigestMap::new();
    tree.insert(node_hash(&a), a);
    let on_branch = lock(5, node_hash(&a));
    let elsewhere = lock(5, [9u8; 32]);
    assert!(safe_node(&b, &None, &None, &tree));
    assert!(safe_node(&b, &None, &on_branch, &tree));
    assert!(!safe_node(&b, &None, &elsewhere, &tree));
    assert!(!safe_node(&b, &lock(5, node_hash(&a)), &elsewhere, &tree));
    assert!(safe_node(&b, &lock(6, node_hash(&a)), &elsewhere, &tree));
}

#[test]
fn digest_maps_keep_the_last_value() {
    let mut m: DigestMap<u32> = DigestMap::new();
    assert_eq!(m.len(), 0);
    m.insert([1u8; 32], 10);
    m.insert([2u8; 32], 20);
    m.insert([1u8; 32], 11);
    assert_eq!(m.len(), 2);
    assert_eq!(m.get(&[1u8; 32]), Some(&11));
    assert!(m.contains_key(&[2u8; 32]));
    let mut keys = m.keys();
    keys.sort();
    assert_eq!(keys, vec![[1u8; 32], [2u8; 32]]);
    assert_eq!(m.remove(&[1u8; 32]), Some(11));
    assert_eq!(m.remove(&[1u8; 32]), None);
    assert_eq!(m.get(&[1u8; 32]), None);
    assert_eq!(m.len(), 1);
}
