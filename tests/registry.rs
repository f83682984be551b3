use tap_demo::addr::{IpAddress, PeerAddr};
use tap_demo::peer::Peer;
use tap_demo::registry::Registry;

fn v4(a: u8, b: u8, c: u8, d: u8, port: u16) -> PeerAddr {
    PeerAddr { ip: IpAddress::V4(u32::from_be_bytes([a, b, c, d])), port }
}

fn peer(name: &str, last: u8, port: u16, hw: [u8; 6]) -> Peer {
    Peer {
        name: name.to_string(),
        ctl_addr: v4(10, 0, 0, last, port),
        data_addr: v4(10, 0, 0, last, port - 1),
        hw_addr: hw,
    }
}

#[test]
fn upsert_same_address_twice_keeps_one_entry() {
    let mut reg = Registry::new("local".to_string(), [9; 6], Vec::new());
    reg.add_peer(peer("first", 1, 9909, [1; 6]));
    let mut second = peer("second", 1, 9909, [2; 6]);
    second.data_addr = v4(10, 9, 9, 9, 1);
    reg.add_peer(second);
    let peers = reg.peers();
    assert_eq!(peers.len(), 1);
    assert_eq!(peers[0].name, "second");
    assert_eq!(peers[0].hw_addr, [2; 6]);
    // addresses of the first insertion stay
    assert_eq!(peers[0].data_addr, v4(10, 0, 0, 1, 9908));
}

#[test]
fn upsert_of_one_peer_twice_is_idempotent() {
    let mut reg = Registry::new("local".to_string(), [9; 6], Vec::new());
    reg.add_peer(peer("a", 1, 9909, [1; 6]));
    reg.add_peer(peer("b", 2, 9909, [2; 6]));
    reg.add_peer(peer("a", 1, 9909, [1; 6]));
    let peers = reg.peers();
    assert_eq!(peers.len(), 2);
    assert_eq!(peers[0].name, "a");
    assert_eq!(peers[1].name, "b");
}

#[test]
fn upserts_never_duplicate_control_addresses() {
    let initial = vec![
        peer("a", 1, 9909, [1; 6]),
        peer("b", 2, 9909, [2; 6]),
        peer("a2", 1, 9909, [3; 6]),
        peer("c", 1, 9000, [4; 6]),
    ];
    let mut reg = Registry::new("local".to_string(), [9; 6], initial);
    reg.add_peers(vec![peer("b2", 2, 9909, [5; 6]), peer("d", 4, 9909, [6; 6])]);
    let peers = reg.peers();
    assert_eq!(peers.len(), 4);
    for i in 0..peers.len() {
        for j in 0..peers.len() {
            if i != j {
                assert_ne!(peers[i].ctl_addr, peers[j].ctl_addr);
            }
        }
    }
    assert_eq!(peers[0].name, "a2");
    assert_eq!(peers[1].name, "b2");
    assert_eq!(peers[2].name, "c");
    assert_eq!(peers[3].name, "d");
}

#[test]
fn remove_by_name_removes_all_and_only_that_name() {
    let initial = vec![
        peer("x", 1, 9909, [1; 6]),
        peer("y", 2, 9909, [2; 6]),
        peer("x", 3, 9909, [3; 6]),
    ];
    let mut reg = Registry::new("local".to_string(), [9; 6], initial);
    reg.remove_peer(Some("x".to_string()), None);
    let peers = reg.peers();
    assert_eq!(peers.len(), 1);
    assert_eq!(peers[0].name, "y");
}

#[test]
fn remove_without_filters_removes_nothing() {
    let initial = vec![peer("x", 1, 9909, [1; 6]), peer("y", 2, 9909, [2; 6])];
    let mut reg = Registry::new("local".to_string(), [9; 6], initial);
    reg.remove_peer(None, None);
    assert_eq!(reg.len(), 2);
}

#[test]
fn remove_by_ip_address() {
    let initial = vec![
        peer("x", 1, 9909, [1; 6]),
        peer("y", 2, 9909, [2; 6]),
        peer("z", 1, 7000, [3; 6]),
    ];
    let mut reg = Registry::new("local".to_string(), [9; 6], initial);
    reg.remove_peer(None, Some(IpAddress::V4(u32::from_be_bytes([10, 0, 0, 1]))));
    let peers = reg.peers();
    assert_eq!(peers.len(), 1);
    assert_eq!(peers[0].name, "y");
}

#[test]
fn remove_by_name_or_ip_address() {
    let initial = vec![
        peer("x", 1, 9909, [1; 6]),
        peer("y", 2, 9909, [2; 6]),
        peer("z", 3, 9909, [3; 6]),
    ];
    let mut reg = Registry::new("local".to_string(), [9; 6], initial);
    reg.remove_peer(Some("z".to_string()), Some(IpAddress::V4(u32::from_be_bytes([10, 0, 0, 1]))));
    let peers = reg.peers();
    assert_eq!(peers.len(), 1);
    assert_eq!(peers[0].name, "y");
}

#[test]
fn liveness_round_drops_silent_peer() {
    let initial = vec![peer("quiet", 1, 9909, [1; 6]), peer("talks", 2, 9909, [2; 6])];
    let mut reg = Registry::new("local".to_string(), [9; 6], initial);
    let before = reg.peers();
    assert!(before.iter().any(|p| p.name == "quiet"));
    reg.retain_responsive(&vec![false, true]);
    let after = reg.peers();
    assert_eq!(after.len(), 1);
    assert_eq!(after[0].name, "talks");
    assert!(!after.iter().any(|p| p.name == "quiet"));
}

#[test]
fn resolution_passes_converge() {
    let initial = vec![
        peer("a", 1, 9909, [0; 6]),
        peer("b", 2, 9909, [7; 6]),
        peer("c", 3, 9909, [0; 6]),
    ];
    let mut reg = Registry::new("local".to_string(), [9; 6], initial);
    assert!(!reg.all_resolved());

    let targets = reg.resolution_targets();
    assert_eq!(targets, vec![Some(v4(10, 0, 0, 1, 9909)), None, Some(v4(10, 0, 0, 3, 9909))]);

    // first pass: only "a" answers
    reg.apply_hw_addrs(&vec![Some([1; 6]), None, None]);
    assert!(!reg.all_resolved());
    assert_eq!(reg.resolution_targets(), vec![None, None, Some(v4(10, 0, 0, 3, 9909))]);

    // second pass: "c" answers; an answer for a resolved entry changes nothing
    reg.apply_hw_addrs(&vec![Some([5; 6]), Some([5; 6]), Some([3; 6])]);
    assert!(reg.all_resolved());
    let peers = reg.peers();
    assert_eq!(peers[0].hw_addr, [1; 6]);
    assert_eq!(peers[1].hw_addr, [7; 6]);
    assert_eq!(peers[2].hw_addr, [3; 6]);
}

#[test]
fn discovery_merge_keeps_resolved_hw_addr() {
    let initial = vec![peer("a", 1, 9909, [1; 6]), peer("b", 2, 9909, [0; 6])];
    let mut reg = Registry::new("local".to_string(), [9; 6], initial);
    reg.merge_discovered(peer("a-new", 1, 9909, [8; 6]));
    reg.merge_discovered(peer("b-new", 2, 9909, [2; 6]));
    reg.merge_discovered(peer("c", 3, 9909, [3; 6]));
    let peers = reg.peers();
    assert_eq!(peers.len(), 3);
    assert_eq!(peers[0].name, "a-new");
    assert_eq!(peers[0].hw_addr, [1; 6]);
    assert_eq!(peers[1].name, "b-new");
    assert_eq!(peers[1].hw_addr, [2; 6]);
    assert_eq!(peers[2].name, "c");
}

#[test]
fn registry_keeps_local_identity() {
    let reg = Registry::new("node".to_string(), [4, 5, 6, 7, 8, 9], Vec::new());
    assert_eq!(reg.name(), "node");
    assert_eq!(reg.hw_addr(), [4, 5, 6, 7, 8, 9]);
    assert_eq!(reg.len(), 0);
}
