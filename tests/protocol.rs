use tap_demo::addr::{is_zero_hw_addr, hw_addr_eq, zero_hw_addr, IpAddress, PeerAddr};
use tap_demo::control::ControlAction;
use tap_demo::discovery::{check_pong_reply, data_addr_for, hw_addr_from_reply};
use tap_demo::dispatch::Route;
use tap_demo::error::TapDemoError;
use tap_demo::eth::EthV2;
use tap_demo::msg::{ControlMsg, MsgDiscoveryReply};
use tap_demo::peer::Peer;
use tap_demo::registry::Registry;

fn v4(a: u8, b: u8, c: u8, d: u8, port: u16) -> PeerAddr {
    PeerAddr { ip: IpAddress::V4(u32::from_be_bytes([a, b, c, d])), port }
}

fn peer(name: &str, last: u8, hw: [u8; 6]) -> Peer {
    Peer {
        name: name.to_string(),
        ctl_addr: v4(10, 0, 0, last, 9909),
        data_addr: v4(10, 0, 0, last, 9908),
        hw_addr: hw,
    }
}

fn frame(dst: [u8; 6]) -> Vec<u8> {
    let mut f = dst.to_vec();
    f.extend_from_slice(&[0xaa, 0xbb, 0xcc, 0xdd, 0xee, 0xff]);
    f.extend_from_slice(&[0x08, 0x06]);
    f.extend_from_slice(&[1, 2, 3, 4]);
    f
}

#[test]
fn frame_header_is_read_in_place() {
    let f = frame([1, 2, 3, 4, 5, 6]);
    let eth = EthV2::parse(&f).unwrap();
    assert_eq!(eth.dst_mac, [1, 2, 3, 4, 5, 6]);
    assert_eq!(eth.src_mac, [0xaa, 0xbb, 0xcc, 0xdd, 0xee, 0xff]);
    assert_eq!(eth.proto_type, 0x0806);
    assert_eq!(eth.data, &f[..]);
}

#[test]
fn short_frame_has_no_header() {
    let f = vec![0u8; 13];
    assert!(EthV2::parse(&f).is_none());
    let g = vec![0u8; 14];
    assert!(EthV2::parse(&g).is_some());
}

#[test]
fn broadcast_skips_self_and_reaches_every_other_peer() {
    let local = [9u8; 6];
    let initial = vec![peer("a", 1, [1; 6]), peer("me", 2, local), peer("b", 3, [3; 6]), peer("c", 4, [0; 6])];
    let reg = Registry::new("me".to_string(), local, initial);
    let f = frame([255; 6]);
    let eth = EthV2::parse(&f).unwrap();
    match reg.route_frame(&eth) {
        Route::Broadcast(targets) => {
            assert_eq!(targets, vec![v4(10, 0, 0, 1, 9908), v4(10, 0, 0, 3, 9908), v4(10, 0, 0, 4, 9908)]);
        }
        other => panic!("expected a broadcast, got {:?}", other),
    }
}

#[test]
fn unicast_goes_to_matching_peer() {
    let reg = Registry::new("me".to_string(), [9; 6], vec![peer("a", 1, [1; 6]), peer("b", 2, [2; 6])]);
    let f = frame([2; 6]);
    let eth = EthV2::parse(&f).unwrap();
    match reg.route_frame(&eth) {
        Route::Unicast(to) => assert_eq!(to, v4(10, 0, 0, 2, 9908)),
        other => panic!("expected a unicast, got {:?}", other),
    }
}

#[test]
fn unicast_miss_sends_nothing() {
    let reg = Registry::new("me".to_string(), [9; 6], vec![peer("a", 1, [1; 6]), peer("b", 2, [2; 6])]);
    let f = frame([7; 6]);
    let eth = EthV2::parse(&f).unwrap();
    assert!(matches!(reg.route_frame(&eth), Route::Unknown));
}

#[test]
fn control_answers_identity_requests() {
    let mut reg = Registry::new("node-a".to_string(), [1, 2, 3, 4, 5, 6], Vec::new());
    match reg.handle_request(ControlMsg::DiscoveryRequest) {
        ControlAction::Reply(ControlMsg::DiscoveryReply(d)) => {
            assert_eq!(d.name, "node-a");
            assert_eq!(d.hw_addr, [1, 2, 3, 4, 5, 6]);
        }
        other => panic!("unexpected {:?}", other),
    }
    match reg.handle_request(ControlMsg::HwAddrRequest) {
        ControlAction::Reply(ControlMsg::HwAddrReply(h)) => assert_eq!(h, [1, 2, 3, 4, 5, 6]),
        other => panic!("unexpected {:?}", other),
    }
    assert!(matches!(reg.handle_request(ControlMsg::Ping), ControlAction::Reply(ControlMsg::Pong)));
    assert!(matches!(reg.handle_request(ControlMsg::Pong), ControlAction::Ignore));
    assert!(matches!(reg.handle_request(ControlMsg::AddPeerReply(true)), ControlAction::Ignore));
    assert!(matches!(reg.handle_request(ControlMsg::ScanNodeRequest), ControlAction::ScanThenReply));
    assert_eq!(reg.len(), 0);
}

#[test]
fn control_adds_lists_and_removes_peers() {
    let mut reg = Registry::new("node-a".to_string(), [1; 6], Vec::new());
    let action = reg.handle_request(ControlMsg::AddPeerRequest(peer("b", 2, [2; 6])));
    assert!(matches!(action, ControlAction::Reply(ControlMsg::AddPeerReply(true))));
    match reg.handle_request(ControlMsg::ListPeerRequest) {
        ControlAction::Reply(ControlMsg::ListPeerReply(l)) => {
            assert_eq!(l.len(), 1);
            assert_eq!(l[0].name, "b");
        }
        other => panic!("unexpected {:?}", other),
    }
    let action = reg.handle_request(ControlMsg::RemovePeerRequest { name: Some("b".to_string()), addr: None });
    assert!(matches!(action, ControlAction::Reply(ControlMsg::RemovePeerReply(true))));
    assert_eq!(reg.len(), 0);
}

#[test]
fn control_resolves_unknown_hw_addr_before_adding() {
    let mut reg = Registry::new("node-a".to_string(), [1; 6], Vec::new());
    let action = reg.handle_request(ControlMsg::AddPeerRequest(peer("b", 2, [0; 6])));
    let pending = match action {
        ControlAction::ResolveThenAdd(p) => p,
        other => panic!("unexpected {:?}", other),
    };
    assert_eq!(reg.len(), 0);
    let failed = reg.finish_add_peer(pending.clone(), Err(TapDemoError::GetHWAddrError));
    assert!(matches!(failed, ControlMsg::AddPeerReply(false)));
    assert_eq!(reg.len(), 0);
    let done = reg.finish_add_peer(pending, Ok([2; 6]));
    assert!(matches!(done, ControlMsg::AddPeerReply(true)));
    let peers = reg.peers();
    assert_eq!(peers.len(), 1);
    assert_eq!(peers[0].hw_addr, [2; 6]);
}

#[test]
fn scan_merges_and_reports_found_peers() {
    let mut reg = Registry::new("node-a".to_string(), [1; 6], vec![peer("b", 2, [2; 6])]);
    let reply = reg.finish_scan(Ok(vec![peer("b-renamed", 2, [8; 6]), peer("c", 3, [3; 6])]));
    match reply {
        ControlMsg::ScanNodeReply(l) => assert_eq!(l.len(), 2),
        other => panic!("unexpected {:?}", other),
    }
    let peers = reg.peers();
    assert_eq!(peers.len(), 2);
    assert_eq!(peers[0].name, "b-renamed");
    assert_eq!(peers[0].hw_addr, [2; 6]);
    let reply = reg.finish_scan(Err(TapDemoError::PeerLost));
    assert!(matches!(reply, ControlMsg::ScanNodeReply(l) if l.is_empty()));
    assert_eq!(reg.len(), 2);
}

#[test]
fn discovery_reply_becomes_peer() {
    let reg = Registry::new("me".to_string(), [1; 6], Vec::new());
    let msg = ControlMsg::DiscoveryReply(MsgDiscoveryReply { name: "other".to_string(), hw_addr: [5; 6] });
    let p = reg.peer_from_discovery_reply(v4(192, 168, 1, 7, 9909), msg).unwrap();
    assert_eq!(p.name, "other");
    assert_eq!(p.ctl_addr, v4(192, 168, 1, 7, 9909));
    assert_eq!(p.data_addr, v4(192, 168, 1, 7, 9908));
    assert_eq!(p.hw_addr, [5; 6]);
}

#[test]
fn own_discovery_reply_is_ignored() {
    let reg = Registry::new("me".to_string(), [1; 6], Vec::new());
    let msg = ControlMsg::DiscoveryReply(MsgDiscoveryReply { name: "me".to_string(), hw_addr: [1; 6] });
    assert!(reg.peer_from_discovery_reply(v4(192, 168, 1, 7, 9909), msg).is_none());
    assert!(reg.peer_from_discovery_reply(v4(192, 168, 1, 7, 9909), ControlMsg::Pong).is_none());
    let msg = ControlMsg::DiscoveryReply(MsgDiscoveryReply { name: "x".to_string(), hw_addr: [1; 6] });
    assert!(reg.peer_from_discovery_reply(v4(192, 168, 1, 7, 0), msg).is_none());
}

#[test]
fn hw_addr_reply_outcomes() {
    assert_eq!(hw_addr_from_reply(Ok(ControlMsg::HwAddrReply([3; 6]))).unwrap(), [3; 6]);
    assert!(matches!(hw_addr_from_reply(Ok(ControlMsg::Pong)), Err(TapDemoError::GetHWAddrError)));
    assert!(matches!(hw_addr_from_reply(Err(TapDemoError::PeerLost)), Err(TapDemoError::PeerLost)));
}

#[test]
fn pong_reply_outcomes() {
    assert!(check_pong_reply(Ok(ControlMsg::Pong)).is_ok());
    assert!(matches!(check_pong_reply(Ok(ControlMsg::Ping)), Err(TapDemoError::PeerLost)));
    assert!(matches!(
        check_pong_reply(Err(TapDemoError::MsgDeserializeError(Box::new(bincode::ErrorKind::SizeLimit)))),
        Err(TapDemoError::MsgDeserializeError(_))
    ));
}

#[test]
fn data_address_is_one_port_below() {
    assert_eq!(data_addr_for(v4(1, 2, 3, 4, 9909)), Some(v4(1, 2, 3, 4, 9908)));
    assert_eq!(data_addr_for(v4(1, 2, 3, 4, 0)), None);
}

#[test]
fn hardware_address_helpers() {
    assert!(is_zero_hw_addr(&zero_hw_addr()));
    assert!(!is_zero_hw_addr(&[0, 0, 0, 0, 0, 1]));
    assert!(hw_addr_eq(&[1, 2, 3, 4, 5, 6], &[1, 2, 3, 4, 5, 6]));
    assert!(!hw_addr_eq(&[1, 2, 3, 4, 5, 6], &[1, 2, 3, 4, 5, 7]));
}

#[test]
fn io_error_converts() {
    let e: TapDemoError = std::io::Error::new(std::io::ErrorKind::Other, "boom").into();
    assert!(matches!(e, TapDemoError::IOError(_)));
}

fn add_via_control(node: &mut Registry, other: &mut Registry, target: Peer) {
    let pending = match node.handle_request(ControlMsg::AddPeerRequest(target)) {
        ControlAction::ResolveThenAdd(p) => p,
        unexpected => panic!("unexpected {:?}", unexpected),
    };
    let answer = match other.handle_request(ControlMsg::HwAddrRequest) {
        ControlAction::Reply(m) => m,
        unexpected => panic!("unexpected {:?}", unexpected),
    };
    let reply = node.finish_add_peer(pending, hw_addr_from_reply(Ok(answer)));
    assert!(matches!(reply, ControlMsg::AddPeerReply(true)));
}

// Two nodes exchange the messages of an administrative add, then a
// broadcast frame from A reaches B unchanged.
#[test]
fn two_nodes_add_each_other_and_broadcast() {
    let hw_a = [0x0a, 0, 0, 0, 0, 1];
    let hw_b = [0x0b, 0, 0, 0, 0, 2];
    let mut a = Registry::new("a".to_string(), hw_a, Vec::new());
    let mut b = Registry::new("b".to_string(), hw_b, Vec::new());
    let addr_a = v4(10, 0, 0, 1, 9909);
    let addr_b = v4(10, 0, 0, 2, 9909);

    let to_b = Peer { name: "b".to_string(), ctl_addr: addr_b, data_addr: v4(10, 0, 0, 2, 9908), hw_addr: [0; 6] };
    let to_a = Peer { name: "a".to_string(), ctl_addr: addr_a, data_addr: v4(10, 0, 0, 1, 9908), hw_addr: [0; 6] };

    add_via_control(&mut a, &mut b, to_b);
    add_via_control(&mut b, &mut a, to_a);

    let peers = a.peers();
    assert_eq!(peers.len(), 1);
    assert_eq!(peers[0].name, "b");
    assert!(!is_zero_hw_addr(&peers[0].hw_addr));
    assert_eq!(peers[0].hw_addr, hw_b);

    let f = frame([255; 6]);
    let eth = EthV2::parse(&f).unwrap();
    match a.route_frame(&eth) {
        Route::Broadcast(targets) => assert_eq!(targets, vec![v4(10, 0, 0, 2, 9908)]),
        other => panic!("unexpected {:?}", other),
    }
    assert_eq!(eth.data, &f[..]);
}
