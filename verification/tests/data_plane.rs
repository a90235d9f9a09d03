//! Peer sessions, the data plane of a connection, and its connection to the server.
use linkmesh::cert::{Crl, DeviceCert, KeyPair, ServerInfo, SignKeyPair};
use linkmesh::client::config::{
    ClientConfig, ConnectionEntry, DeviceIdentity, ServerEntry, VmNicConfig,
};
use linkmesh::client::connection::{
    after_rebuild, auth_wait, next_action, peer_state, reconnect_after, refusal, AuthWait, Conn,
    ConnExit, ConnManager, LinkAction, LinkEvent,
};
use linkmesh::client::control::{disconnect, running_names};
use linkmesh::client::discovery::{plain_result, response_key, response_result, PeerFacts};
use linkmesh::client::outbox::{
    bind_ip_ownership, response_numbers, FreshKeys, Incoming, Resolution,
};
use linkmesh::client::paths::{Forward, PunchStart, PunchStep, UdpAction};
use linkmesh::client::peer::{
    key_greater, xor_salt, Admission, PeerSession, Route, Sealed, Transport, RETRANSMIT_TIMEOUT_MS,
};
use linkmesh::client::tunnel::{
    frame_hello_payload, frame_tunnel_packet, parse_tunnel_packet, split_handshake, TUNNEL_ACK,
    TUNNEL_DATA, TUNNEL_HELLO, TUNNEL_REKEY,
};
use linkmesh::net::{Endpoint, IpAddress};
use linkmesh::protocol::{AuthRespBody, MsgKind, PeerInfo, ResponseBody, ResponseData};
use linkmesh::table::{RawKey, Table};

const LOCAL: RawKey = [9u8; 32];
const PEER: RawKey = [5u8; 32];

fn endpoint(last: u8, port: u16) -> Endpoint {
    Endpoint { ip: IpAddress::V4([192, 0, 2, last]), port, scope: 0 }
}

fn fresh(n: u8) -> FreshKeys {
    FreshKeys { handshake_key: [n; 32], rk_priv: [n + 1; 32], rk_pub: [n + 2; 32], salt: [n; 12] }
}

fn config() -> ClientConfig {
    config_of(LOCAL, "10.13.13.1")
}

fn config_of(public: RawKey, ip: &str) -> ClientConfig {
    let mut cfg = ClientConfig::default();
    cfg.genkey(DeviceIdentity {
        ik_x: KeyPair { public, private: [8u8; 32] },
        ik_s: SignKeyPair { public: "p".into(), private: "q".into() },
        device_id: "d".into(),
        fingerprint: "f".into(),
    })
    .unwrap();
    cfg.servers.push(ServerEntry::new("s".into(), "192.0.2.1:8080".into()));
    cfg.vm_nics.push(VmNicConfig::new("n".into(), ip.into()));
    cfg.connections.push(ConnectionEntry { server: "s".into(), vm_nic: "n".into() });
    cfg
}

fn conn(cfg: &ClientConfig) -> Conn {
    let entry = ConnectionEntry { server: "s".into(), vm_nic: "n".into() };
    match Conn::new(cfg, &entry, &Ok(endpoint(1, 8080)), None, [7u8; 32]) {
        Ok(c) => c,
        Err(e) => panic!("{e}"),
    }
}

/// Sets up a session with the peer, as its HELLO does.
fn establish(c: &mut Conn, now: u64) {
    c.outbox.arrive(&PEER, true, endpoint(2, 1000), &fresh(20), now);
    let hello = frame_tunnel_packet(
        TUNNEL_HELLO,
        0,
        0,
        &frame_hello_payload(&[6u8; 32], &[2u8; 12], b"10.13.13.2"),
    );
    match c.outbox.open_packet(&PEER, &hello, true, now) {
        Incoming::Hello { peer_rk, peer_salt, ip, .. } => {
            assert_eq!(ip, "10.13.13.2");
            let done = c.outbox.complete_hello(&PEER, peer_rk, peer_salt, ip, true, [3u8; 32], now);
            assert!(done.unwrap().bound);
        }
        _ => panic!("a HELLO is a HELLO"),
    }
}

#[test]
fn session_establishment_flow() {
    let mut s =
        PeerSession::new([2u8; 32], String::new(), [4u8; 32], None, [5u8; 32], [6u8; 32], [1u8; 12], 0);
    assert!(!s.established());
    assert_eq!(s.current_key(), &s.handshake_key);
    let (rkp, rkq) = s.ensure_rk([7u8; 32], [8u8; 32]);
    assert_eq!(rkq, [6u8; 32]);
    assert_eq!(rkp, [5u8; 32]);
}

#[test]
fn bind_ip_ownership_rejects_other_peer_steal() {
    let mut idx: Table<String, RawKey> = Table::new();
    let victim = [1u8; 32];
    let attacker = [2u8; 32];
    assert!(bind_ip_ownership(&mut idx, "10.13.13.5", &victim));
    assert_eq!(idx.get(&"10.13.13.5".to_string()), Some(&victim));
    assert!(bind_ip_ownership(&mut idx, "10.13.13.5", &victim));
    assert!(!bind_ip_ownership(&mut idx, "10.13.13.5", &attacker));
    assert_eq!(idx.get(&"10.13.13.5".to_string()), Some(&victim), "受害者 IP 归属不得被覆盖");
    assert!(bind_ip_ownership(&mut idx, "10.13.13.6", &attacker));
    assert_eq!(idx.get(&"10.13.13.6".to_string()), Some(&attacker));
}

#[test]
fn session_response_window_decrypts_out_of_order() {
    let tried = response_numbers(40);
    for send_seq in [10u64, 25, 40] {
        assert!(tried.contains(&send_seq), "窗口内必须能解出");
    }
    assert!(!tried.contains(&1), "窗口外的旧响应必须解不出");
    assert!(!tried.contains(&8));
    assert_eq!((tried.len(), tried[0], tried[31]), (32, 40, 9));
    assert_eq!(response_numbers(2), vec![2, 1, 0]);
    assert_eq!(response_numbers(31).len(), 32);
}

#[test]
fn reliable_retransmit_and_ack_flow() {
    let mut c = conn(&config());
    establish(&mut c, 0);
    let first = match c.outbox.enqueue(&PEER, b"payload-1", 0) {
        Some(Admission::Send(s)) => s,
        _ => panic!("an established session sends"),
    };
    let session = c.outbox.peers.get(&PEER).unwrap();
    assert_eq!(session.send_unacked.len(), 1, "发包后应进入未确认窗口");
    assert!(session.established());
    let (typ, _, seq, payload) = parse_tunnel_packet(&first.plain).unwrap();
    assert_eq!((typ, payload), (TUNNEL_DATA, &b"payload-1"[..]));

    assert!(c.outbox.retransmit(&PEER, RETRANSMIT_TIMEOUT_MS - 1).is_empty());
    let again = c.outbox.retransmit(&PEER, 600);
    assert_eq!(again.len(), 1, "超时后必须重传未确认数据包");
    assert_eq!(again[0].plain, first.plain);
    assert_eq!(again[0].nonce, first.nonce);
    assert_eq!(c.outbox.peers.get(&PEER).unwrap().send_unacked.len(), 1, "未 ACK 前窗口不得清空");

    let ack = frame_tunnel_packet(TUNNEL_ACK, 0, 0, &seq.to_be_bytes());
    assert!(matches!(c.outbox.open_packet(&PEER, &ack, true, 700), Incoming::Acked));
    assert!(c.outbox.peers.get(&PEER).unwrap().send_unacked.is_empty(), "收到 ACK 后窗口必须清空");
}

#[test]
fn data_is_delivered_once_and_acknowledged() {
    let mut c = conn(&config());
    establish(&mut c, 0);
    let epoch = c.outbox.peers.get(&PEER).unwrap().epoch;
    let data = frame_tunnel_packet(TUNNEL_DATA, epoch, 1, b"hello from A");
    match c.outbox.open_packet(&PEER, &data, true, 1) {
        Incoming::Data { packets, ack } => {
            assert_eq!(packets, vec![b"hello from A".to_vec()]);
            let ack = ack.unwrap();
            let (typ, _, _, body) = parse_tunnel_packet(&ack.plain).unwrap();
            assert_eq!((typ, body), (TUNNEL_ACK, &1u64.to_be_bytes()[..]));
        }
        _ => panic!("data is data"),
    }
    match c.outbox.open_packet(&PEER, &data, true, 2) {
        Incoming::Data { packets, .. } => assert!(packets.is_empty()),
        _ => panic!("data is data"),
    }
}

#[test]
fn packets_wait_for_the_handshake() {
    let mut c = conn(&config());
    c.outbox.get_or_create_session(&PEER, "10.13.13.2".into(), None, &fresh(20), 0);
    assert!(matches!(c.outbox.enqueue(&PEER, b"early", 0), Some(Admission::Buffered)));
    assert!(c.outbox.enqueue(&[77u8; 32], b"early", 0).is_none());
    let hello = frame_tunnel_packet(
        TUNNEL_HELLO,
        0,
        0,
        &frame_hello_payload(&[6u8; 32], &[2u8; 12], b"10.13.13.2"),
    );
    c.outbox.arrive(&PEER, true, endpoint(2, 1000), &fresh(40), 1);
    match c.outbox.open_packet(&PEER, &hello, true, 1) {
        Incoming::Hello { peer_rk, peer_salt, ip, salt } => {
            assert_eq!(salt, xor_salt([20u8; 12], [2u8; 12]));
            let done =
                c.outbox.complete_hello(&PEER, peer_rk, peer_salt, ip, true, [3u8; 32], 1).unwrap();
            assert_eq!(done.flush.len(), 1);
            assert_eq!(done.flush[0], b"early".to_vec());
        }
        _ => panic!("a HELLO is a HELLO"),
    }
}

#[test]
fn hole_punch_disabled_stays_relay_even_if_peer_punches() {
    let mut cfg = config();
    cfg.hole_punch.enabled = false;
    let mut c = conn(&cfg);
    establish(&mut c, 0);
    assert!(matches!(c.outbox.route_packet(&PEER, 1), Route::Relay));
    let s = c.outbox.peers.get(&PEER).unwrap();
    assert!(s.transport != Transport::Direct, "传输方式应为中继");
    let shown = peer_state(s, "192.0.2.2:1000".into());
    assert_eq!((shown.ip.as_str(), shown.endpoint.as_str()), ("10.13.13.2", "192.0.2.2:1000"));
    assert!(matches!(c.outbox.punch_start(&PEER), PunchStart::RelayOnly(_)));
}

#[test]
fn a_direct_path_is_used_and_given_up() {
    let mut c = conn(&config());
    establish(&mut c, 0);
    assert!(matches!(c.outbox.route_packet(&PEER, 1), Route::Direct(_)));
    assert!(matches!(c.outbox.punch_start(&[66u8; 32]), PunchStart::Gone));
    assert!(matches!(c.outbox.route_packet(&PEER, 10_000), Route::Relay));
}

#[test]
fn punching_ends_after_its_time() {
    let mut c = conn(&config());
    c.outbox.get_or_create_session(&PEER, "10.13.13.2".into(), Some(endpoint(2, 5)), &fresh(20), 0);
    assert!(matches!(c.outbox.punch_start(&PEER), PunchStart::Begin));
    match c.outbox.punch_step(&PEER, 0) {
        PunchStep::Probe(Some((to, sealed))) => {
            assert_eq!(to.port, 5);
            assert_eq!(parse_tunnel_packet(&sealed.plain).unwrap().0, TUNNEL_HELLO);
        }
        _ => panic!("a probe is due"),
    }
    c.outbox.punch_attempted(&PEER, false);
    assert!(matches!(c.outbox.punch_step(&PEER, 1_000_000), PunchStep::GaveUp));
    assert!(matches!(c.outbox.peers.get(&PEER).unwrap().transport, Transport::Relay));
}

#[test]
fn both_sides_derive_one_salt() {
    let a = [0x0fu8; 12];
    let b = [0x35u8; 12];
    assert_eq!(xor_salt(a, b), [0x3au8; 12]);
    assert_eq!(xor_salt(a, b), xor_salt(b, a));
    assert_eq!(xor_salt(xor_salt(a, b), b), a);
    assert!(key_greater(&[2u8; 32], &[1u8; 32]));
    assert!(!key_greater(&[1u8; 32], &[1u8; 32]));
}

#[test]
fn rotating_a_key_starts_a_new_epoch() {
    let mut cfg = config();
    cfg.rekey_every_secs = 10;
    let mut c = conn(&cfg);
    establish(&mut c, 0);
    assert!(!c.outbox.rekey_due(&PEER, 9_999));
    assert!(c.outbox.rekey_due(&PEER, 10_000));
    let epoch = c.outbox.peers.get(&PEER).unwrap().epoch;
    let old_key = *c.outbox.peers.get(&PEER).unwrap().current_key();
    // This side has the greater key, so it may rotate.
    let asked = c.outbox.rekey_request(&PEER, [0x11u8; 12]).unwrap();
    assert_eq!(asked.peer_rk, [6u8; 32]);
    let sealed = c
        .outbox
        .begin_rekey(&PEER, [31u8; 32], [32u8; 32], [0x11u8; 12], [33u8; 32], 10_000)
        .unwrap();
    assert_eq!(sealed.key, old_key);
    let s = c.outbox.peers.get(&PEER).unwrap();
    assert_eq!(s.epoch, epoch + 1);
    assert_eq!(s.current_key(), &[33u8; 32]);
    assert!(!c.outbox.rekey_due(&PEER, 10_001));
}

#[test]
fn idle_peers_are_dropped() {
    let mut c = conn(&config());
    establish(&mut c, 0);
    assert!(c.outbox.prune_peers(900_000).is_empty());
    assert_eq!(c.outbox.prune_peers(900_001), vec![PEER]);
    assert_eq!(c.outbox.peers.len(), 0);
    assert_eq!(c.outbox.ip_index.len(), 0);
}

#[test]
fn all_peers_are_kept_alive() {
    let mut c = conn(&config());
    assert!(c.outbox.keepalives().is_empty());
    c.outbox.get_or_create_session(&PEER, "10.13.13.2".into(), None, &fresh(20), 0);
    c.outbox.get_or_create_session(&[8; 32], "10.13.13.3".into(), None, &fresh(30), 0);
    let sent = c.outbox.keepalives();
    assert_eq!(sent.iter().map(|k| k.pk).collect::<Vec<_>>(), vec![PEER, [8; 32]]);
    for k in &sent {
        let one = c.outbox.build_hello(&k.pk).unwrap();
        assert_eq!((k.hello.key, &k.hello.plain), (one.key, &one.plain));
        assert_eq!(k.hello.plain[0], 1);
    }
}

#[test]
fn handshakes_are_given_up() {
    let mut cfg = config();
    cfg.hole_punch.timeout_ms = 1000;
    let mut c = conn(&cfg);
    assert_eq!((c.server_pub, c.outbox.server_shared), ([0u8; 32], [0u8; 32]));
    c.outbox.get_or_create_session(&PEER, "10.13.13.2".into(), None, &fresh(20), 0);
    assert!(c.outbox.prune_peers(2000).is_empty());
    assert_eq!(c.outbox.prune_peers(2001), vec![PEER]);
}

#[test]
fn frames_are_told_apart() {
    let mut c = conn(&config());
    establish(&mut c, 0);
    let server = endpoint(1, 8080);
    assert!(matches!(c.outbox.classify_udp(Some(MsgKind::Response), &server), UdpAction::Response));
    assert!(matches!(c.outbox.classify_udp(Some(MsgKind::Relay), &server), UdpAction::Relay));
    assert!(matches!(c.outbox.classify_udp(None, &endpoint(2, 1000)), UdpAction::Direct(PEER)));
    assert!(matches!(c.outbox.classify_udp(None, &endpoint(77, 1)), UdpAction::Ignore));
    assert!(matches!(
        c.outbox.forward(&IpAddress::V4([10, 13, 13, 2]), "10.13.13.2", "255.255.255.0"),
        Forward::Send(PEER)
    ));
    assert!(matches!(
        c.outbox.forward(&IpAddress::V4([10, 13, 13, 77]), "10.13.13.77", "255.255.255.0"),
        Forward::Query
    ));
}

#[test]
fn signaling_is_sealed_by_the_session() {
    let mut c = conn(&config());
    let before = c.outbox.seal_signaling();
    assert_eq!((before.sender, before.seq), (LOCAL, None));
    let resp = AuthRespBody {
        ek_s: String::new(),
        session_id: String::new(),
        crl: Crl { mesh_id: "m".into(), version: 3, entries: vec![], signature: None },
        server_info: ServerInfo {
            mesh_id: "m".into(),
            server_name: "s".into(),
            mesh_root_pub: "r".into(),
            server_ik_x: "x".into(),
            server_ik_s_pub: "y".into(),
            protocol_ver: 1,
            crl_version: 3,
            auth_required: true,
            signature: None,
        },
        allocated_ip: "10.13.13.9".into(),
    };
    c.server.mesh_root_pub = Some("r".into());
    c.accept_auth(&resp, true, &Ok(()), [50u8; 32], [51u8; 32]).unwrap();
    assert_eq!(c.outbox.local_ip, "10.13.13.9");
    assert_eq!(c.server.crl_version, Some(3));
    let one = c.outbox.seal_signaling();
    assert_eq!((one.sender, one.key, one.seq), ([50u8; 32], [51u8; 32], Some(1)));
    assert_eq!(c.outbox.seal_signaling().seq, Some(2));
    assert_eq!(c.register_body().ip, "10.13.13.9");

    let mut older = resp;
    older.server_info.crl_version = 2;
    assert!(c.accept_auth(&older, true, &Ok(()), [50u8; 32], [51u8; 32]).is_err());
    assert_eq!(c.server.crl_version, Some(3));
}

#[test]
fn a_server_with_another_key_is_refused() {
    let mut c = conn(&config());
    assert!(c.check_server(&[1u8; 32], &Ok([1u8; 32]), 5).unwrap_err().contains("尚未保存"));
    c.server.public_key = Some("k".into());
    assert!(c.check_server(&[1u8; 32], &Ok([2u8; 32]), 5).unwrap_err().contains("不一致"));
    assert_eq!(c.state.status, "服务器公钥不一致");
    assert!(c.check_server(&[1u8; 32], &Err("bad".into()), 5).is_err());
    assert!(c.check_server(&[1u8; 32], &Ok([1u8; 32]), 5).unwrap_err().contains("未加入网格"));
    c.server.mesh_root_pub = Some("r".into());
    assert!(c.check_server(&[1u8; 32], &Ok([1u8; 32]), 5).is_err());
    c.server.device_cert = Some(DeviceCert {
        mesh_id: "m".into(),
        serial: 1,
        device_id: "d".into(),
        ik_x: "x".into(),
        ik_s_pub: "y".into(),
        allowed_ip: "10.13.13.9".into(),
        valid_from: 5,
        not_after: 9,
        signature: None,
    });
    assert!(c.check_server(&[1u8; 32], &Ok([1u8; 32]), 5).is_ok());
    assert_eq!(c.server_pub, [1u8; 32]);
    assert!(c.check_server(&[1u8; 32], &Ok([1u8; 32]), 10).unwrap_err().contains("过期"));
}

#[test]
fn sessions_are_asked_for() {
    let mut c = conn(&config());
    assert_eq!(c.auth_body(&[1u8; 32], &[2u8; 12], 7).unwrap_err(), "未加入网格，缺少设备证书");
    c.server.token = Some("tok-1".into());
    c.server.device_cert = Some(DeviceCert {
        mesh_id: "m".into(),
        serial: 1,
        device_id: "d".into(),
        ik_x: "x".into(),
        ik_s_pub: "y".into(),
        allowed_ip: "10.13.13.9".into(),
        valid_from: 5,
        not_after: 9,
        signature: None,
    });
    let b = c.auth_body(&[0u8; 32], &[0u8; 12], 7).unwrap();
    assert_eq!(b.nonce, "AAAAAAAAAAAAAAAA");
    assert_eq!(b.ek_c, "AAAAAAAAAAAAAAAAAAAAAAAAAAAAAAAAAAAAAAAAAAA=");
    assert_eq!((b.device_id.as_str(), b.timestamp), ("d", 7));
    assert_eq!(b.token.as_deref(), Some("tok-1"));
    assert_eq!(refusal(&ResponseBody::err("no")), "no");
    let silent = ResponseBody { ok: false, data: ResponseData::Empty, error: None };
    assert_eq!(refusal(&silent), "认证被拒绝");
}

#[test]
fn both_sides_follow_a_rotation() {
    // `a` rotates and `b`, whose salt `a` knows, follows.
    let mut a = PeerSession::new(PEER, String::new(), [1; 32], None, [2; 32], [3; 32], [10; 12], 0);
    let mut b = PeerSession::new(LOCAL, String::new(), [1; 32], None, [4; 32], [5; 32], [20; 12], 0);
    a.accept_hello([5; 32], [20; 12], "10.13.13.2".into(), [9; 32], "10.13.13.1", 0);
    b.accept_hello([3; 32], [10; 12], "10.13.13.1".into(), [9; 32], "10.13.13.2", 0);
    assert!(a.may_rekey(&LOCAL));
    assert!(!b.may_rekey(&PEER));
    let salt = [30u8; 12];
    assert_eq!(a.rekey_salt(salt), b.handshake_salt(salt));
    let sealed = a.begin_rekey([6; 32], [7; 32], salt, [8; 32], 1);
    assert_eq!(sealed.key, [9; 32]);
    let (typ, epoch, _, payload) = parse_tunnel_packet(&sealed.plain).unwrap();
    assert_eq!((typ, epoch), (TUNNEL_REKEY, 0));
    let (rk, got, _) = split_handshake(payload).unwrap();
    assert!(b.may_accept_rekey(epoch));
    b.accept_rekey(rk, got, [8; 32], 1);
    assert_eq!(a.epoch, b.epoch);
    assert_eq!(a.current_key(), b.current_key());
    assert_eq!(b.peer_rk_pub, Some([7; 32]));
    assert!(!b.may_accept_rekey(0));
}

#[test]
fn lost_servers_are_reported() {
    let mut c = conn(&config());
    c.state.set_status("已连接");
    c.heartbeat_done(false);
    c.heartbeat_done(false);
    assert_eq!(c.state.status, "已连接");
    c.heartbeat_done(false);
    assert_eq!(c.state.status, "服务器失联");
    c.heartbeat_done(true);
    assert_eq!(c.state.status, "已连接");
    assert_eq!(c.failed_heartbeats, 0);
    assert!(auth_wait(false, Some(MsgKind::AuthResp)) == AuthWait::Ignore);
    assert!(auth_wait(true, Some(MsgKind::AuthResp)) == AuthWait::Answer);
    assert!(auth_wait(true, Some(MsgKind::Response)) == AuthWait::Refusal);
}

#[test]
fn auto_reconnect_manager_retries_until_stop() {
    let failed = ConnExit::Error("x".into());
    assert_eq!(reconnect_after(false, 1, &failed), Some(1));
    assert_eq!(reconnect_after(true, 1, &failed), None);
    assert_eq!(reconnect_after(false, 0, &failed), None);
    assert_eq!(reconnect_after(false, 1, &ConnExit::Stopped), None);
    assert_eq!(after_rebuild(false, 1, false), Some(1));
    assert_eq!(after_rebuild(false, 1, true), None);
    assert_eq!(after_rebuild(true, 1, false), None);
    assert_eq!(after_rebuild(false, 0, false), None);
    let ended = || LinkEvent::Ended(ConnExit::Error("x".into()));
    assert_eq!(next_action(false, 3, &ended()), LinkAction::Wait(3));
    assert_eq!(next_action(false, 3, &LinkEvent::Waited), LinkAction::Rebuild);
    assert_eq!(next_action(false, 3, &LinkEvent::Rebuilt(false)), LinkAction::Wait(3));
    assert_eq!(next_action(false, 3, &LinkEvent::Rebuilt(true)), LinkAction::Run);
    assert_eq!(next_action(true, 3, &LinkEvent::Waited), LinkAction::Finish);
    assert_eq!(next_action(false, 0, &ended()), LinkAction::Finish);
    let cfg = config();
    let server = cfg.connections[0].server.clone();
    let mut m = ConnManager::new();
    m.start(&cfg, &server).unwrap();
    for event in [ended(), LinkEvent::Waited, LinkEvent::Rebuilt(false), LinkEvent::Waited] {
        assert!(m.keep_up(&server, false, 1, &event) != LinkAction::Finish);
        assert_eq!(m.start(&cfg, &server).unwrap_err(), format!("连接 {server} 已在运行"));
    }
    m.stop(&server).unwrap();
    assert_eq!(m.running.len(), 0);
    m.start(&cfg, &server).unwrap();
    assert_eq!(m.keep_up(&server, false, 0, &ended()), LinkAction::Finish);
    assert_eq!(m.running.len(), 0);

    let cfg = config();
    let mut m = ConnManager::new();
    assert_eq!(m.start(&cfg, "ghost").unwrap_err(), "连接 ghost 未配置");
    assert_eq!(m.start(&cfg, "s").unwrap().vm_nic, "n");
    assert_eq!(m.start(&cfg, "s").unwrap_err(), "连接 s 已在运行");
    assert_eq!(running_names(&m), vec!["s".to_string()]);
    assert_eq!(disconnect(&mut m, "s").unwrap(), "已断开 s");
    assert_eq!(disconnect(&mut m, "s").unwrap_err(), "连接 s 不存在");
}

#[test]
fn names_are_learned_and_resolved() {
    let mut c = conn(&config());
    assert_eq!(c.outbox.learn_alias("NAS", "10.13.13.7", true, 0).as_deref(), Some("nas"));
    assert!(c.outbox.learn_alias("  ", "10.13.13.7", true, 0).is_none());
    assert!(c.outbox.learn_alias("x", "nonsense", false, 0).is_none());
    match c.outbox.resolve_name("Nas", 1) {
        Resolution::Known(ip) => assert_eq!(ip, "10.13.13.7"),
        _ => panic!("the name was learned"),
    }
    assert!(matches!(c.outbox.resolve_name("other", 1), Resolution::Ask(_)));
    // A name of the client's own is not taken over.
    c.outbox.local_aliases.insert("mine".into(), "10.13.13.1".into());
    assert!(c.outbox.learn_alias("Mine", "10.13.13.66", true, 0).is_none());
    match c.outbox.resolve_name("mine", 1) {
        Resolution::Known(ip) => assert_eq!(ip, "10.13.13.1"),
        _ => panic!("the name is the client's own"),
    }
    assert!(matches!(c.outbox.resolve_name("nas", 10_000_000), Resolution::Ask(_)));
}

#[test]
fn answers_to_queries_start_sessions() {
    let mut c = conn(&config());
    let data = ResponseData::QueryHit {
        req: "10.13.13.2".into(),
        ip: "10.13.13.2".into(),
        public_key: "pk".into(),
        endpoint: "192.0.2.2:1000".into(),
        relay_rk: Some("rk".into()),
        alias: "nas".into(),
    };
    let resp = ResponseBody::ok_with_data(data);
    assert_eq!(response_key(&resp), "10.13.13.2");
    let info: PeerInfo = response_result(&resp).unwrap();
    let facts = PeerFacts {
        public_key: Some(PEER),
        endpoint: Some(endpoint(2, 1000)),
        relay_rk: Some([6u8; 32]),
        ip_valid: true,
    };
    let (key, _) = c.outbox.complete_query(&info, &facts, &fresh(20), 0).unwrap();
    assert_eq!(key, PEER);
    assert_eq!(c.outbox.resolve_rk_src(&[6u8; 32]), Some(PEER));
    let header = c.outbox.relay_header(&PEER, 0);
    assert!(header.by_rk);
    assert_eq!((header.dest, header.src), ([6u8; 32], [7u8; 32]));
    assert_eq!(plain_result(&ResponseBody::err("no"), "失败").unwrap_err(), "no");
    assert!(plain_result(&ResponseBody::ok(), "失败").is_ok());
}

/// One device at one end of a link, with the keys that it would draw for a new session.
struct Side {
    conn: Conn,
    pk: RawKey,
    fresh: FreshKeys,
}

fn side(pk: RawKey, ip: &str, n: u8) -> Side {
    let mut fresh = fresh(n);
    fresh.handshake_key = [99u8; 32];
    Side { conn: conn(&config_of(pk, ip)), pk, fresh }
}

/// Stands for the derivation of a session key: both ends get the same.
fn derived(rk: RawKey, peer_rk: RawKey, salt: [u8; 12]) -> RawKey {
    let mut key = [0u8; 32];
    for i in 0..32 {
        key[i] = rk[i] ^ peer_rk[i] ^ salt[i % 12] ^ 0x5a;
    }
    key
}

/// Brings a frame through the relay to `to`, and what `to` answers back to `from`. Returns
/// the packets that `to` hands on.
fn carry(from: &mut Side, to: &mut Side, frame: &Sealed, now: u64) -> Vec<Vec<u8>> {
    let mut answers: Vec<Sealed> = Vec::new();
    let mut handed_on = Vec::new();
    answers.extend(to.conn.outbox.arrive(&from.pk, false, endpoint(1, 8080), &to.fresh, now));
    if to.conn.outbox.decryption_keys(&from.pk).contains(&frame.key) {
        match to.conn.outbox.open_packet(&from.pk, &frame.plain, false, now) {
            Incoming::Hello { peer_rk, peer_salt, ip, salt } => {
                let rk = to.conn.outbox.peers.get(&from.pk).unwrap().rk_pub.unwrap();
                let key = derived(rk, peer_rk, salt);
                let done = to
                    .conn
                    .outbox
                    .complete_hello(&from.pk, peer_rk, peer_salt, ip, true, key, now)
                    .unwrap();
                answers.extend(done.reply);
                for packet in &done.flush {
                    if let Some(Admission::Send(f)) = to.conn.outbox.enqueue(&from.pk, packet, now) {
                        answers.push(f);
                    }
                }
            }
            Incoming::Rekey { peer_rk, peer_salt, salt, .. } => {
                let rk = to.conn.outbox.peers.get(&from.pk).unwrap().rk_pub.unwrap();
                let key = derived(rk, peer_rk, salt);
                assert!(to.conn.outbox.complete_rekey(&from.pk, peer_rk, peer_salt, key, now));
            }
            Incoming::Data { packets, ack } => {
                handed_on = packets;
                answers.extend(ack);
            }
            _ => {}
        }
    }
    for a in &answers {
        carry(to, from, a, now);
    }
    handed_on
}

/// Sends a packet, and returns what the other side hands on.
fn send(from: &mut Side, to: &mut Side, packet: &[u8], now: u64) -> Vec<Vec<u8>> {
    match from.conn.outbox.enqueue(&to.pk, packet, now) {
        Some(Admission::Send(frame)) => carry(from, to, &frame, now),
        _ => panic!("an established session sends"),
    }
}

#[test]
fn peer_restart_recovers_relay_flow() {
    for rotate in [false, true] {
        let mut a = side(LOCAL, "10.13.13.1", 20);
        let mut b = side(PEER, "10.13.13.2", 40);
        // The two meet.
        a.conn.outbox.get_or_create_session(&PEER, "10.13.13.2".into(), None, &a.fresh, 0);
        let hello = a.conn.outbox.build_hello(&PEER).unwrap();
        carry(&mut a, &mut b, &hello, 0);
        assert_eq!(send(&mut a, &mut b, b"before-restart", 1), vec![b"before-restart".to_vec()]);
        for i in 0..3u8 {
            assert_eq!(send(&mut b, &mut a, &[i], 1), vec![vec![i]]);
        }
        if rotate {
            let asked = a.conn.outbox.rekey_request(&PEER, [0x11; 12]).unwrap();
            let key = derived([32; 32], asked.peer_rk, asked.salt);
            let rekey =
                a.conn.outbox.begin_rekey(&PEER, [31; 32], [32; 32], [0x11; 12], key, 2).unwrap();
            carry(&mut a, &mut b, &rekey, 2);
            assert_eq!(b.conn.outbox.peers.get(&LOCAL).unwrap().epoch, 1);
            assert_eq!(send(&mut a, &mut b, b"rotated", 3), vec![b"rotated".to_vec()]);
        }

        // The peer starts again: no sessions, other keys.
        let mut b = side(PEER, "10.13.13.2", 60);
        // It cannot read the first packet, but says HELLO, and is sent the packet again.
        assert!(send(&mut a, &mut b, b"after-restart-0", 4).is_empty());
        assert!(b.conn.outbox.peers.get(&LOCAL).unwrap().established());
        let again = a.conn.outbox.retransmit(&PEER, 1000);
        assert_eq!(again.len(), 1);
        assert_eq!(carry(&mut a, &mut b, &again[0], 1000), vec![b"after-restart-0".to_vec()]);
        assert_eq!(a.conn.outbox.peers.get(&PEER).unwrap().send_unacked.len(), 0);
        for i in 1..8u8 {
            let p = format!("after-restart-{i}").into_bytes();
            assert_eq!(send(&mut a, &mut b, &p, 1001), vec![p.clone()], "对端重启后数据流必须恢复");
            assert_eq!(send(&mut b, &mut a, &p, 1001), vec![p.clone()]);
        }
    }
}

#[test]
fn a_full_window_spends_no_number() {
    let mut a = side(LOCAL, "10.13.13.1", 20);
    let mut b = side(PEER, "10.13.13.2", 40);
    a.conn.outbox.get_or_create_session(&PEER, "10.13.13.2".into(), None, &a.fresh, 0);
    let hello = a.conn.outbox.build_hello(&PEER).unwrap();
    carry(&mut a, &mut b, &hello, 0);
    let mut frames = Vec::new();
    for i in 0..512u32 {
        match a.conn.outbox.enqueue(&PEER, &i.to_be_bytes(), 1) {
            Some(Admission::Send(f)) => frames.push(f),
            _ => panic!("the window has room"),
        }
    }
    for _ in 0..3 {
        assert!(matches!(a.conn.outbox.enqueue(&PEER, b"refused", 1), Some(Admission::WindowFull)));
    }
    assert_eq!(a.conn.outbox.peers.get(&PEER).unwrap().send_seq, 512);
    for (i, f) in frames.iter().enumerate() {
        assert_eq!(carry(&mut a, &mut b, f, 2), vec![(i as u32).to_be_bytes().to_vec()]);
    }
    assert_eq!(send(&mut a, &mut b, b"next", 3), vec![b"next".to_vec()]);
    let s = a.conn.outbox.peers.get(&PEER).unwrap();
    assert_eq!((s.send_seq, s.send_unacked.len()), (513, 0));
}
