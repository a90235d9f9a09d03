//! The server: joining, sessions, rooms, names, relaying and its limits.
use base64::engine::general_purpose::STANDARD;
use base64::Engine;
use linkmesh::cert::{DeviceCert, KeyPair, RevokeReason, SignKeyPair};
use linkmesh::net::{Endpoint, IpAddress};
use linkmesh::protocol::{
    AuthBody, JoinBody, MsgKind, QueryBody, RegisterBody, ResponseBody, ResponseData,
};
use linkmesh::server::config::ServerConfig;
use linkmesh::server::control::{
    add_alias, add_room, alias_list, delete_peer, read_request, remove_alias, remove_room,
    revoke_reply, room_reports, saved_reply, shorten, stopped, CtrlCommand, CtrlRequest,
};
use linkmesh::server::guard::{RateLimiter, ReplayCache, REPLAY_CACHE_LEN};
use linkmesh::server::join::{normalize_self_alias, resolve_room};
use linkmesh::server::mesh::MeshConfig;
use linkmesh::server::relay::{
    default_worker_count, relay_forward, shard_index, split_subframe, subframe, RelayBatcher,
};
use linkmesh::server::routes::{RouteEntry, RouteTable};
use linkmesh::server::sessions::{SessionEntry, Sessions, MAX_SESSIONS_PER_DEVICE};
use linkmesh::server::signaling::{
    dispatch, unauthenticated, Answer, AuthStep, Dispatch, JoinOutcome, SessionRequest, Signaling,
    SignalingPath,
};
use linkmesh::table::RawKey;

const NOW: u64 = 1_700_000_000;
const FROM: &str = "192.0.2.1:4000";
const SRC: IpAddress = IpAddress::V4([192, 0, 2, 1]);

fn b64(key: &[u8]) -> String {
    STANDARD.encode(key)
}

fn server(rooms: &[(&str, &str)], aliases: &[(&str, &str)]) -> Signaling {
    let mut cfg = ServerConfig::default();
    cfg.genkey(
        KeyPair { public: [100u8; 32], private: [101u8; 32] },
        SignKeyPair { public: b64(&[102u8; 32]), private: b64(&[103u8; 32]) },
    )
    .unwrap();
    for (name, token) in rooms {
        cfg.add_room(name, token).unwrap();
    }
    for (name, ip) in aliases {
        cfg.add_alias(name, ip, true).unwrap();
    }
    let root = SignKeyPair { public: b64(&[104u8; 32]), private: b64(&[105u8; 32]) };
    let mesh = MeshConfig::init("mesh-1", root);
    match Signaling::new(&cfg, mesh, b64(&[104u8; 32]), 1) {
        Ok(s) => s,
        Err(e) => panic!("{e}"),
    }
}

/// Lets the device with number `n` join with a new invitation.
fn join(
    s: &mut Signaling,
    n: u8,
    token: Option<&str>,
    alias: Option<&str>,
) -> Result<DeviceCert, String> {
    let code = s.mesh.create_invite(None, 600, NOW);
    let jb = JoinBody {
        code,
        device_id: format!("device-{n}"),
        ik_x: b64(&[n; 32]),
        ik_s_pub: b64(&[n + 50; 32]),
        requested_ip: None,
        token: token.map(|t| t.to_string()),
        alias: alias.map(|t| t.to_string()),
    };
    match s.handle_join(&[n; 32], &jb, &Ok(format!("device-{n}")), &SRC, NOW) {
        JoinOutcome::Joined { grant, .. } => {
            assert_eq!(grant.allocated_ip, grant.cert.allowed_ip);
            Ok(grant.cert)
        }
        JoinOutcome::Refused(e) => Err(e),
        JoinOutcome::Silent => Err("silent".into()),
    }
}

fn auth_body(n: u8, cert: &DeviceCert, token: Option<&str>, nonce: u8) -> AuthBody {
    AuthBody {
        device_id: format!("device-{n}"),
        cert: cert.copy(),
        ek_c: b64(&[n + 100; 32]),
        timestamp: NOW,
        nonce: b64(&[nonce; 12]),
        token: token.map(|t| t.to_string()),
    }
}

/// Opens a session for the device with number `n`. Its key is made of `n + 100`.
fn auth(
    s: &mut Signaling,
    n: u8,
    cert: &DeviceCert,
    token: Option<&str>,
    nonce: u8,
) -> Result<RawKey, String> {
    let ab = auth_body(n, cert, token, nonce);
    match s.check_auth(&[n; 32], &ab, &Ok(()), &SRC, NOW) {
        AuthStep::Proceed { room, nonce } => {
            assert_eq!(b64(&nonce), ab.nonce);
            let resp = s.complete_auth(&[n; 32], &ab, room, [n + 100; 32], [n; 32], [7; 32], NOW)?;
            assert_eq!(resp.ek_s, b64(&[7; 32]));
            assert_eq!(resp.allocated_ip, cert.allowed_ip);
            assert_eq!(resp.session_id.len(), 24);
            Ok([n + 100; 32])
        }
        AuthStep::Refused(e) => Err(e),
        AuthStep::Silent => Err("silent".into()),
    }
}

fn register(s: &mut Signaling, session: &RawKey, ip: &str, alias: Option<&str>) -> ResponseBody {
    let body = RegisterBody {
        ip: ip.to_string(),
        relay_rk: Some(b64(&session[..])),
        token: None,
        alias: alias.map(|t| t.to_string()),
    };
    answer(s, session, &SessionRequest::Register(body))
}

fn query(s: &mut Signaling, session: &RawKey, ip: &str, name: Option<&str>) -> ResponseBody {
    let body = QueryBody { ip: ip.to_string(), name: name.map(|t| t.to_string()) };
    answer(s, session, &SessionRequest::Query(body))
}

fn answer(s: &mut Signaling, session: &RawKey, request: &SessionRequest) -> ResponseBody {
    let reply = s.answer_request(session, request, "192.0.2.1:4000", NOW).unwrap();
    match reply.answer {
        Answer::Reply(b) => b,
        Answer::Error(e) => ResponseBody::err(&e),
    }
}

fn hit_ip(resp: &ResponseBody) -> String {
    match &resp.data {
        ResponseData::QueryHit { ip, .. } => ip.clone(),
        _ => panic!("expected QueryHit data"),
    }
}

#[test]
fn mesh_auth_full_chain() {
    let mut s = server(&[], &[]);
    // Nobody gets in without a session.
    assert!(matches!(s.signaling_path(&[1; 32], MsgKind::Register), SignalingPath::Reject));
    assert_eq!(unauthenticated(), "尚未认证（请先 --join 并完成 AUTH 握手）");
    assert!(matches!(s.signaling_path(&[1; 32], MsgKind::KeyQuery), SignalingPath::KeyQuery));
    let a = join(&mut s, 1, None, None).unwrap();
    assert_eq!(a.allowed_ip, "10.13.13.2", "池内第一个空闲 IP");
    let b = join(&mut s, 2, None, None).unwrap();
    assert_eq!(b.allowed_ip, "10.13.13.3");
    let sa = auth(&mut s, 1, &a, None, 1).unwrap();
    let sb = auth(&mut s, 2, &b, None, 2).unwrap();
    assert!(matches!(s.signaling_path(&sa, MsgKind::Register), SignalingPath::Session));
    assert!(register(&mut s, &sa, "10.13.13.2", None).ok);
    assert!(register(&mut s, &sb, "10.13.13.3", None).ok);
    // A request number is used once.
    assert_eq!(s.next_request(&sa).unwrap(), ([1u8; 32], 1));
    s.accept_request(&sa, 1, NOW);
    assert_eq!(s.next_request(&sa).unwrap().1, 2);
    // Only those with a session are relayed.
    let rooms = !s.rooms.is_empty();
    assert!(relay_forward(&mut s.routes, &s.sessions, rooms, false, &[2; 32], &[9; 32], FROM, NOW).is_none());
    let to = relay_forward(&mut s.routes, &s.sessions, rooms, false, &[2; 32], &[1; 32], FROM, NOW).unwrap();
    assert_eq!(to.ip, "10.13.13.3");
}

#[test]
fn signaling_register_query_relay_flow() {
    let mut s = server(&[], &[]);
    let a = join(&mut s, 1, None, None).unwrap();
    let b = join(&mut s, 2, None, None).unwrap();
    let sa = auth(&mut s, 1, &a, None, 1).unwrap();
    let sb = auth(&mut s, 2, &b, None, 2).unwrap();
    register(&mut s, &sa, &a.allowed_ip, None);
    register(&mut s, &sb, &b.allowed_ip, None);
    let resp = query(&mut s, &sa, &b.allowed_ip, None);
    assert!(resp.ok);
    match &resp.data {
        ResponseData::QueryHit { public_key, endpoint, relay_rk, .. } => {
            assert_eq!(public_key, &b64(&[2u8; 32]));
            assert_eq!(endpoint, "192.0.2.1:4000");
            assert_eq!(relay_rk.as_deref(), Some(b64(&sb[..]).as_str()));
        }
        _ => panic!("应返回 QueryHit"),
    }
    // Relaying by the routing keys finds the same device.
    let to = relay_forward(&mut s.routes, &s.sessions, false, true, &sb, &sa, FROM, NOW).unwrap();
    assert_eq!(to.public_key, [2u8; 32], "中继目标应为 B");
    let sub = subframe(&sa, b"encrypted-payload");
    let (src, ct) = split_subframe(&sub).unwrap();
    assert_eq!((src, ct), (sa, &b"encrypted-payload"[..]), "子帧来源应为 A");
    assert!(split_subframe(&sub[..31]).is_none());
}

#[test]
fn mesh_revoke_kicks_session() {
    let mut s = server(&[], &[]);
    let a = join(&mut s, 1, None, None).unwrap();
    let sa = auth(&mut s, 1, &a, None, 1).unwrap();
    register(&mut s, &sa, &a.allowed_ip, None);
    assert_eq!(s.revoke_device("device-1", RevokeReason::Admin, NOW).unwrap(), 1);
    assert!(s.next_request(&sa).is_none(), "吊销后旧会话必须失效");
    assert!(s.answer_request(&sa, &SessionRequest::Heartbeat, "x", NOW).is_none());
    assert_eq!(auth(&mut s, 1, &a, None, 2).unwrap_err(), "设备已被吊销");
    assert_eq!(s.sessions.len(), 0, "吊销后会话表不应残留该设备");
    assert!(s.revoke_device("device-1", RevokeReason::Admin, NOW).is_err());
}

#[test]
fn token_rooms_isolate_peers() {
    let mut s = server(&[("office", "tok-office-123456"), ("lab", "tok-lab-123456")], &[]);
    assert!(join(&mut s, 1, None, None).is_err(), "JOIN 缺令牌必须被拒");
    assert!(join(&mut s, 1, Some("wrong-token"), None).is_err(), "JOIN 错令牌必须被拒");
    let a = join(&mut s, 1, Some("tok-office-123456"), None).unwrap();
    let b = join(&mut s, 2, Some("tok-office-123456"), None).unwrap();
    let c = join(&mut s, 3, Some("tok-lab-123456"), None).unwrap();
    let sa = auth(&mut s, 1, &a, Some("tok-office-123456"), 1).unwrap();
    let sb = auth(&mut s, 2, &b, Some("tok-office-123456"), 2).unwrap();
    let sc = auth(&mut s, 3, &c, Some("tok-lab-123456"), 3).unwrap();
    assert!(register(&mut s, &sa, &a.allowed_ip, None).ok);
    assert!(register(&mut s, &sb, &b.allowed_ip, None).ok);
    assert!(register(&mut s, &sc, &c.allowed_ip, None).ok);
    assert!(!query(&mut s, &sc, &a.allowed_ip, None).ok, "跨房间查询必须失败");
    let same = query(&mut s, &sb, &a.allowed_ip, None);
    assert!(same.ok, "同房间查询应成功");
    assert_eq!(hit_ip(&same), a.allowed_ip);
    assert!(
        relay_forward(&mut s.routes, &s.sessions, true, false, &[3; 32], &[1; 32], FROM, NOW).is_none(),
        "跨房间中继必须被丢弃"
    );
    assert!(
        relay_forward(&mut s.routes, &s.sessions, true, false, &[2; 32], &[1; 32], FROM, NOW).is_some(),
        "同房间中继必须送达"
    );
}

#[test]
fn mesh_token_gates_join_and_auth() {
    let mut s = server(&[("office", "tok-office-123456"), ("lab", "tok-lab-123456")], &[]);
    assert!(join(&mut s, 1, None, None).is_err(), "JOIN 缺令牌必须被拒");
    assert!(join(&mut s, 1, Some("wrong"), None).is_err(), "JOIN 错令牌必须被拒");
    let a = join(&mut s, 1, Some("tok-office-123456"), None).unwrap();
    assert!(auth(&mut s, 1, &a, Some("wrong"), 1).is_err(), "AUTH 错令牌必须被拒");
    let sa = auth(&mut s, 1, &a, Some("tok-office-123456"), 2).unwrap();
    assert!(register(&mut s, &sa, &a.allowed_ip, None).ok);
    let b = join(&mut s, 2, Some("tok-lab-123456"), None).unwrap();
    let sb = auth(&mut s, 2, &b, Some("tok-lab-123456"), 3).unwrap();
    assert!(register(&mut s, &sb, &b.allowed_ip, None).ok);
    assert!(!query(&mut s, &sa, &b.allowed_ip, None).ok, "mesh 跨房间查询必须失败");
}

#[test]
fn alias_resolution_by_name_and_self_alias() {
    let mut s = server(&[], &[("gateway", "10.13.13.2")]);
    let a = join(&mut s, 1, None, None).unwrap();
    let b = join(&mut s, 2, None, Some("computer")).unwrap();
    let sa = auth(&mut s, 1, &a, None, 1).unwrap();
    let sb = auth(&mut s, 2, &b, None, 2).unwrap();
    register(&mut s, &sa, &a.allowed_ip, None);
    register(&mut s, &sb, &b.allowed_ip, Some("computer"));
    let resp = query(&mut s, &sb, "", Some("gateway"));
    assert!(resp.ok, "管理员别名应可解析");
    assert_eq!(hit_ip(&resp), "10.13.13.2");
    let resp = query(&mut s, &sa, "", Some("computer"));
    assert!(resp.ok, "自报别名应可解析");
    assert_eq!(hit_ip(&resp), b.allowed_ip);
    assert!(!query(&mut s, &sa, "", Some("ghost")).ok, "未知别名必须失败");
    assert!(query(&mut s, &sb, "", Some("GATEWAY")).ok, "别名应大小写不敏感");
}

#[test]
fn alias_resolution_respects_rooms() {
    let mut s = server(
        &[("office", "tok-office-123456"), ("lab", "tok-lab-123456")],
        &[("nas", "10.13.13.2")],
    );
    let a = join(&mut s, 1, Some("tok-office-123456"), None).unwrap();
    let b = join(&mut s, 2, Some("tok-office-123456"), None).unwrap();
    let c = join(&mut s, 3, Some("tok-lab-123456"), None).unwrap();
    let sa = auth(&mut s, 1, &a, Some("tok-office-123456"), 1).unwrap();
    let sb = auth(&mut s, 2, &b, Some("tok-office-123456"), 2).unwrap();
    let sc = auth(&mut s, 3, &c, Some("tok-lab-123456"), 3).unwrap();
    register(&mut s, &sa, &a.allowed_ip, None);
    register(&mut s, &sb, &b.allowed_ip, None);
    register(&mut s, &sc, &c.allowed_ip, None);
    assert!(!query(&mut s, &sc, "", Some("nas")).ok, "跨房间别名必须解析失败");
    let resp = query(&mut s, &sb, "", Some("nas"));
    assert!(resp.ok, "同房间别名应可解析");
    assert_eq!(hit_ip(&resp), "10.13.13.2");
}

#[test]
fn admin_alias_takes_precedence_over_self_reported() {
    let mut s = server(&[], &[("router", "10.13.13.2")]);
    let a = join(&mut s, 1, None, None).unwrap();
    let b = join(&mut s, 2, None, Some("router")).unwrap();
    let sa = auth(&mut s, 1, &a, None, 1).unwrap();
    let sb = auth(&mut s, 2, &b, None, 2).unwrap();
    register(&mut s, &sa, &a.allowed_ip, None);
    register(&mut s, &sb, &b.allowed_ip, Some("router"));
    let resp = query(&mut s, &sb, "", Some("router"));
    assert!(resp.ok, "管理员别名应可解析");
    assert_eq!(hit_ip(&resp), "10.13.13.2");
    assert_eq!(s.resolve_alias("router", "default").as_deref(), Some("10.13.13.2"));
}

#[test]
fn unregistered_relay_sender_dropped_in_rooms_mode() {
    let mut s = server(&[("lab", "tok-lab-123456")], &[]);
    let b = join(&mut s, 2, Some("tok-lab-123456"), None).unwrap();
    let sb = auth(&mut s, 2, &b, Some("tok-lab-123456"), 1).unwrap();
    register(&mut s, &sb, &b.allowed_ip, None);
    assert!(
        relay_forward(&mut s.routes, &s.sessions, true, false, &[2; 32], &[7; 32], FROM, NOW).is_none(),
        "未注册来源的中继帧必须被丢弃（无活跃会话/无法确定房间）"
    );
}

#[test]
fn joins_are_refused_for_a_reason() {
    let mut s = server(&[], &[]);
    let body = |code: &str, id: &str, ik_x: String| JoinBody {
        code: code.to_string(),
        device_id: id.to_string(),
        ik_x,
        ik_s_pub: "s".into(),
        requested_ip: None,
        token: None,
        alias: Some("bad name".into()),
    };
    let refused = |o: JoinOutcome| match o {
        JoinOutcome::Refused(e) => e,
        _ => panic!("must be refused"),
    };
    let code = s.mesh.create_invite(Some("10.13.13.77"), 600, NOW);
    let id: Result<String, String> = Ok("d".into());
    let other = body(&code, "d", b64(&[2; 32]));
    assert_eq!(
        refused(s.handle_join(&[1; 32], &other, &id, &SRC, NOW)),
        "JOIN 载荷公钥与帧头不一致"
    );
    let wrong_code = body("LMJ-0", "d", b64(&[1; 32]));
    refused(s.handle_join(&[1; 32], &wrong_code, &id, &SRC, NOW));
    let wrong_id = body(&code, "e", b64(&[1; 32]));
    assert_eq!(
        refused(s.handle_join(&[1; 32], &wrong_id, &id, &SRC, NOW)),
        "device_id 与设备双公钥不匹配"
    );
    let bad_key: Result<String, String> = Err("bad key".into());
    let good = body(&code, "d", b64(&[1; 32]));
    assert_eq!(refused(s.handle_join(&[1; 32], &good, &bad_key, &SRC, NOW)), "bad key");
    // A name that is not allowed is refused, and the invitation stays good.
    refused(s.handle_join(&[1; 32], &good, &id, &SRC, NOW));
    assert!(s.mesh.members.is_empty());
    let mut named = body(&code, "d", b64(&[1; 32]));
    named.alias = Some(" NAS ".into());
    match s.handle_join(&[1; 32], &named, &id, &SRC, NOW) {
        JoinOutcome::Joined { grant, server_info, crl } => {
            assert_eq!(grant.allocated_ip, "10.13.13.77");
            assert_eq!(server_info.mesh_root_pub, b64(&[104; 32]));
            assert_eq!(crl.version, 0);
        }
        _ => panic!("must join"),
    }
    assert_eq!(s.mesh.members[0].alias.as_deref(), Some("nas"));
    refused(s.handle_join(&[1; 32], &named, &id, &SRC, NOW));
}

#[test]
fn sessions_are_refused_for_a_reason() {
    let mut s = server(&[], &[]);
    let cert = join(&mut s, 1, None, None).unwrap();
    let refused = |o: AuthStep| match o {
        AuthStep::Refused(e) => e,
        _ => panic!("must be refused"),
    };
    let ab = auth_body(1, &cert, None, 1);
    let bad: Result<(), String> = Err("signature".into());
    assert_eq!(refused(s.check_auth(&[1; 32], &ab, &bad, &SRC, NOW)), "signature");
    let mut other = auth_body(1, &cert, None, 1);
    other.device_id = "device-9".into();
    assert_eq!(
        refused(s.check_auth(&[1; 32], &other, &Ok(()), &SRC, NOW)),
        "AUTH 载荷 device_id 与证书不一致"
    );
    let mut late = auth_body(1, &cert, None, 1);
    late.timestamp = NOW - 31;
    assert!(refused(s.check_auth(&[1; 32], &late, &Ok(()), &SRC, NOW)).contains("时间戳"));
    let mut short = auth_body(1, &cert, None, 1);
    short.nonce = b64(&[1; 11]);
    assert_eq!(refused(s.check_auth(&[1; 32], &short, &Ok(()), &SRC, NOW)), "nonce 长度错误");
    short.nonce = "%".into();
    assert_eq!(refused(s.check_auth(&[1; 32], &short, &Ok(()), &SRC, NOW)), "nonce base64 非法");
    assert!(matches!(
        s.check_auth(&[1; 32], &ab, &Ok(()), &SRC, NOW),
        AuthStep::Proceed { .. }
    ));
    // The same nonce does not work twice.
    refused(s.check_auth(&[1; 32], &ab, &Ok(()), &SRC, NOW));
}

#[test]
fn floods_are_met_with_silence() {
    let mut l = RateLimiter::new(2);
    assert!(!l.rate_limited(&SRC, NOW));
    assert!(!l.rate_limited(&SRC, NOW));
    assert!(l.rate_limited(&SRC, NOW));
    assert!(!l.rate_limited(&IpAddress::V4([192, 0, 2, 2]), NOW));
    assert!(!l.rate_limited(&SRC, NOW + 60));
    l.forget_old(NOW + 1000);
    let mut open = RateLimiter::new(0);
    for _ in 0..1000 {
        assert!(!open.rate_limited(&SRC, NOW));
    }
}

#[test]
fn replays_are_noticed() {
    let mut c = ReplayCache::new();
    let first = c.replay_check(&[1; 32], &[1; 12]);
    let second = c.replay_check(&[1; 32], &[1; 12]);
    assert_ne!(first, second);
    assert_eq!(c.replay_check(&[2; 32], &[1; 12]), first);
    for n in 0..REPLAY_CACHE_LEN as u8 {
        c.replay_check(&[1; 32], &[n + 100; 12]);
    }
    assert_eq!(c.replay_check(&[1; 32], &[1; 12]), first);
}

#[test]
fn sessions_are_limited_per_device() {
    let entry = |n: u8, seen: u64| SessionEntry {
        session_pub: [n; 32],
        device_id: "d".into(),
        ik_x: [200; 32],
        ip: String::new(),
        sk: [0; 32],
        counter_rx: 0,
        last_seen: seen,
        room: "default".into(),
    };
    let mut s = Sessions::new();
    for n in 0..=MAX_SESSIONS_PER_DEVICE as u8 {
        s.register(entry(n, NOW + n as u64));
    }
    assert_eq!(s.len(), MAX_SESSIONS_PER_DEVICE);
    assert!(s.get(&[0; 32]).is_none());
    assert!(s.is_active(&[200; 32]));
    s.advance(&[1; 32], 5, NOW + 50);
    assert_eq!(s.get(&[1; 32]).unwrap().counter_rx, 5);
    s.remove(&[1; 32]);
    assert!(!s.expire(NOW + 100, 95).is_empty());
    s.kick_device("d");
    assert_eq!(s.len(), 0);
    assert!(!s.is_active(&[200; 32]));
}

#[test]
fn routes_are_found_by_every_key() {
    let entry = |n: u8, ip: &str, rk: &str| RouteEntry {
        public_key: [n; 32],
        ip: ip.to_string(),
        endpoint: "e".into(),
        last_seen: NOW,
        relay_rk: Some(rk.to_string()),
        room: "default".into(),
        alias: Some(format!("dev{n}")),
    };
    let mut t = RouteTable::new();
    assert!(t.is_empty());
    t.upsert(entry(2, "10.0.0.2", "rk2"));
    t.upsert(entry(1, "10.0.0.1", "rk1"));
    assert_eq!(t.get_by_ip("10.0.0.2").unwrap().public_key, [2; 32]);
    assert_eq!(t.get_by_rk("rk1").unwrap().public_key, [1; 32]);
    // Nobody takes over a relay key that is in use.
    t.upsert(entry(3, "10.0.0.3", "rk1"));
    assert_eq!(t.get_by_rk("rk1").unwrap().public_key, [1; 32]);
    assert_eq!(t.named_ip("dev2", "default").as_deref(), Some("10.0.0.2"));
    assert!(t.named_ip("dev2", "lab").is_none());
    let all = t.snapshot();
    assert_eq!(all.len(), 3);
    assert_eq!(all[0].public_key, [1; 32]);
    t.cleanup(NOW + 10, 9);
    assert_eq!(t.len(), 0);
    assert!(t.get_by_ip("10.0.0.2").is_none());
}

#[test]
fn batches_are_collected() {
    assert!(RelayBatcher::spawn(false, 100).is_none());
    let mut b = RelayBatcher::spawn(true, 100).unwrap();
    assert!(b.enqueue([1; 32], "a".into(), vec![0; 40]).is_none());
    let full = b.enqueue([1; 32], "a".into(), vec![0; 60]).unwrap();
    assert_eq!(full.frames.len(), 2);
    assert!(b.enqueue([2; 32], "b".into(), vec![0; 10]).is_none());
    let rest = b.take_all();
    assert_eq!(rest.len(), 1);
    assert_eq!(rest[0].0, [2; 32]);
    assert!(b.take_all().is_empty());
}

#[test]
fn packets_are_spread_over_workers() {
    let src = Endpoint { ip: IpAddress::V4([1, 2, 3, 4]), port: 5, scope: 0 };
    assert!(shard_index(&src, 4) < 4);
    assert_eq!(shard_index(&src, 4), shard_index(&src, 4));
    assert_eq!(shard_index(&src, 1), 0);
    assert!(default_worker_count(None) >= 1);
    assert!(matches!(dispatch(MsgKind::Relay), Dispatch::Relay));
    assert!(matches!(dispatch(MsgKind::Join), Dispatch::Signaling));
    assert!(matches!(dispatch(MsgKind::Other), Dispatch::Unknown));
}

#[test]
fn rooms_are_found_by_token() {
    let mut cfg = ServerConfig::default();
    assert_eq!(resolve_room(&cfg.rooms, None).unwrap(), "default");
    cfg.add_room("office", "tok-office-123456").unwrap();
    assert!(resolve_room(&cfg.rooms, None).is_err());
    assert_eq!(resolve_room(&cfg.rooms, Some(" tok-office-123456 ")).unwrap(), "office");
    assert!(normalize_self_alias(None).unwrap().is_none());
    assert_eq!(normalize_self_alias(Some("NAS")).unwrap().as_deref(), Some("nas"));
    assert!(normalize_self_alias(Some("bad name")).is_err());
}

#[test]
fn keys_are_answered_from_the_cache() {
    let mut s = server(&[], &[]);
    assert!(s.cached_server_info().is_none());
    s.cache_server_info(vec![1, 2]);
    assert_eq!(s.cached_server_info().unwrap(), &vec![1, 2]);
    join(&mut s, 1, None, None).unwrap();
    s.revoke_device("device-1", RevokeReason::Leaked, NOW).unwrap();
    assert!(s.cached_server_info().is_none());
    assert_eq!(s.server_pub(), [100; 32]);
}

#[test]
fn registrations_need_a_good_token() {
    let mut s = server(&[("office", "tok-office-123456"), ("lab", "tok-lab-123456")], &[]);
    let a = join(&mut s, 1, Some("tok-office-123456"), None).unwrap();
    let sa = auth(&mut s, 1, &a, Some("tok-office-123456"), 1).unwrap();
    let with = |token: Option<&str>| {
        SessionRequest::Register(RegisterBody {
            ip: a.allowed_ip.clone(),
            relay_rk: None,
            token: token.map(|t| t.to_string()),
            alias: None,
        })
    };
    assert!(!answer(&mut s, &sa, &with(Some("wrong-token"))).ok);
    assert_eq!(s.routes.len(), 0);
    assert!(answer(&mut s, &sa, &with(None)).ok);
    assert!(answer(&mut s, &sa, &with(Some("  "))).ok);
    assert!(answer(&mut s, &sa, &with(Some("tok-office-123456"))).ok);
    // The room is that of the session.
    assert!(answer(&mut s, &sa, &with(Some("tok-lab-123456"))).ok);
    assert_eq!(s.routes.get(&[1; 32]).unwrap().room, "office");
}

#[test]
fn a_relayed_frame_tells_where_its_source_is() {
    let mut s = server(&[], &[]);
    let a = join(&mut s, 1, None, None).unwrap();
    let sa = auth(&mut s, 1, &a, None, 1).unwrap();
    register(&mut s, &sa, &a.allowed_ip, None);
    let later = NOW + 5;
    relay_forward(&mut s.routes, &s.sessions, false, false, &[2; 32], &[1; 32], "192.0.2.9:1", later);
    let e = s.routes.get(&[1; 32]).unwrap();
    assert_eq!((e.endpoint.as_str(), e.last_seen), ("192.0.2.9:1", later));
    // A frame by routing key leaves the entry to registration and heartbeat.
    relay_forward(&mut s.routes, &s.sessions, false, true, &[2; 32], &sa, "192.0.2.9:2", later + 1);
    let e = s.routes.get(&[1; 32]).unwrap();
    assert_eq!((e.endpoint.as_str(), e.last_seen), ("192.0.2.9:1", later));
    // A frame without a session changes nothing.
    relay_forward(&mut s.routes, &s.sessions, false, false, &[1; 32], &[7; 32], "192.0.2.9:3", later);
    assert_eq!(s.routes.get(&[1; 32]).unwrap().endpoint, "192.0.2.9:1");
}

#[test]
fn sessions_end_after_the_ttl() {
    let mut s = server(&[], &[]);
    s.route_ttl_sec = 20;
    let a = join(&mut s, 1, None, None).unwrap();
    auth(&mut s, 1, &a, None, 1).unwrap();
    assert_eq!(s.cleanup(NOW + 20), 0);
    assert_eq!(s.cleanup(NOW + 21), 1);
    assert_eq!(s.sessions.len(), 0);
}

#[test]
fn sessions_end_with_bye() {
    let mut s = server(&[], &[]);
    let a = join(&mut s, 1, None, None).unwrap();
    let sa = auth(&mut s, 1, &a, None, 1).unwrap();
    register(&mut s, &sa, &a.allowed_ip, None);
    assert!(answer(&mut s, &sa, &SessionRequest::Bye).ok);
    assert_eq!(s.routes.len(), 0);
    assert!(s.answer_request(&sa, &SessionRequest::Bye, "x", NOW).is_none());
    let sa = auth(&mut s, 1, &a, None, 2).unwrap();
    register(&mut s, &sa, &a.allowed_ip, None);
    s.cleanup(NOW + 100_000);
    assert_eq!(s.routes.len(), 0);
    assert_eq!(s.sessions.len(), 0);
}

#[test]
fn control_needs_the_token() {
    let req = |cmd: &str, token: &str| CtrlRequest {
        cmd: cmd.to_string(),
        token: token.to_string(),
        key: "k".into(),
        name: "n".into(),
        ip: "i".into(),
        reason: String::new(),
    };
    let token = Some("secret".to_string());
    assert_eq!(read_request(&token, &req("stop", "wrong")).unwrap_err(), "鉴权失败：token 不匹配");
    assert!(matches!(read_request(&token, &req("stop", "secret")), Ok(CtrlCommand::Stop)));
    assert!(matches!(read_request(&None, &req("rooms", "any")), Ok(CtrlCommand::Rooms)));
    assert_eq!(read_request(&None, &req("dance", "")).unwrap_err(), "未知命令 dance");
    assert_eq!(stopped(), "服务已停止");
    // An empty token is none.
    assert!(matches!(read_request(&Some(String::new()), &req("stop", "x")), Ok(CtrlCommand::Stop)));
    match read_request(&None, &req("revoke", "")).unwrap() {
        CtrlCommand::Revoke { target, reason } => {
            assert_eq!(target, "k");
            assert!(reason.is_none());
        }
        _ => panic!("revoke is revoke"),
    }
    assert_eq!(revoke_reply("d", Ok(3)).unwrap(), "已吊销设备 d，CRL 版本 -> 3");
    assert_eq!(revoke_reply("d", Err("no".into())).unwrap_err(), "no");
}

#[test]
fn control_changes_the_running_server() {
    let mut s = server(&[], &[]);
    let mut cfg = ServerConfig::default();
    assert_eq!(
        add_room(&mut s, &mut cfg, "office", "tok-office-123456").unwrap(),
        "房间 office 已保存（令牌以哈希存储）"
    );
    assert_eq!(s.rooms.len(), 1);
    assert!(add_room(&mut s, &mut cfg, "office", "x").is_err());
    let shown = room_reports(&s.rooms);
    assert_eq!(shown[0].token_hash.chars().count(), 13);
    assert_eq!(shorten("ab"), "ab");
    assert_eq!(shorten("ééééééé"), "éééééé");
    assert_eq!(remove_room(&mut s, "office").unwrap(), "房间 office 已删除");
    assert_eq!(remove_room(&mut s, "office").unwrap_err(), "房间 office 不存在");
    assert_eq!(
        add_alias(&mut s, &mut cfg, "nas", "10.13.13.2", true).unwrap(),
        "别名 nas -> 10.13.13.2 已保存"
    );
    add_alias(&mut s, &mut cfg, "box", "10.13.13.3", true).unwrap();
    assert!(add_alias(&mut s, &mut cfg, "tv", "x", false).is_err());
    let names = alias_list(&s.aliases);
    assert_eq!((names.name_at(0).as_str(), names.name_at(1).as_str()), ("box", "nas"));
    assert_eq!(remove_alias(&mut s, "nas").unwrap(), "别名 nas 已删除");
    assert_eq!(remove_alias(&mut s, "nas").unwrap_err(), "别名 nas 不存在");
    assert_eq!(saved_reply("ok".into(), Ok(())).unwrap(), "ok");
    assert_eq!(saved_reply("ok".into(), Err("disk".into())).unwrap_err(), "已生效但持久化失败: disk");
    let a = join(&mut s, 1, None, None).unwrap();
    let sa = auth(&mut s, 1, &a, None, 1).unwrap();
    register(&mut s, &sa, &a.allowed_ip, None);
    assert_eq!(delete_peer(&mut s.routes, Ok([1; 32])).unwrap(), "已移除");
    assert_eq!(delete_peer(&mut s.routes, Ok([1; 32])).unwrap(), "对端不存在");
    assert_eq!(delete_peer(&mut s.routes, Err("bad".into())).unwrap_err(), "bad");
}
