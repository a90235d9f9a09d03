//! The server's configuration, the mesh, and the commands that change them.
use linkmesh::cert::{KeyPair, RevokeReason, SignKeyPair};
use linkmesh::server::commands::{
    alias_lines, crl_lines, invite, mesh_init_check, read_command, relay_port, revoke_reason,
    revoke_target, room_lines, route_lines, start, start_port, status_lines, RouteReport,
    ServerCommand, StatusReport,
};
use linkmesh::server::config::{validate_alias, ServerConfig};
use linkmesh::server::mesh::{MeshConfig, INVITE_TTL_SECS};

const NOW: u64 = 1_700_000_000;

fn sign_keys() -> SignKeyPair {
    SignKeyPair {
        public: "AQEBAQEBAQEBAQEBAQEBAQEBAQEBAQEBAQEBAQEBAQE=".into(),
        private: "AgICAgICAgICAgICAgICAgICAgICAgICAgICAgICAgI=".into(),
    }
}

fn keys() -> KeyPair {
    KeyPair { public: [1u8; 32], private: [2u8; 32] }
}

fn new_mesh() -> MeshConfig {
    MeshConfig::init(&MeshConfig::generate_mesh_id(), sign_keys())
}

#[test]
fn genkey_twice_errors() {
    let mut cfg = ServerConfig::default();
    assert!(cfg.keypair.is_none());
    assert!(cfg.genkey(keys(), sign_keys()).is_ok());
    assert!(cfg.keypair.is_some());
    assert!(cfg.genkey(keys(), sign_keys()).is_err(), "已有密钥对再次生成必须报错");
    let pub1 = cfg.public_key().unwrap();
    let pub2 = cfg.public_key().unwrap();
    assert_eq!(pub1, pub2);
    assert_eq!(cfg.private_key().unwrap(), [2u8; 32]);
    assert_eq!(cfg.signing_seed().unwrap(), [2u8; 32]);
}

#[test]
fn keys_are_missed() {
    let cfg = ServerConfig::default();
    assert!(cfg.public_key().is_err());
    assert!(cfg.private_key().is_err());
    assert!(cfg.signing_public_b64().is_err());
    assert!(cfg.signing_seed().is_err());
    let mut broken = ServerConfig::default();
    broken.signing = Some(SignKeyPair { public: "p".into(), private: "not base64!".into() });
    assert!(broken.signing_seed().is_err());
    broken.signing = Some(SignKeyPair { public: "p".into(), private: "AQE=".into() });
    assert!(broken.signing_seed().is_err());
}

#[test]
fn room_token_hash_roundtrip() {
    let mut cfg = ServerConfig::default();
    assert!(!cfg.token_required());
    assert!(cfg.add_room("office", "secret-token-1").is_ok());
    assert!(cfg.token_required());
    assert!(!cfg.rooms[0].token_hash.contains("secret-token-1"));
    assert_eq!(cfg.room_by_token("secret-token-1").as_deref(), Some("office"));
    assert!(cfg.room_by_token("wrong").is_none());
    assert!(cfg.room_by_token("").is_none());
    cfg.add_room("office", "new-token-2").unwrap();
    assert!(cfg.room_by_token("secret-token-1").is_none());
    assert_eq!(cfg.room_by_token("new-token-2").as_deref(), Some("office"));
    assert!(cfg.add_room("Bad Name!", "xyz123456").is_err());
    assert!(cfg.add_room("ok-room", "ab").is_err());
    assert!(cfg.remove_room("office"));
    assert!(!cfg.token_required());
    assert!(!cfg.remove_room("office"));
}

#[test]
fn tokens_are_kept_as_digests() {
    assert_eq!(
        ServerConfig::hash_token(" abc "),
        "ba7816bf8f01cfea414140de5dae2223b00361a396177a9cb410ff61f20015ad"
    );
}

#[test]
fn alias_table_validation() {
    let mut cfg = ServerConfig::default();
    assert!(cfg.add_alias("Computer", "10.13.13.5", true).is_ok());
    assert_eq!(cfg.alias_ip("computer").as_deref(), Some("10.13.13.5"));
    cfg.add_alias("computer", "10.13.13.6", true).unwrap();
    assert_eq!(cfg.alias_ip("computer").as_deref(), Some("10.13.13.6"));
    assert!(cfg.add_alias("bad name", "10.13.13.5", true).is_err());
    assert!(cfg.add_alias("ok", "not-an-ip", false).is_err());
    assert!(cfg.remove_alias("computer"));
    assert!(cfg.alias_ip("computer").is_none());
    assert_eq!(validate_alias(" NAS ").unwrap(), "nas");
}

#[test]
fn mesh_init_starts_empty() {
    let m = new_mesh();
    assert!(!m.mesh_id.is_empty());
    assert_eq!(m.crl.version, 0);
    assert!(m.members.is_empty());
    assert_eq!(m.root_seed().unwrap(), [2u8; 32]);
    assert_ne!(MeshConfig::generate_mesh_id(), MeshConfig::generate_mesh_id());
    assert!(m.verify_integrity(Ok(()), Ok(()), &vec![]).is_ok());
    assert_eq!(m.verify_integrity(Err("a".into()), Err("b".into()), &vec![]).unwrap_err(), "a");
    assert_eq!(m.verify_integrity(Ok(()), Err("b".into()), &vec![]).unwrap_err(), "b");
}

#[test]
fn invite_consume_once_and_expire() {
    let mut m = new_mesh();
    let code = m.create_invite(Some("10.13.13.50"), 600, NOW);
    assert!(code.starts_with("LMJ-"));
    assert_eq!(m.consume_invite(&code, NOW).unwrap().as_deref(), Some("10.13.13.50"));
    assert!(m.consume_invite(&code, NOW).is_err());
    assert!(m.consume_invite("LMJ-XXXX-XXXX-XXXX-XXXX", NOW).is_err());
    let mut m2 = new_mesh();
    let code2 = m2.create_invite(None, 1, NOW);
    m2.invites[0].expires_at = NOW - 10;
    assert!(m2.consume_invite(&code2, NOW).is_err());
}

#[test]
fn peek_invite_validates_without_consuming() {
    let mut m = new_mesh();
    let code = m.create_invite(Some("10.13.13.60"), 600, NOW);
    for _ in 0..3 {
        assert_eq!(m.peek_invite(&code, NOW).unwrap().as_deref(), Some("10.13.13.60"));
    }
    assert_eq!(
        m.invites.iter().find(|e| e.code_hash == MeshConfig::hash_code(&code)).unwrap().used,
        false
    );
    assert!(m.peek_invite("LMJ-XXXX-XXXX-XXXX-XXXX", NOW).is_err());
    m.invites[0].expires_at = NOW - 10;
    assert!(m.peek_invite(&code, NOW).is_err());
    let mut m3 = new_mesh();
    let code3 = m3.create_invite(None, 600, NOW);
    m3.consume_invite(&code3, NOW).unwrap();
    assert!(m3.peek_invite(&code3, NOW).is_err());
}

#[test]
fn a_used_code_stays_refused() {
    let mut m = new_mesh();
    let code = m.create_invite(Some("10.13.13.50"), 600, NOW);
    assert!(m.consume_invite(&code, NOW).is_ok());
    let other = m.create_invite(None, 600, NOW + 1);
    assert!(m.consume_invite(&code, NOW + 1).is_err());
    assert!(m.consume_invite(&other, NOW + 2).is_ok());
    let unbound = m.create_invite(Some(""), 600, NOW + 3);
    assert_eq!(m.peek_invite(&unbound, NOW + 3).unwrap(), None);
    m.create_invite(None, 600, NOW + 700);
    assert!(m.consume_invite(&code, NOW + 700).is_err());
    assert!(m.peek_invite(&code, NOW + 5000).is_err());
}

#[test]
fn hash_code_normalizes() {
    let a = MeshConfig::hash_code("LMJ-AB12-CD34-EF56-7890-AB12-CD34-EF56-7890");
    let b = MeshConfig::hash_code("lmj ab12 cd34 ef56 7890 ab12 cd34 ef56 7890");
    assert_eq!(a, b);
    assert_eq!(a.len(), 64);
}

#[test]
fn issue_cert_and_revoke() {
    let mut m = new_mesh();
    let id = "device-1";
    let cert = m.issue_cert("ik-x", "ik-s", "10.13.13.60", id, NOW).unwrap();
    assert_eq!(cert.device_id, id);
    assert_eq!(cert.allowed_ip, "10.13.13.60");
    assert!(cert.is_current(NOW));

    assert!(m.issue_cert("ik-x", "ik-s", "10.13.13.60", id, NOW).is_err());

    let used = m.members.iter().map(|x| x.cert.allowed_ip.as_str()).collect::<Vec<_>>();
    assert!(used.contains(&"10.13.13.60"));
    assert_eq!(revoke_target(&m, id).unwrap(), id);
    assert_eq!(revoke_target(&m, "ik-x").unwrap(), id);

    let crl = m.revoke(id, RevokeReason::Compromised, NOW).unwrap();
    assert_eq!(crl.version, 1);
    assert!(m.is_revoked(id));
    assert!(m.find_member(id).is_none());
    assert!(m.revoke(id, RevokeReason::Compromised, NOW).is_err());
    assert!(m.issue_cert("ik-x", "ik-s", "10.13.13.61", id, NOW).is_err());
    assert_eq!(revoke_target(&m, "ik-x").unwrap_err(), "未找到该设备（不在成员表或已吊销）");
    assert_eq!(
        crl_lines(&m.crl),
        vec![
            "吊销列表（CRL v1，共 1 条）:",
            "  device_id=device-1 reason=compromised revoked_at=1700000000",
        ]
    );
}

#[test]
fn allocate_ip_prefers_pool() {
    let mut m = new_mesh();
    let ip = m.allocate_ip(None).unwrap();
    assert_eq!(ip, "10.13.13.2");
    m.issue_cert("ik-x", "ik-s", &ip, "device-1", NOW).unwrap();
    assert_eq!(m.allocate_ip(None).unwrap(), "10.13.13.3");
}

#[test]
fn addresses_can_run_out() {
    let mut m = new_mesh();
    m.ip_pool = vec!["10.13.13.2".into()];
    m.issue_cert("ik-x", "ik-s", "", "device-1", NOW).unwrap();
    assert!(m.allocate_ip(None).is_err());
    assert_eq!(invite(&mut m, Some("10.13.13.2"), NOW).unwrap_err(), "虚拟 IP 10.13.13.2 不可用");
    let code = invite(&mut m, Some("10.13.13.99"), NOW).unwrap();
    assert_eq!(m.invites.last().unwrap().expires_at, NOW + INVITE_TTL_SECS);
    assert_eq!(m.peek_invite(&code, NOW).unwrap().as_deref(), Some("10.13.13.99"));
    // What is set aside by an invitation is not given to others.
    m.ip_pool.push("10.13.13.99".into());
    assert!(m.allocate_ip(None).is_err());
}

#[test]
fn members_are_found_by_name() {
    let mut m = new_mesh();
    m.issue_cert("ik-x", "ik-s", "10.13.13.60", "device-1", NOW).unwrap();
    assert!(m.member_by_alias("nas").is_none());
    m.set_member_alias("device-1", "nas");
    let found = m.member_by_alias("nas").unwrap();
    assert!(found.0 == "device-1" || found.1 == "device-1");
    assert!(m.find_by_ik_x("ik-x").is_some());
    assert!(m.find_by_ik_x("other").is_none());
}

#[test]
fn servers_are_started_on_a_port() {
    assert_eq!(start_port(&None).unwrap(), 8080);
    assert_eq!(start_port(&Some("9".into())).unwrap(), 9);
    assert_eq!(start_port(&Some("65536".into())).unwrap_err(), "端口必须为 1-65535 的整数");
    assert!(start_port(&Some("x".into())).is_err());
    assert!(start_port(&Some("0".into())).is_err());
    assert_eq!(start_port(&Some("65535".into())).unwrap(), 65535);
    let mut cfg = ServerConfig::default();
    assert_eq!(start(&mut cfg, 9).unwrap_err(), "尚未生成密钥对，请先执行 --genkey");
    assert!(mesh_init_check(&cfg, false).is_err());
    cfg.genkey(keys(), sign_keys()).unwrap();
    assert_eq!(start(&mut cfg, 9).unwrap(), "信令服务已启动，监听端口 9（中继默认同端口）");
    assert_eq!(cfg.listen, "0.0.0.0:9");
    assert!(mesh_init_check(&cfg, false).is_ok());
    assert_eq!(
        mesh_init_check(&cfg, true).unwrap_err(),
        "mesh.json 已存在（网格已初始化，如需重建请删除该文件）"
    );
    assert_eq!(relay_port(&cfg), None);
    cfg.relay.port = 7;
    assert_eq!(relay_port(&cfg), Some(7));
    cfg.relay.enabled = false;
    assert_eq!(relay_port(&cfg), None);
}

#[test]
fn reasons_have_words() {
    assert!(revoke_reason(None).unwrap() == RevokeReason::Compromised);
    for r in [
        RevokeReason::Compromised,
        RevokeReason::Leaked,
        RevokeReason::Rotated,
        RevokeReason::Admin,
        RevokeReason::Discontinued,
    ] {
        assert!(revoke_reason(Some(r.as_str())).unwrap() == r);
    }
    assert_eq!(revoke_reason(Some("tired")).unwrap_err(), "未知吊销原因 tired");
}

#[test]
fn server_commands_are_read() {
    let pos = |v: &[&str]| v.iter().map(|s| s.to_string()).collect::<Vec<String>>();
    assert!(matches!(read_command("crl", &pos(&[])), Ok(ServerCommand::Crl)));
    assert!(matches!(read_command("start", &pos(&[])), Ok(ServerCommand::Start { port: 8080 })));
    assert_eq!(read_command("add-room", &pos(&["a"])).unwrap_err(), "请指定房间令牌");
    assert_eq!(read_command("fly", &pos(&[])).unwrap_err(), "未知命令 fly，执行 --help 查看帮助");
}

#[test]
fn server_reports_are_exact() {
    let mut cfg = ServerConfig::default();
    assert_eq!(alias_lines(&cfg.aliases), vec!["别名表为空"]);
    assert_eq!(room_lines(&cfg.rooms).len(), 1);
    cfg.add_room("office", "abc-abc").unwrap();
    cfg.rooms[0].token_hash = "0123456789abcdef".into();
    cfg.add_alias("nas", "10.13.13.2", true).unwrap();
    assert_eq!(
        room_lines(&cfg.rooms),
        vec!["共 1 个房间（令牌以哈希存储）:", "  office  token_hash: 0123456789ab…"]
    );
    assert_eq!(alias_lines(&cfg.aliases), vec!["共 1 个别名:", "  nas -> 10.13.13.2"]);
    assert_eq!(route_lines(&vec![]), vec!["路由表为空，暂无在线客户端"]);
    let route = RouteReport {
        public_key: "k".into(),
        ip: "10.13.13.2".into(),
        endpoint: "1.2.3.4:5".into(),
        room: None,
        alias: "nas".into(),
    };
    assert_eq!(
        route_lines(&vec![route]),
        vec![
            "共 1 个在线客户端:",
            "  公钥: k  虚拟IP: 10.13.13.2  Endpoint: 1.2.3.4:5  房间: default  别名: nas",
        ]
    );
    let status = StatusReport {
        online_clients: 2,
        relay_enabled: true,
        server_public_key: "k".into(),
        packets_in: 3,
        packets_out: 4,
        bytes_relayed: 50,
    };
    assert_eq!(
        status_lines(&status),
        vec!["在线客户端: 2", "中继: 启用", "服务端公钥: k", "收/发包: 3/4，中继字节: 50"]
    );
}
