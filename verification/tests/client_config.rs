//! The client's configuration, its names, and the commands that change it.
use linkmesh::cert::{DeviceCert, KeyPair, SignKeyPair};
use linkmesh::client::aliases::Aliases;
use linkmesh::client::commands::{
    clear_connections, connect_check, connect_commit, del_alias, del_vmnic, drop_connection,
    new_server, new_vmnic, normalize_endpoint, read_command, read_trust, set_alias, ClientCommand,
};
use linkmesh::client::config::{
    normalize_alias, ClientConfig, ConfigFacts, ConnectionEntry, DeviceIdentity, ServerEntry,
    VmNicConfig, DEFAULT_CONTROL_PORT,
};
use linkmesh::client::connection::PeerState;
use linkmesh::client::joining::{
    accept_join, check_root, choose_token, join_body, join_check, join_result,
};
use linkmesh::client::report::{alias_lines, cache_lines, config_lines, status_lines, ConnReport};
use linkmesh::net::parse_ipv4;
use linkmesh::protocol::{ResponseBody, ResponseData};

fn identity() -> DeviceIdentity {
    DeviceIdentity {
        ik_x: KeyPair { public: [1u8; 32], private: [2u8; 32] },
        ik_s: SignKeyPair { public: "sign-pub".into(), private: "sign-priv".into() },
        device_id: "device-1".into(),
        fingerprint: "fp-1".into(),
    }
}

fn cert() -> DeviceCert {
    DeviceCert {
        mesh_id: "m".into(),
        serial: 1,
        device_id: "device-1".into(),
        ik_x: "x".into(),
        ik_s_pub: "s".into(),
        allowed_ip: "10.13.13.2".into(),
        valid_from: 0,
        not_after: 100,
        signature: None,
    }
}

/// What the addresses of a configuration are, read as the program reads them.
fn facts(cfg: &ClientConfig) -> ConfigFacts {
    let is_ip = |s: &str| parse_ipv4(s).is_some();
    ConfigFacts {
        nic_ips: cfg.vm_nics.iter().map(|n| is_ip(&n.ip)).collect(),
        endpoints: cfg
            .servers
            .iter()
            .map(|s| match s.endpoint.split_once(':') {
                Some((ip, port)) => is_ip(ip) && port.parse::<u16>().is_ok(),
                None => false,
            })
            .collect(),
        public_keys: cfg.servers.iter().map(|_| true).collect(),
        alias_ips: (0..cfg.aliases.len()).map(|i| is_ip(cfg.aliases.ip_at(i))).collect(),
    }
}

#[test]
fn config_genkey_twice_errors() {
    let mut cfg = ClientConfig::default();
    assert!(cfg.identity.is_none());
    assert!(cfg.genkey(identity()).is_ok());
    assert!(cfg.identity.is_some());
    assert!(cfg.genkey(identity()).is_err(), "已有身份再次生成必须报错");
}

#[test]
fn default_values() {
    let cfg = ClientConfig::default();
    assert_eq!(cfg.control_port, DEFAULT_CONTROL_PORT);
    assert!(cfg.hole_punch.timeout_ms > 0);
    assert!(cfg.vm_nics.is_empty());
    assert!(cfg.servers.is_empty());
    assert!(cfg.connections.is_empty());
}

#[test]
fn add_and_find() {
    let mut cfg = ClientConfig::default();
    cfg.vm_nics.push(VmNicConfig::new("linkmesh0".into(), "10.13.13.1".into()));
    cfg.servers.push(ServerEntry::new("s".into(), "1.2.3.4:8080".into()));
    cfg.connections.push(ConnectionEntry { server: "s".into(), vm_nic: "linkmesh0".into() });
    assert!(cfg.find_vmnic("linkmesh0").is_some());
    assert!(cfg.find_vmnic("nope").is_none());
    assert!(cfg.find_server("s").is_some());
    assert!(cfg.find_connection("s").is_some());
}

#[test]
fn validate_rejects_bad_ip() {
    let mut cfg = ClientConfig::default();
    let nic = VmNicConfig::new("linkmesh0".into(), "not-an-ip".into());
    cfg.vm_nics.push(nic);
    cfg.servers.push(ServerEntry::new("s".into(), "1.2.3.4:8080".into()));
    assert!(cfg.validate(&facts(&cfg)).is_err(), "非法 IP 必须报错");
}

#[test]
fn validate_accepts_empty_ip_placeholder() {
    let mut cfg = ClientConfig::default();
    let nic = VmNicConfig::new("linkmesh0".into(), String::new());
    cfg.vm_nics.push(nic);
    cfg.servers.push(ServerEntry::new("s".into(), "1.2.3.4:8080".into()));
    assert!(
        cfg.validate(&facts(&cfg)).is_ok(),
        "空 IP 占位应合法（mesh 认证后由服务端下发）"
    );
}

#[test]
fn validate_rejects_duplicate_names_and_dangling_refs() {
    let mut cfg = ClientConfig::default();
    cfg.vm_nics.push(VmNicConfig::new("a".into(), "10.13.13.2".into()));
    cfg.vm_nics.push(VmNicConfig::new("a".into(), "10.13.13.3".into()));
    assert!(cfg.validate(&facts(&cfg)).is_err(), "重复网卡名必须报错");

    let mut cfg2 = ClientConfig::default();
    cfg2.vm_nics.push(VmNicConfig::new("a".into(), "10.13.13.2".into()));
    cfg2.servers.push(ServerEntry::new("s".into(), "1.2.3.4:8080".into()));
    cfg2.connections.push(ConnectionEntry { server: "ghost".into(), vm_nic: "a".into() });
    assert!(cfg2.validate(&facts(&cfg2)).is_err(), "悬空连接引用必须报错");
}

#[test]
fn validate_rejects_hole_punching_without_bounds() {
    let zero: [fn(&mut ClientConfig); 4] = [
        |c| c.hole_punch.timeout_ms = 0,
        |c| c.hole_punch.interval_ms = 0,
        |c| c.hole_punch.max_retries = 0,
        |c| c.hole_punch.max_errors = 0,
    ];
    let names = ["timeout_ms", "interval_ms", "max_retries", "max_errors"];
    for (change, name) in zero.iter().zip(names) {
        let mut cfg = ClientConfig::default();
        assert!(cfg.validate(&facts(&cfg)).is_ok());
        change(&mut cfg);
        assert_eq!(
            cfg.validate(&facts(&cfg)).unwrap_err(),
            format!("hole_punch.{name} 必须大于 0")
        );
    }
}

#[test]
fn new_fields_defaults() {
    let cfg = ClientConfig::default();
    assert_eq!(cfg.reconnect_secs, 5);
    assert!(cfg.aliases.is_empty());
    assert!(cfg.dns.enabled);
    assert_eq!(cfg.dns.port, 5353);
    let mut cfg2 = ClientConfig::default();
    cfg2.aliases.insert("computer".to_string(), "10.13.13.5".to_string());
    assert_eq!(cfg2.aliases.get("computer").map(String::as_str), Some("10.13.13.5"));
}

#[test]
fn alias_normalization() {
    assert_eq!(normalize_alias("Computer").unwrap(), "computer");
    assert_eq!(normalize_alias("my-nas_2").unwrap(), "my-nas_2");
    assert!(normalize_alias("bad name").is_err());
    assert!(normalize_alias("").is_err());
    assert!(normalize_alias(&"x".repeat(40)).is_err());
}

#[test]
fn names_are_trimmed_and_stable() {
    let once = normalize_alias("  NAS-1 ").unwrap();
    assert_eq!(once, "nas-1");
    assert_eq!(normalize_alias(&once).unwrap(), once);
    // Letters beyond ASCII become lower case too, and are no part of a name.
    assert!(normalize_alias("ÄPFEL").unwrap_err().contains("äpfel"));
}

#[test]
fn aliases_stay_sorted() {
    let mut a = Aliases::new();
    a.insert("nas".into(), "10.0.0.1".into());
    a.insert("computer".into(), "10.0.0.2".into());
    a.insert("nas".into(), "10.0.0.3".into());
    a.insert("n".into(), "10.0.0.2".into());
    let names: Vec<&str> = (0..a.len()).map(|i| a.name_at(i).as_str()).collect();
    assert_eq!(names, vec!["computer", "n", "nas"]);
    assert_eq!(a.get("nas").unwrap(), "10.0.0.3");
    assert_eq!(a.name_for("10.0.0.2").as_deref(), Some("computer"));
    assert!(a.remove("n"));
    assert!(!a.remove("n"));
    assert_eq!(a.len(), 2);
}

#[test]
fn interfaces_come_and_go() {
    let mut cfg = ClientConfig::default();
    let said = new_vmnic(&mut cfg, "lm0", None, true).unwrap();
    assert!(said.contains("10.13.13.1"));
    assert_eq!(cfg.vm_nics[0].ip, "10.13.13.1");
    assert_eq!(cfg.vm_nics[0].mtu, 1280);
    assert_eq!(new_vmnic(&mut cfg, "lm0", None, true).unwrap_err(), "虚拟网卡 lm0 已存在");
    assert_eq!(new_vmnic(&mut cfg, "lm1", Some("x"), false).unwrap_err(), "虚拟 IP x 非法");
    assert!(new_vmnic(&mut cfg, "lm1", Some(""), false).is_ok());
    cfg.connections.push(ConnectionEntry { server: "s".into(), vm_nic: "lm0".into() });
    cfg.connections.push(ConnectionEntry { server: "t".into(), vm_nic: "lm1".into() });
    assert_eq!(del_vmnic(&mut cfg, "lm0").unwrap(), vec!["s".to_string()]);
    assert_eq!(cfg.vm_nics.len(), 1);
    assert_eq!(cfg.connections.len(), 1);
    assert_eq!(del_vmnic(&mut cfg, "lm0").unwrap_err(), "虚拟网卡 lm0 不存在");
}

#[test]
fn servers_are_saved_and_removed() {
    assert_eq!(normalize_endpoint("1.2.3.4"), "1.2.3.4:8080");
    assert_eq!(normalize_endpoint("1.2.3.4:9"), "1.2.3.4:9");
    let mut cfg = ClientConfig::default();
    assert_eq!(new_server(&mut cfg, "1.2.3.4", "s"), "已保存服务器 s -> 1.2.3.4:8080");
    assert_eq!(new_server(&mut cfg, "5.6.7.8:1", "s"), "已保存服务器 s -> 5.6.7.8:1");
    assert_eq!(cfg.servers.len(), 1);
    cfg.servers.push(ServerEntry::new("t".into(), "5.6.7.8:1".into()));
    assert_eq!(new_server(&mut cfg, "5.6.7.8:1", ""), "已删除服务器 s, t");
    assert!(cfg.servers.is_empty());
    new_server(&mut cfg, "1.2.3.4", "s");
    assert_eq!(new_server(&mut cfg, "1.2.3.4", ""), "已删除服务器 s");
    assert!(cfg.servers.is_empty());
}

#[test]
fn local_names_are_changed() {
    let mut cfg = ClientConfig::default();
    assert!(set_alias(&mut cfg, "Computer", " 10.13.13.5 ", true).is_ok());
    assert_eq!(cfg.aliases.get("computer").unwrap(), "10.13.13.5");
    assert_eq!(set_alias(&mut cfg, "ok", "a\"b", false).unwrap_err(), "虚拟 IP \"a\\\"b\" 非法");
    assert!(set_alias(&mut cfg, "bad name", "10.0.0.1", true).is_err());
    assert_eq!(del_alias(&mut cfg, "computer").unwrap(), "已删除本地别名 computer");
    assert_eq!(del_alias(&mut cfg, "computer").unwrap_err(), "别名 computer 不存在");
}

#[test]
fn connecting_needs_the_mesh() {
    let mut cfg = ClientConfig::default();
    assert_eq!(connect_check(&cfg, "s", "n", &facts(&cfg)).unwrap_err(), "服务器 s 未配置");
    cfg.servers.push(ServerEntry::new("s".into(), "1.2.3.4:8080".into()));
    assert_eq!(connect_check(&cfg, "s", "n", &facts(&cfg)).unwrap_err(), "虚拟网卡 n 未配置");
    cfg.vm_nics.push(VmNicConfig::new("n".into(), "10.13.13.1".into()));
    assert!(connect_check(&cfg, "s", "n", &facts(&cfg)).unwrap_err().contains("尚未加入网格"));
    cfg.servers[0].mesh_root_pub = Some("root".into());
    cfg.servers[0].device_cert = Some(cert());
    assert!(connect_check(&cfg, "s", "n", &facts(&cfg)).is_ok());
    connect_commit(&mut cfg, "s", "n", Some("  tok-1 "));
    connect_commit(&mut cfg, "s", "n", Some("   "));
    assert_eq!(cfg.connections.len(), 1);
    assert_eq!(cfg.servers[0].token.as_deref(), Some("tok-1"));
    drop_connection(&mut cfg, "s");
    assert!(cfg.connections.is_empty());
    assert!(!clear_connections(&mut cfg));
    connect_commit(&mut cfg, "s", "n", None);
    assert!(clear_connections(&mut cfg));
    assert!(cfg.connections.is_empty());
}

#[test]
fn joining_keeps_the_certificate() {
    let mut cfg = ClientConfig::default();
    assert_eq!(join_check(&cfg, "s", "n").unwrap_err(), "虚拟网卡 n 未配置，请先 --newvmnic");
    cfg.vm_nics.push(VmNicConfig::new("n".into(), "10.13.13.1".into()));
    assert_eq!(join_check(&cfg, "s", "n").unwrap_err(), "尚未生成设备身份，请先执行 --genkey");
    assert!(join_body(&cfg, "n", "LMJ-1", None).is_err());
    cfg.genkey(identity()).unwrap();
    assert_eq!(join_check(&cfg, "s", "n").unwrap_err(), "服务器 s 未配置");
    cfg.servers.push(ServerEntry::new("s".into(), "1.2.3.4:8080".into()));
    cfg.servers[0].token = Some("saved".into());
    assert!(join_check(&cfg, "s", "n").is_ok());
    assert_eq!(choose_token(Some(" "), &cfg.servers[0]).as_deref(), Some("saved"));
    assert_eq!(choose_token(Some(" given "), &cfg.servers[0]).as_deref(), Some("given"));

    cfg.aliases.insert("me".into(), "10.13.13.1".into());
    let jb = join_body(&cfg, "n", "LMJ-1", Some("t".into())).unwrap();
    assert_eq!(jb.code, "LMJ-1");
    assert_eq!(jb.device_id, "device-1");
    assert_eq!(jb.ik_x, "AQEBAQEBAQEBAQEBAQEBAQEBAQEBAQEBAQEBAQEBAQE=");
    assert_eq!(jb.ik_s_pub, "sign-pub");
    assert_eq!(jb.alias.as_deref(), Some("me"));
    assert_eq!(jb.token.as_deref(), Some("t"));
    assert!(jb.requested_ip.is_none());

    accept_join(&mut cfg, "s", "n", "root", "key", 7, cert(), "10.13.13.9", None);
    let s = cfg.find_server("s").unwrap();
    assert_eq!(s.mesh_root_pub.as_deref(), Some("root"));
    assert_eq!(s.public_key.as_deref(), Some("key"));
    assert_eq!(s.crl_version, Some(7));
    assert_eq!(s.token.as_deref(), Some("saved"));
    assert!(s.is_joined());
    assert_eq!(cfg.find_vmnic("n").unwrap().ip, "10.13.13.9");
    assert_eq!(join_check(&cfg, "s", "n").unwrap_err(), "已加入服务器 s 的网格，无需重复加入");
}

#[test]
fn another_root_is_not_trusted() {
    assert!(check_root("s", true, None, "root").is_ok());
    assert!(check_root("s", true, Some("root"), "root").is_ok());
    assert!(check_root("s", true, Some("other"), "root").unwrap_err().contains("不一致"));
    assert_eq!(
        check_root("s", false, Some("root"), "root").unwrap_err(),
        "已拒绝信任网格 s 的根指纹，未加入"
    );
    assert_eq!(read_trust(" YES \n"), Some(true));
    assert_eq!(read_trust("y"), Some(true));
    assert_eq!(read_trust("\n"), Some(false));
    assert_eq!(read_trust("No"), Some(false));
    assert_eq!(read_trust("maybe"), None);
}

#[test]
fn answers_to_a_join_are_read() {
    assert_eq!(join_result(&ResponseBody::err("no")).unwrap_err(), "no");
    let silent = ResponseBody { ok: false, data: ResponseData::Empty, error: None };
    assert_eq!(join_result(&silent).unwrap_err(), "加入失败");
    assert_eq!(join_result(&ResponseBody::ok()).unwrap_err(), "加入响应缺少证书");
}

#[test]
fn commands_are_read() {
    let pos = |v: &[&str]| v.iter().map(|s| s.to_string()).collect::<Vec<String>>();
    let none: Option<String> = None;
    assert!(matches!(read_command("list", &pos(&[]), &none), Ok(ClientCommand::List)));
    assert_eq!(read_command("join", &pos(&[]), &none).unwrap_err(), "请指定服务器名称");
    assert_eq!(read_command("join", &pos(&["s"]), &none).unwrap_err(), "请指定虚拟网卡名称");
    assert_eq!(
        read_command("join", &pos(&["s", "n"]), &none).unwrap_err(),
        "请用 --code LMJ-... 指定管理员签发的加入码"
    );
    match read_command("join", &pos(&["s", "n"]), &Some("LMJ-1".to_string())).unwrap() {
        ClientCommand::Join { server, nic, code } => {
            assert_eq!((server.as_str(), nic.as_str(), code.as_str()), ("s", "n", "LMJ-1"));
        }
        _ => panic!("join is join"),
    }
    assert!(matches!(
        read_command("resolve", &pos(&["nas"]), &none),
        Ok(ClientCommand::Resolve { cache: false, .. })
    ));
    assert!(matches!(
        read_command("resolve", &pos(&["nas", "--dns-cache"]), &none),
        Ok(ClientCommand::Resolve { cache: true, .. })
    ));
    assert!(matches!(
        read_command("log", &pos(&["-1"]), &none),
        Ok(ClientCommand::Log { lines: 50 })
    ));
    assert!(matches!(read_command("log", &pos(&["7"]), &none), Ok(ClientCommand::Log { lines: 7 })));
    assert_eq!(
        read_command("fly", &pos(&[]), &none).unwrap_err(),
        "未知命令 fly，执行 --help 查看帮助"
    );
}

#[test]
fn reports_are_exact() {
    let mut cfg = ClientConfig::default();
    cfg.servers.push(ServerEntry::new("s".into(), "1.2.3.4:8080".into()));
    cfg.servers[0].relay.enabled = false;
    cfg.vm_nics.push(VmNicConfig::new("n".into(), "10.13.13.1".into()));
    cfg.connections.push(ConnectionEntry { server: "s".into(), vm_nic: "n".into() });
    cfg.aliases.insert("me".into(), "10.13.13.1".into());
    assert_eq!(
        config_lines(&cfg, "client.json"),
        vec![
            "配置文件: client.json",
            "已配置服务器:",
            "  s -> 1.2.3.4:8080  (公钥: 未获取)  中继: 关闭  房间令牌: 未配置",
            "虚拟网卡:",
            "  n (10.13.13.1/255.255.255.0) MTU 1280",
            "连接:",
            "  s <-> n",
            "本地别名:",
            "  me -> 10.13.13.1",
            "自动重连: 开启（reconnect_secs=5）",
            "内嵌 DNS: udp 127.0.0.1:5353",
        ]
    );
    assert_eq!(alias_lines(&cfg.aliases).len(), 3);
    assert_eq!(alias_lines(&Aliases::new()).len(), 1);
    assert_eq!(
        cache_lines(&cfg.aliases),
        vec!["已缓存映射（共 1 条）:", "  me -> 10.13.13.1"]
    );

    let item = ConnReport {
        server: "s".into(),
        vmnic: "n".into(),
        status: "已连接".into(),
        error: Some(String::new()),
        rx_bytes: 5,
        tx_bytes: 10,
        peers: vec![PeerState {
            ip: "10.13.13.2".into(),
            endpoint: "9.9.9.9:1".into(),
            transport: "直连".into(),
        }],
    };
    let items = vec![item];
    assert_eq!(
        status_lines(&items, None),
        vec![
            "连接: s (网卡 n)  状态: 已连接  收/发: 5/10 字节",
            "  对端:",
            "    IP 10.13.13.2  Endpoint 9.9.9.9:1  传输: 直连",
        ]
    );
    assert_eq!(status_lines(&items, Some("t")), vec!["没有匹配的运行中连接"]);
}
