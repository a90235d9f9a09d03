//! The commands of the server's command line.
use vstd::prelude::*;
use vstd::string::*;
use crate::cli::{lines_of, log_lines, opt_at, optional, required, unknown_command};
use crate::cert::{Crl, CrlEntry, RevokeReason};
use crate::server::config::{AliasEntry, RoomEntry, ServerConfig};
use crate::server::control::{short_digest, shorten};
use crate::server::mesh::{
    code_digest, first_free, invite_code, is_member, key_at, has_key, member_at, is_set_aside,
    still_open, taken, MeshConfig, INVITE_TTL_SECS,
};
use crate::text::{
    numbers_are_read_back, decimal, join2, join3, parse_number, parsed_number, push_decimal, same,
    say, texts, trimmed,
};

verus! {

/// The port to listen on: 8080 where none is given; nothing where the text is no port.
pub open spec fn port_of(given: Option<String>) -> Option<u16> {
    match given {
        Some(t) => match parsed_number(t@, 65535) {
            Some(n) => if n > 0 {
                Some(n as u16)
            } else {
                None
            },
            None => None,
        },
        None => Some(8080),
    }
}

/// The port to listen on.
pub fn start_port(given: &Option<String>) -> (r: Result<u16, String>)
    ensures
        match port_of(*given) {
            Some(p) => r is Ok && r->Ok_0 == p,
            None => r is Err && r->Err_0@ == "端口必须为 1-65535 的整数"@,
        },
{
    match given {
        Some(t) => match parse_number(t.as_str(), 65535) {
            Some(n) => if n > 0 {
                Ok(n as u16)
            } else {
                Err("端口必须为 1-65535 的整数".to_owned())
            },
            None => Err("端口必须为 1-65535 的整数".to_owned()),
        },
        None => Ok(8080),
    }
}

/// A command of the server, with its arguments.
#[derive(Debug, Clone)]
pub enum ServerCommand {
    Version,
    Help { topic: Option<String> },
    Genkey,
    ShowPubkey,
    AddRoom { name: String, token: String },
    RemoveRoom { name: String },
    Rooms,
    Alias { name: String, ip: String },
    AliasDel { name: String },
    AliasList,
    MeshInit,
    Invite,
    Issue { ik_x: String, ik_s: String },
    Revoke { target: String },
    Crl,
    ShowFingerprint,
    Start { port: u16 },
    Stop,
    List,
    DelPeer { key: String },
    Status,
    Log { lines: usize },
    Run,
}

/// What the words of a command line ask for, or what is wrong with them.
pub open spec fn command_of(cmd: Seq<char>, pos: Seq<String>) -> Result<
    ServerCommand,
    Seq<char>,
> {
    if cmd == "version"@ {
        Ok(ServerCommand::Version)
    } else if cmd == "help"@ {
        Ok(ServerCommand::Help { topic: opt_at(pos, 0) })
    } else if cmd == "genkey"@ {
        Ok(ServerCommand::Genkey)
    } else if cmd == "showpubkey"@ {
        Ok(ServerCommand::ShowPubkey)
    } else if cmd == "add-room"@ {
        if pos.len() == 0 {
            Err("请指定房间名"@)
        } else if pos.len() <= 1 {
            Err("请指定房间令牌"@)
        } else {
            Ok(ServerCommand::AddRoom { name: pos[0], token: pos[1] })
        }
    } else if cmd == "remove-room"@ {
        if pos.len() == 0 {
            Err("请指定房间名"@)
        } else {
            Ok(ServerCommand::RemoveRoom { name: pos[0] })
        }
    } else if cmd == "rooms"@ {
        Ok(ServerCommand::Rooms)
    } else if cmd == "alias"@ {
        if pos.len() == 0 {
            Err("请指定别名（如 computer）"@)
        } else if pos.len() <= 1 {
            Err("请指定目标虚拟 IP"@)
        } else {
            Ok(ServerCommand::Alias { name: pos[0], ip: pos[1] })
        }
    } else if cmd == "alias-del"@ {
        if pos.len() == 0 {
            Err("请指定别名"@)
        } else {
            Ok(ServerCommand::AliasDel { name: pos[0] })
        }
    } else if cmd == "alias-list"@ {
        Ok(ServerCommand::AliasList)
    } else if cmd == "mesh-init"@ {
        Ok(ServerCommand::MeshInit)
    } else if cmd == "invite"@ {
        Ok(ServerCommand::Invite)
    } else if cmd == "issue"@ {
        if pos.len() == 0 {
            Err("请指定设备 X25519 公钥（ik_x，来自 --showpubkey）"@)
        } else if pos.len() <= 1 {
            Err("请指定设备 Ed25519 签名公钥（ik_s）"@)
        } else {
            Ok(ServerCommand::Issue { ik_x: pos[0], ik_s: pos[1] })
        }
    } else if cmd == "revoke"@ {
        if pos.len() == 0 {
            Err("请指定 device_id 或 X25519 公钥"@)
        } else {
            Ok(ServerCommand::Revoke { target: pos[0] })
        }
    } else if cmd == "crl"@ {
        Ok(ServerCommand::Crl)
    } else if cmd == "show-fingerprint"@ {
        Ok(ServerCommand::ShowFingerprint)
    } else if cmd == "start"@ {
        match port_of(opt_at(pos, 0)) {
            Some(p) => Ok(ServerCommand::Start { port: p }),
            None => Err("端口必须为 1-65535 的整数"@),
        }
    } else if cmd == "stop"@ {
        Ok(ServerCommand::Stop)
    } else if cmd == "list"@ {
        Ok(ServerCommand::List)
    } else if cmd == "delpeer"@ {
        if pos.len() == 0 {
            Err("请指定要删除的公钥"@)
        } else {
            Ok(ServerCommand::DelPeer { key: pos[0] })
        }
    } else if cmd == "status"@ {
        Ok(ServerCommand::Status)
    } else if cmd == "log"@ {
        Ok(ServerCommand::Log { lines: lines_of(opt_at(pos, 0)) })
    } else if cmd == "run"@ {
        Ok(ServerCommand::Run)
    } else {
        Err("未知命令 "@ + cmd + "，执行 --help 查看帮助"@)
    }
}

/// Reads the words of a command line.
pub fn read_command(cmd: &str, positionals: &Vec<String>) -> (r: Result<
    ServerCommand,
    String,
>)
    ensures
        match (r, command_of(cmd@, positionals@)) {
            (Ok(a), Ok(b)) => a == b,
            (Err(a), Err(b)) => a@ == b,
            _ => false,
        },
{
    if same(cmd, "version") {
        Ok(ServerCommand::Version)
    } else if same(cmd, "help") {
        Ok(ServerCommand::Help { topic: optional(positionals, 0) })
    } else if same(cmd, "genkey") {
        Ok(ServerCommand::Genkey)
    } else if same(cmd, "showpubkey") {
        Ok(ServerCommand::ShowPubkey)
    } else if same(cmd, "add-room") {
        let name = match required(positionals, 0, "请指定房间名") {
            Ok(v) => v,
            Err(e) => {
                return Err(e);
            },
        };
        let token = match required(positionals, 1, "请指定房间令牌") {
            Ok(v) => v,
            Err(e) => {
                return Err(e);
            },
        };
        Ok(ServerCommand::AddRoom { name, token })
    } else if same(cmd, "remove-room") {
        let name = match required(positionals, 0, "请指定房间名") {
            Ok(v) => v,
            Err(e) => {
                return Err(e);
            },
        };
        Ok(ServerCommand::RemoveRoom { name })
    } else if same(cmd, "rooms") {
        Ok(ServerCommand::Rooms)
    } else if same(cmd, "alias") {
        let name = match required(positionals, 0, "请指定别名（如 computer）") {
            Ok(v) => v,
            Err(e) => {
                return Err(e);
            },
        };
        let ip = match required(positionals, 1, "请指定目标虚拟 IP") {
            Ok(v) => v,
            Err(e) => {
                return Err(e);
            },
        };
        Ok(ServerCommand::Alias { name, ip })
    } else if same(cmd, "alias-del") {
        let name = match required(positionals, 0, "请指定别名") {
            Ok(v) => v,
            Err(e) => {
                return Err(e);
            },
        };
        Ok(ServerCommand::AliasDel { name })
    } else if same(cmd, "alias-list") {
        Ok(ServerCommand::AliasList)
    } else if same(cmd, "mesh-init") {
        Ok(ServerCommand::MeshInit)
    } else if same(cmd, "invite") {
        Ok(ServerCommand::Invite)
    } else if same(cmd, "issue") {
        let ik_x = match required(positionals, 0, "请指定设备 X25519 公钥（ik_x，来自 --showpubkey）") {
            Ok(v) => v,
            Err(e) => {
                return Err(e);
            },
        };
        let ik_s = match required(positionals, 1, "请指定设备 Ed25519 签名公钥（ik_s）") {
            Ok(v) => v,
            Err(e) => {
                return Err(e);
            },
        };
        Ok(ServerCommand::Issue { ik_x, ik_s })
    } else if same(cmd, "revoke") {
        let target = match required(positionals, 0, "请指定 device_id 或 X25519 公钥") {
            Ok(v) => v,
            Err(e) => {
                return Err(e);
            },
        };
        Ok(ServerCommand::Revoke { target })
    } else if same(cmd, "crl") {
        Ok(ServerCommand::Crl)
    } else if same(cmd, "show-fingerprint") {
        Ok(ServerCommand::ShowFingerprint)
    } else if same(cmd, "start") {
        match start_port(&optional(positionals, 0)) {
            Ok(port) => Ok(ServerCommand::Start { port }),
            Err(e) => Err(e),
        }
    } else if same(cmd, "stop") {
        Ok(ServerCommand::Stop)
    } else if same(cmd, "list") {
        Ok(ServerCommand::List)
    } else if same(cmd, "delpeer") {
        let key = match required(positionals, 0, "请指定要删除的公钥") {
            Ok(v) => v,
            Err(e) => {
                return Err(e);
            },
        };
        Ok(ServerCommand::DelPeer { key })
    } else if same(cmd, "status") {
        Ok(ServerCommand::Status)
    } else if same(cmd, "log") {
        Ok(ServerCommand::Log { lines: log_lines(&optional(positionals, 0)) })
    } else if same(cmd, "run") {
        Ok(ServerCommand::Run)
    } else {
        Err(unknown_command(cmd))
    }
}

/// Prepares the configuration for a server on a port.
pub fn start(cfg: &mut ServerConfig, port: u16) -> (r: Result<String, String>)
    ensures
        match r {
            Ok(t) => {
                &&& old(cfg).keypair is Some
                &&& t@ == "信令服务已启动，监听端口 "@ + decimal(port as nat) + "（中继默认同端口）"@
                &&& final(cfg).listen@ == "0.0.0.0:"@ + decimal(port as nat)
                &&& *final(cfg) == (ServerConfig { listen: final(cfg).listen, ..*old(cfg) })
            },
            Err(e) => {
                &&& old(cfg).keypair is None
                &&& e@ == "尚未生成密钥对，请先执行 --genkey"@
                &&& *final(cfg) == *old(cfg)
            },
        },
{
    if cfg.keypair.is_none() {
        return Err("尚未生成密钥对，请先执行 --genkey".to_owned());
    }
    let mut listen = "0.0.0.0:".to_owned();
    push_decimal(&mut listen, port as u64);
    cfg.listen = listen;
    let mut t = "信令服务已启动，监听端口 ".to_owned();
    push_decimal(&mut t, port as u64);
    t.append("（中继默认同端口）");
    Ok(t)
}

/// The port that only relays, where there is one.
pub fn relay_port(cfg: &ServerConfig) -> (r: Option<u16>)
    ensures
        r == if cfg.relay.enabled && cfg.relay.port != 0 {
            Some(cfg.relay.port)
        } else {
            None
        },
{
    if cfg.relay.enabled && cfg.relay.port != 0 {
        Some(cfg.relay.port)
    } else {
        None
    }
}

/// Checks whether a mesh may be set up. `exists_already` says whether there is one already.
pub fn mesh_init_check(cfg: &ServerConfig, exists_already: bool) -> (r: Result<(), String>)
    ensures
        if cfg.keypair is None {
            r is Err && r->Err_0@ == "尚未生成服务端密钥对，请先执行 --genkey"@
        } else if exists_already {
            r is Err && r->Err_0@ == cfg.mesh_path@
                + " 已存在（网格已初始化，如需重建请删除该文件）"@
        } else {
            r is Ok
        },
{
    if cfg.keypair.is_none() {
        return Err("尚未生成服务端密钥对，请先执行 --genkey".to_owned());
    }
    if exists_already {
        return Err(
            join2(
                cfg.mesh_path.as_str(),
                " 已存在（网格已初始化，如需重建请删除该文件）",
            ),
        );
    }
    Ok(())
}

/// Whether an address can be set aside for an invitation: it is free, or there is at
/// least another one to give.
pub open spec fn can_allocate(mesh: &MeshConfig, ip: Seq<char>) -> bool {
    ||| trimmed(ip).len() > 0 && !taken(mesh, -1, trimmed(ip))
    ||| exists|j: int| 0 <= j < mesh.ip_pool@.len() && !taken(mesh, -1, #[trigger] mesh.ip_pool@[j]@)
}

fn allocatable(mesh: &MeshConfig, ip: &str) -> (r: bool)
    ensures
        r == can_allocate(mesh, ip@),
{
    match mesh.allocate_ip(Some(ip)) {
        Ok(got) => {
            proof {
                if !(trimmed(ip@).len() > 0 && !taken(mesh, -1, trimmed(ip@))) {
                    let k = choose|k: int|
                        #[trigger] first_free(mesh, -1, k) && got@ == mesh.ip_pool@[k]@;
                    assert(!taken(mesh, -1, mesh.ip_pool@[k]@));
                }
            }
            true
        },
        Err(_) => false,
    }
}

/// Makes out an invitation, where its address can be had.
pub fn invite(mesh: &mut MeshConfig, ip: Option<&str>, now: u64) -> (r: Result<String, String>)
    requires
        now <= u64::MAX - INVITE_TTL_SECS,
    ensures
        match r {
            Ok(code) => {
                &&& ip is Some ==> can_allocate(old(mesh), ip->0@)
                &&& exists|bytes: Seq<u8>| bytes.len() == 16 && code@ == invite_code(bytes)
                &&& final(mesh).invites@.len() > 0
                &&& final(mesh).invites@.drop_last() == old(mesh).invites@.filter(still_open(now))
                &&& ({
                    let e = final(mesh).invites@.last();
                    &&& e.code_hash@ == code_digest(code@)
                    &&& e.expires_at == now + INVITE_TTL_SECS == now + 10 * 60
                    &&& !e.used
                    &&& is_set_aside(ip, e.ip)
                })
                &&& *final(mesh) == (MeshConfig { invites: final(mesh).invites, ..*old(mesh) })
            },
            Err(e) => {
                &&& ip is Some && !can_allocate(old(mesh), ip->0@)
                &&& e@ == "虚拟 IP "@ + ip->0@ + " 不可用"@
                &&& *final(mesh) == *old(mesh)
            },
        },
{
    if let Some(a) = ip {
        if !allocatable(mesh, a) {
            return Err(join3("虚拟 IP ", a, " 不可用"));
        }
    }
    let code = mesh.create_invite(ip, INVITE_TTL_SECS, now);
    Ok(code)
}

/// The reason for a revocation: that the device was compromised, where none is given.
pub fn revoke_reason(given: Option<&str>) -> (r: Result<RevokeReason, String>)
    ensures
        match given {
            None => r == Ok::<RevokeReason, String>(RevokeReason::Compromised),
            Some(w) => match r {
                Ok(x) => x.word() == w@,
                Err(e) => {
                    &&& forall|x: RevokeReason| (#[trigger] x.word()) != w@
                    &&& e@ == "未知吊销原因 "@ + w@
                },
            },
        },
{
    match given {
        None => Ok(RevokeReason::Compromised),
        Some(w) => match RevokeReason::from_word(w) {
            Some(x) => Ok(x),
            None => Err(join2("未知吊销原因 ", w)),
        },
    }
}

/// The device that is meant by its id, or else by its public key.
pub fn revoke_target(mesh: &MeshConfig, target: &str) -> (r: Result<String, String>)
    ensures
        revocation_aimed(mesh, target@, r),
{
    match mesh.find_member(target) {
        Some(m) => {
            proof {
                let i = choose|i: int|
                    #[trigger] member_at(mesh.members@, target@, i) && *m == mesh.members@[i];
                assert(mesh.members@[i].device_id@ == target@);
            }
            Ok(m.device_id.clone())
        },
        None => match mesh.find_by_ik_x(target) {
            Some(m) => Ok(m.device_id.clone()),
            None => Err("未找到该设备（不在成员表或已吊销）".to_owned()),
        },
    }
}

/// The line about a room.
pub open spec fn room_line(e: RoomEntry) -> Seq<char> {
    "  "@ + e.name@ + "  token_hash: "@ + short_digest(e.token_hash@) + "…"@
}

/// The lines about rooms.
pub open spec fn listed_rooms(rooms: Seq<RoomEntry>) -> Seq<Seq<char>> {
    rooms.map_values(|e: RoomEntry| room_line(e))
}

/// All that is said about the rooms.
pub open spec fn room_report(rooms: Seq<RoomEntry>) -> Seq<Seq<char>> {
    if rooms.len() == 0 {
        seq![
            "未配置房间令牌（rooms 为空）：单房间开放模式，所有设备同处一个房间，无令牌验证"@,
        ]
    } else {
        seq!["共 "@ + decimal(rooms.len()) + " 个房间（令牌以哈希存储）:"@] + listed_rooms(rooms)
    }
}

/// What is said about the rooms, line by line.
pub fn room_lines(rooms: &Vec<RoomEntry>) -> (r: Vec<String>)
    ensures
        texts(r@) == room_report(rooms@),
{
    let mut out: Vec<String> = Vec::new();
    if rooms.len() == 0 {
        say(
            &mut out,
            "未配置房间令牌（rooms 为空）：单房间开放模式，所有设备同处一个房间，无令牌验证".to_owned(),
        );
        assert(texts(out@) =~= room_report(rooms@));
        return out;
    }
    let mut head = "共 ".to_owned();
    push_decimal(&mut head, rooms.len() as u64);
    head.append(" 个房间（令牌以哈希存储）:");
    say(&mut out, head);
    let ghost before = texts(out@);
    let mut i: usize = 0;
    assert(texts(out@) =~= before + listed_rooms(rooms@.take(0)));
    while i < rooms.len()
        invariant
            i <= rooms@.len(),
            texts(out@) == before + listed_rooms(rooms@.take(i as int)),
        decreases rooms@.len() - i,
    {
        let mut line = join3("  ", rooms[i].name.as_str(), "  token_hash: ");
        line.append(shorten(rooms[i].token_hash.as_str()).as_str());
        line.append("…");
        say(&mut out, line);
        assert(texts(out@) =~= before + listed_rooms(rooms@.take(i + 1)));
        i = i + 1;
    }
    assert(rooms@.take(i as int) =~= rooms@);
    assert(texts(out@) =~= room_report(rooms@));
    out
}

/// The lines about names.
pub open spec fn listed_aliases(aliases: Seq<AliasEntry>) -> Seq<Seq<char>> {
    aliases.map_values(|e: AliasEntry| "  "@ + e.name@ + " -> "@ + e.ip@)
}

/// All that is said about the names.
pub open spec fn alias_report(aliases: Seq<AliasEntry>) -> Seq<Seq<char>> {
    if aliases.len() == 0 {
        seq!["别名表为空"@]
    } else {
        seq!["共 "@ + decimal(aliases.len()) + " 个别名:"@] + listed_aliases(aliases)
    }
}

/// What is said about the names, line by line.
pub fn alias_lines(aliases: &Vec<AliasEntry>) -> (r: Vec<String>)
    ensures
        texts(r@) == alias_report(aliases@),
{
    let mut out: Vec<String> = Vec::new();
    if aliases.len() == 0 {
        say(&mut out, "别名表为空".to_owned());
        assert(texts(out@) =~= alias_report(aliases@));
        return out;
    }
    let mut head = "共 ".to_owned();
    push_decimal(&mut head, aliases.len() as u64);
    head.append(" 个别名:");
    say(&mut out, head);
    let ghost before = texts(out@);
    let mut i: usize = 0;
    assert(texts(out@) =~= before + listed_aliases(aliases@.take(0)));
    while i < aliases.len()
        invariant
            i <= aliases@.len(),
            texts(out@) == before + listed_aliases(aliases@.take(i as int)),
        decreases aliases@.len() - i,
    {
        let mut line = join3("  ", aliases[i].name.as_str(), " -> ");
        line.append(aliases[i].ip.as_str());
        say(&mut out, line);
        assert(texts(out@) =~= before + listed_aliases(aliases@.take(i + 1)));
        i = i + 1;
    }
    assert(aliases@.take(i as int) =~= aliases@);
    assert(texts(out@) =~= alias_report(aliases@));
    out
}

/// The line about a revocation.
pub open spec fn crl_line(e: CrlEntry) -> Seq<char> {
    "  device_id="@ + e.device_id@ + " reason="@ + e.reason.word() + " revoked_at="@ + decimal(
        e.revoked_at as nat,
    )
}

/// The lines about revocations.
pub open spec fn listed_revocations(entries: Seq<CrlEntry>) -> Seq<Seq<char>> {
    entries.map_values(|e: CrlEntry| crl_line(e))
}

/// All that is said about the revocation list.
pub open spec fn crl_report(crl: Crl) -> Seq<Seq<char>> {
    if crl.entries@.len() == 0 {
        seq!["吊销列表为空（CRL v"@ + decimal(crl.version as nat) + "）"@]
    } else {
        seq![
            "吊销列表（CRL v"@ + decimal(crl.version as nat) + "，共 "@ + decimal(
                crl.entries@.len(),
            ) + " 条）:"@,
        ] + listed_revocations(crl.entries@)
    }
}

/// What is said about the revocation list, line by line.
pub fn crl_lines(crl: &Crl) -> (r: Vec<String>)
    ensures
        texts(r@) == crl_report(*crl),
{
    let mut out: Vec<String> = Vec::new();
    if crl.entries.len() == 0 {
        let mut line = "吊销列表为空（CRL v".to_owned();
        push_decimal(&mut line, crl.version);
        line.append("）");
        say(&mut out, line);
        assert(texts(out@) =~= crl_report(*crl));
        return out;
    }
    let mut head = "吊销列表（CRL v".to_owned();
    push_decimal(&mut head, crl.version);
    head.append("，共 ");
    push_decimal(&mut head, crl.entries.len() as u64);
    head.append(" 条）:");
    say(&mut out, head);
    let ghost before = texts(out@);
    let mut i: usize = 0;
    assert(texts(out@) =~= before + listed_revocations(crl.entries@.take(0)));
    while i < crl.entries.len()
        invariant
            i <= crl.entries@.len(),
            texts(out@) == before + listed_revocations(crl.entries@.take(i as int)),
        decreases crl.entries@.len() - i,
    {
        let mut line = join3("  device_id=", crl.entries[i].device_id.as_str(), " reason=");
        line.append(crl.entries[i].reason.as_str());
        line.append(" revoked_at=");
        push_decimal(&mut line, crl.entries[i].revoked_at);
        say(&mut out, line);
        assert(texts(out@) =~= before + listed_revocations(crl.entries@.take(i + 1)));
        i = i + 1;
    }
    assert(crl.entries@.take(i as int) =~= crl.entries@);
    assert(texts(out@) =~= crl_report(*crl));
    out
}

/// A route, as a running server reports it. What it leaves out is empty.
#[derive(Debug, Clone)]
pub struct RouteReport {
    pub public_key: String,
    pub ip: String,
    pub endpoint: String,
    pub room: Option<String>,
    pub alias: String,
}

/// The line about a route.
pub open spec fn route_line(e: RouteReport) -> Seq<char> {
    "  公钥: "@ + e.public_key@ + "  虚拟IP: "@ + e.ip@ + "  Endpoint: "@ + e.endpoint@
        + "  房间: "@ + (match e.room {
        Some(r) => r@,
        None => "default"@,
    }) + (if e.alias@.len() == 0 {
        Seq::empty()
    } else {
        "  别名: "@ + e.alias@
    })
}

/// The lines about routes.
pub open spec fn listed_routes(items: Seq<RouteReport>) -> Seq<Seq<char>> {
    items.map_values(|e: RouteReport| route_line(e))
}

/// All that is said about the routes.
pub open spec fn route_report(items: Seq<RouteReport>) -> Seq<Seq<char>> {
    if items.len() == 0 {
        seq!["路由表为空，暂无在线客户端"@]
    } else {
        seq!["共 "@ + decimal(items.len()) + " 个在线客户端:"@] + listed_routes(items)
    }
}

fn show_route(e: &RouteReport) -> (r: String)
    ensures
        r@ == route_line(*e),
{
    let mut line = join3("  公钥: ", e.public_key.as_str(), "  虚拟IP: ");
    line.append(e.ip.as_str());
    line.append("  Endpoint: ");
    line.append(e.endpoint.as_str());
    line.append("  房间: ");
    match &e.room {
        Some(r) => {
            line.append(r.as_str());
        },
        None => {
            line.append("default");
        },
    }
    let ghost head = line@;
    if e.alias.as_str().unicode_len() > 0 {
        let name = join2("  别名: ", e.alias.as_str());
        line.append(name.as_str());
    } else {
        assert(head + Seq::<char>::empty() =~= head);
    }
    line
}

/// What is said about the routes, line by line.
pub fn route_lines(items: &Vec<RouteReport>) -> (r: Vec<String>)
    ensures
        texts(r@) == route_report(items@),
{
    let mut out: Vec<String> = Vec::new();
    if items.len() == 0 {
        say(&mut out, "路由表为空，暂无在线客户端".to_owned());
        assert(texts(out@) =~= route_report(items@));
        return out;
    }
    let mut head = "共 ".to_owned();
    push_decimal(&mut head, items.len() as u64);
    head.append(" 个在线客户端:");
    say(&mut out, head);
    let ghost before = texts(out@);
    let mut i: usize = 0;
    assert(texts(out@) =~= before + listed_routes(items@.take(0)));
    while i < items.len()
        invariant
            i <= items@.len(),
            texts(out@) == before + listed_routes(items@.take(i as int)),
        decreases items@.len() - i,
    {
        say(&mut out, show_route(&items[i]));
        assert(texts(out@) =~= before + listed_routes(items@.take(i + 1)));
        i = i + 1;
    }
    assert(items@.take(i as int) =~= items@);
    assert(texts(out@) =~= route_report(items@));
    out
}

/// The state of a running server, as it reports it.
#[derive(Debug, Clone)]
pub struct StatusReport {
    pub online_clients: u64,
    pub relay_enabled: bool,
    pub server_public_key: String,
    pub packets_in: u64,
    pub packets_out: u64,
    pub bytes_relayed: u64,
}

/// All that is said about a running server.
pub open spec fn status_report(s: StatusReport) -> Seq<Seq<char>> {
    seq![
        "在线客户端: "@ + decimal(s.online_clients as nat),
        "中继: "@ + (if s.relay_enabled {
            "启用"@
        } else {
            "关闭"@
        }),
        "服务端公钥: "@ + s.server_public_key@,
        "收/发包: "@ + decimal(s.packets_in as nat) + "/"@ + decimal(s.packets_out as nat)
            + "，中继字节: "@ + decimal(s.bytes_relayed as nat),
    ]
}

/// What is said about a running server, line by line.
pub fn status_lines(s: &StatusReport) -> (r: Vec<String>)
    ensures
        texts(r@) == status_report(*s),
{
    let mut out: Vec<String> = Vec::new();
    let mut online = "在线客户端: ".to_owned();
    push_decimal(&mut online, s.online_clients);
    say(&mut out, online);
    if s.relay_enabled {
        say(&mut out, join2("中继: ", "启用"));
    } else {
        say(&mut out, join2("中继: ", "关闭"));
    }
    say(&mut out, join2("服务端公钥: ", s.server_public_key.as_str()));
    let mut packets = "收/发包: ".to_owned();
    push_decimal(&mut packets, s.packets_in);
    packets.append("/");
    push_decimal(&mut packets, s.packets_out);
    packets.append("，中继字节: ");
    push_decimal(&mut packets, s.bytes_relayed);
    say(&mut out, packets);
    assert(texts(out@) =~= status_report(*s));
    out
}

/// Every command does what its name says with the arguments that were given, in the order
/// they were given, and is refused where one is missing.
#[verifier::rlimit(50)]
pub proof fn every_command_takes_its_arguments(pos: Seq<String>, n: usize)
    ensures
        command_of("version"@, pos) is Ok && command_of("version"@, pos)->Ok_0 is Version,
        command_of("genkey"@, pos) is Ok && command_of("genkey"@, pos)->Ok_0 is Genkey,
        command_of("showpubkey"@, pos) is Ok && command_of("showpubkey"@, pos)->Ok_0 is ShowPubkey,
        pos.len() >= 2 ==> command_of("add-room"@, pos) is Ok && command_of("add-room"@, pos)->Ok_0 == (ServerCommand::AddRoom { name: pos[0], token: pos[1] }),
        pos.len() < 2 ==> command_of("add-room"@, pos) is Err,
        pos.len() >= 1 ==> command_of("remove-room"@, pos) is Ok && command_of("remove-room"@, pos)->Ok_0 == (ServerCommand::RemoveRoom { name: pos[0] }),
        pos.len() < 1 ==> command_of("remove-room"@, pos) is Err,
        command_of("rooms"@, pos) is Ok && command_of("rooms"@, pos)->Ok_0 is Rooms,
        pos.len() >= 2 ==> command_of("alias"@, pos) is Ok && command_of("alias"@, pos)->Ok_0 == (ServerCommand::Alias { name: pos[0], ip: pos[1] }),
        pos.len() < 2 ==> command_of("alias"@, pos) is Err,
        pos.len() >= 1 ==> command_of("alias-del"@, pos) is Ok && command_of("alias-del"@, pos)->Ok_0 == (ServerCommand::AliasDel { name: pos[0] }),
        pos.len() < 1 ==> command_of("alias-del"@, pos) is Err,
        command_of("alias-list"@, pos) is Ok && command_of("alias-list"@, pos)->Ok_0 is AliasList,
        command_of("mesh-init"@, pos) is Ok && command_of("mesh-init"@, pos)->Ok_0 is MeshInit,
        command_of("invite"@, pos) is Ok && command_of("invite"@, pos)->Ok_0 is Invite,
        pos.len() >= 2 ==> command_of("issue"@, pos) is Ok && command_of("issue"@, pos)->Ok_0 == (ServerCommand::Issue { ik_x: pos[0], ik_s: pos[1] }),
        pos.len() < 2 ==> command_of("issue"@, pos) is Err,
        pos.len() >= 1 ==> command_of("revoke"@, pos) is Ok && command_of("revoke"@, pos)->Ok_0 == (ServerCommand::Revoke { target: pos[0] }),
        pos.len() < 1 ==> command_of("revoke"@, pos) is Err,
        command_of("crl"@, pos) is Ok && command_of("crl"@, pos)->Ok_0 is Crl,
        command_of("show-fingerprint"@, pos) is Ok && command_of("show-fingerprint"@, pos)->Ok_0 is ShowFingerprint,
        command_of("stop"@, pos) is Ok && command_of("stop"@, pos)->Ok_0 is Stop,
        command_of("list"@, pos) is Ok && command_of("list"@, pos)->Ok_0 is List,
        pos.len() >= 1 ==> command_of("delpeer"@, pos) is Ok && command_of("delpeer"@, pos)->Ok_0 == (ServerCommand::DelPeer { key: pos[0] }),
        pos.len() < 1 ==> command_of("delpeer"@, pos) is Err,
        command_of("status"@, pos) is Ok && command_of("status"@, pos)->Ok_0 is Status,
        command_of("run"@, pos) is Ok && command_of("run"@, pos)->Ok_0 is Run,
        pos.len() >= 1 ==> command_of("help"@, pos) is Ok && command_of("help"@, pos)->Ok_0 == (ServerCommand::Help { topic: Some(pos[0]) }),
        pos.len() >= 1 && pos[0]@ == decimal(n as nat) ==> command_of("log"@, pos) is Ok && command_of("log"@, pos)->Ok_0 == (ServerCommand::Log { lines: n }),
        pos.len() == 0 ==> command_of("log"@, pos) is Ok && command_of("log"@, pos)->Ok_0 == (ServerCommand::Log { lines: 50 }),
        pos.len() >= 1 && pos[0]@ == decimal(n as nat) && 1 <= n <= 65535 ==> command_of("start"@, pos) is Ok && command_of("start"@, pos)->Ok_0 == (ServerCommand::Start { port: n as u16 }),
        pos.len() >= 1 && pos[0]@ == decimal(n as nat) && !(1 <= n <= 65535) ==> command_of("start"@, pos) is Err,
        pos.len() == 0 ==> command_of("start"@, pos) is Ok && command_of("start"@, pos)->Ok_0 == (ServerCommand::Start { port: 8080 }),
{
    reveal_strlit("version");
    assert("version"@.len() == 7);
    reveal_strlit("help");
    assert("help"@.len() == 4);
    reveal_strlit("genkey");
    assert("genkey"@.len() == 6);
    reveal_strlit("showpubkey");
    assert("showpubkey"@.len() == 10);
    reveal_strlit("add-room");
    assert("add-room"@.len() == 8);
    reveal_strlit("remove-room");
    assert("remove-room"@.len() == 11);
    reveal_strlit("rooms");
    assert("rooms"@.len() == 5);
    reveal_strlit("alias");
    assert("alias"@.len() == 5);
    reveal_strlit("alias-del");
    assert("alias-del"@.len() == 9);
    reveal_strlit("alias-list");
    assert("alias-list"@.len() == 10);
    reveal_strlit("mesh-init");
    assert("mesh-init"@.len() == 9);
    reveal_strlit("invite");
    assert("invite"@.len() == 6);
    reveal_strlit("issue");
    assert("issue"@.len() == 5);
    reveal_strlit("revoke");
    assert("revoke"@.len() == 6);
    reveal_strlit("crl");
    assert("crl"@.len() == 3);
    reveal_strlit("show-fingerprint");
    assert("show-fingerprint"@.len() == 16);
    reveal_strlit("start");
    assert("start"@.len() == 5);
    reveal_strlit("stop");
    assert("stop"@.len() == 4);
    reveal_strlit("list");
    assert("list"@.len() == 4);
    reveal_strlit("delpeer");
    assert("delpeer"@.len() == 7);
    reveal_strlit("status");
    assert("status"@.len() == 6);
    reveal_strlit("log");
    assert("log"@.len() == 3);
    reveal_strlit("run");
    assert("run"@.len() == 3);
    assert("alias"@[0] != "rooms"@[0]);
    assert("alias-list"@[0] != "showpubkey"@[0]);
    assert("delpeer"@[0] != "version"@[0]);
    assert("invite"@[0] != "genkey"@[0]);
    assert("issue"@[0] != "alias"@[0]);
    assert("issue"@[0] != "rooms"@[0]);
    assert("list"@[0] != "help"@[0]);
    assert("list"@[0] != "stop"@[0]);
    assert("log"@[0] != "crl"@[0]);
    assert("mesh-init"@[0] != "alias-del"@[0]);
    assert("revoke"@[0] != "genkey"@[0]);
    assert("revoke"@[0] != "invite"@[0]);
    assert("run"@[0] != "crl"@[0]);
    assert("run"@[0] != "log"@[0]);
    assert("start"@[0] != "alias"@[0]);
    assert("start"@[0] != "issue"@[0]);
    assert("start"@[0] != "rooms"@[0]);
    assert("status"@[0] != "genkey"@[0]);
    assert("status"@[0] != "invite"@[0]);
    assert("status"@[0] != "revoke"@[0]);
    assert("stop"@[0] != "help"@[0]);
    numbers_are_read_back(n as nat, usize::MAX as nat);
    numbers_are_read_back(n as nat, 65535);
}

/// Which device a revocation is aimed at.
pub open spec fn revocation_aimed(mesh: &MeshConfig, target: Seq<char>, r: Result<String, String>) -> bool {
    match r {
        Ok(id) => if is_member(mesh.members@, target) {
            id@ == target
        } else {
            exists|i: int|
                #[trigger] key_at(mesh, target, i) && id == mesh.members@[i].device_id
        },
        Err(e) => {
            &&& !is_member(mesh.members@, target)
            &&& forall|j: int| 0 <= j < mesh.members@.len() ==> !has_key(mesh, target, j)
            &&& e@ == "未找到该设备（不在成员表或已吊销）"@
        },
    }
}

/// A device can be revoked by its name in the mesh or by its key; a name that no member has
/// and a key that no member has are refused.
pub proof fn members_can_be_revoked(
    mesh: &MeshConfig,
    target: Seq<char>,
    r: Result<String, String>,
    m: int,
)
    requires
        revocation_aimed(mesh, target, r),
        0 <= m < mesh.members@.len(),
    ensures
        mesh.members@[m].device_id@ == target ==> r is Ok && r->Ok_0@ == target,
        mesh.members@[m].cert.ik_x@ == target && (forall|e: int|
            0 <= e < mesh.crl.entries@.len() ==> (#[trigger] mesh.crl.entries@[e]).device_id@
                != mesh.members@[m].device_id@) ==> r is Ok,
        r is Ok ==> exists|k: int|
            0 <= k < mesh.members@.len() && (#[trigger] mesh.members@[k]).device_id@ == r->Ok_0@
                && (mesh.members@[k].device_id@ == target || mesh.members@[k].cert.ik_x@
                == target),
{
    if r is Err {
        assert(!has_key(mesh, target, m));
    }
}

} // verus!
