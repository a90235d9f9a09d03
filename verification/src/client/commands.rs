//! The commands of the client that read or change its configuration.
//!
//! Each command returns what it has to say, or the reason why it fails. Files are
//! read and written by the program around the library.
use vstd::prelude::*;
use vstd::string::*;
use crate::cli::{lines_of, log_lines, opt_at, optional, required, unknown_command};
use crate::alias::{alias_error, canonical, is_alias};
use crate::client::config::{
    config_error, has_connection, has_nic, has_server, nic_at, normalize_alias, server_at,
    ClientConfig, ConfigFacts, ConnectionEntry, ServerEntry, VmNicConfig, DEFAULT_MTU,
};
use crate::net::{is_ipv4, parse_ipv4};
use crate::outside::{quote, quoted};
use crate::seqs::{keep_if, lemma_filter_take};
use crate::text::{
    numbers_are_read_back, decimal, join2, join3, lowercase, lowered, push_decimal, same, texts,
    trim, trimmed,
};

verus! {

/// A command of the client, with its arguments.
#[derive(Debug, Clone)]
pub enum ClientCommand {
    Version,
    Help { topic: Option<String> },
    Genkey,
    ShowPubkey,
    Fingerprint,
    Join { server: String, nic: String, code: String },
    NewVmnic { name: String },
    DelVmnic { name: String },
    /// An empty name asks to remove the server.
    NewServer { endpoint: String, name: Option<String> },
    Alias { name: String, ip: String },
    AliasDel { name: String },
    AliasList,
    /// With `cache`, the names that the service knows are shown too.
    Resolve { name: String, cache: bool },
    Connect { server: String, nic: String },
    Disconnect { server: String },
    Stop,
    List,
    Status { server: Option<String> },
    Log { lines: usize },
    Run,
}

/// Whether the words behind the first ask for the names that the service knows.
pub open spec fn wants_cache(pos: Seq<String>) -> bool {
    exists|i: int| 1 <= i < pos.len() && (#[trigger] pos[i])@ == "--dns-cache"@
}

fn has_cache_word(positionals: &Vec<String>) -> (r: bool)
    ensures
        r == wants_cache(positionals@),
{
    let mut i: usize = 1;
    while i < positionals.len()
        invariant
            1 <= i,
            forall|j: int|
                1 <= j < i && j < positionals@.len() ==> (#[trigger] positionals@[j])@
                    != "--dns-cache"@,
        decreases positionals@.len() - i,
    {
        if same(positionals[i].as_str(), "--dns-cache") {
            return true;
        }
        i = i + 1;
    }
    false
}

/// What the words of a command line ask for, or what is wrong with them.
pub open spec fn command_of(cmd: Seq<char>, pos: Seq<String>, code: Option<String>) -> Result<
    ClientCommand,
    Seq<char>,
> {
    if cmd == "version"@ {
        Ok(ClientCommand::Version)
    } else if cmd == "help"@ {
        Ok(ClientCommand::Help { topic: opt_at(pos, 0) })
    } else if cmd == "genkey"@ {
        Ok(ClientCommand::Genkey)
    } else if cmd == "showpubkey"@ {
        Ok(ClientCommand::ShowPubkey)
    } else if cmd == "fingerprint"@ {
        Ok(ClientCommand::Fingerprint)
    } else if cmd == "join"@ {
        if pos.len() == 0 {
            Err("请指定服务器名称"@)
        } else if pos.len() <= 1 {
            Err("请指定虚拟网卡名称"@)
        } else if code is None {
            Err("请用 --code LMJ-... 指定管理员签发的加入码"@)
        } else {
            Ok(ClientCommand::Join { server: pos[0], nic: pos[1], code: code->0 })
        }
    } else if cmd == "newvmnic"@ {
        if pos.len() == 0 {
            Err("请指定虚拟网卡名称"@)
        } else {
            Ok(ClientCommand::NewVmnic { name: pos[0] })
        }
    } else if cmd == "delvmnic"@ {
        if pos.len() == 0 {
            Err("请指定虚拟网卡名称"@)
        } else {
            Ok(ClientCommand::DelVmnic { name: pos[0] })
        }
    } else if cmd == "newserver"@ {
        if pos.len() == 0 {
            Err("请指定服务器地址 IP(:Port)"@)
        } else {
            Ok(ClientCommand::NewServer { endpoint: pos[0], name: opt_at(pos, 1) })
        }
    } else if cmd == "alias"@ {
        if pos.len() == 0 {
            Err("请指定别名（如 computer）"@)
        } else if pos.len() <= 1 {
            Err("请指定目标虚拟 IP"@)
        } else {
            Ok(ClientCommand::Alias { name: pos[0], ip: pos[1] })
        }
    } else if cmd == "alias-del"@ {
        if pos.len() == 0 {
            Err("请指定别名"@)
        } else {
            Ok(ClientCommand::AliasDel { name: pos[0] })
        }
    } else if cmd == "alias-list"@ {
        Ok(ClientCommand::AliasList)
    } else if cmd == "resolve"@ {
        if pos.len() == 0 {
            Err("请指定要解析的别名"@)
        } else {
            Ok(ClientCommand::Resolve { name: pos[0], cache: wants_cache(pos) })
        }
    } else if cmd == "connect"@ {
        if pos.len() == 0 {
            Err("请指定服务器名称"@)
        } else if pos.len() <= 1 {
            Err("请指定虚拟网卡名称"@)
        } else {
            Ok(ClientCommand::Connect { server: pos[0], nic: pos[1] })
        }
    } else if cmd == "disconnect"@ {
        if pos.len() == 0 {
            Err("请指定服务器名称"@)
        } else {
            Ok(ClientCommand::Disconnect { server: pos[0] })
        }
    } else if cmd == "stop"@ {
        Ok(ClientCommand::Stop)
    } else if cmd == "list"@ {
        Ok(ClientCommand::List)
    } else if cmd == "status"@ {
        Ok(ClientCommand::Status { server: opt_at(pos, 0) })
    } else if cmd == "log"@ {
        Ok(ClientCommand::Log { lines: lines_of(opt_at(pos, 0)) })
    } else if cmd == "run"@ {
        Ok(ClientCommand::Run)
    } else {
        Err("未知命令 "@ + cmd + "，执行 --help 查看帮助"@)
    }
}

/// Reads the words of a command line.
pub fn read_command(cmd: &str, positionals: &Vec<String>, code: &Option<String>) -> (r: Result<
    ClientCommand,
    String,
>)
    ensures
        match (r, command_of(cmd@, positionals@, *code)) {
            (Ok(a), Ok(b)) => a == b,
            (Err(a), Err(b)) => a@ == b,
            _ => false,
        },
{
    if same(cmd, "version") {
        Ok(ClientCommand::Version)
    } else if same(cmd, "help") {
        Ok(ClientCommand::Help { topic: optional(positionals, 0) })
    } else if same(cmd, "genkey") {
        Ok(ClientCommand::Genkey)
    } else if same(cmd, "showpubkey") {
        Ok(ClientCommand::ShowPubkey)
    } else if same(cmd, "fingerprint") {
        Ok(ClientCommand::Fingerprint)
    } else if same(cmd, "join") {
        let server = match required(positionals, 0, "请指定服务器名称") {
            Ok(v) => v,
            Err(e) => {
                return Err(e);
            },
        };
        let nic = match required(positionals, 1, "请指定虚拟网卡名称") {
            Ok(v) => v,
            Err(e) => {
                return Err(e);
            },
        };
        let code = match code {
            Some(c) => c.clone(),
            None => {
                return Err("请用 --code LMJ-... 指定管理员签发的加入码".to_owned());
            },
        };
        Ok(ClientCommand::Join { server, nic, code })
    } else if same(cmd, "newvmnic") {
        let name = match required(positionals, 0, "请指定虚拟网卡名称") {
            Ok(v) => v,
            Err(e) => {
                return Err(e);
            },
        };
        Ok(ClientCommand::NewVmnic { name })
    } else if same(cmd, "delvmnic") {
        let name = match required(positionals, 0, "请指定虚拟网卡名称") {
            Ok(v) => v,
            Err(e) => {
                return Err(e);
            },
        };
        Ok(ClientCommand::DelVmnic { name })
    } else if same(cmd, "newserver") {
        let endpoint = match required(positionals, 0, "请指定服务器地址 IP(:Port)") {
            Ok(v) => v,
            Err(e) => {
                return Err(e);
            },
        };
        Ok(ClientCommand::NewServer { endpoint, name: optional(positionals, 1) })
    } else if same(cmd, "alias") {
        let name = match required(positionals, 0, "请指定别名（如 computer）") {
            Ok(v) => v,
            Err(e) => {
                return Err(e);
            },
        };
        let ip = match required(positionals, 1, "请指定目标虚拟 IP") {
            Ok(v) => v,
            Err(e) => {
                return Err(e);
            },
        };
        Ok(ClientCommand::Alias { name, ip })
    } else if same(cmd, "alias-del") {
        let name = match required(positionals, 0, "请指定别名") {
            Ok(v) => v,
            Err(e) => {
                return Err(e);
            },
        };
        Ok(ClientCommand::AliasDel { name })
    } else if same(cmd, "alias-list") {
        Ok(ClientCommand::AliasList)
    } else if same(cmd, "resolve") {
        let name = match required(positionals, 0, "请指定要解析的别名") {
            Ok(v) => v,
            Err(e) => {
                return Err(e);
            },
        };
        Ok(ClientCommand::Resolve { name, cache: has_cache_word(positionals) })
    } else if same(cmd, "connect") {
        let server = match required(positionals, 0, "请指定服务器名称") {
            Ok(v) => v,
            Err(e) => {
                return Err(e);
            },
        };
        let nic = match required(positionals, 1, "请指定虚拟网卡名称") {
            Ok(v) => v,
            Err(e) => {
                return Err(e);
            },
        };
        Ok(ClientCommand::Connect { server, nic })
    } else if same(cmd, "disconnect") {
        let server = match required(positionals, 0, "请指定服务器名称") {
            Ok(v) => v,
            Err(e) => {
                return Err(e);
            },
        };
        Ok(ClientCommand::Disconnect { server })
    } else if same(cmd, "stop") {
        Ok(ClientCommand::Stop)
    } else if same(cmd, "list") {
        Ok(ClientCommand::List)
    } else if same(cmd, "status") {
        Ok(ClientCommand::Status { server: optional(positionals, 0) })
    } else if same(cmd, "log") {
        Ok(ClientCommand::Log { lines: log_lines(&optional(positionals, 0)) })
    } else if same(cmd, "run") {
        Ok(ClientCommand::Run)
    } else {
        Err(unknown_command(cmd))
    }
}

/// The address of a new interface where none is given.
pub open spec fn placeholder_ip(nics: nat) -> Seq<char> {
    "10.13.13."@ + decimal(nics + 1)
}

/// The address that a new interface gets.
pub open spec fn new_nic_ip(cfg: ClientConfig, ip: Option<&str>) -> Seq<char> {
    match ip {
        Some(t) => t@,
        None => placeholder_ip(cfg.vm_nics@.len()),
    }
}

/// Whether the address that a new interface gets is one, or left open. `ip_valid`
/// tells that of a given one.
pub open spec fn new_nic_ip_good(cfg: ClientConfig, ip: Option<&str>, ip_valid: bool) -> bool {
    match ip {
        Some(t) => t@.len() == 0 || ip_valid,
        None => is_ipv4(placeholder_ip(cfg.vm_nics@.len())),
    }
}

/// The endpoint of a server, with the default port where none is given.
pub open spec fn full_endpoint(ep: Seq<char>) -> Seq<char> {
    if ep.contains(':') {
        ep
    } else {
        ep + ":8080"@
    }
}

/// The endpoint of a server, with the default port where none is given.
pub fn normalize_endpoint(ep: &str) -> (r: String)
    ensures
        r@ == full_endpoint(ep@),
{
    let n: usize = ep.unicode_len();
    let mut i: usize = 0;
    while i < n
        invariant
            i <= n,
            n == ep@.len(),
            forall|j: int| 0 <= j < i ==> ep@[j] != ':',
        decreases n - i,
    {
        if ep.get_char(i) == ':' {
            assert(ep@.contains(':'));
            return ep.to_owned();
        }
        i = i + 1;
    }
    join2(ep, ":8080")
}

/// The servers that the connections over an interface lead to.
pub open spec fn servers_over(connections: Seq<ConnectionEntry>, nic: Seq<char>) -> Seq<Seq<char>> {
    connections.filter(over(nic)).map_values(|c: ConnectionEntry| c.server@)
}

pub open spec fn over(nic: Seq<char>) -> spec_fn(ConnectionEntry) -> bool {
    |c: ConnectionEntry| c.vm_nic@ == nic
}

pub open spec fn not_over(nic: Seq<char>) -> spec_fn(ConnectionEntry) -> bool {
    |c: ConnectionEntry| c.vm_nic@ != nic
}

pub open spec fn not_to(server: Seq<char>) -> spec_fn(ConnectionEntry) -> bool {
    |c: ConnectionEntry| c.server@ != server
}

pub open spec fn not_called(name: Seq<char>) -> spec_fn(VmNicConfig) -> bool {
    |n: VmNicConfig| n.name@ != name
}

pub open spec fn located(endpoint: Seq<char>) -> spec_fn(ServerEntry) -> bool {
    |s: ServerEntry| s.endpoint@ == endpoint
}

pub open spec fn not_located(endpoint: Seq<char>) -> spec_fn(ServerEntry) -> bool {
    |s: ServerEntry| s.endpoint@ != endpoint
}

/// Texts with commas between them.
pub open spec fn listed(names: Seq<Seq<char>>) -> Seq<char>
    decreases names.len(),
{
    if names.len() == 0 {
        Seq::empty()
    } else if names.len() == 1 {
        names[0]
    } else {
        listed(names.drop_last()) + ", "@ + names.last()
    }
}

/// A list of servers after one was saved.
pub open spec fn server_saved(
    before: Seq<ServerEntry>,
    after: Seq<ServerEntry>,
    name: Seq<char>,
    endpoint: Seq<char>,
) -> bool {
    if has_server(before, name) {
        &&& after.len() == before.len()
        &&& forall|i: int|
            #![trigger after[i]]
            0 <= i < before.len() ==> if server_at(before, name, i) {
                after[i].endpoint@ == endpoint && after[i] == (ServerEntry {
                    endpoint: after[i].endpoint,
                    ..before[i]
                })
            } else {
                after[i] == before[i]
            }
    } else {
        &&& after.len() == before.len() + 1
        &&& after.drop_last() == before
        &&& after.last().name@ == name
        &&& after.last().endpoint@ == endpoint
        &&& after.last().public_key is None
        &&& after.last().relay.enabled && after.last().relay.endpoint@.len() == 0
        &&& after.last().mesh_root_pub is None
        &&& after.last().device_cert is None
        &&& after.last().crl_version is None
        &&& after.last().token is None
    }
}

/// Adds an interface. `ip_valid` tells whether a given address is one.
pub fn new_vmnic(cfg: &mut ClientConfig, name: &str, ip: Option<&str>, ip_valid: bool) -> (r: Result<
    String,
    String,
>)
    requires
        old(cfg).vm_nics@.len() < usize::MAX,
    ensures
        nic_created(*old(cfg), name@, ip, ip_valid, r, *final(cfg)),
{
    if cfg.find_vmnic(name).is_some() {
        return Err(join3("虚拟网卡 ", name, " 已存在"));
    }
    let (addr, good) = match ip {
        Some(t) => (t.to_owned(), t.is_empty() || ip_valid),
        None => {
            let mut next = "10.13.13.".to_owned();
            let n: usize = cfg.vm_nics.len();
            push_decimal(&mut next, (n + 1) as u64);
            let valid = parse_ipv4(next.as_str()).is_some();
            (next, valid)
        },
    };
    if !good {
        return Err(join3("虚拟 IP ", addr.as_str(), " 非法"));
    }
    let mut text = join3("已创建虚拟网卡 ", name, "（IP ");
    text.append(addr.as_str());
    text.append(" 占位，认证后以服务端分配为准）");
    cfg.vm_nics.push(VmNicConfig::new(name.to_owned(), addr));
    assert(cfg.vm_nics@.drop_last() =~= old(cfg).vm_nics@);
    Ok(text)
}

/// Removes an interface and the connections over it. Returns the servers that those
/// led to.
pub fn del_vmnic(cfg: &mut ClientConfig, name: &str) -> (r: Result<Vec<String>, String>)
    ensures
        nic_deleted(*old(cfg), name@, r, *final(cfg)),
{
    if cfg.find_vmnic(name).is_none() {
        return Err(join3("虚拟网卡 ", name, " 不存在"));
    }
    let mut affected: Vec<String> = Vec::new();
    let mut i: usize = 0;
    let ghost conns = cfg.connections@;
    let ghost p = over(name@);
    let ghost m = |c: ConnectionEntry| c.server@;
    proof {
        reveal(Seq::filter);
        assert(texts(affected@) =~= conns.take(0).filter(p).map_values(m));
    }
    while i < cfg.connections.len()
        invariant
            *cfg == *old(cfg),
            conns == cfg.connections@,
            i <= conns.len(),
            p == over(name@),
            m == (|c: ConnectionEntry| c.server@),
            texts(affected@) == conns.take(i as int).filter(p).map_values(m),
        decreases conns.len() - i,
    {
        proof {
            lemma_filter_take(conns, i as int, p);
        }
        if same(cfg.connections[i].vm_nic.as_str(), name) {
            let ghost before = texts(affected@);
            let s = cfg.connections[i].server.clone();
            affected.push(s);
            proof {
                assert(texts(affected@) =~= before.push(s@));
                assert(texts(affected@) =~= conns.take(i + 1).filter(p).map_values(m));
            }
        }
        i = i + 1;
    }
    assert(conns.take(conns.len() as int) =~= conns);
    let mut connections: Vec<ConnectionEntry> = Vec::new();
    std::mem::swap(&mut connections, &mut cfg.connections);
    let keep = |c: &ConnectionEntry| -> (b: bool)
        ensures
            b == (c.vm_nic@ != name@),
    { !same(c.vm_nic.as_str(), name) };
    cfg.connections = keep_if(connections, keep, Ghost(not_over(name@)));
    let mut nics: Vec<VmNicConfig> = Vec::new();
    std::mem::swap(&mut nics, &mut cfg.vm_nics);
    let keep_nic = |n: &VmNicConfig| -> (b: bool)
        ensures
            b == (n.name@ != name@),
    { !same(n.name.as_str(), name) };
    cfg.vm_nics = keep_if(nics, keep_nic, Ghost(not_called(name@)));
    Ok(affected)
}

/// The names of servers with commas between them.
fn list_names(servers: &Vec<ServerEntry>, endpoint: &str) -> (r: String)
    ensures
        r@ == listed(
            servers@.filter(located(endpoint@)).map_values(|s: ServerEntry| s.name@),
        ),
{
    let mut out = String::new();
    let mut count: usize = 0;
    let mut i: usize = 0;
    let ghost p = located(endpoint@);
    let ghost m = |s: ServerEntry| s.name@;
    proof {
        reveal(Seq::filter);
        assert(servers@.take(0).filter(p).map_values(m) =~= Seq::<Seq<char>>::empty());
    }
    while i < servers.len()
        invariant
            i <= servers@.len(),
            count <= i,
            p == located(endpoint@),
            m == (|s: ServerEntry| s.name@),
            count == servers@.take(i as int).filter(p).len(),
            out@ == listed(servers@.take(i as int).filter(p).map_values(m)),
        decreases servers@.len() - i,
    {
        proof {
            lemma_filter_take(servers@, i as int, p);
        }
        if same(servers[i].endpoint.as_str(), endpoint) {
            let ghost before = servers@.take(i as int).filter(p).map_values(m);
            let ghost after = servers@.take(i + 1).filter(p).map_values(m);
            if count > 0 {
                out.append(", ");
            }
            out.append(servers[i].name.as_str());
            count = count + 1;
            proof {
                assert(after =~= before.push(servers@[i as int].name@));
                assert(after.drop_last() =~= before);
                if before.len() == 0 {
                    assert(out@ =~= after[0]);
                }
            }
        }
        i = i + 1;
    }
    assert(servers@.take(servers@.len() as int) =~= servers@);
    out
}

/// Saves a server, or removes the servers at an address where no name is given. Either
/// way an address without a port has the default port.
pub fn new_server(cfg: &mut ClientConfig, endpoint: &str, name: &str) -> (r: String)
    ensures
        name@.len() == 0 ==> {
            &&& r@ == "已删除服务器 "@ + listed(
                old(cfg).servers@.filter(located(full_endpoint(endpoint@))).map_values(
                    |s: ServerEntry| s.name@,
                ),
            )
            &&& final(cfg).servers@ == old(cfg).servers@.filter(
                not_located(full_endpoint(endpoint@)),
            )
        },
        name@.len() > 0 ==> {
            &&& r@ == "已保存服务器 "@ + name@ + " -> "@ + full_endpoint(endpoint@)
            &&& server_saved(
                old(cfg).servers@,
                final(cfg).servers@,
                name@,
                full_endpoint(endpoint@),
            )
        },
        *final(cfg) == (ClientConfig { servers: final(cfg).servers, ..*old(cfg) }),
{
    let full = normalize_endpoint(endpoint);
    if name.is_empty() {
        let names = list_names(&cfg.servers, full.as_str());
        let mut servers: Vec<ServerEntry> = Vec::new();
        std::mem::swap(&mut servers, &mut cfg.servers);
        let keep = |s: &ServerEntry| -> (b: bool)
            ensures
                b == (s.endpoint@ != full@),
        { !same(s.endpoint.as_str(), full.as_str()) };
        cfg.servers = keep_if(servers, keep, Ghost(not_located(full@)));
        return join2("已删除服务器 ", names.as_str());
    }
    let mut text = join3("已保存服务器 ", name, " -> ");
    text.append(full.as_str());
    match cfg.server_index(name) {
        Some(i) => {
            cfg.servers[i].endpoint = full;
            proof {
                assert(old(cfg).servers@[i as int].name@ == name@);
                assert forall|k: int| server_at(old(cfg).servers@, name@, k) implies k == i by {
                    if k < i {
                        assert(old(cfg).servers@[k].name@ != name@);
                    }
                    if k > i {
                        assert(old(cfg).servers@[i as int].name@ != name@);
                    }
                }
            }
        },
        None => {
            cfg.servers.push(ServerEntry::new(name.to_owned(), full));
            assert(cfg.servers@.drop_last() =~= old(cfg).servers@);
        },
    }
    text
}

/// Binds a name to an address. `ip_valid` tells whether the address, without white
/// space around it, is one. Returns what is to be said.
pub fn set_alias(cfg: &mut ClientConfig, name: &str, ip: &str, ip_valid: bool) -> (r: Result<
    (String, String),
    String,
>)
    requires
        old(cfg).aliases.wf(),
    ensures
        final(cfg).aliases.wf(),
        name_set(*old(cfg), name@, ip@, ip_valid, r, *final(cfg)),
{
    let n = match normalize_alias(name) {
        Ok(n) => n,
        Err(e) => {
            return Err(e);
        },
    };
    let a = trim(ip);
    if !ip_valid {
        return Err(join3("虚拟 IP ", quote(a).as_str(), " 非法"));
    }
    let mut saved = join3("已保存本地别名 ", n.as_str(), " -> ");
    saved.append(a);
    let mut hint = join3(
        "提示：若 ",
        a,
        " 是本机虚拟 IP，该别名会自动自报给服务器，同房间设备可用 ",
    );
    hint.append(n.as_str());
    hint.append(":端口 访问本机");
    cfg.aliases.insert(n, a.to_owned());
    Ok((saved, hint))
}

/// Unbinds a name. Returns what is to be said.
pub fn del_alias(cfg: &mut ClientConfig, name: &str) -> (r: Result<String, String>)
    requires
        old(cfg).aliases.wf(),
    ensures
        final(cfg).aliases.wf(),
        name_deleted(*old(cfg), name@, r, *final(cfg)),
{
    if cfg.aliases.remove(name) {
        Ok(join2("已删除本地别名 ", name))
    } else {
        Err(join3("别名 ", name, " 不存在"))
    }
}

/// Why a connection may not be made.
pub open spec fn connect_error(
    cfg: ClientConfig,
    server: Seq<char>,
    nic: Seq<char>,
    facts: ConfigFacts,
) -> Option<Seq<char>> {
    if !has_server(cfg.servers@, server) {
        Some("服务器 "@ + server + " 未配置"@)
    } else if !has_nic(cfg.vm_nics@, nic) {
        Some("虚拟网卡 "@ + nic + " 未配置"@)
    } else if !joined(cfg.servers@, server) {
        Some(
            "服务器 "@ + server + " 尚未加入网格。请先执行 linkmesh-client --join \""@ + server
                + "\" \""@ + nic + "\" --code LMJ-... 加入网格"@,
        )
    } else {
        config_error(cfg, facts)
    }
}

/// Whether the first server with a name has its mesh root pinned and has issued a
/// certificate.
pub open spec fn joined(servers: Seq<ServerEntry>, name: Seq<char>) -> bool {
    exists|i: int|
        {
            &&& #[trigger] server_at(servers, name, i)
            &&& servers[i].mesh_root_pub is Some
            &&& servers[i].device_cert is Some
        }
}

proof fn lemma_first_server(servers: Seq<ServerEntry>, name: Seq<char>, i: int, k: int)
    requires
        server_at(servers, name, i),
        server_at(servers, name, k),
    ensures
        i == k,
{
    if i < k {
        assert(servers[i].name@ != name);
    }
    if k < i {
        assert(servers[k].name@ != name);
    }
}

/// Checks whether a connection may be made.
pub fn connect_check(cfg: &ClientConfig, server: &str, nic: &str, facts: &ConfigFacts) -> (r: Result<
    (),
    String,
>)
    requires
        cfg.aliases.wf(),
        facts.nic_ips@.len() == cfg.vm_nics@.len(),
        facts.endpoints@.len() == cfg.servers@.len(),
        facts.public_keys@.len() == cfg.servers@.len(),
        facts.alias_ips@.len() == cfg.aliases.names().len(),
    ensures
        match r {
            Ok(_) => connect_error(*cfg, server@, nic@, *facts) is None,
            Err(e) => connect_error(*cfg, server@, nic@, *facts) == Some(e@),
        },
{
    let i: usize = match cfg.server_index(server) {
        Some(i) => i,
        None => {
            return Err(join3("服务器 ", server, " 未配置"));
        },
    };
    assert(has_server(cfg.servers@, server@)) by {
        assert(cfg.servers@[i as int].name@ == server@);
    }
    match cfg.find_vmnic(nic) {
        Some(n) => {
            proof {
                let k = choose|k: int|
                    #[trigger] nic_at(cfg.vm_nics@, nic@, k) && *n == cfg.vm_nics@[k];
                assert(cfg.vm_nics@[k].name@ == nic@);
            }
        },
        None => {
            return Err(join3("虚拟网卡 ", nic, " 未配置"));
        },
    }
    if cfg.servers[i].mesh_root_pub.is_none() || cfg.servers[i].device_cert.is_none() {
        let mut m = join3(
            "服务器 ",
            server,
            " 尚未加入网格。请先执行 linkmesh-client --join \"",
        );
        m.append(server);
        m.append("\" \"");
        m.append(nic);
        m.append("\" --code LMJ-... 加入网格");
        proof {
            assert forall|k: int| server_at(cfg.servers@, server@, k) implies k == i by {
                lemma_first_server(cfg.servers@, server@, i as int, k);
            }
        }
        return Err(m);
    }
    cfg.validate(facts)
}

/// A configuration before and after a connection was entered.
pub open spec fn connect_committed(
    before: ClientConfig,
    server: Seq<char>,
    nic: Seq<char>,
    token: Option<&str>,
    after: ClientConfig,
) -> bool {
    &&& (has_connection(before.connections@, server) ==> after.connections@ == before.connections@)
    &&& (!has_connection(before.connections@, server) ==> {
        &&& after.connections@.len() == before.connections@.len() + 1
        &&& after.connections@.drop_last() == before.connections@
        &&& after.connections@.last().server@ == server
        &&& after.connections@.last().vm_nic@ == nic
    })
    &&& token_saved(before.servers@, after.servers@, server, given_token(token))
    &&& after == (ClientConfig {
        connections: after.connections,
        servers: after.servers,
        ..before
    })
}

/// A configuration before and after an interface was removed.
pub open spec fn nic_deleted(
    before: ClientConfig,
    name: Seq<char>,
    r: Result<Vec<String>, String>,
    after: ClientConfig,
) -> bool {
    &&& (match r {
        Ok(affected) => {
            &&& has_nic(before.vm_nics@, name)
            &&& texts(affected@) == servers_over(before.connections@, name)
            &&& after.connections@ == before.connections@.filter(not_over(name))
            &&& after.vm_nics@ == before.vm_nics@.filter(not_called(name))
            &&& after == (ClientConfig {
                connections: after.connections,
                vm_nics: after.vm_nics,
                ..before
            })
        },
        Err(e) => {
            &&& !has_nic(before.vm_nics@, name)
            &&& e@ == "虚拟网卡 "@ + name + " 不存在"@
            &&& after == before
        },
    })
}

/// A token without white space around it; none where nothing is left.
pub open spec fn given_token(token: Option<&str>) -> Option<Seq<char>> {
    match token {
        Some(t) => if trimmed(t@).len() > 0 {
            Some(trimmed(t@))
        } else {
            None
        },
        None => None,
    }
}

fn clean_token(token: Option<&str>) -> (r: Option<String>)
    ensures
        match (r, given_token(token)) {
            (Some(a), Some(b)) => a@ == b,
            (None, None) => true,
            _ => false,
        },
{
    match token {
        Some(t) => {
            let c = trim(t);
            if c.is_empty() {
                None
            } else {
                Some(c.to_owned())
            }
        },
        None => None,
    }
}

/// A list of servers after a token was saved for one.
pub open spec fn token_saved(
    before: Seq<ServerEntry>,
    after: Seq<ServerEntry>,
    name: Seq<char>,
    token: Option<Seq<char>>,
) -> bool {
    &&& after.len() == before.len()
    &&& forall|i: int|
        #![trigger after[i]]
        0 <= i < before.len() ==> if token is Some && server_at(before, name, i) {
            &&& after[i].token is Some
            &&& after[i].token->0@ == token->0
            &&& after[i] == (ServerEntry { token: after[i].token, ..before[i] })
        } else {
            after[i] == before[i]
        }
}

/// Enters a connection, unless there is one to the server, and saves the token of the
/// room where one is given.
pub fn connect_commit(cfg: &mut ClientConfig, server: &str, nic: &str, token: Option<&str>)
    ensures
        connect_committed(*old(cfg), server@, nic@, token, *final(cfg)),
{
    match cfg.find_connection(server) {
        Some(c) => {
            proof {
                let k = choose|k: int|
                    #[trigger] crate::client::config::connection_at(cfg.connections@, server@, k)
                        && *c == cfg.connections@[k];
                assert(cfg.connections@[k].server@ == server@);
            }
        },
        None => {
            cfg.connections.push(
                ConnectionEntry { server: server.to_owned(), vm_nic: nic.to_owned() },
            );
            assert(cfg.connections@.drop_last() =~= old(cfg).connections@);
        },
    }
    if let Some(t) = clean_token(token) {
        if let Some(i) = cfg.server_index(server) {
            cfg.servers[i].token = Some(t);
            proof {
                assert forall|k: int| server_at(old(cfg).servers@, server@, k) implies k == i by {
                    lemma_first_server(old(cfg).servers@, server@, i as int, k);
                }
            }
        } else {
            proof {
                assert forall|k: int| !server_at(old(cfg).servers@, server@, k) by {
                    if server_at(old(cfg).servers@, server@, k) {
                        assert(old(cfg).servers@[k].name@ == server@);
                    }
                }
            }
        }
    }
}

/// Removes the connections to a server.
pub fn drop_connection(cfg: &mut ClientConfig, server: &str)
    ensures
        final(cfg).connections@ == old(cfg).connections@.filter(not_to(server@)),
        *final(cfg) == (ClientConfig { connections: final(cfg).connections, ..*old(cfg) }),
{
    let mut connections: Vec<ConnectionEntry> = Vec::new();
    std::mem::swap(&mut connections, &mut cfg.connections);
    let keep = |c: &ConnectionEntry| -> (b: bool)
        ensures
            b == (c.server@ != server@),
    { !same(c.server.as_str(), server) };
    cfg.connections = keep_if(connections, keep, Ghost(not_to(server@)));
}

/// Removes all connections. Says whether there were any.
pub fn clear_connections(cfg: &mut ClientConfig) -> (r: bool)
    ensures
        r == (old(cfg).connections@.len() > 0),
        final(cfg).connections@ == Seq::<ConnectionEntry>::empty(),
        *final(cfg) == (ClientConfig { connections: final(cfg).connections, ..*old(cfg) }),
{
    let any = cfg.connections.len() > 0;
    cfg.connections.clear();
    any
}

/// What a line says to the question whether to trust: yes, no, or neither.
pub open spec fn trust_answer(line: Seq<char>) -> Option<bool> {
    let t = lowered(trimmed(line));
    if t == "y"@ || t == "yes"@ {
        Some(true)
    } else if t == "n"@ || t == "no"@ || t.len() == 0 {
        Some(false)
    } else {
        None
    }
}

/// Reads the answer to the question whether to trust.
pub fn read_trust(line: &str) -> (r: Option<bool>)
    ensures
        r == trust_answer(line@),
{
    let t = lowercase(trim(line));
    let s = t.as_str();
    if same(s, "y") || same(s, "yes") {
        return Some(true);
    }
    if same(s, "n") || same(s, "no") || s.is_empty() {
        return Some(false);
    }
    None
}

/// A connection may be made just when its server and its interface are there, the mesh of
/// the server was joined, and the configuration is in order.
pub proof fn joined_servers_can_be_connected_to(
    cfg: ClientConfig,
    server: Seq<char>,
    nic: Seq<char>,
    facts: ConfigFacts,
    i: int,
    k: int,
)
    requires
        0 <= i < cfg.servers@.len(),
        cfg.servers@[i].name@ == server,
        forall|j: int| 0 <= j < i ==> (#[trigger] cfg.servers@[j]).name@ != server,
        0 <= k < cfg.vm_nics@.len(),
        cfg.vm_nics@[k].name@ == nic,
    ensures
        connect_error(cfg, server, nic, facts) is None <==> cfg.servers@[i].mesh_root_pub is Some
            && cfg.servers@[i].device_cert is Some && config_error(cfg, facts) is None,
{
    assert(server_at(cfg.servers@, server, i));
    if joined(cfg.servers@, server) {
        let j = choose|j: int|
            {
                &&& #[trigger] server_at(cfg.servers@, server, j)
                &&& cfg.servers@[j].mesh_root_pub is Some
                &&& cfg.servers@[j].device_cert is Some
            };
        lemma_first_server(cfg.servers@, server, i, j);
    }
}

/// Once a connection was entered it is there, over the interface that was named unless it
/// was there before; the token, where one was given, is kept with the server; and nothing
/// else changes.
pub proof fn an_entered_connection_is_there(
    before: ClientConfig,
    server: Seq<char>,
    nic: Seq<char>,
    token: Option<&str>,
    after: ClientConfig,
    i: int,
)
    requires
        connect_committed(before, server, nic, token, after),
        0 <= i < before.servers@.len(),
        before.servers@[i].name@ == server,
        forall|j: int| 0 <= j < i ==> (#[trigger] before.servers@[j]).name@ != server,
    ensures
        exists|k: int|
            0 <= k < after.connections@.len() && (#[trigger] after.connections@[k]).server@ == server,
        forall|k: int|
            0 <= k < before.connections@.len() ==> (#[trigger] after.connections@[k])
                == before.connections@[k],
        !has_connection(before.connections@, server) ==> after.connections@.last().vm_nic@ == nic,
        after.servers@.len() == before.servers@.len(),
        token is Some && trimmed(token->0@).len() > 0 ==> after.servers@[i].token is Some
            && after.servers@[i].token->0@ == trimmed(token->0@),
        token is None ==> after.servers@[i] == before.servers@[i],
        after.servers@[i].device_cert == before.servers@[i].device_cert,
        forall|j: int|
            0 <= j < before.servers@.len() && j != i ==> (#[trigger] after.servers@[j])
                == before.servers@[j],
        after.vm_nics == before.vm_nics && after.identity == before.identity,
{
    assert(server_at(before.servers@, server, i));
    assert forall|j: int| 0 <= j < before.servers@.len() && j != i implies (
    #[trigger] after.servers@[j]) == before.servers@[j] by {
        if server_at(before.servers@, server, j) {
            lemma_first_server(before.servers@, server, i, j);
        }
    }
    if has_connection(before.connections@, server) {
        let k = choose|k: int|
            0 <= k < before.connections@.len() && (#[trigger] before.connections@[k]).server@
                == server;
        assert(after.connections@[k].server@ == server);
    } else {
        let n = after.connections@.len() - 1;
        assert(after.connections@[n].server@ == server);
        assert forall|k: int| 0 <= k < before.connections@.len() implies (
        #[trigger] after.connections@[k]) == before.connections@[k] by {
            assert(after.connections@.drop_last()[k] == after.connections@[k]);
        }
    }
}

/// Once an interface was removed neither it nor a connection over it is left, all others
/// are, and just the servers of the connections over it are named.
pub proof fn a_removed_interface_is_gone(
    before: ClientConfig,
    name: Seq<char>,
    r: Result<Vec<String>, String>,
    after: ClientConfig,
    n: VmNicConfig,
    c: ConnectionEntry,
)
    requires
        nic_deleted(before, name, r, after),
        r is Ok,
    ensures
        after.vm_nics@.contains(n) <==> before.vm_nics@.contains(n) && n.name@ != name,
        after.connections@.contains(c) <==> before.connections@.contains(c) && c.vm_nic@ != name,
        before.connections@.contains(c) && c.vm_nic@ == name ==> texts(r->Ok_0@).contains(c.server@),
{
    crate::seqs::lemma_filter_members(before.vm_nics@, not_called(name));
    crate::seqs::lemma_filter_members(before.connections@, not_over(name));
    crate::seqs::lemma_filter_members(before.connections@, over(name));
    lemma_kept(before.vm_nics@, not_called(name), n);
    lemma_kept(before.connections@, not_over(name), c);
    lemma_kept(before.connections@, over(name), c);
    if before.connections@.contains(c) && c.vm_nic@ == name {
        let f = before.connections@.filter(over(name));
        let k = choose|k: int| 0 <= k < f.len() && f[k] == c;
        assert(servers_over(before.connections@, name)[k] == c.server@);
    }
}

proof fn lemma_kept<T>(s: Seq<T>, p: spec_fn(T) -> bool, x: T)
    ensures
        s.filter(p).contains(x) <==> s.contains(x) && p(x),
{
    crate::seqs::lemma_filter_members(s, p);
    let f = s.filter(p);
    if f.contains(x) {
        let k = choose|k: int| 0 <= k < f.len() && f[k] == x;
        assert(p(f[k]) && s.contains(f[k]));
    }
    if s.contains(x) && p(x) {
        let k = choose|k: int| 0 <= k < s.len() && s[k] == x;
        assert(p(s[k]));
        assert(f.contains(s[k]));
    }
}

/// A server that was saved has its address, with port 8080 where none was given; what else
/// is known of it stays, and so does every other server.
pub proof fn a_saved_server_has_its_address(
    before: Seq<ServerEntry>,
    after: Seq<ServerEntry>,
    name: Seq<char>,
    ep: Seq<char>,
    j: int,
)
    requires
        server_saved(before, after, name, full_endpoint(ep)),
        0 <= j < before.len(),
    ensures
        !ep.contains(':') ==> full_endpoint(ep) == ep + seq![':', '8', '0', '8', '0'],
        ep.contains(':') ==> full_endpoint(ep) == ep,
        exists|i: int|
            0 <= i < after.len() && (#[trigger] after[i]).name@ == name && after[i].endpoint@
                == full_endpoint(ep),
        before[j].name@ != name ==> after[j] == before[j],
        after[j].device_cert == before[j].device_cert && after[j].token == before[j].token
            && after[j].public_key == before[j].public_key,
{
    reveal_strlit(":8080");
    assert(":8080"@ =~= seq![':', '8', '0', '8', '0']);
    if has_server(before, name) {
        let k = choose|k: int| 0 <= k < before.len() && (#[trigger] before[k]).name@ == name;
        lemma_first_exists(before, name, k);
        let i = choose|i: int| server_at(before, name, i);
        assert(after[i].name@ == name);
        assert(after[j] == after[j]);
    } else {
        assert(after[after.len() - 1].name@ == name);
        assert(after.drop_last()[j] == after[j]);
    }
}

proof fn lemma_first_exists(servers: Seq<ServerEntry>, name: Seq<char>, k: int)
    requires
        0 <= k < servers.len(),
        servers[k].name@ == name,
    ensures
        exists|i: int| server_at(servers, name, i),
    decreases k,
{
    if exists|j: int| 0 <= j < k && (#[trigger] servers[j]).name@ == name {
        let j = choose|j: int| 0 <= j < k && (#[trigger] servers[j]).name@ == name;
        lemma_first_exists(servers, name, j);
    } else {
        assert(server_at(servers, name, k));
    }
}

/// Every command does what its name says with the arguments that were given, in the order
/// they were given, and is refused where one is missing.
#[verifier::rlimit(50)]
pub proof fn every_command_takes_its_arguments(pos: Seq<String>, code: Option<String>, n: usize)
    ensures
        command_of("version"@, pos, code) is Ok && command_of("version"@, pos, code)->Ok_0 is Version,
        command_of("genkey"@, pos, code) is Ok && command_of("genkey"@, pos, code)->Ok_0 is Genkey,
        command_of("showpubkey"@, pos, code) is Ok && command_of("showpubkey"@, pos, code)->Ok_0 is ShowPubkey,
        command_of("fingerprint"@, pos, code) is Ok && command_of("fingerprint"@, pos, code)->Ok_0 is Fingerprint,
        pos.len() >= 2 && code is Some ==> command_of("join"@, pos, code) is Ok && command_of("join"@, pos, code)->Ok_0 == (ClientCommand::Join { server: pos[0], nic: pos[1], code: code->0 }),
        pos.len() < 2 ==> command_of("join"@, pos, code) is Err,
        pos.len() >= 1 ==> command_of("newvmnic"@, pos, code) is Ok && command_of("newvmnic"@, pos, code)->Ok_0 == (ClientCommand::NewVmnic { name: pos[0] }),
        pos.len() < 1 ==> command_of("newvmnic"@, pos, code) is Err,
        pos.len() >= 1 ==> command_of("delvmnic"@, pos, code) is Ok && command_of("delvmnic"@, pos, code)->Ok_0 == (ClientCommand::DelVmnic { name: pos[0] }),
        pos.len() < 1 ==> command_of("delvmnic"@, pos, code) is Err,
        pos.len() >= 2 ==> command_of("alias"@, pos, code) is Ok && command_of("alias"@, pos, code)->Ok_0 == (ClientCommand::Alias { name: pos[0], ip: pos[1] }),
        pos.len() < 2 ==> command_of("alias"@, pos, code) is Err,
        pos.len() >= 1 ==> command_of("alias-del"@, pos, code) is Ok && command_of("alias-del"@, pos, code)->Ok_0 == (ClientCommand::AliasDel { name: pos[0] }),
        pos.len() < 1 ==> command_of("alias-del"@, pos, code) is Err,
        command_of("alias-list"@, pos, code) is Ok && command_of("alias-list"@, pos, code)->Ok_0 is AliasList,
        pos.len() >= 2 ==> command_of("connect"@, pos, code) is Ok && command_of("connect"@, pos, code)->Ok_0 == (ClientCommand::Connect { server: pos[0], nic: pos[1] }),
        pos.len() < 2 ==> command_of("connect"@, pos, code) is Err,
        pos.len() >= 1 ==> command_of("disconnect"@, pos, code) is Ok && command_of("disconnect"@, pos, code)->Ok_0 == (ClientCommand::Disconnect { server: pos[0] }),
        pos.len() < 1 ==> command_of("disconnect"@, pos, code) is Err,
        command_of("stop"@, pos, code) is Ok && command_of("stop"@, pos, code)->Ok_0 is Stop,
        command_of("list"@, pos, code) is Ok && command_of("list"@, pos, code)->Ok_0 is List,
        command_of("run"@, pos, code) is Ok && command_of("run"@, pos, code)->Ok_0 is Run,
        code is None ==> command_of("join"@, pos, code) is Err,
        pos.len() >= 1 ==> command_of("newserver"@, pos, code) is Ok && command_of("newserver"@, pos, code)->Ok_0 is NewServer && command_of("newserver"@, pos, code)->Ok_0->NewServer_endpoint == pos[0],
        pos.len() == 2 ==> command_of("newserver"@, pos, code)->Ok_0->NewServer_name == Some(pos[1]),
        pos.len() == 0 ==> command_of("newserver"@, pos, code) is Err,
        pos.len() >= 1 ==> command_of("resolve"@, pos, code) is Ok && command_of("resolve"@, pos, code)->Ok_0 is Resolve && command_of("resolve"@, pos, code)->Ok_0->Resolve_name == pos[0],
        pos.len() >= 1 ==> command_of("status"@, pos, code) is Ok && command_of("status"@, pos, code)->Ok_0 == (ClientCommand::Status { server: Some(pos[0]) }),
        pos.len() >= 1 ==> command_of("help"@, pos, code) is Ok && command_of("help"@, pos, code)->Ok_0 == (ClientCommand::Help { topic: Some(pos[0]) }),
        pos.len() >= 1 && pos[0]@ == decimal(n as nat) ==> command_of("log"@, pos, code) is Ok && command_of("log"@, pos, code)->Ok_0 == (ClientCommand::Log { lines: n }),
        pos.len() == 0 ==> command_of("log"@, pos, code) is Ok && command_of("log"@, pos, code)->Ok_0 == (ClientCommand::Log { lines: 50 }),
{
    reveal_strlit("version");
    assert("version"@.len() == 7);
    reveal_strlit("help");
    assert("help"@.len() == 4);
    reveal_strlit("genkey");
    assert("genkey"@.len() == 6);
    reveal_strlit("showpubkey");
    assert("showpubkey"@.len() == 10);
    reveal_strlit("fingerprint");
    assert("fingerprint"@.len() == 11);
    reveal_strlit("join");
    assert("join"@.len() == 4);
    reveal_strlit("newvmnic");
    assert("newvmnic"@.len() == 8);
    reveal_strlit("delvmnic");
    assert("delvmnic"@.len() == 8);
    reveal_strlit("newserver");
    assert("newserver"@.len() == 9);
    reveal_strlit("alias");
    assert("alias"@.len() == 5);
    reveal_strlit("alias-del");
    assert("alias-del"@.len() == 9);
    reveal_strlit("alias-list");
    assert("alias-list"@.len() == 10);
    reveal_strlit("resolve");
    assert("resolve"@.len() == 7);
    reveal_strlit("connect");
    assert("connect"@.len() == 7);
    reveal_strlit("disconnect");
    assert("disconnect"@.len() == 10);
    reveal_strlit("stop");
    assert("stop"@.len() == 4);
    reveal_strlit("list");
    assert("list"@.len() == 4);
    reveal_strlit("status");
    assert("status"@.len() == 6);
    reveal_strlit("log");
    assert("log"@.len() == 3);
    reveal_strlit("run");
    assert("run"@.len() == 3);
    assert("alias-del"@[0] != "newserver"@[0]);
    assert("alias-list"@[0] != "showpubkey"@[0]);
    assert("connect"@[0] != "resolve"@[0]);
    assert("connect"@[0] != "version"@[0]);
    assert("delvmnic"@[0] != "newvmnic"@[0]);
    assert("disconnect"@[0] != "alias-list"@[0]);
    assert("disconnect"@[0] != "showpubkey"@[0]);
    assert("join"@[0] != "help"@[0]);
    assert("list"@[0] != "help"@[0]);
    assert("list"@[0] != "join"@[0]);
    assert("list"@[0] != "stop"@[0]);
    assert("resolve"@[0] != "version"@[0]);
    assert("run"@[0] != "log"@[0]);
    assert("status"@[0] != "genkey"@[0]);
    assert("stop"@[0] != "help"@[0]);
    assert("stop"@[0] != "join"@[0]);
    numbers_are_read_back(n as nat, usize::MAX as nat);
    numbers_are_read_back(n as nat, 65535);
}

/// What becomes of the interfaces when one is created.
pub open spec fn nic_created(
    before: ClientConfig,
    name: Seq<char>,
    ip: Option<&str>,
    ip_valid: bool,
    r: Result<String, String>,
    after: ClientConfig,
) -> bool {
    match r {
        Ok(text) => {
            let addr = new_nic_ip(before, ip);
            &&& !has_nic(before.vm_nics@, name)
            &&& new_nic_ip_good(before, ip, ip_valid)
            &&& text@ == "已创建虚拟网卡 "@ + name + "（IP "@ + addr
                + " 占位，认证后以服务端分配为准）"@
            &&& after.vm_nics@.len() == before.vm_nics@.len() + 1
            &&& after.vm_nics@.drop_last() == before.vm_nics@
            &&& after.vm_nics@.last().name@ == name
            &&& after.vm_nics@.last().ip@ == addr
            &&& after.vm_nics@.last().netmask@ == "255.255.255.0"@
            &&& after.vm_nics@.last().mtu == DEFAULT_MTU
            &&& after == (ClientConfig { vm_nics: after.vm_nics, ..before })
        },
        Err(e) => {
            &&& after == before
            &&& if has_nic(before.vm_nics@, name) {
                e@ == "虚拟网卡 "@ + name + " 已存在"@
            } else {
                !new_nic_ip_good(before, ip, ip_valid) && e@ == "虚拟 IP "@ + new_nic_ip(
                    before,
                    ip,
                ) + " 非法"@
            }
        },
    }
}

/// What becomes of the names when one is set.
pub open spec fn name_set(
    before: ClientConfig,
    name: Seq<char>,
    ip: Seq<char>,
    ip_valid: bool,
    r: Result<(String, String), String>,
    after: ClientConfig,
) -> bool {
    match r {
        Ok((saved, hint)) => {
            let n = canonical(name);
            let a = trimmed(ip);
            &&& is_alias(n) && ip_valid
            &&& saved@ == "已保存本地别名 "@ + n + " -> "@ + a
            &&& hint@ == "提示：若 "@ + a
                + " 是本机虚拟 IP，该别名会自动自报给服务器，同房间设备可用 "@ + n
                + ":端口 访问本机"@
            &&& after.aliases@ == before.aliases@.insert(n, a)
            &&& after == (ClientConfig { aliases: after.aliases, ..before })
        },
        Err(e) => {
            &&& after == before
            &&& if !is_alias(canonical(name)) {
                e@ == alias_error(canonical(name))
            } else {
                !ip_valid && e@ == "虚拟 IP "@ + quoted(trimmed(ip)) + " 非法"@
            }
        },
    }
}

/// What becomes of the names when one is deleted.
pub open spec fn name_deleted(
    before: ClientConfig,
    name: Seq<char>,
    r: Result<String, String>,
    after: ClientConfig,
) -> bool {
    &&& after.aliases@ == before.aliases@.remove(name)
    &&& after == (ClientConfig { aliases: after.aliases, ..before })
    &&& match r {
        Ok(text) => before.aliases@.dom().contains(name) && text@ == "已删除本地别名 "@
            + name,
        Err(e) => !before.aliases@.dom().contains(name) && e@ == "别名 "@ + name
            + " 不存在"@,
    }
}

/// A name that was set has its address, written without white space around it, and one that
/// was deleted has none; no other name is touched.
pub proof fn names_are_set_and_deleted(
    c0: ClientConfig,
    name: Seq<char>,
    ip: Seq<char>,
    ip_valid: bool,
    r: Result<(String, String), String>,
    c1: ClientConfig,
    d: Result<String, String>,
    c2: ClientConfig,
    other: Seq<char>,
)
    requires
        name_set(c0, name, ip, ip_valid, r, c1),
        name_deleted(c1, canonical(name), d, c2),
        other != canonical(name),
    ensures
        is_alias(canonical(name)) && ip_valid <==> r is Ok,
        r is Ok ==> c1.aliases@.dom().contains(canonical(name)) && c1.aliases@[canonical(name)]
            == trimmed(ip) && d is Ok,
        r is Err ==> c1 == c0,
        !c2.aliases@.dom().contains(canonical(name)),
        c0.aliases@.dom().contains(other) <==> c2.aliases@.dom().contains(other),
        c0.aliases@.dom().contains(other) ==> c1.aliases@[other] == c0.aliases@[other]
            && c2.aliases@[other] == c0.aliases@[other],
        c2.servers == c0.servers && c2.vm_nics == c0.vm_nics && c2.connections
            == c0.connections,
{
}

} // verus!
