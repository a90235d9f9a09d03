//! What the client shows of its configuration and its connections.
use vstd::prelude::*;
use vstd::string::*;
use crate::client::aliases::Aliases;
use crate::client::config::{ClientConfig, ConnectionEntry, ServerEntry, VmNicConfig};
use crate::client::connection::PeerState;
use crate::text::{decimal, join2, push_decimal, same, say, texts};

verus! {

/// Where a server's data is relayed, in words.
pub open spec fn relay_words(s: ServerEntry) -> Seq<char> {
    if !s.relay.enabled {
        "关闭"@
    } else if s.relay.endpoint@.len() == 0 {
        "服务器自身"@
    } else {
        s.relay.endpoint@
    }
}

/// The line about a server.
pub open spec fn server_line(s: ServerEntry) -> Seq<char> {
    "  "@ + s.name@ + " -> "@ + s.endpoint@ + "  (公钥: "@ + (match s.public_key {
        Some(k) => k@,
        None => "未获取"@,
    }) + ")  中继: "@ + relay_words(s) + "  房间令牌: "@ + (if s.token is Some {
        "已配置"@
    } else {
        "未配置"@
    })
}

/// The line about an interface.
pub open spec fn nic_line(n: VmNicConfig) -> Seq<char> {
    "  "@ + n.name@ + " ("@ + n.ip@ + "/"@ + n.netmask@ + ") MTU "@ + decimal(n.mtu as nat)
}

/// The line about a connection.
pub open spec fn connection_line(c: ConnectionEntry) -> Seq<char> {
    "  "@ + c.server@ + " <-> "@ + c.vm_nic@
}

/// The line about a name.
pub open spec fn alias_line(name: Seq<char>, ip: Seq<char>) -> Seq<char> {
    "  "@ + name + " -> "@ + ip
}

/// The lines about all servers.
pub open spec fn server_lines(s: Seq<ServerEntry>) -> Seq<Seq<char>> {
    s.map_values(|e: ServerEntry| server_line(e))
}

/// The lines about all interfaces.
pub open spec fn nic_lines(s: Seq<VmNicConfig>) -> Seq<Seq<char>> {
    s.map_values(|e: VmNicConfig| nic_line(e))
}

/// The lines about all connections.
pub open spec fn connection_lines(s: Seq<ConnectionEntry>) -> Seq<Seq<char>> {
    s.map_values(|e: ConnectionEntry| connection_line(e))
}

/// The lines about the first `n` names.
pub open spec fn name_lines(a: Aliases, n: nat) -> Seq<Seq<char>> {
    Seq::new(n, |i: int| alias_line(a.names()[i], a.ips()[i]))
}

/// The line about reconnecting.
pub open spec fn reconnect_line(secs: nat) -> Seq<char> {
    "自动重连: "@ + (if secs > 0 {
        "开启"@
    } else {
        "关闭"@
    }) + "（reconnect_secs="@ + decimal(secs) + "）"@
}

/// All that is said about a configuration in the file at `path`.
pub open spec fn config_report(cfg: ClientConfig, path: Seq<char>) -> Seq<Seq<char>> {
    seq!["配置文件: "@ + path, "已配置服务器:"@] + server_lines(cfg.servers@) + seq![
        "虚拟网卡:"@,
    ] + nic_lines(cfg.vm_nics@) + seq!["连接:"@] + connection_lines(cfg.connections@) + (
    if cfg.aliases.names().len() > 0 {
        seq!["本地别名:"@] + name_lines(cfg.aliases, cfg.aliases.names().len())
    } else {
        Seq::empty()
    }) + seq![reconnect_line(cfg.reconnect_secs as nat)] + (if cfg.dns.enabled {
        seq!["内嵌 DNS: udp "@ + cfg.dns.bind@ + ":"@ + decimal(cfg.dns.port as nat)]
    } else {
        Seq::empty()
    })
}

fn show_server(s: &ServerEntry) -> (r: String)
    ensures
        r@ == server_line(*s),
{
    let mut out = "  ".to_owned();
    out.append(s.name.as_str());
    out.append(" -> ");
    out.append(s.endpoint.as_str());
    out.append("  (公钥: ");
    match &s.public_key {
        Some(k) => {
            out.append(k.as_str());
        },
        None => {
            out.append("未获取");
        },
    }
    out.append(")  中继: ");
    if !s.relay.enabled {
        out.append("关闭");
    } else if s.relay.endpoint.as_str().unicode_len() == 0 {
        out.append("服务器自身");
    } else {
        out.append(s.relay.endpoint.as_str());
    }
    out.append("  房间令牌: ");
    if s.token.is_some() {
        out.append("已配置");
    } else {
        out.append("未配置");
    }
    out
}

fn show_nic(n: &VmNicConfig) -> (r: String)
    ensures
        r@ == nic_line(*n),
{
    let mut out = "  ".to_owned();
    out.append(n.name.as_str());
    out.append(" (");
    out.append(n.ip.as_str());
    out.append("/");
    out.append(n.netmask.as_str());
    out.append(") MTU ");
    push_decimal(&mut out, n.mtu as u64);
    out
}

fn show_alias(name: &str, ip: &str) -> (r: String)
    ensures
        r@ == alias_line(name@, ip@),
{
    let mut out = "  ".to_owned();
    out.append(name);
    out.append(" -> ");
    out.append(ip);
    out
}

fn show_reconnect(secs: u64) -> (r: String)
    ensures
        r@ == reconnect_line(secs as nat),
{
    let mut out = "自动重连: ".to_owned();
    if secs > 0 {
        out.append("开启");
    } else {
        out.append("关闭");
    }
    out.append("（reconnect_secs=");
    push_decimal(&mut out, secs);
    out.append("）");
    out
}

fn say_servers(out: &mut Vec<String>, servers: &Vec<ServerEntry>)
    ensures
        texts(final(out)@) == texts(old(out)@) + server_lines(servers@),
{
    let mut i: usize = 0;
    assert(texts(out@) =~= texts(old(out)@) + server_lines(servers@.take(0)));
    while i < servers.len()
        invariant
            i <= servers@.len(),
            texts(out@) == texts(old(out)@) + server_lines(servers@.take(i as int)),
        decreases servers@.len() - i,
    {
        say(out, show_server(&servers[i]));
        assert(texts(out@) =~= texts(old(out)@) + server_lines(servers@.take(i + 1)));
        i = i + 1;
    }
    assert(servers@.take(i as int) =~= servers@);
}

fn say_nics(out: &mut Vec<String>, nics: &Vec<VmNicConfig>)
    ensures
        texts(final(out)@) == texts(old(out)@) + nic_lines(nics@),
{
    let mut i: usize = 0;
    assert(texts(out@) =~= texts(old(out)@) + nic_lines(nics@.take(0)));
    while i < nics.len()
        invariant
            i <= nics@.len(),
            texts(out@) == texts(old(out)@) + nic_lines(nics@.take(i as int)),
        decreases nics@.len() - i,
    {
        say(out, show_nic(&nics[i]));
        assert(texts(out@) =~= texts(old(out)@) + nic_lines(nics@.take(i + 1)));
        i = i + 1;
    }
    assert(nics@.take(i as int) =~= nics@);
}

fn say_connections(out: &mut Vec<String>, connections: &Vec<ConnectionEntry>)
    ensures
        texts(final(out)@) == texts(old(out)@) + connection_lines(connections@),
{
    let mut i: usize = 0;
    assert(texts(out@) =~= texts(old(out)@) + connection_lines(connections@.take(0)));
    while i < connections.len()
        invariant
            i <= connections@.len(),
            texts(out@) == texts(old(out)@) + connection_lines(connections@.take(i as int)),
        decreases connections@.len() - i,
    {
        let mut line = "  ".to_owned();
        line.append(connections[i].server.as_str());
        line.append(" <-> ");
        line.append(connections[i].vm_nic.as_str());
        say(out, line);
        assert(texts(out@) =~= texts(old(out)@) + connection_lines(connections@.take(i + 1)));
        i = i + 1;
    }
    assert(connections@.take(i as int) =~= connections@);
}

fn say_names(out: &mut Vec<String>, names: &Aliases)
    requires
        names.wf(),
    ensures
        texts(final(out)@) == texts(old(out)@) + name_lines(*names, names.names().len()),
{
    let n: usize = names.len();
    let mut i: usize = 0;
    assert(texts(out@) =~= texts(old(out)@) + name_lines(*names, 0));
    while i < n
        invariant
            i <= n,
            n == names.names().len(),
            names.wf(),
            texts(out@) == texts(old(out)@) + name_lines(*names, i as nat),
        decreases n - i,
    {
        say(out, show_alias(names.name_at(i).as_str(), names.ip_at(i).as_str()));
        assert(texts(out@) =~= texts(old(out)@) + name_lines(*names, (i + 1) as nat));
        i = i + 1;
    }
}

/// What is said about a configuration in the file at `path`, line by line.
pub fn config_lines(cfg: &ClientConfig, path: &str) -> (r: Vec<String>)
    requires
        cfg.aliases.wf(),
    ensures
        texts(r@) == config_report(*cfg, path@),
{
    let mut out: Vec<String> = Vec::new();
    say(&mut out, join2("配置文件: ", path));
    say(&mut out, "已配置服务器:".to_owned());
    say_servers(&mut out, &cfg.servers);
    say(&mut out, "虚拟网卡:".to_owned());
    say_nics(&mut out, &cfg.vm_nics);
    say(&mut out, "连接:".to_owned());
    say_connections(&mut out, &cfg.connections);
    if !cfg.aliases.is_empty() {
        say(&mut out, "本地别名:".to_owned());
        say_names(&mut out, &cfg.aliases);
    }
    say(&mut out, show_reconnect(cfg.reconnect_secs));
    if cfg.dns.enabled {
        let mut line = "内嵌 DNS: udp ".to_owned();
        line.append(cfg.dns.bind.as_str());
        line.append(":");
        push_decimal(&mut line, cfg.dns.port as u64);
        say(&mut out, line);
    }
    assert(texts(out@) =~= config_report(*cfg, path@));
    out
}

/// All that is said about the configured names.
pub open spec fn alias_report(a: Aliases) -> Seq<Seq<char>> {
    if a.names().len() == 0 {
        seq!["本地别名表为空（可用 --alias \"名称\" \"虚拟IP\" 添加）"@]
    } else {
        seq!["本地别名表（共 "@ + decimal(a.names().len()) + " 条）:"@] + name_lines(
            a,
            a.names().len(),
        ) + seq!["另可用 --resolve \"名称\" 查看守护进程解析到的完整映射（含服务端别名）"@]
    }
}

/// What is said about the configured names, line by line.
pub fn alias_lines(names: &Aliases) -> (r: Vec<String>)
    requires
        names.wf(),
    ensures
        texts(r@) == alias_report(*names),
{
    let mut out: Vec<String> = Vec::new();
    if names.is_empty() {
        say(&mut out, "本地别名表为空（可用 --alias \"名称\" \"虚拟IP\" 添加）".to_owned());
    } else {
        let mut line = "本地别名表（共 ".to_owned();
        push_decimal(&mut line, names.len() as u64);
        line.append(" 条）:");
        say(&mut out, line);
        say_names(&mut out, names);
        say(
            &mut out,
            "另可用 --resolve \"名称\" 查看守护进程解析到的完整映射（含服务端别名）".to_owned(),
        );
    }
    assert(texts(out@) =~= alias_report(*names));
    out
}

/// All that is said about the names that the service knows.
pub open spec fn cache_report(a: Aliases) -> Seq<Seq<char>> {
    seq!["已缓存映射（共 "@ + decimal(a.names().len()) + " 条）:"@] + name_lines(
        a,
        a.names().len(),
    )
}

/// What is said about the names that the service knows, line by line.
pub fn cache_lines(names: &Aliases) -> (r: Vec<String>)
    requires
        names.wf(),
    ensures
        texts(r@) == cache_report(*names),
{
    let mut out: Vec<String> = Vec::new();
    let mut line = "已缓存映射（共 ".to_owned();
    push_decimal(&mut line, names.len() as u64);
    line.append(" 条）:");
    say(&mut out, line);
    say_names(&mut out, names);
    assert(texts(out@) =~= cache_report(*names));
    out
}

/// A running connection, as the service reports it.
#[derive(Debug, Clone)]
pub struct ConnReport {
    pub server: String,
    pub vmnic: String,
    pub status: String,
    pub error: Option<String>,
    pub rx_bytes: u64,
    pub tx_bytes: u64,
    pub peers: Vec<PeerState>,
}

/// The line about a peer.
pub open spec fn peer_line(p: PeerState) -> Seq<char> {
    "    IP "@ + p.ip@ + "  Endpoint "@ + p.endpoint@ + "  传输: "@ + p.transport@
}

/// The lines about all peers.
pub open spec fn peer_lines(s: Seq<PeerState>) -> Seq<Seq<char>> {
    s.map_values(|e: PeerState| peer_line(e))
}

/// The lines about a running connection.
pub open spec fn conn_lines(c: ConnReport) -> Seq<Seq<char>> {
    seq![
        "连接: "@ + c.server@ + " (网卡 "@ + c.vmnic@ + ")  状态: "@ + c.status@ + "  收/发: "@
            + decimal(c.rx_bytes as nat) + "/"@ + decimal(c.tx_bytes as nat) + " 字节"@,
    ] + (if c.error is Some && c.error->0@.len() > 0 {
        seq!["  错误: "@ + c.error->0@]
    } else {
        Seq::empty()
    }) + (if c.peers@.len() > 0 {
        seq!["  对端:"@] + peer_lines(c.peers@)
    } else {
        Seq::empty()
    })
}

/// Whether a connection is asked for.
pub open spec fn wanted(c: ConnReport, server: Option<&str>) -> bool {
    server is Some ==> c.server@ == server->0@
}

/// The lines about all connections that are asked for.
pub open spec fn all_conn_lines(items: Seq<ConnReport>, server: Option<&str>) -> Seq<Seq<char>>
    decreases items.len(),
{
    if items.len() == 0 {
        Seq::empty()
    } else {
        let rest = all_conn_lines(items.drop_last(), server);
        if wanted(items.last(), server) {
            rest + conn_lines(items.last())
        } else {
            rest
        }
    }
}

/// All that is said about the running connections, or about the one with a server.
pub open spec fn status_report(items: Seq<ConnReport>, server: Option<&str>) -> Seq<Seq<char>> {
    if exists|i: int| 0 <= i < items.len() && wanted(#[trigger] items[i], server) {
        all_conn_lines(items, server)
    } else {
        seq!["没有匹配的运行中连接"@]
    }
}

fn say_conn(out: &mut Vec<String>, c: &ConnReport)
    ensures
        texts(final(out)@) == texts(old(out)@) + conn_lines(*c),
{
    let mut line = "连接: ".to_owned();
    line.append(c.server.as_str());
    line.append(" (网卡 ");
    line.append(c.vmnic.as_str());
    line.append(")  状态: ");
    line.append(c.status.as_str());
    line.append("  收/发: ");
    push_decimal(&mut line, c.rx_bytes);
    line.append("/");
    push_decimal(&mut line, c.tx_bytes);
    line.append(" 字节");
    say(out, line);
    if let Some(e) = &c.error {
        if e.as_str().unicode_len() > 0 {
            say(out, join2("  错误: ", e.as_str()));
        }
    }
    if c.peers.len() > 0 {
        say(out, "  对端:".to_owned());
        let ghost head = texts(out@);
        let mut i: usize = 0;
        assert(texts(out@) =~= head + peer_lines(c.peers@.take(0)));
        while i < c.peers.len()
            invariant
                i <= c.peers@.len(),
                texts(out@) == head + peer_lines(c.peers@.take(i as int)),
            decreases c.peers@.len() - i,
        {
            let mut text = "    IP ".to_owned();
            text.append(c.peers[i].ip.as_str());
            text.append("  Endpoint ");
            text.append(c.peers[i].endpoint.as_str());
            text.append("  传输: ");
            text.append(c.peers[i].transport.as_str());
            say(out, text);
            assert(texts(out@) =~= head + peer_lines(c.peers@.take(i + 1)));
            i = i + 1;
        }
        assert(c.peers@.take(i as int) =~= c.peers@);
    }
    assert(texts(out@) =~= texts(old(out)@) + conn_lines(*c));
}

/// What is said about the running connections, or about the one with a server, line by
/// line.
pub fn status_lines(items: &Vec<ConnReport>, server: Option<&str>) -> (r: Vec<String>)
    ensures
        texts(r@) == status_report(items@, server),
{
    let mut out: Vec<String> = Vec::new();
    let mut found = false;
    let mut i: usize = 0;
    assert(texts(out@) =~= all_conn_lines(items@.take(0), server));
    while i < items.len()
        invariant
            i <= items@.len(),
            found <==> exists|k: int| 0 <= k < i && wanted(#[trigger] items@[k], server),
            texts(out@) == all_conn_lines(items@.take(i as int), server),
        decreases items@.len() - i,
    {
        let take = match server {
            Some(s) => same(items[i].server.as_str(), s),
            None => true,
        };
        assert(take == wanted(items@[i as int], server));
        assert(items@.take(i + 1).drop_last() =~= items@.take(i as int));
        if take {
            say_conn(&mut out, &items[i]);
            found = true;
        }
        i = i + 1;
    }
    assert(items@.take(i as int) =~= items@);
    if !found {
        let mut none: Vec<String> = Vec::new();
        say(&mut none, "没有匹配的运行中连接".to_owned());
        assert(texts(none@) =~= status_report(items@, server));
        return none;
    }
    out
}

} // verus!
