//! The commands that a running client takes.
use vstd::prelude::*;
use vstd::string::*;
use crate::client::aliases::{text_before, Aliases};
use crate::client::connection::ConnManager;
use crate::control::{authorized, opens, refused};
use crate::text::{join2, join3, same, say, texts};

verus! {

/// A command on the control channel. What a request leaves out is empty.
#[derive(Debug, Clone)]
pub struct CtrlRequest {
    pub cmd: String,
    pub token: String,
    pub server: String,
    pub name: String,
}

/// What a running client can be told to do.
#[derive(Debug, Clone)]
pub enum CtrlCommand {
    Stop,
    Disconnect(String),
    Start(String),
    Status,
    Connections,
    Resolve(String),
    DnsCache,
}

/// The command that a word stands for.
pub open spec fn command_of(req: CtrlRequest) -> Option<CtrlCommand> {
    if req.cmd@ == "stop"@ {
        Some(CtrlCommand::Stop)
    } else if req.cmd@ == "disconnect"@ {
        Some(CtrlCommand::Disconnect(req.server))
    } else if req.cmd@ == "start"@ {
        Some(CtrlCommand::Start(req.server))
    } else if req.cmd@ == "status"@ {
        Some(CtrlCommand::Status)
    } else if req.cmd@ == "connections"@ {
        Some(CtrlCommand::Connections)
    } else if req.cmd@ == "resolve"@ {
        Some(CtrlCommand::Resolve(req.name))
    } else if req.cmd@ == "dns-cache"@ {
        Some(CtrlCommand::DnsCache)
    } else {
        None
    }
}

/// Reads a request. Nothing is done for those who show the wrong token.
pub fn read_request(configured: &Option<String>, req: &CtrlRequest) -> (r: Result<
    CtrlCommand,
    String,
>)
    ensures
        match r {
            Ok(c) => opens(*configured, req.token@) && command_of(*req) == Some(c),
            Err(e) => if !opens(*configured, req.token@) {
                e@ == refused()
            } else {
                command_of(*req) is None && e@ == "未知命令 "@ + req.cmd@
            },
        },
{
    if !authorized(configured, req.token.as_str()) {
        return Err("鉴权失败：token 不匹配".to_owned());
    }
    let cmd = req.cmd.as_str();
    if same(cmd, "stop") {
        Ok(CtrlCommand::Stop)
    } else if same(cmd, "disconnect") {
        Ok(CtrlCommand::Disconnect(req.server.clone()))
    } else if same(cmd, "start") {
        Ok(CtrlCommand::Start(req.server.clone()))
    } else if same(cmd, "status") {
        Ok(CtrlCommand::Status)
    } else if same(cmd, "connections") {
        Ok(CtrlCommand::Connections)
    } else if same(cmd, "resolve") {
        Ok(CtrlCommand::Resolve(req.name.clone()))
    } else if same(cmd, "dns-cache") {
        Ok(CtrlCommand::DnsCache)
    } else {
        Err(join2("未知命令 ", cmd))
    }
}

/// The reply to the command to stop.
pub fn stopped() -> (r: String)
    ensures
        r@ == "客户端守护进程已停止"@,
{
    "客户端守护进程已停止".to_owned()
}

/// Ends a connection, and replies.
pub fn disconnect(manager: &mut ConnManager, server: &str) -> (r: Result<String, String>)
    requires
        old(manager).running.wf(),
    ensures
        final(manager).running.wf(),
        disconnected(*old(manager), server@, r, *final(manager)),
{
    match manager.stop(server) {
        Ok(_) => Ok(join2("已断开 ", server)),
        Err(e) => Err(e),
    }
}

/// The reply to the command to start a connection, given what came of it.
pub fn start_reply(server: &str, outcome: Result<(), String>) -> (r: Result<String, String>)
    ensures
        match (outcome, r) {
            (Ok(_), Ok(t)) => t@ == "已启动连接 "@ + server@,
            (Err(a), Err(b)) => a == b,
            _ => false,
        },
{
    match outcome {
        Ok(_) => Ok(join2("已启动连接 ", server)),
        Err(e) => Err(e),
    }
}

/// The reply to a question for a name. `enabled` says whether names are resolved at
/// all, `ip` what was found.
pub fn resolve_reply(name: &str, enabled: bool, ip: Option<String>) -> (r: Result<String, String>)
    ensures
        if !enabled {
            r is Err && r->Err_0@ == "内嵌 DNS 未启用（守护进程未配置 dns）"@
        } else {
            match (ip, r) {
                (Some(a), Ok(b)) => a == b,
                (None, Err(e)) => e@ == "别名 "@ + name@
                    + " 未解析到任何设备（可能不在同一房间或未上线）"@,
                _ => false,
            }
        },
{
    if !enabled {
        return Err("内嵌 DNS 未启用（守护进程未配置 dns）".to_owned());
    }
    match ip {
        Some(a) => Ok(a),
        None => Err(join3("别名 ", name, " 未解析到任何设备（可能不在同一房间或未上线）")),
    }
}

/// The reply to the question which names were resolved of late.
pub fn cache_reply(enabled: bool, names: Aliases) -> (r: Result<Aliases, String>)
    ensures
        match r {
            Ok(n) => enabled && n == names,
            Err(e) => !enabled && e@ == "内嵌 DNS 未启用"@,
        },
{
    if enabled {
        Ok(names)
    } else {
        Err("内嵌 DNS 未启用".to_owned())
    }
}

/// Whether texts stand in order, none of them twice.
pub open spec fn ascending(names: Seq<Seq<char>>) -> bool {
    forall|i: int, j: int|
        0 <= i < j < names.len() ==> text_before(#[trigger] names[i], #[trigger] names[j])
}

/// The running connections, in the order of the servers' names.
pub fn running_names(manager: &ConnManager) -> (r: Vec<String>)
    requires
        manager.running.wf(),
    ensures
        ascending(texts(r@)),
        texts(r@).to_set() == manager.running@.dom(),
{
    let mut sorted = Aliases::new();
    let n: usize = manager.running.len();
    let mut i: usize = 0;
    while i < n
        invariant
            i <= n,
            manager.running.wf(),
            n == manager.running.ids().len(),
            sorted.wf(),
            forall|name: Seq<char>|
                sorted@.dom().contains(name) <==> manager.running.ids().take(i as int).contains(
                    name,
                ),
        decreases n - i,
    {
        let name = manager.running.key_at(i).clone();
        let ghost before = sorted@;
        sorted.insert(name, String::new());
        proof {
            let ids = manager.running.ids();
            assert(ids.take(i + 1) =~= ids.take(i as int).push(ids[i as int]));
            assert forall|k: Seq<char>|
                sorted@.dom().contains(k) <==> ids.take(i + 1).contains(k) by {
                if ids.take(i as int).contains(k) {
                    let j = choose|j: int| 0 <= j < i && ids.take(i as int)[j] == k;
                    assert(ids.take(i + 1)[j] == k);
                }
                if k == ids[i as int] {
                    assert(ids.take(i + 1)[i as int] == k);
                }
            }
        }
        i = i + 1;
    }
    let m: usize = sorted.len();
    let mut out: Vec<String> = Vec::new();
    let mut j: usize = 0;
    while j < m
        invariant
            j <= m,
            m == sorted.names().len(),
            sorted.wf(),
            texts(out@) =~= sorted.names().take(j as int),
        decreases m - j,
    {
        say(&mut out, sorted.name_at(j).clone());
        j = j + 1;
    }
    proof {
        let ids = manager.running.ids();
        assert(sorted.names().take(m as int) =~= sorted.names());
        assert(ids.take(n as int) =~= ids);
        manager.running.lemma_dom();
        assert forall|k: Seq<char>|
            texts(out@).to_set().contains(k) <==> manager.running@.dom().contains(k) by {
            assert(sorted.names().contains(k) <==> sorted@.dom().contains(k));
            assert(ids.to_set().contains(k) <==> ids.contains(k));
        }
        assert(texts(out@).to_set() =~= manager.running@.dom());
    }
    out
}

/// What becomes of the connections when one is ended.
pub open spec fn disconnected(
    before: ConnManager,
    server: Seq<char>,
    r: Result<String, String>,
    after: ConnManager,
) -> bool {
    &&& after.running@ == before.running@.remove(server)
    &&& match r {
        Ok(t) => before.running@.dom().contains(server) && t@ == "已断开 "@ + server,
        Err(e) => !before.running@.dom().contains(server) && e@ == "连接 "@ + server
            + " 不存在"@,
    }
}

/// A connection that was ended runs no longer, and every other runs on.
pub proof fn one_connection_is_ended(
    before: ConnManager,
    server: Seq<char>,
    r: Result<String, String>,
    after: ConnManager,
    other: Seq<char>,
)
    requires
        disconnected(before, server, r, after),
    ensures
        !after.running@.dom().contains(server),
        other != server ==> (after.running@.dom().contains(other)
            <==> before.running@.dom().contains(other)),
        r is Ok <==> before.running@.dom().contains(server),
{
}

} // verus!
