//! The commands that a running server takes.
use vstd::prelude::*;
use vstd::string::*;
use crate::alias::{alias_error, canonical, is_alias};
use crate::client::aliases::Aliases;
use crate::control::{authorized, opens, refused};
use crate::outside::quoted;
use crate::seqs::keep_if;
use crate::server::config::{
    alias_added, any_room_named, room_added, room_error, token_digest, RoomEntry, ServerConfig,
};
use crate::server::routes::{entry_of, rk_of, rk_released, RouteTable};
use crate::server::signaling::{alias_map, alias_table, copy_rooms, Signaling};
use crate::table::{RawKey, Table};
use crate::text::{decimal, join2, join3, push_decimal, same, trimmed};

verus! {

/// A command on the control channel. What a request leaves out is empty.
#[derive(Debug, Clone)]
pub struct CtrlRequest {
    pub cmd: String,
    pub token: String,
    pub key: String,
    pub name: String,
    pub ip: String,
    pub reason: String,
}

/// What a running server can be told to do.
#[derive(Debug, Clone)]
pub enum CtrlCommand {
    Stop,
    Routes,
    DelPeer { key: String },
    Status,
    AddRoom { name: String, token: String },
    RemoveRoom { name: String },
    Rooms,
    Alias { name: String, ip: String },
    AliasDel { name: String },
    AliasList,
    Revoke { target: String, reason: Option<String> },
}

/// A text, or nothing where it is empty.
pub open spec fn not_empty(s: String) -> Option<String> {
    if s@.len() > 0 {
        Some(s)
    } else {
        None
    }
}

/// The command that a word stands for.
pub open spec fn command_of(req: CtrlRequest) -> Option<CtrlCommand> {
    if req.cmd@ == "stop"@ {
        Some(CtrlCommand::Stop)
    } else if req.cmd@ == "routes"@ {
        Some(CtrlCommand::Routes)
    } else if req.cmd@ == "delpeer"@ {
        Some(CtrlCommand::DelPeer { key: req.key })
    } else if req.cmd@ == "status"@ {
        Some(CtrlCommand::Status)
    } else if req.cmd@ == "add-room"@ {
        Some(CtrlCommand::AddRoom { name: req.name, token: req.token })
    } else if req.cmd@ == "remove-room"@ {
        Some(CtrlCommand::RemoveRoom { name: req.name })
    } else if req.cmd@ == "rooms"@ {
        Some(CtrlCommand::Rooms)
    } else if req.cmd@ == "alias"@ {
        Some(CtrlCommand::Alias { name: req.name, ip: req.ip })
    } else if req.cmd@ == "alias-del"@ {
        Some(CtrlCommand::AliasDel { name: req.name })
    } else if req.cmd@ == "alias-list"@ {
        Some(CtrlCommand::AliasList)
    } else if req.cmd@ == "revoke"@ {
        Some(CtrlCommand::Revoke { target: req.key, reason: not_empty(req.reason) })
    } else {
        None
    }
}

/// Reads a request. Nothing is done for those who show the wrong token.
pub fn read_request(configured: &Option<String>, req: &CtrlRequest) -> (r: Result<
    CtrlCommand,
    String,
>)
    ensures
        match r {
            Ok(c) => opens(*configured, req.token@) && command_of(*req) == Some(c),
            Err(e) => if !opens(*configured, req.token@) {
                e@ == refused()
            } else {
                command_of(*req) is None && e@ == "未知命令 "@ + req.cmd@
            },
        },
{
    if !authorized(configured, req.token.as_str()) {
        return Err("鉴权失败：token 不匹配".to_owned());
    }
    let cmd = req.cmd.as_str();
    if same(cmd, "stop") {
        Ok(CtrlCommand::Stop)
    } else if same(cmd, "routes") {
        Ok(CtrlCommand::Routes)
    } else if same(cmd, "delpeer") {
        Ok(CtrlCommand::DelPeer { key: req.key.clone() })
    } else if same(cmd, "status") {
        Ok(CtrlCommand::Status)
    } else if same(cmd, "add-room") {
        Ok(CtrlCommand::AddRoom { name: req.name.clone(), token: req.token.clone() })
    } else if same(cmd, "remove-room") {
        Ok(CtrlCommand::RemoveRoom { name: req.name.clone() })
    } else if same(cmd, "rooms") {
        Ok(CtrlCommand::Rooms)
    } else if same(cmd, "alias") {
        Ok(CtrlCommand::Alias { name: req.name.clone(), ip: req.ip.clone() })
    } else if same(cmd, "alias-del") {
        Ok(CtrlCommand::AliasDel { name: req.name.clone() })
    } else if same(cmd, "alias-list") {
        Ok(CtrlCommand::AliasList)
    } else if same(cmd, "revoke") {
        let reason = if req.reason.as_str().unicode_len() > 0 {
            Some(req.reason.clone())
        } else {
            None
        };
        Ok(CtrlCommand::Revoke { target: req.key.clone(), reason })
    } else {
        Err(join2("未知命令 ", cmd))
    }
}

/// The reply to the command to stop.
pub fn stopped() -> (r: String)
    ensures
        r@ == "服务已停止"@,
{
    "服务已停止".to_owned()
}

/// Removes a client from the routes, and replies. `key` is its public key, or what is
/// wrong with the text that was to give it.
pub fn delete_peer(routes: &mut RouteTable, key: Result<RawKey, String>) -> (r: Result<
    String,
    String,
>)
    requires
        old(routes).wf(),
    ensures
        final(routes).wf(),
        peer_deleted(*old(routes), key, r, *final(routes)),
{
    match key {
        Ok(k) => {
            let existed = routes.get(&k).is_some();
            routes.remove(&k);
            if existed {
                Ok("已移除".to_owned())
            } else {
                Ok("对端不存在".to_owned())
            }
        },
        Err(e) => Err(e),
    }
}

/// The reply to a revocation, given what came of it.
pub fn revoke_reply(device_id: &str, outcome: Result<u64, String>) -> (r: Result<String, String>)
    ensures
        match (outcome, r) {
            (Ok(v), Ok(t)) => t@ == "已吊销设备 "@ + device_id@ + "，CRL 版本 -> "@ + decimal(
                v as nat,
            ),
            (Err(a), Err(b)) => a == b,
            _ => false,
        },
{
    match outcome {
        Ok(v) => {
            let mut t = join3("已吊销设备 ", device_id, "，CRL 版本 -> ");
            push_decimal(&mut t, v);
            Ok(t)
        },
        Err(e) => Err(e),
    }
}

/// Adds a room or changes its token, for the running server and in the configuration
/// that is to be saved, and replies.
pub fn add_room(s: &mut Signaling, cfg: &mut ServerConfig, name: &str, token: &str) -> (r: Result<
    String,
    String,
>)
    ensures
        match r {
            Ok(t) => {
                &&& room_error(name@, token@) is None
                &&& t@ == "房间 "@ + name@ + " 已保存（令牌以哈希存储）"@
                &&& room_added(
                    old(cfg).rooms@,
                    final(cfg).rooms@,
                    canonical(name@),
                    token_digest(token@),
                )
                &&& final(s).rooms@ == final(cfg).rooms@
            },
            Err(e) => {
                &&& room_error(name@, token@) == Some(e@)
                &&& final(cfg).rooms == old(cfg).rooms
                &&& final(s).rooms == old(s).rooms
            },
        },
        *final(cfg) == (ServerConfig { rooms: final(cfg).rooms, ..*old(cfg) }),
        *final(s) == (Signaling { rooms: final(s).rooms, ..*old(s) }),
{
    match cfg.add_room(name, token) {
        Ok(_) => {
            s.rooms = copy_rooms(&cfg.rooms);
            Ok(join3("房间 ", name, " 已保存（令牌以哈希存储）"))
        },
        Err(e) => Err(e),
    }
}

/// The rooms with another name.
pub open spec fn other_rooms(name: Seq<char>) -> spec_fn(RoomEntry) -> bool {
    |e: RoomEntry| e.name@ != name
}

/// Removes a room from the running server, and replies.
pub fn remove_room(s: &mut Signaling, name: &str) -> (r: Result<String, String>)
    ensures
        room_removed(*old(s), name@, r, *final(s)),
{
    let mut found = false;
    let mut i: usize = 0;
    while i < s.rooms.len()
        invariant
            *s == *old(s),
            i <= s.rooms@.len(),
            found <==> exists|k: int| 0 <= k < i && (#[trigger] s.rooms@[k]).name@ == name@,
        decreases s.rooms@.len() - i,
    {
        if same(s.rooms[i].name.as_str(), name) {
            found = true;
        }
        i = i + 1;
    }
    let mut rooms: Vec<RoomEntry> = Vec::new();
    std::mem::swap(&mut rooms, &mut s.rooms);
    let keep = |e: &RoomEntry| -> (b: bool)
        ensures
            b == (e.name@ != name@),
    { !same(e.name.as_str(), name) };
    s.rooms = keep_if(rooms, keep, Ghost(other_rooms(name@)));
    if found {
        Ok(join3("房间 ", name, " 已删除"))
    } else {
        Err(join3("房间 ", name, " 不存在"))
    }
}

/// The reply to a command that the running server has carried out, given whether the
/// change could be saved.
pub fn saved_reply(reply: String, saved: Result<(), String>) -> (r: Result<String, String>)
    ensures
        match saved {
            Ok(_) => r == Ok::<String, String>(reply),
            Err(e) => r is Err && r->Err_0@ == "已生效但持久化失败: "@ + e@,
        },
{
    match saved {
        Ok(_) => Ok(reply),
        Err(e) => Err(join2("已生效但持久化失败: ", e.as_str())),
    }
}

/// The number of bytes of a character in UTF-8.
pub open spec fn utf8_len(c: char) -> nat {
    if c as u32 <= 0x7f {
        1
    } else if c as u32 <= 0x7ff {
        2
    } else if c as u32 <= 0xffff {
        3
    } else {
        4
    }
}

/// As much of the beginning of a text as fits in `room` bytes of UTF-8.
pub open spec fn fitting(s: Seq<char>, room: nat) -> Seq<char>
    decreases s.len(),
{
    if s.len() == 0 || utf8_len(s[0]) > room {
        Seq::empty()
    } else {
        seq![s[0]] + fitting(s.drop_first(), (room - utf8_len(s[0])) as nat)
    }
}

/// The beginning of a digest, to be shown in its place.
pub open spec fn short_digest(digest: Seq<char>) -> Seq<char> {
    fitting(digest, 12)
}

pub fn shorten(digest: &str) -> (r: String)
    ensures
        r@ == short_digest(digest@),
{
    let n: usize = digest.unicode_len();
    let mut out = String::new();
    let mut room: u32 = 12;
    let mut i: usize = 0;
    assert(digest@.skip(0) =~= digest@);
    while i < n
        invariant
            i <= n,
            n == digest@.len(),
            short_digest(digest@) == out@ + fitting(digest@.skip(i as int), room as nat),
        decreases n - i,
    {
        let c = digest.get_char(i);
        let len: u32 = if c as u32 <= 0x7f {
            1
        } else if c as u32 <= 0x7ff {
            2
        } else if c as u32 <= 0xffff {
            3
        } else {
            4
        };
        let ghost rest = digest@.skip(i as int);
        assert(rest[0] == c);
        if len > room {
            assert(out@ + fitting(rest, room as nat) =~= out@);
            return out;
        }
        let ghost before = out@;
        out.push(c);
        room = room - len;
        assert(rest.drop_first() =~= digest@.skip(i + 1));
        assert(before + (seq![c] + fitting(digest@.skip(i + 1), room as nat)) =~= out@ + fitting(
            digest@.skip(i + 1),
            room as nat,
        ));
        i = i + 1;
    }
    assert(out@ + fitting(digest@.skip(n as int), room as nat) =~= out@);
    out
}

/// A room, as it is shown: its name and the beginning of its token's digest.
#[derive(Debug, Clone)]
pub struct RoomReport {
    pub name: String,
    pub token_hash: String,
}

/// How a room is shown.
pub open spec fn shows(report: RoomReport, room: RoomEntry) -> bool {
    report.name == room.name && report.token_hash@ == short_digest(room.token_hash@) + "…"@
}

/// The rooms of the running server, as they are shown.
pub fn room_reports(rooms: &Vec<RoomEntry>) -> (r: Vec<RoomReport>)
    ensures
        r@.len() == rooms@.len(),
        forall|i: int| 0 <= i < r@.len() ==> shows(#[trigger] r@[i], rooms@[i]),
{
    let mut out: Vec<RoomReport> = Vec::new();
    let mut i: usize = 0;
    while i < rooms.len()
        invariant
            i <= rooms@.len(),
            out@.len() == i,
            forall|k: int| 0 <= k < i ==> shows(#[trigger] out@[k], rooms@[k]),
        decreases rooms@.len() - i,
    {
        let mut short = shorten(rooms[i].token_hash.as_str());
        short.append("…");
        out.push(RoomReport { name: rooms[i].name.clone(), token_hash: short });
        i = i + 1;
    }
    out
}

/// Binds a name to an address, for the running server and in the configuration that is
/// to be saved, and replies. `ip_valid` says whether the address is an IP address.
pub fn add_alias(
    s: &mut Signaling,
    cfg: &mut ServerConfig,
    name: &str,
    ip: &str,
    ip_valid: bool,
) -> (r: Result<String, String>)
    requires
        old(s).aliases.wf(),
    ensures
        final(s).aliases.wf(),
        name_bound(*old(s), *old(cfg), name@, ip@, ip_valid, r, *final(s), *final(cfg)),
{
    match cfg.add_alias(name, ip, ip_valid) {
        Ok(_) => {
            s.aliases = alias_table(&cfg.aliases);
            let mut t = join3("别名 ", name, " -> ");
            t.append(ip);
            t.append(" 已保存");
            Ok(t)
        },
        Err(e) => Err(e),
    }
}

/// Removes a name from the running server, and replies.
pub fn remove_alias(s: &mut Signaling, name: &str) -> (r: Result<String, String>)
    requires
        old(s).aliases.wf(),
    ensures
        final(s).aliases.wf(),
        name_unbound(*old(s), name@, r, *final(s)),
{
    match s.aliases.remove(&name.to_owned()) {
        Some(_) => Ok(join3("别名 ", name, " 已删除")),
        None => Err(join3("别名 ", name, " 不存在")),
    }
}

/// The bound names with their addresses, in order.
pub fn alias_list(aliases: &Table<String, String>) -> (r: Aliases)
    requires
        aliases.wf(),
    ensures
        r.wf(),
        r@ == aliases@.map_values(|ip: String| ip@),
{
    let mut out = Aliases::new();
    let mut i: usize = 0;
    let ghost ids = aliases.ids();
    let ghost want = aliases@.map_values(|ip: String| ip@);
    while i < aliases.len()
        invariant
            aliases.wf(),
            out.wf(),
            ids == aliases.ids(),
            want == aliases@.map_values(|ip: String| ip@),
            i <= ids.len(),
            forall|j: int| 0 <= j < i ==> out@.dom().contains(#[trigger] ids[j]),
            out@.submap_of(want),
        decreases ids.len() - i,
    {
        let key = aliases.key_at(i);
        let ip = aliases.value_at(i);
        proof {
            aliases.lemma_at(i as int);
            let k = ids[i as int];
            assert(want.dom().contains(k));
            assert(want[k] == ip@);
        }
        out.insert(key.clone(), ip.clone());
        i = i + 1;
    }
    proof {
        aliases.lemma_dom();
        assert forall|k: Seq<char>| want.dom().contains(k) implies out@.dom().contains(k) by {
            assert(aliases@.dom().contains(k));
            assert(ids.contains(k));
            let j = choose|j: int| 0 <= j < ids.len() && ids[j] == k;
            assert(out@.dom().contains(ids[j]));
        }
        assert(out@ =~= want);
    }
    out
}

/// What becomes of the rooms when one is removed.
pub open spec fn room_removed(
    before: Signaling,
    name: Seq<char>,
    r: Result<String, String>,
    after: Signaling,
) -> bool {
    &&& after.rooms@ == before.rooms@.filter(other_rooms(name))
    &&& after == (Signaling { rooms: after.rooms, ..before })
    &&& match r {
        Ok(t) => any_room_named(before.rooms@, name) && t@ == "房间 "@ + name + " 已删除"@,
        Err(e) => !any_room_named(before.rooms@, name) && e@ == "房间 "@ + name + " 不存在"@,
    }
}

/// What becomes of the names when one is bound to an address.
pub open spec fn name_bound(
    before: Signaling,
    cfg0: ServerConfig,
    name: Seq<char>,
    ip: Seq<char>,
    ip_valid: bool,
    r: Result<String, String>,
    after: Signaling,
    cfg1: ServerConfig,
) -> bool {
    &&& match r {
        Ok(t) => {
            &&& is_alias(canonical(name)) && trimmed(ip).len() > 0 && ip_valid
            &&& t@ == "别名 "@ + name + " -> "@ + ip + " 已保存"@
            &&& alias_added(
                cfg0.aliases@,
                cfg1.aliases@,
                canonical(name),
                trimmed(ip),
            )
            &&& after.aliases@ == alias_map(cfg1.aliases@)
        },
        Err(e) => {
            &&& cfg1.aliases == cfg0.aliases
            &&& after.aliases == before.aliases
            &&& if !is_alias(canonical(name)) {
                e@ == alias_error(canonical(name))
            } else {
                (trimmed(ip).len() == 0 || !ip_valid) && e@ == "别名 "@ + canonical(name)
                    + " 的目标 IP "@ + quoted(trimmed(ip)) + " 非法（必须为合法 IP）"@
            }
        },
    }
    &&& cfg1 == (ServerConfig { aliases: cfg1.aliases, ..cfg0 })
    &&& after == (Signaling { aliases: after.aliases, ..before })
}

/// What becomes of the names when one is unbound.
pub open spec fn name_unbound(
    before: Signaling,
    name: Seq<char>,
    r: Result<String, String>,
    after: Signaling,
) -> bool {
    &&& after.aliases@ == before.aliases@.remove(name)
    &&& after == (Signaling { aliases: after.aliases, ..before })
    &&& match r {
        Ok(t) => before.aliases@.dom().contains(name) && t@ == "别名 "@ + name + " 已删除"@,
        Err(e) => !before.aliases@.dom().contains(name) && e@ == "别名 "@ + name
            + " 不存在"@,
    }
}

/// What becomes of the routes when a device is removed from them.
pub open spec fn peer_deleted(
    before: RouteTable,
    key: Result<RawKey, String>,
    r: Result<String, String>,
    after: RouteTable,
) -> bool {
    match (key, r) {
        (Ok(k), Ok(t)) => {
            &&& t@ == if entry_of(before.entries(), k) is Some {
                "已移除"@
            } else {
                "对端不存在"@
            }
            &&& after.entries() == before.entries().remove(k)
            &&& after.addresses() == (match entry_of(before.entries(), k) {
                Some(e) => before.addresses().remove(e.ip@),
                None => before.addresses(),
            })
            &&& after.relay_keys() == rk_released(
                before.relay_keys(),
                k,
                rk_of(entry_of(before.entries(), k)),
            )
        },
        (Err(a), Err(b)) => a == b && after == before,
        _ => false,
    }
}

/// The address of a name that occurs once is the one that stands beside it.
proof fn lemma_one_name(aliases: Seq<crate::server::config::AliasEntry>, i: int)
    requires
        0 <= i < aliases.len(),
        forall|j: int|
            0 <= j < aliases.len() && j != i ==> (#[trigger] aliases[j]).name@ != aliases[i].name@,
    ensures
        alias_map(aliases).dom().contains(aliases[i].name@),
        alias_map(aliases)[aliases[i].name@] == aliases[i].ip,
    decreases aliases.len(),
{
    if i < aliases.len() - 1 {
        let shorter = aliases.drop_last();
        assert(shorter[i] == aliases[i]);
        assert forall|j: int| 0 <= j < shorter.len() && j != i implies (
        #[trigger] shorter[j]).name@ != shorter[i].name@ by {
            assert(shorter[j] == aliases[j]);
        }
        lemma_one_name(shorter, i);
        assert(aliases[aliases.len() - 1].name@ != aliases[i].name@);
    }
}

/// A name that the administrator bound to an address leads there from then on, in every room
/// and whatever the case it was written in, where the names that were bound before are
/// distinct.
pub proof fn a_bound_name_leads_to_its_address(
    before: Signaling,
    cfg0: ServerConfig,
    name: Seq<char>,
    ip: Seq<char>,
    ip_valid: bool,
    r: Result<String, String>,
    after: Signaling,
    cfg1: ServerConfig,
    room: Seq<char>,
)
    requires
        name_bound(before, cfg0, name, ip, ip_valid, r, after, cfg1),
        forall|i: int, j: int|
            0 <= i < j < cfg0.aliases@.len() ==> (#[trigger] cfg0.aliases@[i]).name@ != (
            #[trigger] cfg0.aliases@[j]).name@,
    ensures
        is_alias(canonical(name)) && trimmed(ip).len() > 0 && ip_valid ==> r is Ok,
        r is Ok ==> crate::server::signaling::resolved_name(after, canonical(name), room) == Some(
            trimmed(ip),
        ),
        r is Err ==> after.aliases == before.aliases && cfg1.aliases == cfg0.aliases,
        after.routes == before.routes && after.sessions == before.sessions && after.mesh
            == before.mesh && after.rooms == before.rooms,
{
    if r is Ok {
        let key = canonical(name);
        let a0 = cfg0.aliases@;
        let a1 = cfg1.aliases@;
        crate::server::config::a_bound_name_is_found(a0, a1, key, trimmed(ip));
        if crate::server::config::any_alias_named(a0, key) {
            let i = choose|i: int| 0 <= i < a0.len() && (#[trigger] a0[i]).name@ == key;
            assert(crate::server::config::alias_named(a0, key, i));
            assert(a1[i].name@ == key);
            assert forall|j: int| 0 <= j < a1.len() && j != i implies (#[trigger] a1[j]).name@
                != a1[i].name@ by {
                assert(a1[j].name == a0[j].name);
                if j < i {
                    assert(a0[j].name@ != a0[i].name@);
                } else {
                    assert(a0[i].name@ != a0[j].name@);
                }
            }
            lemma_one_name(a1, i);
        } else {
            let i = a1.len() - 1;
            assert forall|j: int| 0 <= j < a1.len() && j != i implies (#[trigger] a1[j]).name@
                != a1[i].name@ by {
                assert(a1.drop_last()[j] == a0[j]);
            }
            lemma_one_name(a1, i);
            assert(a1[i].ip@ == trimmed(ip));
        }
    }
}

/// A name that was unbound leads to no address any more but that of a device which goes by
/// it, and all other names lead where they led.
pub proof fn an_unbound_name_leads_nowhere(
    before: Signaling,
    name: Seq<char>,
    r: Result<String, String>,
    after: Signaling,
    other: Seq<char>,
    room: Seq<char>,
)
    requires
        name_unbound(before, name, r, after),
    ensures
        !after.aliases@.dom().contains(name),
        other != name ==> crate::server::signaling::resolved_name(after, other, room)
            == crate::server::signaling::resolved_name(before, other, room),
        r is Ok <==> before.aliases@.dom().contains(name),
        after.routes == before.routes && after.sessions == before.sessions && after.mesh
            == before.mesh && after.rooms == before.rooms,
{
}

/// A device that was removed is no longer found, not by its key nor by its address nor by its
/// relay key, and every other device is found as before.
pub proof fn a_removed_device_is_not_found(
    before: RouteTable,
    key: RawKey,
    r: Result<String, String>,
    after: RouteTable,
    other: RawKey,
    relay_key: Seq<char>,
)
    requires
        before.wf(),
        peer_deleted(before, Ok(key), r, after),
    ensures
        r is Ok && !after.entries().dom().contains(key),
        before.entries().dom().contains(key) ==> !after.addresses().dom().contains(
            before.entries()[key].ip@,
        ),
        other != key && before.entries().dom().contains(other)
            ==> after.entries().dom().contains(other) && after.entries()[other]
            == before.entries()[other],
        before.relay_keys().dom().contains(relay_key) && before.relay_keys()[relay_key] != key
            ==> after.relay_keys().dom().contains(relay_key)
            && after.relay_keys()[relay_key] == before.relay_keys()[relay_key],
{
}

} // verus!
