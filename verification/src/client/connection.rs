//! Connections: how one is set up, when the server is trusted, and when to connect
//! again.
//!
//! Instants are seconds since the Unix epoch where certificates are concerned, else
//! milliseconds of one clock that does not run backwards.
use vstd::prelude::*;
use vstd::string::*;
use crate::cert::{copy_text, lists};
use crate::client::aliases::Aliases;
use crate::client::laws::{
    a_session_is_taken_up, takes_up_session, the_known_server_is_trusted, trusts_the_known,
};
use crate::client::config::{
    has_connection, has_nic, has_server, nic_at, server_at, connection_at, no_identity,
    ClientConfig, ConnectionEntry, HolePunchConfig, RelayTarget, ServerEntry, VmNicConfig,
};
use crate::client::outbox::{Learned, Outbox};
use crate::client::peer::PeerSession;
use crate::net::Endpoint;
use crate::outside::{base64_chars, base64_encode, lemma_base64_is_trimmed, quote, quoted, reads_as};
use crate::protocol::{AuthBody, AuthRespBody, MsgKind, RegisterBody, ResponseBody};
use crate::server::signaling::auth_nonce;
use crate::table::{same_raw_key, RawKey, Table};
use crate::text::{decimal, join3, push_decimal, same};

verus! {

/// A peer, as a status report shows it.
#[derive(Debug, Clone)]
pub struct PeerState {
    pub ip: String,
    pub endpoint: String,
    pub transport: String,
}

/// A peer, as a status report shows it. `endpoint` is its address and port as text,
/// empty where it is not known.
pub fn peer_state(s: &PeerSession, endpoint: String) -> (r: PeerState)
    ensures
        r.ip == s.ip,
        r.endpoint == endpoint,
        r.transport@ == s.transport.label(),
{
    PeerState { ip: s.ip.clone(), endpoint, transport: s.transport.as_str().to_owned() }
}

/// A connection, as a status report shows it.
#[derive(Debug, Clone)]
pub struct ConnectionState {
    pub server: String,
    pub vmnic: String,
    pub status: String,
    pub error: Option<String>,
}

impl ConnectionState {
    pub fn new(server: String, vmnic: String) -> (r: Self)
        ensures
            r.server == server,
            r.vmnic == vmnic,
            r.status@ == "连接中"@,
            r.error is None,
    {
        ConnectionState { server, vmnic, status: "连接中".to_owned(), error: None }
    }

    pub fn set_status(&mut self, s: &str)
        ensures
            final(self).status@ == s@,
            *final(self) == (ConnectionState { status: final(self).status, ..*old(self) }),
    {
        self.status = s.to_owned();
    }

    pub fn set_error(&mut self, e: String)
        ensures
            final(self).status@ == "错误"@,
            *final(self) == (ConnectionState {
                status: final(self).status,
                error: Some(e),
                ..*old(self)
            }),
    {
        self.set_status("错误");
        self.error = Some(e);
    }
}

/// How a connection ended.
#[derive(Debug)]
pub enum ConnExit {
    /// It was stopped.
    Stopped,
    /// It failed.
    Error(String),
}

/// How many heartbeats have to fail before the server counts as lost.
pub const LOST_AFTER_HEARTBEATS: u32 = 3;

/// The least time between heartbeats.
pub const MIN_HEARTBEAT_SECS: u64 = 5;

/// One connection.
pub struct Conn {
    pub state: ConnectionState,
    pub outbox: Outbox,
    pub server: ServerEntry,
    pub vmnic: VmNicConfig,
    pub server_pub: RawKey,
    pub heartbeat_secs: u64,
    pub failed_heartbeats: u32,
}

impl ServerEntry {
    pub fn copy(&self) -> (r: Self)
        ensures
            r == *self,
    {
        ServerEntry {
            name: self.name.clone(),
            endpoint: self.endpoint.clone(),
            public_key: copy_text(&self.public_key),
            relay: RelayTarget {
                enabled: self.relay.enabled,
                endpoint: self.relay.endpoint.clone(),
            },
            mesh_root_pub: copy_text(&self.mesh_root_pub),
            device_cert: match &self.device_cert {
                Some(c) => Some(c.copy()),
                None => None,
            },
            crl_version: self.crl_version,
            token: copy_text(&self.token),
        }
    }
}

impl VmNicConfig {
    pub fn copy(&self) -> (r: Self)
        ensures
            r == *self,
    {
        VmNicConfig {
            name: self.name.clone(),
            ip: self.ip.clone(),
            netmask: self.netmask.clone(),
            mtu: self.mtu,
        }
    }
}

/// What keeps a connection from being set up. `server_addr` is the server's address,
/// or what is wrong with its text.
pub open spec fn setup_error(
    cfg: ClientConfig,
    conn: ConnectionEntry,
    server_addr: Result<Endpoint, String>,
) -> Option<Seq<char>> {
    if !has_server(cfg.servers@, conn.server@) {
        Some("服务器 "@ + conn.server@ + " 未配置"@)
    } else if !has_nic(cfg.vm_nics@, conn.vm_nic@) {
        Some("虚拟网卡 "@ + conn.vm_nic@ + " 未配置"@)
    } else if cfg.identity is None {
        Some(no_identity())
    } else {
        match server_addr {
            Ok(_) => None,
            Err(e) => {
                let i = choose|i: int| server_at(cfg.servers@, conn.server@, i);
                Some("服务器地址 "@ + cfg.servers@[i].endpoint@ + " 解析失败: "@ + e@)
            },
        }
    }
}

/// The heartbeat interval that a configured one comes to.
pub open spec fn heartbeat_of(secs: u64) -> u64 {
    if secs < MIN_HEARTBEAT_SECS {
        MIN_HEARTBEAT_SECS
    } else {
        secs
    }
}

/// Where a server's packets are relayed: at its own relay address where it has one
/// that can be read, else at the server.
pub open spec fn relay_address(
    server: ServerEntry,
    server_addr: Endpoint,
    relay_addr: Option<Endpoint>,
) -> Endpoint {
    if server.relay.enabled && server.relay.endpoint@.len() > 0 && relay_addr is Some {
        relay_addr->0
    } else {
        server_addr
    }
}

/// What stands in the place of a key that is not known yet.
pub open spec fn no_key() -> Seq<u8> {
    Seq::new(32, |i: int| 0u8)
}

/// A connection that has just been set up.
pub open spec fn is_new_conn(
    c: Conn,
    cfg: ClientConfig,
    conn: ConnectionEntry,
    server: ServerEntry,
    nic: VmNicConfig,
    server_addr: Endpoint,
    relay_addr: Option<Endpoint>,
    relay_rk: RawKey,
) -> bool {
    &&& c.outbox.wf()
    &&& c.state.server == conn.server
    &&& c.state.vmnic == conn.vm_nic
    &&& c.state.status@ == "连接中"@
    &&& c.state.error is None
    &&& c.server == server
    &&& c.vmnic == nic
    &&& c.heartbeat_secs == heartbeat_of(cfg.heartbeat_sec)
    &&& c.failed_heartbeats == 0
    &&& c.server_pub@ == no_key()
    &&& c.outbox.server_shared@ == no_key()
    &&& c.outbox.peers@ == Map::<RawKey, PeerSession>::empty()
    &&& c.outbox.ip_index@ == Map::<Seq<char>, RawKey>::empty()
    &&& c.outbox.addr_index@ == Map::<Endpoint, RawKey>::empty()
    &&& c.outbox.rk_index@ == Map::<RawKey, RawKey>::empty()
    &&& c.outbox.inflight@ == Map::<Seq<char>, ()>::empty()
    &&& c.outbox.learned_aliases@ == Map::<Seq<char>, Learned>::empty()
    &&& c.outbox.server_addr == server_addr
    &&& c.outbox.relay_addr == relay_address(server, server_addr, relay_addr)
    &&& c.outbox.local_pub == cfg.identity->0.ik_x.public
    &&& c.outbox.local_priv == cfg.identity->0.ik_x.private
    &&& c.outbox.local_ip == nic.ip
    &&& c.outbox.hole_punch == cfg.hole_punch
    &&& c.outbox.rekey_every_pkts == cfg.rekey_every_pkts
    &&& c.outbox.rekey_every_secs == cfg.rekey_every_secs
    &&& c.outbox.relay_recover_stale_ms == heartbeat_of(cfg.heartbeat_sec) * 2000
    &&& c.outbox.tx_bytes == 0
    &&& c.outbox.rx_bytes == 0
    &&& c.outbox.session_sk is None
    &&& c.outbox.session_pub is None
    &&& c.outbox.session_seq == 0
    &&& c.outbox.relay_rk == relay_rk
    &&& c.outbox.local_aliases@ == cfg.aliases@
    &&& c.outbox.local_aliases.names() == cfg.aliases.names()
    &&& c.outbox.local_aliases.ips() == cfg.aliases.ips()
}

impl Conn {
    /// Sets up a connection. `relay_addr` is the relay's own address, where it has
    /// one that can be read.
    pub fn new(
        cfg: &ClientConfig,
        conn: &ConnectionEntry,
        server_addr: &Result<Endpoint, String>,
        relay_addr: Option<Endpoint>,
        relay_rk: RawKey,
    ) -> (r: Result<Self, String>)
        requires
            cfg.aliases.wf(),
            heartbeat_of(cfg.heartbeat_sec) * 2000 <= u64::MAX,
        ensures
            match r {
                Err(e) => setup_error(*cfg, *conn, *server_addr) == Some(e@),
                Ok(c) => {
                    &&& setup_error(*cfg, *conn, *server_addr) is None
                    &&& exists|i: int, k: int|
                        {
                            &&& #[trigger] server_at(cfg.servers@, conn.server@, i)
                            &&& #[trigger] nic_at(cfg.vm_nics@, conn.vm_nic@, k)
                            &&& is_new_conn(
                                c,
                                *cfg,
                                *conn,
                                cfg.servers@[i],
                                cfg.vm_nics@[k],
                                server_addr->Ok_0,
                                relay_addr,
                                relay_rk,
                            )
                        }
                },
            },
    {
        let server = match cfg.find_server(conn.server.as_str()) {
            Some(s) => s.copy(),
            None => {
                return Err(join3("服务器 ", conn.server.as_str(), " 未配置"));
            },
        };
        let vmnic = match cfg.find_vmnic(conn.vm_nic.as_str()) {
            Some(n) => n.copy(),
            None => {
                return Err(join3("虚拟网卡 ", conn.vm_nic.as_str(), " 未配置"));
            },
        };
        let local_priv: RawKey = match cfg.private_key() {
            Ok(k) => k,
            Err(e) => {
                return Err(e);
            },
        };
        let local_pub: RawKey = match cfg.public_key() {
            Ok(k) => k,
            Err(e) => {
                return Err(e);
            },
        };
        let addr: Endpoint = match server_addr {
            Ok(a) => *a,
            Err(e) => {
                let mut m = join3("服务器地址 ", server.endpoint.as_str(), " 解析失败: ");
                m.append(e.as_str());
                proof {
                    let i = choose|i: int|
                        #[trigger] server_at(cfg.servers@, conn.server@, i) && server
                            == cfg.servers@[i];
                    let k = choose|k: int| server_at(cfg.servers@, conn.server@, k);
                    lemma_same_server(cfg.servers@, conn.server@, i, k);
                }
                return Err(m);
            },
        };
        let relay: Endpoint = match relay_addr {
            Some(a) => if server.relay.enabled && !server.relay.endpoint.as_str().is_empty() {
                a
            } else {
                addr
            },
            None => addr,
        };
        let heartbeat_secs: u64 = if cfg.heartbeat_sec < MIN_HEARTBEAT_SECS {
            MIN_HEARTBEAT_SECS
        } else {
            cfg.heartbeat_sec
        };
        let local_ip = vmnic.ip.clone();
        let c = Conn {
            state: ConnectionState::new(conn.server.clone(), conn.vm_nic.clone()),
            outbox: Outbox {
                peers: Table::new(),
                ip_index: Table::new(),
                addr_index: Table::new(),
                rk_index: Table::new(),
                inflight: Table::new(),
                server_addr: addr,
                relay_addr: relay,
                server_shared: [0u8; 32],
                local_pub,
                local_priv,
                local_ip,
                hole_punch: HolePunchConfig {
                    enabled: cfg.hole_punch.enabled,
                    timeout_ms: cfg.hole_punch.timeout_ms,
                    max_retries: cfg.hole_punch.max_retries,
                    interval_ms: cfg.hole_punch.interval_ms,
                    max_errors: cfg.hole_punch.max_errors,
                },
                rekey_every_pkts: cfg.rekey_every_pkts,
                rekey_every_secs: cfg.rekey_every_secs,
                relay_recover_stale_ms: heartbeat_secs * 2000,
                tx_bytes: 0,
                rx_bytes: 0,
                session_sk: None,
                session_pub: None,
                session_seq: 0,
                relay_rk,
                local_aliases: cfg.aliases.copy(),
                learned_aliases: Table::new(),
            },
            server,
            vmnic,
            server_pub: [0u8; 32],
            heartbeat_secs,
            failed_heartbeats: 0,
        };
        assert(c.server_pub@ =~= no_key());
        assert(c.outbox.server_shared@ =~= no_key());
        Ok(c)
    }
}

proof fn lemma_same_server(servers: Seq<ServerEntry>, name: Seq<char>, i: int, k: int)
    requires
        server_at(servers, name, i),
        server_at(servers, name, k),
    ensures
        i == k,
{
    if i < k {
        assert(servers[i].name@ != name);
    }
    if k < i {
        assert(servers[k].name@ != name);
    }
}

/// An advice to join the server's mesh.
pub open spec fn join_advice(
    server: Seq<char>,
    nic: Seq<char>,
    what: Seq<char>,
    end: Seq<char>,
) -> Seq<char> {
    "服务器 "@ + server + what + server + "\" \""@ + nic + "\" --code LMJ-..."@ + end
}

fn advise(server: &str, nic: &str, what: &str, end: &str) -> (r: String)
    ensures
        r@ == join_advice(server@, nic@, what@, end@),
{
    let mut m = join3("服务器 ", server, what);
    m.append(server);
    m.append("\" \"");
    m.append(nic);
    m.append("\" --code LMJ-...");
    m.append(end);
    m
}

/// Why a server is not trusted. `received` is the public key that it showed, `stored`
/// the one that was saved, or what is wrong with that.
pub open spec fn trust_error(
    server: ServerEntry,
    nic: VmNicConfig,
    received: RawKey,
    stored: Result<RawKey, String>,
    now: u64,
) -> Option<Seq<char>> {
    if server.public_key is None {
        Some(
            join_advice(
                server.name@,
                nic.name@,
                " 的公钥尚未保存。请先执行 linkmesh-client --join \""@,
                " 加入网格"@,
            ),
        )
    } else if stored is Err {
        Some(stored->Err_0@)
    } else if stored->Ok_0 != received {
        Some(
            "服务器 "@ + server.name@
                + " 的公钥与本地已保存的公钥不一致（服务器可能已更换密钥，或存在中间人攻击）。请核实后更新 client.json 中该服务器的 public_key，或重新 --join 完成信任确认"@,
        )
    } else if server.mesh_root_pub is None {
        Some(
            join_advice(
                server.name@,
                nic.name@,
                " 未加入网格。请先执行 linkmesh-client --join \""@,
                " 加入网格"@,
            ),
        )
    } else if server.device_cert is None {
        Some(
            join_advice(
                server.name@,
                nic.name@,
                " 启用了网格认证但本机尚未加入。请先执行 linkmesh-client --join \""@,
                ""@,
            ),
        )
    } else if !server.device_cert->0.covers(now) {
        Some("设备证书已过期，请重新 --join"@)
    } else {
        None
    }
}

/// Why the server's answer to the request for a session is not accepted, and how far
/// it was accepted. `ip_valid` tells whether the address that it names is one,
/// `root_check` what the check of its signature came to.
pub open spec fn auth_resp_error(
    server: ServerEntry,
    resp: AuthRespBody,
    ip_valid: bool,
    root_check: Result<(), String>,
) -> Option<Seq<char>> {
    if resp.allocated_ip@.len() == 0 {
        Some("服务端未分配虚拟 IP（请确认已 --join 加入网格并持有设备证书）"@)
    } else if !ip_valid {
        Some("服务端分配的虚拟 IP "@ + quoted(resp.allocated_ip@) + " 非法"@)
    } else if server.mesh_root_pub is None {
        None
    } else if root_check is Err {
        Some(root_check->Err_0@)
    } else if resp.server_info.mesh_root_pub@ != server.mesh_root_pub->0@ {
        Some("服务器出示的网格根与本地固定根不一致（可能已更换网格或遭中间人）"@)
    } else if server.crl_version is Some && resp.server_info.crl_version < server.crl_version->0 {
        Some(
            "服务器 CRL 版本回退（"@ + decimal(server.crl_version->0 as nat) + " -> "@ + decimal(
                resp.server_info.crl_version as nat,
            ) + "），拒绝连接"@,
        )
    } else if server.device_cert is Some && lists(
        resp.crl.entries@,
        server.device_cert->0.device_id@,
    ) {
        Some("本设备已被吊销，无法连接（请联系管理员重新签发）"@)
    } else {
        None
    }
}

/// Whether the revocation list's version of an answer is accepted.
pub open spec fn crl_accepted(
    server: ServerEntry,
    resp: AuthRespBody,
    ip_valid: bool,
    root_check: Result<(), String>,
) -> bool {
    &&& resp.allocated_ip@.len() > 0
    &&& ip_valid
    &&& server.mesh_root_pub is Some
    &&& root_check is Ok
    &&& resp.server_info.mesh_root_pub@ == server.mesh_root_pub->0@
    &&& server.crl_version is None || resp.server_info.crl_version >= server.crl_version->0
}

/// What a frame means while the answer to the request for a session is awaited.
#[derive(Debug, Clone, Copy, PartialEq, Eq, Structural)]
pub enum AuthWait {
    Ignore,
    /// The answer.
    Answer,
    /// A refusal, if it can be read.
    Refusal,
}

/// What a frame means while the answer to the request for a session is awaited.
pub fn auth_wait(from_server: bool, kind: Option<MsgKind>) -> (r: AuthWait)
    ensures
        answer_awaited(from_server, kind, r),
{
    if !from_server {
        return AuthWait::Ignore;
    }
    match kind {
        Some(k) => if k == MsgKind::AuthResp {
            AuthWait::Answer
        } else if k == MsgKind::Response {
            AuthWait::Refusal
        } else {
            AuthWait::Ignore
        },
        None => AuthWait::Ignore,
    }
}

/// Why the server refused a session, in its own words where it gave some.
pub fn refusal(resp: &ResponseBody) -> (r: String)
    ensures
        r@ == (match resp.error {
            Some(e) => e@,
            None => "认证被拒绝"@,
        }),
{
    match &resp.error {
        Some(e) => e.clone(),
        None => "认证被拒绝".to_owned(),
    }
}

impl Conn {
    /// Judges a server.
    fn judge_server(
        &mut self,
        received: &RawKey,
        stored: &Result<RawKey, String>,
        now: u64,
    ) -> (r: Result<(), String>)
        ensures
            server_checked(*old(self), *received, *stored, now, r, *final(self)),
    {
        if self.server.public_key.is_none() {
            return Err(
                advise(
                    self.server.name.as_str(),
                    self.vmnic.name.as_str(),
                    " 的公钥尚未保存。请先执行 linkmesh-client --join \"",
                    " 加入网格",
                ),
            );
        }
        match stored {
            Err(e) => {
                return Err(e.clone());
            },
            Ok(k) => {
                if !same_raw_key(k, received) {
                    self.state.set_status("服务器公钥不一致");
                    return Err(
                        join3(
                            "服务器 ",
                            self.server.name.as_str(),
                            " 的公钥与本地已保存的公钥不一致（服务器可能已更换密钥，或存在中间人攻击）。请核实后更新 client.json 中该服务器的 public_key，或重新 --join 完成信任确认",
                        ),
                    );
                }
            },
        }
        if self.server.mesh_root_pub.is_none() {
            return Err(
                advise(
                    self.server.name.as_str(),
                    self.vmnic.name.as_str(),
                    " 未加入网格。请先执行 linkmesh-client --join \"",
                    " 加入网格",
                ),
            );
        }
        match &self.server.device_cert {
            None => {
                return Err(
                    advise(
                        self.server.name.as_str(),
                        self.vmnic.name.as_str(),
                        " 启用了网格认证但本机尚未加入。请先执行 linkmesh-client --join \"",
                        "",
                    ),
                );
            },
            Some(c) => {
                if !c.is_current(now) {
                    return Err("设备证书已过期，请重新 --join".to_owned());
                }
            },
        }
        self.server_pub = *received;
        Ok(())
    }

    /// Decides whether the server that showed a public key is trusted. A server that
    /// shows another key than the saved one is reported in the status.
    pub fn check_server(
        &mut self,
        received: &RawKey,
        stored: &Result<RawKey, String>,
        now: u64,
    ) -> (r: Result<(), String>)
        ensures
            server_checked(*old(self), *received, *stored, now, r, *final(self)),
            trusts_the_known(*old(self), *received, *stored, now, r, *final(self)),
    {
        let r = self.judge_server(received, stored, now);
        proof {
            the_known_server_is_trusted(*old(self), *received, *stored, now, r, *self);
        }
        r
    }

    /// Judges the answer to a request for a session.
    fn judge_answer(
        &mut self,
        resp: &AuthRespBody,
        ip_valid: bool,
        root_check: &Result<(), String>,
        ek_c: RawKey,
        sk: RawKey,
    ) -> (r: Result<(), String>)
        ensures
            auth_accepted(*old(self), *resp, ip_valid, *root_check, ek_c, sk, r, *final(self)),
    {
        self.outbox.session_sk = Some(sk);
        self.outbox.session_pub = Some(ek_c);
        self.outbox.session_seq = 0;
        if resp.allocated_ip.as_str().is_empty() {
            return Err(
                "服务端未分配虚拟 IP（请确认已 --join 加入网格并持有设备证书）".to_owned(),
            );
        }
        if !ip_valid {
            return Err(
                join3(
                    "服务端分配的虚拟 IP ",
                    quote(resp.allocated_ip.as_str()).as_str(),
                    " 非法",
                ),
            );
        }
        self.outbox.local_ip = resp.allocated_ip.clone();
        self.vmnic.ip = resp.allocated_ip.clone();
        let root = match &self.server.mesh_root_pub {
            Some(r) => r.clone(),
            None => {
                return Ok(());
            },
        };
        if let Err(e) = root_check {
            return Err(e.clone());
        }
        if !same(resp.server_info.mesh_root_pub.as_str(), root.as_str()) {
            return Err(
                "服务器出示的网格根与本地固定根不一致（可能已更换网格或遭中间人）".to_owned(),
            );
        }
        if let Some(prev) = self.server.crl_version {
            if resp.server_info.crl_version < prev {
                let mut m = "服务器 CRL 版本回退（".to_owned();
                push_decimal(&mut m, prev);
                m.append(" -> ");
                push_decimal(&mut m, resp.server_info.crl_version);
                m.append("），拒绝连接");
                return Err(m);
            }
        }
        self.server.crl_version = Some(resp.server_info.crl_version);
        if let Some(cert) = &self.server.device_cert {
            if resp.crl.is_revoked(cert.device_id.as_str()) {
                return Err(
                    "本设备已被吊销，无法连接（请联系管理员重新签发）".to_owned(),
                );
            }
        }
        Ok(())
    }

    /// Takes over the session that the server opened, and its answer as far as it is
    /// in order: the virtual address of the certificate, and the version of the
    /// revocation list, which never goes back.
    pub fn accept_auth(
        &mut self,
        resp: &AuthRespBody,
        ip_valid: bool,
        root_check: &Result<(), String>,
        ek_c: RawKey,
        sk: RawKey,
    ) -> (r: Result<(), String>)
        ensures
            auth_accepted(*old(self), *resp, ip_valid, *root_check, ek_c, sk, r, *final(self)),
            old(self).server.mesh_root_pub is Some && old(self).server.device_cert is Some
                ==> takes_up_session(
                *old(self),
                *resp,
                ip_valid,
                *root_check,
                ek_c,
                sk,
                r,
                *final(self),
            ),
    {
        let r = self.judge_answer(resp, ip_valid, root_check, ek_c, sk);
        proof {
            if old(self).server.mesh_root_pub is Some && old(self).server.device_cert is Some {
                a_session_is_taken_up(
                    *old(self),
                    *resp,
                    ip_valid,
                    *root_check,
                    ek_c,
                    sk,
                    r,
                    *self,
                );
            }
        }
        r
    }

    /// What this client asks for a session with: its certificate, the temporary key
    /// `ek_c` and a fresh nonce. The server reads the same nonce and key out of it.
    pub fn auth_body(&self, ek_c: &RawKey, nonce: &[u8; 12], timestamp: u64) -> (r: Result<
        AuthBody,
        String,
    >)
        ensures
            asks_with(*self, *ek_c, *nonce, timestamp, r),
    {
        match &self.server.device_cert {
            Some(cert) => {
                let nonce_text = base64_encode(nonce.as_slice());
                proof {
                    lemma_base64_is_trimmed(nonce_text@);
                }
                Ok(
                    AuthBody {
                        device_id: cert.device_id.clone(),
                        cert: cert.copy(),
                        ek_c: base64_encode(ek_c.as_slice()),
                        timestamp,
                        nonce: nonce_text,
                        token: copy_text(&self.server.token),
                    },
                )
            },
            None => Err("未加入网格，缺少设备证书".to_owned()),
        }
    }

    /// What this client registers with: its address, its relay key, the token of its
    /// room and its own name.
    pub fn register_body(&self) -> (r: RegisterBody)
        requires
            self.outbox.wf(),
        ensures
            registers_with(*self, r),
    {
        RegisterBody {
            ip: self.outbox.local_ip.clone(),
            relay_rk: Some(base64_encode(self.outbox.relay_rk.as_slice())),
            token: copy_text(&self.server.token),
            alias: self.outbox.self_alias(),
        }
    }

    /// Takes over the client's own names where they have changed. Says whether they
    /// had.
    pub fn reload_aliases(&mut self, fresh: &Aliases) -> (r: bool)
        requires
            old(self).outbox.wf(),
            fresh.wf(),
        ensures
            final(self).outbox.wf(),
            r == !(old(self).outbox.local_aliases.names() == fresh.names() && old(
                self,
            ).outbox.local_aliases.ips() == fresh.ips()),
            final(self).outbox.local_aliases.names() == fresh.names(),
            final(self).outbox.local_aliases.ips() == fresh.ips(),
            *final(self) == (Conn {
                outbox: Outbox {
                    local_aliases: final(self).outbox.local_aliases,
                    ..old(self).outbox
                },
                ..*old(self)
            }),
    {
        if self.outbox.local_aliases.same_as(fresh) {
            return false;
        }
        self.outbox.local_aliases = fresh.copy();
        true
    }

    /// Takes note of a heartbeat. After three failures in a row the server counts as
    /// lost, and after a success it counts as found again.
    pub fn heartbeat_done(&mut self, ok: bool)
        requires
            !ok ==> old(self).failed_heartbeats < u32::MAX,
        ensures
            heartbeat_noted(*old(self), ok, *final(self)),
    {
        if !ok {
            self.failed_heartbeats = self.failed_heartbeats + 1;
            if self.failed_heartbeats >= LOST_AFTER_HEARTBEATS {
                self.state.set_status("服务器失联");
            }
        } else if self.failed_heartbeats > 0 {
            self.failed_heartbeats = 0;
            self.state.set_status("已连接");
        }
    }
}

/// A connection before and after the server was checked.
pub open spec fn server_checked(
    before: Conn,
    received: RawKey,
    stored: Result<RawKey, String>,
    now: u64,
    r: Result<(), String>,
    after: Conn,
) -> bool {
    &&& (match r {
        Ok(_) => {
            &&& trust_error(
                before.server,
                before.vmnic,
                received,
                stored,
                now,
            ) is None
            &&& after == (Conn { server_pub: received, ..before })
        },
        Err(e) => {
            &&& trust_error(
                before.server,
                before.vmnic,
                received,
                stored,
                now,
            ) == Some(e@)
            &&& after == (Conn { state: after.state, ..before })
            &&& if before.server.public_key is Some && stored is Ok && stored->Ok_0
                != received {
                &&& after.state.status@ == "服务器公钥不一致"@
                &&& after.state == (ConnectionState {
                    status: after.state.status,
                    ..before.state
                })
            } else {
                after.state == before.state
            }
        },
    })
}

/// A connection before and after the server's answer to the request for a session.
pub open spec fn auth_accepted(
    before: Conn,
    resp: AuthRespBody,
    ip_valid: bool,
    root_check: Result<(), String>,
    ek_c: RawKey,
    sk: RawKey,
    r: Result<(), String>,
    after: Conn,
) -> bool {
    &&& (match r {
        Ok(_) => auth_resp_error(before.server, resp, ip_valid, root_check) is None,
        Err(e) => auth_resp_error(before.server, resp, ip_valid, root_check) == Some(
            e@,
        ),
    })
    &&& ({
        let good_ip = resp.allocated_ip@.len() > 0 && ip_valid;
        after == (Conn {
            outbox: Outbox {
                session_sk: Some(sk),
                session_pub: Some(ek_c),
                session_seq: 0,
                local_ip: if good_ip {
                    resp.allocated_ip
                } else {
                    before.outbox.local_ip
                },
                ..before.outbox
            },
            vmnic: VmNicConfig {
                ip: if good_ip {
                    resp.allocated_ip
                } else {
                    before.vmnic.ip
                },
                ..before.vmnic
            },
            server: ServerEntry {
                crl_version: if crl_accepted(
                    before.server,
                    resp,
                    ip_valid,
                    root_check,
                ) {
                    Some(resp.server_info.crl_version)
                } else {
                    before.server.crl_version
                },
                ..before.server
            },
            ..before
        })
    })
}

/// A connection before and after a heartbeat.
pub open spec fn heartbeat_noted(
    before: Conn,
    ok: bool,
    after: Conn,
) -> bool {
    &&& ({
        let failed = (before.failed_heartbeats + 1) as u32;
        let lost = !ok && failed >= LOST_AFTER_HEARTBEATS;
        let found = ok && before.failed_heartbeats > 0;
        &&& after == (Conn {
            failed_heartbeats: if ok {
                0
            } else {
                failed
            },
            state: ConnectionState {
                status: after.state.status,
                ..before.state
            },
            ..before
        })
        &&& if lost {
            after.state.status@ == "服务器失联"@
        } else if found {
            after.state.status@ == "已连接"@
        } else {
            after.state.status == before.state.status
        }
    })
}

/// What a client asks for a session with.
pub open spec fn asks_with(
    c: Conn,
    ek_c: RawKey,
    nonce: [u8; 12],
    timestamp: u64,
    r: Result<AuthBody, String>,
) -> bool {
    match (c.server.device_cert, r) {
        (Some(cert), Ok(b)) => {
            &&& b.device_id == cert.device_id
            &&& b.cert == cert
            &&& b.ek_c@ == base64_chars(ek_c@)
            &&& b.timestamp == timestamp
            &&& b.nonce@ == base64_chars(nonce@)
            &&& auth_nonce(b.nonce@) == Ok::<Seq<u8>, Seq<char>>(nonce@)
            &&& reads_as(b.ek_c@, ek_c@)
            &&& b.token == c.server.token
        },
        (None, Err(e)) => e@ == "未加入网格，缺少设备证书"@,
        _ => false,
    }
}

/// What a client registers with.
pub open spec fn registers_with(c: Conn, r: RegisterBody) -> bool {
    &&& r.ip == c.outbox.local_ip
    &&& r.relay_rk is Some
    &&& r.relay_rk->0@ == base64_chars(c.outbox.relay_rk@)
    &&& reads_as(r.relay_rk->0@, c.outbox.relay_rk@)
    &&& r.token == c.server.token
    &&& match r.alias {
        Some(n) => exists|i: int|
            #[trigger] c.outbox.local_aliases.first_for(c.outbox.local_ip@, i) && n@
                == c.outbox.local_aliases.names()[i],
        None => !c.outbox.local_aliases.ips().contains(c.outbox.local_ip@),
    }
}

/// The version of the revocation list that a client has seen never goes back.
pub proof fn the_crl_version_never_goes_back(
    server: ServerEntry,
    resp: AuthRespBody,
    ip_valid: bool,
    root_check: Result<(), String>,
)
    requires
        server.crl_version is Some,
        crl_accepted(server, resp, ip_valid, root_check),
    ensures
        resp.server_info.crl_version >= server.crl_version->0,
{
}

/// A server that shows another key than the saved one is never trusted.
pub proof fn another_key_is_never_trusted(
    server: ServerEntry,
    nic: VmNicConfig,
    received: RawKey,
    stored: RawKey,
    now: u64,
)
    requires
        stored != received,
    ensures
        trust_error(server, nic, received, Ok(stored), now) is Some,
{
}

/// How long to wait before connecting again after a connection has ended; nothing
/// where it was stopped or connecting again is switched off.
pub fn reconnect_after(stopped: bool, reconnect_secs: u64, exit: &ConnExit) -> (r: Option<u64>)
    ensures
        waits_after(stopped, reconnect_secs, *exit, r),
{
    if stopped || reconnect_secs == 0 {
        return None;
    }
    match exit {
        ConnExit::Stopped => None,
        ConnExit::Error(_) => Some(reconnect_secs),
    }
}

/// How long to wait before trying once more to set a connection up again, where that has
/// just been tried; nothing where it succeeded, where the connection was stopped, or where
/// connecting again is switched off.
pub fn after_rebuild(stopped: bool, reconnect_secs: u64, rebuilt: bool) -> (r: Option<u64>)
    ensures
        waits_to_rebuild(stopped, reconnect_secs, rebuilt, r),
{
    if rebuilt || stopped || reconnect_secs == 0 {
        None
    } else {
        Some(reconnect_secs)
    }
}

/// Something that happens to a connection that is kept up.
pub enum LinkEvent {
    /// It ended.
    Ended(ConnExit),
    /// The time to wait has passed.
    Waited,
    /// Setting it up again was tried, and succeeded or not.
    Rebuilt(bool),
}

/// What to do next with a connection that is kept up.
#[derive(Debug, Clone, Copy, PartialEq, Eq, Structural)]
pub enum LinkAction {
    Run,
    Wait(u64),
    Rebuild,
    /// Give it up.
    Finish,
}

/// What to do next with a connection that is kept up.
pub open spec fn action_after(stopped: bool, reconnect_secs: u64, event: LinkEvent) -> LinkAction {
    if stopped {
        LinkAction::Finish
    } else {
        match event {
            LinkEvent::Ended(exit) => if reconnect_secs == 0 || exit is Stopped {
                LinkAction::Finish
            } else {
                LinkAction::Wait(reconnect_secs)
            },
            LinkEvent::Waited => LinkAction::Rebuild,
            LinkEvent::Rebuilt(true) => LinkAction::Run,
            LinkEvent::Rebuilt(false) => if reconnect_secs == 0 {
                LinkAction::Finish
            } else {
                LinkAction::Wait(reconnect_secs)
            },
        }
    }
}

/// What to do next with a connection that is kept up: one that failed is set up again
/// after a while, and where that fails too it is tried again after another while.
pub fn next_action(stopped: bool, reconnect_secs: u64, event: &LinkEvent) -> (r: LinkAction)
    ensures
        r == action_after(stopped, reconnect_secs, *event),
{
    if stopped {
        return LinkAction::Finish;
    }
    match event {
        LinkEvent::Ended(exit) => match reconnect_after(stopped, reconnect_secs, exit) {
            Some(secs) => LinkAction::Wait(secs),
            None => LinkAction::Finish,
        },
        LinkEvent::Waited => LinkAction::Rebuild,
        LinkEvent::Rebuilt(ok) => if *ok {
            LinkAction::Run
        } else {
            match after_rebuild(stopped, reconnect_secs, *ok) {
                Some(secs) => LinkAction::Wait(secs),
                None => LinkAction::Finish,
            }
        },
    }
}

/// With an interval above zero a connection that failed is never given up, however often
/// setting it up again fails, until it is stopped.
pub proof fn reconnecting_goes_on(reconnect_secs: u64, event: LinkEvent)
    requires
        reconnect_secs > 0,
        !(event is Ended && event->Ended_0 is Stopped),
    ensures
        action_after(false, reconnect_secs, event) != LinkAction::Finish,
        event == LinkEvent::Rebuilt(false) ==> action_after(false, reconnect_secs, event)
            == LinkAction::Wait(reconnect_secs),
{
}

/// The connections that run, after something happened to one of them.
pub open spec fn running_after(
    running: Map<Seq<char>, ()>,
    server: Seq<char>,
    stopped: bool,
    reconnect_secs: u64,
    event: LinkEvent,
) -> Map<Seq<char>, ()> {
    if action_after(stopped, reconnect_secs, event) is Finish {
        running.remove(server)
    } else {
        running
    }
}

/// The connections that run, after a series of events of one of them that nobody stops.
pub open spec fn running_after_all(
    running: Map<Seq<char>, ()>,
    server: Seq<char>,
    reconnect_secs: u64,
    events: Seq<LinkEvent>,
) -> Map<Seq<char>, ()>
    decreases events.len(),
{
    if events.len() == 0 {
        running
    } else {
        running_after(
            running_after_all(running, server, reconnect_secs, events.drop_last()),
            server,
            false,
            reconnect_secs,
            events.last(),
        )
    }
}

/// With an interval above zero a connection runs on through any number of failures, of
/// the connection itself and of setting it up again, until it is stopped.
pub proof fn a_connection_is_kept_up(
    running: Map<Seq<char>, ()>,
    server: Seq<char>,
    reconnect_secs: u64,
    events: Seq<LinkEvent>,
)
    requires
        reconnect_secs > 0,
        forall|i: int|
            0 <= i < events.len() ==> !(#[trigger] events[i] is Ended && events[i]->Ended_0 is Stopped),
    ensures
        running_after_all(running, server, reconnect_secs, events) == running,
    decreases events.len(),
{
    if events.len() > 0 {
        let before = events.drop_last();
        assert(forall|i: int| 0 <= i < before.len() ==> before[i] == #[trigger] events[i]);
        a_connection_is_kept_up(running, server, reconnect_secs, before);
        assert(events.last() == events[events.len() - 1]);
        reconnecting_goes_on(reconnect_secs, events.last());
    }
}

/// The connections that run.
pub struct ConnManager {
    pub running: Table<String, ()>,
}

impl ConnManager {
    pub fn new() -> (r: Self)
        ensures
            r.running.wf(),
            r.running@ == Map::<Seq<char>, ()>::empty(),
    {
        ConnManager { running: Table::new() }
    }

    /// Takes note that a connection starts, where it does not run yet and is
    /// configured. Returns its configuration.
    pub fn start(&mut self, cfg: &ClientConfig, server: &str) -> (r: Result<
        ConnectionEntry,
        String,
    >)
        requires
            old(self).running.wf(),
        ensures
            final(self).running.wf(),
            if old(self).running@.dom().contains(server@) {
                &&& r is Err && r->Err_0@ == "连接 "@ + server@ + " 已在运行"@
                &&& final(self).running@ == old(self).running@
            } else if !has_connection(cfg.connections@, server@) {
                &&& r is Err && r->Err_0@ == "连接 "@ + server@ + " 未配置"@
                &&& final(self).running@ == old(self).running@
            } else {
                &&& r is Ok
                &&& exists|i: int|
                    #[trigger] connection_at(cfg.connections@, server@, i) && r->Ok_0
                        == cfg.connections@[i]
                &&& final(self).running@ == old(self).running@.insert(server@, ())
            },
    {
        let name = server.to_owned();
        if self.running.contains(&name) {
            return Err(join3("连接 ", server, " 已在运行"));
        }
        match cfg.find_connection(server) {
            Some(c) => {
                let entry = ConnectionEntry { server: c.server.clone(), vm_nic: c.vm_nic.clone() };
                self.running.insert(name, ());
                Ok(entry)
            },
            None => Err(join3("连接 ", server, " 未配置")),
        }
    }

    /// Takes note of what happened to a connection that is kept up, and says what to do
    /// next. One that is given up no longer runs.
    pub fn keep_up(
        &mut self,
        server: &str,
        stopped: bool,
        reconnect_secs: u64,
        event: &LinkEvent,
    ) -> (r: LinkAction)
        requires
            old(self).running.wf(),
        ensures
            final(self).running.wf(),
            r == action_after(stopped, reconnect_secs, *event),
            final(self).running@ == running_after(
                old(self).running@,
                server@,
                stopped,
                reconnect_secs,
                *event,
            ),
    {
        let action = next_action(stopped, reconnect_secs, event);
        match action {
            LinkAction::Finish => {
                self.running.remove(&server.to_owned());
            },
            _ => {},
        }
        action
    }

    /// Takes note that a connection stops.
    pub fn stop(&mut self, server: &str) -> (r: Result<(), String>)
        requires
            old(self).running.wf(),
        ensures
            final(self).running.wf(),
            final(self).running@ == old(self).running@.remove(server@),
            r is Ok <==> old(self).running@.dom().contains(server@),
            r matches Err(e) ==> e@ == "连接 "@ + server@ + " 不存在"@,
    {
        match self.running.remove(&server.to_owned()) {
            Some(_) => Ok(()),
            None => Err(join3("连接 ", server, " 不存在")),
        }
    }
}

/// How long is waited before a connection that ended is set up again.
pub open spec fn waits_after(stopped: bool, reconnect_secs: u64, exit: ConnExit, r: Option<u64>) -> bool {
    r == (if stopped || reconnect_secs == 0 || exit is Stopped {
        None
    } else {
        Some(reconnect_secs)
    })
}

/// How long is waited before setting a connection up again is tried once more.
pub open spec fn waits_to_rebuild(stopped: bool, reconnect_secs: u64, rebuilt: bool, r: Option<u64>) -> bool {
    r == (if rebuilt || stopped || reconnect_secs == 0 {
        None::<u64>
    } else {
        Some(reconnect_secs)
    })
}

/// What a message means to a client that waits to be let in.
pub open spec fn answer_awaited(from_server: bool, kind: Option<MsgKind>, r: AuthWait) -> bool {
    r == (if !from_server {
        AuthWait::Ignore
    } else if kind == Some(MsgKind::AuthResp) {
        AuthWait::Answer
    } else if kind == Some(MsgKind::Response) {
        AuthWait::Refusal
    } else {
        AuthWait::Ignore
    })
}

} // verus!
