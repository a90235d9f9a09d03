//! Signaling: what the server answers to joining, authenticating, registering and
//! asking devices, and what becomes of its state.
//!
//! Requests come in decoded; ciphers, signatures and sockets are the business of
//! the program around the library, which also says what it found out about keys
//! and certificates. Instants are seconds since the Unix epoch.
use vstd::prelude::*;
use vstd::string::*;
use crate::alias::{canonical, canonical_name};
use crate::cert::{copy_text, lists, Crl, DeviceCert, RevokeReason, ServerInfo};
use crate::net::IpAddress;
use crate::outside::{base64_chars, base64_decode, base64_decoded, base64_encode, random_bytes};
use crate::protocol::{
    opt_str, opt_view, AuthBody, AuthRespBody, JoinBody, MsgKind, PeerInfo, QueryBody, RegisterBody,
    ResponseBody, ResponseData,
};
use crate::server::config::{token_digest, AliasEntry, RoomEntry, ServerConfig};
use crate::server::guard::{
    counted_once, exceeds, passed_windows, remembered, RateLimiter, ReplayCache,
};
use crate::server::join::{
    join_addressed, join_answer, join_granted, join_invited, join_mesh, join_refused, join_wish,
    normalize_self_alias, own_name, resolve_room, room_lookup, room_of_token, JoinGrant,
};
use crate::server::laws::{
    a_revocation_takes_effect_at_once, an_opened_session_is_there, auth_judged_right,
    forgets_the_silent, good_requests_go_on, may_ask, request_served, requests_are_served,
    is_welcomed, revokes_at_once, session_is_there, silent_devices_are_forgotten,
};
use crate::server::mesh::{
    allocation, cert_outcome, code_digest, invite_at, invite_error, other_than, revoked_one,
    MeshConfig, CERT_VALIDITY_SECS, MAX_CRL_ENTRIES,
};
use crate::server::relay::Stats;
use crate::server::routes::{
    a_registered_device_is_found, dropped, entry_of, expired_keys, named_address, rk_of,
    rk_released, upserted, RouteEntry, RouteTable,
};
use crate::server::sessions::{
    advanced, device_sessions, idle_sessions, keys_of, lemma_devices_of, registered, SessionEntry,
    Sessions,
};
use crate::table::{RawKey, Table};
use crate::text::{same, trim, trimmed};

verus! {

/// How far a device's clock may be off.
pub const CLOCK_TOLERANCE_SECS: u64 = 30;

/// The state of the server.
pub struct Signaling {
    pub routes: RouteTable,
    pub stats: Stats,
    pub server_pub: RawKey,
    pub server_priv: RawKey,
    pub server_ik_s_pub: String,
    pub route_ttl_sec: u64,
    pub mesh: MeshConfig,
    /// The public key of the mesh root in base64.
    pub mesh_root_pub: String,
    pub sessions: Sessions,
    pub replay: ReplayCache,
    pub limiter: RateLimiter,
    /// The rooms; none where every device shares one open room.
    pub rooms: Vec<RoomEntry>,
    /// The names that the administrator bound to addresses.
    pub aliases: Table<String, String>,
    pub server_name: String,
    pub protocol_ver: u8,
    /// The last answer to a request for the server's keys, with the version of the
    /// revocation list that it speaks of.
    pub serverinfo_cache: Option<(u64, Vec<u8>)>,
}

/// The names bound by a list; of several entries with one name the last counts.
pub open spec fn alias_map(aliases: Seq<AliasEntry>) -> Map<Seq<char>, String>
    decreases aliases.len(),
{
    if aliases.len() == 0 {
        Map::empty()
    } else {
        alias_map(aliases.drop_last()).insert(aliases.last().name@, aliases.last().ip)
    }
}

/// What those are told who have no session yet.
pub fn unauthenticated() -> (r: String)
    ensures
        r@ == "尚未认证（请先 --join 并完成 AUTH 握手）"@,
{
    "尚未认证（请先 --join 并完成 AUTH 握手）".to_owned()
}

/// The names bound by a list.
pub fn alias_table(aliases: &Vec<AliasEntry>) -> (r: Table<String, String>)
    ensures
        r.wf(),
        r@ == alias_map(aliases@),
{
    let mut out: Table<String, String> = Table::new();
    let mut i: usize = 0;
    assert(aliases@.take(0) =~= Seq::<AliasEntry>::empty());
    while i < aliases.len()
        invariant
            i <= aliases@.len(),
            out.wf(),
            out@ == alias_map(aliases@.take(i as int)),
        decreases aliases@.len() - i,
    {
        assert(aliases@.take(i + 1).drop_last() =~= aliases@.take(i as int));
        out.insert(aliases[i].name.clone(), aliases[i].ip.clone());
        i = i + 1;
    }
    assert(aliases@.take(aliases@.len() as int) =~= aliases@);
    out
}

/// Where a packet is to be handled.
#[derive(Debug, Clone, Copy, PartialEq, Eq, Structural)]
pub enum Dispatch {
    Relay,
    Signaling,
    Unknown,
}

/// How a signaling message is to be handled.
#[derive(Debug, Clone, Copy, PartialEq, Eq, Structural)]
pub enum SignalingPath {
    KeyQuery,
    /// In the session that the message names.
    Session,
    Join,
    Auth,
    Bye,
    /// The sender has to be authenticated first.
    Reject,
}

/// Where a packet of a kind is to be handled.
pub fn dispatch(kind: MsgKind) -> (r: Dispatch)
    ensures
        r == (match kind {
            MsgKind::Relay | MsgKind::RelayRk => Dispatch::Relay,
            MsgKind::Query | MsgKind::Register | MsgKind::Heartbeat | MsgKind::Bye
            | MsgKind::KeyQuery | MsgKind::Join | MsgKind::Auth => Dispatch::Signaling,
            _ => Dispatch::Unknown,
        }),
{
    match kind {
        MsgKind::Relay | MsgKind::RelayRk => Dispatch::Relay,
        MsgKind::Query | MsgKind::Register | MsgKind::Heartbeat | MsgKind::Bye | MsgKind::KeyQuery
        | MsgKind::Join | MsgKind::Auth => Dispatch::Signaling,
        _ => Dispatch::Unknown,
    }
}

/// The answer to a request to join.
pub enum JoinOutcome {
    /// None: the address asked too often.
    Silent,
    Refused(String),
    Joined { grant: JoinGrant, server_info: ServerInfo, crl: Crl },
}

/// What a request for a session has come to.
pub enum AuthStep {
    /// No answer: the address asked too often.
    Silent,
    Refused(String),
    /// The request is in order; the session key has to be derived with this nonce.
    Proceed { room: String, nonce: [u8; 12] },
}

/// A request within a session.
pub enum SessionRequest {
    Register(RegisterBody),
    Heartbeat,
    Bye,
    Query(QueryBody),
    Unsupported,
}

/// The answer to a request within a session.
pub enum Answer {
    /// Numbered like the request.
    Reply(ResponseBody),
    /// A refusal, outside the numbering.
    Error(String),
}

/// A device is told of one that looks for it.
pub struct Notice {
    pub to: RouteEntry,
    pub about: PeerInfo,
}

pub struct SessionReply {
    pub answer: Answer,
    pub notice: Option<Notice>,
}

impl Signaling {
    pub open spec fn wf(&self) -> bool {
        &&& self.routes.wf()
        &&& self.sessions.wf()
        &&& self.replay.wf()
        &&& self.limiter.wf()
        &&& self.aliases.wf()
    }

    /// What a configuration lacks for a server to start.
    pub open spec fn missing(cfg: &ServerConfig) -> Option<Seq<char>> {
        if cfg.signing is None {
            Some("服务端尚未生成签名密钥，请先执行 --genkey"@)
        } else if cfg.keypair is None {
            Some("尚未生成密钥对，请先执行 --genkey"@)
        } else {
            None
        }
    }

    /// A server that starts with a configuration and a mesh.
    pub fn new(
        cfg: &ServerConfig,
        mesh: MeshConfig,
        mesh_root_pub: String,
        protocol_ver: u8,
    ) -> (r: Result<Self, String>)
        ensures
            match r {
                Err(e) => Self::missing(cfg) == Some(e@),
                Ok(s) => {
                    &&& Self::missing(cfg) is None
                    &&& s.wf()
                    &&& s.routes.entries() == Map::<RawKey, RouteEntry>::empty()
                    &&& s.stats == (Stats {
                        packets_in: 0,
                        packets_out: 0,
                        bytes_relayed: 0,
                        packets_dropped: 0,
                    })
                    &&& s.server_pub == cfg.keypair->0.public
                    &&& s.server_priv == cfg.keypair->0.private
                    &&& s.server_ik_s_pub == cfg.signing->0.public
                    &&& s.route_ttl_sec == cfg.route_ttl_sec
                    &&& s.mesh == mesh
                    &&& s.mesh_root_pub == mesh_root_pub
                    &&& s.sessions@ == Map::<RawKey, SessionEntry>::empty()
                    &&& forall|d: RawKey| s.replay.nonces(d) == Seq::<[u8; 12]>::empty()
                    &&& s.limiter.allowed() == cfg.join_rate_per_min_per_ip
                    &&& s.limiter.counts() == Map::<IpAddress, (u64, usize)>::empty()
                    &&& s.rooms@ == cfg.rooms@
                    &&& s.aliases@ == alias_map(cfg.aliases@)
                    &&& s.server_name == cfg.server_name
                    &&& s.protocol_ver == protocol_ver
                    &&& s.serverinfo_cache is None
                },
            },
    {
        let server_ik_s_pub = match cfg.signing_public_b64() {
            Ok(k) => k,
            Err(e) => {
                return Err(e);
            },
        };
        let server_pub: RawKey = match cfg.public_key() {
            Ok(k) => k,
            Err(e) => {
                return Err(e);
            },
        };
        let server_priv: RawKey = match cfg.private_key() {
            Ok(k) => k,
            Err(e) => {
                return Err(e);
            },
        };
        let rooms = copy_rooms(&cfg.rooms);
        let aliases = alias_table(&cfg.aliases);
        Ok(
            Signaling {
                routes: RouteTable::new(),
                stats: Stats::default(),
                server_pub,
                server_priv,
                server_ik_s_pub,
                route_ttl_sec: cfg.route_ttl_sec,
                mesh,
                mesh_root_pub,
                sessions: Sessions::new(),
                replay: ReplayCache::new(),
                limiter: RateLimiter::new(cfg.join_rate_per_min_per_ip),
                rooms,
                aliases,
                server_name: cfg.server_name.clone(),
                protocol_ver,
                serverinfo_cache: None,
            },
        )
    }

    pub fn server_pub(&self) -> (r: RawKey)
        ensures
            r == self.server_pub,
    {
        self.server_pub
    }

    /// The rooms at present.
    pub fn rooms_snapshot(&self) -> (r: Vec<RoomEntry>)
        ensures
            r@ == self.rooms@,
    {
        copy_rooms(&self.rooms)
    }

    /// How a signaling message of a sender is to be handled.
    pub fn signaling_path(&self, sender: &RawKey, kind: MsgKind) -> (r: SignalingPath)
        requires
            self.wf(),
        ensures
            r == (if kind == MsgKind::KeyQuery {
                SignalingPath::KeyQuery
            } else if self.sessions@.dom().contains(*sender) {
                SignalingPath::Session
            } else {
                match kind {
                    MsgKind::Join => SignalingPath::Join,
                    MsgKind::Auth => SignalingPath::Auth,
                    MsgKind::Bye => SignalingPath::Bye,
                    _ => SignalingPath::Reject,
                }
            }),
    {
        if kind == MsgKind::KeyQuery {
            return SignalingPath::KeyQuery;
        }
        if self.sessions.get(sender).is_some() {
            return SignalingPath::Session;
        }
        match kind {
            MsgKind::Join => SignalingPath::Join,
            MsgKind::Auth => SignalingPath::Auth,
            MsgKind::Bye => SignalingPath::Bye,
            _ => SignalingPath::Reject,
        }
    }

    /// What the server says of itself, not signed yet.
    pub open spec fn is_own_info(&self, info: ServerInfo) -> bool {
        &&& info.mesh_id == self.mesh.mesh_id
        &&& info.server_name == self.server_name
        &&& info.mesh_root_pub == self.mesh_root_pub
        &&& info.server_ik_x@ == base64_chars(self.server_pub@)
        &&& info.server_ik_s_pub == self.server_ik_s_pub
        &&& info.protocol_ver == self.protocol_ver
        &&& info.crl_version == self.mesh.crl.version
        &&& info.auth_required
        &&& info.signature is None
    }

    /// What the server says of itself. There is nothing to sign it with where the
    /// mesh root has no usable private key.
    pub fn build_server_info(&self) -> (r: Result<ServerInfo, String>)
        ensures
            match r {
                Ok(info) => self.mesh.seed() is Ok && self.is_own_info(info),
                Err(e) => self.mesh.seed() == Err::<Seq<u8>, Seq<char>>(e@),
            },
    {
        if let Err(e) = self.mesh.root_seed() {
            return Err(e);
        }
        Ok(
            ServerInfo {
                mesh_id: self.mesh.mesh_id.clone(),
                server_name: self.server_name.clone(),
                mesh_root_pub: self.mesh_root_pub.clone(),
                server_ik_x: base64_encode(self.server_pub.as_slice()),
                server_ik_s_pub: self.server_ik_s_pub.clone(),
                protocol_ver: self.protocol_ver,
                crl_version: self.mesh.crl.version,
                auth_required: true,
                signature: None,
            },
        )
    }

    /// The last answer to a request for the server's keys, where no device was
    /// revoked since.
    pub fn cached_server_info(&self) -> (r: Option<&Vec<u8>>)
        ensures
            match self.serverinfo_cache {
                Some((v, frame)) => if v == self.mesh.crl.version {
                    r == Some(&frame)
                } else {
                    r is None
                },
                None => r is None,
            },
    {
        match &self.serverinfo_cache {
            Some(c) => if c.0 == self.mesh.crl.version {
                Some(&c.1)
            } else {
                None
            },
            None => None,
        }
    }

    /// Keeps an answer to a request for the server's keys.
    pub fn cache_server_info(&mut self, frame: Vec<u8>)
        ensures
            *final(self) == (Signaling {
                serverinfo_cache: Some((old(self).mesh.crl.version, frame)),
                ..*old(self)
            }),
    {
        self.serverinfo_cache = Some((self.mesh.crl.version, frame));
    }
}

/// A copy of a list of rooms.
pub fn copy_rooms(rooms: &Vec<RoomEntry>) -> (r: Vec<RoomEntry>)
    ensures
        r@ == rooms@,
{
    let mut out: Vec<RoomEntry> = Vec::new();
    let mut i: usize = 0;
    while i < rooms.len()
        invariant
            i <= rooms@.len(),
            out@ == rooms@.take(i as int),
        decreases rooms@.len() - i,
    {
        out.push(
            RoomEntry { name: rooms[i].name.clone(), token_hash: rooms[i].token_hash.clone() },
        );
        assert(out@ =~= rooms@.take(i + 1));
        i = i + 1;
    }
    assert(out@ =~= rooms@);
    out
}

/// The answer to a request to join that was not one too many.
pub open spec fn join_outcome(
    before: Signaling,
    jb: JoinBody,
    expected_id: Result<String, String>,
    now: u64,
    r: JoinOutcome,
    after: Signaling,
) -> bool {
    exists|g: Result<JoinGrant, String>|
        {
            &&& #[trigger] join_answer(
                before.mesh,
                before.rooms@,
                jb,
                expected_id,
                now,
                g,
                after.mesh,
            )
            &&& match g {
                Err(e) => r is Refused && r->Refused_0@ == e@,
                Ok(grant) => {
                    &&& r is Joined
                    &&& r->grant == grant
                    &&& after.is_own_info(r->server_info)
                    &&& r->crl.version == after.mesh.crl.version
                    &&& r->crl.mesh_id == after.mesh.crl.mesh_id
                    &&& r->crl.entries@ == after.mesh.crl.entries@
                    &&& r->crl.signature == after.mesh.crl.signature
                },
            }
        }
}

/// The nonce of a request for a session, or what is wrong with it.
pub open spec fn auth_nonce(nonce: Seq<char>) -> Result<Seq<u8>, Seq<char>> {
    match base64_decoded(trimmed(nonce)) {
        Ok(b) => if b.len() == 12 {
            Ok(b)
        } else {
            Err("nonce 长度错误"@)
        },
        Err(_) => Err("nonce base64 非法"@),
    }
}

/// How far two instants are apart.
pub open spec fn apart(a: u64, b: u64) -> nat {
    if a >= b {
        (a - b) as nat
    } else {
        (b - a) as nat
    }
}

/// Why a request for a session is refused, before its nonce is looked up.
/// `cert_check` is what the check of the certificate's signature, validity and keys
/// came to.
pub open spec fn auth_refusal(
    s: Signaling,
    ab: AuthBody,
    cert_check: Result<(), String>,
    now: u64,
) -> Option<Seq<char>> {
    match room_of_token(s.rooms@, opt_view(ab.token)) {
        Err(e) => Some(e),
        Ok(_) => match cert_check {
            Err(e) => Some(e@),
            Ok(_) => if ab.device_id@ != ab.cert.device_id@ {
                Some("AUTH 载荷 device_id 与证书不一致"@)
            } else if lists(s.mesh.crl.entries@, ab.device_id@) {
                Some("设备已被吊销"@)
            } else if apart(ab.timestamp, now) > CLOCK_TOLERANCE_SECS {
                Some("时间戳超出允许窗口（±30s），请校准设备时钟"@)
            } else {
                match auth_nonce(ab.nonce@) {
                    Err(e) => Some(e),
                    Ok(_) => None,
                }
            },
        },
    }
}

fn decode_nonce(text: &str) -> (r: Result<[u8; 12], String>)
    ensures
        match r {
            Ok(n) => auth_nonce(text@) == Ok::<Seq<u8>, Seq<char>>(n@),
            Err(e) => auth_nonce(text@) == Err::<Seq<u8>, Seq<char>>(e@),
        },
{
    match base64_decode(trim(text)) {
        Ok(b) => {
            if b.len() != 12 {
                return Err("nonce 长度错误".to_owned());
            }
            let mut n: [u8; 12] = [0u8; 12];
            let mut i: usize = 0;
            while i < 12
                invariant
                    i <= 12,
                    b@.len() == 12,
                    n@.len() == 12,
                    forall|j: int| 0 <= j < i ==> n@[j] == b@[j],
                decreases 12 - i,
            {
                n[i] = b[i];
                i = i + 1;
            }
            assert(n@ =~= b@);
            Ok(n)
        },
        Err(_) => Err("nonce base64 非法".to_owned()),
    }
}

impl Signaling {
    /// Answers a request to join.
    pub fn handle_join(
        &mut self,
        sender: &RawKey,
        jb: &JoinBody,
        expected_id: &Result<String, String>,
        src: &IpAddress,
        now: u64,
    ) -> (r: JoinOutcome)
        requires
            old(self).wf(),
            old(self).mesh.members@.len() < u32::MAX,
            now + CERT_VALIDITY_SECS <= u64::MAX,
        ensures
            final(self).wf(),
            old(self).mesh.wf() ==> final(self).mesh.wf(),
            join_handled(*old(self), *sender, *jb, *expected_id, *src, now, r, *final(self)),
    {
        let own = base64_encode(sender.as_slice());
        if !same(own.as_str(), jb.ik_x.as_str()) {
            return JoinOutcome::Refused("JOIN 载荷公钥与帧头不一致".to_owned());
        }
        if self.limiter.rate_limited(src, now) {
            return JoinOutcome::Silent;
        }
        let joined = join_mesh(&mut self.mesh, &self.rooms, jb, expected_id, now);
        match joined {
            Err(e) => JoinOutcome::Refused(e),
            Ok(grant) => match self.build_server_info() {
                Ok(server_info) => JoinOutcome::Joined {
                    grant,
                    server_info,
                    crl: self.mesh.crl.copy(),
                },
                Err(e) => JoinOutcome::Refused(e),
            },
        }
    }

    /// Judges a request for a session.
    fn judge_auth(
        &mut self,
        sender: &RawKey,
        ab: &AuthBody,
        cert_check: &Result<(), String>,
        src: &IpAddress,
        now: u64,
    ) -> (r: AuthStep)
        requires
            old(self).wf(),
        ensures
            final(self).wf(),
            auth_checked(*old(self), *sender, *ab, *cert_check, *src, now, r, *final(self)),
    {
        if self.limiter.rate_limited(src, now) {
            return AuthStep::Silent;
        }
        let room = match resolve_room(&self.rooms, opt_str(&ab.token)) {
            Ok(r) => r,
            Err(e) => {
                return AuthStep::Refused(e);
            },
        };
        if let Err(e) = cert_check {
            return AuthStep::Refused(e.clone());
        }
        if !same(ab.device_id.as_str(), ab.cert.device_id.as_str()) {
            return AuthStep::Refused("AUTH 载荷 device_id 与证书不一致".to_owned());
        }
        if self.mesh.is_revoked(ab.device_id.as_str()) {
            return AuthStep::Refused("设备已被吊销".to_owned());
        }
        let off: u64 = if ab.timestamp >= now {
            ab.timestamp - now
        } else {
            now - ab.timestamp
        };
        if off > CLOCK_TOLERANCE_SECS {
            return AuthStep::Refused(
                "时间戳超出允许窗口（±30s），请校准设备时钟".to_owned(),
            );
        }
        let nonce: [u8; 12] = match decode_nonce(ab.nonce.as_str()) {
            Ok(n) => n,
            Err(e) => {
                return AuthStep::Refused(e);
            },
        };
        if !self.replay.replay_check(sender, &nonce) {
            assert(old(self).replay.nonces(*sender).contains(nonce));
            return AuthStep::Refused("nonce 重放，拒绝认证".to_owned());
        }
        AuthStep::Proceed { room, nonce }
    }

    /// Checks a request for a session. Its nonce is remembered where everything else
    /// is in order.
    pub fn check_auth(
        &mut self,
        sender: &RawKey,
        ab: &AuthBody,
        cert_check: &Result<(), String>,
        src: &IpAddress,
        now: u64,
    ) -> (r: AuthStep)
        requires
            old(self).wf(),
        ensures
            final(self).wf(),
            auth_checked(*old(self), *sender, *ab, *cert_check, *src, now, r, *final(self)),
            may_ask(*old(self), *src, now) && (old(self).limiter.counts().dom().contains(*src)
                ==> old(self).limiter.counts()[*src].1 < usize::MAX) ==> auth_judged_right(
                *old(self),
                *sender,
                *ab,
                *cert_check,
                now,
                r,
            ),
    {
        let r = self.judge_auth(sender, ab, cert_check, src, now);
        proof {
            if may_ask(*old(self), *src, now) && (old(self).limiter.counts().dom().contains(*src)
                ==> old(self).limiter.counts()[*src].1 < usize::MAX) {
                good_requests_go_on(*old(self), *sender, *ab, *cert_check, *src, now, r, *self);
            }
        }
        r
    }

    /// Opens the session of a device.
    fn open_session(
        &mut self,
        sender: &RawKey,
        ab: &AuthBody,
        room: String,
        ek_c: RawKey,
        sk: RawKey,
        ek_s: RawKey,
        now: u64,
    ) -> (r: Result<AuthRespBody, String>)
        requires
            old(self).wf(),
        ensures
            final(self).wf(),
            session_opened(
                *old(self),
                *sender,
                *ab,
                room,
                ek_c,
                sk,
                ek_s,
                now,
                r,
                *final(self),
            ),
    {
        let id = random_bytes(16);
        let session_id = base64_encode(id.as_slice());
        self.sessions.register(
            SessionEntry {
                session_pub: ek_c,
                device_id: ab.device_id.clone(),
                ik_x: *sender,
                ip: ab.cert.allowed_ip.clone(),
                sk,
                counter_rx: 0,
                last_seen: now,
                room,
            },
        );
        match self.build_server_info() {
            Ok(server_info) => Ok(
                AuthRespBody {
                    ek_s: base64_encode(ek_s.as_slice()),
                    session_id,
                    crl: self.mesh.crl.copy(),
                    server_info,
                    allocated_ip: ab.cert.allowed_ip.clone(),
                },
            ),
            Err(e) => Err(e),
        }
    }

    /// Opens the session of a device whose request was in order, under its
    /// ephemeral key and the session key that was derived.
    pub fn complete_auth(
        &mut self,
        sender: &RawKey,
        ab: &AuthBody,
        room: String,
        ek_c: RawKey,
        sk: RawKey,
        ek_s: RawKey,
        now: u64,
    ) -> (r: Result<AuthRespBody, String>)
        requires
            old(self).wf(),
        ensures
            final(self).wf(),
            session_opened(
                *old(self),
                *sender,
                *ab,
                room,
                ek_c,
                sk,
                ek_s,
                now,
                r,
                *final(self),
            ),
            session_is_there(*old(self), *sender, *ab, room@, ek_c, sk, now, *final(self)),
            is_welcomed(*old(self), *ab, ek_s, r),
    {
        let r = self.open_session(sender, ab, room, ek_c, sk, ek_s, now);
        proof {
            an_opened_session_is_there(
                *old(self),
                *sender,
                *ab,
                room,
                ek_c,
                sk,
                ek_s,
                now,
                r,
                *self,
                ek_c,
            );
        }
        r
    }

    /// The key of a session and the number of its next request. There is none for a
    /// key that names no session.
    pub fn next_request(&self, session_pub: &RawKey) -> (r: Option<(RawKey, u64)>)
        requires
            self.wf(),
        ensures
            request_expected(*self, *session_pub, r),
    {
        match self.sessions.get(session_pub) {
            Some(s) => if s.counter_rx < u64::MAX {
                Some((s.sk, s.counter_rx + 1))
            } else {
                None
            },
            None => None,
        }
    }

    /// Notes that a request was read under its number.
    pub fn accept_request(&mut self, session_pub: &RawKey, seq: u64, now: u64)
        requires
            old(self).wf(),
        ensures
            final(self).wf(),
            final(self).sessions@ == advanced(old(self).sessions@, *session_pub, seq, now),
            *final(self) == (Signaling { sessions: final(self).sessions, ..*old(self) }),
    {
        self.sessions.advance(session_pub, seq, now);
    }
}

/// The virtual address that a name leads to in a room: a name that the
/// administrator bound comes before one that a device gave itself.
pub open spec fn resolved_name(s: Signaling, name: Seq<char>, room: Seq<char>) -> Option<Seq<char>> {
    if s.aliases@.dom().contains(name) {
        Some(s.aliases@[name]@)
    } else {
        named_address(s.routes.entries(), name, room)
    }
}

/// The virtual address that a query asks for.
pub open spec fn query_address(s: Signaling, qb: QueryBody, room: Seq<char>) -> Option<Seq<char>> {
    match qb.name {
        Some(name) => if canonical(name@).len() == 0 {
            None
        } else {
            resolved_name(s, canonical(name@), room)
        },
        None => Some(qb.ip@),
    }
}

/// The device that a query of a device in a room finds: one in the same room.
pub open spec fn query_target(s: Signaling, qb: QueryBody, room: Seq<char>) -> Option<RouteEntry> {
    match query_address(s, qb, room) {
        Some(ip) => match s.routes.at_ip(ip) {
            Some(e) => if e.room@ == room {
                Some(e)
            } else {
                None
            },
            None => None,
        },
        None => None,
    }
}

/// What a query asks for, as it was written.
pub open spec fn query_text(qb: QueryBody) -> Seq<char> {
    match qb.name {
        Some(n) => n@,
        None => qb.ip@,
    }
}

/// The answer to a query that found a device.
pub open spec fn is_hit(data: ResponseData, qb: QueryBody, e: RouteEntry) -> bool {
    &&& data is QueryHit
    &&& data->QueryHit_req@ == query_text(qb)
    &&& data->QueryHit_ip == e.ip
    &&& data->QueryHit_public_key@ == base64_chars(e.public_key@)
    &&& data->QueryHit_endpoint == e.endpoint
    &&& data->QueryHit_relay_rk == e.relay_rk
    &&& data->QueryHit_alias@ == (match qb.name {
        Some(n) => n@,
        None => match e.alias {
            Some(a) => a@,
            None => Seq::empty(),
        },
    })
}

/// The reason that a query found nothing.
pub open spec fn miss_text(qb: QueryBody) -> Seq<char> {
    "目标 "@ + query_text(qb) + " 未上线"@
}

/// The answer to a query that found nothing.
pub open spec fn is_miss(b: ResponseBody, qb: QueryBody) -> bool {
    &&& !b.ok
    &&& b.data is QueryMiss
    &&& b.data->QueryMiss_req@ == query_text(qb)
    &&& b.data->QueryMiss_error@ == miss_text(qb)
    &&& b.error is Some
    &&& b.error->0@ == miss_text(qb)
}

/// What a device is told of the one that looks for it.
pub open spec fn describes(
    info: PeerInfo,
    entries: Map<RawKey, RouteEntry>,
    who: RawKey,
    src: Seq<char>,
) -> bool {
    &&& info.public_key@ == base64_chars(who@)
    &&& info.endpoint@ == src
    &&& match entry_of(entries, who) {
        Some(e) => info.relay_rk == e.relay_rk && info.alias == e.alias && info.ip == Some(e.ip),
        None => info.relay_rk is None && info.alias is None && info.ip is None,
    }
}

/// The entry of a device that registers.
pub open spec fn is_registration(
    e: RouteEntry,
    s: SessionEntry,
    rb: RegisterBody,
    name: Option<Seq<char>>,
    src: Seq<char>,
    now: u64,
) -> bool {
    &&& e.public_key == s.ik_x
    &&& e.ip == s.ip
    &&& e.endpoint@ == src
    &&& e.last_seen == now
    &&& e.relay_rk == rb.relay_rk
    &&& e.room == s.room
    &&& opt_view(e.alias) == name
}

/// The refusal of a device that registers with another address than its own.
pub open spec fn wrong_ip_text(asked: Seq<char>, own: Seq<char>) -> Seq<char> {
    "虚拟 IP "@ + asked + " 与证书绑定不符（应注册 "@ + own + "），拒绝注册"@
}

/// Why a registration with a token is refused: with rooms in use, a token that is given
/// has to be that of one of them. Without a token the session's own room counts.
pub open spec fn token_refusal(rooms: Seq<RoomEntry>, token: Option<Seq<char>>) -> Option<
    Seq<char>,
> {
    if token is Some && trimmed(token->0).len() > 0 {
        match room_of_token(rooms, token) {
            Ok(_) => None,
            Err(e) => Some(e),
        }
    } else {
        None
    }
}

/// The answer to a registration, and what becomes of the routes.
pub open spec fn register_answer(
    rooms: Seq<RoomEntry>,
    before: RouteTable,
    s: SessionEntry,
    rb: RegisterBody,
    src: Seq<char>,
    now: u64,
    answer: Answer,
    after: RouteTable,
) -> bool {
    if rb.ip@ != s.ip@ {
        answer is Error && answer->Error_0@ == wrong_ip_text(rb.ip@, s.ip@) && after == before
    } else if token_refusal(rooms, opt_view(rb.token)) is Some {
        answer is Error && answer->Error_0@ == token_refusal(rooms, opt_view(rb.token))->0 && after
            == before
    } else {
        match own_name(opt_view(rb.alias)) {
            Err(e) => answer is Error && answer->Error_0@ == e && after == before,
            Ok(name) => {
                &&& is_yes(answer)
                &&& exists|e: RouteEntry|
                    is_registration(e, s, rb, name, src, now) && #[trigger] upserted(
                        before,
                        e,
                        after,
                    )
            },
        }
    }
}

/// A plain yes.
pub open spec fn is_yes(answer: Answer) -> bool {
    &&& answer is Reply
    &&& answer->Reply_0.ok
    &&& answer->Reply_0.data is Empty
    &&& answer->Reply_0.error is None
}

/// What becomes of the routes when a device shows that it is alive.
pub open spec fn heartbeat_routes(
    before: RouteTable,
    s: SessionEntry,
    src: Seq<char>,
    now: u64,
    after: RouteTable,
) -> bool {
    match entry_of(before.entries(), s.ik_x) {
        Some(old) => exists|e: RouteEntry|
            {
                &&& e.public_key == s.ik_x
                &&& e.ip == old.ip
                &&& e.endpoint@ == src
                &&& e.last_seen == now
                &&& e.relay_rk == old.relay_rk
                &&& e.room == s.room
                &&& e.alias == old.alias
                &&& #[trigger] upserted(before, e, after)
            },
        None => after == before,
    }
}

/// What becomes of the routes when a device leaves.
pub open spec fn removed(before: RouteTable, key: RawKey, after: RouteTable) -> bool {
    &&& after.entries() == before.entries().remove(key)
    &&& after.addresses() == (match entry_of(before.entries(), key) {
        Some(e) => before.addresses().remove(e.ip@),
        None => before.addresses(),
    })
    &&& after.relay_keys() == rk_released(
        before.relay_keys(),
        key,
        rk_of(entry_of(before.entries(), key)),
    )
}

impl Signaling {
    /// The virtual address that a name leads to in a room.
    pub fn resolve_alias(&self, name: &str, room: &str) -> (r: Option<String>)
        requires
            self.wf(),
        ensures
            opt_view(r) == resolved_name(*self, name@, room@),
    {
        match self.aliases.get(&name.to_owned()) {
            Some(ip) => Some(ip.clone()),
            None => self.routes.named_ip(name, room),
        }
    }

    /// What another device is told of a device that looks for it.
    fn describe(&self, who: &RawKey, src: &str) -> (r: PeerInfo)
        requires
            self.wf(),
        ensures
            describes(r, self.routes.entries(), *who, src@),
    {
        let public_key = base64_encode(who.as_slice());
        match self.routes.get(who) {
            Some(e) => PeerInfo {
                public_key,
                endpoint: src.to_owned(),
                relay_rk: copy_text(&e.relay_rk),
                alias: copy_text(&e.alias),
                ip: Some(e.ip.clone()),
            },
            None => PeerInfo {
                public_key,
                endpoint: src.to_owned(),
                relay_rk: None,
                alias: None,
                ip: None,
            },
        }
    }

    /// Finds the device that a query asks for.
    fn find_target(&self, qb: &QueryBody, room: &str) -> (r: Option<RouteEntry>)
        requires
            self.wf(),
        ensures
            r == query_target(*self, *qb, room@),
    {
        let ip: Option<String> = match &qb.name {
            Some(name) => {
                let c = canonical_name(name.as_str());
                if c.as_str().is_empty() {
                    None
                } else {
                    self.resolve_alias(c.as_str(), room)
                }
            },
            None => Some(qb.ip.clone()),
        };
        match ip {
            Some(a) => match self.routes.get_by_ip(a.as_str()) {
                Some(e) => if same(e.room.as_str(), room) {
                    Some(e.copy())
                } else {
                    None
                },
                None => None,
            },
            None => None,
        }
    }

    /// Answers a query of a device in a session.
    pub fn answer_query(&self, session: &SessionEntry, qb: &QueryBody, src: &str) -> (r:
        SessionReply)
        requires
            self.wf(),
        ensures
            r.answer is Reply,
            match query_target(*self, *qb, session.room@) {
                Some(e) => {
                    let b = r.answer->Reply_0;
                    &&& b.ok && b.error is None && is_hit(b.data, *qb, e)
                    &&& r.notice is Some
                    &&& r.notice->0.to == e
                    &&& describes(
                        r.notice->0.about,
                        self.routes.entries(),
                        session.ik_x,
                        src@,
                    )
                },
                None => is_miss(r.answer->Reply_0, *qb) && r.notice is None,
            },
    {
        let req = match &qb.name {
            Some(n) => n.clone(),
            None => qb.ip.clone(),
        };
        match self.find_target(qb, session.room.as_str()) {
            Some(e) => {
                let alias = match &qb.name {
                    Some(n) => n.clone(),
                    None => match &e.alias {
                        Some(a) => a.clone(),
                        None => String::new(),
                    },
                };
                let data = ResponseData::QueryHit {
                    req,
                    ip: e.ip.clone(),
                    public_key: base64_encode(e.public_key.as_slice()),
                    endpoint: e.endpoint.clone(),
                    relay_rk: copy_text(&e.relay_rk),
                    alias,
                };
                let about = self.describe(&session.ik_x, src);
                SessionReply {
                    answer: Answer::Reply(ResponseBody::ok_with_data(data)),
                    notice: Some(Notice { to: e, about }),
                }
            },
            None => {
                let mut text = "目标 ".to_owned();
                text.append(req.as_str());
                text.append(" 未上线");
                SessionReply {
                    answer: Answer::Reply(
                        ResponseBody {
                            ok: false,
                            data: ResponseData::QueryMiss { req, error: text.clone() },
                            error: Some(text),
                        },
                    ),
                    notice: None,
                }
            },
        }
    }

    /// Answers a registration.
    fn answer_register(
        &mut self,
        session: &SessionEntry,
        rb: &RegisterBody,
        src: &str,
        now: u64,
    ) -> (r: Answer)
        requires
            old(self).wf(),
        ensures
            final(self).wf(),
            register_answer(
                old(self).rooms@,
                old(self).routes,
                *session,
                *rb,
                src@,
                now,
                r,
                final(self).routes,
            ),
            *final(self) == (Signaling { routes: final(self).routes, ..*old(self) }),
    {
        if !same(rb.ip.as_str(), session.ip.as_str()) {
            let mut text = "虚拟 IP ".to_owned();
            text.append(rb.ip.as_str());
            text.append(" 与证书绑定不符（应注册 ");
            text.append(session.ip.as_str());
            text.append("），拒绝注册");
            return Answer::Error(text);
        }
        if let Some(t) = &rb.token {
            if !trim(t.as_str()).is_empty() {
                if let Err(e) = resolve_room(&self.rooms, Some(t.as_str())) {
                    return Answer::Error(e);
                }
            }
        }
        let alias = match normalize_self_alias(opt_str(&rb.alias)) {
            Ok(a) => a,
            Err(e) => {
                return Answer::Error(e);
            },
        };
        let entry = RouteEntry {
            public_key: session.ik_x,
            ip: session.ip.clone(),
            endpoint: src.to_owned(),
            last_seen: now,
            relay_rk: copy_text(&rb.relay_rk),
            room: session.room.clone(),
            alias,
        };
        self.routes.upsert(entry);
        assert(upserted(old(self).routes, entry, self.routes));
        Answer::Reply(ResponseBody::ok())
    }

    /// Answers a request within a session.
    fn take_request(
        &mut self,
        session_pub: &RawKey,
        request: &SessionRequest,
        src: &str,
        now: u64,
    ) -> (r: Option<SessionReply>)
        requires
            old(self).wf(),
        ensures
            final(self).wf(),
            r is Some <==> old(self).sessions@.dom().contains(*session_pub),
            r is None ==> *final(self) == *old(self),
            r is Some ==> request_answered(
                *old(self),
                *session_pub,
                *request,
                src@,
                now,
                r->0,
                *final(self),
            ),
    {
        let session = match self.sessions.get(session_pub) {
            Some(s) => s.copy(),
            None => {
                return None;
            },
        };
        match request {
            SessionRequest::Register(rb) => {
                let answer = self.answer_register(&session, rb, src, now);
                Some(SessionReply { answer, notice: None })
            },
            SessionRequest::Heartbeat => {
                let known: Option<RouteEntry> = match self.routes.get(&session.ik_x) {
                    Some(e) => Some(e.copy()),
                    None => None,
                };
                if let Some(e) = known {
                    let entry = RouteEntry {
                        public_key: session.ik_x,
                        ip: e.ip,
                        endpoint: src.to_owned(),
                        last_seen: now,
                        relay_rk: e.relay_rk,
                        room: session.room.clone(),
                        alias: e.alias,
                    };
                    self.routes.upsert(entry);
                    assert(upserted(old(self).routes, entry, self.routes));
                }
                Some(SessionReply { answer: Answer::Reply(ResponseBody::ok()), notice: None })
            },
            SessionRequest::Bye => {
                self.routes.remove(&session.ik_x);
                self.sessions.remove(session_pub);
                Some(SessionReply { answer: Answer::Reply(ResponseBody::ok()), notice: None })
            },
            SessionRequest::Query(qb) => Some(self.answer_query(&session, qb, src)),
            SessionRequest::Unsupported => Some(
                SessionReply {
                    answer: Answer::Reply(ResponseBody::err("不支持的消息类型")),
                    notice: None,
                },
            ),
        }
    }

    /// Answers a request within a session. There is no answer where the key names
    /// no session.
    pub fn answer_request(
        &mut self,
        session_pub: &RawKey,
        request: &SessionRequest,
        src: &str,
        now: u64,
    ) -> (r: Option<SessionReply>)
        requires
            old(self).wf(),
        ensures
            final(self).wf(),
            r is Some <==> old(self).sessions@.dom().contains(*session_pub),
            r is None ==> *final(self) == *old(self),
            r is Some ==> request_answered(
                *old(self),
                *session_pub,
                *request,
                src@,
                now,
                r->0,
                *final(self),
            ),
            r is Some ==> request_served(
                *old(self),
                *session_pub,
                *request,
                src@,
                now,
                r->0,
                *final(self),
            ),
    {
        let r = self.take_request(session_pub, request, src, now);
        proof {
            if r is Some {
                requests_are_served(
                    *old(self),
                    *session_pub,
                    *request,
                    src@,
                    now,
                    r->0,
                    *self,
                );
            }
        }
        r
    }

    /// Takes note that a device without a session leaves.
    pub fn handle_bye(&mut self, sender: &RawKey)
        requires
            old(self).wf(),
        ensures
            final(self).wf(),
            removed(old(self).routes, *sender, final(self).routes),
            *final(self) == (Signaling { routes: final(self).routes, ..*old(self) }),
    {
        self.routes.remove(sender);
    }
}

/// A table before and after the entries of some devices, then those of others, were
/// taken out.
pub open spec fn dropped_twice(
    before: RouteTable,
    first: Set<RawKey>,
    second: Set<RawKey>,
    after: RouteTable,
) -> bool {
    exists|mid: RouteTable|
        #[trigger] dropped(before, first, mid) && dropped(mid, second, after)
}

impl Signaling {
    /// Revokes a device.
    fn take_out_device(&mut self, device_id: &str, reason: RevokeReason, now: u64) -> (r: Result<
        u64,
        String,
    >)
        requires
            old(self).wf(),
            old(self).mesh.crl.version < u64::MAX,
        ensures
            final(self).wf(),
            device_revoked(*old(self), device_id@, reason, now, r, *final(self)),
            old(self).mesh.wf() && r is Ok ==> final(self).mesh.wf(),
    {
        let version: u64 = match self.mesh.revoke(device_id, reason, now) {
            Ok(crl) => crl.version,
            Err(e) => {
                return Err(e);
            },
        };
        let kicked = self.sessions.kick_device(device_id);
        proof {
            lemma_devices_of(
                old(self).sessions@,
                device_sessions(old(self).sessions@, device_id@),
                kicked@,
            );
        }
        self.routes.remove_all(&kicked);
        Ok(version)
    }

    /// Revokes a device: it is put on the revocation list, and its sessions and
    /// routes end at once. Returns the version of the list.
    pub fn revoke_device(&mut self, device_id: &str, reason: RevokeReason, now: u64) -> (r: Result<
        u64,
        String,
    >)
        requires
            old(self).wf(),
            old(self).mesh.crl.version < u64::MAX,
        ensures
            final(self).wf(),
            device_revoked(*old(self), device_id@, reason, now, r, *final(self)),
            old(self).mesh.wf() && r is Ok ==> final(self).mesh.wf(),
            forall|session: RawKey, other: Seq<char>|
                #[trigger] revokes_at_once(
                    *old(self),
                    device_id@,
                    reason,
                    now,
                    r,
                    *final(self),
                    session,
                    other,
                ),
    {
        let r = self.take_out_device(device_id, reason, now);
        proof {
            assert forall|session: RawKey, other: Seq<char>|
                #[trigger] revokes_at_once(
                    *old(self),
                    device_id@,
                    reason,
                    now,
                    r,
                    *self,
                    session,
                    other,
                ) by {
                a_revocation_takes_effect_at_once(
                    *old(self),
                    device_id@,
                    reason,
                    now,
                    r,
                    *self,
                    session,
                    other,
                );
            }
        }
        r
    }

    /// Forgets what has expired.
    fn forget_expired(&mut self, now: u64) -> (r: usize)
        requires
            old(self).wf(),
        ensures
            final(self).wf(),
            cleaned_up(*old(self), now, r, *final(self)),
    {
        self.routes.cleanup(now, self.route_ttl_sec);
        let ghost mid = self.routes;
        self.limiter.forget_old(now);
        let ttl: u64 = self.route_ttl_sec;
        let expired = self.sessions.expire(now, ttl);
        proof {
            lemma_devices_of(
                old(self).sessions@,
                idle_sessions(old(self).sessions@, now, ttl),
                expired@,
            );
        }
        self.routes.remove_all(&expired);
        proof {
            let idle = idle_sessions(old(self).sessions@, now, ttl);
            let stale = expired_keys(old(self).routes.entries(), now, old(self).route_ttl_sec);
            assert(dropped(old(self).routes, stale, mid));
            assert(dropped(mid, keys_of(old(self).sessions@, idle), self.routes));
        }
        expired.len()
    }

    /// Forgets what has expired: routes, counts of requests, and sessions with their
    /// routes. Returns how many sessions ended.
    pub fn cleanup(&mut self, now: u64) -> (r: usize)
        requires
            old(self).wf(),
        ensures
            final(self).wf(),
            cleaned_up(*old(self), now, r, *final(self)),
            forall|device: RawKey, session: RawKey|
                #[trigger] forgets_the_silent(*old(self), now, *final(self), device, session),
    {
        let r = self.forget_expired(now);
        proof {
            assert forall|device: RawKey, session: RawKey|
                #[trigger] forgets_the_silent(*old(self), now, *self, device, session) by {
                silent_devices_are_forgotten(*old(self), now, r, *self, device, session);
            }
        }
        r
    }
}

/// A request within the session `s`, which stands under `session_pub`, and its answer.
pub open spec fn request_answered(
    before: Signaling,
    session_pub: RawKey,
    request: SessionRequest,
    src: Seq<char>,
    now: u64,
    reply: SessionReply,
    after: Signaling,
) -> bool {
    let s = before.sessions@[session_pub];
    match request {
        SessionRequest::Register(rb) => {
            &&& reply.notice is None
            &&& register_answer(
                before.rooms@,
                before.routes,
                s,
                rb,
                src,
                now,
                reply.answer,
                after.routes,
            )
            &&& after == (Signaling {
                routes: after.routes,
                ..before
            })
        },
        SessionRequest::Heartbeat => {
            &&& reply.notice is None
            &&& is_yes(reply.answer)
            &&& heartbeat_routes(
                before.routes,
                s,
                src,
                now,
                after.routes,
            )
            &&& after == (Signaling {
                routes: after.routes,
                ..before
            })
        },
        SessionRequest::Bye => {
            &&& reply.notice is None
            &&& is_yes(reply.answer)
            &&& removed(before.routes, s.ik_x, after.routes)
            &&& after.sessions@ == before.sessions@.remove(session_pub)
            &&& after == (Signaling {
                routes: after.routes,
                sessions: after.sessions,
                ..before
            })
        },
        SessionRequest::Query(qb) => {
            &&& after == before
            &&& reply.answer is Reply
            &&& match query_target(before, qb, s.room@) {
                Some(e) => {
                    let b = reply.answer->Reply_0;
                    &&& b.ok && b.error is None && is_hit(b.data, qb, e)
                    &&& reply.notice is Some
                    &&& reply.notice->0.to == e
                    &&& describes(
                        reply.notice->0.about,
                        before.routes.entries(),
                        s.ik_x,
                        src,
                    )
                },
                None => is_miss(reply.answer->Reply_0, qb) && reply.notice is None,
            }
        },
        SessionRequest::Unsupported => {
            &&& after == before
            &&& reply.notice is None
            &&& reply.answer is Reply
            &&& !reply.answer->Reply_0.ok
            &&& reply.answer->Reply_0.error is Some
            &&& reply.answer->Reply_0.error->0@ == "不支持的消息类型"@
        },
    }
}

/// The server before and after it forgot what has expired, and how many sessions ended.
pub open spec fn cleaned_up(before: Signaling, now: u64, ended: usize, after: Signaling) -> bool {
    let ttl = before.route_ttl_sec;
    let idle = idle_sessions(before.sessions@, now, ttl);
    let stale = expired_keys(
        before.routes.entries(),
        now,
        before.route_ttl_sec,
    );
    &&& after.sessions@ == before.sessions@.remove_keys(idle)
    &&& dropped_twice(
        before.routes,
        stale,
        keys_of(before.sessions@, idle),
        after.routes,
    )
    &&& after.limiter.allowed() == before.limiter.allowed()
    &&& after.limiter.counts() == before.limiter.counts().remove_keys(
        passed_windows(before.limiter.counts(), now),
    )
    &&& ended == idle.len()
    &&& after == (Signaling {
        routes: after.routes,
        limiter: after.limiter,
        sessions: after.sessions,
        ..before
    })
}

/// The server before and after it was to revoke a device, and the version of the list.
pub open spec fn device_revoked(
    before: Signaling,
    device_id: Seq<char>,
    reason: RevokeReason,
    now: u64,
    r: Result<u64, String>,
    after: Signaling,
) -> bool {
    &&& match r {
        Ok(version) => {
            let gone = device_sessions(before.sessions@, device_id);
            &&& !lists(before.mesh.crl.entries@, device_id)
            &&& before.mesh.crl.entries@.len() < MAX_CRL_ENTRIES
            &&& before.mesh.seed() is Ok
            &&& version == before.mesh.crl.version + 1
            &&& after.mesh.crl.version == version
            &&& after.mesh.crl.signature is None
            &&& revoked_one(
                before.mesh.crl.entries@,
                after.mesh.crl.entries@,
                device_id,
                reason,
                now,
            )
            &&& after.mesh.members@ == before.mesh.members@.filter(
                other_than(device_id),
            )
            &&& after.sessions@ == before.sessions@.remove_keys(gone)
            &&& dropped(
                before.routes,
                keys_of(before.sessions@, gone),
                after.routes,
            )
        },
        Err(e) => {
            &&& after.sessions == before.sessions
            &&& after.routes == before.routes
            &&& if lists(before.mesh.crl.entries@, device_id) {
                &&& e@ == "该设备已在吊销列表中"@
                &&& after.mesh == before.mesh
            } else if before.mesh.crl.entries@.len() >= MAX_CRL_ENTRIES {
                &&& e@
                    == "CRL 已达线格式上限（256 条），无法再吊销。请清理/精简吊销列表后再试"@
                &&& after.mesh == before.mesh
            } else {
                before.mesh.seed() == Err::<Seq<u8>, Seq<char>>(e@)
            }
        },
    }
    &&& after == (Signaling {
        mesh: after.mesh,
        sessions: after.sessions,
        routes: after.routes,
        ..before
    })
}

/// The server before and after it checked a request for a session, and what that came to.
pub open spec fn auth_checked(
    before: Signaling,
    sender: RawKey,
    ab: AuthBody,
    cert_check: Result<(), String>,
    src: IpAddress,
    now: u64,
    r: AuthStep,
    after: Signaling,
) -> bool {
    &&& counted_once(before.limiter, src, now, after.limiter)
    &&& after == (Signaling {
        limiter: after.limiter,
        replay: after.replay,
        ..before
    })
    &&& if exceeds(before.limiter, src, now) {
        r is Silent && after.replay == before.replay
    } else {
        match auth_refusal(before, ab, cert_check, now) {
            Some(e) => r is Refused && r->Refused_0@ == e && after.replay == before.replay,
            None => {
                let nonces = before.replay.nonces(sender);
                match r {
                    AuthStep::Proceed { room, nonce } => {
                        &&& auth_nonce(ab.nonce@) == Ok::<Seq<u8>, Seq<char>>(nonce@)
                        &&& !nonces.contains(nonce)
                        &&& room_of_token(before.rooms@, opt_view(ab.token)) == Ok::<
                            Seq<char>,
                            Seq<char>,
                        >(room@)
                        &&& forall|d: RawKey|
                            #![trigger after.replay.nonces(d)]
                            after.replay.nonces(d) == (if d == sender {
                                remembered(nonces, nonce)
                            } else {
                                before.replay.nonces(d)
                            })
                    },
                    AuthStep::Refused(e) => {
                        &&& e@ == "nonce 重放，拒绝认证"@
                        &&& exists|n: [u8; 12]|
                            #[trigger] nonces.contains(n) && auth_nonce(ab.nonce@) == Ok::<
                                Seq<u8>,
                                Seq<char>,
                            >(n@)
                        &&& forall|d: RawKey|
                            #![trigger after.replay.nonces(d)]
                            after.replay.nonces(d) == before.replay.nonces(d)
                    },
                    AuthStep::Silent => false,
                }
            },
        }
    }
}

/// The server before and after it opened a session, and the answer to the device.
pub open spec fn session_opened(
    before: Signaling,
    sender: RawKey,
    ab: AuthBody,
    room: String,
    ek_c: RawKey,
    sk: RawKey,
    ek_s: RawKey,
    now: u64,
    r: Result<AuthRespBody, String>,
    after: Signaling,
) -> bool {
    &&& registered(
        before.sessions@,
        SessionEntry {
            session_pub: ek_c,
            device_id: ab.device_id,
            ik_x: sender,
            ip: ab.cert.allowed_ip,
            sk,
            counter_rx: 0,
            last_seen: now,
            room,
        },
        after.sessions@,
    )
    &&& after == (Signaling { sessions: after.sessions, ..before })
    &&& match r {
        Ok(resp) => {
            &&& before.mesh.seed() is Ok
            &&& resp.ek_s@ == base64_chars(ek_s@)
            &&& exists|bytes: Seq<u8>|
                bytes.len() == 16 && resp.session_id@ == base64_chars(bytes)
            &&& resp.crl.version == before.mesh.crl.version
            &&& resp.crl.mesh_id == before.mesh.crl.mesh_id
            &&& resp.crl.entries@ == before.mesh.crl.entries@
            &&& resp.crl.signature == before.mesh.crl.signature
            &&& before.is_own_info(resp.server_info)
            &&& resp.allocated_ip == ab.cert.allowed_ip
        },
        Err(e) => before.mesh.seed() == Err::<Seq<u8>, Seq<char>>(e@),
    }
}

/// The server before and after a request to join, and the answer.
pub open spec fn join_handled(
    before: Signaling,
    sender: RawKey,
    jb: JoinBody,
    expected_id: Result<String, String>,
    src: IpAddress,
    now: u64,
    r: JoinOutcome,
    after: Signaling,
) -> bool {
    &&& (base64_chars(sender@) != jb.ik_x@ ==> {
        &&& r is Refused && r->Refused_0@ == "JOIN 载荷公钥与帧头不一致"@
        &&& after == before
    })
    &&& (base64_chars(sender@) == jb.ik_x@ ==> {
        &&& counted_once(before.limiter, src, now, after.limiter)
        &&& after == (Signaling {
            limiter: after.limiter,
            mesh: after.mesh,
            ..before
        })
        &&& if exceeds(before.limiter, src, now) {
            r is Silent && after.mesh == before.mesh
        } else {
            join_outcome(before, jb, expected_id, now, r, after)
        }
    })
}

/// The key and the number of the next request of a session.
pub open spec fn request_expected(
    s: Signaling,
    session_pub: RawKey,
    r: Option<(RawKey, u64)>,
) -> bool {
    match r {
        Some((sk, seq)) => {
            &&& s.sessions@.dom().contains(session_pub)
            &&& sk == s.sessions@[session_pub].sk
            &&& seq == s.sessions@[session_pub].counter_rx + 1
        },
        None => !s.sessions@.dom().contains(session_pub)
            || s.sessions@[session_pub].counter_rx == u64::MAX,
    }
}

/// A revoked device is refused a session, whatever certificate it shows.
pub proof fn a_revoked_device_is_refused(
    s: Signaling,
    ab: AuthBody,
    cert_check: Result<(), String>,
    now: u64,
)
    requires
        lists(s.mesh.crl.entries@, ab.device_id@),
    ensures
        auth_refusal(s, ab, cert_check, now) is Some,
{
}

/// With rooms in use, nobody gets a session without the token of one of them.
pub proof fn no_token_no_session(
    s: Signaling,
    ab: AuthBody,
    cert_check: Result<(), String>,
    now: u64,
)
    requires
        s.rooms@.len() > 0,
        ab.token is None || room_lookup(s.rooms@, token_digest(ab.token->0@)) is None,
    ensures
        auth_refusal(s, ab, cert_check, now) is Some,
{
}

/// A device that was let into the mesh gets a session: as long as nobody revokes it, its
/// request is in order with the token that it has joined with.
pub proof fn a_joined_device_is_let_in(
    before: MeshConfig,
    s: Signaling,
    jb: JoinBody,
    expected_id: Result<String, String>,
    grant: JoinGrant,
    joined: u64,
    ab: AuthBody,
    now: u64,
)
    requires
        join_answer(before, s.rooms@, jb, expected_id, joined, Ok(grant), s.mesh),
        ab.device_id@ == jb.device_id@,
        ab.cert.device_id@ == jb.device_id@,
        opt_view(ab.token) == opt_view(jb.token),
        apart(ab.timestamp, now) <= CLOCK_TOLERANCE_SECS,
        auth_nonce(ab.nonce@) is Ok,
    ensures
        auth_refusal(s, ab, Ok(()), now) is None,
        grant.cert.device_id@ == jb.device_id@,
{
    let r: Result<JoinGrant, String> = Ok(grant);
    let hash = code_digest(jb.code@);
    let i = choose|i: int|
        {
            &&& #[trigger] invite_at(before.invites@, hash, i)
            &&& match invite_error(before.invites@[i], joined) {
                Some(e) => join_refused(before, r, s.mesh, "加入失败: "@ + e),
                None => join_invited(before, i, jb, expected_id, joined, r, s.mesh),
            }
        };
    assert(join_invited(before, i, jb, expected_id, joined, r, s.mesh));
    let ip = choose|ip: Result<Seq<char>, Seq<char>>|
        {
            &&& #[trigger] allocation(&before, i, join_wish(before.invites@[i], jb), ip)
            &&& match ip {
                Err(e) => join_refused(before, r, s.mesh, e),
                Ok(a) => join_addressed(before, i, jb, a, joined, r, s.mesh),
            }
        };
    let a = ip->Ok_0;
    assert(join_addressed(before, i, jb, a, joined, r, s.mesh));
    let c = choose|c: Result<DeviceCert, String>|
        {
            &&& #[trigger] cert_outcome(
                &before,
                i,
                jb.device_id@,
                jb.ik_x@,
                jb.ik_s_pub@,
                trimmed(a),
                joined,
                c,
            )
            &&& match c {
                Err(e) => join_refused(before, r, s.mesh, "签发证书失败: "@ + e@),
                Ok(cert) => join_granted(before, i, jb, a, cert, joined, r, s.mesh),
            }
        };
    assert(c is Ok);
    assert(s.mesh.crl == before.crl);
}

/// A device that has registered is found by a query from its room, with its key and the
/// address that it registered from.
pub proof fn a_registered_device_answers_its_room(
    before: RouteTable,
    session: SessionEntry,
    rb: RegisterBody,
    src: Seq<char>,
    now: u64,
    answer: Answer,
    s: Signaling,
    qb: QueryBody,
)
    requires
        register_answer(s.rooms@, before, session, rb, src, now, answer, s.routes),
        is_yes(answer),
        session.ip@.len() > 0,
        qb.name is None,
        qb.ip@ == session.ip@,
    ensures
        query_target(s, qb, session.room@) is Some,
        query_target(s, qb, session.room@)->0.public_key == session.ik_x,
        query_target(s, qb, session.room@)->0.endpoint@ == src,
{
    let name = own_name(opt_view(rb.alias))->Ok_0;
    let e = choose|e: RouteEntry|
        is_registration(e, session, rb, name, src, now) && #[trigger] upserted(before, e, s.routes);
    a_registered_device_is_found(before, e, s.routes);
}

/// A query finds nobody in another room: it is answered as if there were no such
/// device.
pub proof fn queries_stay_in_the_room(s: Signaling, qb: QueryBody, room: Seq<char>)
    ensures
        match query_target(s, qb, room) {
            Some(e) => e.room@ == room,
            None => true,
        },
{
}

/// A name that the administrator bound leads to its address, whatever names devices
/// give themselves.
pub proof fn the_administrators_names_come_first(
    s: Signaling,
    name: Seq<char>,
    room: Seq<char>,
)
    requires
        s.aliases@.dom().contains(name),
    ensures
        resolved_name(s, name, room) == Some(s.aliases@[name]@),
{
}

/// The case of a name, and white space around it, do not matter in a query.
pub proof fn queries_ignore_case(s: Signaling, a: QueryBody, b: QueryBody, room: Seq<char>)
    requires
        a.name is Some,
        b.name is Some,
        canonical(a.name->0@) == canonical(b.name->0@),
    ensures
        query_target(s, a, room) == query_target(s, b, room),
{
}

} // verus!
