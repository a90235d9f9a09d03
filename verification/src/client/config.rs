//! The client's configuration.
use vstd::prelude::*;
use vstd::string::*;
use crate::alias::{alias_error, canonical, checked_alias, is_alias};
use crate::cert::{DeviceCert, KeyPair, SignKeyPair};
use crate::client::aliases::Aliases;
use crate::outside::{base64_chars, quote, quoted, random_token};
use crate::table::RawKey;
use crate::text::{decimal, join3, push_decimal, same};

verus! {

pub const DEFAULT_CONTROL_PORT: u16 = 12779;

pub const DEFAULT_LOG_FILE: &'static str = "client.log";

pub const DEFAULT_PID_FILE: &'static str = "client.pid";

pub const DEFAULT_NETMASK: &'static str = "255.255.255.0";

pub const DEFAULT_MTU: usize = 1280;

pub const DEFAULT_HEARTBEAT_SEC: u64 = 20;

/// A virtual network interface. Its address is a placeholder until the server has
/// named the one in the device's certificate.
#[derive(Debug, Clone)]
pub struct VmNicConfig {
    pub name: String,
    pub ip: String,
    pub netmask: String,
    pub mtu: usize,
}

impl VmNicConfig {
    pub fn new(name: String, ip: String) -> (r: Self)
        ensures
            r.name == name,
            r.ip == ip,
            r.netmask@ == "255.255.255.0"@,
            r.mtu == DEFAULT_MTU,
    {
        VmNicConfig { name, ip, netmask: DEFAULT_NETMASK.to_owned(), mtu: DEFAULT_MTU }
    }
}

/// Where to relay.
#[derive(Debug, Clone)]
pub struct RelayTarget {
    pub enabled: bool,
    /// The relay's address; the server itself where it is empty.
    pub endpoint: String,
}

impl Default for RelayTarget {
    fn default() -> (r: Self)
        ensures
            r.enabled,
            r.endpoint@ == Seq::<char>::empty(),
    {
        RelayTarget { enabled: true, endpoint: String::new() }
    }
}

/// A server that the client knows.
#[derive(Debug, Clone)]
pub struct ServerEntry {
    pub name: String,
    pub endpoint: String,
    /// The server's public key in base64, once it was trusted.
    pub public_key: Option<String>,
    pub relay: RelayTarget,
    /// The public key of the mesh root in base64, once it was trusted.
    pub mesh_root_pub: Option<String>,
    /// The certificate of this device, once it has joined.
    pub device_cert: Option<DeviceCert>,
    /// The highest version of the revocation list seen so far.
    pub crl_version: Option<u64>,
    /// The token of the room.
    pub token: Option<String>,
}

impl ServerEntry {
    pub fn new(name: String, endpoint: String) -> (r: Self)
        ensures
            r.name == name,
            r.endpoint == endpoint,
            r.public_key is None,
            r.relay.enabled && r.relay.endpoint@ == Seq::<char>::empty(),
            r.mesh_root_pub is None,
            r.device_cert is None,
            r.crl_version is None,
            r.token is None,
    {
        ServerEntry {
            name,
            endpoint,
            public_key: None,
            relay: RelayTarget::default(),
            mesh_root_pub: None,
            device_cert: None,
            crl_version: None,
            token: None,
        }
    }

    /// Whether this device has joined the server's mesh.
    pub fn is_joined(&self) -> (r: bool)
        ensures
            r == self.device_cert is Some,
    {
        self.device_cert.is_some()
    }
}

/// A connection: a server and the interface to use with it.
#[derive(Debug, Clone)]
pub struct ConnectionEntry {
    pub server: String,
    pub vm_nic: String,
}

/// How UDP hole punching goes about.
#[derive(Debug, Clone)]
pub struct HolePunchConfig {
    /// Without hole punching everything is relayed.
    pub enabled: bool,
    pub timeout_ms: u64,
    pub max_retries: u32,
    pub interval_ms: u64,
    pub max_errors: u32,
}

impl Default for HolePunchConfig {
    fn default() -> (r: Self)
        ensures
            r == (HolePunchConfig {
                enabled: true,
                timeout_ms: 5000,
                max_retries: 3,
                interval_ms: 250,
                max_errors: 3,
            }),
    {
        HolePunchConfig {
            enabled: true,
            timeout_ms: 5000,
            max_retries: 3,
            interval_ms: 250,
            max_errors: 3,
        }
    }
}

/// The built-in name server.
#[derive(Debug, Clone)]
pub struct DnsConfig {
    pub enabled: bool,
    pub bind: String,
    pub port: u16,
}

impl Default for DnsConfig {
    fn default() -> (r: Self)
        ensures
            r.enabled,
            r.bind@ == "127.0.0.1"@,
            r.port == 5353,
    {
        DnsConfig { enabled: true, bind: "127.0.0.1".to_owned(), port: 5353 }
    }
}

/// The identity of a device: its two key pairs, and what follows from them.
#[derive(Debug, Clone)]
pub struct DeviceIdentity {
    pub ik_x: KeyPair,
    pub ik_s: SignKeyPair,
    pub device_id: String,
    pub fingerprint: String,
}

#[derive(Debug, Clone)]
pub struct ClientConfig {
    pub version: u32,
    pub identity: Option<DeviceIdentity>,
    pub vm_nics: Vec<VmNicConfig>,
    pub servers: Vec<ServerEntry>,
    pub connections: Vec<ConnectionEntry>,
    pub hole_punch: HolePunchConfig,
    pub heartbeat_sec: u64,
    /// After how many packets the routing key is rotated; zero for never.
    pub rekey_every_pkts: u64,
    /// After how many seconds the routing key is rotated; zero for never.
    pub rekey_every_secs: u64,
    pub control_token: Option<String>,
    /// How long to wait before connecting again; zero for not at all.
    pub reconnect_secs: u64,
    pub aliases: Aliases,
    pub dns: DnsConfig,
    pub control_port: u16,
    pub log_file: String,
    pub pid_file: String,
}

impl Default for ClientConfig {
    fn default() -> (r: Self)
        ensures
            r.version == 1,
            r.identity is None,
            r.vm_nics@ == Seq::<VmNicConfig>::empty(),
            r.servers@ == Seq::<ServerEntry>::empty(),
            r.connections@ == Seq::<ConnectionEntry>::empty(),
            r.hole_punch == (HolePunchConfig {
                enabled: true,
                timeout_ms: 5000,
                max_retries: 3,
                interval_ms: 250,
                max_errors: 3,
            }),
            r.heartbeat_sec == 20,
            r.rekey_every_pkts == 65536,
            r.rekey_every_secs == 300,
            r.control_token is None,
            r.reconnect_secs == 5,
            r.aliases.wf(),
            r.aliases@ == Map::<Seq<char>, Seq<char>>::empty(),
            r.dns.enabled && r.dns.bind@ == "127.0.0.1"@ && r.dns.port == 5353,
            r.control_port == 12779,
            r.log_file@ == "client.log"@,
            r.pid_file@ == "client.pid"@,
    {
        ClientConfig {
            version: 1,
            identity: None,
            vm_nics: Vec::new(),
            servers: Vec::new(),
            connections: Vec::new(),
            hole_punch: HolePunchConfig::default(),
            heartbeat_sec: DEFAULT_HEARTBEAT_SEC,
            rekey_every_pkts: 65536,
            rekey_every_secs: 300,
            control_token: None,
            reconnect_secs: 5,
            aliases: Aliases::new(),
            dns: DnsConfig::default(),
            control_port: DEFAULT_CONTROL_PORT,
            log_file: DEFAULT_LOG_FILE.to_owned(),
            pid_file: DEFAULT_PID_FILE.to_owned(),
        }
    }
}

/// Brings a name into canonical form and checks it.
pub fn normalize_alias(raw: &str) -> (r: Result<String, String>)
    ensures
        match r {
            Ok(name) => name@ == canonical(raw@) && is_alias(name@),
            Err(e) => !is_alias(canonical(raw@)) && e@ == alias_error(canonical(raw@)),
        },
{
    checked_alias(raw)
}

/// What is said where a device has no identity yet.
pub open spec fn no_identity() -> Seq<char> {
    "尚未生成设备身份（identity），请先执行 --genkey"@
}

/// The first server with a name stands at `i`.
pub open spec fn server_at(servers: Seq<ServerEntry>, name: Seq<char>, i: int) -> bool {
    &&& 0 <= i < servers.len()
    &&& servers[i].name@ == name
    &&& forall|j: int| 0 <= j < i ==> (#[trigger] servers[j]).name@ != name
}

pub open spec fn has_server(servers: Seq<ServerEntry>, name: Seq<char>) -> bool {
    exists|i: int| 0 <= i < servers.len() && (#[trigger] servers[i]).name@ == name
}

/// The first interface with a name stands at `i`.
pub open spec fn nic_at(nics: Seq<VmNicConfig>, name: Seq<char>, i: int) -> bool {
    &&& 0 <= i < nics.len()
    &&& nics[i].name@ == name
    &&& forall|j: int| 0 <= j < i ==> (#[trigger] nics[j]).name@ != name
}

pub open spec fn has_nic(nics: Seq<VmNicConfig>, name: Seq<char>) -> bool {
    exists|i: int| 0 <= i < nics.len() && (#[trigger] nics[i]).name@ == name
}

/// The first connection to a server stands at `i`.
pub open spec fn connection_at(
    connections: Seq<ConnectionEntry>,
    server: Seq<char>,
    i: int,
) -> bool {
    &&& 0 <= i < connections.len()
    &&& connections[i].server@ == server
    &&& forall|j: int| 0 <= j < i ==> (#[trigger] connections[j]).server@ != server
}

pub open spec fn has_connection(connections: Seq<ConnectionEntry>, server: Seq<char>) -> bool {
    exists|i: int| 0 <= i < connections.len() && (#[trigger] connections[i]).server@ == server
}

/// Which texts of a configuration are well formed: for each interface its address,
/// for each server its endpoint and its public key, for each name its address.
pub struct ConfigFacts {
    pub nic_ips: Vec<bool>,
    pub endpoints: Vec<bool>,
    pub public_keys: Vec<bool>,
    pub alias_ips: Vec<bool>,
}

/// What is wrong with an interface.
pub open spec fn nic_error(cfg: ClientConfig, facts: ConfigFacts, i: int) -> Option<Seq<char>> {
    let n = cfg.vm_nics@[i];
    if n.name@.len() == 0 {
        Some("虚拟网卡名称不能为空"@)
    } else if exists|j: int| 0 <= j < i && (#[trigger] cfg.vm_nics@[j]).name@ == n.name@ {
        Some("虚拟网卡名称重复: "@ + n.name@)
    } else if !(68 <= n.mtu <= 65535) {
        Some("网卡 "@ + n.name@ + " 的 MTU 越界: "@ + decimal(n.mtu as nat))
    } else if n.ip@.len() > 0 && !facts.nic_ips@[i] {
        Some("网卡 "@ + n.name@ + " 的 IP "@ + quoted(n.ip@) + " 非法（非空时必须为合法 IP）"@)
    } else {
        None
    }
}

pub open spec fn first_nic_error(cfg: ClientConfig, facts: ConfigFacts, i: int) -> Option<Seq<char>>
    decreases cfg.vm_nics@.len() - i,
{
    if i < 0 || i >= cfg.vm_nics@.len() {
        None
    } else {
        match nic_error(cfg, facts, i) {
            Some(e) => Some(e),
            None => first_nic_error(cfg, facts, i + 1),
        }
    }
}

/// What is wrong with a server.
pub open spec fn server_error(cfg: ClientConfig, facts: ConfigFacts, i: int) -> Option<Seq<char>> {
    let s = cfg.servers@[i];
    if s.name@.len() == 0 {
        Some("服务器名称不能为空"@)
    } else if !facts.endpoints@[i] {
        Some("服务器 "@ + s.name@ + " 的地址 "@ + quoted(s.endpoint@) + " 非法"@)
    } else if s.public_key is Some && !facts.public_keys@[i] {
        Some("服务器 "@ + s.name@ + " 的公钥格式非法"@)
    } else {
        None
    }
}

pub open spec fn first_server_error(
    cfg: ClientConfig,
    facts: ConfigFacts,
    i: int,
) -> Option<Seq<char>>
    decreases cfg.servers@.len() - i,
{
    if i < 0 || i >= cfg.servers@.len() {
        None
    } else {
        match server_error(cfg, facts, i) {
            Some(e) => Some(e),
            None => first_server_error(cfg, facts, i + 1),
        }
    }
}

/// What is wrong with a name.
pub open spec fn name_error(cfg: ClientConfig, facts: ConfigFacts, i: int) -> Option<Seq<char>> {
    let name = cfg.aliases.names()[i];
    if !is_alias(canonical(name)) {
        Some(
            "别名 "@ + quoted(name)
                + " 非法：只能包含小写字母、数字、- 与 _（最长 32 字符）"@,
        )
    } else if !facts.alias_ips@[i] {
        Some("别名 "@ + name + " 的目标 IP "@ + quoted(cfg.aliases.ips()[i]) + " 非法"@)
    } else {
        None
    }
}

pub open spec fn first_name_error(
    cfg: ClientConfig,
    facts: ConfigFacts,
    i: int,
) -> Option<Seq<char>>
    decreases cfg.aliases.names().len() - i,
{
    if i < 0 || i >= cfg.aliases.names().len() {
        None
    } else {
        match name_error(cfg, facts, i) {
            Some(e) => Some(e),
            None => first_name_error(cfg, facts, i + 1),
        }
    }
}

/// What is wrong with a connection.
pub open spec fn connection_error(cfg: ClientConfig, i: int) -> Option<Seq<char>> {
    let c = cfg.connections@[i];
    if !has_server(cfg.servers@, c.server@) {
        Some("连接引用了不存在的服务器 "@ + c.server@)
    } else if !has_nic(cfg.vm_nics@, c.vm_nic@) {
        Some("连接引用了不存在的虚拟网卡 "@ + c.vm_nic@)
    } else {
        None
    }
}

pub open spec fn first_connection_error(cfg: ClientConfig, i: int) -> Option<Seq<char>>
    decreases cfg.connections@.len() - i,
{
    if i < 0 || i >= cfg.connections@.len() {
        None
    } else {
        match connection_error(cfg, i) {
            Some(e) => Some(e),
            None => first_connection_error(cfg, i + 1),
        }
    }
}

/// The first thing that is wrong with a configuration.
pub open spec fn config_error(cfg: ClientConfig, facts: ConfigFacts) -> Option<Seq<char>> {
    if first_nic_error(cfg, facts, 0) is Some {
        first_nic_error(cfg, facts, 0)
    } else if first_server_error(cfg, facts, 0) is Some {
        first_server_error(cfg, facts, 0)
    } else if first_name_error(cfg, facts, 0) is Some {
        first_name_error(cfg, facts, 0)
    } else if cfg.dns.port == 0 {
        Some("dns.port 必须为 1-65535（0 表示未启用应设 dns.enabled=false）"@)
    } else if first_connection_error(cfg, 0) is Some {
        first_connection_error(cfg, 0)
    } else if cfg.hole_punch.timeout_ms == 0 {
        Some("hole_punch.timeout_ms 必须大于 0"@)
    } else if cfg.hole_punch.interval_ms == 0 {
        Some("hole_punch.interval_ms 必须大于 0"@)
    } else if cfg.hole_punch.max_retries == 0 {
        Some("hole_punch.max_retries 必须大于 0"@)
    } else if cfg.hole_punch.max_errors == 0 {
        Some("hole_punch.max_errors 必须大于 0"@)
    } else {
        None
    }
}

impl ClientConfig {
    /// Takes over a new identity and makes a control token, unless there is an
    /// identity already: a device has one.
    pub fn genkey(&mut self, identity: DeviceIdentity) -> (r: Result<(), String>)
        ensures
            keys_made(*old(self), identity, r, *final(self)),
    {
        if self.identity.is_some() {
            return Err(
                "本机已存在设备身份（client.json 已配置），不再重复生成".to_owned(),
            );
        }
        self.identity = Some(identity);
        self.control_token = Some(random_token());
        Ok(())
    }

    /// The device's X25519 public key.
    pub fn public_key(&self) -> (r: Result<RawKey, String>)
        ensures
            match (self.identity, r) {
                (Some(id), Ok(k)) => k == id.ik_x.public,
                (None, Err(e)) => e@ == no_identity(),
                _ => false,
            },
    {
        match &self.identity {
            Some(id) => Ok(id.ik_x.public),
            None => Err("尚未生成设备身份（identity），请先执行 --genkey".to_owned()),
        }
    }

    /// The device's X25519 private key.
    pub fn private_key(&self) -> (r: Result<RawKey, String>)
        ensures
            match (self.identity, r) {
                (Some(id), Ok(k)) => k == id.ik_x.private,
                (None, Err(e)) => e@ == no_identity(),
                _ => false,
            },
    {
        match &self.identity {
            Some(id) => Ok(id.ik_x.private),
            None => Err("尚未生成设备身份（identity），请先执行 --genkey".to_owned()),
        }
    }

    /// The device's Ed25519 key pair.
    pub fn signing_keypair(&self) -> (r: Option<&SignKeyPair>)
        ensures
            match (self.identity, r) {
                (Some(id), Some(k)) => *k == id.ik_s,
                (None, None) => true,
                _ => false,
            },
    {
        match &self.identity {
            Some(id) => Some(&id.ik_s),
            None => None,
        }
    }

    /// The device's Ed25519 public key in base64.
    pub fn signing_public_b64(&self) -> (r: Option<String>)
        ensures
            match (self.identity, r) {
                (Some(id), Some(k)) => k == id.ik_s.public,
                (None, None) => true,
                _ => false,
            },
    {
        match &self.identity {
            Some(id) => Some(id.ik_s.public.clone()),
            None => None,
        }
    }

    pub fn device_id(&self) -> (r: Result<String, String>)
        ensures
            match (self.identity, r) {
                (Some(id), Ok(d)) => d == id.device_id,
                (None, Err(e)) => e@ == no_identity(),
                _ => false,
            },
    {
        match &self.identity {
            Some(id) => Ok(id.device_id.clone()),
            None => Err("尚未生成设备身份（identity），请先执行 --genkey".to_owned()),
        }
    }

    /// The device's fingerprint, for comparison by eye.
    pub fn fingerprint(&self) -> (r: Result<String, String>)
        ensures
            match (self.identity, r) {
                (Some(id), Ok(f)) => f == id.fingerprint,
                (None, Err(e)) => e@ == no_identity(),
                _ => false,
            },
    {
        match &self.identity {
            Some(id) => Ok(id.fingerprint.clone()),
            None => Err("尚未生成设备身份（identity），请先执行 --genkey".to_owned()),
        }
    }

    /// Where a server stands.
    pub fn server_index(&self, name: &str) -> (r: Option<usize>)
        ensures
            match r {
                Some(i) => server_at(self.servers@, name@, i as int),
                None => !has_server(self.servers@, name@),
            },
    {
        let mut i: usize = 0;
        while i < self.servers.len()
            invariant
                i <= self.servers@.len(),
                forall|j: int| 0 <= j < i ==> (#[trigger] self.servers@[j]).name@ != name@,
            decreases self.servers@.len() - i,
        {
            if same(self.servers[i].name.as_str(), name) {
                return Some(i);
            }
            i = i + 1;
        }
        None
    }

    pub fn find_server(&self, name: &str) -> (r: Option<&ServerEntry>)
        ensures
            match r {
                Some(s) => exists|i: int|
                    #[trigger] server_at(self.servers@, name@, i) && *s == self.servers@[i],
                None => !has_server(self.servers@, name@),
            },
    {
        match self.server_index(name) {
            Some(i) => Some(&self.servers[i]),
            None => None,
        }
    }

    pub fn find_server_mut(&mut self, name: &str) -> (r: Option<&mut ServerEntry>)
        ensures
            match r {
                Some(s) => exists|i: int|
                    {
                        &&& #[trigger] server_at(old(self).servers@, name@, i)
                        &&& *s == old(self).servers@[i]
                        &&& final(self).servers@ == old(self).servers@.update(i, *final(s))
                        &&& *final(self) == (ClientConfig {
                            servers: final(self).servers,
                            ..*old(self)
                        })
                    },
                None => !has_server(old(self).servers@, name@) && *final(self) == *old(self),
            },
    {
        match self.server_index(name) {
            Some(i) => Some(&mut self.servers[i]),
            None => None,
        }
    }

    pub fn find_vmnic(&self, name: &str) -> (r: Option<&VmNicConfig>)
        ensures
            match r {
                Some(n) => exists|i: int|
                    #[trigger] nic_at(self.vm_nics@, name@, i) && *n == self.vm_nics@[i],
                None => !has_nic(self.vm_nics@, name@),
            },
    {
        let mut i: usize = 0;
        while i < self.vm_nics.len()
            invariant
                i <= self.vm_nics@.len(),
                forall|j: int| 0 <= j < i ==> (#[trigger] self.vm_nics@[j]).name@ != name@,
            decreases self.vm_nics@.len() - i,
        {
            if same(self.vm_nics[i].name.as_str(), name) {
                assert(nic_at(self.vm_nics@, name@, i as int));
                return Some(&self.vm_nics[i]);
            }
            i = i + 1;
        }
        None
    }

    pub fn find_connection(&self, server: &str) -> (r: Option<&ConnectionEntry>)
        ensures
            match r {
                Some(c) => exists|i: int|
                    #[trigger] connection_at(self.connections@, server@, i) && *c
                        == self.connections@[i],
                None => !has_connection(self.connections@, server@),
            },
    {
        let mut i: usize = 0;
        while i < self.connections.len()
            invariant
                i <= self.connections@.len(),
                forall|j: int| 0 <= j < i ==> (#[trigger] self.connections@[j]).server@ != server@,
            decreases self.connections@.len() - i,
        {
            if same(self.connections[i].server.as_str(), server) {
                assert(connection_at(self.connections@, server@, i as int));
                return Some(&self.connections[i]);
            }
            i = i + 1;
        }
        None
    }

    fn nic_name_used_before(&self, i: usize) -> (r: bool)
        requires
            i < self.vm_nics@.len(),
        ensures
            r == exists|j: int|
                0 <= j < i && (#[trigger] self.vm_nics@[j]).name@ == self.vm_nics@[i as int].name@,
    {
        let mut j: usize = 0;
        while j < i
            invariant
                j <= i < self.vm_nics@.len(),
                forall|k: int|
                    0 <= k < j ==> (#[trigger] self.vm_nics@[k]).name@
                        != self.vm_nics@[i as int].name@,
            decreases i - j,
        {
            if same(self.vm_nics[j].name.as_str(), self.vm_nics[i].name.as_str()) {
                return true;
            }
            j = j + 1;
        }
        false
    }

    fn check_nic(&self, facts: &ConfigFacts, i: usize) -> (r: Option<String>)
        requires
            i < self.vm_nics@.len(),
            facts.nic_ips@.len() == self.vm_nics@.len(),
        ensures
            match r {
                Some(e) => nic_error(*self, *facts, i as int) == Some(e@),
                None => nic_error(*self, *facts, i as int) is None,
            },
    {
        let n = &self.vm_nics[i];
        if n.name.as_str().is_empty() {
            return Some("虚拟网卡名称不能为空".to_owned());
        }
        if self.nic_name_used_before(i) {
            let mut e = "虚拟网卡名称重复: ".to_owned();
            e.append(n.name.as_str());
            return Some(e);
        }
        if n.mtu < 68 || n.mtu > 65535 {
            let mut e = join3("网卡 ", n.name.as_str(), " 的 MTU 越界: ");
            push_decimal(&mut e, n.mtu as u64);
            return Some(e);
        }
        if !n.ip.as_str().is_empty() && !facts.nic_ips[i] {
            let mut e = join3("网卡 ", n.name.as_str(), " 的 IP ");
            e.append(quote(n.ip.as_str()).as_str());
            e.append(" 非法（非空时必须为合法 IP）");
            return Some(e);
        }
        None
    }

    fn check_server(&self, facts: &ConfigFacts, i: usize) -> (r: Option<String>)
        requires
            i < self.servers@.len(),
            facts.endpoints@.len() == self.servers@.len(),
            facts.public_keys@.len() == self.servers@.len(),
        ensures
            match r {
                Some(e) => server_error(*self, *facts, i as int) == Some(e@),
                None => server_error(*self, *facts, i as int) is None,
            },
    {
        let s = &self.servers[i];
        if s.name.as_str().is_empty() {
            return Some("服务器名称不能为空".to_owned());
        }
        if !facts.endpoints[i] {
            let mut e = join3("服务器 ", s.name.as_str(), " 的地址 ");
            e.append(quote(s.endpoint.as_str()).as_str());
            e.append(" 非法");
            return Some(e);
        }
        if s.public_key.is_some() && !facts.public_keys[i] {
            return Some(join3("服务器 ", s.name.as_str(), " 的公钥格式非法"));
        }
        None
    }

    fn check_name(&self, facts: &ConfigFacts, i: usize) -> (r: Option<String>)
        requires
            self.aliases.wf(),
            i < self.aliases.names().len(),
            facts.alias_ips@.len() == self.aliases.names().len(),
        ensures
            match r {
                Some(e) => name_error(*self, *facts, i as int) == Some(e@),
                None => name_error(*self, *facts, i as int) is None,
            },
    {
        let name = self.aliases.name_at(i);
        if normalize_alias(name.as_str()).is_err() {
            return Some(
                join3(
                    "别名 ",
                    quote(name.as_str()).as_str(),
                    " 非法：只能包含小写字母、数字、- 与 _（最长 32 字符）",
                ),
            );
        }
        if !facts.alias_ips[i] {
            let mut e = join3("别名 ", name.as_str(), " 的目标 IP ");
            e.append(quote(self.aliases.ip_at(i).as_str()).as_str());
            e.append(" 非法");
            return Some(e);
        }
        None
    }

    fn check_connection(&self, i: usize) -> (r: Option<String>)
        requires
            i < self.connections@.len(),
        ensures
            match r {
                Some(e) => connection_error(*self, i as int) == Some(e@),
                None => connection_error(*self, i as int) is None,
            },
    {
        let c = &self.connections[i];
        if self.find_server(c.server.as_str()).is_none() {
            let mut e = "连接引用了不存在的服务器 ".to_owned();
            e.append(c.server.as_str());
            return Some(e);
        }
        if self.find_vmnic(c.vm_nic.as_str()).is_none() {
            let mut e = "连接引用了不存在的虚拟网卡 ".to_owned();
            e.append(c.vm_nic.as_str());
            return Some(e);
        }
        None
    }

    /// Looks for the first thing that is wrong.
    fn find_error(&self, facts: &ConfigFacts) -> (r: Result<(), String>)
        requires
            self.aliases.wf(),
            facts.nic_ips@.len() == self.vm_nics@.len(),
            facts.endpoints@.len() == self.servers@.len(),
            facts.public_keys@.len() == self.servers@.len(),
            facts.alias_ips@.len() == self.aliases.names().len(),
        ensures
            match r {
                Ok(_) => config_error(*self, *facts) is None,
                Err(e) => config_error(*self, *facts) == Some(e@),
            },
    {
        let mut i: usize = 0;
        while i < self.vm_nics.len()
            invariant
                i <= self.vm_nics@.len(),
                facts.nic_ips@.len() == self.vm_nics@.len(),
                first_nic_error(*self, *facts, 0) == first_nic_error(*self, *facts, i as int),
            decreases self.vm_nics@.len() - i,
        {
            if let Some(e) = self.check_nic(facts, i) {
                return Err(e);
            }
            i = i + 1;
        }
        let mut k: usize = 0;
        while k < self.servers.len()
            invariant
                k <= self.servers@.len(),
                facts.endpoints@.len() == self.servers@.len(),
                facts.public_keys@.len() == self.servers@.len(),
                first_nic_error(*self, *facts, 0) is None,
                first_server_error(*self, *facts, 0) == first_server_error(*self, *facts, k as int),
            decreases self.servers@.len() - k,
        {
            if let Some(e) = self.check_server(facts, k) {
                return Err(e);
            }
            k = k + 1;
        }
        let mut a: usize = 0;
        while a < self.aliases.len()
            invariant
                a <= self.aliases.names().len(),
                self.aliases.wf(),
                facts.alias_ips@.len() == self.aliases.names().len(),
                first_nic_error(*self, *facts, 0) is None,
                first_server_error(*self, *facts, 0) is None,
                first_name_error(*self, *facts, 0) == first_name_error(*self, *facts, a as int),
            decreases self.aliases.names().len() - a,
        {
            if let Some(e) = self.check_name(facts, a) {
                return Err(e);
            }
            a = a + 1;
        }
        if self.dns.port == 0 {
            return Err(
                "dns.port 必须为 1-65535（0 表示未启用应设 dns.enabled=false）".to_owned(),
            );
        }
        let mut c: usize = 0;
        while c < self.connections.len()
            invariant
                c <= self.connections@.len(),
                self.dns.port != 0,
                first_nic_error(*self, *facts, 0) is None,
                first_server_error(*self, *facts, 0) is None,
                first_name_error(*self, *facts, 0) is None,
                first_connection_error(*self, 0) == first_connection_error(*self, c as int),
            decreases self.connections@.len() - c,
        {
            if let Some(e) = self.check_connection(c) {
                return Err(e);
            }
            c = c + 1;
        }
        if self.hole_punch.timeout_ms == 0 {
            return Err("hole_punch.timeout_ms 必须大于 0".to_owned());
        }
        if self.hole_punch.interval_ms == 0 {
            return Err("hole_punch.interval_ms 必须大于 0".to_owned());
        }
        if self.hole_punch.max_retries == 0 {
            return Err("hole_punch.max_retries 必须大于 0".to_owned());
        }
        if self.hole_punch.max_errors == 0 {
            return Err("hole_punch.max_errors 必须大于 0".to_owned());
        }
        Ok(())
    }

    /// Checks the configuration and returns the first thing that is wrong with it.
    pub fn validate(&self, facts: &ConfigFacts) -> (r: Result<(), String>)
        requires
            self.aliases.wf(),
            facts.nic_ips@.len() == self.vm_nics@.len(),
            facts.endpoints@.len() == self.servers@.len(),
            facts.public_keys@.len() == self.servers@.len(),
            facts.alias_ips@.len() == self.aliases.names().len(),
        ensures
            match r {
                Ok(_) => config_error(*self, *facts) is None,
                Err(e) => config_error(*self, *facts) == Some(e@),
            },
            accepted_in_order(*self, *facts, r is Ok),
    {
        let r = self.find_error(facts);
        proof {
            configurations_in_order_are_accepted(*self, *facts);
        }
        r
    }
}

proof fn lemma_no_connection_error(cfg: ClientConfig, from: int, i: int)
    requires
        0 <= from <= i < cfg.connections@.len(),
        first_connection_error(cfg, from) is None,
    ensures
        connection_error(cfg, i) is None,
    decreases i - from,
{
    if from < i {
        lemma_no_connection_error(cfg, from + 1, i);
    }
}

proof fn lemma_no_nic_error(cfg: ClientConfig, facts: ConfigFacts, from: int, i: int)
    requires
        0 <= from <= i < cfg.vm_nics@.len(),
        first_nic_error(cfg, facts, from) is None,
    ensures
        nic_error(cfg, facts, i) is None,
    decreases i - from,
{
    if from < i {
        lemma_no_nic_error(cfg, facts, from + 1, i);
    }
}

/// In a configuration without errors every connection has its server and its
/// interface, and no two interfaces share a name.
pub proof fn a_valid_configuration_is_consistent(cfg: ClientConfig, facts: ConfigFacts)
    requires
        config_error(cfg, facts) is None,
    ensures
        forall|i: int|
            0 <= i < cfg.connections@.len() ==> has_server(
                cfg.servers@,
                (#[trigger] cfg.connections@[i]).server@,
            ) && has_nic(cfg.vm_nics@, cfg.connections@[i].vm_nic@),
        forall|i: int, j: int|
            0 <= i < j < cfg.vm_nics@.len() ==> (#[trigger] cfg.vm_nics@[i]).name@ != (
            #[trigger] cfg.vm_nics@[j]).name@,
{
    assert forall|i: int| 0 <= i < cfg.connections@.len() implies has_server(
        cfg.servers@,
        (#[trigger] cfg.connections@[i]).server@,
    ) && has_nic(cfg.vm_nics@, cfg.connections@[i].vm_nic@) by {
        lemma_no_connection_error(cfg, 0, i);
    }
    assert forall|i: int, j: int| 0 <= i < j < cfg.vm_nics@.len() implies (
    #[trigger] cfg.vm_nics@[i]).name@ != (#[trigger] cfg.vm_nics@[j]).name@ by {
        lemma_no_nic_error(cfg, facts, 0, j);
    }
}

proof fn lemma_no_error(cfg: ClientConfig, facts: ConfigFacts, from: int)
    requires
        0 <= from,
    ensures
        (first_nic_error(cfg, facts, from) is None) == (forall|i: int|
            from <= i < cfg.vm_nics@.len() ==> (#[trigger] nic_error(cfg, facts, i)) is None),
        (first_server_error(cfg, facts, from) is None) == (forall|i: int|
            from <= i < cfg.servers@.len() ==> (#[trigger] server_error(cfg, facts, i)) is None),
        (first_name_error(cfg, facts, from) is None) == (forall|i: int|
            from <= i < cfg.aliases.names().len() ==> (#[trigger] name_error(cfg, facts, i)) is None),
        (first_connection_error(cfg, from) is None) == (forall|i: int|
            from <= i < cfg.connections@.len() ==> (#[trigger] connection_error(cfg, i)) is None),
    decreases
        cfg.vm_nics@.len() + cfg.servers@.len() + cfg.aliases.names().len()
            + cfg.connections@.len() - from,
{
    if from < cfg.vm_nics@.len() || from < cfg.servers@.len() || from < cfg.aliases.names().len()
        || from < cfg.connections@.len() {
        lemma_no_error(cfg, facts, from + 1);
        if from < cfg.vm_nics@.len() && first_nic_error(cfg, facts, from) is Some
            && nic_error(cfg, facts, from) is None {
            let i = choose|i: int|
                from + 1 <= i < cfg.vm_nics@.len() && (#[trigger] nic_error(cfg, facts, i)) is Some;
            assert(nic_error(cfg, facts, i) is Some);
        }
        if from < cfg.servers@.len() && first_server_error(cfg, facts, from) is Some
            && server_error(cfg, facts, from) is None {
            let i = choose|i: int|
                from + 1 <= i < cfg.servers@.len() && (
                #[trigger] server_error(cfg, facts, i)) is Some;
            assert(server_error(cfg, facts, i) is Some);
        }
        if from < cfg.aliases.names().len() && first_name_error(cfg, facts, from) is Some
            && name_error(cfg, facts, from) is None {
            let i = choose|i: int|
                from + 1 <= i < cfg.aliases.names().len() && (
                #[trigger] name_error(cfg, facts, i)) is Some;
            assert(name_error(cfg, facts, i) is Some);
        }
        if from < cfg.connections@.len() && first_connection_error(cfg, from) is Some
            && connection_error(cfg, from) is None {
            let i = choose|i: int|
                from + 1 <= i < cfg.connections@.len() && (
                #[trigger] connection_error(cfg, i)) is Some;
            assert(connection_error(cfg, i) is Some);
        }
    }
}

/// Whether an interface is in order: it has a name of its own, an MTU that an IPv4 packet
/// fits in, and an address or none.
pub open spec fn nic_in_order(cfg: ClientConfig, facts: ConfigFacts, i: int) -> bool {
    let n = cfg.vm_nics@[i];
    &&& n.name@.len() > 0
    &&& forall|j: int| 0 <= j < i ==> (#[trigger] cfg.vm_nics@[j]).name@ != n.name@
    &&& 68 <= n.mtu <= 65535
    &&& n.ip@.len() == 0 || facts.nic_ips@[i]
}

/// Whether a server is in order: it has a name and an address, and its key, where there is
/// one, can be read.
pub open spec fn server_in_order(cfg: ClientConfig, facts: ConfigFacts, i: int) -> bool {
    &&& cfg.servers@[i].name@.len() > 0
    &&& facts.endpoints@[i]
    &&& cfg.servers@[i].public_key is None || facts.public_keys@[i]
}

/// Whether a connection is in order: its server and its interface are there.
pub open spec fn connection_in_order(cfg: ClientConfig, i: int) -> bool {
    &&& exists|j: int|
        0 <= j < cfg.servers@.len() && (#[trigger] cfg.servers@[j]).name@
            == cfg.connections@[i].server@
    &&& exists|j: int|
        0 <= j < cfg.vm_nics@.len() && (#[trigger] cfg.vm_nics@[j]).name@
            == cfg.connections@[i].vm_nic@
}

/// Whether just a configuration in order is accepted.
pub open spec fn accepted_in_order(
    cfg: ClientConfig,
    facts: ConfigFacts,
    accepted: bool,
) -> bool {
    &&& (accepted <==> {
        &&& forall|i: int|
            0 <= i < cfg.vm_nics@.len() ==> #[trigger] nic_in_order(cfg, facts, i)
        &&& forall|i: int|
            0 <= i < cfg.servers@.len() ==> #[trigger] server_in_order(cfg, facts, i)
        &&& forall|i: int|
            0 <= i < cfg.aliases.names().len() ==> is_alias(
                canonical(#[trigger] cfg.aliases.names()[i]),
            ) && facts.alias_ips@[i]
        &&& forall|i: int|
            0 <= i < cfg.connections@.len() ==> #[trigger] connection_in_order(cfg, i)
        &&& cfg.dns.port != 0
        &&& cfg.hole_punch.timeout_ms > 0 && cfg.hole_punch.interval_ms > 0
        &&& cfg.hole_punch.max_retries > 0 && cfg.hole_punch.max_errors > 0
    })
}

/// A configuration is accepted just when everything in it is in order: interfaces, servers,
/// names, connections, the port for names, and all bounds of hole punching, which are above
/// zero.
pub proof fn configurations_in_order_are_accepted(cfg: ClientConfig, facts: ConfigFacts)
    ensures
        accepted_in_order(cfg, facts, config_error(cfg, facts) is None),
{
    lemma_no_error(cfg, facts, 0);
    assert forall|i: int| 0 <= i < cfg.vm_nics@.len() implies nic_in_order(cfg, facts, i) == (
    #[trigger] nic_error(cfg, facts, i) is None) by {}
    assert forall|i: int| 0 <= i < cfg.servers@.len() implies server_in_order(cfg, facts, i) == (
    #[trigger] server_error(cfg, facts, i) is None) by {}
    assert forall|i: int| 0 <= i < cfg.connections@.len() implies connection_in_order(cfg, i) == (
    #[trigger] connection_error(cfg, i) is None) by {}
    assert forall|i: int| 0 <= i < cfg.aliases.names().len() implies (is_alias(
        canonical(#[trigger] cfg.aliases.names()[i]),
    ) && facts.alias_ips@[i]) == (name_error(cfg, facts, i) is None) by {}
    if config_error(cfg, facts) is None {
        assert forall|i: int| 0 <= i < cfg.vm_nics@.len() implies #[trigger] nic_in_order(
            cfg,
            facts,
            i,
        ) by {
            assert(nic_error(cfg, facts, i) is None);
        }
        assert forall|i: int| 0 <= i < cfg.servers@.len() implies #[trigger] server_in_order(
            cfg,
            facts,
            i,
        ) by {
            assert(server_error(cfg, facts, i) is None);
        }
        assert forall|i: int| 0 <= i < cfg.connections@.len() implies #[trigger] connection_in_order(
            cfg,
            i,
        ) by {
            assert(connection_error(cfg, i) is None);
        }
        assert forall|i: int| 0 <= i < cfg.aliases.names().len() implies is_alias(
            canonical(#[trigger] cfg.aliases.names()[i]),
        ) && facts.alias_ips@[i] by {
            assert(name_error(cfg, facts, i) is None);
        }
    }
}

/// What becomes of a configuration when keys are made for it.
pub open spec fn keys_made(
    before: ClientConfig,
    identity: DeviceIdentity,
    r: Result<(), String>,
    after: ClientConfig,
) -> bool {
    match r {
        Ok(_) => {
            &&& before.identity is None
            &&& after.control_token is Some
            &&& exists|bytes: Seq<u8>|
                bytes.len() == 32 && after.control_token->0@ == base64_chars(bytes)
            &&& after == (ClientConfig {
                identity: Some(identity),
                control_token: after.control_token,
                ..before
            })
        },
        Err(e) => {
            &&& before.identity is Some
            &&& e@ == "本机已存在设备身份（client.json 已配置），不再重复生成"@
            &&& after == before
        },
    }
}

/// Keys are made once: where there are some they stay, and nothing changes; where there are
/// none the new ones are taken, with a fresh token for the control channel.
pub proof fn keys_are_made_once(
    before: ClientConfig,
    identity: DeviceIdentity,
    r: Result<(), String>,
    after: ClientConfig,
)
    requires
        keys_made(before, identity, r, after),
    ensures
        before.identity is Some ==> r is Err && after == before,
        before.identity is None ==> r is Ok && after.identity == Some(identity) && after.control_token is Some,
        after.servers == before.servers && after.vm_nics == before.vm_nics && after.connections
            == before.connections,
{
}

} // verus!
