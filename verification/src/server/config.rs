//! The server's configuration: key pairs, rooms and names.
use vstd::prelude::*;
use vstd::string::*;
use vstd::utf8::*;
use crate::alias::{alias_error, canonical, checked_alias, is_alias};
use crate::cert::{decode_seed, seed_bytes, KeyPair, SignKeyPair};
use crate::seqs::{keep_if, lemma_filter_members};
use crate::outside::{
    base64_chars, hex_chars, hex_encode, quote, quoted, random_token, sha256, sha256_digest,
};
use crate::table::RawKey;
use crate::text::{same, trim, trimmed};

verus! {

pub const DEFAULT_LISTEN: &'static str = "0.0.0.0:8080";

pub const DEFAULT_LOG_FILE: &'static str = "server.log";

pub const DEFAULT_PID_FILE: &'static str = "server.pid";

pub const DEFAULT_MESH_FILE: &'static str = "mesh.json";

pub const DEFAULT_SERVER_NAME: &'static str = "linkmesh";

pub const DEFAULT_CONTROL_PORT: u16 = 12778;

pub const DEFAULT_ROUTE_TTL_SEC: u64 = 300;

/// A name that the administrator bound to a virtual address.
#[derive(Debug, Clone)]
pub struct AliasEntry {
    pub name: String,
    pub ip: String,
}

/// A room and the digest of its token. The token itself is not kept.
#[derive(Debug, Clone)]
pub struct RoomEntry {
    pub name: String,
    /// The SHA-256 digest of the token in hexadecimal.
    pub token_hash: String,
}

/// Brings a name into canonical form and checks it.
pub fn validate_alias(raw: &str) -> (r: Result<String, String>)
    ensures
        match r {
            Ok(name) => name@ == canonical(raw@) && is_alias(name@),
            Err(e) => !is_alias(canonical(raw@)) && e@ == alias_error(canonical(raw@)),
        },
{
    checked_alias(raw)
}

/// How relayed frames are joined into larger ones.
#[derive(Debug, Clone)]
pub struct RelayBatchConfig {
    pub enabled: bool,
    /// How long frames are collected, in milliseconds.
    pub window_ms: u64,
    /// The size at which a batch is sent at once.
    pub max_bytes: usize,
}

impl Default for RelayBatchConfig {
    fn default() -> (r: Self)
        ensures
            r.enabled,
            r.window_ms == 5,
            r.max_bytes == 1200,
    {
        RelayBatchConfig { enabled: true, window_ms: 5, max_bytes: 1200 }
    }
}

#[derive(Debug, Clone)]
pub struct RelayConfig {
    pub enabled: bool,
    /// The relay's own port; zero where it shares the port of the signaling.
    pub port: u16,
    pub batch: RelayBatchConfig,
}

impl Default for RelayConfig {
    fn default() -> (r: Self)
        ensures
            r.enabled,
            r.port == 0,
            r.batch.enabled,
            r.batch.window_ms == 5,
            r.batch.max_bytes == 1200,
    {
        RelayConfig { enabled: true, port: 0, batch: RelayBatchConfig::default() }
    }
}

#[derive(Debug, Clone)]
pub struct ServerConfig {
    pub version: u32,
    pub listen: String,
    pub control_port: u16,
    pub route_ttl_sec: u64,
    pub relay: RelayConfig,
    /// How many JOIN and AUTH requests one address may make in a minute; zero for
    /// any number.
    pub join_rate_per_min_per_ip: usize,
    pub keypair: Option<KeyPair>,
    /// The Ed25519 key pair that the server signs with.
    pub signing: Option<SignKeyPair>,
    pub mesh_path: String,
    pub server_name: String,
    pub control_token: Option<String>,
    /// The rooms; none where every device shares one open room.
    pub rooms: Vec<RoomEntry>,
    pub aliases: Vec<AliasEntry>,
    pub log_file: String,
    pub pid_file: String,
}

impl Default for ServerConfig {
    fn default() -> (r: Self)
        ensures
            r.version == 1,
            r.listen@ == "0.0.0.0:8080"@,
            r.control_port == 12778,
            r.route_ttl_sec == 300,
            r.relay.enabled && r.relay.port == 0,
            r.relay.batch.enabled && r.relay.batch.window_ms == 5 && r.relay.batch.max_bytes == 1200,
            r.join_rate_per_min_per_ip == 60,
            r.keypair is None,
            r.signing is None,
            r.mesh_path@ == "mesh.json"@,
            r.server_name@ == "linkmesh"@,
            r.control_token is None,
            r.rooms@ == Seq::<RoomEntry>::empty(),
            r.aliases@ == Seq::<AliasEntry>::empty(),
            r.log_file@ == "server.log"@,
            r.pid_file@ == "server.pid"@,
    {
        ServerConfig {
            version: 1,
            listen: DEFAULT_LISTEN.to_owned(),
            control_port: DEFAULT_CONTROL_PORT,
            route_ttl_sec: DEFAULT_ROUTE_TTL_SEC,
            relay: RelayConfig::default(),
            join_rate_per_min_per_ip: 60,
            keypair: None,
            signing: None,
            mesh_path: DEFAULT_MESH_FILE.to_owned(),
            server_name: DEFAULT_SERVER_NAME.to_owned(),
            control_token: None,
            rooms: Vec::new(),
            aliases: Vec::new(),
            log_file: DEFAULT_LOG_FILE.to_owned(),
            pid_file: DEFAULT_PID_FILE.to_owned(),
        }
    }
}

/// The digest of a token, as it is kept: white space around the token does not
/// count.
pub open spec fn token_digest(token: Seq<char>) -> Seq<char> {
    hex_chars(sha256(encode_utf8(trimmed(token))))
}

/// The position of the first room with a name.
pub open spec fn room_named(rooms: Seq<RoomEntry>, name: Seq<char>, i: int) -> bool {
    &&& 0 <= i < rooms.len()
    &&& rooms[i].name@ == name
    &&& forall|j: int| 0 <= j < i ==> (#[trigger] rooms[j]).name@ != name
}

/// The position of the first room with a token digest.
pub open spec fn room_hashed(rooms: Seq<RoomEntry>, hash: Seq<char>, i: int) -> bool {
    &&& 0 <= i < rooms.len()
    &&& rooms[i].token_hash@ == hash
    &&& forall|j: int| 0 <= j < i ==> (#[trigger] rooms[j]).token_hash@ != hash
}

/// Whether some room has a token digest.
pub open spec fn any_room_hashed(rooms: Seq<RoomEntry>, hash: Seq<char>) -> bool {
    exists|i: int| 0 <= i < rooms.len() && (#[trigger] rooms[i]).token_hash@ == hash
}

/// Finds the room that a token digest belongs to.
pub fn room_of_hash(rooms: &Vec<RoomEntry>, hash: &str) -> (r: Option<usize>)
    ensures
        match r {
            Some(i) => room_hashed(rooms@, hash@, i as int),
            None => !any_room_hashed(rooms@, hash@),
        },
{
    let mut i: usize = 0;
    while i < rooms.len()
        invariant
            i <= rooms@.len(),
            forall|j: int| 0 <= j < i ==> (#[trigger] rooms@[j]).token_hash@ != hash@,
        decreases rooms@.len() - i,
    {
        if same(rooms[i].token_hash.as_str(), hash) {
            return Some(i);
        }
        i = i + 1;
    }
    None
}

/// The position of the first name that is bound.
pub open spec fn alias_named(aliases: Seq<AliasEntry>, name: Seq<char>, i: int) -> bool {
    &&& 0 <= i < aliases.len()
    &&& aliases[i].name@ == name
    &&& forall|j: int| 0 <= j < i ==> (#[trigger] aliases[j]).name@ != name
}

/// Whether a name is bound.
pub open spec fn any_alias_named(aliases: Seq<AliasEntry>, name: Seq<char>) -> bool {
    exists|i: int| 0 <= i < aliases.len() && (#[trigger] aliases[i]).name@ == name
}

/// Whether some room has a name.
pub open spec fn any_room_named(rooms: Seq<RoomEntry>, name: Seq<char>) -> bool {
    exists|i: int| 0 <= i < rooms.len() && (#[trigger] rooms[i]).name@ == name
}

fn find_room(rooms: &Vec<RoomEntry>, name: &str) -> (r: Option<usize>)
    ensures
        match r {
            Some(i) => room_named(rooms@, name@, i as int),
            None => !any_room_named(rooms@, name@),
        },
{
    let mut i: usize = 0;
    while i < rooms.len()
        invariant
            i <= rooms@.len(),
            forall|j: int| 0 <= j < i ==> (#[trigger] rooms@[j]).name@ != name@,
        decreases rooms@.len() - i,
    {
        if same(rooms[i].name.as_str(), name) {
            return Some(i);
        }
        i = i + 1;
    }
    None
}

fn find_alias(aliases: &Vec<AliasEntry>, name: &str) -> (r: Option<usize>)
    ensures
        match r {
            Some(i) => alias_named(aliases@, name@, i as int),
            None => !any_alias_named(aliases@, name@),
        },
{
    let mut i: usize = 0;
    while i < aliases.len()
        invariant
            i <= aliases@.len(),
            forall|j: int| 0 <= j < i ==> (#[trigger] aliases@[j]).name@ != name@,
        decreases aliases@.len() - i,
    {
        if same(aliases[i].name.as_str(), name) {
            return Some(i);
        }
        i = i + 1;
    }
    None
}

/// A token, without white space around it, is at least this many bytes long.
pub const MIN_TOKEN_LEN: usize = 6;

/// What is wrong with a room and its token.
pub open spec fn room_error(name: Seq<char>, token: Seq<char>) -> Option<Seq<char>> {
    if !is_alias(canonical(name)) {
        Some(alias_error(canonical(name)))
    } else if encode_utf8(trimmed(token)).len() < MIN_TOKEN_LEN {
        Some("房间令牌至少 6 个字符"@)
    } else {
        None
    }
}

/// A list of rooms after a room was added or its token changed.
pub open spec fn room_added(
    before: Seq<RoomEntry>,
    after: Seq<RoomEntry>,
    name: Seq<char>,
    hash: Seq<char>,
) -> bool {
    if any_room_named(before, name) {
        &&& after.len() == before.len()
        &&& forall|i: int|
            #![trigger after[i]]
            0 <= i < before.len() ==> after[i].name == before[i].name && (if room_named(
                before,
                name,
                i,
            ) {
                after[i].token_hash@ == hash
            } else {
                after[i].token_hash == before[i].token_hash
            })
    } else {
        &&& after.len() == before.len() + 1
        &&& after.drop_last() == before
        &&& after.last().name@ == name
        &&& after.last().token_hash@ == hash
    }
}

/// A list of names after a name was bound.
pub open spec fn alias_added(
    before: Seq<AliasEntry>,
    after: Seq<AliasEntry>,
    name: Seq<char>,
    ip: Seq<char>,
) -> bool {
    if any_alias_named(before, name) {
        &&& after.len() == before.len()
        &&& forall|i: int|
            #![trigger after[i]]
            0 <= i < before.len() ==> after[i].name == before[i].name && (if alias_named(
                before,
                name,
                i,
            ) {
                after[i].ip@ == ip
            } else {
                after[i].ip == before[i].ip
            })
    } else {
        &&& after.len() == before.len() + 1
        &&& after.drop_last() == before
        &&& after.last().name@ == name
        &&& after.last().ip@ == ip
    }
}

impl ServerConfig {
    /// Takes over new key pairs and makes a control token, unless there is a key
    /// pair already: a server has one.
    pub fn genkey(&mut self, keypair: KeyPair, signing: SignKeyPair) -> (r: Result<(), String>)
        ensures
            keys_made(*old(self), keypair, signing, r, *final(self)),
    {
        if self.keypair.is_some() {
            return Err(
                "本机已存在密钥对（server.json 已配置），不再重复生成".to_owned(),
            );
        }
        self.keypair = Some(keypair);
        self.signing = Some(signing);
        self.control_token = Some(random_token());
        Ok(())
    }

    pub fn public_key(&self) -> (r: Result<RawKey, String>)
        ensures
            match (self.keypair, r) {
                (Some(k), Ok(p)) => p == k.public,
                (None, Err(e)) => e@ == "尚未生成密钥对，请先执行 --genkey"@,
                _ => false,
            },
    {
        match &self.keypair {
            Some(k) => Ok(k.public),
            None => Err("尚未生成密钥对，请先执行 --genkey".to_owned()),
        }
    }

    pub fn private_key(&self) -> (r: Result<RawKey, String>)
        ensures
            match (self.keypair, r) {
                (Some(k), Ok(p)) => p == k.private,
                (None, Err(e)) => e@ == "尚未生成密钥对，请先执行 --genkey"@,
                _ => false,
            },
    {
        match &self.keypair {
            Some(k) => Ok(k.private),
            None => Err("尚未生成密钥对，请先执行 --genkey".to_owned()),
        }
    }

    /// The public key that the server signs with, in base64.
    pub fn signing_public_b64(&self) -> (r: Result<String, String>)
        ensures
            match (self.signing, r) {
                (Some(s), Ok(p)) => p == s.public,
                (None, Err(e)) => e@ == "服务端尚未生成签名密钥，请先执行 --genkey"@,
                _ => false,
            },
    {
        match &self.signing {
            Some(s) => Ok(s.public.clone()),
            None => Err("服务端尚未生成签名密钥，请先执行 --genkey".to_owned()),
        }
    }

    /// The private key that the server signs with.
    pub fn signing_seed(&self) -> (r: Result<RawKey, String>)
        ensures
            match self.signing {
                Some(s) => {
                    let seed = seed_bytes(
                        s.private@,
                        "签名私钥 base64 解析失败: "@,
                        "签名私钥长度错误，应为 32 字节"@,
                    );
                    match r {
                        Ok(k) => seed == Ok::<Seq<u8>, Seq<char>>(k@),
                        Err(e) => seed == Err::<Seq<u8>, Seq<char>>(e@),
                    }
                },
                None => r is Err && r->Err_0@
                    == "服务端尚未生成签名密钥，请先执行 --genkey"@,
            },
    {
        match &self.signing {
            Some(s) => decode_seed(
                s.private.as_str(),
                "签名私钥 base64 解析失败: ",
                "签名私钥长度错误，应为 32 字节",
            ),
            None => Err("服务端尚未生成签名密钥，请先执行 --genkey".to_owned()),
        }
    }

    /// Whether devices need a token: they do where there are rooms.
    pub fn token_required(&self) -> (r: bool)
        ensures
            r == (self.rooms@.len() > 0),
    {
        self.rooms.len() > 0
    }

    /// Adds a room, or gives the room of that name another token.
    pub fn add_room(&mut self, name: &str, token: &str) -> (r: Result<(), String>)
        ensures
            match r {
                Ok(_) => {
                    &&& room_error(name@, token@) is None
                    &&& room_added(
                        old(self).rooms@,
                        final(self).rooms@,
                        canonical(name@),
                        token_digest(token@),
                    )
                    &&& *final(self) == (ServerConfig { rooms: final(self).rooms, ..*old(self) })
                },
                Err(e) => room_error(name@, token@) == Some(e@) && *final(self) == *old(self),
            },
    {
        let checked = match validate_alias(name) {
            Ok(n) => n,
            Err(e) => {
                return Err(e);
            },
        };
        if trim(token).as_bytes().len() < MIN_TOKEN_LEN {
            return Err("房间令牌至少 6 个字符".to_owned());
        }
        let hash = Self::hash_token(token);
        match find_room(&self.rooms, checked.as_str()) {
            Some(i) => {
                self.rooms[i].token_hash = hash;
                assert(old(self).rooms@[i as int].name@ == checked@);
            },
            None => {
                self.rooms.push(RoomEntry { name: checked, token_hash: hash });
                assert(self.rooms@.drop_last() =~= old(self).rooms@);
            },
        }
        Ok(())
    }

    /// Removes the rooms of a name. Says whether there was one.
    pub fn remove_room(&mut self, name: &str) -> (r: bool)
        ensures
            r == any_room_named(old(self).rooms@, name@),
            final(self).rooms@ == old(self).rooms@.filter(|e: RoomEntry| e.name@ != name@),
            *final(self) == (ServerConfig { rooms: final(self).rooms, ..*old(self) }),
    {
        let found = find_room(&self.rooms, name).is_some();
        let mut rooms: Vec<RoomEntry> = Vec::new();
        std::mem::swap(&mut rooms, &mut self.rooms);
        let keep = |e: &RoomEntry| -> (b: bool)
            ensures
                b == (e.name@ != name@),
        { !same(e.name.as_str(), name) };
        self.rooms = keep_if(rooms, keep, Ghost(|e: RoomEntry| e.name@ != name@));
        found
    }

    /// The digest of a token in hexadecimal.
    pub fn hash_token(token: &str) -> (r: String)
        ensures
            r@ == token_digest(token@),
    {
        let t = trim(token);
        let d = sha256_digest(t.as_bytes());
        hex_encode(d.as_slice())
    }

    /// The room that a token belongs to.
    pub fn room_by_token(&self, token: &str) -> (r: Option<String>)
        ensures
            match r {
                Some(name) => exists|i: int|
                    room_hashed(self.rooms@, token_digest(token@), i) && name
                        == self.rooms@[i].name,
                None => !any_room_hashed(self.rooms@, token_digest(token@)),
            },
    {
        let hash = Self::hash_token(token);
        match room_of_hash(&self.rooms, hash.as_str()) {
            Some(i) => Some(self.rooms[i].name.clone()),
            None => None,
        }
    }

    /// Binds a name to a virtual address. `ip_valid` tells whether the address,
    /// without white space around it, is an IP address.
    pub fn add_alias(&mut self, name: &str, ip: &str, ip_valid: bool) -> (r: Result<(), String>)
        ensures
            match r {
                Ok(_) => {
                    &&& is_alias(canonical(name@))
                    &&& trimmed(ip@).len() > 0 && ip_valid
                    &&& alias_added(
                        old(self).aliases@,
                        final(self).aliases@,
                        canonical(name@),
                        trimmed(ip@),
                    )
                    &&& *final(self) == (ServerConfig {
                        aliases: final(self).aliases,
                        ..*old(self)
                    })
                },
                Err(e) => {
                    &&& *final(self) == *old(self)
                    &&& if !is_alias(canonical(name@)) {
                        e@ == alias_error(canonical(name@))
                    } else {
                        (trimmed(ip@).len() == 0 || !ip_valid) && e@ == "别名 "@ + canonical(name@)
                            + " 的目标 IP "@ + quoted(trimmed(ip@))
                            + " 非法（必须为合法 IP）"@
                    }
                },
            },
    {
        let checked = match validate_alias(name) {
            Ok(n) => n,
            Err(e) => {
                return Err(e);
            },
        };
        let target = trim(ip);
        if target.is_empty() || !ip_valid {
            let mut e = "别名 ".to_owned();
            e.append(checked.as_str());
            e.append(" 的目标 IP ");
            e.append(quote(target).as_str());
            e.append(" 非法（必须为合法 IP）");
            return Err(e);
        }
        match find_alias(&self.aliases, checked.as_str()) {
            Some(i) => {
                self.aliases[i].ip = target.to_owned();
                assert(old(self).aliases@[i as int].name@ == checked@);
            },
            None => {
                self.aliases.push(AliasEntry { name: checked, ip: target.to_owned() });
                assert(self.aliases@.drop_last() =~= old(self).aliases@);
            },
        }
        Ok(())
    }

    /// Unbinds a name. Says whether it was bound.
    pub fn remove_alias(&mut self, name: &str) -> (r: bool)
        ensures
            r == any_alias_named(old(self).aliases@, name@),
            final(self).aliases@ == old(self).aliases@.filter(|e: AliasEntry| e.name@ != name@),
            *final(self) == (ServerConfig { aliases: final(self).aliases, ..*old(self) }),
    {
        let found = find_alias(&self.aliases, name).is_some();
        let mut aliases: Vec<AliasEntry> = Vec::new();
        std::mem::swap(&mut aliases, &mut self.aliases);
        let keep = |e: &AliasEntry| -> (b: bool)
            ensures
                b == (e.name@ != name@),
        { !same(e.name.as_str(), name) };
        self.aliases = keep_if(aliases, keep, Ghost(|e: AliasEntry| e.name@ != name@));
        found
    }

    /// The virtual address that a name is bound to.
    pub fn alias_ip(&self, name: &str) -> (r: Option<String>)
        ensures
            match r {
                Some(ip) => exists|i: int|
                    alias_named(self.aliases@, name@, i) && ip == self.aliases@[i].ip,
                None => !any_alias_named(self.aliases@, name@),
            },
    {
        match find_alias(&self.aliases, name) {
            Some(i) => Some(self.aliases[i].ip.clone()),
            None => None,
        }
    }
}

/// A room that was added is found by its token, where no other room has the same
/// token.
pub proof fn a_room_is_found_by_its_token(
    before: Seq<RoomEntry>,
    after: Seq<RoomEntry>,
    name: Seq<char>,
    hash: Seq<char>,
)
    requires
        room_added(before, after, name, hash),
        forall|j: int|
            0 <= j < before.len() && (#[trigger] before[j]).token_hash@ == hash ==> before[j].name@
                == name,
    ensures
        any_room_hashed(after, hash),
        forall|i: int| room_hashed(after, hash, i) ==> (#[trigger] after[i]).name@ == name,
{
    if any_room_named(before, name) {
        let k = choose|k: int| 0 <= k < before.len() && (#[trigger] before[k]).name@ == name;
        lemma_first_room(before, name, k);
        let i = choose|i: int| room_named(before, name, i);
        assert(after[i].token_hash@ == hash);
    } else {
        assert(after[after.len() - 1].token_hash@ == hash);
        assert forall|i: int| room_hashed(after, hash, i) implies (#[trigger] after[i]).name@
            == name by {
            if i < before.len() {
                assert(after[i] == after.drop_last()[i]);
            }
        }
    }
}

proof fn lemma_first_room(rooms: Seq<RoomEntry>, name: Seq<char>, k: int)
    requires
        0 <= k < rooms.len(),
        rooms[k].name@ == name,
    ensures
        exists|i: int| room_named(rooms, name, i),
    decreases k,
{
    if forall|j: int| 0 <= j < k ==> (#[trigger] rooms[j]).name@ != name {
        assert(room_named(rooms, name, k));
    } else {
        let j = choose|j: int| 0 <= j < k && (#[trigger] rooms[j]).name@ == name;
        lemma_first_room(rooms, name, j);
    }
}

/// A room that was removed is gone, and with it the access of its token where no
/// other room has the same one.
pub proof fn a_removed_room_is_gone(before: Seq<RoomEntry>, name: Seq<char>, hash: Seq<char>)
    requires
        forall|j: int|
            0 <= j < before.len() && (#[trigger] before[j]).token_hash@ == hash ==> before[j].name@
                == name,
    ensures
        !any_room_named(before.filter(|e: RoomEntry| e.name@ != name), name),
        !any_room_hashed(before.filter(|e: RoomEntry| e.name@ != name), hash),
{
    lemma_filter_members(before, |e: RoomEntry| e.name@ != name);
}

/// A name that was bound leads to its address.
pub proof fn a_bound_name_is_found(
    before: Seq<AliasEntry>,
    after: Seq<AliasEntry>,
    name: Seq<char>,
    ip: Seq<char>,
)
    requires
        alias_added(before, after, name, ip),
    ensures
        any_alias_named(after, name),
        forall|i: int| alias_named(after, name, i) ==> (#[trigger] after[i]).ip@ == ip,
{
    if any_alias_named(before, name) {
        let k = choose|k: int| 0 <= k < before.len() && (#[trigger] before[k]).name@ == name;
        assert(after[k].name@ == name);
        assert forall|i: int| alias_named(after, name, i) implies (#[trigger] after[i]).ip@
            == ip by {
            assert forall|j: int| 0 <= j < i implies (#[trigger] before[j]).name@ != name by {
                assert(after[j].name@ != name);
            }
            assert(alias_named(before, name, i));
        }
    } else {
        assert(after[after.len() - 1].name@ == name);
        assert forall|i: int| alias_named(after, name, i) implies (#[trigger] after[i]).ip@
            == ip by {
            if i < before.len() {
                assert(after[i] == after.drop_last()[i]);
            }
        }
    }
}

/// A name that was unbound leads nowhere.
pub proof fn an_unbound_name_is_gone(before: Seq<AliasEntry>, name: Seq<char>)
    ensures
        !any_alias_named(before.filter(|e: AliasEntry| e.name@ != name), name),
{
    lemma_filter_members(before, |e: AliasEntry| e.name@ != name);
}

/// White space around a token does not matter.
pub proof fn tokens_ignore_white_space(a: Seq<char>, b: Seq<char>)
    requires
        trimmed(a) == trimmed(b),
    ensures
        token_digest(a) == token_digest(b),
        token_digest(trimmed(a)) == token_digest(a),
{
    crate::text::lemma_trimmed_twice(a);
}

/// What becomes of a configuration when keys are made for it.
pub open spec fn keys_made(
    before: ServerConfig,
    keypair: KeyPair,
    signing: SignKeyPair,
    r: Result<(), String>,
    after: ServerConfig,
) -> bool {
    match r {
        Ok(_) => {
            &&& before.keypair is None
            &&& after.control_token is Some
            &&& exists|bytes: Seq<u8>|
                bytes.len() == 32 && after.control_token->0@ == base64_chars(bytes)
            &&& after == (ServerConfig {
                keypair: Some(keypair),
                signing: Some(signing),
                control_token: after.control_token,
                ..before
            })
        },
        Err(e) => {
            &&& before.keypair is Some
            &&& e@ == "本机已存在密钥对（server.json 已配置），不再重复生成"@
            &&& after == before
        },
    }
}

/// Keys are made once: where there are some they stay, and nothing changes; where there are
/// none the new ones are taken, with a fresh token for the control channel.
pub proof fn keys_are_made_once(
    before: ServerConfig,
    keypair: KeyPair,
    signing: SignKeyPair,
    r: Result<(), String>,
    after: ServerConfig,
)
    requires
        keys_made(before, keypair, signing, r, after),
    ensures
        before.keypair is Some ==> r is Err && after == before,
        before.keypair is None ==> r is Ok && after.keypair == Some(keypair) && after.signing == Some(signing) && after.control_token is Some,
        after.rooms == before.rooms && after.aliases == before.aliases,
{
}

} // verus!
