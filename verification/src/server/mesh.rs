//! The mesh: its root, its members, the invitations into it and the devices that
//! were revoked.
//!
//! The mesh root signs certificates and the revocation list. The signatures are
//! made by the program around the library: what is issued here carries none yet.
//! Instants are seconds since the Unix epoch.
use vstd::prelude::*;
use vstd::string::*;
use vstd::utf8::*;
use crate::server::laws::{
    a_new_invitation_is_good, certificates_are_made_out_right, is_certified_right,
    is_good_for_its_time, may_be_certified, only_new_devices_are_certified,
};
use crate::cert::{
    copy_text, decode_seed, lists, seed_bytes, Crl, CrlEntry, DeviceCert, RevokeReason, SignKeyPair,
};
use crate::outside::{hex_chars, hex_encode, random_hex, sha256, sha256_digest};
use crate::seqs::{keep_if, lemma_filter_members, lemma_filter_take};
use crate::table::RawKey;
use crate::text::{
    ascii_upper, decimal, is_digit, is_space, push_decimal, raised, same, texts, trim, trimmed,
    uppercase,
};

verus! {

/// How long an invitation is valid by default.
pub const INVITE_TTL_SECS: u64 = 600;

/// How long a certificate is valid: one year.
pub const CERT_VALIDITY_SECS: u64 = 31536000;

/// How many revocations fit in a message.
pub const MAX_CRL_ENTRIES: usize = 256;

/// A device that joined the mesh.
#[derive(Debug, Clone)]
pub struct MemberEntry {
    pub device_id: String,
    pub cert: DeviceCert,
    pub joined_at: u64,
    /// The name that the device gave itself.
    pub alias: Option<String>,
}

/// An invitation. Only the digest of its code is kept.
#[derive(Debug, Clone)]
pub struct InviteEntry {
    pub code_hash: String,
    pub expires_at: u64,
    pub used: bool,
    /// The virtual address that is set aside for the invited device.
    pub ip: Option<String>,
}

#[derive(Debug, Clone)]
pub struct MeshConfig {
    pub mesh_id: String,
    pub root: SignKeyPair,
    pub crl: Crl,
    pub members: Vec<MemberEntry>,
    pub invites: Vec<InviteEntry>,
    /// The virtual addresses that may be given out.
    pub ip_pool: Vec<String>,
}

/// An ASCII letter or digit.
pub open spec fn is_alphanumeric(c: char) -> bool {
    ('a' <= c && c <= 'z') || ('A' <= c && c <= 'Z') || is_digit(c)
}

/// A code as it is compared: in upper case, letters and digits only.
pub open spec fn bare_code(code: Seq<char>) -> Seq<char> {
    raised(trimmed(code)).filter(|c: char| is_alphanumeric(c))
}

/// The digest of a code, as it is kept.
pub open spec fn code_digest(code: Seq<char>) -> Seq<char> {
    hex_chars(sha256(encode_utf8(bare_code(code))))
}

/// A text in groups of four characters, with dashes between them.
pub open spec fn grouped(raw: Seq<char>) -> Seq<char>
    decreases raw.len(),
{
    if raw.len() <= 4 {
        raw
    } else {
        raw.take(4) + seq!['-'] + grouped(raw.skip(4))
    }
}

/// The invitation code made of sixteen bytes.
pub open spec fn invite_code(bytes: Seq<u8>) -> Seq<char> {
    "LMJ-"@ + grouped(hex_chars(bytes))
}

/// The first invitation with a code digest stands at `i`.
pub open spec fn invite_at(invites: Seq<InviteEntry>, hash: Seq<char>, i: int) -> bool {
    &&& 0 <= i < invites.len()
    &&& invites[i].code_hash@ == hash
    &&& forall|j: int| 0 <= j < i ==> (#[trigger] invites[j]).code_hash@ != hash
}

/// Whether there is an invitation with a code digest.
pub open spec fn any_invite(invites: Seq<InviteEntry>, hash: Seq<char>) -> bool {
    exists|i: int| 0 <= i < invites.len() && (#[trigger] invites[i]).code_hash@ == hash
}

/// What is wrong with an invitation at an instant.
pub open spec fn invite_error(e: InviteEntry, now: u64) -> Option<Seq<char>> {
    if e.used {
        Some("加入码已被使用（单次有效）"@)
    } else if e.expires_at < now {
        Some("加入码已过期"@)
    } else {
        None
    }
}

/// The answer to a code: the address set aside for it, or what is wrong with it.
pub open spec fn invite_answer(
    invites: Seq<InviteEntry>,
    hash: Seq<char>,
    now: u64,
    r: Result<Option<String>, String>,
) -> bool {
    match r {
        Ok(ip) => exists|i: int|
            {
                &&& #[trigger] invite_at(invites, hash, i)
                &&& invite_error(invites[i], now) is None
                &&& ip == invites[i].ip
            },
        Err(e) => if any_invite(invites, hash) {
            exists|i: int|
                {
                    &&& #[trigger] invite_at(invites, hash, i)
                    &&& invite_error(invites[i], now) == Some(e@)
                }
        } else {
            e@ == "加入码无效（不存在）"@
        },
    }
}

/// Whether a member holds a virtual address.
pub open spec fn held(members: Seq<MemberEntry>, ip: Seq<char>) -> bool {
    exists|i: int| 0 <= i < members.len() && (#[trigger] members[i]).cert.allowed_ip@ == ip
}

/// Whether a virtual address is set aside for an invitation that was not used yet,
/// other than the one at position `except`.
pub open spec fn set_aside(invites: Seq<InviteEntry>, except: int, ip: Seq<char>) -> bool {
    exists|i: int|
        {
            &&& 0 <= i < invites.len()
            &&& i != except
            &&& !(#[trigger] invites[i]).used
            &&& invites[i].ip is Some
            &&& invites[i].ip->0@ == ip
        }
}

/// The first device of the members with an id stands at `i`.
pub open spec fn member_at(members: Seq<MemberEntry>, device_id: Seq<char>, i: int) -> bool {
    &&& 0 <= i < members.len()
    &&& members[i].device_id@ == device_id
    &&& forall|j: int| 0 <= j < i ==> (#[trigger] members[j]).device_id@ != device_id
}

/// The members that are not a given device.
pub open spec fn other_than(device_id: Seq<char>) -> spec_fn(MemberEntry) -> bool {
    |m: MemberEntry| m.device_id@ != device_id
}

/// Whether a device is a member.
pub open spec fn is_member(members: Seq<MemberEntry>, device_id: Seq<char>) -> bool {
    exists|i: int| 0 <= i < members.len() && (#[trigger] members[i]).device_id@ == device_id
}

/// The default pool of virtual addresses: 10.13.13.2 to 10.13.13.254.
pub open spec fn default_pool() -> Seq<Seq<char>> {
    Seq::new(253, |i: int| "10.13.13."@ + decimal((i + 2) as nat))
}

fn default_ip_pool() -> (r: Vec<String>)
    ensures
        texts(r@) == default_pool(),
{
    let mut r: Vec<String> = Vec::new();
    let mut n: u64 = 2;
    while n < 255
        invariant
            2 <= n <= 255,
            r@.len() == n - 2,
            texts(r@) == default_pool().take(n - 2),
        decreases 255 - n,
    {
        let mut s = "10.13.13.".to_owned();
        push_decimal(&mut s, n);
        let ghost before = texts(r@);
        r.push(s);
        assert(texts(r@) =~= before.push(s@));
        assert(texts(r@) =~= default_pool().take(n - 1));
        n = n + 1;
    }
    assert(default_pool().take(253) =~= default_pool());
    r
}

fn group_code(raw: &str) -> (r: String)
    ensures
        r@ == grouped(raw@),
    decreases raw@.len(),
{
    let n: usize = raw.unicode_len();
    if n <= 4 {
        return raw.to_owned();
    }
    let mut r = raw.substring_char(0, 4).to_owned();
    r.push('-');
    let rest = raw.substring_char(4, n);
    assert(raw@.subrange(4, n as int) =~= raw@.skip(4));
    r.append(group_code(rest).as_str());
    assert(r@ =~= grouped(raw@)) by {
        assert(raw@.subrange(0, 4) =~= raw@.take(4));
    }
    r
}

/// Finds an invitation by its code digest.
fn find_invite(invites: &Vec<InviteEntry>, hash: &str) -> (r: Option<usize>)
    ensures
        match r {
            Some(i) => invite_at(invites@, hash@, i as int),
            None => !any_invite(invites@, hash@),
        },
{
    let mut i: usize = 0;
    while i < invites.len()
        invariant
            i <= invites@.len(),
            forall|j: int| 0 <= j < i ==> (#[trigger] invites@[j]).code_hash@ != hash@,
        decreases invites@.len() - i,
    {
        if same(invites[i].code_hash.as_str(), hash) {
            return Some(i);
        }
        i = i + 1;
    }
    None
}

/// Whether an invitation with an address sets aside just that address, and one without
/// or with an empty one sets aside none.
pub open spec fn is_set_aside(given: Option<&str>, kept: Option<String>) -> bool {
    match given {
        Some(s) => if s@.len() > 0 {
            kept is Some && kept->0@ == s@
        } else {
            kept is None
        },
        None => kept is None,
    }
}

/// The mesh before and after an invitation was made out, and its code.
pub open spec fn invite_made(
    before: MeshConfig,
    ip: Option<&str>,
    ttl_secs: u64,
    now: u64,
    code: Seq<char>,
    after: MeshConfig,
) -> bool {
    &&& exists|bytes: Seq<u8>| bytes.len() == 16 && code == invite_code(bytes)
    &&& after.invites@.len() > 0
    &&& after.invites@.drop_last() == before.invites@.filter(still_open(now))
    &&& ({
        let e = after.invites@.last();
        &&& e.code_hash@ == code_digest(code)
        &&& e.expires_at == now + (if ttl_secs == 0 {
            1
        } else {
            ttl_secs
        })
        &&& !e.used
        &&& is_set_aside(ip, e.ip)
    })
    &&& after == (MeshConfig { invites: after.invites, ..before })
}

impl MeshConfig {
    /// A new mesh: no member, no invitation, no revocation, the default pool.
    pub fn init(mesh_id: &str, root: SignKeyPair) -> (r: Self)
        ensures
            r.mesh_id@ == mesh_id@,
            r.root == root,
            r.crl.mesh_id@ == mesh_id@,
            r.crl.version == 0,
            r.crl.entries@ == Seq::<CrlEntry>::empty(),
            r.crl.signature is None,
            r.members@ == Seq::<MemberEntry>::empty(),
            r.invites@ == Seq::<InviteEntry>::empty(),
            texts(r.ip_pool@) == default_pool(),
    {
        MeshConfig {
            mesh_id: mesh_id.to_owned(),
            root,
            crl: Crl {
                mesh_id: mesh_id.to_owned(),
                version: 0,
                entries: Vec::new(),
                signature: None,
            },
            members: Vec::new(),
            invites: Vec::new(),
            ip_pool: default_ip_pool(),
        }
    }

    /// A random name for a mesh: `mesh-` and sixteen hexadecimal digits.
    pub fn generate_mesh_id() -> (r: String)
        ensures
            exists|bytes: Seq<u8>| bytes.len() == 8 && r@ == "mesh-"@ + hex_chars(bytes),
    {
        let mut r = "mesh-".to_owned();
        let h = random_hex(8);
        r.append(h.as_str());
        r
    }

    /// The private key of the mesh root.
    pub fn root_seed(&self) -> (r: Result<RawKey, String>)
        ensures
            match r {
                Ok(k) => self.seed() == Ok::<Seq<u8>, Seq<char>>(k@),
                Err(e) => self.seed() == Err::<Seq<u8>, Seq<char>>(e@),
            },
    {
        decode_seed(
            self.root.private.as_str(),
            "root 私钥 base64 解析失败: ",
            "root 私钥长度错误，应为 32 字节",
        )
    }

    /// The bytes of the private key of the mesh root, or what is wrong with it.
    pub open spec fn seed(&self) -> Result<Seq<u8>, Seq<char>> {
        seed_bytes(
            self.root.private@,
            "root 私钥 base64 解析失败: "@,
            "root 私钥长度错误，应为 32 字节"@,
        )
    }

    /// The digest of a code in hexadecimal. Case and separators do not matter.
    pub fn hash_code(code: &str) -> (r: String)
        ensures
            r@ == code_digest(code@),
    {
        let up = uppercase(trim(code));
        let u = up.as_str();
        let n: usize = u.unicode_len();
        let mut bare = String::new();
        let mut i: usize = 0;
        let ghost p = |c: char| is_alphanumeric(c);
        proof {
            reveal(Seq::filter);
            assert(u@.take(0).filter(p) =~= Seq::<char>::empty());
        }
        while i < n
            invariant
                i <= n,
                n == u@.len(),
                p == (|c: char| is_alphanumeric(c)),
                bare@ == u@.take(i as int).filter(p),
            decreases n - i,
        {
            let c = u.get_char(i);
            proof {
                lemma_filter_take(u@, i as int, p);
            }
            if ('a' <= c && c <= 'z') || ('A' <= c && c <= 'Z') || ('0' <= c && c <= '9') {
                bare.push(c);
            }
            i = i + 1;
        }
        assert(u@.take(n as int) =~= u@);
        let d = sha256_digest(bare.as_str().as_bytes());
        hex_encode(d.as_slice())
    }

    /// Makes an invitation.
    fn make_invite(&mut self, ip: Option<&str>, ttl_secs: u64, now: u64) -> (r: String)
        requires
            now + ttl_secs <= u64::MAX,
            ttl_secs == 0 ==> now < u64::MAX,
        ensures
            invite_made(*old(self), ip, ttl_secs, now, r@, *final(self)),
    {
        let raw = random_hex(16);
        let mut code = "LMJ-".to_owned();
        code.append(group_code(raw.as_str()).as_str());
        let code_hash = Self::hash_code(code.as_str());
        let mut invites: Vec<InviteEntry> = Vec::new();
        std::mem::swap(&mut invites, &mut self.invites);
        let keep = |e: &InviteEntry| -> (b: bool)
            ensures
                b == (e.expires_at > now && !e.used),
        { e.expires_at > now && !e.used };
        let mut kept = keep_if(
            invites,
            keep,
            Ghost(still_open(now)),
        );
        let ghost kept_before = kept@;
        kept.push(
            InviteEntry {
                code_hash,
                expires_at: now + (if ttl_secs == 0 {
                    1
                } else {
                    ttl_secs
                }),
                used: false,
                ip: match ip {
                    Some(s) => if s.unicode_len() > 0 {
                        Some(s.to_owned())
                    } else {
                        None
                    },
                    None => None,
                },
            },
        );
        assert(kept@.drop_last() =~= kept_before);
        self.invites = kept;
        code
    }

    /// Makes an invitation and returns its code. Used and expired invitations are
    /// dropped. An address, if there is one and it is not empty, is set aside for the
    /// invited device.
    pub fn create_invite(&mut self, ip: Option<&str>, ttl_secs: u64, now: u64) -> (r: String)
        requires
            now + ttl_secs <= u64::MAX,
            ttl_secs == 0 ==> now < u64::MAX,
        ensures
            invite_made(*old(self), ip, ttl_secs, now, r@, *final(self)),
            forall|then: u64, looked: Result<Option<String>, String>|
                #![trigger is_good_for_its_time(
                    *old(self),
                    ip,
                    ttl_secs,
                    now,
                    *final(self),
                    then,
                    looked,
                )]
                ttl_secs > 0 && !any_invite(old(self).invites@, code_digest(r@)) && invite_answer(
                    final(self).invites@,
                    code_digest(r@),
                    then,
                    looked,
                ) ==> is_good_for_its_time(
                    *old(self),
                    ip,
                    ttl_secs,
                    now,
                    *final(self),
                    then,
                    looked,
                ),
    {
        let r = self.make_invite(ip, ttl_secs, now);
        proof {
            assert forall|then: u64, looked: Result<Option<String>, String>|
                #![trigger is_good_for_its_time(
                    *old(self),
                    ip,
                    ttl_secs,
                    now,
                    *self,
                    then,
                    looked,
                )]
                ttl_secs > 0 && !any_invite(old(self).invites@, code_digest(r@)) && invite_answer(
                    self.invites@,
                    code_digest(r@),
                    then,
                    looked,
                ) implies is_good_for_its_time(
                *old(self),
                ip,
                ttl_secs,
                now,
                *self,
                then,
                looked,
            ) by {
                a_new_invitation_is_good(
                    *old(self),
                    ip,
                    ttl_secs,
                    now,
                    r@,
                    *self,
                    then,
                    looked,
                );
            }
        }
        r
    }

    /// Looks at the invitation of a code without using it up.
    pub fn peek_invite(&self, code: &str, now: u64) -> (r: Result<Option<String>, String>)
        ensures
            invite_answer(self.invites@, code_digest(code@), now, r),
    {
        let hash = Self::hash_code(code);
        match find_invite(&self.invites, hash.as_str()) {
            Some(i) => {
                let e = &self.invites[i];
                if e.used {
                    return Err("加入码已被使用（单次有效）".to_owned());
                }
                if e.expires_at < now {
                    return Err("加入码已过期".to_owned());
                }
                Ok(copy_text(&e.ip))
            },
            None => Err("加入码无效（不存在）".to_owned()),
        }
    }

    /// Uses up the invitation of a code. Expired invitations are dropped then.
    pub fn consume_invite(&mut self, code: &str, now: u64) -> (r: Result<Option<String>, String>)
        ensures
            invite_answer(old(self).invites@, code_digest(code@), now, r),
            r is Err ==> *final(self) == *old(self),
            r is Ok ==> {
                &&& exists|i: int|
                    #[trigger] invite_at(old(self).invites@, code_digest(code@), i)
                        && final(self).invites@ == used_up(old(self).invites@, i, now)
                &&& *final(self) == (MeshConfig { invites: final(self).invites, ..*old(self) })
            },
    {
        let hash = Self::hash_code(code);
        match find_invite(&self.invites, hash.as_str()) {
            Some(i) => {
                if self.invites[i].used {
                    return Err("加入码已被使用（单次有效）".to_owned());
                }
                if self.invites[i].expires_at < now {
                    return Err("加入码已过期".to_owned());
                }
                let ip = copy_text(&self.invites[i].ip);
                self.invites[i].used = true;
                assert(self.invites@ =~= marked_used(old(self).invites@, i as int));
                let mut invites: Vec<InviteEntry> = Vec::new();
                std::mem::swap(&mut invites, &mut self.invites);
                let keep = |e: &InviteEntry| -> (b: bool)
                    ensures
                        b == (e.expires_at > now),
                { e.expires_at > now };
                self.invites = keep_if(invites, keep, Ghost(in_time(now)));
                Ok(ip)
            },
            None => Err("加入码无效（不存在）".to_owned()),
        }
    }
}

/// Whether an invitation has not expired at a time.
pub open spec fn in_time(now: u64) -> spec_fn(InviteEntry) -> bool {
    |e: InviteEntry| e.expires_at > now
}

/// Whether an invitation is still open at a time.
pub open spec fn still_open(now: u64) -> spec_fn(InviteEntry) -> bool {
    |e: InviteEntry| e.expires_at > now && !e.used
}

/// Invitations after the one at `i` was used up at a time: it is marked, and what has
/// expired goes.
pub open spec fn used_up(invites: Seq<InviteEntry>, i: int, now: u64) -> Seq<InviteEntry> {
    marked_used(invites, i).filter(in_time(now))
}

/// Invitations with the one at `i` marked as used.
pub open spec fn marked_used(invites: Seq<InviteEntry>, i: int) -> Seq<InviteEntry> {
    invites.update(i, InviteEntry { used: true, ..invites[i] })
}

/// Whether a virtual address is taken: by a member, or by an invitation other than
/// the one at position `except`.
pub open spec fn taken(mesh: &MeshConfig, except: int, ip: Seq<char>) -> bool {
    held(mesh.members@, ip) || set_aside(mesh.invites@, except, ip)
}

/// The first address of the pool that is free stands at `i`.
pub open spec fn first_free(mesh: &MeshConfig, except: int, i: int) -> bool {
    &&& 0 <= i < mesh.ip_pool@.len()
    &&& !taken(mesh, except, mesh.ip_pool@[i]@)
    &&& forall|j: int| 0 <= j < i ==> taken(mesh, except, #[trigger] mesh.ip_pool@[j]@)
}

/// The wish for an address, without white space around it.
pub open spec fn wish(preferred: Option<&str>) -> Seq<char> {
    match preferred {
        Some(p) => trimmed(p@),
        None => Seq::empty(),
    }
}

/// The address that a device gets: the one it wishes where that is free, else the
/// first free one of the pool.
pub open spec fn allocation(
    mesh: &MeshConfig,
    except: int,
    wished: Seq<char>,
    r: Result<Seq<char>, Seq<char>>,
) -> bool {
    if wished.len() > 0 && !taken(mesh, except, wished) {
        r == Ok::<Seq<char>, Seq<char>>(wished)
    } else {
        match r {
            Ok(ip) => exists|i: int|
                #[trigger] first_free(mesh, except, i) && ip == mesh.ip_pool@[i]@,
            Err(e) => {
                &&& forall|j: int|
                    0 <= j < mesh.ip_pool@.len() ==> taken(
                        mesh,
                        except,
                        #[trigger] mesh.ip_pool@[j]@,
                    )
                &&& e == "IP 池已耗尽，请扩容 mesh.json 的 ip_pool"@
            },
        }
    }
}

/// The characters of the two sides of a result.
pub open spec fn result_view(r: Result<String, String>) -> Result<Seq<char>, Seq<char>> {
    match r {
        Ok(s) => Ok(s@),
        Err(e) => Err(e@),
    }
}

/// Where a device stands among the members.
fn find_index(members: &Vec<MemberEntry>, device_id: &str) -> (r: Option<usize>)
    ensures
        match r {
            Some(i) => member_at(members@, device_id@, i as int),
            None => !is_member(members@, device_id@),
        },
{
    let mut i: usize = 0;
    while i < members.len()
        invariant
            i <= members@.len(),
            forall|j: int| 0 <= j < i ==> (#[trigger] members@[j]).device_id@ != device_id@,
        decreases members@.len() - i,
    {
        if same(members[i].device_id.as_str(), device_id) {
            return Some(i);
        }
        i = i + 1;
    }
    None
}

/// The certificate of a new member, not signed yet.
pub open spec fn is_fresh_cert(
    mesh: &MeshConfig,
    cert: DeviceCert,
    device_id: Seq<char>,
    ik_x: Seq<char>,
    ik_s_pub: Seq<char>,
    now: u64,
) -> bool {
    &&& cert.mesh_id@ == mesh.mesh_id@
    &&& cert.serial == mesh.members@.len() + 1
    &&& cert.device_id@ == device_id
    &&& cert.ik_x@ == ik_x
    &&& cert.ik_s_pub@ == ik_s_pub
    &&& cert.valid_from == now
    &&& cert.not_after == now + CERT_VALIDITY_SECS
    &&& cert.signature is None
}

/// The outcome of a request for a certificate: the certificate of a new member, or
/// why there is none.
pub open spec fn cert_outcome(
    mesh: &MeshConfig,
    except: int,
    device_id: Seq<char>,
    ik_x: Seq<char>,
    ik_s_pub: Seq<char>,
    wished: Seq<char>,
    now: u64,
    r: Result<DeviceCert, String>,
) -> bool {
    match r {
        Ok(cert) => {
            &&& allocation(mesh, except, wished, Ok(cert.allowed_ip@))
            &&& !is_member(mesh.members@, device_id)
            &&& !lists(mesh.crl.entries@, device_id)
            &&& mesh.seed() is Ok
            &&& is_fresh_cert(mesh, cert, device_id, ik_x, ik_s_pub, now)
        },
        Err(e) => {
            ||| allocation(mesh, except, wished, Err(e@))
            ||| {
                &&& exists|ip: Seq<char>| allocation(mesh, except, wished, Ok(ip))
                &&& if is_member(mesh.members@, device_id) {
                    e@ == "该设备已入网，无需重复签发"@
                } else if lists(mesh.crl.entries@, device_id) {
                    e@ == "该设备已被吊销，拒绝签发"@
                } else {
                    mesh.seed() == Err::<Seq<u8>, Seq<char>>(e@)
                }
            }
        },
    }
}

impl MeshConfig {
    /// No device is a member twice, no revoked device is a member, and no two
    /// members hold the same address.
    pub open spec fn wf(&self) -> bool {
        &&& forall|i: int, j: int|
            0 <= i < j < self.members@.len() ==> self.members@[i].device_id@
                != self.members@[j].device_id@
        &&& forall|i: int, j: int|
            0 <= i < j < self.members@.len() ==> self.members@[i].cert.allowed_ip@
                != self.members@[j].cert.allowed_ip@
        &&& forall|i: int|
            0 <= i < self.members@.len() ==> !lists(
                self.crl.entries@,
                #[trigger] self.members@[i].device_id@,
            )
    }

    /// Whether a virtual address is taken; the invitation at position `except`
    /// does not count.
    fn is_taken(&self, ip: &str, except: Option<usize>) -> (r: bool)
        ensures
            r == taken(
                self,
                match except {
                    Some(k) => k as int,
                    None => -1,
                },
                ip@,
            ),
    {
        let ghost ex: int = match except {
            Some(k) => k as int,
            None => -1,
        };
        let mut i: usize = 0;
        while i < self.members.len()
            invariant
                i <= self.members@.len(),
                forall|j: int|
                    0 <= j < i ==> (#[trigger] self.members@[j]).cert.allowed_ip@ != ip@,
            decreases self.members@.len() - i,
        {
            if same(self.members[i].cert.allowed_ip.as_str(), ip) {
                return true;
            }
            i = i + 1;
        }
        let mut k: usize = 0;
        while k < self.invites.len()
            invariant
                k <= self.invites@.len(),
                ex == (match except {
                    Some(k) => k as int,
                    None => -1,
                }),
                forall|j: int|
                    0 <= j < k && j != ex ==> (#[trigger] self.invites@[j]).used
                        || self.invites@[j].ip is None || self.invites@[j].ip->0@ != ip@,
            decreases self.invites@.len() - k,
        {
            let own = match except {
                Some(x) => x == k,
                None => false,
            };
            if !own && !self.invites[k].used {
                if let Some(s) = &self.invites[k].ip {
                    if same(s.as_str(), ip) {
                        return true;
                    }
                }
            }
            k = k + 1;
        }
        false
    }

    fn allocate(&self, preferred: Option<&str>, except: Option<usize>) -> (r: Result<
        String,
        String,
    >)
        ensures
            allocation(
                self,
                match except {
                    Some(k) => k as int,
                    None => -1,
                },
                wish(preferred),
                result_view(r),
            ),
    {
        if let Some(p) = preferred {
            let w = trim(p);
            if !w.is_empty() && !self.is_taken(w, except) {
                return Ok(w.to_owned());
            }
        }
        let ghost ex: int = match except {
            Some(k) => k as int,
            None => -1,
        };
        let mut i: usize = 0;
        while i < self.ip_pool.len()
            invariant
                i <= self.ip_pool@.len(),
                ex == (match except {
                    Some(k) => k as int,
                    None => -1,
                }),
                wish(preferred).len() > 0 ==> taken(self, ex, wish(preferred)),
                forall|j: int| 0 <= j < i ==> taken(self, ex, #[trigger] self.ip_pool@[j]@),
            decreases self.ip_pool@.len() - i,
        {
            if !self.is_taken(self.ip_pool[i].as_str(), except) {
                assert(first_free(self, ex, i as int));
                return Ok(self.ip_pool[i].clone());
            }
            i = i + 1;
        }
        Err("IP 池已耗尽，请扩容 mesh.json 的 ip_pool".to_owned())
    }

    /// Chooses a virtual address for a device.
    pub fn allocate_ip(&self, preferred: Option<&str>) -> (r: Result<String, String>)
        ensures
            allocation(self, -1, wish(preferred), result_view(r)),
    {
        self.allocate(preferred, None)
    }

    /// Chooses a virtual address for a device that comes in by the invitation at
    /// position `own`.
    pub fn allocate_for(&self, preferred: Option<&str>, own: usize) -> (r: Result<String, String>)
        ensures
            allocation(self, own as int, wish(preferred), result_view(r)),
    {
        self.allocate(preferred, Some(own))
    }

    /// Where the invitation of a code stands.
    pub fn invite_index(&self, code: &str) -> (r: Option<usize>)
        ensures
            match r {
                Some(i) => invite_at(self.invites@, code_digest(code@), i as int),
                None => !any_invite(self.invites@, code_digest(code@)),
            },
    {
        let hash = Self::hash_code(code);
        find_invite(&self.invites, hash.as_str())
    }

    /// Draws up a certificate.
    fn draw_up_cert(
        &self,
        ik_x_b64: &str,
        ik_s_pub_b64: &str,
        ip: Option<&str>,
        device_id: &str,
        except: Option<usize>,
        now: u64,
    ) -> (r: Result<DeviceCert, String>)
        requires
            self.members@.len() < u32::MAX,
            now + CERT_VALIDITY_SECS <= u64::MAX,
        ensures
            cert_outcome(
                self,
                match except {
                    Some(k) => k as int,
                    None => -1,
                },
                device_id@,
                ik_x_b64@,
                ik_s_pub_b64@,
                wish(ip),
                now,
                r,
            ),
    {
        let allowed_ip = match self.allocate(ip, except) {
            Ok(a) => a,
            Err(e) => {
                return Err(e);
            },
        };
        let ghost ex: int = match except {
            Some(k) => k as int,
            None => -1,
        };
        assert(allocation(self, ex, wish(ip), Ok(allowed_ip@)));
        if find_index(&self.members, device_id).is_some() {
            return Err("该设备已入网，无需重复签发".to_owned());
        }
        if self.is_revoked(device_id) {
            return Err("该设备已被吊销，拒绝签发".to_owned());
        }
        if let Err(e) = self.root_seed() {
            return Err(e);
        }
        Ok(
            DeviceCert {
                mesh_id: self.mesh_id.clone(),
                serial: self.members.len() as u32 + 1,
                device_id: device_id.to_owned(),
                ik_x: ik_x_b64.to_owned(),
                ik_s_pub: ik_s_pub_b64.to_owned(),
                allowed_ip,
                valid_from: now,
                not_after: now + CERT_VALIDITY_SECS,
                signature: None,
            },
        )
    }

    /// Draws up the certificate of a new member. The invitation at position
    /// `except`, by which the device comes in, does not stand in the way of the
    /// address that was set aside for it.
    pub fn draft_cert(
        &self,
        ik_x_b64: &str,
        ik_s_pub_b64: &str,
        ip: Option<&str>,
        device_id: &str,
        except: Option<usize>,
        now: u64,
    ) -> (r: Result<DeviceCert, String>)
        requires
            self.members@.len() < u32::MAX,
            now + CERT_VALIDITY_SECS <= u64::MAX,
        ensures
            cert_outcome(
                self,
                match except {
                    Some(k) => k as int,
                    None => -1,
                },
                device_id@,
                ik_x_b64@,
                ik_s_pub_b64@,
                wish(ip),
                now,
                r,
            ),
            ({
                let own = match except {
                    Some(k) => k as int,
                    None => -1,
                };
                &&& may_be_certified(*self, own, device_id@, wish(ip)) ==> is_certified_right(
                    *self,
                    own,
                    device_id@,
                    ik_x_b64@,
                    ik_s_pub_b64@,
                    wish(ip),
                    now,
                    r,
                )
                &&& r is Ok ==> may_be_certified(*self, own, device_id@, wish(ip))
            }),
    {
        let r = self.draw_up_cert(ik_x_b64, ik_s_pub_b64, ip, device_id, except, now);
        proof {
            let own = match except {
                Some(k) => k as int,
                None => -1,
            };
            only_new_devices_are_certified(
                *self,
                own,
                device_id@,
                ik_x_b64@,
                ik_s_pub_b64@,
                wish(ip),
                now,
                r,
            );
            if may_be_certified(*self, own, device_id@, wish(ip)) {
                certificates_are_made_out_right(
                    *self,
                    own,
                    device_id@,
                    ik_x_b64@,
                    ik_s_pub_b64@,
                    wish(ip),
                    now,
                    r,
                );
            }
        }
        r
    }

    /// Takes a certificate into the list of members.
    pub fn enroll(&mut self, cert: &DeviceCert, alias: Option<String>, now: u64)
        ensures
            final(self).members@ == old(self).members@.push(
                MemberEntry {
                    device_id: cert.device_id,
                    cert: *cert,
                    joined_at: now,
                    alias,
                },
            ),
            *final(self) == (MeshConfig { members: final(self).members, ..*old(self) }),
    {
        self.members.push(
            MemberEntry { device_id: cert.device_id.clone(), cert: cert.copy(), joined_at: now, alias },
        );
    }

    /// Issues a certificate and takes the device into the list of members.
    pub fn issue_cert(
        &mut self,
        ik_x_b64: &str,
        ik_s_pub_b64: &str,
        ip: &str,
        device_id: &str,
        now: u64,
    ) -> (r: Result<DeviceCert, String>)
        requires
            old(self).members@.len() < u32::MAX,
            now + CERT_VALIDITY_SECS <= u64::MAX,
        ensures
            cert_outcome(
                old(self),
                -1,
                device_id@,
                ik_x_b64@,
                ik_s_pub_b64@,
                trimmed(ip@),
                now,
                r,
            ),
            match r {
                Ok(cert) => {
                    &&& final(self).members@ == old(self).members@.push(
                        MemberEntry {
                            device_id: cert.device_id,
                            cert,
                            joined_at: now,
                            alias: None,
                        },
                    )
                    &&& *final(self) == (MeshConfig {
                        members: final(self).members,
                        ..*old(self)
                    })
                },
                Err(_) => *final(self) == *old(self),
            },
            old(self).wf() ==> final(self).wf(),
    {
        match self.draft_cert(ik_x_b64, ik_s_pub_b64, Some(ip), device_id, None, now) {
            Ok(cert) => {
                self.enroll(&cert, None, now);
                proof {
                    assert(self.members@.drop_last() =~= old(self).members@);
                    lemma_enroll_keeps_wf(old(self), self, cert);
                }
                Ok(cert)
            },
            Err(e) => Err(e),
        }
    }

    /// Revokes a device: the list gets a new version and one entry more, and the
    /// device is no longer a member.
    pub fn revoke(&mut self, device_id: &str, reason: RevokeReason, now: u64) -> (r: Result<
        Crl,
        String,
    >)
        requires
            old(self).crl.version < u64::MAX,
        ensures
            lists(old(self).crl.entries@, device_id@) ==> {
                &&& r is Err && r->Err_0@ == "该设备已在吊销列表中"@
                &&& *final(self) == *old(self)
            },
            !lists(old(self).crl.entries@, device_id@) && old(self).crl.entries@.len()
                >= MAX_CRL_ENTRIES ==> {
                &&& r is Err && r->Err_0@
                    == "CRL 已达线格式上限（256 条），无法再吊销。请清理/精简吊销列表后再试"@
                &&& *final(self) == *old(self)
            },
            !lists(old(self).crl.entries@, device_id@) && old(self).crl.entries@.len()
                < MAX_CRL_ENTRIES ==> {
                &&& final(self).crl.version == old(self).crl.version + 1
                &&& final(self).crl.mesh_id == old(self).crl.mesh_id
                &&& revoked_one(
                    old(self).crl.entries@,
                    final(self).crl.entries@,
                    device_id@,
                    reason,
                    now,
                )
                &&& match r {
                    Ok(crl) => {
                        &&& old(self).seed() is Ok
                        &&& final(self).crl.signature is None
                        &&& final(self).members@ == old(self).members@.filter(
                            other_than(device_id@),
                        )
                        &&& crl.version == final(self).crl.version
                        &&& crl.mesh_id == final(self).crl.mesh_id
                        &&& crl.entries@ == final(self).crl.entries@
                        &&& crl.signature is None
                    },
                    Err(e) => {
                        &&& old(self).seed() == Err::<Seq<u8>, Seq<char>>(e@)
                        &&& final(self).crl.signature == old(self).crl.signature
                        &&& final(self).members == old(self).members
                    },
                }
                &&& *final(self) == (MeshConfig {
                    crl: final(self).crl,
                    members: final(self).members,
                    ..*old(self)
                })
            },
            old(self).wf() && r is Ok ==> final(self).wf(),
    {
        if self.is_revoked(device_id) {
            return Err("该设备已在吊销列表中".to_owned());
        }
        if self.crl.entries.len() >= MAX_CRL_ENTRIES {
            return Err(
                "CRL 已达线格式上限（256 条），无法再吊销。请清理/精简吊销列表后再试".to_owned(),
            );
        }
        self.crl.version = self.crl.version + 1;
        let entry = CrlEntry {
            device_id: device_id.to_owned(),
            reason,
            revoked_at: now,
            replacement: None,
        };
        self.crl.entries.push(entry);
        assert(self.crl.entries@.drop_last() =~= old(self).crl.entries@);
        if let Err(e) = self.root_seed() {
            return Err(e);
        }
        self.crl.signature = None;
        let mut members: Vec<MemberEntry> = Vec::new();
        std::mem::swap(&mut members, &mut self.members);
        let keep = |m: &MemberEntry| -> (b: bool)
            ensures
                b == (m.device_id@ != device_id@),
        { !same(m.device_id.as_str(), device_id) };
        self.members = keep_if(members, keep, Ghost(other_than(device_id@)));
        proof {
            if old(self).wf() {
                lemma_revoke_keeps_wf(old(self), self, device_id@);
            }
        }
        Ok(self.crl.copy())
    }

    /// Whether a device is revoked.
    pub fn is_revoked(&self, device_id: &str) -> (r: bool)
        ensures
            r == lists(self.crl.entries@, device_id@),
    {
        self.crl.is_revoked(device_id)
    }

    /// The member with a device id.
    pub fn find_member(&self, device_id: &str) -> (r: Option<&MemberEntry>)
        ensures
            match r {
                Some(m) => exists|i: int|
                    #[trigger] member_at(self.members@, device_id@, i) && *m == self.members@[i],
                None => !is_member(self.members@, device_id@),
            },
    {
        match find_index(&self.members, device_id) {
            Some(i) => Some(&self.members[i]),
            None => None,
        }
    }

    /// What a check of all signatures comes to: the first failure among those of the
    /// root key, of the revocation list and of the members' certificates, in this order.
    pub fn verify_integrity(
        &self,
        root: Result<(), String>,
        crl: Result<(), String>,
        certs: &Vec<Result<(), String>>,
    ) -> (r: Result<(), String>)
        requires
            certs@.len() == self.members@.len(),
        ensures
            integrity_verified(root, crl, certs@, r),
    {
        if let Err(e) = root {
            return Err(e);
        }
        if let Err(e) = crl {
            return Err(e);
        }
        let mut i: usize = 0;
        while i < certs.len()
            invariant
                i <= certs@.len(),
                root is Ok && crl is Ok,
                forall|j: int| 0 <= j < i ==> (#[trigger] certs@[j]) is Ok,
            decreases certs@.len() - i,
        {
            if let Err(e) = &certs[i] {
                return Err(e.clone());
            }
            i = i + 1;
        }
        Ok(())
    }

    /// The first member with an X25519 public key in base64 that is not revoked.
    pub fn find_by_ik_x(&self, ik_x_b64: &str) -> (r: Option<&MemberEntry>)
        ensures
            found_by_key(self, ik_x_b64@, r),
    {
        let mut i: usize = 0;
        while i < self.members.len()
            invariant
                i <= self.members@.len(),
                forall|j: int| 0 <= j < i ==> !has_key(self, ik_x_b64@, j),
            decreases self.members@.len() - i,
        {
            if same(self.members[i].cert.ik_x.as_str(), ik_x_b64) && !self.is_revoked(
                self.members[i].device_id.as_str(),
            ) {
                assert(key_at(self, ik_x_b64@, i as int));
                return Some(&self.members[i]);
            }
            i = i + 1;
        }
        None
    }

    /// Notes the name that a member gave itself.
    pub fn set_member_alias(&mut self, device_id: &str, alias: &str)
        ensures
            final(self).members@.len() == old(self).members@.len(),
            forall|i: int|
                #![trigger final(self).members@[i]]
                0 <= i < old(self).members@.len() ==> if member_at(
                    old(self).members@,
                    device_id@,
                    i,
                ) {
                    &&& final(self).members@[i].alias is Some
                    &&& final(self).members@[i].alias->0@ == alias@
                    &&& final(self).members@[i] == (MemberEntry {
                        alias: final(self).members@[i].alias,
                        ..old(self).members@[i]
                    })
                } else {
                    final(self).members@[i] == old(self).members@[i]
                },
            *final(self) == (MeshConfig { members: final(self).members, ..*old(self) }),
    {
        match find_index(&self.members, device_id) {
            Some(i) => {
                self.members[i].alias = Some(alias.to_owned());
                assert(old(self).members@[i as int].device_id@ == device_id@);
            },
            None => {},
        }
    }

    /// The device id and address of the first member with a name that is not
    /// revoked.
    pub fn member_by_alias(&self, alias: &str) -> (r: Option<(String, String)>)
        ensures
            match r {
                Some((id, ip)) => exists|i: int|
                    #[trigger] name_at(self, alias@, i) && id == self.members@[i].device_id && ip
                        == self.members@[i].cert.allowed_ip,
                None => forall|j: int|
                    0 <= j < self.members@.len() ==> !has_name(self, alias@, j),
            },
    {
        let mut i: usize = 0;
        while i < self.members.len()
            invariant
                i <= self.members@.len(),
                forall|j: int| 0 <= j < i ==> !has_name(self, alias@, j),
            decreases self.members@.len() - i,
        {
            let named = match &self.members[i].alias {
                Some(a) => same(a.as_str(), alias),
                None => false,
            };
            if named && !self.is_revoked(self.members[i].device_id.as_str()) {
                assert(name_at(self, alias@, i as int));
                return Some(
                    (self.members[i].device_id.clone(), self.members[i].cert.allowed_ip.clone()),
                );
            }
            i = i + 1;
        }
        None
    }
}

/// The member at `i` has a public key and is not revoked.
pub open spec fn has_key(mesh: &MeshConfig, ik_x: Seq<char>, i: int) -> bool {
    mesh.members@[i].cert.ik_x@ == ik_x && !lists(mesh.crl.entries@, mesh.members@[i].device_id@)
}

pub open spec fn key_at(mesh: &MeshConfig, ik_x: Seq<char>, i: int) -> bool {
    &&& 0 <= i < mesh.members@.len()
    &&& has_key(mesh, ik_x, i)
    &&& forall|j: int| 0 <= j < i ==> !has_key(mesh, ik_x, j)
}

/// The member at `i` has a name and is not revoked.
pub open spec fn has_name(mesh: &MeshConfig, alias: Seq<char>, i: int) -> bool {
    &&& mesh.members@[i].alias is Some
    &&& mesh.members@[i].alias->0@ == alias
    &&& !lists(mesh.crl.entries@, mesh.members@[i].device_id@)
}

pub open spec fn name_at(mesh: &MeshConfig, alias: Seq<char>, i: int) -> bool {
    &&& 0 <= i < mesh.members@.len()
    &&& has_name(mesh, alias, i)
    &&& forall|j: int| 0 <= j < i ==> !has_name(mesh, alias, j)
}

/// A list of revocations after one device more was revoked.
pub open spec fn revoked_one(
    before: Seq<CrlEntry>,
    after: Seq<CrlEntry>,
    device_id: Seq<char>,
    reason: RevokeReason,
    now: u64,
) -> bool {
    &&& after.len() == before.len() + 1
    &&& after.drop_last() == before
    &&& after.last().device_id@ == device_id
    &&& after.last().reason == reason
    &&& after.last().revoked_at == now
    &&& after.last().replacement is None
}

proof fn lemma_enroll_keeps_wf(before: &MeshConfig, after: &MeshConfig, cert: DeviceCert)
    requires
        !is_member(before.members@, cert.device_id@),
        !lists(before.crl.entries@, cert.device_id@),
        !held(before.members@, cert.allowed_ip@),
        after.crl == before.crl,
        after.members@.len() == before.members@.len() + 1,
        after.members@.drop_last() == before.members@,
        after.members@.last().device_id == cert.device_id,
        after.members@.last().cert == cert,
    ensures
        before.wf() ==> after.wf(),
{
    if before.wf() {
        let n = before.members@.len() as int;
        assert forall|i: int| 0 <= i < n implies #[trigger] after.members@[i]
            == before.members@[i] by {
            assert(after.members@[i] == after.members@.drop_last()[i]);
        }
    }
}

proof fn lemma_revoke_keeps_wf(before: &MeshConfig, after: &MeshConfig, device_id: Seq<char>)
    requires
        before.wf(),
        after.members@ == before.members@.filter(other_than(device_id)),
        after.crl.entries@.len() == before.crl.entries@.len() + 1,
        after.crl.entries@.drop_last() == before.crl.entries@,
        after.crl.entries@.last().device_id@ == device_id,
    ensures
        after.wf(),
{
    let p = other_than(device_id);
    lemma_filter_members(before.members@, p);
    lemma_filter_keeps_order(before.members@, p);
    assert forall|i: int| 0 <= i < after.members@.len() implies !lists(
        after.crl.entries@,
        #[trigger] after.members@[i].device_id@,
    ) by {
        let m = after.members@[i];
        assert(p(before.members@.filter(p)[i]));
        assert(before.members@.contains(m));
        let k = choose|k: int| 0 <= k < before.members@.len() && before.members@[k] == m;
        assert(!lists(before.crl.entries@, before.members@[k].device_id@));
        if lists(after.crl.entries@, m.device_id@) {
            let x = choose|x: int|
                0 <= x < after.crl.entries@.len() && (#[trigger] after.crl.entries@[x]).device_id@
                    == m.device_id@;
            if x == before.crl.entries@.len() {
                assert(after.crl.entries@[x] == after.crl.entries@.last());
            } else {
                assert(before.crl.entries@[x] == after.crl.entries@.drop_last()[x]);
                assert(before.crl.entries@[x].device_id@ == m.device_id@);
                assert(lists(before.crl.entries@, m.device_id@));
            }
            assert(false);
        }
    }
}

/// Two elements of a filtered sequence stand at two different places of the
/// sequence.
proof fn lemma_filter_keeps_order(s: Seq<MemberEntry>, p: spec_fn(MemberEntry) -> bool)
    ensures
        forall|i: int, j: int|
            #![trigger s.filter(p)[i], s.filter(p)[j]]
            0 <= i < j < s.filter(p).len() ==> exists|a: int, b: int|
                0 <= a < b < s.len() && #[trigger] s[a] == s.filter(p)[i] && #[trigger] s[b]
                    == s.filter(p)[j],
    decreases s.len(),
{
    reveal(Seq::filter);
    if s.len() > 0 {
        let front = s.drop_last();
        lemma_filter_keeps_order(front, p);
        lemma_filter_members(front, p);
        let f = s.filter(p);
        let ff = front.filter(p);
        assert forall|i: int, j: int|
            #![trigger s.filter(p)[i], s.filter(p)[j]]
            0 <= i < j < f.len() implies exists|a: int, b: int|
            0 <= a < b < s.len() && #[trigger] s[a] == f[i] && #[trigger] s[b] == f[j] by {
            if j < ff.len() {
                assert(ff[i] == f[i] && ff[j] == f[j]);
                let (a, b) = choose|a: int, b: int|
                    0 <= a < b < front.len() && #[trigger] front[a] == ff[i] && #[trigger] front[b]
                        == ff[j];
                assert(s[a] == f[i] && s[b] == f[j]);
            } else {
                assert(front.contains(ff[i]));
                let a = choose|a: int| 0 <= a < front.len() && front[a] == ff[i];
                assert(s[a] == f[i] && s[s.len() - 1] == f[j]);
            }
        }
    }
}

/// An address that is given out is taken neither by a member nor by another
/// invitation.
pub proof fn an_allocated_address_is_free(
    mesh: &MeshConfig,
    except: int,
    wished: Seq<char>,
    ip: Seq<char>,
)
    requires
        allocation(mesh, except, wished, Ok(ip)),
    ensures
        !held(mesh.members@, ip),
        !set_aside(mesh.invites@, except, ip),
{
}

/// No two invitations share a code.
pub open spec fn codes_differ(invites: Seq<InviteEntry>) -> bool {
    forall|i: int, j: int|
        0 <= i < j < invites.len() ==> invites[i].code_hash@ != invites[j].code_hash@
}

/// Something that happens to the invitations.
pub enum InviteStep {
    /// One more is made out.
    Create { now: u64 },
    /// The one at position `i` is used up.
    Use { i: int, now: u64 },
    /// Nothing changes: a code is looked at, or refused.
    Look,
}

/// Whether a step leads from some invitations to others.
pub open spec fn leads_to(before: Seq<InviteEntry>, step: InviteStep, after: Seq<InviteEntry>) -> bool {
    match step {
        InviteStep::Create { now } => after.len() > 0 && after.drop_last() == before.filter(
            still_open(now),
        ),
        InviteStep::Use { i, now } => 0 <= i < before.len() && after == used_up(before, i, now),
        InviteStep::Look => after == before,
    }
}

/// A run: the invitations at the beginning and after each step.
pub open spec fn is_run(states: Seq<Seq<InviteEntry>>, steps: Seq<InviteStep>) -> bool {
    &&& states.len() == steps.len() + 1
    &&& forall|m: int|
        #![trigger steps[m]]
        0 <= m < steps.len() ==> leads_to(states[m], steps[m], states[m + 1])
}

/// Whether no code is made out a second time: each new one differs from all that were
/// stored before.
pub open spec fn fresh_codes(states: Seq<Seq<InviteEntry>>, steps: Seq<InviteStep>) -> bool {
    forall|m: int, k: int, j: int|
        #![trigger steps[m], states[k][j]]
        0 <= k <= m < steps.len() && steps[m] is Create && 0 <= j < states[k].len()
            ==> states[k][j].code_hash@ != states[m + 1].last().code_hash@
}

/// Whether all invitations with a code are used up.
pub open spec fn spent(invites: Seq<InviteEntry>, hash: Seq<char>) -> bool {
    forall|j: int|
        0 <= j < invites.len() && (#[trigger] invites[j]).code_hash@ == hash ==> invites[j].used
}

proof fn lemma_filter_spent(invites: Seq<InviteEntry>, hash: Seq<char>, p: spec_fn(InviteEntry) -> bool)
    requires
        spent(invites, hash),
    ensures
        spent(invites.filter(p), hash),
{
    lemma_filter_members(invites, p);
    let f = invites.filter(p);
    assert forall|j: int| 0 <= j < f.len() && (#[trigger] f[j]).code_hash@ == hash implies f[j].used by {
        assert(invites.contains(f[j]));
        let m = choose|m: int| 0 <= m < invites.len() && invites[m] == f[j];
        assert(invites[m].used);
    }
}

proof fn lemma_step_keeps_spent(
    before: Seq<InviteEntry>,
    step: InviteStep,
    after: Seq<InviteEntry>,
    hash: Seq<char>,
)
    requires
        spent(before, hash),
        leads_to(before, step, after),
        step is Create ==> after.last().code_hash@ != hash,
    ensures
        spent(after, hash),
{
    match step {
        InviteStep::Create { now } => {
            lemma_filter_spent(before, hash, still_open(now));
            let kept = before.filter(still_open(now));
            assert forall|j: int|
                0 <= j < after.len() && (#[trigger] after[j]).code_hash@ == hash implies after[j].used by {
                if j < after.len() - 1 {
                    assert(after.drop_last()[j] == after[j]);
                    assert(kept[j] == after[j]);
                }
            }
        },
        InviteStep::Use { i, now } => {
            let m = marked_used(before, i);
            assert forall|j: int|
                0 <= j < m.len() && (#[trigger] m[j]).code_hash@ == hash implies m[j].used by {
                if j != i {
                    assert(m[j] == before[j]);
                }
            }
            lemma_filter_spent(m, hash, in_time(now));
        },
        InviteStep::Look => {},
    }
}

proof fn lemma_stays_spent(
    states: Seq<Seq<InviteEntry>>,
    steps: Seq<InviteStep>,
    hash: Seq<char>,
    from: int,
    m: int,
)
    requires
        is_run(states, steps),
        0 <= from <= m < states.len(),
        spent(states[from], hash),
        forall|k: int|
            from <= k < m && (#[trigger] steps[k]) is Create ==> states[k + 1].last().code_hash@
                != hash,
    ensures
        spent(states[m], hash),
    decreases m - from,
{
    if from < m {
        lemma_stays_spent(states, steps, hash, from, m - 1);
        assert(leads_to(states[m - 1], steps[m - 1], states[m]));
        lemma_step_keeps_spent(states[m - 1], steps[m - 1], states[m], hash);
    }
}

/// Whether no invitation that was made out after the one at position `i` of the first
/// state has its code.
pub open spec fn never_drawn_again(
    states: Seq<Seq<InviteEntry>>,
    steps: Seq<InviteStep>,
    hash: Seq<char>,
    i: int,
) -> bool {
    &&& forall|j: int| i < j < states[0].len() ==> (#[trigger] states[0][j]).code_hash@ != hash
    &&& forall|k: int|
        0 <= k < steps.len() && (#[trigger] steps[k]) is Create ==> states[k + 1].last().code_hash@
            != hash
}

/// An invitation is good for one device: once it was used up, its code is refused,
/// whenever it comes again and whatever invitations are made out, used up or expire in
/// between, as long as this code is not drawn again.
pub proof fn an_invitation_is_used_once(
    states: Seq<Seq<InviteEntry>>,
    steps: Seq<InviteStep>,
    hash: Seq<char>,
    i: int,
    now: u64,
    later: u64,
    r: Result<Option<String>, String>,
)
    requires
        is_run(states, steps),
        never_drawn_again(states, steps, hash, i),
        steps.len() > 0,
        steps[0] == (InviteStep::Use { i, now }),
        invite_at(states[0], hash, i),
        invite_answer(states.last(), hash, later, r),
    ensures
        r is Err,
{
    let first = states[0];
    let used = marked_used(first, i);
    assert(leads_to(states[0], steps[0], states[1]));
    assert forall|j: int| 0 <= j < used.len() && (#[trigger] used[j]).code_hash@ == hash implies used[j].used by {
        if j != i {
            assert(used[j] == first[j]);
        }
    }
    lemma_filter_spent(used, hash, in_time(now));
    lemma_stays_spent(states, steps, hash, 1, states.len() - 1);
    let end = states.last();
    if r is Ok {
        let k = choose|k: int|
            {
                &&& #[trigger] invite_at(end, hash, k)
                &&& invite_error(end[k], later) is None
                &&& r->Ok_0 == end[k].ip
            };
        assert(end[k].used);
    }
}

/// As long as no code is made out twice, no two stored invitations ever share a code.
pub proof fn codes_stay_different(states: Seq<Seq<InviteEntry>>, steps: Seq<InviteStep>, m: int)
    requires
        is_run(states, steps),
        fresh_codes(states, steps),
        codes_differ(states[0]),
        0 <= m < states.len(),
    ensures
        codes_differ(states[m]),
    decreases m,
{
    if m > 0 {
        codes_stay_different(states, steps, m - 1);
        let before = states[m - 1];
        let after = states[m];
        assert(leads_to(before, steps[m - 1], after));
        match steps[m - 1] {
            InviteStep::Create { now } => {
                let kept = before.filter(still_open(now));
                lemma_filter_differs(before, still_open(now));
                lemma_filter_members(before, still_open(now));
                assert forall|a: int, b: int| 0 <= a < b < after.len() implies after[a].code_hash@
                    != after[b].code_hash@ by {
                    assert(after[a] == after.drop_last()[a]);
                    assert(after[a] == kept[a]);
                    if b < after.len() - 1 {
                        assert(after[b] == after.drop_last()[b]);
                    } else {
                        assert(before.contains(kept[a]));
                        let j = choose|j: int| 0 <= j < before.len() && before[j] == kept[a];
                        assert(states[m - 1][j].code_hash@ != states[m].last().code_hash@);
                    }
                }
            },
            InviteStep::Use { i, now } => {
                let used = marked_used(before, i);
                assert(codes_differ(used));
                lemma_filter_differs(used, in_time(now));
            },
            InviteStep::Look => {},
        }
    }
}

proof fn lemma_filter_differs(invites: Seq<InviteEntry>, p: spec_fn(InviteEntry) -> bool)
    requires
        codes_differ(invites),
    ensures
        codes_differ(invites.filter(p)),
    decreases invites.len(),
{
    reveal(Seq::filter);
    if invites.len() > 0 {
        let front = invites.drop_last();
        assert(codes_differ(front)) by {
            assert forall|a: int, b: int| 0 <= a < b < front.len() implies front[a].code_hash@
                != front[b].code_hash@ by {
                assert(invites[a].code_hash@ != invites[b].code_hash@);
            }
        }
        lemma_filter_differs(front, p);
        lemma_filter_members(front, p);
        let f = front.filter(p);
        let g = invites.filter(p);
        if p(invites.last()) {
            assert forall|a: int, b: int| 0 <= a < b < g.len() implies g[a].code_hash@
                != g[b].code_hash@ by {
                if b == f.len() {
                    assert(front.contains(f[a]));
                    let j = choose|j: int| 0 <= j < front.len() && front[j] == f[a];
                    assert(invites[j].code_hash@ != invites[invites.len() - 1].code_hash@);
                } else {
                    assert(f[a].code_hash@ != f[b].code_hash@);
                }
            }
        }
    }
}

/// Looking at a code and using it up give the same answer, however often it was
/// looked at before.
pub proof fn looking_agrees_with_using(
    invites: Seq<InviteEntry>,
    hash: Seq<char>,
    now: u64,
    looked: Result<Option<String>, String>,
    used: Result<Option<String>, String>,
)
    requires
        invite_answer(invites, hash, now, looked),
        invite_answer(invites, hash, now, used),
    ensures
        match (looked, used) {
            (Ok(a), Ok(b)) => a == b,
            (Err(a), Err(b)) => a@ == b@,
            _ => false,
        },
{
    assert forall|i: int, j: int|
        #[trigger] invite_at(invites, hash, i) && #[trigger] invite_at(invites, hash, j) implies i
        == j by {
        if i < j {
            assert(invites[i].code_hash@ != hash);
        }
        if j < i {
            assert(invites[j].code_hash@ != hash);
        }
    }
}

/// A revoked device gets no certificate.
pub proof fn a_revoked_device_gets_no_certificate(
    mesh: &MeshConfig,
    except: int,
    device_id: Seq<char>,
    ik_x: Seq<char>,
    ik_s_pub: Seq<char>,
    wished: Seq<char>,
    now: u64,
    r: Result<DeviceCert, String>,
)
    requires
        lists(mesh.crl.entries@, device_id),
        cert_outcome(mesh, except, device_id, ik_x, ik_s_pub, wished, now, r),
    ensures
        r is Err,
{
}

/// A device that was revoked is on the list, no member, and so is every device
/// that was on the list before.
pub proof fn revoking_is_final(
    mesh: &MeshConfig,
    entries: Seq<CrlEntry>,
    device_id: Seq<char>,
    reason: RevokeReason,
    now: u64,
)
    requires
        revoked_one(mesh.crl.entries@, entries, device_id, reason, now),
    ensures
        lists(entries, device_id),
        !is_member(mesh.members@.filter(other_than(device_id)), device_id),
        forall|other: Seq<char>| lists(mesh.crl.entries@, other) ==> lists(entries, other),
{
    assert(entries[entries.len() - 1].device_id@ == device_id);
    lemma_filter_members(mesh.members@, other_than(device_id));
    let kept = mesh.members@.filter(other_than(device_id));
    assert forall|i: int| 0 <= i < kept.len() implies (#[trigger] kept[i]).device_id@
        != device_id by {
        assert(other_than(device_id)(kept[i]));
    }
    assert forall|other: Seq<char>| lists(mesh.crl.entries@, other) implies lists(
        entries,
        other,
    ) by {
        let k = choose|k: int|
            0 <= k < mesh.crl.entries@.len() && (#[trigger] mesh.crl.entries@[k]).device_id@
                == other;
        assert(entries.drop_last()[k] == entries[k]);
        assert(entries[k].device_id@ == other);
    }
}

/// The letters and digits of an ASCII text, in upper case.
pub open spec fn essence(code: Seq<char>) -> Seq<char> {
    code.filter(|c: char| is_alphanumeric(c)).map_values(|c: char| ascii_upper(c))
}

proof fn lemma_upper_then_filter(s: Seq<char>)
    requires
        is_ascii_chars(s),
    ensures
        raised(s).filter(|c: char| is_alphanumeric(c)) == essence(s),
    decreases s.len(),
{
    reveal(Seq::filter);
    let p = |c: char| is_alphanumeric(c);
    let u = |c: char| ascii_upper(c);
    if s.len() == 0 {
        assert(s.map_values(u).filter(p) =~= s.filter(p).map_values(u));
    } else {
        let front = s.drop_last();
        assert(is_ascii_chars(front)) by {
            assert forall|i: int| 0 <= i < front.len() implies '\0' <= #[trigger] front[i]
                <= '\u{7f}' by {
                assert(front[i] == s[i]);
            }
        }
        lemma_upper_then_filter(front);
        assert(s.map_values(u).drop_last() =~= front.map_values(u));
        assert(s.map_values(u).last() == ascii_upper(s.last()));
        assert(is_alphanumeric(ascii_upper(s.last())) == is_alphanumeric(s.last()));
        assert(s.map_values(u).filter(p) =~= s.filter(p).map_values(u));
    }
}

proof fn lemma_essence_of_trimmed(s: Seq<char>)
    requires
        is_ascii_chars(s),
    ensures
        essence(trimmed(s)) == essence(s),
        is_ascii_chars(trimmed(s)),
    decreases s.len(),
{
    let p = |c: char| is_alphanumeric(c);
    if s.len() == 0 {
    } else if is_space(s[0]) {
        let rest = s.skip(1);
        assert forall|i: int| 0 <= i < rest.len() implies '\0' <= #[trigger] rest[i]
            <= '\u{7f}' by {
            assert(rest[i] == s[i + 1]);
        }
        lemma_essence_of_trimmed(rest);
        assert(!is_alphanumeric(s[0]));
        lemma_filter_drop_first(s, p);
    } else if is_space(s.last()) {
        let rest = s.drop_last();
        assert forall|i: int| 0 <= i < rest.len() implies '\0' <= #[trigger] rest[i]
            <= '\u{7f}' by {
            assert(rest[i] == s[i]);
        }
        lemma_essence_of_trimmed(rest);
        assert(!is_alphanumeric(s.last()));
        reveal(Seq::filter);
    }
}

proof fn lemma_filter_drop_first(s: Seq<char>, p: spec_fn(char) -> bool)
    requires
        s.len() > 0,
        !p(s[0]),
    ensures
        s.skip(1).filter(p) == s.filter(p),
    decreases s.len(),
{
    reveal(Seq::filter);
    if s.len() == 1 {
        assert(s.drop_last() =~= Seq::<char>::empty());
        assert(s.skip(1) =~= Seq::<char>::empty());
    } else {
        lemma_filter_drop_first(s.drop_last(), p);
        assert(s.skip(1).drop_last() =~= s.drop_last().skip(1));
    }
}

/// Case and separators in a code do not matter: two ASCII codes with the same
/// letters and digits are the same code.
pub proof fn case_and_separators_do_not_matter(a: Seq<char>, b: Seq<char>)
    requires
        is_ascii_chars(a),
        is_ascii_chars(b),
        essence(a) == essence(b),
    ensures
        code_digest(a) == code_digest(b),
{
    lemma_essence_of_trimmed(a);
    lemma_essence_of_trimmed(b);
    lemma_upper_then_filter(trimmed(a));
    lemma_upper_then_filter(trimmed(b));
}

/// What became of checking a mesh against its root.
pub open spec fn integrity_verified(
    root: Result<(), String>,
    crl: Result<(), String>,
    certs: Seq<Result<(), String>>,
    r: Result<(), String>,
) -> bool {
    match r {
        Ok(_) => {
            &&& root is Ok && crl is Ok
            &&& forall|i: int| 0 <= i < certs.len() ==> (#[trigger] certs[i]) is Ok
        },
        Err(e) => {
            ||| root == Err::<(), String>(e)
            ||| root is Ok && crl == Err::<(), String>(e)
            ||| root is Ok && crl is Ok && exists|i: int|
                {
                    &&& 0 <= i < certs.len()
                    &&& #[trigger] certs[i] == Err::<(), String>(e)
                    &&& forall|j: int| 0 <= j < i ==> (#[trigger] certs[j]) is Ok
                }
        },
    }
}

/// What became of looking a member up by its key.
pub open spec fn found_by_key(mesh: &MeshConfig, ik_x: Seq<char>, r: Option<&MemberEntry>) -> bool {
    match r {
        Some(m) => exists|i: int|
            #[trigger] key_at(mesh, ik_x, i) && *m == mesh.members@[i],
        None => forall|j: int|
            0 <= j < mesh.members@.len() ==> !has_key(mesh, ik_x, j),
    }
}

/// A mesh is sound only where its root, its list of revocations and every certificate in it
/// hold; one that does not is enough to refuse it.
pub proof fn every_signature_counts(
    root: Result<(), String>,
    crl: Result<(), String>,
    certs: Seq<Result<(), String>>,
    r: Result<(), String>,
)
    requires
        integrity_verified(root, crl, certs, r),
    ensures
        r is Ok <==> !(root is Err || crl is Err || exists|i: int|
            0 <= i < certs.len() && (#[trigger] certs[i]) is Err),
        root is Err ==> r->Err_0 == root->Err_0,
{
    if r is Ok {
        assert forall|i: int| 0 <= i < certs.len() implies !((#[trigger] certs[i]) is Err) by {}
    }
}

/// A member that is not revoked is found by its key, and no other member is.
pub proof fn members_are_found_by_their_keys(
    mesh: &MeshConfig,
    ik_x: Seq<char>,
    r: Option<&MemberEntry>,
    m: int,
)
    requires
        found_by_key(mesh, ik_x, r),
        0 <= m < mesh.members@.len(),
    ensures
        mesh.members@[m].cert.ik_x@ == ik_x && (forall|e: int|
            0 <= e < mesh.crl.entries@.len() ==> (#[trigger] mesh.crl.entries@[e]).device_id@
                != mesh.members@[m].device_id@) ==> r is Some,
        r is Some ==> r->0.cert.ik_x@ == ik_x && mesh.members@.contains(*r->0) && forall|e: int|
            0 <= e < mesh.crl.entries@.len() ==> (#[trigger] mesh.crl.entries@[e]).device_id@
                != r->0.device_id@,
{
    if r is None {
        assert(!has_key(mesh, ik_x, m));
    }
}

} // verus!
