//! Certificates, revocation lists and key pairs, as plain values. Signatures are
//! made and checked by the program around the library.
use vstd::prelude::*;
use vstd::string::*;
use crate::outside::{base64_decode, base64_decoded};
use crate::table::RawKey;
use crate::text::{same, trim, trimmed};

verus! {

/// A device certificate: it ties a device's two public keys to a virtual address.
#[derive(Debug, Clone)]
pub struct DeviceCert {
    pub mesh_id: String,
    pub serial: u32,
    pub device_id: String,
    /// The X25519 public key in base64.
    pub ik_x: String,
    /// The Ed25519 public key in base64.
    pub ik_s_pub: String,
    pub allowed_ip: String,
    pub valid_from: u64,
    pub not_after: u64,
    /// The signature of the mesh root, once there is one.
    pub signature: Option<String>,
}

/// A copy of an optional text.
pub fn copy_text(s: &Option<String>) -> (r: Option<String>)
    ensures
        r == *s,
{
    match s {
        Some(t) => Some(t.clone()),
        None => None,
    }
}

impl DeviceCert {
    pub fn copy(&self) -> (r: Self)
        ensures
            r == *self,
    {
        DeviceCert {
            mesh_id: self.mesh_id.clone(),
            serial: self.serial,
            device_id: self.device_id.clone(),
            ik_x: self.ik_x.clone(),
            ik_s_pub: self.ik_s_pub.clone(),
            allowed_ip: self.allowed_ip.clone(),
            valid_from: self.valid_from,
            not_after: self.not_after,
            signature: copy_text(&self.signature),
        }
    }

    /// Whether the certificate is valid at an instant, in seconds.
    pub open spec fn covers(&self, now: u64) -> bool {
        self.valid_from <= now <= self.not_after
    }

    pub fn is_current(&self, now: u64) -> (r: bool)
        ensures
            r == self.covers(now),
    {
        self.valid_from <= now && now <= self.not_after
    }
}

/// Why a device was revoked.
#[derive(Debug, Clone, Copy, PartialEq, Eq, Structural)]
pub enum RevokeReason {
    Compromised,
    Leaked,
    Rotated,
    Admin,
    Discontinued,
}

impl RevokeReason {
    /// The word for a reason.
    pub open spec fn word(&self) -> Seq<char> {
        match self {
            RevokeReason::Compromised => "compromised"@,
            RevokeReason::Leaked => "leaked"@,
            RevokeReason::Rotated => "rotated"@,
            RevokeReason::Admin => "admin"@,
            RevokeReason::Discontinued => "discontinued"@,
        }
    }

    pub fn as_str(&self) -> (r: &'static str)
        ensures
            r@ == self.word(),
    {
        match self {
            RevokeReason::Compromised => "compromised",
            RevokeReason::Leaked => "leaked",
            RevokeReason::Rotated => "rotated",
            RevokeReason::Admin => "admin",
            RevokeReason::Discontinued => "discontinued",
        }
    }

    /// The reason that a word stands for.
    pub fn from_word(word: &str) -> (r: Option<Self>)
        ensures
            match r {
                Some(x) => x.word() == word@,
                None => forall|x: Self| (#[trigger] x.word()) != word@,
            },
    {
        if same(word, "compromised") {
            Some(RevokeReason::Compromised)
        } else if same(word, "leaked") {
            Some(RevokeReason::Leaked)
        } else if same(word, "rotated") {
            Some(RevokeReason::Rotated)
        } else if same(word, "admin") {
            Some(RevokeReason::Admin)
        } else if same(word, "discontinued") {
            Some(RevokeReason::Discontinued)
        } else {
            None
        }
    }
}

/// Different reasons have different words.
pub proof fn words_tell_reasons_apart(a: RevokeReason, b: RevokeReason)
    requires
        a.word() == b.word(),
    ensures
        a == b,
{
    reveal_strlit("compromised");
    reveal_strlit("leaked");
    reveal_strlit("rotated");
    reveal_strlit("admin");
    reveal_strlit("discontinued");
    assert("compromised"@[0] == 'c' && "leaked"@[0] == 'l' && "rotated"@[0] == 'r');
    assert("admin"@[0] == 'a' && "discontinued"@[0] == 'd');
}

/// A revoked device.
#[derive(Debug, Clone)]
pub struct CrlEntry {
    pub device_id: String,
    pub reason: RevokeReason,
    pub revoked_at: u64,
    pub replacement: Option<String>,
}

/// The list of revoked devices. Its version grows with every revocation.
#[derive(Debug, Clone)]
pub struct Crl {
    pub mesh_id: String,
    pub version: u64,
    pub entries: Vec<CrlEntry>,
    /// The signature of the mesh root, once there is one.
    pub signature: Option<String>,
}

/// Whether a list of revocations names a device.
pub open spec fn lists(entries: Seq<CrlEntry>, device_id: Seq<char>) -> bool {
    exists|i: int| 0 <= i < entries.len() && (#[trigger] entries[i]).device_id@ == device_id
}

impl Crl {
    /// Whether a device is revoked.
    pub fn is_revoked(&self, device_id: &str) -> (r: bool)
        ensures
            r == lists(self.entries@, device_id@),
    {
        let mut i: usize = 0;
        while i < self.entries.len()
            invariant
                i <= self.entries@.len(),
                forall|j: int| 0 <= j < i ==> (#[trigger] self.entries@[j]).device_id@ != device_id@,
            decreases self.entries@.len() - i,
        {
            if same(self.entries[i].device_id.as_str(), device_id) {
                return true;
            }
            i = i + 1;
        }
        false
    }

    pub fn copy(&self) -> (r: Self)
        ensures
            r.mesh_id == self.mesh_id,
            r.version == self.version,
            r.entries@ == self.entries@,
            r.signature == self.signature,
    {
        let mut entries: Vec<CrlEntry> = Vec::new();
        let mut i: usize = 0;
        while i < self.entries.len()
            invariant
                i <= self.entries@.len(),
                entries@ == self.entries@.take(i as int),
            decreases self.entries@.len() - i,
        {
            let e = &self.entries[i];
            entries.push(
                CrlEntry {
                    device_id: e.device_id.clone(),
                    reason: e.reason,
                    revoked_at: e.revoked_at,
                    replacement: copy_text(&e.replacement),
                },
            );
            assert(entries@ =~= self.entries@.take(i + 1));
            i = i + 1;
        }
        assert(entries@ =~= self.entries@);
        Crl {
            mesh_id: self.mesh_id.clone(),
            version: self.version,
            entries,
            signature: copy_text(&self.signature),
        }
    }
}

/// What a server says of itself: the mesh that it serves and its public keys.
#[derive(Debug, Clone)]
pub struct ServerInfo {
    pub mesh_id: String,
    pub server_name: String,
    pub mesh_root_pub: String,
    pub server_ik_x: String,
    pub server_ik_s_pub: String,
    pub protocol_ver: u8,
    pub crl_version: u64,
    pub auth_required: bool,
    pub signature: Option<String>,
}

/// An X25519 key pair.
#[derive(Debug, Clone, Copy)]
pub struct KeyPair {
    pub public: RawKey,
    pub private: RawKey,
}

/// An Ed25519 key pair in base64.
#[derive(Debug, Clone)]
pub struct SignKeyPair {
    pub public: String,
    pub private: String,
}

impl SignKeyPair {
    pub fn copy(&self) -> (r: Self)
        ensures
            r == *self,
    {
        SignKeyPair { public: self.public.clone(), private: self.private.clone() }
    }
}

/// The 32 bytes that a private key in base64 stands for, or what is wrong with it.
pub open spec fn seed_bytes(
    private: Seq<char>,
    not_base64: Seq<char>,
    wrong_length: Seq<char>,
) -> Result<Seq<u8>, Seq<char>> {
    match base64_decoded(trimmed(private)) {
        Ok(b) => if b.len() == 32 {
            Ok(b)
        } else {
            Err(wrong_length)
        },
        Err(e) => Err(not_base64 + e),
    }
}

/// Reads a private key in base64. The two texts say what is wrong with one that is
/// not base64, or not 32 bytes long.
pub fn decode_seed(private: &str, not_base64: &str, wrong_length: &str) -> (r: Result<
    RawKey,
    String,
>)
    ensures
        match r {
            Ok(k) => seed_bytes(private@, not_base64@, wrong_length@) == Ok::<
                Seq<u8>,
                Seq<char>,
            >(k@),
            Err(e) => seed_bytes(private@, not_base64@, wrong_length@) == Err::<
                Seq<u8>,
                Seq<char>,
            >(e@),
        },
{
    match base64_decode(trim(private)) {
        Ok(b) => match raw_key(b.as_slice()) {
            Some(k) => Ok(k),
            None => Err(wrong_length.to_owned()),
        },
        Err(e) => {
            let mut m = not_base64.to_owned();
            m.append(e.as_str());
            Err(m)
        },
    }
}

/// The raw key of 32 bytes.
pub fn raw_key(b: &[u8]) -> (r: Option<RawKey>)
    ensures
        r is Some <==> b@.len() == 32,
        r matches Some(k) ==> k@ == b@,
{
    if b.len() != 32 {
        return None;
    }
    let mut k: RawKey = [0u8; 32];
    let mut i: usize = 0;
    while i < 32
        invariant
            i <= 32,
            b@.len() == 32,
            k@.len() == 32,
            forall|j: int| 0 <= j < i ==> k@[j] == b@[j],
        decreases 32 - i,
    {
        k[i] = b[i];
        i = i + 1;
    }
    assert(k@ =~= b@);
    Some(k)
}

} // verus!
