//! The routes: which device has which virtual address, where it is, and by which
//! key a relay addresses it.
//!
//! Instants are seconds since the Unix epoch.
use vstd::prelude::*;
use vstd::string::*;
use crate::cert::copy_text;
use crate::client::peer::{
    key_above, key_greater, lemma_key_above_total, lemma_key_above_transitive,
};
use crate::table::{same_raw_key, RawKey, Table};
use crate::text::same;

verus! {

/// A device that is reachable.
#[derive(Debug, Clone)]
pub struct RouteEntry {
    pub public_key: RawKey,
    pub ip: String,
    /// Address and port, as text.
    pub endpoint: String,
    pub last_seen: u64,
    /// The key by which a relay addresses the device, in base64.
    pub relay_rk: Option<String>,
    pub room: String,
    /// The name that the device gave itself.
    pub alias: Option<String>,
}

impl RouteEntry {
    pub fn copy(&self) -> (r: Self)
        ensures
            r == *self,
    {
        RouteEntry {
            public_key: self.public_key,
            ip: self.ip.clone(),
            endpoint: self.endpoint.clone(),
            last_seen: self.last_seen,
            relay_rk: copy_text(&self.relay_rk),
            room: self.room.clone(),
            alias: copy_text(&self.alias),
        }
    }
}

pub struct RouteTable {
    by_key: Table<RawKey, RouteEntry>,
    by_ip: Table<String, RawKey>,
    by_rk: Table<String, RawKey>,
}

/// The characters of an optional text.
pub open spec fn opt_chars(s: Option<String>) -> Option<Seq<char>> {
    match s {
        Some(t) => Some(t@),
        None => None,
    }
}

/// Relay keys after a device gave its relay key up. A key that is bound to another
/// device stays bound.
pub open spec fn rk_released(
    by_rk: Map<Seq<char>, RawKey>,
    key: RawKey,
    rk: Option<Seq<char>>,
) -> Map<Seq<char>, RawKey> {
    if rk is Some && by_rk.dom().contains(rk->0) && by_rk[rk->0] == key {
        by_rk.remove(rk->0)
    } else {
        by_rk
    }
}

/// Relay keys after a device claimed one. A key that is bound to another device
/// stays bound to it.
pub open spec fn rk_claimed(
    by_rk: Map<Seq<char>, RawKey>,
    key: RawKey,
    rk: Option<Seq<char>>,
) -> Map<Seq<char>, RawKey> {
    if rk is Some && (!by_rk.dom().contains(rk->0) || by_rk[rk->0] == key) {
        by_rk.insert(rk->0, key)
    } else {
        by_rk
    }
}

/// Addresses after a device gave its address up.
pub open spec fn ip_released(
    by_ip: Map<Seq<char>, RawKey>,
    before: Option<RouteEntry>,
    ip: Seq<char>,
) -> Map<Seq<char>, RawKey> {
    if before is Some && (before->0.ip@ != ip || ip.len() == 0) {
        by_ip.remove(before->0.ip@)
    } else {
        by_ip
    }
}

/// The entry of a device.
pub open spec fn entry_of(by_key: Map<RawKey, RouteEntry>, key: RawKey) -> Option<RouteEntry> {
    if by_key.dom().contains(key) {
        Some(by_key[key])
    } else {
        None
    }
}

/// The relay key of an optional entry.
pub open spec fn rk_of(e: Option<RouteEntry>) -> Option<Seq<char>> {
    match e {
        Some(e) => opt_chars(e.relay_rk),
        None => None,
    }
}

/// Devices after one more has come, or one has changed. A device whose address it
/// took over is dropped.
pub open spec fn keys_after(
    by_key: Map<RawKey, RouteEntry>,
    by_ip: Map<Seq<char>, RawKey>,
    entry: RouteEntry,
) -> Map<RawKey, RouteEntry> {
    let kept = if entry.ip@.len() > 0 && by_ip.dom().contains(entry.ip@) && by_ip[entry.ip@]
        != entry.public_key {
        by_key.remove(by_ip[entry.ip@])
    } else {
        by_key
    };
    kept.insert(entry.public_key, entry)
}

/// A table before and after the entry of a device was taken in.
pub open spec fn upserted(before: RouteTable, entry: RouteEntry, after: RouteTable) -> bool {
    let last = entry_of(before.entries(), entry.public_key);
    let free = ip_released(before.addresses(), last, entry.ip@);
    &&& after.entries() == keys_after(before.entries(), free, entry)
    &&& after.addresses() == (if entry.ip@.len() > 0 {
        free.insert(entry.ip@, entry.public_key)
    } else {
        free
    })
    &&& after.relay_keys() == rk_claimed(
        rk_released(before.relay_keys(), entry.public_key, rk_of(last)),
        entry.public_key,
        opt_chars(entry.relay_rk),
    )
}

impl RouteTable {
    /// The entries by public key.
    pub closed spec fn entries(&self) -> Map<RawKey, RouteEntry> {
        self.by_key@
    }

    /// The public keys by virtual address.
    pub closed spec fn addresses(&self) -> Map<Seq<char>, RawKey> {
        self.by_ip@
    }

    /// The public keys by relay key.
    pub closed spec fn relay_keys(&self) -> Map<Seq<char>, RawKey> {
        self.by_rk@
    }

    /// Every address leads to the entry that has it, and every entry with an
    /// address is found by it.
    pub closed spec fn wf(&self) -> bool {
        &&& self.by_key.wf()
        &&& self.by_ip.wf()
        &&& self.by_rk.wf()
        &&& forall|k: RawKey|
            #![trigger self.by_key@[k]]
            self.by_key@.dom().contains(k) ==> {
                &&& self.by_key@[k].public_key == k
                &&& self.by_key@[k].ip@.len() > 0 ==> self.by_ip@.dom().contains(
                    self.by_key@[k].ip@,
                ) && self.by_ip@[self.by_key@[k].ip@] == k
            }
        &&& forall|ip: Seq<char>|
            #![trigger self.by_ip@[ip]]
            self.by_ip@.dom().contains(ip) ==> {
                &&& ip.len() > 0
                &&& self.by_key@.dom().contains(self.by_ip@[ip])
                &&& self.by_key@[self.by_ip@[ip]].ip@ == ip
            }
    }

    /// The indices of every table agree: an entry with an address is found by it, and what
    /// is found by an address has that address.
    pub proof fn the_indices_agree(&self)
        requires
            self.wf(),
        ensures
            self.entries().dom().finite(),
            forall|k: RawKey|
                #![trigger self.entries()[k]]
                self.entries().dom().contains(k) ==> {
                    &&& self.entries()[k].public_key == k
                    &&& self.entries()[k].ip@.len() > 0 ==> self.addresses().dom().contains(
                        self.entries()[k].ip@,
                    ) && self.addresses()[self.entries()[k].ip@] == k
                },
            forall|ip: Seq<char>|
                #![trigger self.addresses()[ip]]
                self.addresses().dom().contains(ip) ==> {
                    &&& ip.len() > 0
                    &&& self.entries().dom().contains(self.addresses()[ip])
                    &&& self.entries()[self.addresses()[ip]].ip@ == ip
                },
    {
        self.by_key.lemma_dom();
    }

    pub fn new() -> (r: Self)
        ensures
            r.wf(),
            r.entries() == Map::<RawKey, RouteEntry>::empty(),
            r.addresses() == Map::<Seq<char>, RawKey>::empty(),
            r.relay_keys() == Map::<Seq<char>, RawKey>::empty(),
    {
        RouteTable { by_key: Table::new(), by_ip: Table::new(), by_rk: Table::new() }
    }

    /// Gives up the relay key of a device, unless it is bound to another one.
    fn release_rk(&mut self, key: &RawKey, rk: &Option<String>)
        requires
            old(self).by_rk.wf(),
        ensures
            final(self).by_rk.wf(),
            final(self).by_key == old(self).by_key,
            final(self).by_ip == old(self).by_ip,
            final(self).by_rk@ == rk_released(old(self).by_rk@, *key, opt_chars(*rk)),
    {
        if let Some(t) = rk {
            let mine = match self.by_rk.get(t) {
                Some(k) => same_raw_key(k, key),
                None => false,
            };
            if mine {
                self.by_rk.remove(t);
            }
        }
    }

    /// Binds a relay key to a device, unless it is bound to another one.
    fn claim_rk(&mut self, key: &RawKey, rk: &Option<String>)
        requires
            old(self).by_rk.wf(),
        ensures
            final(self).by_rk.wf(),
            final(self).by_key == old(self).by_key,
            final(self).by_ip == old(self).by_ip,
            final(self).by_rk@ == rk_claimed(old(self).by_rk@, *key, opt_chars(*rk)),
    {
        if let Some(t) = rk {
            let foreign = match self.by_rk.get(t) {
                Some(k) => !same_raw_key(k, key),
                None => false,
            };
            if !foreign {
                self.by_rk.insert(t.clone(), *key);
            }
        }
    }

    /// Takes in the entry of a device, in place of the one it had.
    pub fn upsert(&mut self, entry: RouteEntry)
        requires
            old(self).wf(),
        ensures
            final(self).wf(),
            upserted(*old(self), entry, *final(self)),
    {
        let key: RawKey = entry.public_key;
        let ghost before = entry_of(self.by_key@, key);
        let old_parts: Option<(String, Option<String>)> = match self.by_key.get(&key) {
            Some(o) => Some((o.ip.clone(), copy_text(&o.relay_rk))),
            None => None,
        };
        if let Some((old_ip, old_rk)) = &old_parts {
            if !same(old_ip.as_str(), entry.ip.as_str()) || entry.ip.as_str().is_empty() {
                self.by_ip.remove(old_ip);
            }
            self.release_rk(&key, old_rk);
        }
        let ghost free = self.by_ip@;
        assert(free == ip_released(old(self).by_ip@, before, entry.ip@));
        if !entry.ip.as_str().is_empty() {
            let other: Option<RawKey> = match self.by_ip.get(&entry.ip) {
                Some(k) => if same_raw_key(k, &key) {
                    None
                } else {
                    Some(*k)
                },
                None => None,
            };
            self.by_ip.insert(entry.ip.clone(), key);
            if let Some(k) = other {
                self.by_key.remove(&k);
            }
        }
        self.claim_rk(&key, &entry.relay_rk);
        self.by_key.insert(key, entry);
    }

    pub fn get(&self, key: &RawKey) -> (r: Option<&RouteEntry>)
        requires
            self.wf(),
        ensures
            match r {
                Some(e) => entry_of(self.entries(), *key) == Some(*e),
                None => entry_of(self.entries(), *key) is None,
            },
    {
        self.by_key.get(key)
    }

    /// The entry with a virtual address.
    pub open spec fn at_ip(&self, ip: Seq<char>) -> Option<RouteEntry> {
        if self.addresses().dom().contains(ip) {
            entry_of(self.entries(), self.addresses()[ip])
        } else {
            None
        }
    }

    /// The entry with a relay key.
    pub open spec fn at_rk(&self, rk: Seq<char>) -> Option<RouteEntry> {
        if self.relay_keys().dom().contains(rk) {
            entry_of(self.entries(), self.relay_keys()[rk])
        } else {
            None
        }
    }

    pub fn get_by_ip(&self, ip: &str) -> (r: Option<&RouteEntry>)
        requires
            self.wf(),
        ensures
            match r {
                Some(e) => self.at_ip(ip@) == Some(*e),
                None => self.at_ip(ip@) is None,
            },
    {
        match self.by_ip.get(&ip.to_owned()) {
            Some(k) => self.by_key.get(k),
            None => None,
        }
    }

    pub fn get_by_rk(&self, rk: &str) -> (r: Option<&RouteEntry>)
        requires
            self.wf(),
        ensures
            match r {
                Some(e) => self.at_rk(rk@) == Some(*e),
                None => self.at_rk(rk@) is None,
            },
    {
        match self.by_rk.get(&rk.to_owned()) {
            Some(k) => self.by_key.get(k),
            None => None,
        }
    }

    /// Takes out the entry of a device.
    pub fn remove(&mut self, key: &RawKey)
        requires
            old(self).wf(),
        ensures
            final(self).wf(),
            final(self).entries() == old(self).entries().remove(*key),
            final(self).addresses() == (match entry_of(old(self).entries(), *key) {
                Some(e) => old(self).addresses().remove(e.ip@),
                None => old(self).addresses(),
            }),
            final(self).relay_keys() == rk_released(
                old(self).relay_keys(),
                *key,
                rk_of(entry_of(old(self).entries(), *key)),
            ),
    {
        match self.by_key.remove(key) {
            Some(e) => {
                self.by_ip.remove(&e.ip);
                self.release_rk(key, &e.relay_rk);
            },
            None => {},
        }
    }

    pub fn len(&self) -> (r: usize)
        requires
            self.wf(),
        ensures
            r == self.entries().dom().len(),
    {
        self.by_key.len()
    }

    pub fn is_empty(&self) -> (r: bool)
        requires
            self.wf(),
        ensures
            r == (self.entries().dom().len() == 0),
    {
        self.by_key.len() == 0
    }
}

/// Whether an entry has not been refreshed for longer than `ttl`.
pub open spec fn is_expired(e: RouteEntry, now: u64, ttl: u64) -> bool {
    now > e.last_seen && now - e.last_seen > ttl
}

/// The devices whose entries are expired.
pub open spec fn expired_keys(entries: Map<RawKey, RouteEntry>, now: u64, ttl: u64) -> Set<RawKey> {
    Set::new(|k: RawKey| entries.dom().contains(k) && is_expired(entries[k], now, ttl))
}

/// Addresses, or relay keys, that belong to one of some devices.
pub open spec fn bound_to(m: Map<Seq<char>, RawKey>, keys: Set<RawKey>) -> Set<Seq<char>> {
    Set::new(|x: Seq<char>| m.dom().contains(x) && keys.contains(m[x]))
}

/// Relay keys that one of some devices holds as its own.
pub open spec fn owned_rks(
    relay_keys: Map<Seq<char>, RawKey>,
    entries: Map<RawKey, RouteEntry>,
    keys: Set<RawKey>,
) -> Set<Seq<char>> {
    Set::new(
        |x: Seq<char>|
            relay_keys.dom().contains(x) && keys.contains(relay_keys[x]) && entries.dom().contains(
                relay_keys[x],
            ) && opt_chars(entries[relay_keys[x]].relay_rk) == Some(x),
    )
}

/// A table before and after the entries of some devices were taken out.
pub open spec fn dropped(before: RouteTable, gone: Set<RawKey>, after: RouteTable) -> bool {
    &&& after.entries() == before.entries().remove_keys(gone)
    &&& after.addresses() == before.addresses().remove_keys(bound_to(before.addresses(), gone))
    &&& after.relay_keys() == before.relay_keys().remove_keys(
        owned_rks(before.relay_keys(), before.entries(), gone),
    )
}

impl RouteTable {
    /// All entries in the order of their public keys.
    pub fn snapshot(&self) -> (r: Vec<RouteEntry>)
        requires
            self.wf(),
        ensures
            r@.len() == self.entries().dom().len(),
            forall|i: int|
                0 <= i < r@.len() ==> entry_of(
                    self.entries(),
                    (#[trigger] r@[i]).public_key,
                ) == Some(r@[i]),
            forall|k: RawKey|
                self.entries().dom().contains(k) ==> exists|i: int|
                    0 <= i < r@.len() && (#[trigger] r@[i]).public_key == k,
            forall|i: int, j: int|
                0 <= i < j < r@.len() ==> key_above(r@[j].public_key, r@[i].public_key),
    {
        let mut out: Vec<RouteEntry> = Vec::new();
        let n: usize = self.by_key.len();
        let mut m: usize = 0;
        while m < n
            invariant
                self.wf(),
                n == self.by_key.ids().len(),
                m <= n,
                out@.len() == m,
                forall|i: int|
                    0 <= i < out@.len() ==> entry_of(
                        self.by_key@,
                        (#[trigger] out@[i]).public_key,
                    ) == Some(out@[i]) && self.by_key.ids().take(m as int).contains(
                        out@[i].public_key,
                    ),
                forall|x: int|
                    0 <= x < m ==> exists|i: int|
                        0 <= i < out@.len() && (#[trigger] out@[i]).public_key
                            == #[trigger] self.by_key.ids()[x],
                forall|i: int, j: int|
                    0 <= i < j < out@.len() ==> key_above(
                        out@[j].public_key,
                        out@[i].public_key,
                    ),
            decreases n - m,
        {
            let e = self.by_key.value_at(m).copy();
            let ghost before = out@;
            let ghost ids = self.by_key.ids();
            assert(e.public_key == ids[m as int]);
            let mut pos: usize = 0;
            while pos < out.len() && key_greater(&e.public_key, &out[pos].public_key)
                invariant
                    pos <= out@.len(),
                    out@ == before,
                    forall|i: int|
                        0 <= i < pos ==> key_above(
                            e.public_key,
                            (#[trigger] before[i]).public_key,
                        ),
                ensures
                    pos <= out@.len(),
                    out@ == before,
                    forall|i: int|
                        0 <= i < pos ==> key_above(
                            e.public_key,
                            (#[trigger] before[i]).public_key,
                        ),
                    pos < out@.len() ==> !key_above(e.public_key, before[pos as int].public_key),
                decreases out@.len() - pos,
            {
                pos = pos + 1;
            }
            proof {
                assert forall|i: int| pos <= i < before.len() implies key_above(
                    (#[trigger] before[i]).public_key,
                    e.public_key,
                ) by {
                    let b = before[i].public_key;
                    assert(ids.take(m as int).contains(b));
                    let x = choose|x: int| 0 <= x < m && ids.take(m as int)[x] == b;
                    assert(ids[x] == b && ids[x] != ids[m as int]);
                    let q = before[pos as int].public_key;
                    lemma_key_above_total(q, e.public_key);
                    if pos < i {
                        assert(key_above(b, q));
                        assert(ids.take(m as int).contains(q));
                        let y = choose|y: int| 0 <= y < m && ids.take(m as int)[y] == q;
                        assert(ids[y] == q && ids[y] != ids[m as int]);
                        lemma_key_above_transitive(b, q, e.public_key);
                    }
                }
            }
            out.insert(pos, e);
            proof {
                assert forall|i: int| 0 <= i < out@.len() implies entry_of(
                    self.by_key@,
                    (#[trigger] out@[i]).public_key,
                ) == Some(out@[i]) && ids.take(m + 1).contains(out@[i].public_key) by {
                    if i == pos {
                        assert(ids.take(m + 1)[m as int] == e.public_key);
                    } else {
                        let b = if i < pos { before[i] } else { before[i - 1] };
                        assert(out@[i] == b);
                        assert(ids.take(m as int).contains(b.public_key));
                        let x = choose|x: int|
                            0 <= x < m && ids.take(m as int)[x] == b.public_key;
                        assert(ids.take(m + 1)[x] == b.public_key);
                    }
                }
                assert forall|x: int| 0 <= x < m + 1 implies exists|i: int|
                    0 <= i < out@.len() && (#[trigger] out@[i]).public_key
                        == #[trigger] ids[x] by {
                    if x == m {
                        assert(out@[pos as int].public_key == ids[x]);
                    } else {
                        let i = choose|i: int|
                            0 <= i < before.len() && (#[trigger] before[i]).public_key == ids[x];
                        let i2 = if i < pos { i } else { i + 1 };
                        assert(out@[i2] == before[i]);
                    }
                }
                assert forall|i: int, j: int| 0 <= i < j < out@.len() implies key_above(
                    out@[j].public_key,
                    out@[i].public_key,
                ) by {
                    let oi = if i < pos { i } else { i - 1 };
                    let oj = if j < pos { j } else { j - 1 };
                    if i == pos {
                        assert(out@[j] == before[oj]);
                    } else if j == pos {
                        assert(out@[i] == before[oi]);
                    } else {
                        assert(out@[i] == before[oi] && out@[j] == before[oj]);
                    }
                }
            }
            m = m + 1;
        }
        proof {
            let ids = self.by_key.ids();
            self.by_key.lemma_dom();
            assert forall|k: RawKey| self.by_key@.dom().contains(k) implies exists|i: int|
                0 <= i < out@.len() && (#[trigger] out@[i]).public_key == k by {
                assert(ids.contains(k));
                let x = choose|x: int| 0 <= x < ids.len() && ids[x] == k;
                let i = choose|i: int|
                    0 <= i < out@.len() && (#[trigger] out@[i]).public_key == ids[x];
                assert(out@[i].public_key == k);
            }
        }
        out
    }

    /// Takes out the entries of some devices.
    pub fn remove_all(&mut self, keys: &Vec<RawKey>)
        requires
            old(self).wf(),
        ensures
            final(self).wf(),
            dropped(*old(self), keys@.to_set(), *final(self)),
    {
        let ghost all = self.by_key@;
        proof {
            assert(self.by_key@.remove_keys(keys@.take(0).to_set()) =~= self.by_key@);
            assert(self.by_ip@.remove_keys(bound_to(self.by_ip@, keys@.take(0).to_set()))
                =~= self.by_ip@);
            assert(self.by_rk@.remove_keys(
                owned_rks(self.by_rk@, self.by_key@, keys@.take(0).to_set()),
            ) =~= self.by_rk@);
        }
        let mut j: usize = 0;
        while j < keys.len()
            invariant
                self.wf(),
                old(self).wf(),
                j <= keys@.len(),
                all == old(self).by_key@,
                self.by_key@ == all.remove_keys(keys@.take(j as int).to_set()),
                self.by_ip@ == old(self).by_ip@.remove_keys(
                    bound_to(old(self).by_ip@, keys@.take(j as int).to_set()),
                ),
                self.by_rk@ == old(self).by_rk@.remove_keys(
                    owned_rks(old(self).by_rk@, all, keys@.take(j as int).to_set()),
                ),
            decreases keys@.len() - j,
        {
            let ghost done = keys@.take(j as int).to_set();
            let ghost next = keys@.take(j + 1).to_set();
            let ghost k = keys@[j as int];
            let ghost t0 = keys@.take(j as int);
            let ghost t1 = keys@.take(j + 1);
            proof {
                assert forall|x: RawKey| next.contains(x) == done.insert(k).contains(x) by {
                    if next.contains(x) {
                        assert(t1.contains(x));
                        let y = choose|y: int| 0 <= y < t1.len() && t1[y] == x;
                        if y < j {
                            assert(t0[y] == x);
                        }
                    }
                    if done.contains(x) {
                        assert(t0.contains(x));
                        let y = choose|y: int| 0 <= y < t0.len() && t0[y] == x;
                        assert(t1[y] == x);
                    }
                    assert(t1[j as int] == k);
                }
                assert(next =~= done.insert(k));
            }
            self.remove(&keys[j]);
            proof {
                assert(self.by_key@ =~= all.remove_keys(next));
                assert(self.by_ip@ =~= old(self).by_ip@.remove_keys(
                    bound_to(old(self).by_ip@, next),
                ));
                assert(self.by_rk@ =~= old(self).by_rk@.remove_keys(
                    owned_rks(old(self).by_rk@, all, next),
                ));
            }
            j = j + 1;
        }
        assert(keys@.take(keys@.len() as int) =~= keys@);
    }

    /// Takes out the entries that were not refreshed for longer than `ttl_sec`.
    pub fn cleanup(&mut self, now: u64, ttl_sec: u64)
        requires
            old(self).wf(),
        ensures
            final(self).wf(),
            dropped(
                *old(self),
                expired_keys(old(self).entries(), now, ttl_sec),
                *final(self),
            ),
    {
        let mut expired: Vec<RawKey> = Vec::new();
        let n: usize = self.by_key.len();
        let mut i: usize = 0;
        let ghost all = self.by_key@;
        let ghost ids = self.by_key.ids();
        let ghost gone = expired_keys(all, now, ttl_sec);
        while i < n
            invariant
                self.wf(),
                *self == *old(self),
                all == self.by_key@,
                ids == self.by_key.ids(),
                n == ids.len(),
                i <= n,
                gone == expired_keys(all, now, ttl_sec),
                forall|j: int| 0 <= j < expired@.len() ==> gone.contains(#[trigger] expired@[j]),
                forall|x: int|
                    0 <= x < i && gone.contains(#[trigger] ids[x]) ==> expired@.contains(ids[x]),
            decreases n - i,
        {
            let e = self.by_key.value_at(i);
            let stale = now > e.last_seen && now - e.last_seen > ttl_sec;
            let ghost before = expired@;
            if stale {
                expired.push(*self.by_key.key_at(i));
                proof {
                    assert(expired@[before.len() as int] == ids[i as int]);
                }
            }
            proof {
                assert forall|x: int|
                    0 <= x < i + 1 && gone.contains(#[trigger] ids[x]) implies expired@.contains(
                    ids[x],
                ) by {
                    if x < i {
                        assert(before.contains(ids[x]));
                        let j = choose|j: int| 0 <= j < before.len() && before[j] == ids[x];
                        assert(expired@[j] == ids[x]);
                    }
                }
            }
            i = i + 1;
        }
        proof {
            self.by_key.lemma_dom();
            assert forall|k: RawKey| gone.contains(k) implies expired@.contains(k) by {
                assert(ids.contains(k));
                let x = choose|x: int| 0 <= x < ids.len() && ids[x] == k;
                assert(gone.contains(ids[x]));
            }
        }
        self.remove_all(&expired);
        assert(expired@.to_set() =~= gone);
    }
}

/// The entry of a device in a room with a name, of which none has a smaller key.
pub open spec fn first_named(
    entries: Map<RawKey, RouteEntry>,
    name: Seq<char>,
    room: Seq<char>,
    k: RawKey,
) -> bool {
    &&& is_named(entries, name, room, k)
    &&& forall|j: RawKey| is_named(entries, name, room, j) ==> !key_above(k, j)
}

/// Whether a device in a room gave itself a name.
pub open spec fn is_named(
    entries: Map<RawKey, RouteEntry>,
    name: Seq<char>,
    room: Seq<char>,
    k: RawKey,
) -> bool {
    entries.dom().contains(k) && opt_chars(entries[k].alias) == Some(name) && entries[k].room@
        == room
}

/// The virtual address of the device in a room that gave itself a name. Of
/// several, the one with the smallest key counts.
pub open spec fn named_address(
    entries: Map<RawKey, RouteEntry>,
    name: Seq<char>,
    room: Seq<char>,
) -> Option<Seq<char>> {
    if exists|k: RawKey| first_named(entries, name, room, k) {
        Some(entries[choose|k: RawKey| first_named(entries, name, room, k)].ip@)
    } else {
        None
    }
}

impl RouteTable {
    /// The virtual address of the device in a room that gave itself a name. Of
    /// several, the one with the smallest key counts.
    pub fn named_ip(&self, name: &str, room: &str) -> (r: Option<String>)
        requires
            self.wf(),
        ensures
            match r {
                Some(ip) => named_address(self.entries(), name@, room@) == Some(ip@),
                None => named_address(self.entries(), name@, room@) is None,
            },
    {
        let all = self.snapshot();
        let mut i: usize = 0;
        while i < all.len()
            invariant
                i <= all@.len(),
                forall|j: int|
                    0 <= j < all@.len() ==> entry_of(
                        self.entries(),
                        (#[trigger] all@[j]).public_key,
                    ) == Some(all@[j]),
                forall|k: RawKey|
                    self.entries().dom().contains(k) ==> exists|j: int|
                        0 <= j < all@.len() && (#[trigger] all@[j]).public_key == k,
                forall|a: int, b: int|
                    0 <= a < b < all@.len() ==> key_above(all@[b].public_key, all@[a].public_key),
                forall|j: int|
                    0 <= j < i ==> !is_named(
                        self.entries(),
                        name@,
                        room@,
                        (#[trigger] all@[j]).public_key,
                    ),
            decreases all@.len() - i,
        {
            let named = match &all[i].alias {
                Some(a) => same(a.as_str(), name),
                None => false,
            };
            if named && same(all[i].room.as_str(), room) {
                proof {
                    let k = all@[i as int].public_key;
                    assert(is_named(self.entries(), name@, room@, k));
                    assert forall|j: RawKey| is_named(
                        self.entries(),
                        name@,
                        room@,
                        j,
                    ) implies !key_above(k, j) by {
                        let b = choose|b: int|
                            0 <= b < all@.len() && (#[trigger] all@[b]).public_key == j;
                        if b > i {
                            assert(key_above(all@[b].public_key, all@[i as int].public_key));
                        }
                        lemma_key_above_total(k, j);
                    }
                    assert(first_named(self.entries(), name@, room@, k));
                    let c = choose|c: RawKey| first_named(self.entries(), name@, room@, c);
                    lemma_key_above_total(k, c);
                }
                return Some(all[i].ip.clone());
            }
            i = i + 1;
        }
        proof {
            assert forall|k: RawKey| !is_named(self.entries(), name@, room@, k) by {
                if is_named(self.entries(), name@, room@, k) {
                    let b = choose|b: int|
                        0 <= b < all@.len() && (#[trigger] all@[b]).public_key == k;
                    assert(!is_named(self.entries(), name@, room@, all@[b].public_key));
                }
            }
        }
        None
    }
}

/// A relay key stays bound to the device that registered it first: whatever
/// another device registers, and whatever it had registered before, the binding
/// holds.
pub proof fn nobody_takes_over_a_relay_key(
    relay_keys: Map<Seq<char>, RawKey>,
    rk: Seq<char>,
    other: RawKey,
    other_before: Option<Seq<char>>,
    other_now: Option<Seq<char>>,
)
    requires
        relay_keys.dom().contains(rk),
        relay_keys[rk] != other,
    ensures
        rk_released(relay_keys, other, other_before).dom().contains(rk),
        rk_released(relay_keys, other, other_before)[rk] == relay_keys[rk],
        ({
            let after = rk_claimed(
                rk_released(relay_keys, other, other_before),
                other,
                other_now,
            );
            after.dom().contains(rk) && after[rk] == relay_keys[rk]
        }),
{
}

/// A device that has registered with an address is found by it.
pub proof fn a_registered_device_is_found(before: RouteTable, entry: RouteEntry, after: RouteTable)
    requires
        entry.ip@.len() > 0,
        upserted(before, entry, after),
    ensures
        entry_of(after.entries(), entry.public_key) == Some(entry),
        after.at_ip(entry.ip@) == Some(entry),
{
}

} // verus!
