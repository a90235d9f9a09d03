//! Sessions of authenticated devices.
//!
//! Instants are seconds since the Unix epoch.
use vstd::prelude::*;
use vstd::string::*;
use crate::table::{same_raw_key, RawKey, Table};
use crate::text::same;

verus! {

/// How many sessions one device may have.
pub const MAX_SESSIONS_PER_DEVICE: usize = 8;

/// How many sessions there may be.
pub const MAX_TOTAL_SESSIONS: usize = 4096;

/// A session of an authenticated device.
#[derive(Debug, Clone)]
pub struct SessionEntry {
    /// The device's ephemeral public key, by which its frames name the session.
    pub session_pub: RawKey,
    pub device_id: String,
    /// The device's X25519 public key.
    pub ik_x: RawKey,
    pub ip: String,
    /// The session key.
    pub sk: RawKey,
    /// The number of the last request.
    pub counter_rx: u64,
    pub last_seen: u64,
    pub room: String,
}

/// The public keys of the devices that have a session.
pub open spec fn active_keys(m: Map<RawKey, SessionEntry>) -> Set<RawKey> {
    Set::new(|x: RawKey| exists|k: RawKey| m.dom().contains(k) && (#[trigger] m[k]).ik_x == x)
}

/// The sessions of a device.
pub open spec fn device_sessions(m: Map<RawKey, SessionEntry>, device_id: Seq<char>) -> Set<RawKey> {
    Set::new(|k: RawKey| m.dom().contains(k) && m[k].device_id@ == device_id)
}

/// A session of a set that was not used for the longest time.
pub open spec fn is_oldest(m: Map<RawKey, SessionEntry>, among: Set<RawKey>, k: RawKey) -> bool {
    among.contains(k) && forall|j: RawKey| among.contains(j) ==> m[k].last_seen <= (#[trigger] m[j]).last_seen
}

/// Sessions after one of the oldest of a set had to make room, where the set has
/// reached its limit.
pub open spec fn made_room(
    before: Map<RawKey, SessionEntry>,
    among: Set<RawKey>,
    limit: usize,
    after: Map<RawKey, SessionEntry>,
) -> bool {
    if among.len() >= limit {
        exists|k: RawKey| #[trigger] is_oldest(before, among, k) && after == before.remove(k)
    } else {
        after == before
    }
}

/// Sessions after a device was authenticated.
pub open spec fn registered(
    before: Map<RawKey, SessionEntry>,
    entry: SessionEntry,
    after: Map<RawKey, SessionEntry>,
) -> bool {
    exists|m1: Map<RawKey, SessionEntry>, m2: Map<RawKey, SessionEntry>|
        {
            &&& #[trigger] made_room(before, before.dom(), MAX_TOTAL_SESSIONS, m1)
            &&& #[trigger] made_room(
                m1,
                device_sessions(m1, entry.device_id@),
                MAX_SESSIONS_PER_DEVICE,
                m2,
            )
            &&& after == m2.insert(entry.session_pub, entry)
        }
}

/// Sessions after request number `seq` of one of them was accepted.
pub open spec fn advanced(m: Map<RawKey, SessionEntry>, session: RawKey, seq: u64, now: u64) -> Map<
    RawKey,
    SessionEntry,
> {
    if m.dom().contains(session) {
        m.insert(session, SessionEntry { counter_rx: seq, last_seen: now, ..m[session] })
    } else {
        m
    }
}

pub struct Sessions {
    by_pub: Table<RawKey, SessionEntry>,
    active: Table<RawKey, ()>,
}

impl Sessions {
    pub closed spec fn view(&self) -> Map<RawKey, SessionEntry> {
        self.by_pub@
    }

    /// The index of active devices agrees with the sessions, no session stands
    /// under another's key, and neither the total nor the number of sessions of any
    /// device exceeds its limit.
    pub closed spec fn wf(&self) -> bool {
        &&& self.by_pub.wf()
        &&& self.active.wf()
        &&& self.active@.dom() == active_keys(self.by_pub@)
        &&& self.by_pub@.dom().len() <= MAX_TOTAL_SESSIONS
        &&& forall|id: Seq<char>|
            (#[trigger] device_sessions(self.by_pub@, id)).len() <= MAX_SESSIONS_PER_DEVICE
        &&& forall|k: RawKey|
            self.by_pub@.dom().contains(k) ==> (#[trigger] self.by_pub@[k]).session_pub == k
    }

    /// The limits on the number of sessions hold at all times.
    pub proof fn the_limits_hold(&self)
        requires
            self.wf(),
        ensures
            self@.dom().finite(),
            self@.dom().len() <= 4096,
            forall|id: Seq<char>| (#[trigger] device_sessions(self@, id)).len() <= 8,
            forall|k: RawKey| self@.dom().contains(k) ==> (#[trigger] self@[k]).session_pub == k,
    {
        self.by_pub.lemma_dom();
    }

    pub fn new() -> (r: Self)
        ensures
            r.wf(),
            r@ == Map::<RawKey, SessionEntry>::empty(),
    {
        let r = Sessions { by_pub: Table::new(), active: Table::new() };
        proof {
            r.by_pub.lemma_dom();
            assert(r.active@.dom() =~= active_keys(r.by_pub@));
            assert forall|id: Seq<char>|
                (#[trigger] device_sessions(r.by_pub@, id)).len() <= MAX_SESSIONS_PER_DEVICE by {
                assert(device_sessions(r.by_pub@, id) =~= Set::<RawKey>::empty());
            }
        }
        r
    }

    pub fn len(&self) -> (r: usize)
        requires
            self.wf(),
        ensures
            r == self@.dom().len(),
    {
        self.by_pub.len()
    }

    pub fn get(&self, session_pub: &RawKey) -> (r: Option<&SessionEntry>)
        requires
            self.wf(),
        ensures
            match r {
                Some(s) => self@.dom().contains(*session_pub) && *s == self@[*session_pub],
                None => !self@.dom().contains(*session_pub),
            },
    {
        self.by_pub.get(session_pub)
    }

    /// Whether a device has a session.
    pub fn is_active(&self, ik_x: &RawKey) -> (r: bool)
        requires
            self.wf(),
        ensures
            r == active_keys(self@).contains(*ik_x),
    {
        self.active.contains(ik_x)
    }

    /// Whether one of the sessions in the table is a device's.
    fn has_ik_x(&self, ik_x: &RawKey) -> (r: bool)
        requires
            self.by_pub.wf(),
        ensures
            r == active_keys(self.by_pub@).contains(*ik_x),
    {
        let n: usize = self.by_pub.len();
        let mut i: usize = 0;
        while i < n
            invariant
                self.by_pub.wf(),
                n == self.by_pub.ids().len(),
                i <= n,
                forall|j: int|
                    0 <= j < i ==> self.by_pub@[#[trigger] self.by_pub.ids()[j]].ik_x != *ik_x,
            decreases n - i,
        {
            let s = self.by_pub.value_at(i);
            if same_raw_key(&s.ik_x, ik_x) {
                assert(self.by_pub@[self.by_pub.ids()[i as int]].ik_x == *ik_x);
                return true;
            }
            i = i + 1;
        }
        proof {
            self.by_pub.lemma_dom();
            assert forall|k: RawKey| self.by_pub@.dom().contains(k) implies (
            #[trigger] self.by_pub@[k]).ik_x != *ik_x by {
                let ids = self.by_pub.ids();
                assert(ids.contains(k));
                let j = choose|j: int| 0 <= j < ids.len() && ids[j] == k;
                assert(self.by_pub@[ids[j]].ik_x != *ik_x);
            }
        }
        false
    }
}

/// Counting the sessions of a device along the table.
spec fn count_in(ids: Seq<RawKey>, m: Map<RawKey, SessionEntry>, device_id: Seq<char>, n: int) -> Set<RawKey> {
    Set::new(
        |k: RawKey| ids.take(n).contains(k) && m.dom().contains(k) && m[k].device_id@ == device_id,
    )
}

proof fn lemma_count_step(
    ids: Seq<RawKey>,
    m: Map<RawKey, SessionEntry>,
    device_id: Seq<char>,
    n: int,
)
    requires
        0 <= n < ids.len(),
        ids.no_duplicates(),
        m.dom().contains(ids[n]),
        count_in(ids, m, device_id, n).finite(),
    ensures
        count_in(ids, m, device_id, n + 1).finite(),
        count_in(ids, m, device_id, n + 1).len() == count_in(ids, m, device_id, n).len() + (
        if m[ids[n]].device_id@ == device_id {
            1int
        } else {
            0int
        }),
{
    let a = count_in(ids, m, device_id, n);
    let b = count_in(ids, m, device_id, n + 1);
    let t0 = ids.take(n);
    let t1 = ids.take(n + 1);
    assert forall|k: RawKey| t1.contains(k) == (t0.contains(k) || k == ids[n]) by {
        if t1.contains(k) {
            let y = choose|y: int| 0 <= y < t1.len() && t1[y] == k;
            if y < n {
                assert(t0[y] == k);
            }
        }
        if t0.contains(k) {
            let y = choose|y: int| 0 <= y < t0.len() && t0[y] == k;
            assert(t1[y] == k);
        }
        assert(t1[n] == ids[n]);
    }
    assert(!t0.contains(ids[n])) by {
        if t0.contains(ids[n]) {
            let y = choose|y: int| 0 <= y < t0.len() && t0[y] == ids[n];
            assert(ids[y] == ids[n]);
        }
    }
    if m[ids[n]].device_id@ == device_id {
        assert(b =~= a.insert(ids[n]));
    } else {
        assert(b =~= a);
    }
}

impl Sessions {
    /// The first session, of those of a device where one is named, that was not
    /// used for the longest time.
    fn oldest(&self, device_id: Option<&str>) -> (r: Option<usize>)
        requires
            self.by_pub.wf(),
        ensures
            ({
                let among = match device_id {
                    Some(id) => device_sessions(self.by_pub@, id@),
                    None => self.by_pub@.dom(),
                };
                match r {
                    Some(i) => i < self.by_pub.ids().len() && is_oldest(
                        self.by_pub@,
                        among,
                        self.by_pub.ids()[i as int],
                    ),
                    None => among == Set::<RawKey>::empty(),
                }
            }),
    {
        let ghost among = match device_id {
            Some(id) => device_sessions(self.by_pub@, id@),
            None => self.by_pub@.dom(),
        };
        let n: usize = self.by_pub.len();
        let mut best: Option<usize> = None;
        let mut i: usize = 0;
        while i < n
            invariant
                self.by_pub.wf(),
                n == self.by_pub.ids().len(),
                i <= n,
                among == (match device_id {
                    Some(id) => device_sessions(self.by_pub@, id@),
                    None => self.by_pub@.dom(),
                }),
                match best {
                    Some(b) => b < i && among.contains(self.by_pub.ids()[b as int]) && forall|
                        j: int,
                    |
                        0 <= j < i && among.contains(#[trigger] self.by_pub.ids()[j])
                            ==> self.by_pub@[self.by_pub.ids()[b as int]].last_seen
                            <= self.by_pub@[self.by_pub.ids()[j]].last_seen,
                    None => forall|j: int|
                        0 <= j < i ==> !among.contains(#[trigger] self.by_pub.ids()[j]),
                },
            decreases n - i,
        {
            let s = self.by_pub.value_at(i);
            let counts = match device_id {
                Some(id) => same(s.device_id.as_str(), id),
                None => true,
            };
            if counts {
                let better = match best {
                    Some(b) => s.last_seen < self.by_pub.value_at(b).last_seen,
                    None => true,
                };
                if better {
                    best = Some(i);
                }
            }
            i = i + 1;
        }
        proof {
            self.by_pub.lemma_dom();
            let ids = self.by_pub.ids();
            match best {
                Some(b) => {
                    let k = ids[b as int];
                    assert forall|j: RawKey| among.contains(j) implies self.by_pub@[k].last_seen
                        <= (#[trigger] self.by_pub@[j]).last_seen by {
                        assert(ids.contains(j));
                        let x = choose|x: int| 0 <= x < ids.len() && ids[x] == j;
                        assert(among.contains(ids[x]));
                    }
                },
                None => {
                    assert forall|j: RawKey| !among.contains(j) by {
                        if among.contains(j) {
                            assert(ids.contains(j));
                            let x = choose|x: int| 0 <= x < ids.len() && ids[x] == j;
                            assert(!among.contains(ids[x]));
                        }
                    }
                    assert(among =~= Set::<RawKey>::empty());
                },
            }
        }
        best
    }

    /// How many sessions a device has.
    fn count_device(&self, device_id: &str) -> (r: usize)
        requires
            self.by_pub.wf(),
        ensures
            device_sessions(self.by_pub@, device_id@).finite(),
            r == device_sessions(self.by_pub@, device_id@).len(),
    {
        let n: usize = self.by_pub.len();
        let mut c: usize = 0;
        let mut i: usize = 0;
        let ghost ids = self.by_pub.ids();
        proof {
            assert(count_in(ids, self.by_pub@, device_id@, 0) =~= Set::<RawKey>::empty());
        }
        while i < n
            invariant
                self.by_pub.wf(),
                ids == self.by_pub.ids(),
                n == ids.len(),
                i <= n,
                c <= i,
                count_in(ids, self.by_pub@, device_id@, i as int).finite(),
                c == count_in(ids, self.by_pub@, device_id@, i as int).len(),
            decreases n - i,
        {
            let s = self.by_pub.value_at(i);
            proof {
                lemma_count_step(ids, self.by_pub@, device_id@, i as int);
            }
            if same(s.device_id.as_str(), device_id) {
                c = c + 1;
            }
            i = i + 1;
        }
        proof {
            self.by_pub.lemma_dom();
            assert(ids.take(n as int) =~= ids);
            assert(count_in(ids, self.by_pub@, device_id@, n as int) =~= device_sessions(
                self.by_pub@,
                device_id@,
            ));
        }
        c
    }

    /// Takes up the session of a device that was authenticated. Where there are too
    /// many sessions, or too many of this device, one that was not used for the
    /// longest time makes room.
    pub fn register(&mut self, entry: SessionEntry)
        requires
            old(self).wf(),
        ensures
            final(self).wf(),
            registered(old(self)@, entry, final(self)@),
    {
        let ghost m0 = self.by_pub@;
        let mut evicted: Vec<RawKey> = Vec::new();
        proof {
            self.by_pub.lemma_dom();
        }
        if self.by_pub.len() >= MAX_TOTAL_SESSIONS {
            if let Some(i) = self.oldest(None) {
                let gone = self.by_pub.remove_at(i);
                evicted.push(gone.1.ik_x);
            }
        }
        let ghost m1 = self.by_pub@;
        proof {
            if m0.dom().len() >= MAX_TOTAL_SESSIONS && evicted@.len() == 0 {
                assert(m0.dom() == Set::<RawKey>::empty());
                assert(false);
            }
            assert(made_room(m0, m0.dom(), MAX_TOTAL_SESSIONS, m1));
            lemma_fewer(m0, m1);
            assert forall|x: RawKey|
                active_keys(m0).contains(x) && !active_keys(m1).contains(x) implies evicted@.contains(
                x,
            ) by {
                let k = choose|k: RawKey| m0.dom().contains(k) && (#[trigger] m0[k]).ik_x == x;
                if m1.dom().contains(k) {
                    assert(m1[k].ik_x == x);
                } else {
                    assert(evicted@[0] == x);
                }
            }
        }
        let ghost e1 = evicted@;
        if self.count_device(entry.device_id.as_str()) >= MAX_SESSIONS_PER_DEVICE {
            if let Some(i) = self.oldest(Some(entry.device_id.as_str())) {
                let gone = self.by_pub.remove_at(i);
                evicted.push(gone.1.ik_x);
            }
        }
        let ghost m2 = self.by_pub@;
        proof {
            let mine = device_sessions(m1, entry.device_id@);
            if mine.len() >= MAX_SESSIONS_PER_DEVICE && evicted@.len() == e1.len() {
                assert(mine == Set::<RawKey>::empty());
                assert(false);
            }
            assert(made_room(m1, mine, MAX_SESSIONS_PER_DEVICE, m2));
            lemma_fewer(m1, m2);
            assert forall|x: RawKey|
                active_keys(m0).contains(x) && !active_keys(m2).contains(x) implies evicted@.contains(
                x,
            ) by {
                if active_keys(m1).contains(x) {
                    let k = choose|k: RawKey| m1.dom().contains(k) && (#[trigger] m1[k]).ik_x == x;
                    if m2.dom().contains(k) {
                        assert(m2[k].ik_x == x);
                    } else {
                        assert(evicted@[evicted@.len() - 1] == x);
                    }
                } else {
                    assert(e1.contains(x));
                    let y = choose|y: int| 0 <= y < e1.len() && e1[y] == x;
                    assert(evicted@[y] == x);
                }
            }
            assert forall|x: RawKey| active_keys(m2).contains(x) implies active_keys(m0).contains(
                x,
            ) by {
                let k = choose|k: RawKey| m2.dom().contains(k) && (#[trigger] m2[k]).ik_x == x;
                assert(m0.dom().contains(k) && m0[k].ik_x == x);
            }
        }
        let ik_x: RawKey = entry.ik_x;
        let key: RawKey = entry.session_pub;
        let ghost e2 = evicted@;
        if let Some(o) = self.by_pub.get(&key) {
            evicted.push(o.ik_x);
        }
        proof {
            self.by_pub.lemma_dom();
            assert forall|x: RawKey| e2.contains(x) implies evicted@.contains(x) by {
                let y = choose|y: int| 0 <= y < e2.len() && e2[y] == x;
                assert(evicted@[y] == x);
            }
            if m2.dom().contains(key) {
                assert(evicted@[e2.len() as int] == m2[key].ik_x);
            }
        }
        self.by_pub.insert(key, entry);
        let ghost m3 = self.by_pub@;
        proof {
            self.by_pub.lemma_dom();
            lemma_registering_keeps_limits(m1, m2, entry);
        }
        self.active.insert(ik_x, ());
        proof {
            assert forall|x: RawKey| active_keys(m3).contains(x) implies self.active@.dom().contains(
                x,
            ) by {
                let k = choose|k: RawKey| m3.dom().contains(k) && (#[trigger] m3[k]).ik_x == x;
                if k != key {
                    assert(m2.dom().contains(k) && m2[k].ik_x == x);
                    assert(active_keys(m2).contains(x));
                }
            }
            assert forall|x: RawKey|
                self.active@.dom().contains(x) && !active_keys(m3).contains(x) implies evicted@.contains(
                x,
            ) by {
                if x == ik_x {
                    assert(m3.dom().contains(key) && m3[key].ik_x == x);
                } else if active_keys(m2).contains(x) {
                    let k = choose|k: RawKey| m2.dom().contains(k) && (#[trigger] m2[k]).ik_x == x;
                    if k != key {
                        assert(m3.dom().contains(k) && m3[k].ik_x == x);
                    }
                }
            }
            assert(evicted@.skip(0) =~= evicted@);
        }
        let mut j: usize = 0;
        while j < evicted.len()
            invariant
                j <= evicted@.len(),
                self.by_pub.wf(),
                self.active.wf(),
                self.by_pub@ == m3,
                forall|x: RawKey| active_keys(m3).contains(x) ==> self.active@.dom().contains(x),
                forall|x: RawKey|
                    self.active@.dom().contains(x) && !active_keys(m3).contains(x)
                        ==> evicted@.skip(j as int).contains(x),
            decreases evicted@.len() - j,
        {
            let ik = evicted[j];
            let ghost rest = evicted@.skip(j as int);
            let ghost next = evicted@.skip(j + 1);
            let ghost act = self.active@;
            if !self.has_ik_x(&ik) {
                self.active.remove(&ik);
            }
            proof {
                assert forall|x: RawKey|
                    self.active@.dom().contains(x) && !active_keys(m3).contains(x) implies next.contains(
                    x,
                ) by {
                    assert(act.dom().contains(x));
                    assert(rest.contains(x));
                    let y = choose|y: int| 0 <= y < rest.len() && rest[y] == x;
                    assert(rest[0] == ik);
                    if y > 0 {
                        assert(next[y - 1] == x);
                    }
                }
            }
            j = j + 1;
        }
        proof {
            assert(evicted@.skip(evicted@.len() as int) =~= Seq::<RawKey>::empty());
            assert(self.active@.dom() =~= active_keys(m3));
        }
    }
}

/// A map with fewer sessions has fewer of every device.
proof fn lemma_fewer(m0: Map<RawKey, SessionEntry>, m1: Map<RawKey, SessionEntry>)
    requires
        m0.dom().finite(),
        m1.dom().subset_of(m0.dom()),
        forall|k: RawKey| m1.dom().contains(k) ==> #[trigger] m1[k] == m0[k],
    ensures
        m1.dom().finite(),
        m1.dom().len() <= m0.dom().len(),
        forall|id: Seq<char>|
            #![trigger device_sessions(m1, id)]
            device_sessions(m1, id).finite() && device_sessions(m1, id).len() <= device_sessions(
                m0,
                id,
            ).len(),
{
    vstd::set_lib::lemma_len_subset(m1.dom(), m0.dom());
    assert forall|id: Seq<char>|
        #![trigger device_sessions(m1, id)]
        device_sessions(m1, id).finite() && device_sessions(m1, id).len() <= device_sessions(
            m0,
            id,
        ).len() by {
        assert(device_sessions(m0, id).subset_of(m0.dom()));
        vstd::set_lib::lemma_len_subset(device_sessions(m0, id), m0.dom());
        assert(device_sessions(m1, id).subset_of(device_sessions(m0, id)));
        vstd::set_lib::lemma_len_subset(device_sessions(m1, id), device_sessions(m0, id));
    }
}

/// One session more, of a device that has room for it.
proof fn lemma_registering_keeps_limits(
    m1: Map<RawKey, SessionEntry>,
    m2: Map<RawKey, SessionEntry>,
    entry: SessionEntry,
)
    requires
        m1.dom().finite(),
        m1.dom().len() < MAX_TOTAL_SESSIONS,
        forall|id: Seq<char>|
            (#[trigger] device_sessions(m1, id)).len() <= MAX_SESSIONS_PER_DEVICE,
        made_room(m1, device_sessions(m1, entry.device_id@), MAX_SESSIONS_PER_DEVICE, m2),
    ensures
        m2.insert(entry.session_pub, entry).dom().len() <= MAX_TOTAL_SESSIONS,
        forall|id: Seq<char>|
            (#[trigger] device_sessions(m2.insert(entry.session_pub, entry), id)).len()
                <= MAX_SESSIONS_PER_DEVICE,
{
    let m3 = m2.insert(entry.session_pub, entry);
    let id0 = entry.device_id@;
    lemma_fewer(m1, m2);
    assert(device_sessions(m1, id0).subset_of(m1.dom()));
    vstd::set_lib::lemma_len_subset(device_sessions(m1, id0), m1.dom());
    if device_sessions(m1, id0).len() >= MAX_SESSIONS_PER_DEVICE {
        let k = choose|k: RawKey|
            #[trigger] is_oldest(m1, device_sessions(m1, id0), k) && m2 == m1.remove(k);
        assert(device_sessions(m2, id0) =~= device_sessions(m1, id0).remove(k));
    }
    assert(device_sessions(m2, id0).len() < MAX_SESSIONS_PER_DEVICE);
    assert(m3.dom() =~= m2.dom().insert(entry.session_pub));
    assert forall|id: Seq<char>|
        (#[trigger] device_sessions(m3, id)).len() <= MAX_SESSIONS_PER_DEVICE by {
        assert(device_sessions(m2, id).finite() && device_sessions(m2, id).len()
            <= device_sessions(m1, id).len());
        if id == id0 {
            let all = device_sessions(m2, id).insert(entry.session_pub);
            assert(device_sessions(m3, id).subset_of(all));
            vstd::set_lib::lemma_len_subset(device_sessions(m3, id), all);
        } else {
            assert(device_sessions(m3, id).subset_of(device_sessions(m2, id)));
            vstd::set_lib::lemma_len_subset(device_sessions(m3, id), device_sessions(m2, id));
        }
    }
}

/// Whether a session was not used for longer than `ttl`.
pub open spec fn is_idle(e: SessionEntry, now: u64, ttl: u64) -> bool {
    now > e.last_seen && now - e.last_seen > ttl
}

/// The sessions that were not used for longer than `ttl`.
pub open spec fn idle_sessions(m: Map<RawKey, SessionEntry>, now: u64, ttl: u64) -> Set<RawKey> {
    Set::new(|k: RawKey| m.dom().contains(k) && is_idle(m[k], now, ttl))
}

/// The devices of some sessions, each as often as it has one among them.
pub open spec fn devices_of(
    m: Map<RawKey, SessionEntry>,
    keys: Set<RawKey>,
    devices: Seq<RawKey>,
) -> bool {
    exists|order: Seq<RawKey>|
        {
            &&& #[trigger] order.no_duplicates()
            &&& order.to_set() == keys
            &&& devices == order.map_values(|k: RawKey| m[k].ik_x)
        }
}

impl SessionEntry {
    pub fn copy(&self) -> (r: Self)
        ensures
            r == *self,
    {
        SessionEntry {
            session_pub: self.session_pub,
            device_id: self.device_id.clone(),
            ik_x: self.ik_x,
            ip: self.ip.clone(),
            sk: self.sk,
            counter_rx: self.counter_rx,
            last_seen: self.last_seen,
            room: self.room.clone(),
        }
    }
}

impl Sessions {
    /// Notes that request number `seq` of a session was accepted.
    pub fn advance(&mut self, session_pub: &RawKey, seq: u64, now: u64)
        requires
            old(self).wf(),
        ensures
            final(self).wf(),
            final(self)@ == advanced(old(self)@, *session_pub, seq, now),
    {
        match self.by_pub.position(session_pub) {
            Some(i) => {
                let mut e = self.by_pub.value_at(i).copy();
                e.counter_rx = seq;
                e.last_seen = now;
                proof {
                    self.by_pub.lemma_dom();
                }
                self.by_pub.set_at(i, e);
                proof {
                    let m0 = old(self).by_pub@;
                    let m1 = self.by_pub@;
                    assert(m1.dom() =~= m0.dom());
                    assert forall|x: RawKey| active_keys(m1).contains(x) == active_keys(
                        m0,
                    ).contains(x) by {
                        if active_keys(m0).contains(x) {
                            let k = choose|k: RawKey|
                                m0.dom().contains(k) && (#[trigger] m0[k]).ik_x == x;
                            assert(m1.dom().contains(k) && m1[k].ik_x == x);
                        }
                        if active_keys(m1).contains(x) {
                            let k = choose|k: RawKey|
                                m1.dom().contains(k) && (#[trigger] m1[k]).ik_x == x;
                            assert(m0.dom().contains(k) && m0[k].ik_x == x);
                        }
                    }
                    assert(active_keys(m1) =~= active_keys(m0));
                    assert forall|id: Seq<char>|
                        (#[trigger] device_sessions(m1, id)).len()
                            <= MAX_SESSIONS_PER_DEVICE by {
                        assert(device_sessions(m1, id) =~= device_sessions(m0, id));
                    }
                }
            },
            None => {},
        }
    }

    /// Makes the index of active devices agree with the sessions.
    fn rebuild_active(&mut self)
        requires
            old(self).by_pub.wf(),
        ensures
            final(self).by_pub == old(self).by_pub,
            final(self).active.wf(),
            final(self).active@.dom() == active_keys(old(self).by_pub@),
    {
        self.active = Table::new();
        let n: usize = self.by_pub.len();
        let mut i: usize = 0;
        let ghost m = self.by_pub@;
        let ghost ids = self.by_pub.ids();
        while i < n
            invariant
                self.by_pub == old(self).by_pub,
                self.by_pub.wf(),
                self.active.wf(),
                m == self.by_pub@,
                ids == self.by_pub.ids(),
                n == ids.len(),
                i <= n,
                forall|j: int|
                    0 <= j < i ==> self.active@.dom().contains(m[#[trigger] ids[j]].ik_x),
                forall|x: RawKey| self.active@.dom().contains(x) ==> active_keys(m).contains(x),
            decreases n - i,
        {
            let ik: RawKey = self.by_pub.value_at(i).ik_x;
            self.active.insert(ik, ());
            proof {
                assert(m.dom().contains(ids[i as int]) && m[ids[i as int]].ik_x == ik);
            }
            i = i + 1;
        }
        proof {
            self.by_pub.lemma_dom();
            assert forall|x: RawKey| active_keys(m).contains(x) implies self.active@.dom().contains(
                x,
            ) by {
                let k = choose|k: RawKey| m.dom().contains(k) && (#[trigger] m[k]).ik_x == x;
                assert(ids.contains(k));
                let j = choose|j: int| 0 <= j < ids.len() && ids[j] == k;
                assert(self.active@.dom().contains(m[ids[j]].ik_x));
            }
            assert(self.active@.dom() =~= active_keys(m));
        }
    }

    /// Ends a session.
    pub fn remove(&mut self, session_pub: &RawKey)
        requires
            old(self).wf(),
        ensures
            final(self).wf(),
            final(self)@ == old(self)@.remove(*session_pub),
    {
        proof {
            self.by_pub.lemma_dom();
        }
        self.by_pub.remove(session_pub);
        proof {
            lemma_fewer(old(self).by_pub@, self.by_pub@);
            assert forall|id: Seq<char>|
                (#[trigger] device_sessions(self.by_pub@, id)).len()
                    <= MAX_SESSIONS_PER_DEVICE by {
                assert(device_sessions(old(self).by_pub@, id).len() <= MAX_SESSIONS_PER_DEVICE);
            }
        }
        self.rebuild_active();
    }

    /// Ends the sessions of a device where one is named, else those that were not
    /// used for longer than `ttl`. Returns their devices.
    fn sweep(&mut self, device_id: Option<&str>, now: u64, ttl: u64) -> (r: Vec<RawKey>)
        requires
            old(self).wf(),
        ensures
            final(self).wf(),
            ({
                let gone = match device_id {
                    Some(id) => device_sessions(old(self)@, id@),
                    None => idle_sessions(old(self)@, now, ttl),
                };
                &&& final(self)@ == old(self)@.remove_keys(gone)
                &&& devices_of(old(self)@, gone, r@)
            }),
    {
        let ghost m0 = self.by_pub@;
        let ghost gone = match device_id {
            Some(id) => device_sessions(m0, id@),
            None => idle_sessions(m0, now, ttl),
        };
        let ghost mut order: Seq<RawKey> = Seq::empty();
        let mut out: Vec<RawKey> = Vec::new();
        let mut i: usize = 0;
        proof {
            self.by_pub.lemma_dom();
            assert(out@ =~= order.map_values(|k: RawKey| m0[k].ik_x));
            assert(m0.remove_keys(order.to_set()) =~= m0);
        }
        while i < self.by_pub.len()
            invariant
                self.by_pub.wf(),
                m0 == old(self).by_pub@,
                gone == (match device_id {
                    Some(id) => device_sessions(m0, id@),
                    None => idle_sessions(m0, now, ttl),
                }),
                i <= self.by_pub.ids().len(),
                self.by_pub@ == m0.remove_keys(order.to_set()),
                order.no_duplicates(),
                forall|j: int| 0 <= j < order.len() ==> gone.contains(#[trigger] order[j]),
                out@ == order.map_values(|k: RawKey| m0[k].ik_x),
                forall|j: int| 0 <= j < i ==> !gone.contains(#[trigger] self.by_pub.ids()[j]),
            decreases self.by_pub.ids().len() - i,
        {
            let e = self.by_pub.value_at(i);
            let ghost k = self.by_pub.ids()[i as int];
            assert(m0.dom().contains(k) && *e == m0[k] && !order.to_set().contains(k));
            let hit = match device_id {
                Some(id) => same(e.device_id.as_str(), id),
                None => now > e.last_seen && now - e.last_seen > ttl,
            };
            assert(hit == gone.contains(k));
            if hit {
                let ghost before = self.by_pub;
                let taken = self.by_pub.remove_at(i);
                out.push(taken.1.ik_x);
                proof {
                    let grown = order.push(k);
                    assert(!order.contains(k));
                    assert forall|a: int, b: int|
                        0 <= a < grown.len() && 0 <= b < grown.len() && a != b implies grown[a]
                        != grown[b] by {
                        if a == order.len() {
                            assert(order.contains(grown[b]));
                        } else if b == order.len() {
                            assert(order.contains(grown[a]));
                        }
                    }
                    assert forall|x: RawKey| grown.to_set().contains(x) == order.to_set().insert(
                        k,
                    ).contains(x) by {
                        if grown.contains(x) {
                            let y = choose|y: int| 0 <= y < grown.len() && grown[y] == x;
                            if y < order.len() {
                                assert(order[y] == x);
                            }
                        }
                        if order.contains(x) {
                            let y = choose|y: int| 0 <= y < order.len() && order[y] == x;
                            assert(grown[y] == x);
                        }
                        assert(grown[order.len() as int] == k);
                    }
                    assert(grown.to_set() =~= order.to_set().insert(k));
                    assert(self.by_pub@ =~= m0.remove_keys(grown.to_set()));
                    assert(out@ =~= grown.map_values(|k: RawKey| m0[k].ik_x));
                    order = grown;
                }
            } else {
                i = i + 1;
            }
        }
        proof {
            self.by_pub.lemma_dom();
            assert forall|k: RawKey| order.to_set().contains(k) == gone.contains(k) by {
                if order.contains(k) {
                    let j = choose|j: int| 0 <= j < order.len() && order[j] == k;
                    assert(gone.contains(order[j]));
                }
                if gone.contains(k) && !order.contains(k) {
                    assert(self.by_pub@.dom().contains(k));
                    let ids = self.by_pub.ids();
                    assert(ids.contains(k));
                    let j = choose|j: int| 0 <= j < ids.len() && ids[j] == k;
                    assert(!gone.contains(ids[j]));
                }
            }
            assert(order.to_set() =~= gone);
            old(self).by_pub.lemma_dom();
            lemma_fewer(m0, self.by_pub@);
            assert forall|id: Seq<char>|
                (#[trigger] device_sessions(self.by_pub@, id)).len()
                    <= MAX_SESSIONS_PER_DEVICE by {
                assert(device_sessions(m0, id).len() <= MAX_SESSIONS_PER_DEVICE);
            }
        }
        self.rebuild_active();
        out
    }

    /// Ends the sessions of a device. Returns the device's public key, once for
    /// each of them.
    pub fn kick_device(&mut self, device_id: &str) -> (r: Vec<RawKey>)
        requires
            old(self).wf(),
        ensures
            final(self).wf(),
            final(self)@ == old(self)@.remove_keys(device_sessions(old(self)@, device_id@)),
            devices_of(old(self)@, device_sessions(old(self)@, device_id@), r@),
    {
        self.sweep(Some(device_id), 0, 0)
    }

    /// Ends the sessions that were not used for longer than `ttl`. Returns their
    /// devices.
    pub fn expire(&mut self, now: u64, ttl: u64) -> (r: Vec<RawKey>)
        requires
            old(self).wf(),
        ensures
            final(self).wf(),
            final(self)@ == old(self)@.remove_keys(idle_sessions(old(self)@, now, ttl)),
            devices_of(old(self)@, idle_sessions(old(self)@, now, ttl), r@),
    {
        self.sweep(None, now, ttl)
    }
}

/// The public keys of the devices of some sessions.
pub open spec fn keys_of(m: Map<RawKey, SessionEntry>, sessions: Set<RawKey>) -> Set<RawKey> {
    Set::new(|x: RawKey| exists|k: RawKey| sessions.contains(k) && (#[trigger] m[k]).ik_x == x)
}

pub proof fn lemma_devices_of(
    m: Map<RawKey, SessionEntry>,
    sessions: Set<RawKey>,
    devices: Seq<RawKey>,
)
    requires
        devices_of(m, sessions, devices),
    ensures
        devices.to_set() == keys_of(m, sessions),
        devices.len() == sessions.len(),
{
    let order = choose|order: Seq<RawKey>|
        {
            &&& #[trigger] order.no_duplicates()
            &&& order.to_set() == sessions
            &&& devices == order.map_values(|k: RawKey| m[k].ik_x)
        };
    order.unique_seq_to_set();
    assert forall|x: RawKey| devices.to_set().contains(x) == keys_of(m, sessions).contains(x) by {
        if devices.contains(x) {
            let i = choose|i: int| 0 <= i < devices.len() && devices[i] == x;
            assert(order.contains(order[i]));
            assert(sessions.contains(order[i]) && m[order[i]].ik_x == x);
        }
        if keys_of(m, sessions).contains(x) {
            let k = choose|k: RawKey| sessions.contains(k) && (#[trigger] m[k]).ik_x == x;
            assert(order.contains(k));
            let i = choose|i: int| 0 <= i < order.len() && order[i] == k;
            assert(devices[i] == x);
        }
    }
    assert(devices.to_set() =~= keys_of(m, sessions));
}

/// A device whose sessions were ended has none left.
pub proof fn a_kicked_device_has_no_session(m: Map<RawKey, SessionEntry>, device_id: Seq<char>)
    ensures
        device_sessions(m.remove_keys(device_sessions(m, device_id)), device_id) == Set::<
            RawKey,
        >::empty(),
{
    assert(device_sessions(m.remove_keys(device_sessions(m, device_id)), device_id) =~= Set::<
        RawKey,
    >::empty());
}

/// Request numbers only grow: once a request was accepted under the next number, the
/// number after it is the next, so that no number is accepted twice. Nobody else's
/// number changes.
pub proof fn request_numbers_only_grow(
    m: Map<RawKey, SessionEntry>,
    session: RawKey,
    now: u64,
    other: RawKey,
)
    requires
        m.dom().contains(session),
        m[session].counter_rx < u64::MAX,
        other != session,
    ensures
        ({
            let seq = (m[session].counter_rx + 1) as u64;
            let after = advanced(m, session, seq, now);
            &&& after.dom() == m.dom()
            &&& after[session].counter_rx == seq > m[session].counter_rx
            &&& m.dom().contains(other) ==> after[other] == m[other]
        }),
{
    let seq = (m[session].counter_rx + 1) as u64;
    assert(advanced(m, session, seq, now).dom() =~= m.dom());
}

} // verus!
