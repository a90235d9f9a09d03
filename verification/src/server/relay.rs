//! Relaying: who may send to whom through the server, and how small frames are
//! joined into larger ones.
use vstd::prelude::*;
use vstd::string::*;
use crate::bytes::{copy_bytes, push_bytes};
use crate::client::peer::total_len;
use crate::client::reliable::packets_view;
use crate::net::{address_bytes, Endpoint, IpAddress};
use crate::outside::{base64_chars, base64_encode};
use crate::server::laws::{a_frame_reaches_its_room, may_reach};
use crate::server::routes::{entry_of, upserted, RouteEntry, RouteTable};
use crate::server::sessions::{active_keys, SessionEntry, Sessions};
use crate::table::{RawKey, Table};
use crate::text::same;

verus! {

/// The source or destination that a relayed frame names: by its relay key, or by
/// its public key.
pub open spec fn relay_party(routes: RouteTable, by_rk: bool, key: RawKey) -> Option<RouteEntry> {
    if by_rk {
        routes.at_rk(base64_chars(key@))
    } else {
        entry_of(routes.entries(), key)
    }
}

/// Whether the source of a relayed frame has a session.
pub open spec fn source_is_active(
    routes: RouteTable,
    sessions: Map<RawKey, SessionEntry>,
    by_rk: bool,
    src_key: RawKey,
) -> bool {
    if by_rk {
        match relay_party(routes, true, src_key) {
            Some(e) => active_keys(sessions).contains(e.public_key),
            None => false,
        }
    } else {
        active_keys(sessions).contains(src_key)
    }
}

/// Whether the rooms of source and destination let a frame pass.
pub open spec fn rooms_agree(
    rooms_enabled: bool,
    src: Option<RouteEntry>,
    dest: Option<RouteEntry>,
) -> bool {
    match (src, dest) {
        (Some(s), Some(d)) => s.room@ == d.room@,
        (None, _) => !rooms_enabled,
        _ => true,
    }
}

/// Where a relayed frame goes, if anywhere. `now` are the routes once the entry of its
/// source was refreshed.
pub open spec fn forwarded(
    before: RouteTable,
    now: RouteTable,
    sessions: Map<RawKey, SessionEntry>,
    rooms_enabled: bool,
    by_rk: bool,
    src_key: RawKey,
    dest: RawKey,
) -> Option<RouteEntry> {
    if source_is_active(before, sessions, by_rk, src_key) && rooms_agree(
        rooms_enabled,
        relay_party(now, by_rk, src_key),
        relay_party(now, by_rk, dest),
    ) {
        relay_party(now, by_rk, dest)
    } else {
        None
    }
}

/// Whether a frame refreshes the entry of its source: one by identity key does. The
/// entries of routing keys are refreshed by registration and heartbeat alone.
pub open spec fn refreshes(
    routes: RouteTable,
    sessions: Map<RawKey, SessionEntry>,
    by_rk: bool,
    src_key: RawKey,
) -> bool {
    !by_rk && source_is_active(routes, sessions, by_rk, src_key) && relay_party(
        routes,
        by_rk,
        src_key,
    ) is Some
}

/// The entry of a source after a frame of it came from the address `src`.
pub open spec fn is_refreshed(e: RouteEntry, before: RouteEntry, src: Seq<char>, now: u64) -> bool {
    &&& e.endpoint@ == src
    &&& e == (RouteEntry { endpoint: e.endpoint, last_seen: now, ..before })
}

/// The routes before and after a frame of a source came from the address `src`.
pub open spec fn source_refreshed(
    before: RouteTable,
    sessions: Map<RawKey, SessionEntry>,
    by_rk: bool,
    src_key: RawKey,
    src: Seq<char>,
    now: u64,
    after: RouteTable,
) -> bool {
    if refreshes(before, sessions, by_rk, src_key) {
        exists|e: RouteEntry|
            is_refreshed(e, relay_party(before, by_rk, src_key)->0, src, now)
                && #[trigger] upserted(before, e, after)
    } else {
        after == before
    }
}

fn find_party(routes: &RouteTable, by_rk: bool, key: &RawKey) -> (r: Option<RouteEntry>)
    requires
        routes.wf(),
    ensures
        r == relay_party(*routes, by_rk, *key),
{
    let found = if by_rk {
        let text = base64_encode(key.as_slice());
        routes.get_by_rk(text.as_str())
    } else {
        routes.get(key)
    };
    match found {
        Some(e) => Some(e.copy()),
        None => None,
    }
}

/// Decides on a relayed frame, and brings the entry of its source up to date.
fn decide_forward(
    routes: &mut RouteTable,
    sessions: &Sessions,
    rooms_enabled: bool,
    by_rk: bool,
    dest: &RawKey,
    src_key: &RawKey,
    src: &str,
    now: u64,
) -> (r: Option<RouteEntry>)
    requires
        old(routes).wf(),
        sessions.wf(),
    ensures
        final(routes).wf(),
        source_refreshed(*old(routes), sessions@, by_rk, *src_key, src@, now, *final(routes)),
        r == forwarded(
            *old(routes),
            *final(routes),
            sessions@,
            rooms_enabled,
            by_rk,
            *src_key,
            *dest,
        ),
{
    let active = if by_rk {
        match find_party(routes, true, src_key) {
            Some(e) => sessions.is_active(&e.public_key),
            None => false,
        }
    } else {
        sessions.is_active(src_key)
    };
    if !active {
        return None;
    }
    if !by_rk {
        if let Some(e) = find_party(routes, by_rk, src_key) {
            let mut fresh = e;
            fresh.endpoint = src.to_owned();
            fresh.last_seen = now;
            routes.upsert(fresh);
            assert(upserted(*old(routes), fresh, *routes));
        }
    }
    let src_entry = find_party(routes, by_rk, src_key);
    let dest_entry = find_party(routes, by_rk, dest);
    let pass = match (&src_entry, &dest_entry) {
        (Some(s), Some(d)) => same(s.room.as_str(), d.room.as_str()),
        (None, _) => !rooms_enabled,
        _ => true,
    };
    if pass {
        dest_entry
    } else {
        None
    }
}

/// Decides on a relayed frame. Returns the destination, or nothing where the frame
/// is to be dropped: its source has no session, its destination is not there, or
/// the two are in different rooms. With rooms in use, a source whose room is not
/// known may not send. The entry of a source that has a session and is named by its
/// identity key is brought up to date: it is reached at `src`, the address that its frame
/// came from.
pub fn relay_forward(
    routes: &mut RouteTable,
    sessions: &Sessions,
    rooms_enabled: bool,
    by_rk: bool,
    dest: &RawKey,
    src_key: &RawKey,
    src: &str,
    now: u64,
) -> (r: Option<RouteEntry>)
    requires
        old(routes).wf(),
        sessions.wf(),
    ensures
        final(routes).wf(),
        source_refreshed(*old(routes), sessions@, by_rk, *src_key, src@, now, *final(routes)),
        r == forwarded(
            *old(routes),
            *final(routes),
            sessions@,
            rooms_enabled,
            by_rk,
            *src_key,
            *dest,
        ),
        forall|from: RawKey, to: RawKey, session: RawKey|
            #[trigger] may_reach(
                *old(routes),
                sessions@,
                by_rk,
                *src_key,
                *dest,
                from,
                to,
                session,
            ) ==> r is Some && r->0.public_key == to && (from != to ==> r->0 == old(
                routes,
            ).entries()[to]),
{
    let r = decide_forward(routes, sessions, rooms_enabled, by_rk, dest, src_key, src, now);
    proof {
        assert forall|from: RawKey, to: RawKey, session: RawKey|
            #[trigger] may_reach(
                *old(routes),
                sessions@,
                by_rk,
                *src_key,
                *dest,
                from,
                to,
                session,
            ) implies r is Some && r->0.public_key == to && (from != to ==> r->0 == old(
            routes,
        ).entries()[to]) by {
            a_frame_reaches_its_room(
                *old(routes),
                sessions@,
                rooms_enabled,
                by_rk,
                *src_key,
                *dest,
                src@,
                now,
                *routes,
                from,
                to,
                session,
            );
        }
    }
    r
}

/// The part of a batch that one frame becomes: the key of its source and its
/// content.
pub fn subframe(src_key: &RawKey, ct: &[u8]) -> (r: Vec<u8>)
    ensures
        r@ == src_key@ + ct@,
        r@.len() == 32 + ct@.len() && r@.take(32) == src_key@ && r@.skip(32) == ct@,
{
    let mut out = copy_bytes(src_key.as_slice());
    push_bytes(&mut out, ct);
    assert(out@.take(32) =~= src_key@);
    assert(out@.skip(32) =~= ct@);
    out
}

/// Takes a part of a batch apart into the key of its source and its content. There
/// is none where the part is shorter than a key.
pub fn split_subframe(sub: &[u8]) -> (r: Option<(RawKey, &[u8])>)
    ensures
        r is Some <==> sub@.len() >= 32,
        r matches Some((key, ct)) ==> sub@ == key@ + ct@ && key@ == sub@.take(32) && ct@
            == sub@.skip(32),
{
    if sub.len() < 32 {
        return None;
    }
    let head = vstd::slice::slice_subrange(sub, 0, 32);
    let ct = vstd::slice::slice_subrange(sub, 32, sub.len());
    match crate::cert::raw_key(head) {
        Some(key) => {
            assert(sub@ =~= key@ + ct@);
            assert(key@ =~= sub@.take(32));
            assert(ct@ =~= sub@.skip(32));
            Some((key, ct))
        },
        None => None,
    }
}

/// Frames for one destination that wait to be sent together.
pub struct PendingBatch {
    /// The destination's address and port, as text.
    pub addr: String,
    pub frames: Vec<Vec<u8>>,
    pub bytes: usize,
}

/// The frames of all destinations that wait to be sent together.
pub struct RelayBatcher {
    pending: Table<RawKey, PendingBatch>,
    max_bytes: usize,
}

/// The bytes of some frames, as far as they can be counted.
pub open spec fn counted_bytes(frames: Seq<Seq<u8>>) -> nat {
    if total_len(frames) <= usize::MAX {
        total_len(frames)
    } else {
        usize::MAX as nat
    }
}

impl RelayBatcher {
    pub closed spec fn wf(&self) -> bool {
        &&& self.pending.wf()
        &&& self.max_bytes > 0
        &&& forall|k: RawKey|
            self.pending@.dom().contains(k) ==> {
                let b = #[trigger] self.pending@[k];
                &&& b.bytes == total_len(packets_view(b.frames@))
                &&& b.bytes < self.max_bytes
            }
    }

    /// The size at which a batch is sent at once.
    pub closed spec fn limit(&self) -> usize {
        self.max_bytes
    }

    pub closed spec fn waiting(&self) -> Map<RawKey, PendingBatch> {
        self.pending@
    }

    /// The frames that wait for a destination, in the order in which they came.
    pub open spec fn frames_for(&self, dest: RawKey) -> Seq<Seq<u8>> {
        if self.waiting().dom().contains(dest) {
            packets_view(self.waiting()[dest].frames@)
        } else {
            Seq::empty()
        }
    }

    /// A batcher, unless batching is switched off.
    pub fn spawn(enabled: bool, max_bytes: usize) -> (r: Option<Self>)
        ensures
            r is Some <==> enabled,
            r matches Some(b) ==> {
                &&& b.wf()
                &&& b.limit() == (if max_bytes == 0 {
                    1
                } else {
                    max_bytes
                })
                &&& b.waiting() == Map::<RawKey, PendingBatch>::empty()
            },
    {
        if !enabled {
            return None;
        }
        Some(
            RelayBatcher {
                pending: Table::new(),
                max_bytes: if max_bytes == 0 {
                    1
                } else {
                    max_bytes
                },
            },
        )
    }

    /// Takes in a frame. Returns the batch of its destination where that has
    /// reached the limit.
    pub fn enqueue(&mut self, dest: RawKey, addr: String, sub: Vec<u8>) -> (r: Option<PendingBatch>)
        requires
            old(self).wf(),
        ensures
            final(self).wf(),
            frame_batched(*old(self), dest, addr, sub@, r, *final(self)),
    {
        let ghost before = self.frames_for(dest);
        let mut batch = match self.pending.remove(&dest) {
            Some(b) => b,
            None => PendingBatch { addr: String::new(), frames: Vec::new(), bytes: 0 },
        };
        proof {
            assert(packets_view(batch.frames@) =~= before);
            if old(self).pending@.dom().contains(dest) {
                assert(batch == old(self).pending@[dest]);
            } else {
                assert(before =~= Seq::<Seq<u8>>::empty());
            }
            assert(batch.bytes == total_len(before));
        }
        batch.addr = addr;
        batch.bytes = batch.bytes.saturating_add(sub.len());
        batch.frames.push(sub);
        proof {
            assert(packets_view(batch.frames@) =~= before.push(sub@));
            assert(before.push(sub@).drop_last() =~= before);
            assert(total_len(before.push(sub@)) == total_len(before) + sub@.len());
            assert forall|k: RawKey| self.pending@.dom().contains(k) implies #[trigger] self.pending@[k]
                == old(self).pending@[k] by {}
        }
        if batch.bytes >= self.max_bytes {
            return Some(batch);
        }
        self.pending.insert(dest, batch);
        proof {
            assert(self.pending@ =~= old(self).pending@.insert(dest, self.pending@[dest]));
        }
        None
    }

    /// Takes out all batches, with their destinations.
    pub fn take_all(&mut self) -> (r: Vec<(RawKey, PendingBatch)>)
        requires
            old(self).wf(),
        ensures
            final(self).wf(),
            final(self).limit() == old(self).limit(),
            final(self).waiting() == Map::<RawKey, PendingBatch>::empty(),
            r@.len() == old(self).waiting().dom().len(),
            forall|i: int|
                0 <= i < r@.len() ==> old(self).waiting().dom().contains((#[trigger] r@[i]).0)
                    && r@[i].1 == old(self).waiting()[r@[i].0],
            forall|i: int, j: int| 0 <= i < j < r@.len() ==> r@[i].0 != r@[j].0,
    {
        let mut out: Vec<(RawKey, PendingBatch)> = Vec::new();
        proof {
            self.pending.lemma_dom();
        }
        while self.pending.len() > 0
            invariant
                self.wf(),
                self.max_bytes == old(self).max_bytes,
                self.pending@.dom().finite(),
                out@.len() + self.pending@.dom().len() == old(self).pending@.dom().len(),
                self.pending@.submap_of(old(self).pending@),
                forall|i: int|
                    0 <= i < out@.len() ==> !self.pending@.dom().contains((#[trigger] out@[i]).0)
                        && old(self).pending@.dom().contains(out@[i].0) && out@[i].1 == old(
                        self,
                    ).pending@[out@[i].0],
                forall|i: int, j: int| 0 <= i < j < out@.len() ==> out@[i].0 != out@[j].0,
            decreases self.pending@.dom().len(),
        {
            let n: usize = self.pending.len();
            let ghost mid = self.pending@;
            proof {
                self.pending.lemma_dom();
                self.pending.lemma_at(n - 1);
            }
            let item = self.pending.remove_at(n - 1);
            proof {
                assert(self.pending@.dom() =~= mid.dom().remove(item.0));
                assert(mid.dom().contains(item.0) && item.1 == mid[item.0]);
                assert(old(self).pending@.dom().contains(item.0));
            }
            out.push(item);
        }
        proof {
            assert(self.pending@ =~= Map::<RawKey, PendingBatch>::empty());
        }
        out
    }
}

/// A batcher before and after a frame was taken in, and the batch that is to be sent.
pub open spec fn frame_batched(
    before: RelayBatcher,
    dest: RawKey,
    addr: String,
    sub: Seq<u8>,
    r: Option<PendingBatch>,
    after: RelayBatcher,
) -> bool {
    &&& after.limit() == before.limit()
    &&& ({
        let frames = before.frames_for(dest).push(sub);
        &&& r is Some <==> counted_bytes(frames) >= before.limit()
        &&& r matches Some(b) ==> {
            &&& b.addr == addr
            &&& packets_view(b.frames@) == frames
            &&& b.bytes == counted_bytes(frames)
            &&& after.waiting() == before.waiting().remove(dest)
        }
        &&& r is None ==> {
            &&& after.waiting().dom().contains(dest)
            &&& after.waiting()[dest].addr == addr
            &&& after.frames_for(dest) == frames
            &&& after.waiting() == before.waiting().insert(
                dest,
                after.waiting()[dest],
            )
        }
    })
}

/// Counters of a running server.
pub struct Stats {
    pub packets_in: u64,
    pub packets_out: u64,
    pub bytes_relayed: u64,
    /// Packets that were dropped because a worker's queue was full.
    pub packets_dropped: u64,
}

impl Default for Stats {
    fn default() -> (r: Self)
        ensures
            r == (Stats { packets_in: 0, packets_out: 0, bytes_relayed: 0, packets_dropped: 0 }),
    {
        Stats { packets_in: 0, packets_out: 0, bytes_relayed: 0, packets_dropped: 0 }
    }
}

impl Stats {
    pub fn record_in(&mut self)
        ensures
            *final(self) == (Stats {
                packets_in: ((old(self).packets_in + 1) % 0x1_0000_0000_0000_0000) as u64,
                ..*old(self)
            }),
    {
        self.packets_in = self.packets_in.wrapping_add(1);
    }

    /// Counts a packet of `len` bytes that was relayed.
    pub fn record_relayed(&mut self, len: usize)
        ensures
            *final(self) == (Stats {
                packets_out: ((old(self).packets_out + 1) % 0x1_0000_0000_0000_0000) as u64,
                bytes_relayed: ((old(self).bytes_relayed + len) % 0x1_0000_0000_0000_0000) as u64,
                ..*old(self)
            }),
    {
        self.packets_out = self.packets_out.wrapping_add(1);
        self.bytes_relayed = self.bytes_relayed.wrapping_add(len as u64);
    }

    pub fn record_dropped(&mut self)
        ensures
            *final(self) == (Stats {
                packets_dropped: ((old(self).packets_dropped + 1) % 0x1_0000_0000_0000_0000) as u64,
                ..*old(self)
            }),
    {
        self.packets_dropped = self.packets_dropped.wrapping_add(1);
    }
}

/// One byte more of an FNV-1a hash.
pub open spec fn fnv_step(h: u64, b: u64) -> u64 {
    (h ^ b).wrapping_mul(0x100000001b3)
}

/// The FNV-1a hash of some bytes, from `h` on.
pub open spec fn fnv(h: u64, bytes: Seq<u8>) -> u64
    decreases bytes.len(),
{
    if bytes.len() == 0 {
        h
    } else {
        fnv_step(fnv(h, bytes.drop_last()), bytes.last() as u64)
    }
}

/// The hash by which the packets of a source are given to a worker.
pub open spec fn source_hash(src: Endpoint) -> u64 {
    fnv(0xcbf29ce484222325, address_bytes(src.ip)) ^ (src.port as u64)
}

fn fnv_bytes(h0: u64, bytes: &[u8]) -> (h: u64)
    ensures
        h == fnv(h0, bytes@),
{
    let mut h: u64 = h0;
    let mut i: usize = 0;
    assert(bytes@.take(0) =~= Seq::<u8>::empty());
    while i < bytes.len()
        invariant
            i <= bytes@.len(),
            h == fnv(h0, bytes@.take(i as int)),
        decreases bytes@.len() - i,
    {
        assert(bytes@.take(i + 1).drop_last() =~= bytes@.take(i as int));
        h = (h ^ (bytes[i] as u64)).wrapping_mul(0x100000001b3);
        i = i + 1;
    }
    assert(bytes@.take(bytes@.len() as int) =~= bytes@);
    h
}

/// The worker, of `n`, that handles the packets of a source: always the same one,
/// so that they are handled in order.
#[verifier::truncate]
pub fn shard_index(src: &Endpoint, n: usize) -> (r: usize)
    ensures
        n <= 1 ==> r == 0,
        n > 1 ==> r == (source_hash(*src) as usize) % n,
        n > 0 ==> r < n,
{
    if n <= 1 {
        return 0;
    }
    let base: u64 = match &src.ip {
        IpAddress::V4(b) => fnv_bytes(0xcbf29ce484222325, b.as_slice()),
        IpAddress::V6(b) => fnv_bytes(0xcbf29ce484222325, b.as_slice()),
    };
    let h: u64 = base ^ (src.port as u64);
    (h as usize) % n
}

/// How many workers a machine with this much parallelism gets: two to eight, and
/// four where it is not known.
pub fn default_worker_count(parallelism: Option<usize>) -> (r: usize)
    ensures
        r == (match parallelism {
            Some(p) => if p < 2 {
                2
            } else if p > 8 {
                8
            } else {
                p
            },
            None => 4usize,
        }),
{
    match parallelism {
        Some(p) => if p < 2 {
            2
        } else if p > 8 {
            8
        } else {
            p
        },
        None => 4,
    }
}

/// No frame passes from one room to another: where the source is registered, the
/// destination is in its room.
pub proof fn rooms_are_isolated(
    before: RouteTable,
    now: RouteTable,
    sessions: Map<RawKey, SessionEntry>,
    rooms_enabled: bool,
    by_rk: bool,
    src_key: RawKey,
    dest: RawKey,
)
    requires
        relay_party(now, by_rk, src_key) is Some,
        forwarded(before, now, sessions, rooms_enabled, by_rk, src_key, dest) is Some,
    ensures
        forwarded(before, now, sessions, rooms_enabled, by_rk, src_key, dest)->0.room@
            == relay_party(now, by_rk, src_key)->0.room@,
{
}

/// With rooms in use, a source that is not registered reaches nobody.
pub proof fn unregistered_sources_reach_nobody(
    before: RouteTable,
    now: RouteTable,
    sessions: Map<RawKey, SessionEntry>,
    by_rk: bool,
    src_key: RawKey,
    dest: RawKey,
)
    requires
        relay_party(now, by_rk, src_key) is None,
    ensures
        forwarded(before, now, sessions, true, by_rk, src_key, dest) is None,
{
}

/// A source without a session reaches nobody, whatever key it claims to be.
pub proof fn forged_sources_reach_nobody(
    before: RouteTable,
    now: RouteTable,
    sessions: Map<RawKey, SessionEntry>,
    rooms_enabled: bool,
    src_key: RawKey,
    dest: RawKey,
)
    requires
        !active_keys(sessions).contains(src_key),
    ensures
        forwarded(before, now, sessions, rooms_enabled, false, src_key, dest) is None,
{
}

/// The key and content of a part of a batch can be told apart: building a part and
/// taking it apart gives both back.
pub proof fn subframes_are_injective(k1: Seq<u8>, c1: Seq<u8>, k2: Seq<u8>, c2: Seq<u8>)
    requires
        k1.len() == 32 && k2.len() == 32,
        k1 + c1 == k2 + c2,
    ensures
        k1 == k2,
        c1 == c2,
{
    assert((k1 + c1).take(32) =~= k1);
    assert((k2 + c2).take(32) =~= k2);
    assert((k1 + c1).skip(32) =~= c1);
    assert((k2 + c2).skip(32) =~= c2);
}

} // verus!
