//! What keeps the handshake from abuse: a memory of nonces, and a limit on how
//! often one address may ask.
//!
//! Instants are seconds since the Unix epoch.
use vstd::prelude::*;
use crate::bytes::same_bytes;
use crate::net::IpAddress;
use crate::table::{RawKey, Table};

verus! {

/// How many nonces of one device are remembered.
pub const REPLAY_CACHE_LEN: usize = 64;

/// The time over which requests are counted.
pub const RATE_WINDOW_SECS: u64 = 60;

/// The last nonces of each device.
pub struct ReplayCache {
    seen: Table<RawKey, Vec<[u8; 12]>>,
}

/// The nonces that are remembered once one more has come: the oldest goes where
/// there are too many.
pub open spec fn remembered(nonces: Seq<[u8; 12]>, nonce: [u8; 12]) -> Seq<[u8; 12]> {
    let grown = nonces.push(nonce);
    if grown.len() > REPLAY_CACHE_LEN {
        grown.skip(1)
    } else {
        grown
    }
}

fn same_nonce(a: &[u8; 12], b: &[u8; 12]) -> (r: bool)
    ensures
        r == (*a == *b),
{
    let r = same_bytes(a.as_slice(), b.as_slice());
    assert(r ==> *a =~= *b);
    r
}

impl ReplayCache {
    pub closed spec fn wf(&self) -> bool {
        self.seen.wf()
    }

    /// The nonces of a device that are remembered, oldest first.
    pub closed spec fn nonces(&self, device: RawKey) -> Seq<[u8; 12]> {
        if self.seen@.dom().contains(device) {
            self.seen@[device]@
        } else {
            Seq::empty()
        }
    }

    pub fn new() -> (r: Self)
        ensures
            r.wf(),
            forall|d: RawKey| r.nonces(d) == Seq::<[u8; 12]>::empty(),
    {
        ReplayCache { seen: Table::new() }
    }

    /// Whether a nonce of a device is new. A new one is remembered.
    pub fn replay_check(&mut self, ik_x: &RawKey, nonce: &[u8; 12]) -> (r: bool)
        requires
            old(self).wf(),
        ensures
            final(self).wf(),
            r == !old(self).nonces(*ik_x).contains(*nonce),
            forall|d: RawKey|
                #![trigger final(self).nonces(d)]
                final(self).nonces(d) == (if d == *ik_x && r {
                    remembered(old(self).nonces(d), *nonce)
                } else {
                    old(self).nonces(d)
                }),
    {
        let ghost before = self.nonces(*ik_x);
        let mut list: Vec<[u8; 12]> = match self.seen.remove(ik_x) {
            Some(v) => v,
            None => Vec::new(),
        };
        assert(list@ =~= before);
        let mut known = false;
        let mut i: usize = 0;
        while i < list.len()
            invariant
                i <= list@.len(),
                list@ == before,
                known == before.take(i as int).contains(*nonce),
            decreases list@.len() - i,
        {
            proof {
                let t0 = before.take(i as int);
                let t1 = before.take(i + 1);
                assert(t1[i as int] == before[i as int]);
                if t0.contains(*nonce) {
                    let y = choose|y: int| 0 <= y < t0.len() && t0[y] == *nonce;
                    assert(t1[y] == *nonce);
                }
                if t1.contains(*nonce) {
                    let y = choose|y: int| 0 <= y < t1.len() && t1[y] == *nonce;
                    if y < i {
                        assert(t0[y] == *nonce);
                    }
                }
            }
            if same_nonce(&list[i], nonce) {
                known = true;
            }
            i = i + 1;
        }
        assert(before.take(before.len() as int) =~= before);
        if !known {
            list.push(*nonce);
            if list.len() > REPLAY_CACHE_LEN {
                list.remove(0);
                assert(list@ =~= before.push(*nonce).skip(1));
            }
        }
        self.seen.insert(*ik_x, list);
        !known
    }
}

/// A nonce that was accepted is refused when it comes again, as long as fewer than
/// 64 others of the same device were accepted in between: it stays remembered
/// until then.
pub proof fn an_accepted_nonce_is_remembered(
    nonces: Seq<[u8; 12]>,
    nonce: [u8; 12],
    later: Seq<[u8; 12]>,
)
    requires
        nonces.len() <= 64,
        later.len() < 64,
    ensures
        remembered_all(remembered(nonces, nonce), later).contains(nonce),
        remembered(nonces, nonce).len() <= 64,
    decreases later.len(),
{
    let start = remembered(nonces, nonce);
    assert(start[start.len() - 1] == nonce);
    lemma_remembered_shift(start, start.len() - 1, later);
}

/// The nonces that are remembered once several more have come.
pub open spec fn remembered_all(nonces: Seq<[u8; 12]>, later: Seq<[u8; 12]>) -> Seq<[u8; 12]>
    decreases later.len(),
{
    if later.len() == 0 {
        nonces
    } else {
        remembered(remembered_all(nonces, later.drop_last()), later.last())
    }
}

proof fn lemma_remembered_shift(nonces: Seq<[u8; 12]>, at: int, later: Seq<[u8; 12]>)
    requires
        0 <= at < nonces.len() <= REPLAY_CACHE_LEN,
        at == nonces.len() - 1,
        later.len() < REPLAY_CACHE_LEN,
    ensures
        ({
            let r = remembered_all(nonces, later);
            &&& later.len() < r.len() <= REPLAY_CACHE_LEN
            &&& r[r.len() - 1 - later.len()] == nonces[at]
        }),
    decreases later.len(),
{
    if later.len() > 0 {
        lemma_remembered_shift(nonces, at, later.drop_last());
    }
}

/// How often each address asked of late.
pub struct RateLimiter {
    /// How many requests are allowed in the window; zero for any number.
    limit: usize,
    /// For each address the start of its window and the number of its requests.
    hits: Table<IpAddress, (u64, usize)>,
}

/// The window and count of an address after one request more.
pub open spec fn counted(before: Option<(u64, usize)>, now: u64) -> (u64, usize) {
    match before {
        Some((start, n)) => if now >= start && now - start >= RATE_WINDOW_SECS {
            (now, 1usize)
        } else if n < usize::MAX {
            (start, (n + 1) as usize)
        } else {
            (start, n)
        },
        None => (now, 1usize),
    }
}

/// Whether a request opens a new window for an address whose last one has passed.
pub open spec fn opens_window(before: Option<(u64, usize)>, now: u64) -> bool {
    match before {
        Some((start, _)) => now >= start && now - start >= RATE_WINDOW_SECS,
        None => false,
    }
}

/// The addresses whose window has passed.
pub open spec fn passed_windows(counts: Map<IpAddress, (u64, usize)>, now: u64) -> Set<IpAddress> {
    Set::new(
        |ip: IpAddress| counts.dom().contains(ip) && opens_window(Some(counts[ip]), now),
    )
}

impl RateLimiter {
    pub closed spec fn wf(&self) -> bool {
        self.hits.wf()
    }

    /// How many requests are allowed in the window; zero for any number.
    pub closed spec fn allowed(&self) -> usize {
        self.limit
    }

    /// The window and count of each address.
    pub closed spec fn counts(&self) -> Map<IpAddress, (u64, usize)> {
        self.hits@
    }

    /// The window and count of one address.
    pub open spec fn count_of(&self, ip: IpAddress) -> Option<(u64, usize)> {
        if self.counts().dom().contains(ip) {
            Some(self.counts()[ip])
        } else {
            None
        }
    }

    pub fn new(limit: usize) -> (r: Self)
        ensures
            r.wf(),
            r.allowed() == limit,
            r.counts() == Map::<IpAddress, (u64, usize)>::empty(),
    {
        RateLimiter { limit, hits: Table::new() }
    }

    /// Counts a request of an address and says whether it is one too many.
    pub fn rate_limited(&mut self, ip: &IpAddress, now: u64) -> (r: bool)
        requires
            old(self).wf(),
        ensures
            final(self).wf(),
            r == exceeds(*old(self), *ip, now),
            counted_once(*old(self), *ip, now, *final(self)),
    {
        if self.limit == 0 {
            return false;
        }
        let (start, n) = match self.hits.get(ip) {
            Some(h) => *h,
            None => (now, 0usize),
        };
        if now >= start && now - start >= RATE_WINDOW_SECS {
            self.hits.insert(*ip, (now, 1usize));
            return false;
        }
        let m: usize = if n < usize::MAX {
            n + 1
        } else {
            n
        };
        self.hits.insert(*ip, (start, m));
        m > self.limit
    }

    /// Forgets the addresses whose window has passed.
    pub fn forget_old(&mut self, now: u64)
        requires
            old(self).wf(),
        ensures
            final(self).wf(),
            final(self).allowed() == old(self).allowed(),
            final(self).counts() == old(self).counts().remove_keys(
                passed_windows(old(self).counts(), now),
            ),
    {
        let ghost m0 = self.hits@;
        let ghost gone = passed_windows(m0, now);
        let ghost mut done: Set<IpAddress> = Set::empty();
        let mut i: usize = 0;
        assert(m0.remove_keys(done) =~= m0);
        while i < self.hits.len()
            invariant
                self.hits.wf(),
                self.limit == old(self).limit,
                m0 == old(self).hits@,
                gone == passed_windows(m0, now),
                i <= self.hits.ids().len(),
                self.hits@ == m0.remove_keys(done),
                done.subset_of(gone),
                forall|j: int| 0 <= j < i ==> !gone.contains(#[trigger] self.hits.ids()[j]),
            decreases self.hits.ids().len() - i,
        {
            let (start, _) = *self.hits.value_at(i);
            let ghost k = self.hits.ids()[i as int];
            if now >= start && now - start >= RATE_WINDOW_SECS {
                self.hits.remove_at(i);
                proof {
                    assert(gone.contains(k));
                    assert(self.hits@ =~= m0.remove_keys(done.insert(k)));
                    done = done.insert(k);
                }
            } else {
                i = i + 1;
            }
        }
        proof {
            self.hits.lemma_dom();
            assert forall|k: IpAddress| gone.contains(k) implies done.contains(k) by {
                if !done.contains(k) {
                    let ids = self.hits.ids();
                    assert(self.hits@.dom().contains(k));
                    assert(ids.contains(k));
                    let j = choose|j: int| 0 <= j < ids.len() && ids[j] == k;
                    assert(!gone.contains(ids[j]));
                }
            }
            assert(done =~= gone);
        }
    }
}

/// Whether a request of an address at an instant is one too many.
pub open spec fn exceeds(limiter: RateLimiter, ip: IpAddress, now: u64) -> bool {
    &&& limiter.allowed() != 0
    &&& !opens_window(limiter.count_of(ip), now)
    &&& counted(limiter.count_of(ip), now).1 > limiter.allowed()
}

/// A limiter before and after a request of an address was counted. Without a limit
/// nothing is counted.
pub open spec fn counted_once(
    before: RateLimiter,
    ip: IpAddress,
    now: u64,
    after: RateLimiter,
) -> bool {
    &&& after.allowed() == before.allowed()
    &&& after.counts() == (if before.allowed() == 0 {
        before.counts()
    } else {
        before.counts().insert(ip, counted(before.count_of(ip), now))
    })
}

/// Within one window of an address no more requests pass than are allowed: a
/// request passes exactly while fewer than the limit were counted before it.
pub proof fn the_rate_limit_holds(limiter: RateLimiter, ip: IpAddress, now: u64)
    requires
        limiter.allowed() > 0,
        limiter.count_of(ip) is Some,
        now < (limiter.count_of(ip)->0).0 + RATE_WINDOW_SECS,
        (limiter.count_of(ip)->0).1 < usize::MAX,
    ensures
        counted(limiter.count_of(ip), now).1 == (limiter.count_of(ip)->0).1 + 1,
        exceeds(limiter, ip, now) == ((limiter.count_of(ip)->0).1 >= limiter.allowed()),
{
}

/// Without a limit every request passes.
pub proof fn zero_means_no_limit(limiter: RateLimiter, ip: IpAddress, now: u64)
    requires
        limiter.allowed() == 0,
    ensures
        !exceeds(limiter, ip, now),
{
}

} // verus!
