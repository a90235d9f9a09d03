//! Sending, sending again, rotating keys, keeping sessions alive and dropping dead
//! ones.
use vstd::prelude::*;
use vstd::string::*;
use vstd::utf8::*;
use crate::client::laws::{
    all_is_sent_again, is_admitted_right, is_planned_right, packets_are_admitted_right,
    silent_peers_are_looked_up_again,
};
use crate::client::outbox::Outbox;
use crate::client::peer::{
    elapsed, elapsed_ms, hello_sealed, key_above, rekey_sealed, sealed_views, sent_again_all,
    xor_bytes, salt_bytes, Admission, PeerSession, Sealed, SealedView, SendPlan,
};
use crate::client::outbox::ESTABLISHED_IDLE_MS;
use crate::table::{same_raw_key, RawKey};

verus! {

/// What is needed to rotate a routing key: the keys and the salt that the session
/// key is to be derived with.
#[derive(Clone, Copy)]
pub struct RekeyRequest {
    pub peer_rk: RawKey,
    pub salt: [u8; 12],
}

/// A HELLO that keeps a peer alive through the relay.
pub struct Keepalive {
    pub pk: RawKey,
    pub hello: Sealed,
}

/// The HELLOs with the peers that they are for.
pub open spec fn keepalives_view(v: Seq<Keepalive>) -> Seq<(RawKey, SealedView)> {
    v.map_values(|k: Keepalive| (k.pk, k.hello@))
}

/// The data plane before and after a packet was to be sent to a peer.
pub open spec fn packet_enqueued(
    before: Outbox,
    pk: RawKey,
    payload: Seq<u8>,
    now: u64,
    r: Option<Admission>,
    after: Outbox,
) -> bool {
    &&& (r is Some <==> before.peers@.dom().contains(pk))
    &&& (r is None ==> after.peers@ == before.peers@)
    &&& (r matches Some(a) ==> {
        &&& after.peers@.dom().contains(pk)
        &&& after.peers@ == before.peers@.insert(pk, after.peers@[pk])
        &&& before.peers@[pk].enqueued(
            payload,
            now,
            a,
            after.peers@[pk],
        )
    })
    &&& after == (Outbox { peers: after.peers, ..before })
}

/// The data plane before and after a routing key was rotated, and the announcement.
pub open spec fn rekey_begun(
    before: Outbox,
    pk: RawKey,
    rk_priv: RawKey,
    rk_pub: RawKey,
    new_salt: [u8; 12],
    new_key: RawKey,
    now: u64,
    r: Option<Sealed>,
    after: Outbox,
) -> bool {
    &&& (r is Some <==> before.peers@.dom().contains(pk) && before.peers@[pk].epoch
        < u32::MAX)
    &&& (r is None ==> after.peers@ == before.peers@)
    &&& (r matches Some(frame) ==> {
        let s = before.peers@[pk];
        &&& frame@ == rekey_sealed(s.active_key(), s.epoch, rk_pub, new_salt)
        &&& after.peers@ == before.peers@.insert(
            pk,
            PeerSession {
                rk_priv: Some(rk_priv),
                rk_pub: Some(rk_pub),
                my_salt: Some(new_salt),
                peer_key: Some(new_key),
                epoch: (s.epoch + 1) as u32,
                last_rekey: now,
                ..s
            },
        )
    })
    &&& after == (Outbox { peers: after.peers, ..before })
}

/// The data plane before and after the packets to a peer were looked through.
pub open spec fn peer_sent_again(
    before: Outbox,
    pk: RawKey,
    now: u64,
    r: Vec<Sealed>,
    after: Outbox,
) -> bool {
    &&& (if before.peers@.dom().contains(pk) && before.peers@[pk].peer_key is Some {
        let s0 = before.peers@[pk];
        let s1 = after.peers@[pk];
        &&& sent_again_all(s0, now, sealed_views(r@), s1)
        &&& after.peers@ == before.peers@.insert(pk, s1)
    } else {
        r@ == Seq::<Sealed>::empty() && after.peers@ == before.peers@
    })
    &&& after == (Outbox { peers: after.peers, ..before })
}

/// The data plane before and after dead sessions were dropped, and their peers.
pub open spec fn peers_pruned(
    before: Outbox,
    now: u64,
    r: Vec<RawKey>,
    after: Outbox,
) -> bool {
    &&& r@.to_set() == dead_peers(before, now)
    &&& peers_dropped(before, dead_peers(before, now), after)
}

/// The data plane before and after a packet was about to be sent to a peer.
pub open spec fn sending_planned(
    before: Outbox,
    pk: RawKey,
    now: u64,
    r: Option<SendPlan>,
    after: Outbox,
) -> bool {
    &&& (r is Some <==> before.peers@.dom().contains(pk))
    &&& (r is None ==> after.peers@ == before.peers@)
    &&& (r matches Some(p) ==> {
        let s = before.peers@[pk];
        let asks = s.wants_requery(now);
        &&& asks ==> p.requery is Some && p.requery->0@ == s.ip@
        &&& !asks ==> p.requery is None
        &&& p.rekey_due == (before.rekey_every_pkts > 0 && (s.sent_pkts + 1) % (
        before.rekey_every_pkts as int) == 0)
        &&& after.peers@ == before.peers@.insert(
            pk,
            PeerSession {
                last_requery: if asks {
                    Some(now)
                } else {
                    s.last_requery
                },
                sent_pkts: (s.sent_pkts + 1) as u64,
                ..s
            },
        )
    })
    &&& after == (Outbox { peers: after.peers, ..before })
}

/// What is needed to rotate the routing key of the session with a peer.
pub open spec fn rekey_wanted(
    o: Outbox,
    pk: RawKey,
    new_salt: [u8; 12],
    r: Option<RekeyRequest>,
) -> bool {
    let s = o.peers@[pk];
    let may = o.peers@.dom().contains(pk) && s.peer_key is Some && key_above(
        o.local_pub,
        pk,
    ) && s.peer_rk_pub is Some && s.epoch < u32::MAX;
    &&& r is Some <==> may
    &&& r matches Some(q) ==> s.peer_rk_pub == Some(q.peer_rk) && q.salt@ == xor_bytes(
        new_salt@,
        salt_bytes(s.peer_salt),
    )
}

impl Outbox {
    /// Plans the sending of a packet.
    fn plan_packet(&mut self, pk: &RawKey, now: u64) -> (r: Option<SendPlan>)
        requires
            old(self).wf(),
            old(self).peers@.dom().contains(*pk) ==> old(self).peers@[*pk].sent_pkts < u64::MAX,
        ensures
            final(self).wf(),
            sending_planned(*old(self), *pk, now, r, *final(self)),
    {
        match self.take_out(pk) {
            Some(s) => {
                let mut s = s;
                let plan = s.plan_send(now, self.rekey_every_pkts);
                self.put_back(pk, s);
                assert(self.peers@ =~= old(self).peers@.insert(*pk, s));
                Some(plan)
            },
            None => {
                assert(self.peers@ =~= old(self).peers@);
                None
            },
        }
    }

    /// Takes note that a packet is about to be sent to a peer, and says what else is
    /// due. There is nothing to say of an unknown peer.
    pub fn plan_send(&mut self, pk: &RawKey, now: u64) -> (r: Option<SendPlan>)
        requires
            old(self).wf(),
            old(self).peers@.dom().contains(*pk) ==> old(self).peers@[*pk].sent_pkts < u64::MAX,
        ensures
            final(self).wf(),
            sending_planned(*old(self), *pk, now, r, *final(self)),
            old(self).peers@.dom().contains(*pk) ==> is_planned_right(
                *old(self),
                *pk,
                now,
                r,
                *final(self),
            ),
    {
        let r = self.plan_packet(pk, now);
        proof {
            if old(self).peers@.dom().contains(*pk) {
                silent_peers_are_looked_up_again(*old(self), *pk, now, r, *self);
            }
        }
        r
    }

    /// Takes in a packet to be sent to a peer. There is no answer for an unknown
    /// peer.
    pub fn enqueue(&mut self, pk: &RawKey, payload: &[u8], now: u64) -> (r: Option<Admission>)
        requires
            old(self).wf(),
            old(self).peers@.dom().contains(*pk) ==> old(self).peers@[*pk].send_seq < u64::MAX,
        ensures
            final(self).wf(),
            packet_enqueued(*old(self), *pk, payload@, now, r, *final(self)),
            r is Some ==> is_admitted_right(
                *old(self),
                *pk,
                payload@,
                now,
                r->0,
                *final(self),
            ),
    {
        match self.take_out(pk) {
            Some(s) => {
                let mut s = s;
                let a = s.enqueue(payload, now);
                self.put_back(pk, s);
                assert(self.peers@ =~= old(self).peers@.insert(*pk, s));
                proof {
                    packets_are_admitted_right(*old(self), *pk, payload@, now, a, *self);
                }
                Some(a)
            },
            None => {
                assert(self.peers@ =~= old(self).peers@);
                None
            },
        }
    }

    /// The packets to a peer that are to be sent again.
    pub fn retransmit(&mut self, pk: &RawKey, now: u64) -> (r: Vec<Sealed>)
        requires
            old(self).wf(),
        ensures
            final(self).wf(),
            peer_sent_again(*old(self), *pk, now, r, *final(self)),
            old(self).peers@.dom().contains(*pk) && old(self).peers@[*pk].peer_key is Some
                ==> all_is_sent_again(
                old(self).peers@[*pk],
                now,
                sealed_views(r@),
                final(self).peers@[*pk],
            ),
    {
        match self.take_out(pk) {
            Some(s) => {
                let mut s = s;
                let out = s.retransmit(now);
                self.put_back(pk, s);
                assert(self.peers@ =~= old(self).peers@.insert(*pk, s));
                proof {
                    if old(self).peers@[*pk].peer_key is None {
                        assert(self.peers@ =~= old(self).peers@);
                        assert(sealed_views(out@).len() == out@.len());
                        assert(out@ =~= Seq::<Sealed>::empty());
                    }
                }
                out
            },
            None => {
                assert(self.peers@ =~= old(self).peers@);
                Vec::new()
            },
        }
    }

    /// The public keys of all peers.
    pub fn peer_keys(&self) -> (r: Vec<RawKey>)
        requires
            self.wf(),
        ensures
            r@ == self.peers.ids(),
            r@.to_set() == self.peers@.dom(),
            r@.no_duplicates(),
    {
        let mut out: Vec<RawKey> = Vec::new();
        let mut i: usize = 0;
        while i < self.peers.len()
            invariant
                self.wf(),
                i <= self.peers.ids().len(),
                out@ == self.peers.ids().take(i as int),
            decreases self.peers.ids().len() - i,
        {
            out.push(*self.peers.key_at(i));
            assert(out@ =~= self.peers.ids().take(i + 1));
            i = i + 1;
        }
        proof {
            self.peers.lemma_dom();
            assert(out@ =~= self.peers.ids());
        }
        out
    }

    /// Whether the session with a peer is so old that its routing key is due for
    /// rotation.
    pub open spec fn rekey_is_due(&self, pk: RawKey, now: u64) -> bool {
        &&& self.rekey_every_secs > 0
        &&& self.peers@.dom().contains(pk)
        &&& self.peers@[pk].peer_key is Some
        &&& elapsed_ms(now, self.peers@[pk].last_rekey) >= self.rekey_every_secs * 1000
    }

    pub fn rekey_due(&self, pk: &RawKey, now: u64) -> (r: bool)
        requires
            self.wf(),
        ensures
            r == self.rekey_is_due(*pk, now),
    {
        if self.rekey_every_secs == 0 {
            return false;
        }
        match self.peers.get(pk) {
            Some(s) => {
                let secs: u64 = elapsed(now, s.last_rekey) / 1000;
                s.established() && secs >= self.rekey_every_secs
            },
            None => false,
        }
    }

    /// What is needed to rotate the routing key of the session with a peer, with a
    /// new salt; nothing where this side may not rotate it now.
    pub fn rekey_request(&self, pk: &RawKey, new_salt: [u8; 12]) -> (r: Option<RekeyRequest>)
        requires
            self.wf(),
        ensures
            rekey_wanted(*self, *pk, new_salt, r),
    {
        match self.peers.get(pk) {
            Some(s) => {
                if !s.may_rekey(&self.local_pub) || s.epoch == u32::MAX {
                    return None;
                }
                match s.peer_rk_pub {
                    Some(peer_rk) => Some(RekeyRequest { peer_rk, salt: s.rekey_salt(new_salt) }),
                    None => None,
                }
            },
            None => None,
        }
    }

    /// Rotates the routing key of the session with a peer. Returns the announcement,
    /// under the key that was in use so far.
    pub fn begin_rekey(
        &mut self,
        pk: &RawKey,
        rk_priv: RawKey,
        rk_pub: RawKey,
        new_salt: [u8; 12],
        new_key: RawKey,
        now: u64,
    ) -> (r: Option<Sealed>)
        requires
            old(self).wf(),
        ensures
            final(self).wf(),
            rekey_begun(*old(self), *pk, rk_priv, rk_pub, new_salt, new_key, now, r, *final(self)),
    {
        match self.take_out(pk) {
            Some(s) => {
                let mut s = s;
                let mut frame: Option<Sealed> = None;
                if s.epoch < u32::MAX {
                    frame = Some(s.begin_rekey(rk_priv, rk_pub, new_salt, new_key, now));
                }
                self.put_back(pk, s);
                assert(self.peers@ =~= old(self).peers@.insert(*pk, s));
                assert(frame is None ==> self.peers@ =~= old(self).peers@);
                frame
            },
            None => {
                assert(self.peers@ =~= old(self).peers@);
                None
            },
        }
    }

    /// The HELLO for a peer, under the current key.
    pub fn build_hello(&self, pk: &RawKey) -> (r: Option<Sealed>)
        requires
            self.wf(),
        ensures
            ({
                let s = self.peers@[*pk];
                if self.peers@.dom().contains(*pk) && s.rk_pub is Some && s.my_salt is Some {
                    r is Some && r->0@ == hello_sealed(
                        s.active_key(),
                        s.epoch,
                        s.rk_pub->0,
                        s.my_salt->0,
                        encode_utf8(self.local_ip@),
                    )
                } else {
                    r is None
                }
            }),
    {
        match self.peers.get(pk) {
            Some(s) => s.build_hello(self.local_ip.as_str()),
            None => None,
        }
    }

    /// The HELLOs that keep all peers alive through the relay, in the order of the peers,
    /// none for a peer without a routing key and salt.
    pub fn keepalives(&self) -> (r: Vec<Keepalive>)
        requires
            self.wf(),
        ensures
            keepalives_view(r@) == self.keepalives_of(self.peers.ids()),
    {
        let keys = self.peer_keys();
        let mut out: Vec<Keepalive> = Vec::new();
        assert(keys@.take(0) =~= Seq::empty());
        assert(keepalives_view(out@) =~= Seq::empty());
        let mut i: usize = 0;
        while i < keys.len()
            invariant
                self.wf(),
                i <= keys@.len(),
                keys@ == self.peers.ids(),
                keys@.to_set() == self.peers@.dom(),
                keepalives_view(out@) == self.keepalives_of(keys@.take(i as int)),
            decreases keys@.len() - i,
        {
            let pk: RawKey = keys[i];
            proof {
                assert(keys@.to_set().contains(pk));
                assert(keys@.take(i + 1).drop_last() =~= keys@.take(i as int));
            }
            let ghost before = out@;
            if let Some(hello) = self.build_hello(&pk) {
                out.push(Keepalive { pk, hello });
                assert(keepalives_view(out@) =~= keepalives_view(before).push((pk, hello@)));
            }
            i = i + 1;
        }
        assert(keys@.take(keys@.len() as int) =~= keys@);
        out
    }

    /// The HELLOs that keep some peers alive.
    pub open spec fn keepalives_of(&self, keys: Seq<RawKey>) -> Seq<(RawKey, SealedView)>
        decreases keys.len(),
    {
        if keys.len() == 0 {
            Seq::empty()
        } else {
            let rest = self.keepalives_of(keys.drop_last());
            let s = self.peers@[keys.last()];
            match (s.rk_pub, s.my_salt) {
                (Some(rk), Some(salt)) => rest.push(
                    (
                        keys.last(),
                        hello_sealed(s.active_key(), s.epoch, rk, salt, encode_utf8(self.local_ip@)),
                    ),
                ),
                _ => rest,
            }
        }
    }

    /// How long a session may wait for its handshake, in milliseconds: twice the time
    /// for hole punching.
    pub open spec fn handshake_limit_ms(&self) -> int {
        2 * self.hole_punch.timeout_ms
    }

    /// Whether a session is dead: its handshake has not come for too long, or it was
    /// established and nothing was heard for a quarter of an hour.
    pub open spec fn is_dead(&self, s: PeerSession, now: u64) -> bool {
        if s.peer_key is None {
            elapsed_ms(now, s.last_seen) > self.handshake_limit_ms()
        } else {
            elapsed_ms(now, s.last_seen) > ESTABLISHED_IDLE_MS
        }
    }

    fn session_dead(&self, s: &PeerSession, now: u64) -> (r: bool)
        ensures
            r == self.is_dead(*s, now),
    {
        let idle: u64 = elapsed(now, s.last_seen);
        if s.established() {
            idle > ESTABLISHED_IDLE_MS
        } else {
            let t: u64 = self.hole_punch.timeout_ms;
            idle / 2 > t || (idle / 2 == t && idle % 2 == 1)
        }
    }

    /// Drops a peer, with its entries in the indexes.
    fn drop_peer(&mut self, pk: &RawKey)
        requires
            old(self).wf(),
        ensures
            final(self).wf(),
            final(self).peers@ == old(self).peers@.remove(*pk),
            final(self).rk_index@ == (if old(self).peers@.dom().contains(*pk) {
                unbound_rk(old(self).rk_index@, *pk, old(self).peers@[*pk].peer_relay_rk)
            } else {
                old(self).rk_index@
            }),
            final(self).ip_index@ == (if old(self).peers@.dom().contains(*pk) {
                unbound_ip(old(self).ip_index@, *pk, old(self).peers@[*pk].ip@)
            } else {
                old(self).ip_index@
            }),
            *final(self) == (Outbox {
                peers: final(self).peers,
                rk_index: final(self).rk_index,
                ip_index: final(self).ip_index,
                ..*old(self)
            }),
    {
        if let Some(s) = self.take_out(pk) {
            if let Some(rk) = s.peer_relay_rk {
                let mine = match self.rk_index.get(&rk) {
                    Some(k) => same_raw_key(k, pk),
                    None => false,
                };
                if mine {
                    self.rk_index.remove(&rk);
                }
            }
            if !s.ip.as_str().is_empty() {
                let mine = match self.ip_index.get(&s.ip) {
                    Some(k) => same_raw_key(k, pk),
                    None => false,
                };
                if mine {
                    self.ip_index.remove(&s.ip);
                }
            }
        }
    }
}

/// An index of relay keys after a peer's own was taken out.
pub open spec fn unbound_rk(
    idx: Map<RawKey, RawKey>,
    pk: RawKey,
    rk: Option<RawKey>,
) -> Map<RawKey, RawKey> {
    if rk is Some && idx.dom().contains(rk->0) && idx[rk->0] == pk {
        idx.remove(rk->0)
    } else {
        idx
    }
}

/// An index of virtual addresses after a peer's own was taken out.
pub open spec fn unbound_ip(idx: Map<Seq<char>, RawKey>, pk: RawKey, ip: Seq<char>) -> Map<
    Seq<char>,
    RawKey,
> {
    if ip.len() > 0 && idx.dom().contains(ip) && idx[ip] == pk {
        idx.remove(ip)
    } else {
        idx
    }
}

/// The peers whose sessions are dead.
pub open spec fn dead_peers(o: Outbox, now: u64) -> Set<RawKey> {
    Set::new(|k: RawKey| o.peers@.dom().contains(k) && o.is_dead(o.peers@[k], now))
}

/// The virtual addresses that some peers hold as their own.
pub open spec fn own_ips(o: Outbox, keys: Set<RawKey>) -> Set<Seq<char>> {
    Set::new(
        |ip: Seq<char>|
            {
                &&& ip.len() > 0
                &&& o.ip_index@.dom().contains(ip)
                &&& keys.contains(o.ip_index@[ip])
                &&& o.peers@.dom().contains(o.ip_index@[ip])
                &&& o.peers@[o.ip_index@[ip]].ip@ == ip
            },
    )
}

/// The relay keys that some peers hold as their own.
pub open spec fn own_rks(o: Outbox, keys: Set<RawKey>) -> Set<RawKey> {
    Set::new(
        |rk: RawKey|
            {
                &&& o.rk_index@.dom().contains(rk)
                &&& keys.contains(o.rk_index@[rk])
                &&& o.peers@.dom().contains(o.rk_index@[rk])
                &&& o.peers@[o.rk_index@[rk]].peer_relay_rk == Some(rk)
            },
    )
}

/// The data plane before and after some peers were dropped.
pub open spec fn peers_dropped(before: Outbox, gone: Set<RawKey>, after: Outbox) -> bool {
    &&& after.peers@ == before.peers@.remove_keys(gone)
    &&& after.ip_index@ == before.ip_index@.remove_keys(own_ips(before, gone))
    &&& after.rk_index@ == before.rk_index@.remove_keys(own_rks(before, gone))
    &&& after == (Outbox {
        peers: after.peers,
        ip_index: after.ip_index,
        rk_index: after.rk_index,
        ..before
    })
}

impl Outbox {
    /// Drops the peers whose sessions are dead. Returns them.
    pub fn prune_peers(&mut self, now: u64) -> (r: Vec<RawKey>)
        requires
            old(self).wf(),
        ensures
            final(self).wf(),
            peers_pruned(*old(self), now, r, *final(self)),
    {
        let mut dead: Vec<RawKey> = Vec::new();
        let n: usize = self.peers.len();
        let mut i: usize = 0;
        let ghost ids = self.peers.ids();
        let ghost gone = dead_peers(*self, now);
        while i < n
            invariant
                *self == *old(self),
                self.wf(),
                ids == self.peers.ids(),
                gone == dead_peers(*self, now),
                n == ids.len(),
                i <= n,
                forall|j: int| 0 <= j < dead@.len() ==> gone.contains(#[trigger] dead@[j]),
                forall|x: int|
                    0 <= x < i && gone.contains(#[trigger] ids[x]) ==> dead@.contains(ids[x]),
            decreases n - i,
        {
            let ghost before = dead@;
            let s = self.peers.value_at(i);
            if self.session_dead(s, now) {
                dead.push(*self.peers.key_at(i));
                assert(dead@[before.len() as int] == ids[i as int]);
            }
            proof {
                assert forall|x: int|
                    0 <= x < i + 1 && gone.contains(#[trigger] ids[x]) implies dead@.contains(
                    ids[x],
                ) by {
                    if x < i {
                        assert(before.contains(ids[x]));
                        let j = choose|j: int| 0 <= j < before.len() && before[j] == ids[x];
                        assert(dead@[j] == ids[x]);
                    }
                }
            }
            i = i + 1;
        }
        proof {
            self.peers.lemma_dom();
            assert forall|k: RawKey| gone.contains(k) == dead@.to_set().contains(k) by {
                if gone.contains(k) {
                    assert(ids.contains(k));
                    let x = choose|x: int| 0 <= x < ids.len() && ids[x] == k;
                    assert(gone.contains(ids[x]));
                }
                if dead@.contains(k) {
                    let j = choose|j: int| 0 <= j < dead@.len() && dead@[j] == k;
                    assert(gone.contains(dead@[j]));
                }
            }
            assert(dead@.to_set() =~= gone);
        }
        self.drop_peers(&dead);
        dead
    }

    /// Drops some peers.
    fn drop_peers(&mut self, keys: &Vec<RawKey>)
        requires
            old(self).wf(),
        ensures
            final(self).wf(),
            peers_dropped(*old(self), keys@.to_set(), *final(self)),
    {
        let ghost o = *self;
        proof {
            let none = keys@.take(0).to_set();
            assert(self.peers@.remove_keys(none) =~= self.peers@);
            assert(self.ip_index@.remove_keys(own_ips(o, none)) =~= self.ip_index@);
            assert(self.rk_index@.remove_keys(own_rks(o, none)) =~= self.rk_index@);
        }
        let mut j: usize = 0;
        while j < keys.len()
            invariant
                self.wf(),
                j <= keys@.len(),
                o == *old(self),
                peers_dropped(o, keys@.take(j as int).to_set(), *self),
            decreases keys@.len() - j,
        {
            let ghost done = keys@.take(j as int).to_set();
            let ghost next = keys@.take(j + 1).to_set();
            let ghost k = keys@[j as int];
            let ghost t0 = keys@.take(j as int);
            let ghost t1 = keys@.take(j + 1);
            proof {
                assert forall|x: RawKey| next.contains(x) == done.insert(k).contains(x) by {
                    if next.contains(x) {
                        assert(t1.contains(x));
                        let y = choose|y: int| 0 <= y < t1.len() && t1[y] == x;
                        if y < j {
                            assert(t0[y] == x);
                        }
                    }
                    if done.contains(x) {
                        assert(t0.contains(x));
                        let y = choose|y: int| 0 <= y < t0.len() && t0[y] == x;
                        assert(t1[y] == x);
                    }
                    assert(t1[j as int] == k);
                }
                assert(next =~= done.insert(k));
            }
            self.drop_peer(&keys[j]);
            proof {
                assert(self.peers@ =~= o.peers@.remove_keys(next));
                assert(self.ip_index@ =~= o.ip_index@.remove_keys(own_ips(o, next)));
                assert(self.rk_index@ =~= o.rk_index@.remove_keys(own_rks(o, next)));
            }
            j = j + 1;
        }
        assert(keys@.take(keys@.len() as int) =~= keys@);
    }
}

} // verus!
