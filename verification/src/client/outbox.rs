//! The client's data plane: the peers, how they are found, and what is done with
//! packets to and from them.
//!
//! Keys are derived and packets encrypted by the program around the library; it
//! hands in what came out and performs what is decided here. Instants are
//! milliseconds of one clock that does not run backwards.
use vstd::prelude::*;
use vstd::string::*;
use vstd::utf8::*;
use std::collections::VecDeque;
use crate::client::aliases::Aliases;
use crate::client::config::HolePunchConfig;
use crate::bytes::be_nat;
use crate::client::laws::{
    acknowledgements_are_opened_right, data_is_opened_right, frees_the_window, is_acknowledgement,
    goes_the_way_that_works, is_opened_right, packets_go_the_way_that_works,
};
use crate::client::peer::{
    ack_sealed, beyond, elapsed_ms, hello_sealed, hello_taken_in, salt_bytes, total_len,
    window_view, xor_bytes, PeerSession, Route, Sealed, Transport, UnackedView,
};
use crate::client::reliable::{buffer_after, buffer_view, delivered_by, high_after, packets_view};
use crate::client::tunnel::{
    hello_payload, parse_ack_payload, parse_tunnel_packet, split_handshake, reads_as_frame,
    tunnel_frame, FRAME_HEADER_LEN, HANDSHAKE_EXTRA, TUNNEL_ACK, TUNNEL_DATA, TUNNEL_HELLO,
    TUNNEL_REKEY,
};
use crate::net::Endpoint;
use crate::outside::{from_utf8_lossy, lossy_text};
use crate::table::{same_raw_key, RawKey, Table};

verus! {

/// How many names learned from the server are kept.
pub const MAX_LEARNED: usize = 256;

/// How long a name learned from the server is trusted.
pub const LEARNED_TTL_MS: u64 = 60000;

/// How long an established session may be idle.
pub const ESTABLISHED_IDLE_MS: u64 = 900000;

/// How many earlier request numbers an answer may belong to.
pub const SESSION_RESP_WINDOW: u64 = 32;

/// Whether a peer may hold an address: nobody else does.
pub open spec fn may_hold(idx: Map<Seq<char>, RawKey>, ip: Seq<char>, owner: RawKey) -> bool {
    !idx.dom().contains(ip) || idx[ip] == owner
}

/// The holders of addresses after a peer has claimed one.
pub open spec fn claimed(idx: Map<Seq<char>, RawKey>, ip: Seq<char>, owner: RawKey) -> Map<
    Seq<char>,
    RawKey,
> {
    if may_hold(idx, ip, owner) {
        idx.insert(ip, owner)
    } else {
        idx
    }
}

/// Tries to bind a virtual address to a peer. An address that another peer holds
/// stays with it.
pub fn bind_ip_ownership(idx: &mut Table<String, RawKey>, ip: &str, owner: &RawKey) -> (r: bool)
    requires
        old(idx).wf(),
    ensures
        final(idx).wf(),
        r == may_hold(old(idx)@, ip@, *owner),
        final(idx)@ == claimed(old(idx)@, ip@, *owner),
{
    let key = ip.to_owned();
    match idx.get(&key) {
        Some(cur) => if same_raw_key(cur, owner) {
            idx.insert(key, *owner);
            true
        } else {
            false
        },
        None => {
            idx.insert(key, *owner);
            true
        },
    }
}

/// An address that a peer holds is not taken from it, whoever claims it or any other.
pub proof fn nobody_steals_an_address(
    idx: Map<Seq<char>, RawKey>,
    ip: Seq<char>,
    wanted: Seq<char>,
    claimant: RawKey,
)
    requires
        idx.dom().contains(ip),
        idx[ip] != claimant,
    ensures
        claimed(idx, wanted, claimant).dom().contains(ip),
        claimed(idx, wanted, claimant)[ip] == idx[ip],
{
}

/// The request numbers that an answer may belong to, the latest first.
pub open spec fn answer_numbers(last: u64) -> Seq<u64> {
    Seq::new(
        (if last >= SESSION_RESP_WINDOW {
            SESSION_RESP_WINDOW as int
        } else {
            last + 1
        }) as nat,
        |i: int| (last - i) as u64,
    )
}

/// The request numbers to try an answer with.
pub fn response_numbers(last: u64) -> (r: Vec<u64>)
    ensures
        r@ == answer_numbers(last),
{
    let lo: u64 = last.saturating_sub(SESSION_RESP_WINDOW - 1);
    let mut out: Vec<u64> = Vec::new();
    let mut n: u64 = last;
    loop
        invariant_except_break
            out@.len() == last - n,
        invariant
            lo <= n <= last,
            lo == (if last >= SESSION_RESP_WINDOW {
                (last - SESSION_RESP_WINDOW + 1) as u64
            } else {
                0
            }),
            forall|i: int| 0 <= i < out@.len() ==> out@[i] == last - i,
        ensures
            out@.len() == last - lo + 1,
            forall|i: int| 0 <= i < out@.len() ==> out@[i] == last - i,
        decreases n,
    {
        out.push(n);
        if n == lo {
            break;
        }
        n = n - 1;
    }
    assert(out@ =~= answer_numbers(last));
    out
}

/// A name learned from the server.
pub struct Learned {
    pub ip: String,
    pub at: u64,
}

/// The keys of a new session: the secret of the two long-term keys, and a fresh
/// routing key pair and salt.
#[derive(Clone, Copy)]
pub struct FreshKeys {
    pub handshake_key: RawKey,
    pub rk_priv: RawKey,
    pub rk_pub: RawKey,
    pub salt: [u8; 12],
}

/// The state of the data plane.
pub struct Outbox {
    pub peers: Table<RawKey, PeerSession>,
    /// The peers by virtual address.
    pub ip_index: Table<String, RawKey>,
    /// The peers by the address their packets come from.
    pub addr_index: Table<Endpoint, RawKey>,
    /// The peers by the key that a relay addresses them by.
    pub rk_index: Table<RawKey, RawKey>,
    /// The queries that wait for an answer.
    pub inflight: Table<String, ()>,
    pub server_addr: Endpoint,
    pub relay_addr: Endpoint,
    pub server_shared: RawKey,
    pub local_pub: RawKey,
    pub local_priv: RawKey,
    pub local_ip: String,
    pub hole_punch: HolePunchConfig,
    pub rekey_every_pkts: u64,
    pub rekey_every_secs: u64,
    /// How long a peer may be silent before its relay key is taken for lost.
    pub relay_recover_stale_ms: u64,
    pub tx_bytes: u64,
    pub rx_bytes: u64,
    /// The session key with the server, once there is one.
    pub session_sk: Option<RawKey>,
    /// The key that names the session with the server.
    pub session_pub: Option<RawKey>,
    /// The number of the last request to the server.
    pub session_seq: u64,
    pub relay_rk: RawKey,
    pub local_aliases: Aliases,
    pub learned_aliases: Table<String, Learned>,
}

/// How a message to the server is encrypted, and under which key it names its
/// sender.
#[derive(Clone, Copy)]
pub struct SignalingSeal {
    pub sender: RawKey,
    pub key: RawKey,
    /// The number of the request in the session; without a session the nonce is
    /// random.
    pub seq: Option<u64>,
}

/// How a relayed packet is addressed.
#[derive(Clone, Copy)]
pub struct RelayHeader {
    /// By relay keys, or by public keys.
    pub by_rk: bool,
    pub dest: RawKey,
    pub src: RawKey,
}

/// What came of looking for a name.
pub enum Resolution {
    Nothing,
    Known(String),
    /// The server has to be asked for it.
    Ask(String),
}

impl Outbox {
    pub open spec fn wf(&self) -> bool {
        &&& self.peers.wf()
        &&& self.ip_index.wf()
        &&& self.addr_index.wf()
        &&& self.rk_index.wf()
        &&& self.inflight.wf()
        &&& self.local_aliases.wf()
        &&& self.learned_aliases.wf()
        &&& forall|k: RawKey|
            self.peers@.dom().contains(k) ==> {
                &&& (#[trigger] self.peers@[k]).wf()
                &&& self.peers@[k].public_key == k
            }
    }

    /// How the next message to the server is encrypted.
    pub fn seal_signaling(&mut self) -> (r: SignalingSeal)
        requires
            old(self).session_seq < u64::MAX,
        ensures
            signaling_sealed(*old(self), r, *final(self)),
    {
        match (self.session_sk, self.session_pub) {
            (Some(sk), Some(sender)) => {
                self.session_seq = self.session_seq + 1;
                SignalingSeal { sender, key: sk, seq: Some(self.session_seq) }
            },
            _ => SignalingSeal { sender: self.local_pub, key: self.server_shared, seq: None },
        }
    }

    /// Takes note of a query, unless the same one waits for its answer already.
    pub fn begin_query(&mut self, key: &str) -> (r: bool)
        requires
            old(self).wf(),
        ensures
            final(self).wf(),
            r == !old(self).inflight@.dom().contains(key@),
            final(self).inflight@ == old(self).inflight@.insert(key@, ()),
            *final(self) == (Outbox { inflight: final(self).inflight, ..*old(self) }),
    {
        let k = key.to_owned();
        if self.inflight.contains(&k) {
            assert(self.inflight@ =~= self.inflight@.insert(key@, ()));
            return false;
        }
        self.inflight.insert(k, ());
        true
    }

    /// Takes note that a query was answered or given up.
    pub fn end_query(&mut self, key: &str)
        requires
            old(self).wf(),
        ensures
            final(self).wf(),
            final(self).inflight@ == old(self).inflight@.remove(key@),
            *final(self) == (Outbox { inflight: final(self).inflight, ..*old(self) }),
    {
        self.inflight.remove(&key.to_owned());
    }

    /// The peer that a relay key belongs to.
    pub fn resolve_rk_src(&self, src_rk: &RawKey) -> (r: Option<RawKey>)
        requires
            self.wf(),
        ensures
            match r {
                Some(k) => self.rk_index@.dom().contains(*src_rk) && k == self.rk_index@[*src_rk],
                None => !self.rk_index@.dom().contains(*src_rk),
            },
    {
        match self.rk_index.get(src_rk) {
            Some(k) => Some(*k),
            None => None,
        }
    }

    /// The peer that a part of a batch comes from: a known peer by its public key,
    /// else by its relay key, else an unknown one.
    pub fn batch_source(&self, src_key: &RawKey) -> (r: RawKey)
        requires
            self.wf(),
        ensures
            r == (if self.peers@.dom().contains(*src_key) || !self.rk_index@.dom().contains(
                *src_key,
            ) {
                *src_key
            } else {
                self.rk_index@[*src_key]
            }),
    {
        if self.peers.contains(src_key) {
            return *src_key;
        }
        match self.rk_index.get(src_key) {
            Some(k) => *k,
            None => *src_key,
        }
    }

    /// How a relayed packet to a peer is addressed: by relay keys where the peer's
    /// is known and it was heard of lately, else by public keys.
    pub open spec fn relay_header_of(&self, pk: RawKey, now: u64) -> RelayHeader {
        if self.peers@.dom().contains(pk) && elapsed_ms(now, self.peers@[pk].last_seen)
            <= self.relay_recover_stale_ms && self.peers@[pk].peer_relay_rk is Some {
            RelayHeader {
                by_rk: true,
                dest: self.peers@[pk].peer_relay_rk->0,
                src: self.relay_rk,
            }
        } else {
            RelayHeader { by_rk: false, dest: pk, src: self.local_pub }
        }
    }

    pub fn relay_header(&self, pk: &RawKey, now: u64) -> (r: RelayHeader)
        requires
            self.wf(),
        ensures
            r == self.relay_header_of(*pk, now),
    {
        let rk: Option<RawKey> = match self.peers.get(pk) {
            Some(s) => s.relay_key(now, self.relay_recover_stale_ms),
            None => None,
        };
        match rk {
            Some(dest) => RelayHeader { by_rk: true, dest, src: self.relay_rk },
            None => RelayHeader { by_rk: false, dest: *pk, src: self.local_pub },
        }
    }

    /// Puts the session of a peer back.
    pub(crate) fn put_back(&mut self, pk: &RawKey, s: PeerSession)
        requires
            old(self).wf(),
            s.wf(),
            s.public_key == *pk,
        ensures
            final(self).wf(),
            final(self).peers@ == old(self).peers@.insert(*pk, s),
            *final(self) == (Outbox { peers: final(self).peers, ..*old(self) }),
    {
        self.peers.insert(*pk, s);
    }

    /// Takes the session of a peer out.
    pub(crate) fn take_out(&mut self, pk: &RawKey) -> (r: Option<PeerSession>)
        requires
            old(self).wf(),
        ensures
            final(self).wf(),
            final(self).peers@ == old(self).peers@.remove(*pk),
            *final(self) == (Outbox { peers: final(self).peers, ..*old(self) }),
            match r {
                Some(s) => old(self).peers@.dom().contains(*pk) && s == old(self).peers@[*pk]
                    && s.wf() && s.public_key == *pk,
                None => !old(self).peers@.dom().contains(*pk),
            },
    {
        self.peers.remove(pk)
    }

    /// Chooses the way of a packet.
    fn choose_way(&mut self, pk: &RawKey, now: u64) -> (r: Route)
        requires
            old(self).wf(),
        ensures
            final(self).wf(),
            packet_routed(*old(self), *pk, now, r, *final(self)),
    {
        match self.take_out(pk) {
            Some(s) => {
                let mut s = s;
                let r = s.choose_route(self.hole_punch.enabled, now);
                self.put_back(pk, s);
                assert(self.peers@ =~= old(self).peers@.insert(*pk, s));
                r
            },
            None => {
                assert(self.peers@ =~= old(self).peers@);
                Route::Relay
            },
        }
    }

    /// Chooses the way of a packet to a peer. An unknown peer is reached by relay.
    pub fn route_packet(&mut self, pk: &RawKey, now: u64) -> (r: Route)
        requires
            old(self).wf(),
        ensures
            final(self).wf(),
            packet_routed(*old(self), *pk, now, r, *final(self)),
            old(self).peers@.dom().contains(*pk) ==> goes_the_way_that_works(
                *old(self),
                *pk,
                now,
                r,
                *final(self),
            ),
    {
        let r = self.choose_way(pk, now);
        proof {
            if old(self).peers@.dom().contains(*pk) {
                packets_go_the_way_that_works(*old(self), *pk, now, r, *self);
            }
        }
        r
    }

    /// Counts bytes that were sent to a peer.
    pub fn bump_tx(&mut self, pk: &RawKey, n: u64)
        requires
            old(self).wf(),
        ensures
            final(self).wf(),
            final(self).tx_bytes == (old(self).tx_bytes + n) % 0x1_0000_0000_0000_0000,
            final(self).peers@ == (if old(self).peers@.dom().contains(*pk) {
                let s = old(self).peers@[*pk];
                old(self).peers@.insert(
                    *pk,
                    PeerSession {
                        tx_bytes: ((s.tx_bytes + n) % 0x1_0000_0000_0000_0000) as u64,
                        ..s
                    },
                )
            } else {
                old(self).peers@
            }),
            *final(self) == (Outbox {
                peers: final(self).peers,
                tx_bytes: final(self).tx_bytes,
                ..*old(self)
            }),
    {
        self.tx_bytes = self.tx_bytes.wrapping_add(n);
        match self.take_out(pk) {
            Some(s) => {
                let mut s = s;
                s.bump_tx(n);
                self.put_back(pk, s);
                assert(self.peers@ =~= old(self).peers@.insert(*pk, s));
            },
            None => {
                assert(self.peers@ =~= old(self).peers@);
            },
        }
    }

    /// A session with a peer: the one there is, or a new one.
    pub fn get_or_create_session(
        &mut self,
        pk: &RawKey,
        ip: String,
        endpoint: Option<Endpoint>,
        fresh: &FreshKeys,
        now: u64,
    ) -> (r: bool)
        requires
            old(self).wf(),
        ensures
            final(self).wf(),
            r == !old(self).peers@.dom().contains(*pk),
            !r ==> *final(self) == *old(self),
            r ==> {
                &&& final(self).peers@.dom().contains(*pk)
                &&& is_new_session(final(self).peers@[*pk], *pk, ip, endpoint, *fresh, now)
                &&& final(self).peers@ == old(self).peers@.insert(*pk, final(self).peers@[*pk])
                &&& *final(self) == (Outbox { peers: final(self).peers, ..*old(self) })
            },
    {
        if self.peers.contains(pk) {
            return false;
        }
        let s = PeerSession::new(
            *pk,
            ip,
            fresh.handshake_key,
            endpoint,
            fresh.rk_priv,
            fresh.rk_pub,
            fresh.salt,
            now,
        );
        self.put_back(pk, s);
        true
    }
}

/// A session that has just been made.
pub open spec fn is_new_session(
    s: PeerSession,
    pk: RawKey,
    ip: String,
    endpoint: Option<Endpoint>,
    fresh: FreshKeys,
    now: u64,
) -> bool {
    &&& s == (PeerSession {
        public_key: pk,
        ip,
        endpoint,
        transport: Transport::Punching,
        attempts: 0,
        error_count: 0,
        tx_bytes: 0,
        rx_bytes: 0,
        last_seen: now,
        handshake_key: fresh.handshake_key,
        peer_key: None,
        rk_priv: Some(fresh.rk_priv),
        rk_pub: Some(fresh.rk_pub),
        peer_rk_pub: None,
        peer_relay_rk: None,
        my_salt: Some(fresh.salt),
        peer_salt: None,
        epoch: 0,
        send_seq: 0,
        recv_seq: 0,
        send_unacked: s.send_unacked,
        recv_buf: s.recv_buf,
        hello_sent: false,
        pending: s.pending,
        sent_pkts: 0,
        last_rekey: now,
        last_requery: None,
        last_direct: None,
    })
    &&& s.send_unacked@.len() == 0
    &&& s.recv_buf@ == Map::<u64, Vec<u8>>::empty()
    &&& s.pending@.len() == 0
}

/// What a packet of a peer turned out to be, once it was decrypted.
pub enum Incoming {
    /// Nothing to do.
    Ignored,
    /// A HELLO. A session key has to be derived with this salt.
    Hello { peer_rk: RawKey, peer_salt: [u8; 12], ip: String, salt: [u8; 12] },
    /// A REKEY. A session key has to be derived with this routing key and salt.
    Rekey { peer_rk: RawKey, peer_salt: [u8; 12], rk_priv: RawKey, salt: [u8; 12] },
    /// An acknowledgement, which was taken in.
    Acked,
    /// Data: the packets to hand on, and the acknowledgement to send.
    Data { packets: Vec<Vec<u8>>, ack: Option<Sealed> },
}

/// What follows from a HELLO.
pub struct HelloActions {
    /// The HELLO to answer with, by the way that is chosen for the peer.
    pub reply: Option<Sealed>,
    /// The answer also goes through the relay: the direct path may work one way
    /// only.
    pub also_relay: bool,
    /// The packets that waited for the handshake, to be sent now.
    pub flush: VecDeque<Vec<u8>>,
    /// Whether the peer holds the address that it announced.
    pub bound: bool,
}

/// The session of a peer after its packet of type `typ` came in.
pub open spec fn noted(s: PeerSession, typ: u8, direct: bool, now: u64) -> PeerSession {
    if direct {
        s
    } else {
        PeerSession {
            transport: if s.transport == Transport::Direct && (typ == TUNNEL_DATA
                || crate::client::peer::direct_is_stale(s.last_direct, now)) {
                Transport::Relay
            } else {
                s.transport
            },
            ..s
        }
    }
}

impl Outbox {
    /// Prepares for a packet of a peer. An unknown peer gets a session; if its packet
    /// came through a relay it is greeted, so that a peer that was restarted can
    /// start over. Returns the HELLO to relay to it.
    pub fn arrive(
        &mut self,
        src_pub: &RawKey,
        direct: bool,
        src: Endpoint,
        fresh: &FreshKeys,
        now: u64,
    ) -> (r: Option<Sealed>)
        requires
            old(self).wf(),
        ensures
            final(self).wf(),
            arrived(*old(self), *src_pub, direct, src, *fresh, now, r, *final(self)),
    {
        let created = self.get_or_create_session(src_pub, String::new(), None, fresh, now);
        let mut hello: Option<Sealed> = None;
        let ghost after = self.peers@;
        match self.take_out(src_pub) {
            Some(s) => {
                let mut s = s;
                let ghost s0 = s;
                if created && !direct {
                    hello = s.build_hello(self.local_ip.as_str());
                }
                if direct {
                    s.note_direct(src, self.hole_punch.enabled, now);
                    self.addr_index.insert(src, *src_pub);
                }
                self.put_back(src_pub, s);
                proof {
                    assert(s == touched(s0, direct, src, old(self).hole_punch.enabled, now));
                    assert(self.peers@ =~= old(self).peers@.insert(*src_pub, s));
                }
            },
            None => {},
        }
        hello
    }

    /// The keys to try a packet of a peer with: the current one, then the handshake
    /// key where that is another.
    pub fn decryption_keys(&self, pk: &RawKey) -> (r: Vec<RawKey>)
        requires
            self.wf(),
        ensures
            if self.peers@.dom().contains(*pk) {
                let s = self.peers@[*pk];
                r@ == (if s.handshake_key != s.active_key() {
                    seq![s.active_key(), s.handshake_key]
                } else {
                    seq![s.active_key()]
                })
            } else {
                r@ == Seq::<RawKey>::empty()
            },
    {
        let mut out: Vec<RawKey> = Vec::new();
        if let Some(s) = self.peers.get(pk) {
            out.push(*s.current_key());
            if !same_raw_key(&s.handshake_key, s.current_key()) {
                out.push(s.handshake_key);
            }
        }
        out
    }
}

/// The session of a peer after a packet of it came in, directly from `src` or through
/// a relay.
pub open spec fn touched(
    s: PeerSession,
    direct: bool,
    src: Endpoint,
    punch_enabled: bool,
    now: u64,
) -> PeerSession {
    if direct {
        PeerSession {
            endpoint: Some(src),
            last_direct: Some(now),
            transport: if punch_enabled {
                Transport::Direct
            } else {
                s.transport
            },
            last_seen: now,
            ..s
        }
    } else {
        s
    }
}

/// With hole punching disabled a packet that comes directly does not make the direct
/// path be used.
pub proof fn without_punching_nothing_becomes_direct(
    s: PeerSession,
    direct: bool,
    src: Endpoint,
    now: u64,
)
    requires
        s.transport != Transport::Direct,
    ensures
        touched(s, direct, src, false, now).transport != Transport::Direct,
{
}

/// What a HELLO of a peer carries, and the salt that goes with it.
pub open spec fn is_hello(i: Incoming, s: PeerSession, payload: Seq<u8>) -> bool {
    &&& i is Hello
    &&& payload == hello_payload(
        i->Hello_peer_rk@,
        i->Hello_peer_salt@,
        payload.skip(HANDSHAKE_EXTRA as int),
    )
    &&& i->ip@ == lossy_text(payload.skip(HANDSHAKE_EXTRA as int))
    &&& i->Hello_salt@ == xor_bytes(salt_bytes(s.my_salt), i->Hello_peer_salt@)
}

/// What a REKEY of a peer carries, and the key and salt that go with it.
pub open spec fn is_rekey(i: Incoming, s: PeerSession, payload: Seq<u8>) -> bool {
    &&& i is Rekey
    &&& payload == hello_payload(
        i->Rekey_peer_rk@,
        i->Rekey_peer_salt@,
        payload.skip(HANDSHAKE_EXTRA as int),
    )
    &&& s.rk_priv == Some(i->rk_priv)
    &&& i->Rekey_salt@ == xor_bytes(salt_bytes(s.my_salt), i->Rekey_peer_salt@)
}

/// The session of a peer before and after data came in, and what follows.
pub open spec fn data_taken_in(
    before: PeerSession,
    epoch: u32,
    seq: u64,
    payload: Seq<u8>,
    direct: bool,
    now: u64,
    i: Incoming,
    after: PeerSession,
) -> bool {
    let buf = buffer_view(before.recv_buf@);
    let high = before.recv_seq;
    let ack = high_after(high, buf, seq);
    &&& i is Data
    &&& packets_view(i->packets@) == delivered_by(high, buf, seq, payload)
    &&& i->ack is Some
    &&& i->ack->0@ == ack_sealed(before.active_key(), before.epoch, ack)
    &&& buffer_view(after.recv_buf@) == buffer_after(high, buf, seq, payload)
    &&& after.rx_bytes == (before.rx_bytes + total_len(packets_view(i->packets@)))
        % 0x1_0000_0000_0000_0000
    &&& after == (PeerSession {
        last_seen: now,
        last_direct: if direct {
            Some(now)
        } else {
            before.last_direct
        },
        rx_bytes: after.rx_bytes,
        recv_seq: ack,
        recv_buf: after.recv_buf,
        ..before
    })
}

/// What becomes of a packet and of the session that it belongs to. `s` is the
/// session after the packet's type was noted.
pub open spec fn packet_outcome(
    s: PeerSession,
    typ: u8,
    epoch: u32,
    seq: u64,
    payload: Seq<u8>,
    direct: bool,
    now: u64,
    i: Incoming,
    after: PeerSession,
) -> bool {
    if typ == TUNNEL_HELLO {
        &&& after == s
        &&& if payload.len() >= HANDSHAKE_EXTRA {
            is_hello(i, s, payload)
        } else {
            i is Ignored
        }
    } else if typ == TUNNEL_REKEY {
        &&& after == s
        &&& if payload.len() >= HANDSHAKE_EXTRA && s.peer_key is Some && epoch == s.epoch
            && s.rk_priv is Some {
            is_rekey(i, s, payload)
        } else {
            i is Ignored
        }
    } else if typ == TUNNEL_ACK {
        if payload.len() >= 8 {
            &&& i is Acked
            &&& s.peer_key is None ==> after == s
            &&& s.peer_key is Some ==> {
                &&& window_view(after.send_unacked@) == beyond(
                    window_view(s.send_unacked@),
                    be_nat(payload.take(8)) as u64,
                )
                &&& after == (PeerSession {
                    send_unacked: after.send_unacked,
                    last_seen: now,
                    ..s
                })
            }
        } else {
            i is Ignored && after == s
        }
    } else if typ == TUNNEL_DATA {
        if s.peer_key is Some && epoch == s.epoch {
            data_taken_in(s, epoch, seq, payload, direct, now, i, after)
        } else {
            i is Ignored && after == s
        }
    } else {
        i is Ignored && after == s
    }
}

impl Outbox {
    /// Takes in a packet of a peer.
    fn take_packet(&mut self, pk: &RawKey, plain: &[u8], direct: bool, now: u64) -> (r:
        Incoming)
        requires
            old(self).wf(),
        ensures
            final(self).wf(),
            packet_opened(*old(self), *pk, plain@, direct, now, r, *final(self)),
    {
        let (typ, epoch, seq, payload) = match parse_tunnel_packet(plain) {
            Some(f) => f,
            None => {
                return Incoming::Ignored;
            },
        };
        let mut s = match self.take_out(pk) {
            Some(s) => s,
            None => {
                assert(self.peers@ =~= old(self).peers@);
                return Incoming::Ignored;
            },
        };
        if !direct {
            s.note_relayed(typ, now);
        }
        let ghost s0 = s;
        assert(s0 == noted(old(self).peers@[*pk], typ, direct, now));
        let r = Self::handle_packet(&mut s, typ, epoch, seq, payload, direct, now);
        if let Incoming::Data { packets, ack: _ } = &r {
            self.rx_bytes = add_lengths(self.rx_bytes, packets);
        }
        self.put_back(pk, s);
        proof {
            assert(self.peers@ =~= old(self).peers@.insert(*pk, s));
            assert(plain@ == tunnel_frame(typ, epoch, seq, payload@));
        }
        r
    }

    /// Handles a packet of a peer that was decrypted to `plain`.
    pub fn open_packet(&mut self, pk: &RawKey, plain: &[u8], direct: bool, now: u64) -> (r:
        Incoming)
        requires
            old(self).wf(),
        ensures
            final(self).wf(),
            packet_opened(*old(self), *pk, plain@, direct, now, r, *final(self)),
            old(self).peers@.dom().contains(*pk) && old(self).peers@[*pk].peer_key is Some
                ==> forall|seq: u64, payload: Seq<u8>|
                #[trigger] reads_as_frame(
                    plain@,
                    2,
                    old(self).peers@[*pk].epoch,
                    seq,
                    payload,
                ) ==> is_opened_right(
                    *old(self),
                    *pk,
                    old(self).peers@[*pk].epoch,
                    seq,
                    payload,
                    r,
                    *final(self),
                ),
            old(self).peers@.dom().contains(*pk) && old(self).peers@[*pk].peer_key is Some
                ==> forall|ack: u64, u: UnackedView|
                #![trigger frees_the_window(*old(self), *pk, ack, r, *final(self), u)]
                is_acknowledgement(plain@, old(self).peers@[*pk].epoch, ack) ==> frees_the_window(
                    *old(self),
                    *pk,
                    ack,
                    r,
                    *final(self),
                    u,
                ),
    {
        let r = self.take_packet(pk, plain, direct, now);
        proof {
            if old(self).peers@.dom().contains(*pk) && old(self).peers@[*pk].peer_key is Some {
                assert forall|seq: u64, payload: Seq<u8>|
                    #[trigger] reads_as_frame(
                        plain@,
                        2,
                        old(self).peers@[*pk].epoch,
                        seq,
                        payload,
                    ) implies is_opened_right(
                    *old(self),
                    *pk,
                    old(self).peers@[*pk].epoch,
                    seq,
                    payload,
                    r,
                    *self,
                ) by {
                    data_is_opened_right(
                        *old(self),
                        *pk,
                        plain@,
                        direct,
                        now,
                        r,
                        *self,
                        seq,
                        payload,
                    );
                }
                assert forall|ack: u64, u: UnackedView|
                    #![trigger frees_the_window(*old(self), *pk, ack, r, *self, u)]
                    is_acknowledgement(
                        plain@,
                        old(self).peers@[*pk].epoch,
                        ack,
                    ) implies frees_the_window(*old(self), *pk, ack, r, *self, u) by {
                    acknowledgements_are_opened_right(
                        *old(self),
                        *pk,
                        plain@,
                        direct,
                        now,
                        r,
                        *self,
                        ack,
                        u,
                    );
                }
            }
        }
        r
    }

    fn handle_packet(
        s: &mut PeerSession,
        typ: u8,
        epoch: u32,
        seq: u64,
        payload: &[u8],
        direct: bool,
        now: u64,
    ) -> (r: Incoming)
        requires
            old(s).wf(),
        ensures
            final(s).wf(),
            final(s).public_key == old(s).public_key,
            packet_outcome(*old(s), typ, epoch, seq, payload@, direct, now, r, *final(s)),
    {
        if typ == TUNNEL_HELLO {
            return match split_handshake(payload) {
                Some((peer_rk, peer_salt, rest)) => {
                    assert(payload@.skip(HANDSHAKE_EXTRA as int) =~= rest@);
                    let ip = from_utf8_lossy(rest);
                    let salt = s.handshake_salt(peer_salt);
                    Incoming::Hello { peer_rk, peer_salt, ip, salt }
                },
                None => Incoming::Ignored,
            };
        }
        if typ == TUNNEL_REKEY {
            if !s.may_accept_rekey(epoch) {
                return Incoming::Ignored;
            }
            return match (split_handshake(payload), s.rk_priv) {
                (Some((peer_rk, peer_salt, rest)), Some(rk_priv)) => {
                    assert(payload@.skip(HANDSHAKE_EXTRA as int) =~= rest@);
                    let salt = s.handshake_salt(peer_salt);
                    Incoming::Rekey { peer_rk, peer_salt, rk_priv, salt }
                },
                _ => Incoming::Ignored,
            };
        }
        if typ == TUNNEL_ACK {
            return match parse_ack_payload(payload) {
                Some(ack) => {
                    s.handle_ack(ack, now);
                    Incoming::Acked
                },
                None => Incoming::Ignored,
            };
        }
        if typ == TUNNEL_DATA {
            return match s.accept_data(epoch, seq, payload, direct, now) {
                Some((packets, high)) => {
                    let ack = s.build_ack(high);
                    Incoming::Data { packets, ack }
                },
                None => Incoming::Ignored,
            };
        }
        Incoming::Ignored
    }

    /// Takes in a HELLO with the session key that follows from it. `ip_valid` tells
    /// whether the address that the peer announces is one.
    pub fn complete_hello(
        &mut self,
        pk: &RawKey,
        peer_rk: RawKey,
        peer_salt: [u8; 12],
        ip: String,
        ip_valid: bool,
        new_key: RawKey,
        now: u64,
    ) -> (r: Option<HelloActions>)
        requires
            old(self).wf(),
        ensures
            final(self).wf(),
            hello_completed(
                *old(self),
                *pk,
                peer_rk,
                peer_salt,
                ip,
                ip_valid,
                new_key,
                now,
                r,
                *final(self),
            ),
    {
        let mut s = match self.take_out(pk) {
            Some(s) => s,
            None => {
                assert(self.peers@ =~= old(self).peers@);
                return None;
            },
        };
        let announced = ip.clone();
        let outcome = s.accept_hello(peer_rk, peer_salt, ip, new_key, self.local_ip.as_str(), now);
        let also_relay = s.transport == Transport::Direct;
        let flush = if outcome.is_first {
            s.take_pending()
        } else {
            VecDeque::new()
        };
        self.put_back(pk, s);
        assert(self.peers@ =~= old(self).peers@.insert(*pk, s));
        let mut bound = false;
        if !announced.as_str().is_empty() && ip_valid {
            bound = bind_ip_ownership(&mut self.ip_index, announced.as_str(), pk);
        }
        Some(HelloActions { reply: outcome.reply, also_relay, flush, bound })
    }

    /// Takes in a REKEY with the session key that follows from it. Says whether that
    /// was done: a session whose epochs are used up takes in no more.
    pub fn complete_rekey(
        &mut self,
        pk: &RawKey,
        peer_rk: RawKey,
        peer_salt: [u8; 12],
        new_key: RawKey,
        now: u64,
    ) -> (r: bool)
        requires
            old(self).wf(),
        ensures
            final(self).wf(),
            rekey_completed(*old(self), *pk, peer_rk, peer_salt, new_key, now, r, *final(self)),
    {
        let mut s = match self.take_out(pk) {
            Some(s) => s,
            None => {
                assert(self.peers@ =~= old(self).peers@);
                return false;
            },
        };
        let room = s.epoch < u32::MAX;
        if room {
            s.accept_rekey(peer_rk, peer_salt, new_key, now);
        }
        self.put_back(pk, s);
        assert(self.peers@ =~= old(self).peers@.insert(*pk, s));
        assert(!room ==> self.peers@ =~= old(self).peers@);
        room
    }
}

/// A counter after the lengths of some packets were added.
fn add_lengths(start: u64, packets: &Vec<Vec<u8>>) -> (r: u64)
    ensures
        r == (start + total_len(packets_view(packets@))) % 0x1_0000_0000_0000_0000,
{
    let ghost p = packets_view(packets@);
    let mut i: usize = 0;
    let mut n: u64 = start;
    assert(p.take(0) =~= Seq::<Seq<u8>>::empty());
    while i < packets.len()
        invariant
            i <= packets@.len(),
            p == packets_view(packets@),
            n == (start + total_len(p.take(i as int))) % 0x1_0000_0000_0000_0000,
        decreases packets@.len() - i,
    {
        proof {
            assert(p.take(i + 1).drop_last() =~= p.take(i as int));
            assert(p[i as int] == packets@[i as int]@);
        }
        n = n.wrapping_add(packets[i].len() as u64);
        i = i + 1;
    }
    assert(p.take(p.len() as int) =~= p);
    n
}

/// The data plane before and after a packet of a peer was opened, and what it is.
pub open spec fn packet_opened(
    before: Outbox,
    pk: RawKey,
    plain: Seq<u8>,
    direct: bool,
    now: u64,
    r: Incoming,
    after: Outbox,
) -> bool {
    &&& (if !before.peers@.dom().contains(pk) || plain.len() < FRAME_HEADER_LEN {
        r is Ignored && after.peers@ == before.peers@ && after.rx_bytes
            == before.rx_bytes
    } else {
        exists|typ: u8, epoch: u32, seq: u64, payload: Seq<u8>|
            {
                &&& plain == #[trigger] tunnel_frame(typ, epoch, seq, payload)
                &&& after.peers@.dom().contains(pk)
                &&& after.peers@ == before.peers@.insert(
                    pk,
                    after.peers@[pk],
                )
                &&& packet_outcome(
                    noted(before.peers@[pk], typ, direct, now),
                    typ,
                    epoch,
                    seq,
                    payload,
                    direct,
                    now,
                    r,
                    after.peers@[pk],
                )
                &&& after.rx_bytes == (match r {
                    Incoming::Data { packets, ack } => ((before.rx_bytes + total_len(
                        packets_view(packets@),
                    )) % 0x1_0000_0000_0000_0000) as u64,
                    _ => before.rx_bytes,
                })
            }
    })
    &&& after == (Outbox {
        peers: after.peers,
        rx_bytes: after.rx_bytes,
        ..before
    })
}

/// The data plane before and after a HELLO was taken in, and what follows from it.
pub open spec fn hello_completed(
    before: Outbox,
    pk: RawKey,
    peer_rk: RawKey,
    peer_salt: [u8; 12],
    ip: String,
    ip_valid: bool,
    new_key: RawKey,
    now: u64,
    r: Option<HelloActions>,
    after: Outbox,
) -> bool {
    &&& (r is Some <==> before.peers@.dom().contains(pk))
    &&& (r is None ==> after.peers@ == before.peers@ && after.ip_index@ == before.ip_index@)
    &&& (r matches Some(a) ==> {
        let s0 = before.peers@[pk];
        let s1 = after.peers@[pk];
        &&& after.peers@.dom().contains(pk)
        &&& after.peers@ == before.peers@.insert(pk, s1)
        &&& hello_taken_in(s0, peer_rk, peer_salt, ip, new_key, now, s1)
        &&& match (a.reply, s1.hello_reply(encode_utf8(before.local_ip@))) {
            (Some(h), Some(v)) => s0.hello_restarts(peer_rk) && h@ == v,
            (None, None) => true,
            (None, Some(_)) => !s0.hello_restarts(peer_rk),
            (Some(_), None) => false,
        }
        &&& a.also_relay == (s0.transport == Transport::Direct)
        &&& a.flush@ == (if s0.peer_key is None {
            s0.pending@
        } else {
            Seq::<Vec<u8>>::empty()
        })
        &&& a.bound == (ip@.len() > 0 && ip_valid && (!before.ip_index@.dom().contains(ip@)
            || before.ip_index@[ip@] == pk))
        &&& after.ip_index@ == (if a.bound {
            before.ip_index@.insert(ip@, pk)
        } else {
            before.ip_index@
        })
    })
    &&& after == (Outbox {
        peers: after.peers,
        ip_index: after.ip_index,
        ..before
    })
}

/// The data plane before and after a REKEY was taken in.
pub open spec fn rekey_completed(
    before: Outbox,
    pk: RawKey,
    peer_rk: RawKey,
    peer_salt: [u8; 12],
    new_key: RawKey,
    now: u64,
    r: bool,
    after: Outbox,
) -> bool {
    &&& r == (before.peers@.dom().contains(pk) && before.peers@[pk].epoch < u32::MAX)
    &&& after.peers@ == (if r {
        let s = before.peers@[pk];
        before.peers@.insert(
            pk,
            PeerSession {
                peer_key: Some(new_key),
                peer_rk_pub: Some(peer_rk),
                peer_salt: Some(peer_salt),
                epoch: (s.epoch + 1) as u32,
                last_rekey: now,
                ..s
            },
        )
    } else {
        before.peers@
    })
    &&& after == (Outbox { peers: after.peers, ..before })
}

/// The data plane before and after a packet of a peer came, and the HELLO to relay to it.
pub open spec fn arrived(
    before: Outbox,
    src_pub: RawKey,
    direct: bool,
    src: Endpoint,
    fresh: FreshKeys,
    now: u64,
    r: Option<Sealed>,
    after: Outbox,
) -> bool {
    &&& ({
        let known = before.peers@.dom().contains(src_pub);
        &&& after.peers@.dom().contains(src_pub)
        &&& after.peers@ == before.peers@.insert(
            src_pub,
            after.peers@[src_pub],
        )
        &&& exists|s: PeerSession|
            {
                &&& known ==> s == before.peers@[src_pub]
                &&& !known ==> exists|ip: String|
                    ip@.len() == 0 && is_new_session(
                        s,
                        src_pub,
                        ip,
                        None,
                        fresh,
                        now,
                    )
                &&& after.peers@[src_pub] == #[trigger] touched(
                    s,
                    direct,
                    src,
                    before.hole_punch.enabled,
                    now,
                )
            }
        &&& after.addr_index@ == (if direct {
            before.addr_index@.insert(src, src_pub)
        } else {
            before.addr_index@
        })
        &&& r is Some <==> !known && !direct
        &&& r matches Some(h) ==> h@ == hello_sealed(
            fresh.handshake_key,
            0,
            fresh.rk_pub,
            fresh.salt,
            encode_utf8(before.local_ip@),
        )
    })
    &&& after == (Outbox {
        peers: after.peers,
        addr_index: after.addr_index,
        ..before
    })
}

/// The data plane before and after the way of a packet to a peer was chosen.
pub open spec fn packet_routed(
    before: Outbox,
    pk: RawKey,
    now: u64,
    r: Route,
    after: Outbox,
) -> bool {
    &&& (if before.peers@.dom().contains(pk) {
        let s = before.peers@[pk];
        &&& r == s.route(before.hole_punch.enabled, now)
        &&& after.peers@ == before.peers@.insert(
            pk,
            PeerSession {
                transport: if s.gives_up_direct(before.hole_punch.enabled, now) {
                    Transport::Relay
                } else {
                    s.transport
                },
                ..s
            },
        )
    } else {
        r == Route::Relay && after.peers@ == before.peers@
    })
    &&& after == (Outbox { peers: after.peers, ..before })
}

/// The data plane before and after a message to the server was to be encrypted.
pub open spec fn signaling_sealed(
    before: Outbox,
    r: SignalingSeal,
    after: Outbox,
) -> bool {
    &&& (match (before.session_sk, before.session_pub) {
        (Some(sk), Some(sender)) => {
            &&& r == (SignalingSeal {
                sender,
                key: sk,
                seq: Some((before.session_seq + 1) as u64),
            })
            &&& after == (Outbox {
                session_seq: (before.session_seq + 1) as u64,
                ..before
            })
        },
        _ => {
            &&& r == (SignalingSeal {
                sender: before.local_pub,
                key: before.server_shared,
                seq: None,
            })
            &&& after == before
        },
    })
}

/// The answer to the latest request can always be read, and so can those to the requests
/// shortly before it, in any order; answers to older ones cannot.
pub proof fn late_answers_can_be_read(last: u64, seq: u64)
    ensures
        answer_numbers(last).contains(seq) <==> seq <= last && last - seq < 32,
{
    let n = answer_numbers(last);
    if seq <= last && last - seq < SESSION_RESP_WINDOW {
        assert(n[last - seq] == seq);
    }
}

} // verus!
