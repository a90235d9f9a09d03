//! Peer sessions: what the client knows of one peer, and the reliable data plane
//! between the two.
//!
//! A handshake key, the Diffie-Hellman secret of the two long-term keys, protects
//! the first HELLO in each direction. From both sides' routing keys and salts the
//! session key follows, which protects data from then on. Each data packet
//! carries the epoch of its key and a sequence number. The sender keeps a packet
//! until it is acknowledged and sends it again when that takes too long; the
//! receiver hands packets on in order and drops repetitions.
//!
//! Instants are milliseconds of one clock that does not run backwards.
use vstd::prelude::*;
use vstd::string::*;
use std::collections::BTreeMap;
use std::collections::VecDeque;
use crate::bytes::{be_bytes, copy_bytes};
use crate::client::laws::{all_is_sent_again, what_waits_is_sent_again};
use crate::client::reliable::{
    buffer_after, buffer_view, delivered_by, high_after, packets_view, reorder_deliver,
    the_buffer_stays_bounded, RELIABLE_WINDOW,
};
use crate::client::tunnel::{
    ack_payload, data_nonce, frame_hello_payload, frame_rekey_payload, frame_tunnel_packet,
    hello_payload, nonce_bytes, rekey_payload, tunnel_frame, TUNNEL_ACK, TUNNEL_DATA, TUNNEL_HELLO,
    TUNNEL_REKEY,
};
use crate::net::Endpoint;
use crate::seqs::{lemma_filter_members, lemma_filter_take};
use crate::table::{same_raw_key, RawKey};

verus! {

/// A direct path that has been silent for this long is no longer trusted.
pub const DIRECT_STALE_MS: u64 = 5000;

/// A peer that has been silent for longer than this is looked up again.
pub const RE_QUERY_STALE_MS: u64 = 1000;

/// The least time between two look-ups of a silent peer.
pub const RE_QUERY_MIN_INTERVAL_MS: u64 = 1000;

/// How many packets wait for a handshake at most.
pub const PENDING_CAP: usize = 256;

/// A packet that has waited this long for its acknowledgement is sent again.
pub const RETRANSMIT_TIMEOUT_MS: u64 = 500;

/// How often the sending windows are looked through.
pub const RETRANSMIT_INTERVAL_MS: u64 = 250;

/// A packet is sent again at most this many times.
pub const MAX_RETRIES: u32 = 20;

/// How packets to a peer travel.
#[derive(Debug, Clone, Copy, PartialEq, Eq, Structural)]
pub enum Transport {
    /// UDP hole punching is under way.
    Punching,
    /// Hole punching succeeded.
    Direct,
    /// Hole punching failed or is disabled.
    Relay,
}

impl Transport {
    /// The name that a status report shows.
    pub open spec fn label(self) -> Seq<char> {
        match self {
            Transport::Punching => "打洞中"@,
            Transport::Direct => "直连"@,
            Transport::Relay => "中继"@,
        }
    }

    pub fn as_str(&self) -> (r: &'static str)
        ensures
            r@ == self.label(),
    {
        match self {
            Transport::Punching => "打洞中",
            Transport::Direct => "直连",
            Transport::Relay => "中继",
        }
    }
}

/// A packet that waits for its acknowledgement.
pub struct Unacked {
    pub seq: u64,
    pub sent_at: u64,
    pub retries: u32,
    pub payload: Vec<u8>,
}

/// What an [`Unacked`] packet means.
pub struct UnackedView {
    pub seq: u64,
    pub sent_at: u64,
    pub retries: u32,
    pub payload: Seq<u8>,
}

impl View for Unacked {
    type V = UnackedView;

    open spec fn view(&self) -> UnackedView {
        UnackedView {
            seq: self.seq,
            sent_at: self.sent_at,
            retries: self.retries,
            payload: self.payload@,
        }
    }
}

/// A clear text to encrypt: under which key, and with which nonce where it is
/// not a random one.
pub struct Sealed {
    pub key: RawKey,
    pub nonce: Option<[u8; 12]>,
    pub plain: Vec<u8>,
}

/// What a [`Sealed`] text means.
pub struct SealedView {
    pub key: RawKey,
    pub nonce: Option<Seq<u8>>,
    pub plain: Seq<u8>,
}

impl View for Sealed {
    type V = SealedView;

    open spec fn view(&self) -> SealedView {
        SealedView {
            key: self.key,
            nonce: match self.nonce {
                Some(n) => Some(n@),
                None => None,
            },
            plain: self.plain@,
        }
    }
}

/// The meaning of a sequence of texts to encrypt.
pub open spec fn sealed_views(s: Seq<Sealed>) -> Seq<SealedView> {
    s.map_values(|x: Sealed| x@)
}

/// The state of the session with one peer.
pub struct PeerSession {
    pub public_key: RawKey,
    /// The peer's virtual address.
    pub ip: String,
    pub endpoint: Option<Endpoint>,
    pub transport: Transport,
    pub attempts: u32,
    pub error_count: u32,
    pub tx_bytes: u64,
    pub rx_bytes: u64,
    pub last_seen: u64,
    /// The secret of the two long-term keys, for the first HELLO.
    pub handshake_key: RawKey,
    /// The session key, once the peer's HELLO has come.
    pub peer_key: Option<RawKey>,
    pub rk_priv: Option<RawKey>,
    pub rk_pub: Option<RawKey>,
    pub peer_rk_pub: Option<RawKey>,
    /// The key by which a relay addresses the peer.
    pub peer_relay_rk: Option<RawKey>,
    pub my_salt: Option<[u8; 12]>,
    pub peer_salt: Option<[u8; 12]>,
    /// The generation of the session key.
    pub epoch: u32,
    pub send_seq: u64,
    /// Everything up to this sequence number has been handed on.
    pub recv_seq: u64,
    /// The packets that wait for their acknowledgement, by sequence number.
    pub send_unacked: Vec<Unacked>,
    /// The packets that came before their turn.
    pub recv_buf: BTreeMap<u64, Vec<u8>>,
    pub hello_sent: bool,
    /// The packets that wait for the handshake.
    pub pending: VecDeque<Vec<u8>>,
    pub sent_pkts: u64,
    pub last_rekey: u64,
    pub last_requery: Option<u64>,
    pub last_direct: Option<u64>,
}

/// The time from `then` to `now`, none if `then` is later.
pub open spec fn elapsed_ms(now: u64, then: u64) -> nat {
    if now >= then {
        (now - then) as nat
    } else {
        0
    }
}

pub fn elapsed(now: u64, then: u64) -> (r: u64)
    ensures
        r == elapsed_ms(now, then),
{
    if now >= then {
        now - then
    } else {
        0
    }
}

/// The meaning of a sending window.
pub open spec fn window_view(w: Seq<Unacked>) -> Seq<UnackedView> {
    w.map_values(|u: Unacked| u@)
}

/// A byte-wise exclusive or.
pub open spec fn xor_bytes(a: Seq<u8>, b: Seq<u8>) -> Seq<u8> {
    Seq::new(a.len(), |i: int| a[i] ^ b[i])
}

/// The salt of a session key: both sides' salts, combined so that their order
/// does not matter.
pub fn xor_salt(a: [u8; 12], b: [u8; 12]) -> (r: [u8; 12])
    ensures
        r@ == xor_bytes(a@, b@),
{
    let mut out: [u8; 12] = [0u8; 12];
    let mut i: usize = 0;
    while i < 12
        invariant
            i <= 12,
            out@.len() == 12,
            forall|j: int| 0 <= j < i ==> out@[j] == a@[j] ^ b@[j],
        decreases 12 - i,
    {
        out[i] = a[i] ^ b[i];
        i = i + 1;
    }
    assert(out@ =~= xor_bytes(a@, b@));
    out
}

/// Twelve zero bytes.
pub open spec fn zero_salt() -> Seq<u8> {
    Seq::new(12, |i: int| 0u8)
}

/// The bytes of a salt, zeros where there is none.
pub open spec fn salt_bytes(s: Option<[u8; 12]>) -> Seq<u8> {
    match s {
        Some(b) => b@,
        None => zero_salt(),
    }
}

fn salt_or_zero(s: &Option<[u8; 12]>) -> (r: [u8; 12])
    ensures
        r@ == salt_bytes(*s),
{
    match s {
        Some(b) => *b,
        None => {
            let z: [u8; 12] = [0u8; 12];
            assert(z@ =~= zero_salt());
            z
        },
    }
}

/// Whether `a` comes after `b` in the order of byte strings of one length: at the
/// first place where they differ, `a` holds the larger byte.
pub open spec fn key_above(a: RawKey, b: RawKey) -> bool {
    exists|i: int| 0 <= i < 32 && a@[i] > b@[i] && forall|j: int| 0 <= j < i ==> a@[j] == b@[j]
}

/// The order of keys is transitive.
pub proof fn lemma_key_above_transitive(a: RawKey, b: RawKey, c: RawKey)
    requires
        key_above(a, b),
        key_above(b, c),
    ensures
        key_above(a, c),
{
    let i = choose|i: int|
        0 <= i < 32 && a@[i] > b@[i] && forall|j: int| 0 <= j < i ==> a@[j] == b@[j];
    let k = choose|k: int|
        0 <= k < 32 && b@[k] > c@[k] && forall|j: int| 0 <= j < k ==> b@[j] == c@[j];
    let m = if i <= k { i } else { k };
    assert(a@[m] > c@[m]);
    assert forall|j: int| 0 <= j < m implies a@[j] == c@[j] by {
        assert(a@[j] == b@[j] && b@[j] == c@[j]);
    }
}

/// Of two different keys exactly one comes after the other.
pub proof fn lemma_key_above_total(a: RawKey, b: RawKey)
    ensures
        a != b ==> key_above(a, b) || key_above(b, a),
        !(key_above(a, b) && key_above(b, a)),
        !key_above(a, a),
{
    if key_above(a, b) && key_above(b, a) {
        lemma_key_above_transitive(a, b, a);
    }
    if a != b {
        assert(!(a =~= b));
        let k = choose|k: int| 0 <= k < 32 && a@[k] != b@[k];
        lemma_key_first_difference(a, b, k);
    }
}

proof fn lemma_key_first_difference(a: RawKey, b: RawKey, k: int)
    requires
        0 <= k < 32,
        a@[k] != b@[k],
    ensures
        key_above(a, b) || key_above(b, a),
    decreases k,
{
    if forall|j: int| 0 <= j < k ==> a@[j] == b@[j] {
        if a@[k] > b@[k] {
            assert(key_above(a, b));
        } else {
            assert(key_above(b, a));
        }
    } else {
        let j = choose|j: int| 0 <= j < k && a@[j] != b@[j];
        lemma_key_first_difference(a, b, j);
    }
}

pub fn key_greater(a: &RawKey, b: &RawKey) -> (r: bool)
    ensures
        r == key_above(*a, *b),
{
    let mut i: usize = 0;
    while i < 32
        invariant
            i <= 32,
            forall|j: int| 0 <= j < i ==> a@[j] == b@[j],
        decreases 32 - i,
    {
        if a[i] > b[i] {
            assert(a@[i as int] > b@[i as int]);
            return true;
        }
        if a[i] < b[i] {
            assert(!key_above(*a, *b)) by {
                if key_above(*a, *b) {
                    let k = choose|k: int|
                        0 <= k < 32 && a@[k] > b@[k] && forall|j: int|
                            0 <= j < k ==> a@[j] == b@[j];
                    if k > i {
                        assert(a@[i as int] == b@[i as int]);
                    }
                }
            }
            return false;
        }
        i = i + 1;
    }
    false
}

impl PeerSession {
    /// What holds of every session.
    pub open spec fn wf(&self) -> bool {
        &&& self.send_unacked@.len() <= RELIABLE_WINDOW
        &&& self.pending@.len() <= PENDING_CAP
        &&& self.recv_buf@.dom().len() <= RELIABLE_WINDOW
        &&& self.send_unacked@.len() <= self.send_seq
        &&& forall|i: int|
            0 <= i < self.send_unacked@.len() ==> (#[trigger] self.send_unacked@[i]).seq
                == self.acknowledged() + 1 + i
    }

    /// The sequence number behind which the sending window begins. The waiting packets
    /// carry the numbers from there on without a gap, up to the last one that was given.
    pub open spec fn acknowledged(&self) -> int {
        self.send_seq - self.send_unacked@.len()
    }

    /// The key that data to and from the peer is encrypted under.
    pub open spec fn active_key(&self) -> RawKey {
        match self.peer_key {
            Some(k) => k,
            None => self.handshake_key,
        }
    }

    pub fn new(
        public_key: RawKey,
        ip: String,
        handshake_key: RawKey,
        endpoint: Option<Endpoint>,
        rk_priv: RawKey,
        rk_pub: RawKey,
        my_salt: [u8; 12],
        now: u64,
    ) -> (r: Self)
        ensures
            r.wf(),
            r == (PeerSession {
                public_key,
                ip,
                endpoint,
                transport: Transport::Punching,
                attempts: 0,
                error_count: 0,
                tx_bytes: 0,
                rx_bytes: 0,
                last_seen: now,
                handshake_key,
                peer_key: None,
                rk_priv: Some(rk_priv),
                rk_pub: Some(rk_pub),
                peer_rk_pub: None,
                peer_relay_rk: None,
                my_salt: Some(my_salt),
                peer_salt: None,
                epoch: 0,
                send_seq: 0,
                recv_seq: 0,
                send_unacked: r.send_unacked,
                recv_buf: r.recv_buf,
                hello_sent: false,
                pending: r.pending,
                sent_pkts: 0,
                last_rekey: now,
                last_requery: None,
                last_direct: None,
            }),
            r.send_unacked@ == Seq::<Unacked>::empty(),
            r.recv_buf@ == Map::<u64, Vec<u8>>::empty(),
            r.pending@ == Seq::<Vec<u8>>::empty(),
    {
        PeerSession {
            public_key,
            ip,
            endpoint,
            transport: Transport::Punching,
            attempts: 0,
            error_count: 0,
            tx_bytes: 0,
            rx_bytes: 0,
            last_seen: now,
            handshake_key,
            peer_key: None,
            rk_priv: Some(rk_priv),
            rk_pub: Some(rk_pub),
            peer_rk_pub: None,
            peer_relay_rk: None,
            my_salt: Some(my_salt),
            peer_salt: None,
            epoch: 0,
            send_seq: 0,
            recv_seq: 0,
            send_unacked: Vec::new(),
            recv_buf: BTreeMap::new(),
            hello_sent: false,
            pending: VecDeque::new(),
            sent_pkts: 0,
            last_rekey: now,
            last_requery: None,
            last_direct: None,
        }
    }

    /// The session key once the handshake is done, the handshake key before.
    pub fn current_key(&self) -> (r: &RawKey)
        ensures
            *r == self.active_key(),
    {
        match &self.peer_key {
            Some(k) => k,
            None => &self.handshake_key,
        }
    }

    /// Whether the peer's HELLO has come and a session key is in use.
    pub fn established(&self) -> (r: bool)
        ensures
            r == self.peer_key is Some,
    {
        self.peer_key.is_some()
    }

    /// This side's routing key pair. A session without one takes the fresh pair.
    pub fn ensure_rk(&mut self, fresh_priv: RawKey, fresh_pub: RawKey) -> (r: (RawKey, RawKey))
        ensures
            match (old(self).rk_priv, old(self).rk_pub) {
                (Some(p), Some(q)) => r == (p, q) && *final(self) == *old(self),
                _ => r == (fresh_priv, fresh_pub) && *final(self) == (PeerSession {
                    rk_priv: Some(fresh_priv),
                    rk_pub: Some(fresh_pub),
                    ..*old(self)
                }),
            },
    {
        if let (Some(p), Some(q)) = (self.rk_priv, self.rk_pub) {
            return (p, q);
        }
        self.rk_priv = Some(fresh_priv);
        self.rk_pub = Some(fresh_pub);
        (fresh_priv, fresh_pub)
    }
}

/// A HELLO that announces a routing key, salt and virtual address.
pub open spec fn hello_sealed(
    key: RawKey,
    epoch: u32,
    rk_pub: RawKey,
    salt: [u8; 12],
    ip: Seq<u8>,
) -> SealedView {
    SealedView {
        key,
        nonce: None,
        plain: tunnel_frame(TUNNEL_HELLO, epoch, 0, hello_payload(rk_pub@, salt@, ip)),
    }
}

/// A data packet, encrypted under a nonce of its epoch and sequence number.
pub open spec fn data_sealed(key: RawKey, epoch: u32, seq: u64, payload: Seq<u8>) -> SealedView {
    SealedView {
        key,
        nonce: Some(nonce_bytes(epoch, seq)),
        plain: tunnel_frame(TUNNEL_DATA, epoch, seq, payload),
    }
}

/// An acknowledgement.
pub open spec fn ack_sealed(key: RawKey, epoch: u32, ack: u64) -> SealedView {
    SealedView {
        key,
        nonce: None,
        plain: tunnel_frame(TUNNEL_ACK, epoch, 0, be_bytes(ack as nat, 8)),
    }
}

/// The announcement of a new routing key and salt.
pub open spec fn rekey_sealed(
    key: RawKey,
    epoch: u32,
    rk_pub: RawKey,
    salt: [u8; 12],
) -> SealedView {
    SealedView {
        key,
        nonce: None,
        plain: tunnel_frame(TUNNEL_REKEY, epoch, 0, rekey_payload(rk_pub@, salt@)),
    }
}

fn seal_hello(key: &RawKey, epoch: u32, rk_pub: &RawKey, salt: &[u8; 12], ip: &[u8]) -> (r: Sealed)
    ensures
        r@ == hello_sealed(*key, epoch, *rk_pub, *salt, ip@),
{
    let payload = frame_hello_payload(rk_pub, salt, ip);
    Sealed {
        key: *key,
        nonce: None,
        plain: frame_tunnel_packet(TUNNEL_HELLO, epoch, 0, payload.as_slice()),
    }
}

fn seal_data(key: &RawKey, epoch: u32, seq: u64, payload: &[u8]) -> (r: Sealed)
    ensures
        r@ == data_sealed(*key, epoch, seq, payload@),
{
    Sealed {
        key: *key,
        nonce: Some(data_nonce(epoch, seq)),
        plain: frame_tunnel_packet(TUNNEL_DATA, epoch, seq, payload),
    }
}

/// What has to happen before a packet is sent.
pub struct SendPlan {
    /// Look up this address again: its peer has been silent.
    pub requery: Option<String>,
    /// The routing key is due for rotation.
    pub rekey_due: bool,
}

/// What became of a packet that was to be sent.
pub enum Admission {
    /// It waits for the handshake.
    Buffered,
    /// The sending window is full; the packet was dropped.
    WindowFull,
    /// It is to be sent.
    Send(Sealed),
}

/// Which way a packet goes.
#[derive(Debug, Clone, Copy, PartialEq, Eq)]
pub enum Route {
    Direct(Endpoint),
    Relay,
}

/// Whether a peer was heard directly within the time that a direct path is
/// trusted.
pub open spec fn direct_is_stale(last_direct: Option<u64>, now: u64) -> bool {
    match last_direct {
        Some(t) => elapsed_ms(now, t) >= DIRECT_STALE_MS,
        None => true,
    }
}

fn direct_stale(last_direct: &Option<u64>, now: u64) -> (r: bool)
    ensures
        r == direct_is_stale(*last_direct, now),
{
    match last_direct {
        Some(t) => elapsed(now, *t) >= DIRECT_STALE_MS,
        None => true,
    }
}

/// A session after this side has rotated its routing key.
pub open spec fn rotated(
    s: PeerSession,
    rk_priv: RawKey,
    rk_pub: RawKey,
    salt: [u8; 12],
    key: RawKey,
    now: u64,
) -> PeerSession {
    PeerSession {
        rk_priv: Some(rk_priv),
        rk_pub: Some(rk_pub),
        my_salt: Some(salt),
        peer_key: Some(key),
        epoch: (s.epoch + 1) as u32,
        last_rekey: now,
        ..s
    }
}

/// A session after the peer's rotation was followed.
pub open spec fn followed(
    s: PeerSession,
    peer_rk: RawKey,
    peer_salt: [u8; 12],
    key: RawKey,
    now: u64,
) -> PeerSession {
    PeerSession {
        peer_key: Some(key),
        peer_rk_pub: Some(peer_rk),
        peer_salt: Some(peer_salt),
        epoch: (s.epoch + 1) as u32,
        last_rekey: now,
        ..s
    }
}

impl PeerSession {
    /// Whether the peer has been silent for long enough, and was not looked up
    /// recently, so that its address should be looked up again.
    pub open spec fn wants_requery(&self, now: u64) -> bool {
        &&& elapsed_ms(now, self.last_seen) > RE_QUERY_STALE_MS
        &&& match self.last_requery {
            Some(t) => elapsed_ms(now, t) >= RE_QUERY_MIN_INTERVAL_MS,
            None => true,
        }
        &&& self.ip@.len() > 0
    }

    /// Which way a packet to the peer goes.
    pub open spec fn route(&self, punch_enabled: bool, now: u64) -> Route {
        if self.transport == Transport::Direct && punch_enabled && self.endpoint is Some
            && !direct_is_stale(self.last_direct, now) {
            Route::Direct(self.endpoint->0)
        } else {
            Route::Relay
        }
    }

    /// Whether sending a packet now ends the use of the direct path.
    pub open spec fn gives_up_direct(&self, punch_enabled: bool, now: u64) -> bool {
        self.transport == Transport::Direct && punch_enabled && self.endpoint is Some
            && direct_is_stale(self.last_direct, now)
    }

    /// The HELLO of this side, under the current key. There is none without a
    /// routing key and a salt.
    pub fn build_hello(&self, local_ip: &str) -> (r: Option<Sealed>)
        ensures
            match (self.rk_pub, self.my_salt) {
                (Some(rk), Some(salt)) => r is Some && r->0@ == hello_sealed(
                    self.active_key(),
                    self.epoch,
                    rk,
                    salt,
                    local_ip.spec_bytes(),
                ),
                _ => r is None,
            },
    {
        match (&self.rk_pub, &self.my_salt) {
            (Some(rk), Some(salt)) => Some(
                seal_hello(self.current_key(), self.epoch, rk, salt, local_ip.as_bytes()),
            ),
            _ => None,
        }
    }

    /// Whether this side may rotate the routing key now. Only the side with the
    /// larger public key does, so that the two never rotate at once.
    pub fn may_rekey(&self, local_pub: &RawKey) -> (r: bool)
        ensures
            r == (self.peer_key is Some && key_above(*local_pub, self.public_key)
                && self.peer_rk_pub is Some),
    {
        self.established() && key_greater(local_pub, &self.public_key) && self.peer_rk_pub.is_some()
    }

    /// The salt of the session key that follows from a new salt of this side.
    pub fn rekey_salt(&self, new_salt: [u8; 12]) -> (r: [u8; 12])
        ensures
            r@ == xor_bytes(new_salt@, salt_bytes(self.peer_salt)),
    {
        xor_salt(new_salt, salt_or_zero(&self.peer_salt))
    }

    /// The salt of the session key that follows from a salt of the peer.
    pub fn handshake_salt(&self, peer_salt: [u8; 12]) -> (r: [u8; 12])
        ensures
            r@ == xor_bytes(salt_bytes(self.my_salt), peer_salt@),
    {
        xor_salt(salt_or_zero(&self.my_salt), peer_salt)
    }

    /// Rotates the routing key of this side. The announcement is encrypted under
    /// the key that was in use so far.
    pub fn begin_rekey(
        &mut self,
        rk_priv: RawKey,
        rk_pub: RawKey,
        new_salt: [u8; 12],
        new_key: RawKey,
        now: u64,
    ) -> (r: Sealed)
        requires
            old(self).epoch < u32::MAX,
        ensures
            r@ == rekey_sealed(old(self).active_key(), old(self).epoch, rk_pub, new_salt),
            *final(self) == rotated(*old(self), rk_priv, rk_pub, new_salt, new_key, now),
            old(self).wf() ==> final(self).wf(),
    {
        let payload = frame_rekey_payload(&rk_pub, &new_salt);
        let r = Sealed {
            key: *self.current_key(),
            nonce: None,
            plain: frame_tunnel_packet(TUNNEL_REKEY, self.epoch, 0, payload.as_slice()),
        };
        self.rk_priv = Some(rk_priv);
        self.rk_pub = Some(rk_pub);
        self.my_salt = Some(new_salt);
        self.peer_key = Some(new_key);
        self.epoch = self.epoch + 1;
        self.last_rekey = now;
        r
    }

    /// Takes note that a packet is about to be sent, and says what else is due.
    pub fn plan_send(&mut self, now: u64, rekey_every_pkts: u64) -> (r: SendPlan)
        requires
            old(self).sent_pkts < u64::MAX,
        ensures
            old(self).wf() ==> final(self).wf(),
            send_planned(*old(self), now, rekey_every_pkts, r, *final(self)),
    {
        let may = match self.last_requery {
            Some(t) => elapsed(now, t) >= RE_QUERY_MIN_INTERVAL_MS,
            None => true,
        };
        let stale = elapsed(now, self.last_seen) > RE_QUERY_STALE_MS;
        let mut requery: Option<String> = None;
        if stale && may && !self.ip.as_str().is_empty() {
            self.last_requery = Some(now);
            requery = Some(self.ip.clone());
        }
        self.sent_pkts = self.sent_pkts + 1;
        let rekey_due = rekey_every_pkts > 0 && self.sent_pkts % rekey_every_pkts == 0;
        SendPlan { requery, rekey_due }
    }

    /// The session before and after a packet to be sent was taken in, and what became
    /// of the packet.
    pub open spec fn enqueued(&self, payload: Seq<u8>, now: u64, a: Admission, after: Self) -> bool {
        if self.peer_key is None {
            &&& a is Buffered
            &&& packets_view(after.pending@) == (if self.pending@.len() >= PENDING_CAP {
                packets_view(self.pending@).skip(1)
            } else {
                packets_view(self.pending@)
            }).push(payload)
            &&& after == (PeerSession { pending: after.pending, ..*self })
        } else if self.send_unacked@.len() >= RELIABLE_WINDOW {
            &&& a is WindowFull
            &&& after == *self
        } else {
            let seq = (self.send_seq + 1) as u64;
            &&& a is Send
            &&& a->Send_0@ == data_sealed(self.active_key(), self.epoch, seq, payload)
            &&& window_view(after.send_unacked@) == window_view(self.send_unacked@).push(
                UnackedView { seq, sent_at: now, retries: 0, payload },
            )
            &&& after == (PeerSession {
                send_seq: seq,
                send_unacked: after.send_unacked,
                ..*self
            })
        }
    }

    /// Takes in a packet to be sent. Before the handshake it waits, the oldest
    /// waiting packet making room. After it, the packet gets the next sequence
    /// number and is kept until it is acknowledged, if the window has room; else it is
    /// refused, and no number is spent on it.
    pub fn enqueue(&mut self, payload: &[u8], now: u64) -> (r: Admission)
        requires
            old(self).wf(),
            old(self).send_seq < u64::MAX,
        ensures
            final(self).wf(),
            old(self).enqueued(payload@, now, r, *final(self)),
    {
        let ghost before = *self;
        if !self.established() {
            if self.pending.len() >= PENDING_CAP {
                self.pending.pop_front();
                assert(packets_view(self.pending@) =~= packets_view(before.pending@).skip(1));
            }
            let ghost mid = packets_view(self.pending@);
            self.pending.push_back(copy_bytes(payload));
            assert(packets_view(self.pending@) =~= mid.push(payload@));
            return Admission::Buffered;
        }
        if self.send_unacked.len() >= RELIABLE_WINDOW {
            return Admission::WindowFull;
        }
        self.send_seq = self.send_seq + 1;
        let seq: u64 = self.send_seq;
        let kept = Unacked { seq, sent_at: now, retries: 0, payload: copy_bytes(payload) };
        self.send_unacked.push(kept);
        proof {
            assert(window_view(self.send_unacked@) =~= window_view(before.send_unacked@).push(kept@));
        }
        Admission::Send(seal_data(self.current_key(), self.epoch, seq, payload))
    }

    /// Chooses the way that a packet goes. A direct path that has gone silent is
    /// given up.
    pub fn choose_route(&mut self, punch_enabled: bool, now: u64) -> (r: Route)
        ensures
            old(self).wf() ==> final(self).wf(),
            route_chosen(*old(self), punch_enabled, now, r, *final(self)),
    {
        if self.transport != Transport::Direct || !punch_enabled {
            return Route::Relay;
        }
        match self.endpoint {
            Some(ep) => {
                if direct_stale(&self.last_direct, now) {
                    self.transport = Transport::Relay;
                    Route::Relay
                } else {
                    Route::Direct(ep)
                }
            },
            None => Route::Relay,
        }
    }

    /// The key by which a relay addresses the peer. A peer that was silent for
    /// too long has lost it; then its long-term key has to do.
    pub fn relay_key(&self, now: u64, recover_stale_ms: u64) -> (r: Option<RawKey>)
        ensures
            r == (if elapsed_ms(now, self.last_seen) > recover_stale_ms {
                None
            } else {
                self.peer_relay_rk
            }),
    {
        if elapsed(now, self.last_seen) > recover_stale_ms {
            None
        } else {
            self.peer_relay_rk
        }
    }

    /// The acknowledgement of everything up to `ack`. There is none before the
    /// handshake.
    pub fn build_ack(&self, ack: u64) -> (r: Option<Sealed>)
        ensures
            r is Some <==> self.peer_key is Some,
            r matches Some(s) ==> s@ == ack_sealed(self.active_key(), self.epoch, ack),
    {
        if !self.established() {
            return None;
        }
        let payload = ack_payload(ack);
        Some(
            Sealed {
                key: *self.current_key(),
                nonce: None,
                plain: frame_tunnel_packet(TUNNEL_ACK, self.epoch, 0, payload.as_slice()),
            },
        )
    }
}

/// Whether a waiting packet is to be sent again.
pub open spec fn is_due(u: UnackedView, now: u64) -> bool {
    u.retries < MAX_RETRIES && elapsed_ms(now, u.sent_at) >= RETRANSMIT_TIMEOUT_MS
}

/// A waiting packet after it was sent again.
pub open spec fn sent_again(u: UnackedView, now: u64) -> UnackedView {
    if is_due(u, now) {
        UnackedView { sent_at: now, retries: (u.retries + 1) as u32, ..u }
    } else {
        u
    }
}

/// The packets of a window that an acknowledgement leaves waiting.
pub open spec fn beyond(w: Seq<UnackedView>, ack: u64) -> Seq<UnackedView> {
    w.filter(|u: UnackedView| u.seq > ack)
}

/// The packets of a window that are to be sent again, under a key and epoch.
pub open spec fn resent(w: Seq<UnackedView>, now: u64, key: RawKey, epoch: u32) -> Seq<SealedView> {
    w.filter(|u: UnackedView| is_due(u, now)).map_values(
        |u: UnackedView| data_sealed(key, epoch, u.seq, u.payload),
    )
}

/// A window in its old order with the sequence numbers 1, 2, 3 and so on.
pub open spec fn renumbered(w: Seq<UnackedView>, now: u64) -> Seq<UnackedView> {
    Seq::new(
        w.len(),
        |i: int|
            UnackedView {
                seq: (i + 1) as u64,
                sent_at: now,
                retries: 0,
                payload: w[i].payload,
            },
    )
}

/// The number of bytes in a sequence of packets.
pub open spec fn total_len(p: Seq<Seq<u8>>) -> nat
    decreases p.len(),
{
    if p.len() == 0 {
        0
    } else {
        total_len(p.drop_last()) + p.last().len()
    }
}

proof fn lemma_filter_suffix(w: Seq<UnackedView>, n: int, f: spec_fn(UnackedView) -> bool)
    requires
        0 <= n <= w.len(),
        forall|i: int| 0 <= i < n ==> !f(#[trigger] w[i]),
        forall|i: int| n <= i < w.len() ==> f(#[trigger] w[i]),
    ensures
        w.filter(f) == w.skip(n),
    decreases w.len(),
{
    reveal(Seq::filter);
    if w.len() > 0 {
        let front = w.drop_last();
        if n == w.len() {
            lemma_filter_suffix(front, n - 1, f);
        } else {
            lemma_filter_suffix(front, n, f);
        }
        assert(w.filter(f) =~= w.skip(n));
    } else {
        assert(w.filter(f) =~= w.skip(n));
    }
}

/// What follows from a HELLO of the peer.
pub struct HelloOutcome {
    /// The handshake is done now.
    pub is_first: bool,
    /// The HELLO to answer with.
    pub reply: Option<Sealed>,
}

impl PeerSession {
    /// Takes in an acknowledgement of everything up to `ack`.
    pub fn handle_ack(&mut self, ack: u64, now: u64)
        requires
            old(self).wf(),
        ensures
            final(self).wf(),
            ack_taken_in(*old(self), ack, now, *final(self)),
    {
        if !self.established() {
            return;
        }
        let ghost w = self.send_unacked@;
        let mut n: usize = 0;
        while n < self.send_unacked.len() && self.send_unacked[n].seq <= ack
            invariant
                n <= w.len(),
                self.send_unacked@ == w,
                *self == *old(self),
                forall|i: int| 0 <= i < n ==> (#[trigger] w[i]).seq <= ack,
            decreases w.len() - n,
        {
            n = n + 1;
        }
        let kept = self.send_unacked.split_off(n);
        self.send_unacked = kept;
        self.last_seen = now;
        proof {
            let f = |u: UnackedView| u.seq > ack;
            let v = window_view(w);
            assert forall|i: int| n <= i < v.len() implies f(#[trigger] v[i]) by {
                if i > n {
                    assert(w[n as int].seq < w[i].seq);
                }
            }
            lemma_filter_suffix(v, n as int, f);
            assert(window_view(self.send_unacked@) =~= v.skip(n as int));
        }
    }

    /// The packets to be sent again, under the current key and epoch. Their
    /// waiting time starts anew.
    pub fn retransmit(&mut self, now: u64) -> (r: Vec<Sealed>)
        requires
            old(self).wf(),
        ensures
            final(self).wf(),
            sent_again_all(*old(self), now, sealed_views(r@), *final(self)),
            old(self).peer_key is Some ==> all_is_sent_again(
                *old(self),
                now,
                sealed_views(r@),
                *final(self),
            ),
    {
        let mut out: Vec<Sealed> = Vec::new();
        if !self.established() {
            assert(sealed_views(out@) =~= Seq::<SealedView>::empty());
            return out;
        }
        let key: RawKey = *self.current_key();
        let epoch: u32 = self.epoch;
        let ghost w = window_view(self.send_unacked@);
        let ghost f = |u: UnackedView| is_due(u, now);
        let ghost g = |u: UnackedView| data_sealed(key, epoch, u.seq, u.payload);
        let mut i: usize = 0;
        proof {
            reveal(Seq::filter);
            assert(sealed_views(out@) =~= w.take(0).filter(f).map_values(g));
        }
        while i < self.send_unacked.len()
            invariant
                i <= self.send_unacked@.len(),
                w == window_view(old(self).send_unacked@),
                self.send_unacked@.len() == w.len(),
                old(self).wf(),
                key == old(self).active_key(),
                epoch == old(self).epoch,
                f == (|u: UnackedView| is_due(u, now)),
                g == (|u: UnackedView| data_sealed(key, epoch, u.seq, u.payload)),
                *self == (PeerSession { send_unacked: self.send_unacked, ..*old(self) }),
                sealed_views(out@) == w.take(i as int).filter(f).map_values(g),
                forall|j: int| i <= j < w.len() ==> (#[trigger] self.send_unacked@[j])@ == w[j],
                forall|j: int|
                    0 <= j < i ==> (#[trigger] self.send_unacked@[j])@ == sent_again(w[j], now),
            decreases w.len() - i,
        {
            proof {
                lemma_filter_take(w, i as int, f);
                assert(self.send_unacked@[i as int]@ == w[i as int]);
            }
            let due = self.send_unacked[i].retries < MAX_RETRIES && elapsed(
                now,
                self.send_unacked[i].sent_at,
            ) >= RETRANSMIT_TIMEOUT_MS;
            if due {
                let frame = seal_data(
                    &key,
                    epoch,
                    self.send_unacked[i].seq,
                    self.send_unacked[i].payload.as_slice(),
                );
                let ghost done = sealed_views(out@);
                out.push(frame);
                self.send_unacked[i].sent_at = now;
                self.send_unacked[i].retries = self.send_unacked[i].retries + 1;
                proof {
                    assert(sealed_views(out@) =~= done.push(frame@));
                    assert(sealed_views(out@) =~= w.take(i + 1).filter(f).map_values(g));
                }
            }
            i = i + 1;
        }
        proof {
            assert(w.take(w.len() as int) =~= w);
            assert(window_view(self.send_unacked@) =~= w.map_values(
                |u: UnackedView| sent_again(u, now),
            ));
            assert forall|j: int| 0 <= j < w.len() implies (#[trigger] self.send_unacked@[j]).seq
                == w[j].seq by {
                assert(self.send_unacked@[j]@.seq == w[j].seq);
            }
            assert forall|j: int| 0 <= j < w.len() implies (#[trigger] old(self).send_unacked@[j]).seq
                == w[j].seq by {}
            what_waits_is_sent_again(*old(self), now, sealed_views(out@), *self);
        }
        out
    }

    /// Takes note that a packet came directly from `src`. With hole punching
    /// enabled the direct path is used from then on.
    pub fn note_direct(&mut self, src: Endpoint, punch_enabled: bool, now: u64)
        ensures
            old(self).wf() ==> final(self).wf(),
            heard_directly(*old(self), src, punch_enabled, now, *final(self)),
    {
        self.endpoint = Some(src);
        self.last_direct = Some(now);
        if punch_enabled {
            self.transport = Transport::Direct;
        }
        self.last_seen = now;
    }

    /// Takes note that a packet of type `typ` came through a relay. A peer that
    /// sends data that way has lost the direct path; anything else counts only
    /// where the direct path has gone silent.
    pub fn note_relayed(&mut self, typ: u8, now: u64)
        ensures
            old(self).wf() ==> final(self).wf(),
            heard_by_relay(*old(self), typ, now, *final(self)),
    {
        if self.transport == Transport::Direct && (typ == TUNNEL_DATA || direct_stale(
            &self.last_direct,
            now,
        )) {
            self.transport = Transport::Relay;
        }
    }

    /// Takes in a data packet. Returns the packets to hand on and the sequence
    /// number to acknowledge; nothing where the session is not established or the
    /// packet is of another epoch.
    pub fn accept_data(
        &mut self,
        epoch: u32,
        seq: u64,
        payload: &[u8],
        direct: bool,
        now: u64,
    ) -> (r: Option<(Vec<Vec<u8>>, u64)>)
        requires
            old(self).wf(),
        ensures
            final(self).wf(),
            data_taken_in(*old(self), epoch, seq, payload@, direct, now, r, *final(self)),
    {
        if !self.established() || epoch != self.epoch {
            return None;
        }
        self.last_seen = now;
        if direct {
            self.last_direct = Some(now);
        }
        let (delivered, high) = reorder_deliver(self.recv_seq, &mut self.recv_buf, seq, payload);
        proof {
            let buf = buffer_view(old(self).recv_buf@);
            assert(buf.dom() =~= old(self).recv_buf@.dom());
            the_buffer_stays_bounded(old(self).recv_seq, buf, seq, payload@);
            assert(buffer_view(self.recv_buf@).dom() =~= self.recv_buf@.dom());
        }
        let mut i: usize = 0;
        let ghost p = packets_view(delivered@);
        let mut rx: u64 = self.rx_bytes;
        assert(p.take(0) =~= Seq::<Seq<u8>>::empty());
        while i < delivered.len()
            invariant
                i <= delivered@.len(),
                p == packets_view(delivered@),
                rx == (old(self).rx_bytes + total_len(p.take(i as int)))
                    % 0x1_0000_0000_0000_0000,
            decreases delivered@.len() - i,
        {
            proof {
                assert(p.take(i + 1).drop_last() =~= p.take(i as int));
                assert(p[i as int] == delivered@[i as int]@);
            }
            rx = rx.wrapping_add(delivered[i].len() as u64);
            i = i + 1;
        }
        assert(p.take(p.len() as int) =~= p);
        self.rx_bytes = rx;
        self.recv_seq = high;
        Some((delivered, high))
    }
}

impl PeerSession {
    /// Whether a HELLO with this routing key starts the session anew.
    pub open spec fn hello_restarts(&self, peer_rk: RawKey) -> bool {
        self.peer_key is None || self.peer_rk_pub != Some(peer_rk)
    }

    /// The answer to a HELLO that started the session anew.
    pub open spec fn hello_reply(&self, local_ip: Seq<u8>) -> Option<SealedView> {
        match (self.rk_pub, self.my_salt) {
            (Some(rk), Some(salt)) => Some(
                hello_sealed(self.handshake_key, self.epoch, rk, salt, local_ip),
            ),
            _ => None,
        }
    }

    /// Takes in a HELLO of the peer, with the session key that follows from it.
    ///
    /// The first HELLO completes the handshake. It, and any HELLO with another
    /// routing key, starts the session anew: the epochs and both directions' sequence
    /// numbers start over, the waiting packets are numbered from one again, in their old
    /// order, and the HELLO is answered under the handshake key, which a restarted peer
    /// can read.
    pub fn accept_hello(
        &mut self,
        peer_rk: RawKey,
        peer_salt: [u8; 12],
        ip: String,
        new_key: RawKey,
        local_ip: &str,
        now: u64,
    ) -> (r: HelloOutcome)
        requires
            old(self).wf(),
        ensures
            final(self).wf(),
            r.is_first == (old(self).peer_key is None),
            old(self).hello_restarts(peer_rk) ==> match final(self).hello_reply(
                local_ip.spec_bytes(),
            ) {
                Some(h) => r.reply is Some && r.reply->0@ == h,
                None => r.reply is None,
            },
            !old(self).hello_restarts(peer_rk) ==> r.reply is None,
            *final(self) == (PeerSession {
                peer_key: Some(new_key),
                peer_rk_pub: Some(peer_rk),
                peer_salt: Some(peer_salt),
                epoch: if old(self).hello_restarts(peer_rk) {
                    0
                } else {
                    old(self).epoch
                },
                recv_seq: if old(self).hello_restarts(peer_rk) {
                    0
                } else {
                    old(self).recv_seq
                },
                recv_buf: if old(self).hello_restarts(peer_rk) {
                    final(self).recv_buf
                } else {
                    old(self).recv_buf
                },
                ip: if r.is_first {
                    ip
                } else {
                    old(self).ip
                },
                send_seq: if old(self).hello_restarts(peer_rk) {
                    old(self).send_unacked@.len() as u64
                } else {
                    old(self).send_seq
                },
                send_unacked: final(self).send_unacked,
                last_seen: now,
                ..*old(self)
            }),
            old(self).hello_restarts(peer_rk) ==> final(self).recv_buf@ == Map::<
                u64,
                Vec<u8>,
            >::empty(),
            window_view(final(self).send_unacked@) == (if old(self).hello_restarts(peer_rk) {
                renumbered(window_view(old(self).send_unacked@), now)
            } else {
                window_view(old(self).send_unacked@)
            }),
    {
        let is_first = self.peer_key.is_none();
        let rk_changed = match &self.peer_rk_pub {
            Some(k) => !same_raw_key(k, &peer_rk),
            None => true,
        };
        self.peer_key = Some(new_key);
        self.peer_rk_pub = Some(peer_rk);
        self.peer_salt = Some(peer_salt);
        if is_first {
            self.ip = ip;
        }
        let mut reply: Option<Sealed> = None;
        if is_first || rk_changed {
            self.epoch = 0;
            self.recv_seq = 0;
            self.recv_buf = BTreeMap::new();
            let ghost w = window_view(old(self).send_unacked@);
            let ghost before = *self;
            let mut i: usize = 0;
            while i < self.send_unacked.len()
                invariant
                    i <= self.send_unacked@.len(),
                    self.send_unacked@.len() == w.len(),
                    w.len() <= RELIABLE_WINDOW,
                    *self == (PeerSession { send_unacked: self.send_unacked, ..before }),
                    forall|j: int| i <= j < w.len() ==> (#[trigger] self.send_unacked@[j])@ == w[j],
                    forall|j: int|
                        0 <= j < i ==> (#[trigger] self.send_unacked@[j])@ == renumbered(
                            w,
                            now,
                        )[j],
                decreases w.len() - i,
            {
                assert(self.send_unacked@[i as int]@ == w[i as int]);
                self.send_unacked[i].seq = i as u64 + 1;
                self.send_unacked[i].sent_at = now;
                self.send_unacked[i].retries = 0;
                i = i + 1;
            }
            self.send_seq = self.send_unacked.len() as u64;
            proof {
                assert(window_view(self.send_unacked@) =~= renumbered(w, now));
                assert forall|j: int| 0 <= j < w.len() implies (#[trigger] self.send_unacked@[j]).seq
                    == j + 1 by {
                    assert(self.send_unacked@[j]@.seq == renumbered(w, now)[j].seq);
                }
            }
            reply = match (&self.rk_pub, &self.my_salt) {
                (Some(rk), Some(salt)) => Some(
                    seal_hello(&self.handshake_key, self.epoch, rk, salt, local_ip.as_bytes()),
                ),
                _ => None,
            };
        }
        self.last_seen = now;
        HelloOutcome { is_first, reply }
    }

    /// Whether a REKEY of this epoch is to be obeyed: one of another epoch is a
    /// repetition of an old one.
    pub fn may_accept_rekey(&self, epoch: u32) -> (r: bool)
        ensures
            r == (self.peer_key is Some && epoch == self.epoch && self.rk_priv is Some),
    {
        self.established() && epoch == self.epoch && self.rk_priv.is_some()
    }

    /// Takes in the peer's new routing key and salt, with the session key that
    /// follows from them.
    pub fn accept_rekey(&mut self, peer_rk: RawKey, peer_salt: [u8; 12], new_key: RawKey, now: u64)
        requires
            old(self).epoch < u32::MAX,
        ensures
            *final(self) == followed(*old(self), peer_rk, peer_salt, new_key, now),
            old(self).wf() ==> final(self).wf(),
    {
        self.peer_key = Some(new_key);
        self.peer_rk_pub = Some(peer_rk);
        self.peer_salt = Some(peer_salt);
        self.epoch = self.epoch + 1;
        self.last_rekey = now;
    }

    /// Takes out the packets that waited for the handshake.
    pub fn take_pending(&mut self) -> (r: VecDeque<Vec<u8>>)
        ensures
            r@ == old(self).pending@,
            final(self).pending@ == Seq::<Vec<u8>>::empty(),
            *final(self) == (PeerSession { pending: final(self).pending, ..*old(self) }),
            old(self).wf() ==> final(self).wf(),
    {
        let mut out: VecDeque<Vec<u8>> = VecDeque::new();
        out.append(&mut self.pending);
        assert(out@ =~= old(self).pending@);
        out
    }

    /// Counts bytes that were sent to the peer.
    pub fn bump_tx(&mut self, n: u64)
        ensures
            *final(self) == (PeerSession {
                tx_bytes: ((old(self).tx_bytes + n) % 0x1_0000_0000_0000_0000) as u64,
                ..*old(self)
            }),
            old(self).wf() ==> final(self).wf(),
    {
        self.tx_bytes = self.tx_bytes.wrapping_add(n);
    }
}

/// A session before and after an acknowledgement of everything up to `ack` was taken in.
pub open spec fn ack_taken_in(
    before: PeerSession,
    ack: u64,
    now: u64,
    after: PeerSession,
) -> bool {
    &&& (before.peer_key is None ==> after == before)
    &&& (before.peer_key is Some ==> {
        &&& window_view(after.send_unacked@) == beyond(
            window_view(before.send_unacked@),
            ack,
        )
        &&& after == (PeerSession {
            send_unacked: after.send_unacked,
            last_seen: now,
            ..before
        })
    })
}

/// A session before and after its waiting packets were looked through, and the frames that
/// are to be sent again.
pub open spec fn sent_again_all(
    before: PeerSession,
    now: u64,
    frames: Seq<SealedView>,
    after: PeerSession,
) -> bool {
    &&& (before.peer_key is None ==> frames == Seq::<SealedView>::empty() && after == before)
    &&& (before.peer_key is Some ==> {
        &&& frames == resent(
            window_view(before.send_unacked@),
            now,
            before.active_key(),
            before.epoch,
        )
        &&& window_view(after.send_unacked@) == window_view(
            before.send_unacked@,
        ).map_values(|u: UnackedView| sent_again(u, now))
        &&& after == (PeerSession {
            send_unacked: after.send_unacked,
            ..before
        })
    })
}

/// A session before and after a data packet was taken in, with the packets to hand on and
/// the number to acknowledge.
pub open spec fn data_taken_in(
    before: PeerSession,
    epoch: u32,
    seq: u64,
    payload: Seq<u8>,
    direct: bool,
    now: u64,
    r: Option<(Vec<Vec<u8>>, u64)>,
    after: PeerSession,
) -> bool {
    &&& (r is Some <==> (before.peer_key is Some && epoch == before.epoch))
    &&& (r is None ==> after == before)
    &&& (r matches Some((delivered, ack)) ==> {
        let buf = buffer_view(before.recv_buf@);
        let high = before.recv_seq;
        &&& packets_view(delivered@) == delivered_by(high, buf, seq, payload)
        &&& ack == high_after(high, buf, seq)
        &&& buffer_view(after.recv_buf@) == buffer_after(high, buf, seq, payload)
        &&& after == (PeerSession {
            last_seen: now,
            last_direct: if direct {
                Some(now)
            } else {
                before.last_direct
            },
            rx_bytes: after.rx_bytes,
            recv_seq: ack,
            recv_buf: after.recv_buf,
            ..before
        })
        &&& after.rx_bytes == (before.rx_bytes + total_len(
            packets_view(delivered@),
        )) % 0x1_0000_0000_0000_0000
    })
}

/// A session before and after a packet was about to be sent, and what else is due.
pub open spec fn send_planned(
    before: PeerSession,
    now: u64,
    rekey_every_pkts: u64,
    r: SendPlan,
    after: PeerSession,
) -> bool {
    &&& (before.wants_requery(now) ==> r.requery is Some && r.requery->0@ == before.ip@)
    &&& (!before.wants_requery(now) ==> r.requery is None)
    &&& r.rekey_due == (rekey_every_pkts > 0 && (before.sent_pkts + 1) % (
    rekey_every_pkts as int) == 0)
    &&& after == (PeerSession {
        last_requery: if before.wants_requery(now) {
            Some(now)
        } else {
            before.last_requery
        },
        sent_pkts: (before.sent_pkts + 1) as u64,
        ..before
    })
}

/// A session before and after the way of a packet was chosen.
pub open spec fn route_chosen(
    before: PeerSession,
    punch_enabled: bool,
    now: u64,
    r: Route,
    after: PeerSession,
) -> bool {
    &&& r == before.route(punch_enabled, now)
    &&& after == (PeerSession {
        transport: if before.gives_up_direct(punch_enabled, now) {
            Transport::Relay
        } else {
            before.transport
        },
        ..before
    })
}

/// A session before and after a packet came directly from `src`.
pub open spec fn heard_directly(
    before: PeerSession,
    src: Endpoint,
    punch_enabled: bool,
    now: u64,
    after: PeerSession,
) -> bool {
    &&& after == (PeerSession {
        endpoint: Some(src),
        last_direct: Some(now),
        transport: if punch_enabled {
            Transport::Direct
        } else {
            before.transport
        },
        last_seen: now,
        ..before
    })
}

/// A session before and after a packet of type `typ` came through a relay.
pub open spec fn heard_by_relay(
    before: PeerSession,
    typ: u8,
    now: u64,
    after: PeerSession,
) -> bool {
    &&& after == (PeerSession {
        transport: if before.transport == Transport::Direct && (typ == TUNNEL_DATA
            || direct_is_stale(before.last_direct, now)) {
            Transport::Relay
        } else {
            before.transport
        },
        ..before
    })
}

/// The two sides of a handshake combine the same two salts in opposite orders and
/// get the same salt.
pub proof fn both_sides_derive_the_same_salt(a: Seq<u8>, b: Seq<u8>)
    requires
        a.len() == b.len(),
    ensures
        xor_bytes(a, b) == xor_bytes(b, a),
{
    assert forall|i: int| 0 <= i < a.len() implies xor_bytes(a, b)[i] == xor_bytes(b, a)[i] by {
        let x = a[i];
        let y = b[i];
        assert(x ^ y == y ^ x) by (bit_vector);
    }
    assert(xor_bytes(a, b) =~= xor_bytes(b, a));
}

/// A salt that is combined twice with another comes back.
pub proof fn combining_twice_restores(a: Seq<u8>, b: Seq<u8>)
    requires
        a.len() == b.len(),
    ensures
        xor_bytes(xor_bytes(a, b), b) == a,
{
    assert forall|i: int| 0 <= i < a.len() implies xor_bytes(xor_bytes(a, b), b)[i] == a[i] by {
        let x = a[i];
        let y = b[i];
        assert((x ^ y) ^ y == x) by (bit_vector);
    }
    assert(xor_bytes(xor_bytes(a, b), b) =~= a);
}

/// When one side rotates its routing key and the other follows, both derive the next key
/// from the same salt, count the same epoch and know the same routing key. The stream of
/// packets goes on: what waits to be acknowledged and what was delivered stay as they are.
pub proof fn a_rotation_keeps_both_sides_in_step(
    a: PeerSession,
    b: PeerSession,
    rk_priv: RawKey,
    rk_pub: RawKey,
    new_salt: [u8; 12],
    key: RawKey,
    now: u64,
)
    requires
        a.epoch == b.epoch,
        a.epoch < u32::MAX,
        a.peer_salt is Some,
        a.peer_salt == b.my_salt,
    ensures
        ({
            let x = rotated(a, rk_priv, rk_pub, new_salt, key, now);
            let y = followed(b, rk_pub, new_salt, key, now);
            &&& xor_bytes(new_salt@, salt_bytes(a.peer_salt)) == xor_bytes(
                salt_bytes(b.my_salt),
                new_salt@,
            )
            &&& x.epoch == y.epoch == a.epoch + 1
            &&& x.active_key() == y.active_key()
            &&& x.rk_pub == y.peer_rk_pub
            &&& x.my_salt == y.peer_salt
            &&& x.send_unacked == a.send_unacked && x.send_seq == a.send_seq
            &&& y.recv_seq == b.recv_seq && y.recv_buf == b.recv_buf
        }),
{
    both_sides_derive_the_same_salt(new_salt@, salt_bytes(a.peer_salt));
}

/// The session of a peer before and after a HELLO was taken in and the packets that
/// waited for it were taken out.
pub open spec fn hello_taken_in(
    s0: PeerSession,
    peer_rk: RawKey,
    peer_salt: [u8; 12],
    ip: String,
    new_key: RawKey,
    now: u64,
    s1: PeerSession,
) -> bool {
    let first = s0.peer_key is None;
    let anew = s0.hello_restarts(peer_rk);
    &&& s1 == (PeerSession {
        peer_key: Some(new_key),
        peer_rk_pub: Some(peer_rk),
        peer_salt: Some(peer_salt),
        epoch: if anew {
            0
        } else {
            s0.epoch
        },
        recv_seq: if anew {
            0
        } else {
            s0.recv_seq
        },
        recv_buf: if anew {
            s1.recv_buf
        } else {
            s0.recv_buf
        },
        ip: if first {
            ip
        } else {
            s0.ip
        },
        send_seq: if anew {
            s0.send_unacked@.len() as u64
        } else {
            s0.send_seq
        },
        send_unacked: s1.send_unacked,
        pending: s1.pending,
        last_seen: now,
        ..s0
    })
    &&& s1.pending@ == (if first {
        Seq::<Vec<u8>>::empty()
    } else {
        s0.pending@
    })
    &&& anew ==> s1.recv_buf@ == Map::<u64, Vec<u8>>::empty()
    &&& window_view(s1.send_unacked@) == (if anew {
        renumbered(window_view(s0.send_unacked@), now)
    } else {
        window_view(s0.send_unacked@)
    })
}

/// Whether two sides can talk: they use one key in one epoch, and each takes as the next
/// packet the first one that the other has not seen acknowledged.
pub open spec fn in_step(a: PeerSession, b: PeerSession) -> bool {
    &&& a.peer_key is Some && b.peer_key is Some
    &&& a.active_key() == b.active_key()
    &&& a.epoch == b.epoch
    &&& a.recv_seq == b.acknowledged() && b.recv_seq == a.acknowledged()
    &&& a.recv_buf@ == Map::<u64, Vec<u8>>::empty()
    &&& b.recv_buf@ == Map::<u64, Vec<u8>>::empty()
}

/// When a device that has lost its sessions says HELLO, or says so for the first time, and
/// the other answers, both derive the key from the same salt and are in step again, each
/// with all the packets that it had waiting, whatever the other had sent or counted before.
pub proof fn a_restart_puts_both_sides_in_step(
    a: PeerSession,
    b: PeerSession,
    ip_a: String,
    ip_b: String,
    key: RawKey,
    now_a: u64,
    now_b: u64,
    x: PeerSession,
    y: PeerSession,
)
    requires
        a.wf(),
        b.wf(),
        a.rk_pub is Some && a.my_salt is Some,
        b.rk_pub is Some && b.my_salt is Some,
        b.hello_restarts(a.rk_pub->0),
        a.hello_restarts(b.rk_pub->0),
        hello_taken_in(b, a.rk_pub->0, a.my_salt->0, ip_a, key, now_b, y),
        hello_taken_in(a, b.rk_pub->0, b.my_salt->0, ip_b, key, now_a, x),
    ensures
        xor_bytes(salt_bytes(a.my_salt), salt_bytes(b.my_salt)) == xor_bytes(
            salt_bytes(b.my_salt),
            salt_bytes(a.my_salt),
        ),
        in_step(x, y),
        x.epoch == 0 && x.recv_seq == 0 && y.recv_seq == 0,
        forall|i: int|
            0 <= i < a.send_unacked@.len() ==> (#[trigger] window_view(x.send_unacked@)[i]).payload
                == window_view(a.send_unacked@)[i].payload,
        forall|i: int|
            0 <= i < b.send_unacked@.len() ==> (#[trigger] window_view(y.send_unacked@)[i]).payload
                == window_view(b.send_unacked@)[i].payload,
{
    both_sides_derive_the_same_salt(salt_bytes(a.my_salt), salt_bytes(b.my_salt));
    assert(window_view(x.send_unacked@).len() == window_view(a.send_unacked@).len());
    assert(window_view(y.send_unacked@).len() == window_view(b.send_unacked@).len());
}

/// What a side admits when the other has received all before it, the other hands on at
/// once.
pub proof fn what_is_admitted_is_handed_on(
    a: PeerSession,
    b: PeerSession,
    payload: Seq<u8>,
    now: u64,
    admission: Admission,
    after: PeerSession,
)
    requires
        a.wf(),
        a.peer_key is Some,
        a.send_unacked@.len() < RELIABLE_WINDOW,
        a.send_seq < u64::MAX,
        b.recv_seq == a.send_seq,
        b.recv_buf@ == Map::<u64, Vec<u8>>::empty(),
        a.enqueued(payload, now, admission, after),
    ensures
        ({
            let seq = after.send_seq;
            &&& admission is Send
            &&& admission->Send_0@ == data_sealed(a.active_key(), a.epoch, seq, payload)
            &&& delivered_by(b.recv_seq, buffer_view(b.recv_buf@), seq, payload) == seq![payload]
            &&& high_after(b.recv_seq, buffer_view(b.recv_buf@), seq) == after.send_seq
        }),
{
    let buf = buffer_view(b.recv_buf@);
    assert(buf =~= Map::empty());
    assert(delivered_by(b.recv_seq, buf, after.send_seq, payload) =~= seq![payload]);
}

/// A packet that was to be sent: the session before and after it was taken in, and what
/// became of it.
pub struct Taken {
    pub before: PeerSession,
    pub payload: Seq<u8>,
    pub now: u64,
    pub admission: Admission,
    pub after: PeerSession,
}

/// Whether a packet was taken in by an established session.
pub open spec fn is_taken(t: Taken) -> bool {
    &&& t.before.wf()
    &&& t.before.peer_key is Some
    &&& t.before.send_seq < u64::MAX
    &&& t.before.enqueued(t.payload, t.now, t.admission, t.after)
}

proof fn lemma_taken(t: Taken)
    requires
        is_taken(t),
    ensures
        counts(t),
{
}

/// Whether packets were taken in one after another. In between anything may happen that
/// gives out no number and does not start the session anew.
pub open spec fn taken_in_turn(run: Seq<Taken>) -> bool {
    &&& forall|i: int| 0 <= i < run.len() ==> is_taken(#[trigger] run[i])
    &&& forall|i: int, j: int|
        #![trigger run[i], run[j]]
        0 <= i && j == i + 1 && j < run.len() ==> run[j].before.send_seq == run[i].after.send_seq
}

/// The admitted ones among some packets, with their numbers.
pub open spec fn admitted(run: Seq<Taken>) -> Seq<(u64, Seq<u8>)>
    decreases run.len(),
{
    if run.len() == 0 {
        Seq::empty()
    } else if run.last().admission is Send {
        admitted(run.drop_last()).push((run.last().after.send_seq, run.last().payload))
    } else {
        admitted(run.drop_last())
    }
}

/// Whether a packet got the next number, or none where it was not admitted.
spec fn counts(t: Taken) -> bool {
    t.after.send_seq == t.before.send_seq + (if t.admission is Send {
        1int
    } else {
        0int
    })
}

proof fn lemma_numbers(run: Seq<Taken>)
    requires
        run.len() > 0,
        forall|i: int| 0 <= i < run.len() ==> counts(#[trigger] run[i]),
        forall|i: int, j: int|
            #![trigger run[i], run[j]]
            0 <= i && j == i + 1 && j < run.len() ==> run[j].before.send_seq
                == run[i].after.send_seq,
    ensures
        forall|k: int|
            0 <= k < admitted(run).len() ==> (#[trigger] admitted(run)[k]).0
                == run[0].before.send_seq + 1 + k,
        run.last().after.send_seq == run[0].before.send_seq + admitted(run).len(),
    decreases run.len(),
{
    let n = run.len() as int;
    let rest = run.drop_last();
    assert(counts(run[n - 1]));
    if rest.len() > 0 {
        assert forall|i: int| 0 <= i < rest.len() implies counts(#[trigger] rest[i]) by {
            assert(rest[i] == run[i]);
        }
        assert forall|i: int, j: int|
            #![trigger rest[i], rest[j]]
            0 <= i && j == i + 1 && j < rest.len() implies rest[j].before.send_seq
            == rest[i].after.send_seq by {
            assert(rest[i] == run[i] && rest[j] == run[j]);
        }
        lemma_numbers(rest);
        assert(rest.last() == run[n - 2]);
        assert(run[n - 1].before.send_seq == run[n - 2].after.send_seq);
    } else {
        assert(admitted(rest) =~= Seq::empty());
    }
}

/// However many packets are refused in between, the admitted packets of a session carry
/// consecutive numbers, and the last number that was given is that of the last one of
/// them.
pub proof fn admitted_packets_are_numbered_without_gaps(run: Seq<Taken>)
    requires
        run.len() > 0,
        taken_in_turn(run),
    ensures
        forall|k: int|
            0 <= k < admitted(run).len() ==> (#[trigger] admitted(run)[k]).0
                == run[0].before.send_seq + 1 + k,
        run.last().after.send_seq == run[0].before.send_seq + admitted(run).len(),
{
    assert forall|i: int| 0 <= i < run.len() implies counts(#[trigger] run[i]) by {
        lemma_taken(run[i]);
    }
    lemma_numbers(run);
}

/// The packets that wait to be acknowledged carry consecutive numbers, up to the last one
/// that was given.
pub proof fn the_window_ends_at_the_last_number(s: PeerSession)
    requires
        s.wf(),
    ensures
        forall|i: int, j: int|
            #![trigger s.send_unacked@[i], s.send_unacked@[j]]
            0 <= i && j == i + 1 && j < s.send_unacked@.len() ==> s.send_unacked@[j].seq
                == s.send_unacked@[i].seq + 1,
        s.send_unacked@.len() > 0 ==> s.send_unacked@.last().seq == s.send_seq,
{
}

/// Only what was acknowledged leaves the sending window.
pub proof fn only_acknowledged_packets_leave(w: Seq<UnackedView>, ack: u64)
    ensures
        forall|i: int|
            0 <= i < w.len() && (#[trigger] w[i]).seq > ack ==> beyond(w, ack).contains(w[i]),
        forall|i: int| 0 <= i < beyond(w, ack).len() ==> (#[trigger] beyond(w, ack)[i]).seq > ack,
{
    lemma_filter_members(w, |u: UnackedView| u.seq > ack);
}

/// A repeated or late acknowledgement takes nothing more out of the window than
/// the highest one did.
pub proof fn late_acks_are_harmless(w: Seq<UnackedView>, ack: u64, late: u64)
    requires
        late <= ack,
    ensures
        beyond(beyond(w, ack), late) == beyond(w, ack),
{
    let f = |u: UnackedView| u.seq > ack;
    let g = |u: UnackedView| u.seq > late;
    lemma_filter_members(w, f);
    let kept = w.filter(f);
    assert forall|i: int| 0 <= i < kept.len() implies g(#[trigger] kept[i]) by {
        assert(f(kept[i]));
    }
    lemma_filter_suffix(kept, 0, g);
    assert(kept.skip(0) =~= kept);
}

/// Nothing leaves the sending window by being sent again: the same packets wait,
/// under the same numbers, with the same content.
pub proof fn resending_keeps_the_window(w: Seq<UnackedView>, now: u64)
    ensures
        ({
            let v = w.map_values(|u: UnackedView| sent_again(u, now));
            v.len() == w.len() && forall|i: int|
                0 <= i < w.len() ==> (#[trigger] v[i]).seq == w[i].seq && v[i].payload
                    == w[i].payload
        }),
{
}

/// A session that starts anew loses no waiting packet: the same packets wait, in
/// the same order.
pub proof fn restarting_keeps_the_waiting_packets(w: Seq<UnackedView>, now: u64)
    ensures
        renumbered(w, now).len() == w.len(),
        forall|i: int|
            0 <= i < w.len() ==> (#[trigger] renumbered(w, now)[i]).payload == w[i].payload,
{
}

/// With hole punching disabled every packet goes through the relay.
pub proof fn without_punching_all_goes_by_relay(s: PeerSession, now: u64)
    ensures
        s.route(false, now) == Route::Relay,
{
}

} // verus!
