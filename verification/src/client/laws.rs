//! What the parts of the client promise together: how packets, keys and names fare between
//! one step and the next.
//!
//! The laws speak of what is stored and what is sent, and of plain numbers. Instants are
//! milliseconds, unless a law says otherwise.
use vstd::prelude::*;
use vstd::string::*;
use vstd::utf8::*;
use crate::alias::canonical;
use crate::bytes::{be_nat, lemma_u64_round_trip};
use crate::cert::DeviceCert;
use crate::client::config::{ServerEntry, VmNicConfig};
use crate::client::connection::{
    asks_with, auth_accepted, heartbeat_noted, registers_with, server_checked, trust_error, Conn,
};
use crate::client::discovery::{
    alias_learned, name_looked_up, notice_taken, query_completed, PeerFacts,
};
use crate::client::outbox::{
    arrived, hello_completed, noted, packet_opened, packet_outcome, packet_routed, rekey_completed,
    signaling_sealed, FreshKeys, HelloActions, Incoming, Outbox, Resolution, SignalingSeal,
};
use crate::client::paths::{
    forwarding, punch_noted, punch_started, punch_stepped, Forward, PunchStart, PunchStep,
};
use crate::client::peer::{
    key_above, beyond, data_sealed, is_due, sent_again, sent_again_all, window_view, Admission,
    PeerSession, Route, Sealed, SealedView, SendPlan, UnackedView,
};
use crate::client::reliable::{buffer_view, delivered_by, high_after, packets_view};
use crate::client::tunnel::{
    frames_are_read_back, nonces_are_read_back, reads_as_frame, reads_as_nonce, tunnel_frame,
    tunnel_frame_is_injective,
};
use crate::client::upkeep::{packet_enqueued, peers_pruned, rekey_begun, sending_planned};
use crate::net::{Endpoint, IpAddress};
use crate::protocol::{AuthRespBody, PeerInfo};
use crate::seqs::lemma_filter_members;
use crate::table::RawKey;

verus! {

/// Whether a frame carries a packet that waits: it reads as DATA with the packet's own
/// number and payload, under the session's key and epoch and the nonce of that number.
pub open spec fn carries(frame: SealedView, s: PeerSession, u: UnackedView) -> bool {
    &&& reads_as_frame(frame.plain, 2, s.epoch, u.seq, u.payload)
    &&& frame.key == s.active_key()
    &&& frame.nonce is Some && reads_as_nonce(frame.nonce->0, s.epoch, u.seq)
}

/// Whether a receiver who has everything before a packet and lacks just that one hands it
/// on when a frame comes in, whatever else came early.
pub open spec fn is_handed_on(frame: SealedView, u: UnackedView) -> bool {
    forall|buf: Map<u64, Seq<u8>>|
        {
            let handed = #[trigger] delivered_by(
                (u.seq - 1) as u64,
                buf,
                be_nat(frame.plain.subrange(5, 13)) as u64,
                frame.plain.skip(13),
            );
            handed.len() > 0 && handed[0] == u.payload
        }
}

/// Whether a frame carries one of the packets that have waited too long.
pub open spec fn carries_one_of(
    frame: SealedView,
    s: PeerSession,
    w: Seq<UnackedView>,
    now: u64,
) -> bool {
    exists|i: int|
        {
            &&& 0 <= i < w.len()
            &&& waits_too_long(w[i], now)
            &&& #[trigger] carries(frame, s, w[i])
            &&& is_handed_on(frame, w[i])
        }
}

proof fn lemma_filter_keeps_order(w: Seq<UnackedView>, p: spec_fn(UnackedView) -> bool)
    requires
        forall|i: int, j: int| 0 <= i < j < w.len() ==> w[i].seq < w[j].seq,
    ensures
        forall|i: int, j: int|
            0 <= i < j < w.filter(p).len() ==> w.filter(p)[i].seq < w.filter(p)[j].seq,
    decreases w.len(),
{
    reveal(Seq::filter);
    if w.len() > 0 {
        let front = w.drop_last();
        lemma_filter_keeps_order(front, p);
        lemma_filter_members(front, p);
        let f = front.filter(p);
        let g = w.filter(p);
        if p(w.last()) {
            assert forall|i: int, j: int| 0 <= i < j < g.len() implies g[i].seq < g[j].seq by {
                if j == f.len() {
                    assert(front.contains(f[i]));
                    let k = choose|k: int| 0 <= k < front.len() && front[k] == f[i];
                    assert(w[k].seq < w[w.len() - 1].seq);
                }
            }
        }
    }
}

/// Whether exactly the packets that have waited too long are sent again: each under its own
/// number, with its own content and nonce, in their order, so that a receiver who lacks
/// exactly that number hands the packet on. All of them go on waiting under their numbers,
/// and the time starts anew for those that were sent.
pub open spec fn all_is_sent_again(
    before: PeerSession,
    now: u64,
    frames: Seq<SealedView>,
    after: PeerSession,
) -> bool {
    let w = window_view(before.send_unacked@);
    let v = window_view(after.send_unacked@);
        &&& forall|k: int| 0 <= k < frames.len() ==> carries_one_of(#[trigger] frames[k], before, w, now)
    &&& forall|i: int|
        0 <= i < w.len() && waits_too_long(#[trigger] w[i], now) ==> exists|k: int|
            0 <= k < frames.len() && #[trigger] carries(frames[k], before, w[i])
    &&& forall|k: int, l: int|
        0 <= k < l < frames.len() ==> be_nat(#[trigger] frames[k].plain.subrange(5, 13)) < be_nat(
            #[trigger] frames[l].plain.subrange(5, 13),
        ) && frames[k].nonce != frames[l].nonce
    &&& v.len() == w.len()
    &&& forall|i: int|
        0 <= i < w.len() ==> {
            &&& (#[trigger] v[i]).seq == w[i].seq && v[i].payload == w[i].payload
            &&& waits_too_long(w[i], now) ==> v[i].sent_at == now && v[i].retries
                == w[i].retries + 1
            &&& !waits_too_long(w[i], now) ==> v[i] == w[i]
        }
    &&& after.send_seq == before.send_seq && after.recv_seq == before.recv_seq
}

/// Exactly the packets that wait for half a second or longer, and were sent again less than
/// twenty times, are sent again, each under its own number, with its own content and nonce,
/// in their order; so a receiver who lacks exactly that number hands the packet on. All of
/// them go on waiting under their numbers, and the time starts anew for those that were
/// sent.
pub proof fn what_waits_is_sent_again(
    before: PeerSession,
    now: u64,
    frames: Seq<SealedView>,
    after: PeerSession,
)
    requires
        before.wf(),
        before.peer_key is Some,
        sent_again_all(before, now, frames, after),
    ensures
        all_is_sent_again(before, now, frames, after),
{
    let s = before;
    let w = window_view(s.send_unacked@);
    let f = frames;
    let p = |u: UnackedView| is_due(u, now);
    let g = |u: UnackedView| data_sealed(s.active_key(), s.epoch, u.seq, u.payload);
    let due = w.filter(p);
    assert(f == due.map_values(g));
    lemma_filter_members(w, p);
    assert forall|i: int, j: int| 0 <= i < j < w.len() implies w[i].seq < w[j].seq by {
        assert(s.send_unacked@[i].seq == w[i].seq && s.send_unacked@[j].seq == w[j].seq);
    }
    lemma_filter_keeps_order(w, p);
    assert forall|u: UnackedView| #[trigger] carries(g(u), s, u) by {
        frames_are_read_back(2, s.epoch, u.seq, u.payload);
        nonces_are_read_back(s.epoch, u.seq);
    }
    assert forall|i: int| 0 <= i < w.len() implies 1 <= (#[trigger] w[i]).seq by {
        assert(s.send_unacked@[i].seq == w[i].seq);
    }
    assert forall|k: int| 0 <= k < f.len() implies carries_one_of(#[trigger] f[k], s, w, now) by {
        assert(w.contains(due[k]));
        let i = choose|i: int| 0 <= i < w.len() && w[i] == due[k];
        assert(p(due[k]));
        assert(f[k] == g(w[i]));
        assert(carries(g(w[i]), s, w[i]));
        assert(is_handed_on(f[k], w[i]));
        assert(waits_too_long(w[i], now) && carries(f[k], s, w[i]));
    }
    assert forall|i: int|
        0 <= i < w.len() && waits_too_long(#[trigger] w[i], now) implies exists|k: int|
        0 <= k < f.len() && #[trigger] carries(f[k], s, w[i]) by {
        assert(p(w[i]));
        assert(due.contains(w[i]));
        let k = choose|k: int| 0 <= k < due.len() && due[k] == w[i];
        assert(f[k] == g(w[i]));
        assert(carries(g(w[i]), s, w[i]));
    }
    assert forall|k: int, l: int| 0 <= k < l < f.len() implies be_nat(
        #[trigger] f[k].plain.subrange(5, 13),
    ) < be_nat(#[trigger] f[l].plain.subrange(5, 13)) && f[k].nonce != f[l].nonce by {
        assert(f[k] == g(due[k]) && f[l] == g(due[l]));
        assert(carries(g(due[k]), s, due[k]));
        assert(carries(g(due[l]), s, due[l]));
    }
    let v = window_view(after.send_unacked@);
    assert forall|i: int| 0 <= i < w.len() implies (#[trigger] v[i]) == sent_again(w[i], now) by {}
}

/// Whether a packet has waited for half a second or longer for its acknowledgement, and
/// was sent again less than twenty times.
pub open spec fn waits_too_long(u: UnackedView, now: u64) -> bool {
    u.retries < 20 && u.sent_at + 500 <= now
}

proof fn lemma_opened(
    before: Outbox,
    pk: RawKey,
    plain: Seq<u8>,
    direct: bool,
    now: u64,
    r: Incoming,
    after: Outbox,
    typ: u8,
    epoch: u32,
    seq: u64,
    payload: Seq<u8>,
)
    requires
        before.peers@.dom().contains(pk),
        packet_opened(before, pk, plain, direct, now, r, after),
        plain == tunnel_frame(typ, epoch, seq, payload),
    ensures
        packet_outcome(
            noted(before.peers@[pk], typ, direct, now),
            typ,
            epoch,
            seq,
            payload,
            direct,
            now,
            r,
            after.peers@[pk],
        ),
        after.peers@ == before.peers@.insert(pk, after.peers@[pk]),
{
    frames_are_read_back(typ, epoch, seq, payload);
    let (t, e, s, p) = choose|t: u8, e: u32, s: u64, p: Seq<u8>|
        {
            &&& plain == #[trigger] tunnel_frame(t, e, s, p)
            &&& after.peers@.dom().contains(pk)
            &&& after.peers@ == before.peers@.insert(pk, after.peers@[pk])
            &&& packet_outcome(
                noted(before.peers@[pk], t, direct, now),
                t,
                e,
                s,
                p,
                direct,
                now,
                r,
                after.peers@[pk],
            )
        };
    tunnel_frame_is_injective(t, e, s, p, typ, epoch, seq, payload);
}

/// Whether a session that is established has received from its peer all that the peer's
/// session has numbered, under the same epoch.
pub open spec fn is_up_to_date(receiver: PeerSession, sender: PeerSession) -> bool {
    &&& sender.peer_key is Some && receiver.peer_key is Some
    &&& receiver.epoch == sender.epoch
    &&& receiver.recv_seq == sender.send_seq
}

/// A packet goes from one device to the other and is acknowledged: with room in the window
/// it is sent under the next number, the receiver hands it on first of all, and its answer
/// takes the packet, and all before it, out of the sender's window. When the same frame
/// comes once more, nothing is handed on.
pub proof fn a_packet_arrives_once_and_is_acknowledged(
    a0: Outbox,
    b0: Outbox,
    a: RawKey,
    b: RawKey,
    payload: Seq<u8>,
    now: u64,
    admission: Admission,
    a1: Outbox,
    direct: bool,
    then: u64,
    got: Incoming,
    b1: Outbox,
    answered: Incoming,
    a2: Outbox,
    again: Incoming,
    b2: Outbox,
)
    requires
        a0.wf() && b0.wf() && a1.wf(),
        a0.peers@.dom().contains(b) && b0.peers@.dom().contains(a),
        is_up_to_date(b0.peers@[a], a0.peers@[b]),
        a0.peers@[b].send_unacked@.len() < 512,
        a0.peers@[b].send_seq < u64::MAX,
        packet_enqueued(a0, b, payload, now, Some(admission), a1),
        admission is Send ==> packet_opened(
            b0,
            a,
            admission->Send_0@.plain,
            direct,
            then,
            got,
            b1,
        ),
        got is Data && got->ack is Some ==> packet_opened(
            a1,
            b,
            got->ack->0@.plain,
            direct,
            then,
            answered,
            a2,
        ),
        admission is Send ==> packet_opened(
            b1,
            a,
            admission->Send_0@.plain,
            direct,
            then,
            again,
            b2,
        ),
    ensures
        ({
            let s = a0.peers@[b];
            let next = (s.send_seq + 1) as u64;
            let frame = admission->Send_0@;
            &&& admission is Send
            &&& frame.key == s.peer_key->0
            &&& frame.nonce is Some && reads_as_nonce(frame.nonce->0, s.epoch, next)
            &&& reads_as_frame(frame.plain, 2, s.epoch, next, payload)
            &&& got is Data
            &&& packets_view(got->packets@).len() > 0
            &&& packets_view(got->packets@)[0] == payload
            &&& b0.peers@[a].recv_buf@ == Map::<u64, Vec<u8>>::empty() ==> got->packets@.len() == 1
                && b1.peers@[a].recv_seq == next
            &&& got->ack is Some && got->ack->0@.key == b0.peers@[a].peer_key->0
            &&& b1.peers@[a].recv_seq >= next
            &&& answered is Acked
            &&& a2.peers@[b].send_unacked@.len() == 0
            &&& again is Data && again->packets@.len() == 0
            &&& b2.peers@[a].recv_seq == b1.peers@[a].recv_seq
        }),
{
    let s = a0.peers@[b];
    let next = (s.send_seq + 1) as u64;
    let plain = tunnel_frame(2, s.epoch, next, payload);
    assert(a1.peers@[b].wf());
    frames_are_read_back(2, s.epoch, next, payload);
    nonces_are_read_back(s.epoch, next);
    assert(s.enqueued(payload, now, admission, a1.peers@[b]));
    lemma_opened(b0, a, plain, direct, then, got, b1, 2, s.epoch, next, payload);
    let r0 = b0.peers@[a];
    let buf = buffer_view(r0.recv_buf@);
    crate::client::reliable::lemma_run_end(buf.dom(), next);
    let high = high_after(r0.recv_seq, buf, next);
    assert(got is Data);
    assert(b1.peers@[a].recv_seq == high);
    if r0.recv_buf@ == Map::<u64, Vec<u8>>::empty() {
        assert(!buf.dom().contains((next + 1) as u64));
        assert(packets_view(got->packets@).len() == 1);
    }
    let ack = tunnel_frame(4, r0.epoch, 0, crate::bytes::be_bytes(high as nat, 8));
    lemma_u64_round_trip(high);
    assert(crate::bytes::be_bytes(high as nat, 8).take(8) =~= crate::bytes::be_bytes(
        high as nat,
        8,
    ));
    lemma_opened(
        a1,
        b,
        ack,
        direct,
        then,
        answered,
        a2,
        4,
        r0.epoch,
        0,
        crate::bytes::be_bytes(high as nat, 8),
    );
    let w = window_view(a1.peers@[b].send_unacked@);
    lemma_filter_members(w, |u: UnackedView| u.seq > high);
    let kept = beyond(w, high);
    assert(kept.len() == 0) by {
        if kept.len() > 0 {
            assert(w.contains(kept[0]));
            let i = choose|i: int| 0 <= i < w.len() && w[i] == kept[0];
            assert(a1.peers@[b].send_unacked@[i].seq == w[i].seq);
            assert((|u: UnackedView| u.seq > high)(kept[0]));
        }
    }
    assert(window_view(a2.peers@[b].send_unacked@).len() == 0);
    lemma_opened(b1, a, plain, direct, then, again, b2, 2, s.epoch, next, payload);
    assert(packets_view(again->packets@).len() == 0);
}

/// An acknowledgement takes exactly the packets up to its number out of the window, and
/// shows that the peer is alive.
pub proof fn an_acknowledgement_frees_the_window(
    before: PeerSession,
    ack: u64,
    now: u64,
    after: PeerSession,
    u: UnackedView,
)
    requires
        before.peer_key is Some,
        crate::client::peer::ack_taken_in(before, ack, now, after),
    ensures
        window_view(after.send_unacked@).contains(u) <==> window_view(
            before.send_unacked@,
        ).contains(u) && u.seq > ack,
        after.last_seen == now,
        after.send_seq == before.send_seq && after.epoch == before.epoch,
{
    let w = window_view(before.send_unacked@);
    let p = |u: UnackedView| u.seq > ack;
    lemma_filter_members(w, p);
    let kept = w.filter(p);
    if kept.contains(u) {
        let k = choose|k: int| 0 <= k < kept.len() && kept[k] == u;
        assert(p(kept[k]));
        assert(w.contains(kept[k]));
    }
    if w.contains(u) && u.seq > ack {
        let i = choose|i: int| 0 <= i < w.len() && w[i] == u;
        assert(p(w[i]));
        assert(kept.contains(w[i]));
    }
}

/// Before the handshake packets wait, at most 256 of them, the latest ones; the handshake
/// hands them out in their order, to be sent. It leaves the session established under the
/// new key, and answers with this side's routing key, salt and address, under the key that
/// both had from the start.
pub proof fn a_handshake_sets_waiting_packets_free(
    o0: Outbox,
    pk: RawKey,
    payload: Seq<u8>,
    now: u64,
    admission: Admission,
    o1: Outbox,
    peer_rk: RawKey,
    peer_salt: [u8; 12],
    ip: String,
    ip_valid: bool,
    key: RawKey,
    then: u64,
    r: Option<HelloActions>,
    o2: Outbox,
)
    requires
        o0.wf() && o1.wf(),
        o0.peers@.dom().contains(pk),
        o0.peers@[pk].peer_key is None,
        o0.peers@[pk].rk_pub is Some && o0.peers@[pk].my_salt is Some,
        packet_enqueued(o0, pk, payload, now, Some(admission), o1),
        hello_completed(o1, pk, peer_rk, peer_salt, ip, ip_valid, key, then, r, o2),
    ensures
        ({
            let waiting = packets_view(o0.peers@[pk].pending@);
            let out = packets_view(r->0.flush@);
            let s = o2.peers@[pk];
            let h = r->0.reply->0@;
            &&& admission is Buffered
            &&& r is Some
            &&& out.len() > 0 && out.last() == payload
            &&& out.drop_last() == (if waiting.len() < 256 {
                waiting
            } else {
                waiting.skip(1)
            })
            &&& out.len() <= 256
            &&& s.pending@.len() == 0
            &&& s.peer_key == Some(key) && s.epoch == 0 && s.recv_seq == 0
            &&& s.ip@ == ip@
            &&& r->0.reply is Some
            &&& h.key == o0.peers@[pk].handshake_key
            &&& h.plain[0] == 1
            &&& h.plain.subrange(13, 45) == o0.peers@[pk].rk_pub->0@
            &&& h.plain.subrange(45, 57) == o0.peers@[pk].my_salt->0@
            &&& h.plain.skip(57) == encode_utf8(o0.local_ip@)
            &&& ip@.len() > 0 && ip_valid && !o0.ip_index@.dom().contains(ip@)
                ==> o2.ip_index@.dom().contains(ip@) && o2.ip_index@[ip@] == pk
        }),
{
    let s0 = o0.peers@[pk];
    let s1 = o1.peers@[pk];
    assert(s0.wf() && s1.wf());
    assert(s0.enqueued(payload, now, admission, s1));
    let out = packets_view(r->0.flush@);
    assert(packets_view(s1.pending@).len() == s1.pending@.len());
    assert(packets_view(s0.pending@).len() == s0.pending@.len());
    assert(out.drop_last() =~= (if s0.pending@.len() < 256 {
        packets_view(s0.pending@)
    } else {
        packets_view(s0.pending@).skip(1)
    }));
    let rk = s0.rk_pub->0;
    let salt = s0.my_salt->0;
    let p = rk@ + salt@ + encode_utf8(o0.local_ip@);
    frames_are_read_back(1, 0, 0, p);
    let h = tunnel_frame(1, 0, 0, p);
    assert(r->0.reply->0@.plain == h);
    assert(h.subrange(13, 45) =~= h.skip(13).subrange(0, 32));
    assert(h.subrange(45, 57) =~= h.skip(13).subrange(32, 44));
    assert(h.skip(57) =~= h.skip(13).skip(44));
    assert(p.subrange(0, 32) =~= rk@);
    assert(p.subrange(32, 44) =~= salt@);
    assert(p.skip(44) =~= encode_utf8(o0.local_ip@));
}

/// When one device rotates its routing key, the other learns the new key and salt from the
/// announcement, which it can still read, and is told to derive the next key from the same
/// salt as the first one; once it has done so, both use one key in one epoch, the next, and
/// what waits and what was received stays as it was.
pub proof fn a_rotation_is_followed(
    a0: Outbox,
    b0: Outbox,
    a: RawKey,
    b: RawKey,
    rk_priv: RawKey,
    rk_pub: RawKey,
    salt: [u8; 12],
    key: RawKey,
    now: u64,
    frame: Sealed,
    a1: Outbox,
    direct: bool,
    then: u64,
    got: Incoming,
    b1: Outbox,
    done: bool,
    b2: Outbox,
)
    requires
        a0.wf() && b0.wf(),
        a0.peers@.dom().contains(b) && b0.peers@.dom().contains(a),
        a0.peers@[b].peer_key is Some && b0.peers@[a].peer_key is Some,
        b0.peers@[a].rk_priv is Some,
        a0.peers@[b].epoch == b0.peers@[a].epoch,
        a0.peers@[b].epoch < u32::MAX,
        a0.peers@[b].peer_salt is Some && a0.peers@[b].peer_salt == b0.peers@[a].my_salt,
        rekey_begun(a0, b, rk_priv, rk_pub, salt, key, now, Some(frame), a1),
        packet_opened(b0, a, frame@.plain, direct, then, got, b1),
        got is Rekey ==> rekey_completed(
            b1,
            a,
            got->Rekey_peer_rk,
            got->Rekey_peer_salt,
            key,
            then,
            done,
            b2,
        ),
    ensures
        frame@.key == a0.peers@[b].peer_key->0,
        got is Rekey,
        got->Rekey_peer_rk == rk_pub,
        got->Rekey_peer_salt == salt,
        Some(got->rk_priv) == b0.peers@[a].rk_priv,
        forall|i: int|
            0 <= i < 12 ==> #[trigger] got->Rekey_salt@[i] == salt@[i]
                ^ a0.peers@[b].peer_salt->0@[i],
        done,
        a1.peers@[b].peer_key == Some(key) && b2.peers@[a].peer_key == Some(key),
        a1.peers@[b].epoch == a0.peers@[b].epoch + 1 == b2.peers@[a].epoch,
        a1.peers@[b].rk_pub == Some(rk_pub) && b2.peers@[a].peer_rk_pub == Some(rk_pub),
        a1.peers@[b].my_salt == Some(salt) && b2.peers@[a].peer_salt == Some(salt),
        a1.peers@[b].send_unacked == a0.peers@[b].send_unacked && a1.peers@[b].send_seq
            == a0.peers@[b].send_seq && a1.peers@[b].recv_seq == a0.peers@[b].recv_seq,
        b2.peers@[a].recv_seq == b0.peers@[a].recv_seq && b2.peers@[a].send_seq
            == b0.peers@[a].send_seq && b2.peers@[a].send_unacked == b0.peers@[a].send_unacked
            && b2.peers@[a].recv_buf == b0.peers@[a].recv_buf,
{
    let p = rk_pub@ + salt@;
    let epoch = a0.peers@[b].epoch;
    lemma_opened(b0, a, tunnel_frame(3, epoch, 0, p), direct, then, got, b1, 3, epoch, 0, p);
    let q = got->Rekey_peer_rk@ + got->Rekey_peer_salt@ + p.skip(44);
    assert(p == q);
    assert(p.subrange(0, 32) =~= rk_pub@);
    assert(p.subrange(32, 44) =~= salt@);
    assert(q.subrange(0, 32) =~= got->Rekey_peer_rk@);
    assert(q.subrange(32, 44) =~= got->Rekey_peer_salt@);
    assert(got->Rekey_peer_rk =~= rk_pub);
    assert(got->Rekey_peer_salt =~= salt);
    assert forall|i: int| 0 <= i < 12 implies #[trigger] got->Rekey_salt@[i] == salt@[i]
        ^ a0.peers@[b].peer_salt->0@[i] by {
        let x = salt@[i];
        let y = a0.peers@[b].peer_salt->0@[i];
        assert(x ^ y == y ^ x) by (bit_vector);
    }
}

/// Whether the way of a packet was chosen as it should be.
pub open spec fn goes_the_way_that_works(
    before: Outbox,
    pk: RawKey,
    now: u64,
    r: Route,
    after: Outbox,
) -> bool {
    &&& ({
        let s = before.peers@[pk];
        let works = {
            &&& before.hole_punch.enabled
            &&& s.transport is Direct
            &&& s.endpoint is Some
            &&& s.last_direct is Some && now < s.last_direct->0 + 5000
        };
        &&& works ==> r == Route::Direct(s.endpoint->0) && after.peers@[pk] == s
        &&& !works ==> r == Route::Relay
        &&& !works && before.hole_punch.enabled && s.transport is Direct && s.endpoint is Some
            ==> after.peers@[pk].transport is Relay
        &&& after.peers@[pk].send_seq == s.send_seq && after.peers@[pk].endpoint == s.endpoint
    })
}

/// A packet goes directly only where hole punching is on and has succeeded and the peer was
/// heard that way less than five seconds ago, and then to the place where it was heard;
/// else it goes through the relay. A direct path that has been silent for longer is given
/// up.
pub proof fn packets_go_the_way_that_works(
    before: Outbox,
    pk: RawKey,
    now: u64,
    r: Route,
    after: Outbox,
)
    requires
        before.peers@.dom().contains(pk),
        packet_routed(before, pk, now, r, after),
    ensures
        goes_the_way_that_works(before, pk, now, r, after),
{
}

/// A packet that comes directly makes that way be used, to where it came from, if hole
/// punching is on; and a peer that sends data through the relay has lost the direct path.
pub proof fn the_way_of_arrival_counts(
    s: PeerSession,
    src: Endpoint,
    punch: bool,
    now: u64,
    near: PeerSession,
    typ: u8,
    far: PeerSession,
)
    requires
        crate::client::peer::heard_directly(s, src, punch, now, near),
        crate::client::peer::heard_by_relay(s, typ, now, far),
    ensures
        punch ==> near.transport is Direct && near.endpoint == Some(src) && near.last_direct == Some(
            now,
        ) && near.last_seen == now,
        !punch ==> near.transport == s.transport,
        typ == 2 ==> !(far.transport is Direct),
        s.transport is Direct && s.last_direct is Some && now < s.last_direct->0 + 5000 && typ != 2
            ==> far.transport is Direct,
        !(s.transport is Direct) ==> far.transport == s.transport,
{
}

/// Whether what is due with a packet was found out as it should be.
pub open spec fn is_planned_right(
    before: Outbox,
    pk: RawKey,
    now: u64,
    r: Option<SendPlan>,
    after: Outbox,
) -> bool {
    &&& (r is Some)
    &&& ({
        let s = before.peers@[pk];
        let ask = {
            &&& s.last_seen + 1000 < now
            &&& s.last_requery is None || s.last_requery->0 + 1000 <= now
            &&& s.ip@.len() > 0
        };
        &&& ask ==> r->0.requery is Some && r->0.requery->0@ == s.ip@
            && after.peers@[pk].last_requery == Some(now)
        &&& !ask ==> r->0.requery is None && after.peers@[pk].last_requery == s.last_requery
        &&& after.peers@[pk].sent_pkts == s.sent_pkts + 1
        &&& before.rekey_every_pkts == 0 ==> !r->0.rekey_due
        &&& before.rekey_every_pkts > 0 ==> r->0.rekey_due == (exists|n: int|
            after.peers@[pk].sent_pkts == #[trigger] (n * before.rekey_every_pkts))
    })
}

/// A peer that has been silent for more than a second is looked up again when a packet is
/// sent to it, but not twice within a second; and with a limit on the packets under one key
/// the key is due for rotation just when their number is a multiple of it.
pub proof fn silent_peers_are_looked_up_again(
    before: Outbox,
    pk: RawKey,
    now: u64,
    r: Option<SendPlan>,
    after: Outbox,
)
    requires
        before.peers@.dom().contains(pk),
        before.peers@[pk].sent_pkts < u64::MAX,
        sending_planned(before, pk, now, r, after),
    ensures
        is_planned_right(before, pk, now, r, after),
{
    let m = before.rekey_every_pkts as int;
    let x = before.peers@[pk].sent_pkts + 1;
    if m > 0 {
        vstd::arithmetic::div_mod::lemma_fundamental_div_mod(x, m);
        if x % m == 0 {
            assert(x == (x / m) * m) by (nonlinear_arith)
                requires
                    x == m * (x / m) + x % m,
                    x % m == 0,
            ;
        }
        if exists|n: int| x == #[trigger] (n * m) {
            let n = choose|n: int| x == #[trigger] (n * m);
            vstd::arithmetic::div_mod::lemma_mod_multiples_basic(n, m);
        }
    }
}

/// With an interval in seconds for the rotation of keys, it is due just when that long has
/// passed since the last one; without one it never is by time.
pub proof fn rotation_is_due_by_time(o: Outbox, pk: RawKey, now: u64)
    requires
        o.peers@.dom().contains(pk),
        o.peers@[pk].peer_key is Some,
        o.peers@[pk].last_rekey <= now,
    ensures
        o.rekey_every_secs == 0 ==> !o.rekey_is_due(pk, now),
        o.rekey_every_secs > 0 ==> (o.rekey_is_due(pk, now) <==> o.peers@[pk].last_rekey
            + o.rekey_every_secs * 1000 <= now),
{
}

/// Hole punching: with attempts, errors and time left, and a place to try, the next HELLO
/// goes there; when any of the three has run out, the peer is reached by relay; and once a
/// way was found nothing more is done. With hole punching off the relay is used at once.
pub proof fn hole_punching_ends(
    o0: Outbox,
    pk: RawKey,
    start: PunchStart,
    o1: Outbox,
    since_ms: u64,
    step: PunchStep,
    o2: Outbox,
    refused: bool,
    o3: Outbox,
)
    requires
        o0.peers@.dom().contains(pk),
        punch_started(o0, pk, start, o1),
        punch_stepped(o0, pk, since_ms, step, o2),
        punch_noted(o2, pk, refused, o3),
        o0.peers@[pk].attempts < u32::MAX && o0.peers@[pk].error_count < u32::MAX,
    ensures
        ({
            let s = o0.peers@[pk];
            let left = s.attempts < o0.hole_punch.max_retries && s.error_count
                < o0.hole_punch.max_errors && since_ms < o0.hole_punch.timeout_ms;
            &&& o0.hole_punch.enabled ==> start is Begin && o1.peers@[pk] == s
            &&& !o0.hole_punch.enabled ==> start is RelayOnly && o1.peers@[pk].transport is Relay
            &&& !(s.transport is Punching) ==> step is Done && o2.peers@[pk] == s
            &&& s.transport is Punching && !left ==> step is GaveUp
                && o2.peers@[pk].transport is Relay
            &&& s.transport is Punching && left ==> step is Probe && o2.peers@[pk] == s
            &&& s.transport is Punching && left && s.endpoint is Some && s.rk_pub is Some
                && s.my_salt is Some ==> {
                &&& step->Probe_0 is Some
                &&& (step->Probe_0->0).0 == s.endpoint->0
                &&& (step->Probe_0->0).1@.key == s.active_key()
                &&& (step->Probe_0->0).1@.plain[0] == 1
            }
            &&& o3.peers@[pk].attempts == o2.peers@[pk].attempts + 1
            &&& o3.peers@[pk].error_count == o2.peers@[pk].error_count + (if refused {
                1int
            } else {
                0int
            })
        }),
{
}

/// Whether an address is an ordinary one for a device: neither multicast, loopback,
/// broadcast nor link-local.
pub open spec fn is_ordinary(a: [u8; 4]) -> bool {
    &&& a@[0] < 224 && a@[0] != 127
    &&& !(a@[0] == 169 && a@[1] == 254)
}

/// Whether a packet for an IPv4 address goes where it should.
pub open spec fn finds_its_peer(
    o: Outbox,
    a: [u8; 4],
    text: Seq<char>,
    netmask: Seq<char>,
    r: Forward,
) -> bool {
    &&& ({
                let own = text == o.local_ip@;
        let broadcast = crate::net::is_ipv4(o.local_ip@) && crate::net::is_ipv4(netmask)
            && forall|i: int|
            0 <= i < 4 ==> #[trigger] a@[i] == crate::net::ipv4_octets(o.local_ip@)[i]
                | !crate::net::ipv4_octets(netmask)[i];
        &&& is_ordinary(a) && !own && !broadcast ==> (if o.ip_index@.dom().contains(text)
            && o.peers@.dom().contains(o.ip_index@[text]) {
            r == Forward::Send(o.ip_index@[text])
        } else {
            r == Forward::Query
        })
        &&& own || broadcast ==> r == Forward::Drop
        &&& 224 <= a@[0] < 240 || a@[0] == 127 || (a@[0] == 169 && a@[1] == 254) ==> r
            == Forward::Drop
    })
}

/// A packet for an ordinary address goes to the peer that has that address, or is held for
/// a query where none is known; what is for this device itself, or for the whole subnet, is
/// dropped, and so is what is for many.
pub proof fn packets_find_their_peer(
    o: Outbox,
    a: [u8; 4],
    text: Seq<char>,
    netmask: Seq<char>,
)
    ensures
        finds_its_peer(o, a, text, netmask, forwarding(o, IpAddress::V4(a), text, netmask)),
{
    let bc = crate::client::paths::subnet_broadcast(
        crate::net::ipv4_octets(o.local_ip@),
        crate::net::ipv4_octets(netmask),
    );
    if forall|i: int|
        0 <= i < 4 ==> #[trigger] a@[i] == crate::net::ipv4_octets(o.local_ip@)[i]
            | !crate::net::ipv4_octets(netmask)[i] {
        assert(a@ =~= bc);
    }
    if a@ == bc {
        assert forall|i: int| 0 <= i < 4 implies #[trigger] a@[i] == crate::net::ipv4_octets(
            o.local_ip@,
        )[i] | !crate::net::ipv4_octets(netmask)[i] by {
            assert(bc[i] == a@[i]);
        }
    }
}

/// Once the server has told of a peer, packets for its address go to it, it can be reached
/// where it is and by its relay key, and what comes from there is known to be its own.
pub proof fn a_found_peer_is_reached(
    before: Outbox,
    info: PeerInfo,
    facts: PeerFacts,
    fresh: FreshKeys,
    now: u64,
    r: Option<(RawKey, String)>,
    after: Outbox,
    a: [u8; 4],
    netmask: Seq<char>,
)
    requires
        before.wf(),
        query_completed(before, info, facts, fresh, now, r, after),
        facts.public_key is Some,
        info.ip is Some && info.ip->0@.len() > 0,
        forwarding(before, IpAddress::V4(a), info.ip->0@, netmask) != Forward::Drop,
    ensures
        ({
            let pk = facts.public_key->0;
            &&& r is Some && (r->0).0 == pk && (r->0).1@ == info.ip->0@
            &&& forwarding(after, IpAddress::V4(a), info.ip->0@, netmask) == Forward::Send(pk)
            &&& after.peers@.dom().contains(pk)
            &&& !before.peers@.dom().contains(pk) ==> after.peers@[pk].ip@ == info.ip->0@
                && after.peers@[pk].endpoint == facts.endpoint && after.peers@[pk].peer_key is None
                && after.peers@[pk].transport is Punching
            &&& facts.relay_rk is Some ==> after.peers@[pk].peer_relay_rk == facts.relay_rk
                && after.rk_index@.dom().contains(facts.relay_rk->0)
                && after.rk_index@[facts.relay_rk->0] == pk
            &&& facts.endpoint is Some ==> after.addr_index@.dom().contains(facts.endpoint->0)
                && after.addr_index@[facts.endpoint->0] == pk
        }),
{
}

/// A name that the server told is known for a minute, however it is spelled, and is asked
/// for again after that; the client's own names are known at all times, and first.
pub proof fn learned_names_are_known_for_a_minute(
    o0: Outbox,
    name: Seq<char>,
    ip: Seq<char>,
    now: u64,
    learned: Option<String>,
    o1: Outbox,
    spelled: Seq<char>,
    then: u64,
    r: Resolution,
    o2: Outbox,
)
    requires
        canonical(name).len() > 0,
        canonical(spelled) == canonical(name),
        alias_learned(o0, name, ip, true, now, learned, o1),
        name_looked_up(o1, spelled, then, r, o2),
        now <= then,
    ensures
        ({
            let c = canonical(name);
            if o0.local_aliases@.dom().contains(c) {
                &&& r is Known && r->Known_0@ == o0.local_aliases@[c]
                &&& learned is None
            } else if then < now + 60_000 {
                &&& r is Known && r->Known_0@ == ip
                &&& learned is Some && learned->0@ == c
            } else {
                r is Ask && r->Ask_0@ == c && !o2.learned_aliases@.dom().contains(c)
            }
        }),
{
}

/// Sessions are dropped just when their handshake does not come within twice the time for
/// hole punching, or nothing was heard for a quarter of an hour once they were established.
pub proof fn dead_sessions_are_dropped(
    before: Outbox,
    now: u64,
    r: Vec<RawKey>,
    after: Outbox,
    pk: RawKey,
)
    requires
        peers_pruned(before, now, r, after),
        before.peers@.dom().contains(pk),
    ensures
        ({
            let s = before.peers@[pk];
            let dead = if s.peer_key is None {
                s.last_seen + 2 * before.hole_punch.timeout_ms < now
            } else {
                s.last_seen + 15 * 60 * 1000 < now
            };
            &&& dead <==> r@.contains(pk)
            &&& dead <==> !after.peers@.dom().contains(pk)
            &&& !dead ==> after.peers@[pk] == s
        }),
{
    assert(r@.to_set().contains(pk) == r@.contains(pk));
}

/// Whether a server was judged as it should be.
pub open spec fn trusts_the_known(
    before: Conn,
    received: RawKey,
    stored: Result<RawKey, String>,
    now: u64,
    r: Result<(), String>,
    after: Conn,
) -> bool {
    &&& (r is Ok <==> {
        let s = before.server;
        &&& s.public_key is Some
        &&& stored is Ok && stored->Ok_0 == received
        &&& s.mesh_root_pub is Some
        &&& s.device_cert is Some
        &&& s.device_cert->0.valid_from <= now <= s.device_cert->0.not_after
    })
    &&& (r is Ok ==> after.server_pub == received)
    &&& (r is Err ==> after.server_pub == before.server_pub)
}

/// The server is trusted just when it shows the key that was saved, the client has joined
/// its mesh, and the certificate is within its time.
pub proof fn the_known_server_is_trusted(
    before: Conn,
    received: RawKey,
    stored: Result<RawKey, String>,
    now: u64,
    r: Result<(), String>,
    after: Conn,
)
    requires
        server_checked(before, received, stored, now, r, after),
    ensures
        trusts_the_known(before, received, stored, now, r, after),
{
}

/// A device that has just joined is trusted with its certificate, and trusts the server,
/// for a year of 365 days, in seconds.
pub proof fn a_certificate_lasts_a_year(
    before: crate::server::mesh::MeshConfig,
    rooms: Seq<crate::server::config::RoomEntry>,
    jb: crate::protocol::JoinBody,
    expected_id: Result<String, String>,
    i: int,
    joined: u64,
    granted: Result<crate::server::join::JoinGrant, String>,
    mesh: crate::server::mesh::MeshConfig,
    server: ServerEntry,
    nic: VmNicConfig,
    key: RawKey,
    now: u64,
)
    requires
        joined + 365 * 24 * 3600 <= u64::MAX,
        crate::server::laws::may_join(before, rooms, jb, expected_id, i, joined),
        crate::server::join::join_answer(before, rooms, jb, expected_id, joined, granted, mesh),
        granted is Ok ==> server.device_cert == Some(granted->Ok_0.cert),
        server.public_key is Some && server.mesh_root_pub is Some,
        joined <= now <= joined + 365 * 24 * 3600,
    ensures
        granted is Ok,
        trust_error(server, nic, key, Ok(key), now) is None,
{
    crate::server::laws::a_device_with_an_invitation_joins(
        before,
        rooms,
        jb,
        expected_id,
        i,
        joined,
        granted,
        mesh,
    );
    assert(granted->Ok_0.cert.covers(now));
}

/// Whether the answer to a request for a session was judged as it should be.
pub open spec fn takes_up_session(
    before: Conn,
    resp: AuthRespBody,
    ip_valid: bool,
    root_check: Result<(), String>,
    ek_c: RawKey,
    sk: RawKey,
    r: Result<(), String>,
    after: Conn,
) -> bool {
    &&& (r is Ok <==> {
        let s = before.server;
        &&& resp.allocated_ip@.len() > 0 && ip_valid
        &&& root_check is Ok
        &&& resp.server_info.mesh_root_pub@ == s.mesh_root_pub->0@
        &&& s.crl_version is None || s.crl_version->0 <= resp.server_info.crl_version
        &&& forall|k: int|
            0 <= k < resp.crl.entries@.len() ==> (#[trigger] resp.crl.entries@[k]).device_id@
                != s.device_cert->0.device_id@
    })
    &&& (r is Ok ==> {
        &&& after.outbox.session_sk == Some(sk) && after.outbox.session_pub == Some(ek_c)
        &&& after.outbox.session_seq == 0
        &&& after.outbox.local_ip@ == resp.allocated_ip@ && after.vmnic.ip@
            == resp.allocated_ip@
        &&& after.server.crl_version == Some(resp.server_info.crl_version)
    })
}

/// The answer to a request for a session is accepted just when it gives a good address,
/// comes from the mesh that the client has joined, does not take back revocations, and does
/// not revoke this device. Then the session is in use, from its first number on, with that
/// address.
pub proof fn a_session_is_taken_up(
    before: Conn,
    resp: AuthRespBody,
    ip_valid: bool,
    root_check: Result<(), String>,
    ek_c: RawKey,
    sk: RawKey,
    r: Result<(), String>,
    after: Conn,
)
    requires
        auth_accepted(before, resp, ip_valid, root_check, ek_c, sk, r, after),
        before.server.mesh_root_pub is Some,
        before.server.device_cert is Some,
    ensures
        takes_up_session(before, resp, ip_valid, root_check, ek_c, sk, r, after),
{
}

/// Messages within a session are numbered one after the other, from one on, under the
/// session's key and in its name; before there is one, they go under the long-term keys.
pub proof fn messages_are_numbered(before: Outbox, r: SignalingSeal, after: Outbox)
    requires
        before.session_seq < u64::MAX,
        signaling_sealed(before, r, after),
    ensures
        before.session_sk is Some && before.session_pub is Some ==> {
            &&& r.seq == Some((before.session_seq + 1) as u64)
            &&& after.session_seq == before.session_seq + 1
            &&& Some(r.key) == before.session_sk && Some(r.sender) == before.session_pub
        },
        before.session_sk is None ==> r.seq is None && r.key == before.server_shared && r.sender
            == before.local_pub && after == before,
{
}

/// The server counts as lost after three heartbeats in a row that failed, and as found
/// again with the first one that succeeds.
pub proof fn three_lost_heartbeats_are_too_many(
    c0: Conn,
    c1: Conn,
    c2: Conn,
    c3: Conn,
    c4: Conn,
)
    requires
        c0.failed_heartbeats == 0,
        heartbeat_noted(c0, false, c1),
        heartbeat_noted(c1, false, c2),
        heartbeat_noted(c2, false, c3),
        heartbeat_noted(c3, true, c4),
    ensures
        c1.state.status == c0.state.status && c2.state.status == c0.state.status,
        c3.state.status@ == "服务器失联"@,
        c4.state.status@ == "已连接"@ && c4.failed_heartbeats == 0,
{
}

/// A packet from a peer that is not known opens a session with it; one that came through
/// the relay is answered with a HELLO that the peer can read, so that a peer that has lost
/// its sessions can start over. A known peer keeps its session.
pub proof fn a_stranger_is_greeted(
    before: Outbox,
    pk: RawKey,
    direct: bool,
    src: Endpoint,
    fresh: FreshKeys,
    now: u64,
    r: Option<Sealed>,
    after: Outbox,
)
    requires
        arrived(before, pk, direct, src, fresh, now, r, after),
    ensures
        after.peers@.dom().contains(pk),
        r is Some <==> !before.peers@.dom().contains(pk) && !direct,
        r is Some ==> {
            let h = r->0@;
            &&& h.key == fresh.handshake_key
            &&& h.plain[0] == 1
            &&& h.plain.subrange(13, 45) == fresh.rk_pub@
            &&& h.plain.subrange(45, 57) == fresh.salt@
            &&& h.plain.skip(57) == encode_utf8(before.local_ip@)
        },
        !before.peers@.dom().contains(pk) ==> after.peers@[pk].peer_key is None
            && after.peers@[pk].handshake_key == fresh.handshake_key && after.peers@[pk].rk_pub
            == Some(fresh.rk_pub) && after.peers@[pk].my_salt == Some(fresh.salt)
            && after.peers@[pk].send_seq == 0 && after.peers@[pk].recv_seq == 0,
        before.peers@.dom().contains(pk) ==> after.peers@[pk].peer_key
            == before.peers@[pk].peer_key && after.peers@[pk].send_unacked
            == before.peers@[pk].send_unacked && after.peers@[pk].recv_seq
            == before.peers@[pk].recv_seq,
        direct ==> after.addr_index@.dom().contains(src) && after.addr_index@[src] == pk
            && after.peers@[pk].endpoint == Some(src) && after.peers@[pk].last_seen == now,
{
    if r is Some {
        let p = fresh.rk_pub@ + fresh.salt@ + encode_utf8(before.local_ip@);
        frames_are_read_back(1, 0, 0, p);
        let h = tunnel_frame(1, 0, 0, p);
        assert(r->0@.plain == h);
        assert(h.subrange(13, 45) =~= h.skip(13).subrange(0, 32));
        assert(h.subrange(45, 57) =~= h.skip(13).subrange(32, 44));
        assert(h.skip(57) =~= h.skip(13).skip(44));
        assert(p.subrange(0, 32) =~= fresh.rk_pub@);
        assert(p.subrange(32, 44) =~= fresh.salt@);
        assert(p.skip(44) =~= encode_utf8(before.local_ip@));
    }
}

/// A HELLO of a peer is read back: the routing key and the salt that it was built from, the
/// address, and the salt that both sides derive their key from.
pub proof fn a_greeting_is_understood(
    before: Outbox,
    pk: RawKey,
    epoch: u32,
    rk: RawKey,
    salt: [u8; 12],
    ip: Seq<char>,
    direct: bool,
    now: u64,
    r: Incoming,
    after: Outbox,
)
    requires
        before.peers@.dom().contains(pk),
        before.peers@[pk].my_salt is Some,
        packet_opened(
            before,
            pk,
            tunnel_frame(1, epoch, 0, rk@ + salt@ + encode_utf8(ip)),
            direct,
            now,
            r,
            after,
        ),
    ensures
        r is Hello,
        r->Hello_peer_rk == rk,
        r->Hello_peer_salt == salt,
        r->ip@ == ip,
        forall|i: int|
            0 <= i < 12 ==> #[trigger] r->Hello_salt@[i] == before.peers@[pk].my_salt->0@[i]
                ^ salt@[i],
{
    let p = rk@ + salt@ + encode_utf8(ip);
    lemma_opened(before, pk, tunnel_frame(1, epoch, 0, p), direct, now, r, after, 1, epoch, 0, p);
    let q = r->Hello_peer_rk@ + r->Hello_peer_salt@ + p.skip(44);
    assert(p == q);
    assert(p.subrange(0, 32) =~= rk@);
    assert(p.subrange(32, 44) =~= salt@);
    assert(q.subrange(0, 32) =~= r->Hello_peer_rk@);
    assert(q.subrange(32, 44) =~= r->Hello_peer_salt@);
    assert(p.skip(44) =~= encode_utf8(ip));
    assert(r->Hello_peer_rk =~= rk);
    assert(r->Hello_peer_salt =~= salt);
    encode_utf8_valid_utf8(ip);
    encode_utf8_decode_utf8(ip);
}

/// A relayed packet names peer and sender by their relay keys while the peer's is known and
/// the peer was heard of late, else by their public keys; and what names a relay key is
/// known to come from the peer that has it.
pub proof fn relayed_packets_are_addressed(o: Outbox, pk: RawKey, now: u64)
    ensures
        ({
            let h = o.relay_header_of(pk, now);
            let s = o.peers@[pk];
            let by_rk = o.peers@.dom().contains(pk) && s.peer_relay_rk is Some && now
                <= s.last_seen + o.relay_recover_stale_ms;
            &&& h.by_rk == by_rk
            &&& by_rk ==> Some(h.dest) == s.peer_relay_rk && h.src == o.relay_rk
            &&& !by_rk ==> h.dest == pk && h.src == o.local_pub
        }),
{
}

/// A notice of a peer that looks for this client makes it known: it has a session, is
/// tried where it is, and is known by its relay key.
pub proof fn a_notice_makes_a_peer_known(
    before: Outbox,
    info: PeerInfo,
    facts: PeerFacts,
    fresh: FreshKeys,
    now: u64,
    r: Option<RawKey>,
    after: Outbox,
)
    requires
        facts.public_key is Some,
        notice_taken(before, info, facts, fresh, now, r, after),
    ensures
        ({
            let pk = facts.public_key->0;
            &&& r == Some(pk)
            &&& after.peers@.dom().contains(pk)
            &&& facts.endpoint is Some ==> after.peers@[pk].endpoint is Some
                && after.addr_index@.dom().contains(facts.endpoint->0)
                && after.addr_index@[facts.endpoint->0] == pk
            &&& facts.endpoint is Some && !before.peers@.dom().contains(pk)
                ==> after.peers@[pk].endpoint == facts.endpoint
            &&& facts.relay_rk is Some ==> after.peers@[pk].peer_relay_rk == facts.relay_rk
                && after.rk_index@.dom().contains(facts.relay_rk->0)
                && after.rk_index@[facts.relay_rk->0] == pk
            &&& before.peers@.dom().contains(pk) ==> after.peers@[pk].peer_key
                == before.peers@[pk].peer_key && after.peers@[pk].send_seq
                == before.peers@[pk].send_seq
            &&& after.ip_index == before.ip_index
        }),
{
}

/// A connection is set up with the server, the interface and the identity of the
/// configuration; its heartbeats are at least five seconds apart, a peer that was silent for
/// two of them is addressed by its public key again, and the relay is the server itself
/// unless another one is configured and can be read.
pub proof fn a_connection_is_set_up(
    c: Conn,
    cfg: crate::client::config::ClientConfig,
    conn: crate::client::config::ConnectionEntry,
    server: ServerEntry,
    nic: VmNicConfig,
    server_addr: Endpoint,
    relay_addr: Option<Endpoint>,
    relay_rk: RawKey,
)
    requires
        crate::client::connection::is_new_conn(
            c,
            cfg,
            conn,
            server,
            nic,
            server_addr,
            relay_addr,
            relay_rk,
        ),
    ensures
        c.heartbeat_secs >= 5,
        cfg.heartbeat_sec >= 5 ==> c.heartbeat_secs == cfg.heartbeat_sec,
        c.outbox.relay_recover_stale_ms == 2 * c.heartbeat_secs * 1000,
        c.outbox.server_addr == server_addr,
        server.relay.enabled && server.relay.endpoint@.len() > 0 && relay_addr is Some
            ==> c.outbox.relay_addr == relay_addr->0,
        !server.relay.enabled || server.relay.endpoint@.len() == 0 || relay_addr is None
            ==> c.outbox.relay_addr == server_addr,
        c.outbox.local_pub == cfg.identity->0.ik_x.public,
        c.outbox.local_priv == cfg.identity->0.ik_x.private,
        c.outbox.local_ip@ == nic.ip@,
        c.outbox.hole_punch == cfg.hole_punch,
        c.outbox.rekey_every_pkts == cfg.rekey_every_pkts && c.outbox.rekey_every_secs
            == cfg.rekey_every_secs,
        c.outbox.session_sk is None && c.outbox.session_seq == 0,
        c.outbox.peers@.dom() == Set::<RawKey>::empty(),
        c.outbox.local_aliases@ == cfg.aliases@,
        c.server == server && c.vmnic == nic && c.failed_heartbeats == 0,
{
    assert(c.outbox.peers@.dom() =~= Set::<RawKey>::empty());
}

/// What came of joining is kept with the server that was joined and with the interface, and
/// with nothing else; with it the server is trusted while the certificate holds, in seconds.
pub proof fn what_came_of_joining_is_kept(
    before: Seq<ServerEntry>,
    after: Seq<ServerEntry>,
    name: Seq<char>,
    i: int,
    root: Seq<char>,
    server_key: Seq<char>,
    crl_version: u64,
    cert: DeviceCert,
    token: Option<String>,
    nic: VmNicConfig,
    key: RawKey,
    now: u64,
)
    requires
        crate::client::joining::mesh_joined(
            before,
            after,
            name,
            root,
            server_key,
            crl_version,
            cert,
            token,
        ),
        0 <= i < before.len(),
        before[i].name@ == name,
        forall|j: int| 0 <= j < i ==> (#[trigger] before[j]).name@ != name,
    ensures
        after.len() == before.len(),
        forall|j: int| 0 <= j < before.len() && j != i ==> (#[trigger] after[j]) == before[j],
        after[i].name == before[i].name && after[i].endpoint == before[i].endpoint,
        after[i].device_cert == Some(cert),
        after[i].mesh_root_pub is Some && after[i].mesh_root_pub->0@ == root,
        after[i].public_key is Some && after[i].public_key->0@ == server_key,
        after[i].crl_version == Some(crl_version),
        token is Some ==> after[i].token == token,
        token is None ==> after[i].token == before[i].token,
        cert.valid_from <= now <= cert.not_after ==> trust_error(after[i], nic, key, Ok(key), now)
            is None,
{
    assert(crate::client::config::server_at(before, name, i));
    assert forall|j: int| 0 <= j < before.len() && j != i implies (#[trigger] after[j])
        == before[j] by {
        if crate::client::config::server_at(before, name, j) {
            if j < i {
                assert(before[j].name@ != name);
            } else {
                assert(before[i].name@ != name);
            }
        }
    }
}

/// Of the two sides of an established session just one may rotate its routing key at a
/// time, so that the two never rotate at once and one always can.
pub proof fn one_side_rotates(
    x: Outbox,
    y: Outbox,
    a: RawKey,
    b: RawKey,
    salt: [u8; 12],
    rx: Option<crate::client::upkeep::RekeyRequest>,
    ry: Option<crate::client::upkeep::RekeyRequest>,
)
    requires
        x.local_pub == a && y.local_pub == b && a != b,
        x.peers@.dom().contains(b) && y.peers@.dom().contains(a),
        x.peers@[b].peer_key is Some && y.peers@[a].peer_key is Some,
        x.peers@[b].peer_rk_pub is Some && y.peers@[a].peer_rk_pub is Some,
        x.peers@[b].epoch < u32::MAX && y.peers@[a].epoch < u32::MAX,
        x.peers@[b].peer_salt is Some && y.peers@[a].peer_salt is Some,
        crate::client::upkeep::rekey_wanted(x, b, salt, rx),
        crate::client::upkeep::rekey_wanted(y, a, salt, ry),
    ensures
        rx is Some <==> ry is None,
        rx is Some ==> Some(rx->0.peer_rk) == x.peers@[b].peer_rk_pub && forall|i: int|
            0 <= i < 12 ==> #[trigger] rx->0.salt@[i] == salt@[i] ^ x.peers@[b].peer_salt->0@[i],
{
    crate::client::peer::lemma_key_above_total(a, b);
    if key_above(a, b) && key_above(b, a) {
        crate::client::peer::lemma_key_above_transitive(a, b, a);
    }
}

/// As long as fewer than 256 names are known, learning one more forgets none, and the
/// others keep their addresses.
pub proof fn learning_forgets_nothing_in_time(
    before: Outbox,
    name: Seq<char>,
    ip: Seq<char>,
    now: u64,
    r: Option<String>,
    after: Outbox,
    other: Seq<char>,
)
    requires
        before.wf() && after.wf(),
        canonical(name).len() > 0,
        alias_learned(before, name, ip, true, now, r, after),
        before.learned_aliases.ids().len() < 256,
        before.learned_aliases@.dom().contains(other),
        other != canonical(name),
    ensures
        after.learned_aliases@.dom().contains(other),
        after.learned_aliases@[other] == before.learned_aliases@[other],
        after.learned_aliases.ids().len() <= 256,
{
    before.learned_aliases.lemma_dom();
    after.learned_aliases.lemma_dom();
    let c = canonical(name);
    let ids = before.learned_aliases.ids();
    assert(ids.contains(other));
    let k = choose|k: int| 0 <= k < ids.len() && ids[k] == other;
    let w = crate::table::without(ids, c);
    assert(w.contains(other)) by {
        if ids.contains(c) {
            let at = ids.index_of(c);
            if k < at {
                assert(w[k] == other);
            } else {
                assert(w[k - 1] == other);
            }
        } else {
            assert(w[k] == other);
        }
    }
    let g = w.push(c);
    let m = choose|m: int| 0 <= m < w.len() && w[m] == other;
    assert(g[m] == other);
    assert(after.learned_aliases.ids() == g);
    assert(after.learned_aliases.ids().contains(other));
}

/// Every peer that has a routing key and a salt is kept alive, with a HELLO of its own
/// session.
pub proof fn every_peer_is_kept_alive(o: Outbox, keys: Seq<RawKey>, pk: RawKey)
    requires
        keys.contains(pk),
        o.peers@[pk].rk_pub is Some && o.peers@[pk].my_salt is Some,
    ensures
        exists|k: int|
            {
                &&& 0 <= k < o.keepalives_of(keys).len()
                &&& #[trigger] greets(o.keepalives_of(keys)[k], pk, o.peers@[pk], o.local_ip@)
            },
    decreases keys.len(),
{
    let s = o.peers@[pk];
    let all = o.keepalives_of(keys);
    let front = keys.drop_last();
    let rest = o.keepalives_of(front);
    if keys.last() == pk {
        let p = s.rk_pub->0@ + s.my_salt->0@ + encode_utf8(o.local_ip@);
        frames_are_read_back(1, s.epoch, 0, p);
        assert(greets(all[all.len() - 1], pk, s, o.local_ip@));
    } else {
        let i = choose|i: int| 0 <= i < keys.len() && keys[i] == pk;
        assert(front[i] == pk);
        every_peer_is_kept_alive(o, front, pk);
        let k = choose|k: int| 0 <= k < rest.len() && #[trigger] greets(rest[k], pk, s, o.local_ip@);
        assert(all[k] == rest[k]);
    }
}

/// Whether a HELLO is for a peer and tells of the session with it.
pub open spec fn greets(
    item: (RawKey, SealedView),
    pk: RawKey,
    s: PeerSession,
    local_ip: Seq<char>,
) -> bool {
    &&& item.0 == pk
    &&& item.1.key == s.active_key()
    &&& reads_as_frame(
        item.1.plain,
        1,
        s.epoch,
        0,
        s.rk_pub->0@ + s.my_salt->0@ + encode_utf8(local_ip),
    )
}

/// Client and server come to a session that both understand: the server reads from the
/// request the nonce that the client drew, opens the session under the client's ephemeral
/// key with the address of its certificate, and the client takes up that address; the first
/// message of the client is the one that the server expects, and the address that it
/// registers with is the one that the session has.
pub proof fn client_and_server_agree_on_a_session(
    c0: Conn,
    ek_c: RawKey,
    nonce: [u8; 12],
    now: u64,
    ab: crate::protocol::AuthBody,
    s0: crate::server::signaling::Signaling,
    sender: RawKey,
    src: IpAddress,
    step: crate::server::signaling::AuthStep,
    s1: crate::server::signaling::Signaling,
    room: String,
    sk: RawKey,
    ek_s: RawKey,
    resp: AuthRespBody,
    s2: crate::server::signaling::Signaling,
    r: Result<(), String>,
    c1: Conn,
    seal: SignalingSeal,
    o2: Outbox,
    expected: Option<(RawKey, u64)>,
    rb: crate::protocol::RegisterBody,
)
    requires
        c0.server.device_cert is Some,
        c0.server.device_cert->0.allowed_ip@.len() > 0,
        c0.server.mesh_root_pub is Some,
        asks_with(c0, ek_c, nonce, now, Ok(ab)),
        crate::server::signaling::auth_checked(s0, sender, ab, Ok(()), src, now, step, s1),
        step is Proceed,
        s0.wf() && s1.wf(),
        crate::server::signaling::session_opened(
            s1,
            sender,
            ab,
            room,
            ek_c,
            sk,
            ek_s,
            now,
            Ok(resp),
            s2,
        ),
        c0.server.mesh_root_pub->0@ == s0.mesh_root_pub@,
        c0.server.crl_version is None || c0.server.crl_version->0 <= s0.mesh.crl.version,
        auth_accepted(c0, resp, true, Ok(()), ek_c, sk, r, c1),
        signaling_sealed(c1.outbox, seal, o2),
        crate::server::signaling::request_expected(s2, ek_c, expected),
        registers_with(c1, rb),
    ensures
        ab.device_id == c0.server.device_cert->0.device_id && ab.cert == c0.server.device_cert->0,
        ab.token == c0.server.token && ab.timestamp == now,
        ab.ek_c@ == crate::outside::base64_chars(ek_c@),
        step->nonce@ == nonce@,
        r is Ok,
        c1.outbox.local_ip@ == c0.server.device_cert->0.allowed_ip@,
        expected == Some((sk, 1u64)),
        seal.key == sk && seal.sender == ek_c && seal.seq == Some(1u64),
        s2.sessions@.dom().contains(ek_c),
        rb.ip@ == s2.sessions@[ek_c].ip@,
        rb.token == c0.server.token,
        rb.relay_rk is Some && rb.relay_rk->0@ == crate::outside::base64_chars(
            c0.outbox.relay_rk@,
        ),
{
    crate::server::laws::an_opened_session_is_there(
        s1,
        sender,
        ab,
        room,
        ek_c,
        sk,
        ek_s,
        now,
        Ok(resp),
        s2,
        ek_c,
    );
    assert(!crate::cert::lists(s0.mesh.crl.entries@, ab.device_id@));
    assert(resp.crl.entries@ == s0.mesh.crl.entries@);
}

/// Whether a data frame of the session's epoch was opened as it should be: the next packet
/// is handed on at once and first, one that was handed on before is not handed on again,
/// one that comes early waits, and each is answered with the number up to which everything
/// was handed on, under the session's key.
pub open spec fn is_opened_right(
    before: Outbox,
    pk: RawKey,
    epoch: u32,
    seq: u64,
    payload: Seq<u8>,
    r: Incoming,
    after: Outbox,
) -> bool {
    let s = before.peers@[pk];
    let t = after.peers@[pk];
    let handed = packets_view(r->packets@);
    let ack = r->ack->0@;
    &&& r is Data
    &&& seq <= s.recv_seq ==> handed.len() == 0 && t.recv_seq == s.recv_seq
    &&& seq == s.recv_seq + 1 ==> handed.len() > 0 && handed[0] == payload && t.recv_seq >= seq
        && handed.len() == t.recv_seq - s.recv_seq
    &&& seq > s.recv_seq + 1 ==> handed.len() == 0 && t.recv_seq == s.recv_seq && (
    s.recv_buf@.dom().len() < 512 ==> t.recv_buf@.dom().contains(seq) && t.recv_buf@[seq]@
        == payload)
    &&& r->ack is Some
    &&& ack.key == s.active_key()
    &&& ack.plain.len() == 21 && ack.plain[0] == 4
    &&& be_nat(ack.plain.skip(13)) == t.recv_seq
}

/// Every data frame of the session's epoch is opened as it should be.
pub proof fn data_is_opened_right(
    before: Outbox,
    pk: RawKey,
    plain: Seq<u8>,
    direct: bool,
    now: u64,
    r: Incoming,
    after: Outbox,
    seq: u64,
    payload: Seq<u8>,
)
    requires
        before.wf(),
        before.peers@.dom().contains(pk),
        before.peers@[pk].peer_key is Some,
        packet_opened(before, pk, plain, direct, now, r, after),
        reads_as_frame(plain, 2, before.peers@[pk].epoch, seq, payload),
    ensures
        is_opened_right(before, pk, before.peers@[pk].epoch, seq, payload, r, after),
{
    let s = before.peers@[pk];
    let t = after.peers@[pk];
    crate::client::tunnel::frames_are_built_back(plain, 2, s.epoch, seq, payload);
    lemma_opened(before, pk, plain, direct, now, r, after, 2, s.epoch, seq, payload);
    let buf = buffer_view(s.recv_buf@);
    assert(s.wf());
    assert(buf.dom() =~= s.recv_buf@.dom());
    crate::client::reliable::lemma_run_end(buf.dom(), seq);
    let high = crate::client::reliable::high_after(s.recv_seq, buf, seq);
    let p = crate::bytes::be_bytes(high as nat, 8);
    lemma_u64_round_trip(high);
    frames_are_read_back(4, s.epoch, 0, p);
    assert(r->ack->0@.plain == tunnel_frame(4, s.epoch, 0, p));
    if seq > s.recv_seq + 1 && s.recv_buf@.dom().len() < 512 {
        crate::client::reliable::the_lowest_early_packet_makes_room(s.recv_seq, buf, seq, payload);
        let b = buffer_view(t.recv_buf@);
        assert(b.dom().contains(seq));
        assert(b[seq] == payload);
        assert(t.recv_buf@.dom().contains(seq));
    }
}

/// Whether a packet for a peer was taken in as it should be: with room in the window it is
/// sent, under the next number, and waits for its acknowledgement; without it is refused and
/// nothing changes; and before the handshake it waits for that.
pub open spec fn is_admitted_right(
    before: Outbox,
    pk: RawKey,
    payload: Seq<u8>,
    now: u64,
    a: Admission,
    after: Outbox,
) -> bool {
    let s = before.peers@[pk];
    let t = after.peers@[pk];
    let w = window_view(t.send_unacked@);
    if s.peer_key is None {
        &&& a is Buffered
        &&& packets_view(t.pending@).len() > 0 && packets_view(t.pending@).last() == payload
        &&& t.send_seq == s.send_seq && t.send_unacked == s.send_unacked
    } else if s.send_unacked@.len() >= 512 {
        a is WindowFull && t == s
    } else {
        let next = (s.send_seq + 1) as u64;
        let frame = a->Send_0@;
        &&& a is Send
        &&& frame.key == s.peer_key->0
        &&& reads_as_frame(frame.plain, 2, s.epoch, next, payload)
        &&& frame.nonce is Some && reads_as_nonce(frame.nonce->0, s.epoch, next)
        &&& t.send_seq == next
        &&& w.len() == s.send_unacked@.len() + 1
        &&& w.last().seq == next && w.last().payload == payload && w.last().retries == 0
            && w.last().sent_at == now
        &&& w.drop_last() == window_view(s.send_unacked@)
    }
}

/// Every packet for a peer is taken in as it should be.
pub proof fn packets_are_admitted_right(
    before: Outbox,
    pk: RawKey,
    payload: Seq<u8>,
    now: u64,
    a: Admission,
    after: Outbox,
)
    requires
        before.peers@.dom().contains(pk),
        before.peers@[pk].send_seq < u64::MAX,
        packet_enqueued(before, pk, payload, now, Some(a), after),
    ensures
        is_admitted_right(before, pk, payload, now, a, after),
{
    let s = before.peers@[pk];
    let next = (s.send_seq + 1) as u64;
    frames_are_read_back(2, s.epoch, next, payload);
    nonces_are_read_back(s.epoch, next);
    let w = window_view(after.peers@[pk].send_unacked@);
    if s.peer_key is Some && s.send_unacked@.len() < 512 {
        assert(w.drop_last() =~= window_view(s.send_unacked@));
    }
}

/// An acknowledgement that came in takes just the packets up to its number out of the
/// window; all others go on waiting.
pub proof fn acknowledgements_are_opened_right(
    before: Outbox,
    pk: RawKey,
    plain: Seq<u8>,
    direct: bool,
    now: u64,
    r: Incoming,
    after: Outbox,
    ack: u64,
    u: UnackedView,
)
    requires
        before.peers@.dom().contains(pk),
        before.peers@[pk].peer_key is Some,
        packet_opened(before, pk, plain, direct, now, r, after),
        is_acknowledgement(plain, before.peers@[pk].epoch, ack),
    ensures
        frees_the_window(before, pk, ack, r, after, u),
{
    let s = before.peers@[pk];
    let p = plain.skip(13);
    crate::client::tunnel::frames_are_built_back(plain, 4, s.epoch, 0, p);
    lemma_opened(before, pk, plain, direct, now, r, after, 4, s.epoch, 0, p);
    assert(p.take(8) =~= p);
    let w = window_view(s.send_unacked@);
    let f = |u: UnackedView| u.seq > ack;
    lemma_filter_members(w, f);
    let kept = w.filter(f);
    assert(window_view(after.peers@[pk].send_unacked@) == kept);
    if kept.contains(u) {
        let k = choose|k: int| 0 <= k < kept.len() && kept[k] == u;
        assert(f(kept[k]));
        assert(w.contains(kept[k]));
    }
    if w.contains(u) && u.seq > ack {
        let i = choose|i: int| 0 <= i < w.len() && w[i] == u;
        assert(f(w[i]));
        assert(kept.contains(w[i]));
    }
}

/// Whether bytes read as an acknowledgement of everything up to a number.
pub open spec fn is_acknowledgement(plain: Seq<u8>, epoch: u32, ack: u64) -> bool {
    &&& plain.len() == 21
    &&& reads_as_frame(plain, 4, epoch, 0, plain.skip(13))
    &&& be_nat(plain.skip(13)) == ack
}

/// Whether an acknowledgement has taken a packet out of the window just where it covers it.
pub open spec fn frees_the_window(
    before: Outbox,
    pk: RawKey,
    ack: u64,
    r: Incoming,
    after: Outbox,
    u: UnackedView,
) -> bool {
    let s = before.peers@[pk];
    let t = after.peers@[pk];
    &&& r is Acked
    &&& (window_view(t.send_unacked@).contains(u) <==> window_view(s.send_unacked@).contains(u)
        && u.seq > ack)
    &&& t.send_seq == s.send_seq && t.epoch == s.epoch && t.recv_seq == s.recv_seq
}

/// Packets and announcements of another epoch than the session's change nothing of what
/// was sent and received, and no key.
pub proof fn other_epochs_are_refused(
    before: Outbox,
    pk: RawKey,
    typ: u8,
    epoch: u32,
    seq: u64,
    payload: Seq<u8>,
    direct: bool,
    now: u64,
    r: Incoming,
    after: Outbox,
)
    requires
        before.peers@.dom().contains(pk),
        typ == 2 || typ == 3,
        epoch != before.peers@[pk].epoch,
        packet_opened(before, pk, tunnel_frame(typ, epoch, seq, payload), direct, now, r, after),
    ensures
        r is Ignored,
        after.peers@[pk].recv_seq == before.peers@[pk].recv_seq,
        after.peers@[pk].recv_buf == before.peers@[pk].recv_buf,
        after.peers@[pk].peer_key == before.peers@[pk].peer_key,
        after.peers@[pk].epoch == before.peers@[pk].epoch,
        after.peers@[pk].send_unacked == before.peers@[pk].send_unacked,
{
    lemma_opened(
        before,
        pk,
        tunnel_frame(typ, epoch, seq, payload),
        direct,
        now,
        r,
        after,
        typ,
        epoch,
        seq,
        payload,
    );
}

/// When sessions are dropped, the addresses of their peers are forgotten with them, and
/// those of all others are kept.
pub proof fn addresses_go_with_their_sessions(
    before: Outbox,
    now: u64,
    r: Vec<RawKey>,
    after: Outbox,
    ip: Seq<char>,
)
    requires
        peers_pruned(before, now, r, after),
        before.ip_index@.dom().contains(ip),
        ip.len() > 0,
    ensures
        ({
            let pk = before.ip_index@[ip];
            &&& before.peers@.dom().contains(pk) && !r@.contains(pk)
                ==> after.ip_index@.dom().contains(ip) && after.ip_index@[ip] == pk
            &&& before.peers@.dom().contains(pk) && r@.contains(pk) && before.peers@[pk].ip@ == ip
                ==> !after.ip_index@.dom().contains(ip)
        }),
{
    assert(r@.to_set().contains(before.ip_index@[ip]) == r@.contains(before.ip_index@[ip]));
}

/// What comes from the relay is taken as relayed, what comes from the server as its answer
/// or notice, and what comes from where a peer is as that peer's own.
pub proof fn packets_are_taken_for_what_they_are(
    o: Outbox,
    src: Endpoint,
    kind: crate::protocol::MsgKind,
)
    ensures
        ({
            let r = crate::client::paths::udp_action(o, Some(kind), src);
            &&& src == o.relay_addr && kind is Relay ==> r is Relay
            &&& src == o.relay_addr && kind is RelayRk ==> r is RelayRk
            &&& src == o.relay_addr && kind is RelayBatch ==> r is RelayBatch
            &&& src == o.server_addr && kind is Response ==> r is Response
            &&& src == o.server_addr && kind is Notify ==> r is Notify
        }),
        o.addr_index@.dom().contains(src) ==> crate::client::paths::udp_action(o, None, src)
            == crate::client::paths::UdpAction::Direct(o.addr_index@[src]),
        !o.addr_index@.dom().contains(src) ==> crate::client::paths::udp_action(o, None, src)
            == crate::client::paths::UdpAction::Ignore,
{
}

/// Whether a name was looked for as it should be: the client's own first, then what was
/// learned less than a minute ago; else the server is to be asked.
pub open spec fn is_looked_up_right(
    before: Outbox,
    name: Seq<char>,
    now: u64,
    r: Resolution,
) -> bool {
    let c = canonical(name);
    let learned = before.learned_aliases@;
    if c.len() == 0 {
        r is Nothing
    } else if before.local_aliases@.dom().contains(c) {
        r is Known && r->Known_0@ == before.local_aliases@[c]
    } else if learned.dom().contains(c) && now < learned[c].at + 60_000 {
        r is Known && r->Known_0@ == learned[c].ip@
    } else {
        r is Ask && r->Ask_0@ == c
    }
}

/// Every name is looked for as it should be.
pub proof fn names_are_looked_up_right(
    before: Outbox,
    name: Seq<char>,
    now: u64,
    r: Resolution,
    after: Outbox,
)
    requires
        name_looked_up(before, name, now, r, after),
    ensures
        is_looked_up_right(before, name, now, r),
{
}

/// What the server tells of a device comes to the one that asked for it whole: its key, its
/// place, its relay key, its name and its address.
pub proof fn an_answer_tells_all(
    resp: crate::protocol::ResponseBody,
    r: Result<PeerInfo, String>,
)
    requires
        crate::client::discovery::result_of(resp, r),
    ensures
        resp.data is QueryHit ==> {
            &&& r is Ok
            &&& r->Ok_0.public_key@ == resp.data->QueryHit_public_key@
            &&& r->Ok_0.endpoint@ == resp.data->QueryHit_endpoint@
            &&& r->Ok_0.relay_rk == resp.data->QueryHit_relay_rk
            &&& r->Ok_0.ip is Some && r->Ok_0.ip->0@ == resp.data->QueryHit_ip@
            &&& resp.data->QueryHit_alias@.len() > 0 ==> r->Ok_0.alias is Some
                && r->Ok_0.alias->0@ == resp.data->QueryHit_alias@
        },
        !(resp.data is QueryHit) ==> r is Err,
        !(resp.data is QueryHit) && resp.error is Some ==> r->Err_0@ == resp.error->0@,
{
}

/// A device asks to join in its own name and under its own keys, with the code and the token
/// that were given.
pub proof fn a_device_asks_in_its_own_name(
    cfg: crate::client::config::ClientConfig,
    nic: Seq<char>,
    code: Seq<char>,
    token: Option<String>,
    r: Result<crate::protocol::JoinBody, String>,
)
    requires
        crate::client::joining::joins_with(cfg, nic, code, token, r),
        cfg.identity is Some,
    ensures
        r is Ok,
        r->Ok_0.code@ == code,
        r->Ok_0.device_id@ == cfg.identity->0.device_id@,
        r->Ok_0.ik_x@ == crate::outside::base64_chars(cfg.identity->0.ik_x.public@),
        r->Ok_0.ik_s_pub@ == cfg.identity->0.ik_s.public@,
        r->Ok_0.token == token,
        r->Ok_0.requested_ip is None,
{
}

/// A server whose mesh root was pinned is never taken for another: a root other than the
/// pinned one is refused, whatever was answered, and so is one that was not trusted. No
/// other is.
pub proof fn a_pinned_root_stays(
    server: Seq<char>,
    trusted: bool,
    pinned: Option<&str>,
    shown: Seq<char>,
    r: Result<(), String>,
)
    requires
        crate::client::joining::root_checked(server, trusted, pinned, shown, r),
    ensures
        r is Ok ==> trusted && (pinned is Some ==> shown == pinned->0@),
        trusted && pinned is None ==> r is Ok,
        trusted && pinned is Some && pinned->0@ == shown ==> r is Ok,
{
}

/// A device that was let in gets the address and the certificate that the server made out
/// for it, and one that was refused gets the reason.
pub proof fn what_was_granted_is_received(
    resp: crate::protocol::ResponseBody,
    r: Result<(String, crate::cert::DeviceCert), String>,
    address: String,
    given: crate::cert::DeviceCert,
)
    requires
        crate::client::joining::join_read(resp, r),
    ensures
        resp.ok && resp.data is Join && resp.data->Join_allocated_ip == address
            && resp.data->Join_cert == given ==> r == Ok::<
            (String, crate::cert::DeviceCert),
            String,
        >((address, given)),
        !resp.ok || !(resp.data is Join) ==> r is Err,
        !resp.ok && resp.error is Some ==> r->Err_0@ == resp.error->0@,
{
}

/// A connection that was lost is set up again after the time that was asked for, as often as
/// that fails, until it is stopped; one that was stopped is not, nor is any where connecting
/// again is switched off.
pub proof fn a_lost_connection_is_tried_again(
    stopped: bool,
    secs: u64,
    exit: crate::client::connection::ConnExit,
    first: Option<u64>,
    again: Option<u64>,
)
    requires
        crate::client::connection::waits_after(stopped, secs, exit, first),
        crate::client::connection::waits_to_rebuild(stopped, secs, false, again),
    ensures
        !stopped && secs > 0 ==> again == Some(secs),
        !stopped && secs > 0 && exit is Error ==> first == Some(secs),
        exit is Stopped ==> first is None,
        stopped || secs == 0 ==> first is None && again is None,
{
}

/// A client that waits to be let in listens to its server alone, and to nothing but an answer
/// or a refusal.
pub proof fn only_the_server_lets_in(
    from_server: bool,
    kind: Option<crate::protocol::MsgKind>,
    r: crate::client::connection::AuthWait,
)
    requires
        crate::client::connection::answer_awaited(from_server, kind, r),
    ensures
        r is Answer <==> from_server && kind is Some && kind->0 is AuthResp,
        r is Refusal <==> from_server && kind is Some && kind->0 is Response,
{
}

/// The interface that a device joined with gets the address that its certificate carries, and
/// no other interface is touched.
pub proof fn the_interface_gets_the_address(
    before: Seq<VmNicConfig>,
    after: Seq<VmNicConfig>,
    nic: Seq<char>,
    ip: Seq<char>,
    i: int,
)
    requires
        crate::client::joining::nic_addressed(before, after, nic, ip),
        0 <= i < before.len(),
        forall|j: int| 0 <= j < i ==> (#[trigger] before[j]).name@ != nic,
    ensures
        after.len() == before.len(),
        before[i].name@ == nic ==> after[i].ip@ == ip && forall|j: int|
            0 <= j < before.len() && j != i ==> (#[trigger] after[j]) == before[j],
        before[i].name@ != nic ==> after[i] == before[i],
        after[i].name == before[i].name && after[i].mtu == before[i].mtu && after[i].netmask
            == before[i].netmask,
{
    if before[i].name@ == nic {
        assert forall|j: int| 0 <= j < before.len() && j != i implies (#[trigger] after[j])
            == before[j] by {
            assert(!crate::client::config::nic_at(before, nic, j)) by {
                if j > i {
                    assert(before[i].name@ == nic);
                }
            }
        }
    }
}

/// A new interface stands behind those there were, under its own name and with the address
/// that was asked for; a name that is in use is refused, and then nothing changes.
pub proof fn a_new_interface_is_there(
    before: crate::client::config::ClientConfig,
    name: Seq<char>,
    ip: Option<&str>,
    ip_valid: bool,
    r: Result<String, String>,
    after: crate::client::config::ClientConfig,
)
    requires
        crate::client::commands::nic_created(before, name, ip, ip_valid, r, after),
    ensures
        (exists|i: int|
            0 <= i < before.vm_nics@.len() && (#[trigger] before.vm_nics@[i]).name@ == name)
            ==> r is Err,
        ip is Some && ip->0@.len() > 0 && !ip_valid ==> r is Err,
        ip is Some && ip_valid && (forall|i: int|
            0 <= i < before.vm_nics@.len() ==> (#[trigger] before.vm_nics@[i]).name@ != name)
            ==> r is Ok && after.vm_nics@.last().ip@ == ip->0@,
        r is Ok ==> after.vm_nics@.len() == before.vm_nics@.len() + 1 && after.vm_nics@.last().name@
            == name && after.vm_nics@.last().mtu == 1280 && forall|i: int|
            0 <= i < before.vm_nics@.len() ==> (#[trigger] after.vm_nics@[i])
                == before.vm_nics@[i],
        r is Err ==> after == before,
        after.servers == before.servers && after.identity == before.identity,
{
    if r is Ok {
        assert forall|i: int| 0 <= i < before.vm_nics@.len() implies (#[trigger] after.vm_nics@[i])
            == before.vm_nics@[i] by {
            assert(after.vm_nics@.drop_last()[i] == before.vm_nics@[i]);
        }
    }
}

/// Whether a client kept its session with the server, its own keys and address and its own
/// names, and the way it deals with its peers.
pub open spec fn keeps_its_own(before: Outbox, after: Outbox) -> bool {
    &&& after.session_sk == before.session_sk && after.session_pub == before.session_pub
    &&& after.session_seq == before.session_seq
    &&& after.server_addr == before.server_addr && after.relay_addr == before.relay_addr
    &&& after.server_shared == before.server_shared
    &&& after.local_pub == before.local_pub && after.local_priv == before.local_priv
    &&& after.local_ip == before.local_ip && after.relay_rk == before.relay_rk
    &&& after.local_aliases == before.local_aliases
    &&& after.hole_punch == before.hole_punch
    &&& after.rekey_every_pkts == before.rekey_every_pkts && after.rekey_every_secs
        == before.rekey_every_secs
    &&& after.inflight == before.inflight
}

/// Whether all peers but one are as they were.
pub open spec fn leaves_the_others(before: Outbox, pk: RawKey, after: Outbox) -> bool {
    forall|k: RawKey|
        k != pk ==> {
            &&& #[trigger] after.peers@.dom().contains(k) <==> before.peers@.dom().contains(k)
            &&& before.peers@.dom().contains(k) ==> after.peers@[k] == before.peers@[k]
        }
}

/// What comes from a peer, or is done with it, touches that peer alone: a packet, a greeting,
/// a rotation of keys from either side, and every step of hole punching leave the other peers
/// as they were, and the client's own session, keys and names.
pub proof fn peers_do_not_touch_each_other(
    before: Outbox,
    pk: RawKey,
    key: RawKey,
    salt: [u8; 12],
    ip: String,
    valid: bool,
    new_key: RawKey,
    other_key: RawKey,
    now: u64,
    src: Endpoint,
    fresh: FreshKeys,
    frame: Option<crate::client::peer::Sealed>,
    actions: Option<HelloActions>,
    start: PunchStart,
    step: PunchStep,
    done: bool,
    after: Outbox,
)
    requires
        hello_completed(before, pk, key, salt, ip, valid, new_key, now, actions, after)
            || rekey_completed(before, pk, key, salt, new_key, now, done, after) || arrived(
            before,
            pk,
            valid,
            src,
            fresh,
            now,
            frame,
            after,
        ) || rekey_begun(before, pk, key, other_key, salt, new_key, now, frame, after)
            || punch_started(before, pk, start, after) || punch_stepped(
            before,
            pk,
            now,
            step,
            after,
        ) || punch_noted(before, pk, done, after),
    ensures
        keeps_its_own(before, after),
        leaves_the_others(before, pk, after),
        after.rk_index == before.rk_index && after.learned_aliases == before.learned_aliases,
{
}

/// What the server tells of a peer touches that peer alone, and nothing of the client's own.
pub proof fn news_of_a_peer_touches_it_alone(
    before: Outbox,
    info: PeerInfo,
    facts: PeerFacts,
    fresh: FreshKeys,
    now: u64,
    found: Option<(RawKey, String)>,
    noticed: Option<RawKey>,
    after: Outbox,
)
    requires
        query_completed(before, info, facts, fresh, now, found, after) || notice_taken(
            before,
            info,
            facts,
            fresh,
            now,
            noticed,
            after,
        ),
    ensures
        keeps_its_own(before, after),
        facts.public_key is Some ==> leaves_the_others(before, facts.public_key->0, after),
        facts.public_key is None ==> after.peers == before.peers,
{
}

/// A device registers under the first of its own names that is bound to its address, and
/// without a name where none is.
pub proof fn a_device_registers_under_its_own_name(
    c: Conn,
    r: crate::protocol::RegisterBody,
    i: int,
)
    requires
        registers_with(c, r),
    ensures
        r.ip@ == c.outbox.local_ip@,
        c.outbox.local_aliases.first_for(c.outbox.local_ip@, i) ==> r.alias is Some
            && r.alias->0@ == c.outbox.local_aliases.names()[i],
        !c.outbox.local_aliases.ips().contains(c.outbox.local_ip@) ==> r.alias is None,
{
    let own = c.outbox.local_aliases;
    let ip = c.outbox.local_ip@;
    if own.first_for(ip, i) {
        assert(own.ips().contains(ip));
        let k = choose|k: int| #[trigger] own.first_for(ip, k) && r.alias->0@ == own.names()[k];
        if k < i {
            assert(own.ips()[k] != ip);
        }
        if i < k {
            assert(own.ips()[i] != ip);
        }
    }
}

} // verus!
