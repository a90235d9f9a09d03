//! Measuring a mesh: probe packets, their replies, and the pace of load tests.
use vstd::prelude::*;
use vstd::string::*;
use crate::bytes::{
    be_bytes, be_nat, get_u16, get_u64, lemma_be_bytes_len, lemma_u64_round_trip, push_bytes,
    put_u16, put_u64, same_bytes, slice_bytes,
};
use crate::protocol::MsgKind;
use crate::table::{same_raw_key, RawKey};
use crate::text::{fields, parse_number, parsed_number, same, split_on, texts};

verus! {

/// The length of a probe without its filling.
pub const PROBE_HEADER: usize = 22;

/// The length of a reply without its filling.
pub const REPLY_HEADER: usize = 30;

/// The length of an IPv4 header without options.
pub const IPV4_HEADER: usize = 20;

/// What a probe starts with: "LMB1".
pub open spec fn probe_magic() -> Seq<u8> {
    seq![0x4cu8, 0x4du8, 0x42u8, 0x31u8]
}

/// What a reply starts with: "LMBR".
pub open spec fn reply_magic() -> Seq<u8> {
    seq![0x4cu8, 0x4du8, 0x42u8, 0x52u8]
}

/// An IPv4 packet without options that carries UDP.
pub open spec fn ipv4_packet(src: Seq<u8>, dst: Seq<u8>, payload: Seq<u8>) -> Seq<u8> {
    seq![0x45u8, 0u8] + be_bytes((20 + payload.len()) % 0x10000, 2) + seq![
        0u8,
        0u8,
        0x40u8,
        0u8,
        64u8,
        17u8,
        0u8,
        0u8,
    ] + src + dst + payload
}

/// Wraps a payload into an IPv4 packet.
pub fn build_ipv4_packet(src: [u8; 4], dst: [u8; 4], payload: &[u8]) -> (r: Vec<u8>)
    ensures
        r@ == ipv4_packet(src@, dst@, payload@),
{
    assert(payload@.len() == payload.len());
    let total: u16 = ((payload.len() % 0x10000 + 20) % 0x10000) as u16;
    let mut r: Vec<u8> = Vec::new();
    let head: [u8; 2] = [0x45, 0];
    push_bytes(&mut r, head.as_slice());
    let len = put_u16(total);
    push_bytes(&mut r, len.as_slice());
    let rest: [u8; 8] = [0, 0, 0x40, 0, 64, 17, 0, 0];
    push_bytes(&mut r, rest.as_slice());
    push_bytes(&mut r, src.as_slice());
    push_bytes(&mut r, dst.as_slice());
    push_bytes(&mut r, payload);
    proof {
        assert(total == (20 + payload@.len()) % 0x10000);
        assert(r@ =~= ipv4_packet(src@, dst@, payload@));
    }
    r
}

/// The sender, the receiver and the payload of an IPv4 packet without options.
pub open spec fn read_ipv4(pkt: Seq<u8>) -> Option<(Seq<u8>, Seq<u8>, Seq<u8>)> {
    if pkt.len() < 20 || pkt[0] / 16 != 4 {
        None
    } else {
        Some((pkt.subrange(12, 16), pkt.subrange(16, 20), pkt.skip(20)))
    }
}

/// Takes an IPv4 packet apart.
pub fn parse_ip(pkt: &[u8]) -> (r: Option<([u8; 4], [u8; 4], Vec<u8>)>)
    ensures
        match (r, read_ipv4(pkt@)) {
            (Some(a), Some(b)) => a.0@ == b.0 && a.1@ == b.1 && a.2@ == b.2,
            (None, None) => true,
            _ => false,
        },
{
    if pkt.len() < IPV4_HEADER {
        return None;
    }
    if pkt[0] / 16 != 4 {
        return None;
    }
    let src: [u8; 4] = [pkt[12], pkt[13], pkt[14], pkt[15]];
    let dst: [u8; 4] = [pkt[16], pkt[17], pkt[18], pkt[19]];
    let payload = slice_bytes(pkt, IPV4_HEADER, pkt.len());
    assert(src@ =~= pkt@.subrange(12, 16));
    assert(dst@ =~= pkt@.subrange(16, 20));
    assert(payload@ =~= pkt@.skip(20));
    Some((src, dst, payload))
}

/// A packet that was put together is taken apart into the same parts.
pub proof fn packets_are_read_back(src: Seq<u8>, dst: Seq<u8>, payload: Seq<u8>)
    requires
        src.len() == 4,
        dst.len() == 4,
    ensures
        read_ipv4(ipv4_packet(src, dst, payload)) == Some((src, dst, payload)),
{
    let pkt = ipv4_packet(src, dst, payload);
    lemma_be_bytes_len((20 + payload.len()) % 0x10000, 2);
    assert(pkt.subrange(12, 16) =~= src);
    assert(pkt.subrange(16, 20) =~= dst);
    assert(pkt.skip(20) =~= payload);
}

/// How much of a probe of `size` bytes is filling.
pub open spec fn filling(size: nat) -> nat {
    if size < 22 {
        0
    } else {
        (size - 22) as nat
    }
}

/// The byte that fills the probe with a number.
pub open spec fn probe_fill(seq: nat) -> u8 {
    (((seq % 256) * 31 + 7) % 256) as u8
}

/// `n` times the same byte.
pub open spec fn repeated(b: u8, n: nat) -> Seq<u8> {
    Seq::new(n, |i: int| b)
}

/// The probe with number `seq` that was sent at `now`.
pub open spec fn probe(seq: nat, size: nat, now: nat) -> Seq<u8> {
    probe_magic() + be_bytes(seq, 8) + be_bytes(now, 8) + be_bytes(filling(size) % 0x10000, 2)
        + repeated(probe_fill(seq), filling(size))
}

fn fill(out: &mut Vec<u8>, b: u8, n: usize)
    ensures
        final(out)@ == old(out)@ + repeated(b, n as nat),
{
    let mut i: usize = 0;
    assert(out@ =~= old(out)@ + repeated(b, 0));
    while i < n
        invariant
            i <= n,
            out@ == old(out)@ + repeated(b, i as nat),
        decreases n - i,
    {
        out.push(b);
        assert(out@ =~= old(out)@ + repeated(b, (i + 1) as nat));
        i = i + 1;
    }
}

/// Makes a probe. `now` is the time in milliseconds.
pub fn build_probe(seq: u64, size: usize, now: u64) -> (r: Vec<u8>)
    ensures
        r@ == probe(seq as nat, size as nat, now as nat),
{
    let extra: usize = if size < PROBE_HEADER {
        0
    } else {
        size - PROBE_HEADER
    };
    let mut r: Vec<u8> = Vec::new();
    let magic: [u8; 4] = [0x4c, 0x4d, 0x42, 0x31];
    push_bytes(&mut r, magic.as_slice());
    let number = put_u64(seq);
    push_bytes(&mut r, number.as_slice());
    let time = put_u64(now);
    push_bytes(&mut r, time.as_slice());
    let len = put_u16((extra % 0x10000) as u16);
    push_bytes(&mut r, len.as_slice());
    let b: u8 = (((seq % 256) * 31 + 7) % 256) as u8;
    fill(&mut r, b, extra);
    assert(magic@ =~= probe_magic());
    assert(r@ =~= probe(seq as nat, size as nat, now as nat));
    r
}

/// Whether a payload is a probe.
pub open spec fn is_probe(p: Seq<u8>) -> bool {
    p.len() >= 22 && p.subrange(0, 4) == probe_magic()
}

/// The byte that fills the reply to a probe.
pub open spec fn reply_fill(p: Seq<u8>) -> u8 {
    if p.len() > 22 {
        p[22]
    } else {
        0xaa
    }
}

/// The reply to a probe that came in at `recv`.
pub open spec fn reply(p: Seq<u8>, recv: nat) -> Seq<u8> {
    reply_magic() + p.subrange(4, 20) + be_bytes(recv, 8) + p.subrange(20, 22) + repeated(
        reply_fill(p),
        be_nat(p.subrange(20, 22)),
    )
}

fn starts_with(p: &[u8], magic: [u8; 4]) -> (r: bool)
    requires
        p@.len() >= 4,
    ensures
        r == (p@.subrange(0, 4) == magic@),
{
    let head: [u8; 4] = [p[0], p[1], p[2], p[3]];
    assert(head@ =~= p@.subrange(0, 4));
    same_bytes(head.as_slice(), magic.as_slice())
}

/// Replies to a probe.
pub fn build_reply(p: &[u8], recv_ms: u64) -> (r: Option<Vec<u8>>)
    ensures
        match r {
            Some(v) => is_probe(p@) && v@ == reply(p@, recv_ms as nat),
            None => !is_probe(p@),
        },
{
    if p.len() < PROBE_HEADER {
        return None;
    }
    let magic: [u8; 4] = [0x4c, 0x4d, 0x42, 0x31];
    assert(magic@ =~= probe_magic());
    if !starts_with(p, magic) {
        return None;
    }
    let answer: [u8; 4] = [0x4c, 0x4d, 0x42, 0x52];
    assert(answer@ =~= reply_magic());
    let mut r: Vec<u8> = Vec::new();
    push_bytes(&mut r, answer.as_slice());
    push_bytes(&mut r, slice_bytes(p, 4, 20).as_slice());
    let time = put_u64(recv_ms);
    push_bytes(&mut r, time.as_slice());
    push_bytes(&mut r, slice_bytes(p, 20, 22).as_slice());
    let extra: u16 = get_u16(p, 20);
    let b: u8 = if p.len() > PROBE_HEADER {
        p[22]
    } else {
        0xaa
    };
    fill(&mut r, b, extra as usize);
    assert(r@ =~= reply(p@, recv_ms as nat));
    Some(r)
}

/// The number of the probe that is replied to, when it was sent, and when it came in.
pub open spec fn read_reply(p: Seq<u8>) -> Option<(nat, nat, nat)> {
    if p.len() < 30 || p.subrange(0, 4) != reply_magic() {
        None
    } else {
        Some((be_nat(p.subrange(4, 12)), be_nat(p.subrange(12, 20)), be_nat(p.subrange(20, 28))))
    }
}

/// Reads a reply.
pub fn parse_reply(p: &[u8]) -> (r: Option<(u64, u64, u64)>)
    ensures
        match (r, read_reply(p@)) {
            (Some(a), Some(b)) => a.0 == b.0 && a.1 == b.1 && a.2 == b.2,
            (None, None) => true,
            _ => false,
        },
{
    if p.len() < REPLY_HEADER {
        return None;
    }
    let magic: [u8; 4] = [0x4c, 0x4d, 0x42, 0x52];
    assert(magic@ =~= reply_magic());
    if !starts_with(p, magic) {
        return None;
    }
    Some((get_u64(p, 4), get_u64(p, 12), get_u64(p, 20)))
}

/// The reply to a probe tells which probe it was, when it was sent, and when it came in.
pub proof fn a_reply_tells_of_its_probe(seq: u64, size: nat, sent: u64, recv: u64)
    ensures
        is_probe(probe(seq as nat, size, sent as nat)),
        read_reply(reply(probe(seq as nat, size, sent as nat), recv as nat)) == Some(
            (seq as nat, sent as nat, recv as nat),
        ),
{
    let p = probe(seq as nat, size, sent as nat);
    lemma_u64_round_trip(seq);
    lemma_u64_round_trip(sent);
    lemma_u64_round_trip(recv);
    lemma_be_bytes_len(filling(size) % 0x10000, 2);
    assert(p.subrange(0, 4) =~= probe_magic());
    assert(p.subrange(4, 12) =~= be_bytes(seq as nat, 8));
    assert(p.subrange(12, 20) =~= be_bytes(sent as nat, 8));
    let r = reply(p, recv as nat);
    assert(r.subrange(0, 4) =~= reply_magic());
    assert(r.subrange(4, 12) =~= p.subrange(4, 12));
    assert(r.subrange(12, 20) =~= p.subrange(12, 20));
    assert(r.subrange(20, 28) =~= be_bytes(recv as nat, 8));
}

/// A probe that came in.
pub struct ProbeSeen {
    pub seq: u64,
    pub size: usize,
    pub src: [u8; 4],
    /// The packet to send back.
    pub answer: Vec<u8>,
}

/// Reads a packet from the tunnel, and answers it where it is a probe.
pub fn answer_probe(pkt: &[u8], me: [u8; 4], recv_ms: u64) -> (r: Option<ProbeSeen>)
    ensures
        match r {
            Some(s) => {
                &&& read_ipv4(pkt@) is Some
                &&& ({
                    let (src, dst, payload) = read_ipv4(pkt@)->0;
                    &&& is_probe(payload)
                    &&& s.seq == be_nat(payload.subrange(4, 12))
                    &&& s.size == payload.len()
                    &&& s.src@ == src
                    &&& s.answer@ == ipv4_packet(me@, src, reply(payload, recv_ms as nat))
                })
            },
            None => match read_ipv4(pkt@) {
                Some((src, dst, payload)) => !is_probe(payload),
                None => true,
            },
        },
{
    match parse_ip(pkt) {
        Some((src, _, payload)) => match build_reply(payload.as_slice(), recv_ms) {
            Some(answer) => Some(
                ProbeSeen {
                    seq: get_u64(payload.as_slice(), 4),
                    size: payload.len(),
                    src,
                    answer: build_ipv4_packet(me, src, answer.as_slice()),
                },
            ),
            None => None,
        },
        None => None,
    }
}

/// A probe that was answered.
#[derive(Debug, Clone, Copy, PartialEq, Eq, Structural)]
pub struct Sample {
    pub seq: u64,
    pub send_ms: u64,
    pub recv_ms: u64,
    pub rtt_ms: u64,
    pub size: usize,
}

/// `a - b`, but never below zero.
pub open spec fn monus(a: u64, b: u64) -> u64 {
    if a < b {
        0
    } else {
        (a - b) as u64
    }
}

/// Reads a packet from the tunnel as a reply to a probe.
pub fn take_sample(pkt: &[u8], now_ms: u64) -> (r: Option<Sample>)
    ensures
        match read_ipv4(pkt@) {
            Some((src, dst, payload)) => match (r, read_reply(payload)) {
                (Some(s), Some(b)) => {
                    &&& s.seq == b.0 && s.send_ms == b.1 && s.recv_ms == b.2
                    &&& s.rtt_ms == monus(now_ms, s.send_ms)
                    &&& s.size == payload.len()
                },
                (None, None) => true,
                _ => false,
            },
            None => r is None,
        },
{
    match parse_ip(pkt) {
        Some((_, _, payload)) => match parse_reply(payload.as_slice()) {
            Some((seq, send_ms, recv_ms)) => {
                let rtt_ms: u64 = if now_ms < send_ms {
                    0
                } else {
                    now_ms - send_ms
                };
                Some(Sample { seq, send_ms, recv_ms, rtt_ms, size: payload.len() })
            },
            None => None,
        },
        None => None,
    }
}

/// Whether samples stand in the order of their numbers.
pub open spec fn in_order(s: Seq<Sample>) -> bool {
    forall|i: int, j: int| 0 <= i < j < s.len() ==> (#[trigger] s[i]).seq <= (#[trigger] s[j]).seq
}

/// Keeps a sample, behind all with the same or a smaller number. Returns where it
/// stands.
pub fn keep_sample(samples: &mut Vec<Sample>, s: Sample) -> (r: usize)
    requires
        in_order(old(samples)@),
    ensures
        r <= old(samples)@.len(),
        final(samples)@ == old(samples)@.insert(r as int, s),
        forall|i: int| 0 <= i < r ==> (#[trigger] old(samples)@[i]).seq <= s.seq,
        forall|i: int|
            r <= i < old(samples)@.len() ==> (#[trigger] old(samples)@[i]).seq > s.seq,
        in_order(final(samples)@),
{
    let mut i: usize = samples.len();
    while i > 0 && samples[i - 1].seq > s.seq
        invariant
            samples@ == old(samples)@,
            in_order(samples@),
            i <= samples@.len(),
            forall|k: int| i <= k < samples@.len() ==> (#[trigger] samples@[k]).seq > s.seq,
        decreases i,
    {
        i = i - 1;
    }
    samples.insert(i, s);
    i
}

/// How many of `sent` probes were answered and how many were lost, given the number of
/// replies.
pub fn tally(sent: usize, replies: usize) -> (r: (usize, usize))
    ensures
        r.0 == if replies < sent {
            replies
        } else {
            sent
        },
        r.0 + r.1 == sent,
{
    let ok: usize = if replies < sent {
        replies
    } else {
        sent
    };
    (ok, sent - ok)
}

/// How long to wait, in milliseconds, until `count` packets have left.
pub fn drain_ms(count: u64) -> (r: u64)
    ensures
        r == if 500 + count / 4 < 4000 {
            500 + count / 4
        } else {
            4000
        },
{
    let wait: u64 = 500 + count / 4;
    if wait < 4000 {
        wait
    } else {
        4000
    }
}

/// The pause, in milliseconds, between two of `rate` requests per second; at least one.
pub fn pace_ms(rate: u64) -> (r: u64)
    ensures
        r == (if rate == 0 {
            1000
        } else if rate > 1000 {
            1
        } else {
            (1000int / rate as int) as u64
        }),
{
    if rate == 0 {
        1000
    } else if rate > 1000 {
        1
    } else {
        1000 / rate
    }
}

/// The virtual address of the client with a number.
pub open spec fn numbered_ip(i: nat) -> Seq<u8> {
    seq![10u8, ((i / 65536) % 256) as u8, ((i / 256) % 256) as u8, (i % 256) as u8]
}

/// The virtual address of the client with a number.
pub fn v_ip(i: usize) -> (r: [u8; 4])
    ensures
        r@ == numbered_ip(i as nat),
{
    let r: [u8; 4] = [10, ((i / 65536) % 256) as u8, ((i / 256) % 256) as u8, (i % 256) as u8];
    assert(r@ =~= numbered_ip(i as nat));
    r
}

/// Clients with different numbers below 2^24 have different virtual addresses.
pub proof fn numbered_addresses_differ(i: nat, j: nat)
    requires
        i < 0x1000000,
        j < 0x1000000,
        numbered_ip(i) == numbered_ip(j),
    ensures
        i == j,
{
    let a = numbered_ip(i);
    let b = numbered_ip(j);
    assert(a[1] == b[1] && a[2] == b[2] && a[3] == b[3]);
    assert(i / 65536 < 256 && j / 65536 < 256);
    assert(i == (i / 65536) * 65536 + ((i / 256) % 256) * 256 + i % 256);
    assert(j == (j / 65536) * 65536 + ((j / 256) % 256) * 256 + j % 256);
}

/// Which of `n` clients the one at position `i` asks for: the next one.
pub fn next_client(i: usize, n: usize) -> (r: usize)
    requires
        i < n,
    ensures
        r == (i + 1) % n as int,
{
    proof {
        if i + 1 == n {
            vstd::arithmetic::div_mod::lemma_mod_self_0(n as int);
        } else {
            vstd::arithmetic::div_mod::lemma_small_mod((i + 1) as nat, n as nat);
        }
    }
    if i + 1 == n {
        0
    } else {
        i + 1
    }
}

/// Whether the client at a position sends in a test of the relay; the others receive.
pub fn sends(i: usize) -> (r: bool)
    ensures
        r == (i % 2 == 0),
{
    i % 2 == 0
}

/// Which of `n` receivers the sender at position `i` sends to.
pub fn relay_target(i: usize, n: usize) -> (r: usize)
    requires
        n > 0,
    ensures
        r == i % n,
{
    i % n
}

/// The byte at a position of a payload.
pub fn relay_payload(i: u64) -> (r: u8)
    ensures
        r == i % 251,
{
    (i % 251) as u8
}

/// How many frames a packet brought, given what it is and into how many parts it could be
/// taken apart: a relayed frame counts once, a batch by its parts.
pub fn frames_in(kind: MsgKind, parts: Option<u64>) -> (r: u64)
    ensures
        r == (match (kind, parts) {
            (MsgKind::Relay, Some(_)) => 1u64,
            (MsgKind::RelayBatch, Some(n)) => n,
            _ => 0u64,
        }),
{
    match (kind, parts) {
        (MsgKind::Relay, Some(_)) => 1,
        (MsgKind::RelayBatch, Some(n)) => n,
        _ => 0,
    }
}

/// The state that follows a state of the generator that test frames are chosen with.
pub open spec fn next_state(state: u64) -> u64 {
    ((state * 6364136223846793005 + 1442695040888963407) % 0x1_0000_0000_0000_0000) as u64
}

/// A number below `sides` that a state stands for.
pub open spec fn face(state: u64, sides: u64) -> int {
    (state / 0x2_0000_0000) as int % sides as int
}

/// Draws a number below `sides`. Returns the next state and the number.
pub fn draw(state: u64, sides: u64) -> (r: (u64, u64))
    requires
        sides > 0,
    ensures
        r.0 == next_state(state),
        r.1 == face(r.0, sides),
{
    let wide: u128 = state as u128 * 6364136223846793005 + 1442695040888963407;
    let next: u64 = (wide % 0x1_0000_0000_0000_0000) as u64;
    (next, (next / 0x2_0000_0000) % sides)
}

/// Chooses one of the six kinds of malformed frames. Returns the next state and the kind.
pub fn next_fault(state: u64) -> (r: (u64, u8))
    ensures
        r.0 == next_state(state),
        r.1 == face(r.0, 6),
{
    let (next, kind) = draw(state, 6);
    (next, kind as u8)
}

/// How often to send a malformed frame: once, sometimes once more, and now and then twenty
/// times more. Returns the next state and the number.
pub fn fault_copies(state: u64) -> (r: (u64, u64))
    ensures
        ({
            let a = next_state(state);
            let b = next_state(a);
            &&& r.0 == b
            &&& r.1 == 1 + (if face(a, 4) == 0 {
                1int
            } else {
                0int
            }) + (if face(b, 20) == 0 {
                20int
            } else {
                0int
            })
        }),
{
    let (a, again) = draw(state, 4);
    let (b, burst) = draw(a, 20);
    let mut n: u64 = 1;
    if again == 0 {
        n = n + 1;
    }
    if burst == 0 {
        n = n + 20;
    }
    (b, n)
}

/// A malformed frame. `header` and `relay_header` are the lengths of the headers of
/// signaling and of relayed frames.
pub open spec fn malformed(kind: u8, header: nat, relay_header: nat) -> Seq<u8> {
    if kind == 0 {
        // Nothing but zeros.
        repeated(0, 64)
    } else if kind == 1 {
        // A header that breaks off.
        seq![0x4cu8, 0x4du8, 1u8]
    } else if kind == 2 {
        // Another protocol.
        seq![0xdeu8, 0xadu8, 0xbeu8, 0xefu8]
    } else if kind == 3 {
        // A relayed frame that breaks off.
        seq![0x4cu8, 0x4du8, 1u8, 6u8]
    } else if kind == 4 {
        // As long as a relayed frame, but of another protocol.
        seq![0x41u8, 0x42u8] + repeated(0x11, (relay_header + 98) as nat)
    } else {
        // A batch whose first part claims to be longer than the frame.
        seq![0x4cu8, 0x4du8, 1u8, 0x0au8] + repeated(0x33, (header - 4) as nat) + seq![
            0xffu8,
            0xffu8,
        ] + repeated(0x33, 38)
    }
}

/// Makes a malformed frame.
pub fn fault_frame(kind: u8, header: usize, relay_header: usize) -> (r: Vec<u8>)
    requires
        header >= 4,
        relay_header <= usize::MAX - 98,
    ensures
        r@ == malformed(kind, header as nat, relay_header as nat),
{
    let mut out: Vec<u8> = Vec::new();
    if kind == 0 {
        fill(&mut out, 0, 64);
    } else if kind == 1 {
        let b: [u8; 3] = [0x4c, 0x4d, 1];
        push_bytes(&mut out, b.as_slice());
    } else if kind == 2 {
        let b: [u8; 4] = [0xde, 0xad, 0xbe, 0xef];
        push_bytes(&mut out, b.as_slice());
    } else if kind == 3 {
        let b: [u8; 4] = [0x4c, 0x4d, 1, 6];
        push_bytes(&mut out, b.as_slice());
    } else if kind == 4 {
        let b: [u8; 2] = [0x41, 0x42];
        push_bytes(&mut out, b.as_slice());
        fill(&mut out, 0x11, relay_header + 98);
    } else {
        let b: [u8; 4] = [0x4c, 0x4d, 1, 0x0a];
        push_bytes(&mut out, b.as_slice());
        fill(&mut out, 0x33, header - 4);
        let len: [u8; 2] = [0xff, 0xff];
        push_bytes(&mut out, len.as_slice());
        fill(&mut out, 0x33, 38);
    }
    assert(out@ =~= malformed(kind, header as nat, relay_header as nat));
    out
}

/// The pause, in microseconds, between two of `rate` malformed frames per second; at least
/// one.
pub fn fault_pause_us(rate: u64) -> (r: u64)
    ensures
        r == (if rate == 0 {
            1000000
        } else if rate > 1000000 {
            1
        } else {
            (1000000int / rate as int) as u64
        }),
{
    if rate == 0 {
        1000000
    } else if rate > 1000000 {
        1
    } else {
        1000000 / rate
    }
}

/// The other side of a captured frame between `me` and somebody.
pub fn other_party(me: &RawKey, dest: &RawKey, src: &RawKey) -> (r: RawKey)
    ensures
        r == (if *src == *me {
            *dest
        } else {
            *src
        }),
{
    if same_raw_key(src, me) {
        *dest
    } else {
        *src
    }
}

/// A byte as it is shown: printable ASCII as it is, anything else as a dot.
pub open spec fn shown_byte(b: u8) -> char {
    if 0x20 <= b <= 0x7e {
        b as char
    } else {
        '.'
    }
}

/// Bytes as they are shown.
pub fn printable(bytes: &[u8]) -> (r: String)
    ensures
        r@ == bytes@.map_values(|b: u8| shown_byte(b)),
{
    let mut out = String::new();
    let mut i: usize = 0;
    while i < bytes.len()
        invariant
            i <= bytes@.len(),
            out@ =~= bytes@.take(i as int).map_values(|b: u8| shown_byte(b)),
        decreases bytes@.len() - i,
    {
        let b: u8 = bytes[i];
        let c = if 0x20 <= b && b <= 0x7e {
            b as char
        } else {
            '.'
        };
        let ghost before = out@;
        out.push(c);
        assert(bytes@.take(i + 1).map_values(|b: u8| shown_byte(b)) =~= before.push(c));
        i = i + 1;
    }
    assert(bytes@.take(i as int) =~= bytes@);
    out
}

/// Where an argument first stands.
pub open spec fn arg_at(args: Seq<String>, name: Seq<char>, i: int) -> bool {
    &&& 0 <= i < args.len()
    &&& args[i]@ == name
    &&& forall|j: int| 0 <= j < i ==> (#[trigger] args[j])@ != name
}

/// Whether an argument is there.
pub fn arg_flag(args: &Vec<String>, name: &str) -> (r: bool)
    ensures
        r == exists|i: int| 0 <= i < args@.len() && (#[trigger] args@[i])@ == name@,
{
    let mut i: usize = 0;
    while i < args.len()
        invariant
            i <= args@.len(),
            forall|j: int| 0 <= j < i ==> (#[trigger] args@[j])@ != name@,
        decreases args@.len() - i,
    {
        if same(args[i].as_str(), name) {
            return true;
        }
        i = i + 1;
    }
    false
}

/// What follows an argument, or the default.
pub fn arg_val(args: &Vec<String>, name: &str, default: &str) -> (r: String)
    ensures
        forall|i: int| #[trigger]
            arg_at(args@, name@, i) ==> r@ == (if i + 1 < args@.len() {
                args@[i + 1]@
            } else {
                default@
            }),
        (forall|i: int| 0 <= i < args@.len() ==> (#[trigger] args@[i])@ != name@) ==> r@ == default@,
{
    let mut i: usize = 0;
    while i < args.len()
        invariant
            i <= args@.len(),
            forall|j: int| 0 <= j < i ==> (#[trigger] args@[j])@ != name@,
        decreases args@.len() - i,
    {
        if same(args[i].as_str(), name) {
            if i + 1 < args.len() {
                return args[i + 1].clone();
            }
            return default.to_owned();
        }
        i = i + 1;
    }
    default.to_owned()
}

/// The numbers between the dots of an address. Other than in a strict reading, a number
/// may have leading zeros or a sign.
pub open spec fn loose_octets(s: Seq<char>) -> Option<Seq<nat>> {
    let f = fields(s, '.');
    if f.len() == 4 && forall|i: int| 0 <= i < 4 ==> parsed_number(#[trigger] f[i], 255) is Some {
        Some(Seq::new(4, |i: int| parsed_number(f[i], 255)->0))
    } else {
        None
    }
}

/// Reads an address.
pub fn parse_ipv4(s: &str) -> (r: Option<[u8; 4]>)
    ensures
        match (r, loose_octets(s@)) {
            (Some(a), Some(b)) => forall|i: int| 0 <= i < 4 ==> #[trigger] a@[i] as nat == b[i],
            (None, None) => true,
            _ => false,
        },
{
    let parts = split_on(s, '.');
    let ghost f = fields(s@, '.');
    assert(texts(parts@).len() == parts@.len());
    if parts.len() != 4 {
        return None;
    }
    let mut out: [u8; 4] = [0, 0, 0, 0];
    let mut i: usize = 0;
    while i < 4
        invariant
            i <= 4,
            parts@.len() == 4,
            f == fields(s@, '.'),
            texts(parts@) == f,
            f.len() == 4,
            forall|k: int|
                0 <= k < i ==> parsed_number(#[trigger] f[k], 255) == Some(out@[k] as nat),
        decreases 4 - i,
    {
        assert(texts(parts@)[i as int] == parts@[i as int]@);
        match parse_number(parts[i].as_str(), 255) {
            Some(v) => {
                out[i] = v as u8;
            },
            None => {
                assert(parsed_number(f[i as int], 255) is None);
                return None;
            },
        }
        i = i + 1;
    }
    proof {
        let b = loose_octets(s@)->0;
        assert forall|k: int| 0 <= k < 4 implies #[trigger] out@[k] as nat == b[k] by {
            assert(parsed_number(f[k], 255) == Some(out@[k] as nat));
        }
    }
    Some(out)
}

} // verus!
