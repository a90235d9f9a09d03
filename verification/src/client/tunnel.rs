//! Tunnel frames, as they are before encryption.
//!
//! ```text
//! 0     packet type   (1 byte)  HELLO / DATA / REKEY / ACK
//! 1-4   epoch         (4 bytes, big-endian) generation of the data key
//! 5-12  seq           (8 bytes, big-endian) sender's sequence number
//! 13..  payload
//! ```
//!
//! DATA carries a whole IP packet, ACK the highest sequence number received in
//! order, HELLO the sender's routing key, salt and virtual address, and REKEY
//! the sender's next routing key and salt.
use vstd::prelude::*;
use crate::bytes::{be_bytes, be_nat, copy_bytes, get_u32, get_u64, push_bytes, put_u32, put_u64};
use crate::net::{address_bytes, IpAddress};
use crate::bytes::{lemma_be_bytes_of_nat, lemma_u32_round_trip, lemma_u64_round_trip};

verus! {

pub const TUNNEL_HELLO: u8 = 0x01;

pub const TUNNEL_DATA: u8 = 0x02;

pub const TUNNEL_REKEY: u8 = 0x03;

pub const TUNNEL_ACK: u8 = 0x04;

pub const EPOCH_LEN: usize = 4;

pub const SEQ_LEN: usize = 8;

/// Packet type, epoch and sequence number.
pub const FRAME_HEADER_LEN: usize = 13;

/// Routing key and salt, the prefix of a HELLO or REKEY payload.
pub const HANDSHAKE_EXTRA: usize = 44;

/// The twelve bytes of an AEAD nonce: epoch, then sequence number.
pub open spec fn nonce_bytes(epoch: u32, seq: u64) -> Seq<u8> {
    be_bytes(epoch as nat, 4) + be_bytes(seq as nat, 8)
}

/// A tunnel frame in clear text.
pub open spec fn tunnel_frame(typ: u8, epoch: u32, seq: u64, payload: Seq<u8>) -> Seq<u8> {
    seq![typ] + be_bytes(epoch as nat, 4) + be_bytes(seq as nat, 8) + payload
}

/// The payload of a HELLO: routing key, salt, virtual address.
pub open spec fn hello_payload(rk_pub: Seq<u8>, salt: Seq<u8>, ip: Seq<u8>) -> Seq<u8> {
    rk_pub + salt + ip
}

/// The payload of a REKEY: routing key, salt.
pub open spec fn rekey_payload(rk_pub: Seq<u8>, salt: Seq<u8>) -> Seq<u8> {
    rk_pub + salt
}

/// Whether bytes read as a tunnel frame: its type in the first byte, its epoch in the next
/// four, its sequence number in the next eight, most significant byte first, and then the
/// payload.
pub open spec fn reads_as_frame(
    bytes: Seq<u8>,
    typ: u8,
    epoch: u32,
    seq: u64,
    payload: Seq<u8>,
) -> bool {
    &&& bytes.len() == 13 + payload.len()
    &&& bytes[0] == typ
    &&& be_nat(bytes.subrange(1, 5)) == epoch
    &&& be_nat(bytes.subrange(5, 13)) == seq
    &&& bytes.skip(13) == payload
}

/// Whether bytes read as the nonce of an epoch and a sequence number.
pub open spec fn reads_as_nonce(bytes: Seq<u8>, epoch: u32, seq: u64) -> bool {
    &&& bytes.len() == 12
    &&& be_nat(bytes.subrange(0, 4)) == epoch
    &&& be_nat(bytes.subrange(4, 12)) == seq
}

/// The deterministic AEAD nonce of a DATA frame.
pub fn data_nonce(epoch: u32, seq: u64) -> (n: [u8; 12])
    ensures
        n@ == nonce_bytes(epoch, seq),
        reads_as_nonce(n@, epoch, seq),
{
    proof {
        nonces_are_read_back(epoch, seq);
    }
    let e = put_u32(epoch);
    let s = put_u64(seq);
    let n: [u8; 12] = [
        e[0],
        e[1],
        e[2],
        e[3],
        s[0],
        s[1],
        s[2],
        s[3],
        s[4],
        s[5],
        s[6],
        s[7],
    ];
    assert(n@ =~= e@ + s@);
    n
}

/// Builds a tunnel frame.
pub fn frame_tunnel_packet(pkt_type: u8, epoch: u32, seq: u64, payload: &[u8]) -> (r: Vec<u8>)
    ensures
        r@ == tunnel_frame(pkt_type, epoch, seq, payload@),
        reads_as_frame(r@, pkt_type, epoch, seq, payload@),
{
    proof {
        frames_are_read_back(pkt_type, epoch, seq, payload@);
    }
    let mut out: Vec<u8> = Vec::new();
    out.push(pkt_type);
    let e = put_u32(epoch);
    let s = put_u64(seq);
    push_bytes(&mut out, e.as_slice());
    push_bytes(&mut out, s.as_slice());
    push_bytes(&mut out, payload);
    assert(out@ =~= tunnel_frame(pkt_type, epoch, seq, payload@));
    out
}

/// Takes a tunnel frame apart: type, epoch, sequence number and payload. There
/// is none where the bytes are shorter than a frame header.
pub fn parse_tunnel_packet(pkt: &[u8]) -> (r: Option<(u8, u32, u64, &[u8])>)
    ensures
        r is Some <==> pkt@.len() >= FRAME_HEADER_LEN,
        r matches Some((typ, epoch, seq, payload)) ==> pkt@ == tunnel_frame(
            typ,
            epoch,
            seq,
            payload@,
        ) && reads_as_frame(pkt@, typ, epoch, seq, payload@),
{
    if pkt.len() < FRAME_HEADER_LEN {
        return None;
    }
    let typ: u8 = pkt[0];
    let epoch: u32 = get_u32(pkt, 1);
    let seq: u64 = get_u64(pkt, 5);
    let payload = vstd::slice::slice_subrange(pkt, FRAME_HEADER_LEN, pkt.len());
    proof {
        lemma_be_bytes_of_nat(pkt@.subrange(1, 5));
        lemma_be_bytes_of_nat(pkt@.subrange(5, 13));
        assert(pkt@ =~= tunnel_frame(typ, epoch, seq, payload@));
        frames_are_read_back(typ, epoch, seq, payload@);
    }
    Some((typ, epoch, seq, payload))
}

/// The payload of an ACK: the acknowledged sequence number.
pub fn ack_payload(ack: u64) -> (r: Vec<u8>)
    ensures
        r@ == be_bytes(ack as nat, 8),
{
    let b = put_u64(ack);
    copy_bytes(b.as_slice())
}

/// Reads the payload of an ACK, whose first eight bytes count.
pub fn parse_ack_payload(payload: &[u8]) -> (r: Option<u64>)
    ensures
        r is Some <==> payload@.len() >= 8,
        r matches Some(ack) ==> ack == be_nat(payload@.take(8)),
{
    if payload.len() < 8 {
        return None;
    }
    let ack: u64 = get_u64(payload, 0);
    assert(payload@.subrange(0, 8) =~= payload@.take(8));
    Some(ack)
}

/// Builds the payload of a HELLO.
pub fn frame_hello_payload(rk_pub: &[u8; 32], salt: &[u8; 12], ip: &[u8]) -> (r: Vec<u8>)
    ensures
        r@ == hello_payload(rk_pub@, salt@, ip@),
{
    let mut out = frame_rekey_payload(rk_pub, salt);
    push_bytes(&mut out, ip);
    out
}

/// Builds the payload of a REKEY.
pub fn frame_rekey_payload(new_rk_pub: &[u8; 32], new_salt: &[u8; 12]) -> (r: Vec<u8>)
    ensures
        r@ == rekey_payload(new_rk_pub@, new_salt@),
{
    let mut out = copy_bytes(new_rk_pub.as_slice());
    push_bytes(&mut out, new_salt.as_slice());
    out
}

/// The routing key, salt and remaining bytes of a HELLO or REKEY payload. There
/// are none where the payload is shorter than key and salt.
pub fn split_handshake(payload: &[u8]) -> (r: Option<([u8; 32], [u8; 12], &[u8])>)
    ensures
        r is Some <==> payload@.len() >= HANDSHAKE_EXTRA,
        r matches Some((rk, salt, rest)) ==> payload@ == hello_payload(rk@, salt@, rest@),
{
    if payload.len() < HANDSHAKE_EXTRA {
        return None;
    }
    let mut rk: [u8; 32] = [0u8; 32];
    let mut salt: [u8; 12] = [0u8; 12];
    let mut i: usize = 0;
    while i < 32
        invariant
            i <= 32,
            payload@.len() >= 44,
            rk@.len() == 32,
            forall|j: int| 0 <= j < i ==> rk@[j] == payload@[j],
        decreases 32 - i,
    {
        rk[i] = payload[i];
        i = i + 1;
    }
    let mut k: usize = 0;
    while k < 12
        invariant
            k <= 12,
            payload@.len() >= 44,
            salt@.len() == 12,
            forall|j: int| 0 <= j < k ==> salt@[j] == payload@[32 + j],
        decreases 12 - k,
    {
        salt[k] = payload[32 + k];
        k = k + 1;
    }
    let rest = vstd::slice::slice_subrange(payload, HANDSHAKE_EXTRA, payload.len());
    assert(payload@ =~= hello_payload(rk@, salt@, rest@));
    Some((rk, salt, rest))
}

/// The destination that an IP packet names: bytes 16 to 19 of an IPv4 packet,
/// bytes 24 to 39 of an IPv6 packet.
pub open spec fn packet_destination(pkt: Seq<u8>) -> Option<Seq<u8>> {
    if pkt.len() >= 20 && pkt[0] / 16 == 4 {
        Some(pkt.subrange(16, 20))
    } else if pkt.len() >= 40 && pkt[0] / 16 == 6 {
        Some(pkt.subrange(24, 40))
    } else {
        None
    }
}

/// The destination address of an IP packet.
pub fn extract_dst_ip(pkt: &[u8]) -> (r: Option<IpAddress>)
    ensures
        match r {
            Some(a) => packet_destination(pkt@) == Some(address_bytes(a)),
            None => packet_destination(pkt@) is None,
        },
{
    if pkt.len() == 0 {
        return None;
    }
    let version: u8 = pkt[0] / 16;
    if version == 4 {
        if pkt.len() < 20 {
            return None;
        }
        let a: [u8; 4] = [pkt[16], pkt[17], pkt[18], pkt[19]];
        assert(a@ =~= pkt@.subrange(16, 20));
        return Some(IpAddress::V4(a));
    }
    if version == 6 {
        if pkt.len() < 40 {
            return None;
        }
        let mut octets: [u8; 16] = [0u8; 16];
        let mut i: usize = 0;
        while i < 16
            invariant
                i <= 16,
                pkt@.len() >= 40,
                octets@.len() == 16,
                forall|j: int| 0 <= j < i ==> octets@[j] == pkt@[24 + j],
            decreases 16 - i,
        {
            octets[i] = pkt[24 + i];
            i = i + 1;
        }
        assert(octets@ =~= pkt@.subrange(24, 40));
        return Some(IpAddress::V6(octets));
    }
    None
}

/// A frame determines its type, epoch, sequence number and payload: taking a
/// built frame apart gives back what it was built from.
pub proof fn tunnel_frame_is_injective(
    t1: u8,
    e1: u32,
    s1: u64,
    p1: Seq<u8>,
    t2: u8,
    e2: u32,
    s2: u64,
    p2: Seq<u8>,
)
    requires
        tunnel_frame(t1, e1, s1, p1) == tunnel_frame(t2, e2, s2, p2),
    ensures
        t1 == t2,
        e1 == e2,
        s1 == s2,
        p1 == p2,
{
    lemma_u32_round_trip(e1);
    lemma_u32_round_trip(e2);
    lemma_u64_round_trip(s1);
    lemma_u64_round_trip(s2);
    let f1 = tunnel_frame(t1, e1, s1, p1);
    let f2 = tunnel_frame(t2, e2, s2, p2);
    assert(f1[0] == t1 && f2[0] == t2);
    assert(f1.subrange(1, 5) =~= be_bytes(e1 as nat, 4));
    assert(f2.subrange(1, 5) =~= be_bytes(e2 as nat, 4));
    assert(f1.subrange(5, 13) =~= be_bytes(s1 as nat, 8));
    assert(f2.subrange(5, 13) =~= be_bytes(s2 as nat, 8));
    assert(f1.skip(13) =~= p1);
    assert(f2.skip(13) =~= p2);
}

/// A frame that was built reads as what it was built from.
pub proof fn frames_are_read_back(typ: u8, epoch: u32, seq: u64, payload: Seq<u8>)
    ensures
        reads_as_frame(tunnel_frame(typ, epoch, seq, payload), typ, epoch, seq, payload),
{
    lemma_u32_round_trip(epoch);
    lemma_u64_round_trip(seq);
    let f = tunnel_frame(typ, epoch, seq, payload);
    assert(f.subrange(1, 5) =~= be_bytes(epoch as nat, 4));
    assert(f.subrange(5, 13) =~= be_bytes(seq as nat, 8));
    assert(f.skip(13) =~= payload);
}

/// Bytes that read as a frame are the frame that is built from what they read as.
pub proof fn frames_are_built_back(
    bytes: Seq<u8>,
    typ: u8,
    epoch: u32,
    seq: u64,
    payload: Seq<u8>,
)
    requires
        reads_as_frame(bytes, typ, epoch, seq, payload),
    ensures
        bytes == tunnel_frame(typ, epoch, seq, payload),
{
    lemma_be_bytes_of_nat(bytes.subrange(1, 5));
    lemma_be_bytes_of_nat(bytes.subrange(5, 13));
    assert(bytes =~= tunnel_frame(typ, epoch, seq, payload));
}

/// A nonce that was built reads as the epoch and the sequence number that it was built
/// from.
pub proof fn nonces_are_read_back(epoch: u32, seq: u64)
    ensures
        reads_as_nonce(nonce_bytes(epoch, seq), epoch, seq),
{
    lemma_u32_round_trip(epoch);
    lemma_u64_round_trip(seq);
    let n = nonce_bytes(epoch, seq);
    assert(n.subrange(0, 4) =~= be_bytes(epoch as nat, 4));
    assert(n.subrange(4, 12) =~= be_bytes(seq as nat, 8));
}

/// Bytes read as one frame only.
pub proof fn a_frame_reads_one_way(
    bytes: Seq<u8>,
    t1: u8,
    e1: u32,
    s1: u64,
    p1: Seq<u8>,
    t2: u8,
    e2: u32,
    s2: u64,
    p2: Seq<u8>,
)
    requires
        reads_as_frame(bytes, t1, e1, s1, p1),
        reads_as_frame(bytes, t2, e2, s2, p2),
    ensures
        t1 == t2 && e1 == e2 && s1 == s2 && p1 == p2,
{
}

/// No two pairs of epoch and sequence number share a nonce.
pub proof fn nonces_never_repeat(e1: u32, s1: u64, e2: u32, s2: u64)
    requires
        nonce_bytes(e1, s1) == nonce_bytes(e2, s2),
    ensures
        e1 == e2,
        s1 == s2,
{
    lemma_u32_round_trip(e1);
    lemma_u32_round_trip(e2);
    lemma_u64_round_trip(s1);
    lemma_u64_round_trip(s2);
    let n1 = nonce_bytes(e1, s1);
    let n2 = nonce_bytes(e2, s2);
    assert(n1.subrange(0, 4) =~= be_bytes(e1 as nat, 4));
    assert(n2.subrange(0, 4) =~= be_bytes(e2 as nat, 4));
    assert(n1.subrange(4, 12) =~= be_bytes(s1 as nat, 8));
    assert(n2.subrange(4, 12) =~= be_bytes(s2 as nat, 8));
}

/// The nonce of a DATA frame stands in its header, behind the packet type.
pub proof fn nonce_is_in_the_header(typ: u8, epoch: u32, seq: u64, payload: Seq<u8>)
    ensures
        tunnel_frame(typ, epoch, seq, payload).subrange(1, 13) == nonce_bytes(epoch, seq),
{
    lemma_u32_round_trip(epoch);
    lemma_u64_round_trip(seq);
    assert(tunnel_frame(typ, epoch, seq, payload).subrange(1, 13) =~= nonce_bytes(epoch, seq));
}

/// Reading the payload of an ACK gives the acknowledged number back.
pub proof fn ack_payload_round_trip(ack: u64)
    ensures
        be_bytes(ack as nat, 8).len() == 8,
        be_nat(be_bytes(ack as nat, 8).take(8)) == ack,
{
    lemma_u64_round_trip(ack);
    assert(be_bytes(ack as nat, 8).take(8) =~= be_bytes(ack as nat, 8));
}

/// A HELLO payload determines its key, salt and address.
pub proof fn hello_payload_is_injective(
    rk1: Seq<u8>,
    salt1: Seq<u8>,
    ip1: Seq<u8>,
    rk2: Seq<u8>,
    salt2: Seq<u8>,
    ip2: Seq<u8>,
)
    requires
        rk1.len() == 32 && rk2.len() == 32,
        salt1.len() == 12 && salt2.len() == 12,
        hello_payload(rk1, salt1, ip1) == hello_payload(rk2, salt2, ip2),
    ensures
        rk1 == rk2,
        salt1 == salt2,
        ip1 == ip2,
{
    let p1 = hello_payload(rk1, salt1, ip1);
    let p2 = hello_payload(rk2, salt2, ip2);
    assert(p1.subrange(0, 32) =~= rk1);
    assert(p2.subrange(0, 32) =~= rk2);
    assert(p1.subrange(32, 44) =~= salt1);
    assert(p2.subrange(32, 44) =~= salt2);
    assert(p1.skip(44) =~= ip1);
    assert(p2.skip(44) =~= ip2);
}

/// A packet goes to the destination in its header: the four bytes from the seventeenth in
/// one of the fourth version, the sixteen from the twenty-fifth in one of the sixth, whatever
/// stands before and behind them. Other packets have none.
pub proof fn a_packet_names_its_destination(head: Seq<u8>, dst: Seq<u8>, rest: Seq<u8>)
    requires
        head.len() > 0,
    ensures
        0x40 <= head[0] < 0x50 && head.len() == 16 && dst.len() == 4 ==> packet_destination(
            head + dst + rest,
        ) == Some(dst),
        0x60 <= head[0] < 0x70 && head.len() == 24 && dst.len() == 16 ==> packet_destination(
            head + dst + rest,
        ) == Some(dst),
        !(0x40 <= head[0] < 0x50) && !(0x60 <= head[0] < 0x70) ==> packet_destination(
            head + dst + rest,
        ) is None,
        head.len() < 20 ==> packet_destination(head) is None,
{
    let pkt = head + dst + rest;
    assert(pkt[0] == head[0]);
    if head.len() == 16 && dst.len() == 4 {
        assert(pkt.subrange(16, 20) =~= dst);
    }
    if head.len() == 24 && dst.len() == 16 {
        assert(pkt.subrange(24, 40) =~= dst);
    }
}

} // verus!
