//! Tunnel frames and the reliable data plane.
use std::collections::BTreeMap;

use linkmesh::client::reliable::{reorder_deliver, RELIABLE_WINDOW};
use linkmesh::client::tunnel::{
    ack_payload, data_nonce, extract_dst_ip, frame_hello_payload, frame_rekey_payload,
    frame_tunnel_packet, parse_ack_payload, parse_tunnel_packet, split_handshake, TUNNEL_ACK,
    TUNNEL_DATA, TUNNEL_HELLO,
};
use linkmesh::net::IpAddress;

#[test]
fn frame_roundtrip() {
    let f = frame_tunnel_packet(TUNNEL_DATA, 3, 42, b"ip-packet");
    let (t, e, s, p) = parse_tunnel_packet(&f).unwrap();
    assert_eq!((t, e, s), (TUNNEL_DATA, 3, 42));
    assert_eq!(p, b"ip-packet");
}

#[test]
fn frame_too_short_rejected() {
    assert!(parse_tunnel_packet(&[]).is_none());
    assert!(parse_tunnel_packet(&[TUNNEL_DATA, 0, 0, 0]).is_none());
}

#[test]
fn data_nonce_layout() {
    let n = data_nonce(1, 7);
    assert_eq!(&n[..4], &1u32.to_be_bytes());
    assert_eq!(&n[4..], &7u64.to_be_bytes());
    assert_ne!(data_nonce(1, 7), data_nonce(2, 7));
    assert_ne!(data_nonce(1, 7), data_nonce(1, 8));
}

#[test]
fn hello_payload_layout() {
    let rk = [9u8; 32];
    let salt = [1u8; 12];
    let ip = b"10.13.13.2";
    let p = frame_hello_payload(&rk, &salt, ip);
    assert_eq!(&p[..32], &rk);
    assert_eq!(&p[32..44], &salt);
    assert_eq!(&p[44..], ip);
}

#[test]
fn frame_bytes_are_exact() {
    let f = frame_tunnel_packet(TUNNEL_HELLO, 0x01020304, 0x05060708090a0b0c, &[0xff]);
    assert_eq!(f, vec![1, 1, 2, 3, 4, 5, 6, 7, 8, 9, 10, 11, 12, 0xff]);
    // The nonce of a data frame stands in its header.
    assert_eq!(&f[1..13], &data_nonce(0x01020304, 0x05060708090a0b0c));
}

#[test]
fn a_frame_may_be_empty() {
    let f = frame_tunnel_packet(TUNNEL_ACK, 0, 0, &[]);
    assert_eq!(f.len(), 13);
    let (t, e, s, p) = parse_tunnel_packet(&f).unwrap();
    assert_eq!((t, e, s), (TUNNEL_ACK, 0, 0));
    assert!(p.is_empty());
}

#[test]
fn acknowledgements_round_trip() {
    assert_eq!(ack_payload(258), vec![0, 0, 0, 0, 0, 0, 1, 2]);
    assert_eq!(parse_ack_payload(&ack_payload(u64::MAX)), Some(u64::MAX));
    assert_eq!(parse_ack_payload(&[0; 7]), None);
}

#[test]
fn handshakes_are_split() {
    let rekey = frame_rekey_payload(&[3u8; 32], &[4u8; 12]);
    assert_eq!(rekey.len(), 44);
    let (rk, salt, rest) = split_handshake(&rekey).unwrap();
    assert_eq!(rk, [3u8; 32]);
    assert_eq!(salt, [4u8; 12]);
    assert!(rest.is_empty());
    assert!(split_handshake(&rekey[..43]).is_none());
    let hello = frame_hello_payload(&[3u8; 32], &[4u8; 12], b"10.0.0.9");
    assert_eq!(split_handshake(&hello).unwrap().2, b"10.0.0.9");
}

#[test]
fn destinations_are_read() {
    let mut v4 = vec![0u8; 20];
    v4[0] = 0x45;
    v4[16..20].copy_from_slice(&[10, 13, 13, 7]);
    assert!(matches!(extract_dst_ip(&v4), Some(IpAddress::V4([10, 13, 13, 7]))));
    let mut v6 = vec![0u8; 40];
    v6[0] = 0x60;
    v6[39] = 1;
    match extract_dst_ip(&v6) {
        Some(IpAddress::V6(a)) => assert_eq!(a[15], 1),
        _ => panic!("an IPv6 packet has an IPv6 destination"),
    }
    assert!(extract_dst_ip(&[]).is_none());
    assert!(extract_dst_ip(&[0x50; 40]).is_none());
}

#[test]
fn reorder_deliver_buffers_then_flushes_in_order() {
    let mut buf = BTreeMap::new();
    let (d, high) = reorder_deliver(0, &mut buf, 1, b"p1");
    assert_eq!(d, vec![b"p1".to_vec()]);
    assert_eq!(high, 1);
    let (d, high) = reorder_deliver(1, &mut buf, 3, b"p3");
    assert!(d.is_empty());
    assert_eq!(high, 1);
    let (d, high) = reorder_deliver(1, &mut buf, 4, b"p4");
    assert!(d.is_empty());
    assert_eq!(high, 1);
    assert_eq!(buf.len(), 2);
    let (d, high) = reorder_deliver(1, &mut buf, 2, b"p2");
    assert_eq!(d, vec![b"p2".to_vec(), b"p3".to_vec(), b"p4".to_vec()]);
    assert_eq!(high, 4);
    assert!(buf.is_empty());
}

#[test]
fn reorder_deliver_dedups_replay() {
    let mut buf = BTreeMap::new();
    let (_, high) = reorder_deliver(0, &mut buf, 1, b"p1");
    assert_eq!(high, 1);
    let (d, high) = reorder_deliver(1, &mut buf, 1, b"p1-replay");
    assert!(d.is_empty());
    assert_eq!(high, 1);
    assert!(buf.is_empty());
}

#[test]
fn reorder_deliver_caps_buffer() {
    let mut buf = BTreeMap::new();
    for seq in 2..=(1 + RELIABLE_WINDOW as u64 + 5) {
        let (_, high) = reorder_deliver(0, &mut buf, seq, b"x");
        assert_eq!(high, 0);
    }
    assert!(buf.len() <= RELIABLE_WINDOW);
    let first = *buf.keys().next().unwrap();
    assert!(first > 1, "最老的乱序包应被丢弃");
}
