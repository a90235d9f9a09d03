//! Answering questions for names.
use linkmesh::client::dns::{
    answer_name, ask_next, build_response, encode_name, parse_query, AskStep, DnsRegistry, DnsStep,
    Lookup, CACHE_TTL_MS,
};

fn sample_query(name: &str) -> Vec<u8> {
    let mut pkt = Vec::new();
    pkt.extend_from_slice(&0x1234u16.to_be_bytes());
    pkt.extend_from_slice(&0x0100u16.to_be_bytes());
    pkt.extend_from_slice(&1u16.to_be_bytes());
    pkt.extend_from_slice(&0u16.to_be_bytes());
    pkt.extend_from_slice(&0u16.to_be_bytes());
    pkt.extend_from_slice(&0u16.to_be_bytes());
    for label in name.split('.').filter(|l| !l.is_empty()) {
        pkt.push(label.len() as u8);
        pkt.extend_from_slice(label.as_bytes());
    }
    pkt.push(0);
    pkt.extend_from_slice(&1u16.to_be_bytes());
    pkt.extend_from_slice(&1u16.to_be_bytes());
    pkt
}

/// Resolves a name as the service does: from the cache, else by the registered
/// resolvers, one after the other.
fn resolve(reg: &mut DnsRegistry, name: &str, ask: fn(u64, &str) -> Option<String>) -> Option<String> {
    match reg.lookup(name, 0) {
        Lookup::Nothing => None,
        Lookup::Known(ip) => Some(ip),
        Lookup::Ask { key, resolvers } => {
            let (mut asked, mut last) = (0, None);
            loop {
                match ask_next(&resolvers, asked, last) {
                    AskStep::Ask(id) => {
                        last = ask(id, &key);
                        asked += 1;
                    }
                    AskStep::Done(found) => {
                        if let Some(ip) = &found {
                            reg.store(key, ip, 0);
                        }
                        return found;
                    }
                }
            }
        }
    }
}

fn handle_query(reg: &DnsRegistry, pkt: &[u8]) -> Option<Vec<u8>> {
    match reg.begin_query(pkt, 0) {
        DnsStep::Ignore => None,
        DnsStep::Answer(a) => Some(a),
        DnsStep::Ask { txid, name, .. } => Some(answer_name(txid, &name, None)),
    }
}

fn computer_only(_id: u64, name: &str) -> Option<String> {
    if name == "computer" {
        Some("10.13.13.5".to_string())
    } else {
        None
    }
}

#[test]
fn parse_query_basic() {
    let (txid, name, qtype) = parse_query(&sample_query("computer.")).unwrap();
    assert_eq!(txid, 0x1234);
    assert_eq!(name, "computer");
    assert_eq!(qtype, 1);
    let (_, name2, _) = parse_query(&sample_query("nas.office.local.")).unwrap();
    assert_eq!(name2, "nas.office.local");
}

#[test]
fn parse_query_rejects_garbage() {
    assert!(parse_query(&[0u8; 3]).is_none());
    assert!(parse_query(&[0u8; 12]).is_none());
    let mut resp = sample_query("x.");
    resp[2] = 0x81;
    assert!(parse_query(&resp).is_none());
}

#[test]
fn build_response_roundtrip() {
    let q = sample_query("computer.");
    let (txid, name, qtype) = parse_query(&q).unwrap();
    let resp = build_response(txid, &name, qtype, Some([10, 13, 13, 5]), false);
    assert_eq!(u16::from_be_bytes([resp[0], resp[1]]), txid);
    assert_eq!(resp[3] & 0x80, 0x80, "QR 位必须为响应");
    assert_eq!(u16::from_be_bytes([resp[6], resp[7]]), 1);
    let tail = &resp[resp.len() - 4..];
    assert_eq!(tail, &[10, 13, 13, 5]);
    let nx = build_response(txid, &name, qtype, None, true);
    assert_eq!(nx[3] & 0x0F, 3, "rcode 应为 NXDOMAIN(3)");
    assert_eq!(u16::from_be_bytes([nx[6], nx[7]]), 0);
}

#[test]
fn registry_resolves_from_registered_resolver() {
    let mut reg = DnsRegistry::new();
    reg.insert("nas", "10.13.13.9", 0);
    assert_eq!(resolve(&mut reg, "nas", |_, _| None).as_deref(), Some("10.13.13.9"));
    let id = reg.register();
    assert_eq!(resolve(&mut reg, "computer", computer_only).as_deref(), Some("10.13.13.5"));
    reg.unregister(id);
    assert_eq!(resolve(&mut reg, "computer", computer_only).as_deref(), Some("10.13.13.5"));
    assert_eq!(resolve(&mut reg, "another-new-name", computer_only), None);
    assert_eq!(resolve(&mut reg, "NAS", computer_only).as_deref(), Some("10.13.13.9"));
}

#[test]
fn handle_query_end_to_end() {
    let mut reg = DnsRegistry::new();
    reg.insert("computer", "10.13.13.5", 0);
    let q = sample_query("computer.");
    let resp = handle_query(&reg, &q).unwrap();
    assert_eq!(resp[3] & 0x80, 0x80);
    assert_eq!(&resp[resp.len() - 4..], &[10, 13, 13, 5]);
    let q2 = sample_query("ghost.");
    let resp2 = handle_query(&reg, &q2).unwrap();
    assert_eq!(resp2[3] & 0x0F, 3);
    let mut q3 = sample_query("computer.");
    let n = q3.len();
    q3[n - 4] = 0;
    q3[n - 3] = 28;
    let resp3 = handle_query(&reg, &q3).unwrap();
    assert_eq!(resp3[3] & 0x0F, 0);
    assert_eq!(u16::from_be_bytes([resp3[6], resp3[7]]), 0);
}

#[test]
fn cached_names_expire() {
    let mut reg = DnsRegistry::new();
    reg.insert("nas", "10.13.13.9", 1000);
    assert!(matches!(reg.lookup("nas", 1000 + CACHE_TTL_MS - 1), Lookup::Known(_)));
    assert!(!matches!(reg.lookup("nas", 1000 + CACHE_TTL_MS), Lookup::Known(_)));
    reg.insert("b", "10.13.13.1", 1000);
    let names = reg.cached_names();
    assert_eq!(names.len(), 2);
    assert_eq!(names.name_at(0), "b");
    assert_eq!(names.ip_at(1), "10.13.13.9");
}

#[test]
fn resolvers_are_asked_in_order() {
    let ids = vec![7, 3, 9];
    assert!(matches!(ask_next(&ids, 0, None), AskStep::Ask(7)));
    assert!(matches!(ask_next(&ids, 1, None), AskStep::Ask(3)));
    match ask_next(&ids, 2, Some("10.0.0.1".into())) {
        AskStep::Done(Some(ip)) => assert_eq!(ip, "10.0.0.1"),
        _ => panic!("the first answer counts"),
    }
    assert!(matches!(ask_next(&ids, 3, None), AskStep::Done(None)));
    let mut reg = DnsRegistry::new();
    assert!(reg.can_register());
    let first = reg.register();
    reg.register();
    // The second resolver knows the name, and is asked once only.
    fn second(id: u64, _name: &str) -> Option<String> {
        if id == 2 {
            Some("10.13.13.8".to_string())
        } else {
            None
        }
    }
    assert_eq!(first, 1);
    assert_eq!(resolve(&mut reg, "Box", second).as_deref(), Some("10.13.13.8"));
    assert_eq!(resolve(&mut reg, " bOX ", |_, _| None).as_deref(), Some("10.13.13.8"));
}

#[test]
fn own_names_win() {
    let mut reg = DnsRegistry::new();
    reg.set_local("NAS", "10.13.13.1");
    reg.set_local("bad", "no address");
    reg.insert("nas", "10.13.13.99", 5);
    match reg.lookup("nas", 10_000_000) {
        Lookup::Known(ip) => assert_eq!(ip, "10.13.13.1"),
        _ => panic!("the name is the client's own"),
    }
    assert!(!matches!(reg.lookup("bad", 0), Lookup::Known(_)));
    let names = reg.cached_names();
    assert_eq!((names.len(), names.ip_at(0).as_str()), (1, "10.13.13.1"));
    reg.forget_local();
    assert_eq!(reg.cached_names().ip_at(0), "10.13.13.99");
}

#[test]
fn an_address_is_never_nxdomain() {
    let resp = build_response(1, "a", 1, Some([10, 13, 13, 5]), true);
    assert_eq!(resp[3] & 0x0F, 0);
    assert_eq!(u16::from_be_bytes([resp[6], resp[7]]), 1);
    assert_eq!(build_response(1, "a", 1, None, true)[3] & 0x0F, 3);
    assert_eq!(build_response(1, "a", 1, None, false)[3] & 0x0F, 0);
}

#[test]
fn a_response_is_no_question() {
    let resp = build_response(7, "computer", 1, Some([10, 0, 0, 1]), false);
    assert!(parse_query(&resp).is_none());
    let mut name = Vec::new();
    encode_name(&mut name, "nas.local");
    assert_eq!(name, b"\x03nas\x05local\x00");
}

#[test]
fn labels_that_are_no_utf8_are_repaired() {
    let mut q = sample_query("ab.");
    q[13] = 0xff;
    let (_, name, _) = parse_query(&q).unwrap();
    assert_eq!(name, "\u{fffd}b");
}
