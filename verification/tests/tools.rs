//! The log, the control channel, the command line, the help and the measuring tools.
use linkmesh::bench::{
    answer_probe, arg_flag, arg_val, build_ipv4_packet, build_probe, build_reply, drain_ms,
    fault_copies, fault_frame, fault_pause_us, frames_in, keep_sample, next_client, next_fault,
    other_party, pace_ms, parse_ip, parse_ipv4, parse_reply, printable, relay_payload,
    relay_target, sends, take_sample, tally, v_ip, Sample,
};
use linkmesh::cli::{parse_args, run_args, Program};
use linkmesh::client::aliases::Aliases;
use linkmesh::client::control::{
    cache_reply, read_request, resolve_reply, start_reply, stopped, CtrlCommand, CtrlRequest,
};
use linkmesh::control::{authorized, constant_time_eq, reply_result, token_to_send};
use linkmesh::help::help_lines;
use linkmesh::log::{escape_log, follow, split_lines, tail, Logger, TailStep, Watch};
use linkmesh::net::{ipv4_text, same_endpoint, Endpoint, IpAddress};
use linkmesh::outside::{hex_encode, random_bytes, random_hex, random_salt, random_token};
use linkmesh::protocol::MsgKind;
use linkmesh::text::{decimal_text, lowercase, parse_number, split_on, trim, uppercase};

fn words(v: &[&str]) -> Vec<String> {
    v.iter().map(|s| s.to_string()).collect()
}

#[test]
fn log_lines_hold_no_controls() {
    assert_eq!(escape_log("a\nb\r\t\u{1b}[0m\u{7f}\u{85}é"), "a\\nb\\r\\t\\x1b[0m\\x7f\\x85é");
    assert_eq!(escape_log("plain 文本"), "plain 文本");
    let log = Logger::new("client.log".into());
    assert_eq!(log.path, "client.log");
    assert_eq!(log.info(7, "a\nb"), "[7] [INFO] a\\nb\n");
    assert_eq!(log.warn(7, "x"), "[7] [WARN] x\n");
    assert_eq!(log.debug(7, "x"), "[7] [DEBUG] x\n");
    assert_eq!(log.error(70, "x"), "[70] [ERROR] x\n");
}

#[test]
fn the_end_of_a_log_is_shown() {
    let text = "one\r\ntwo\n\nfour\r";
    let std_lines: Vec<String> = text.lines().map(|s| s.to_string()).collect();
    assert_eq!(split_lines(text), std_lines);
    assert_eq!(split_lines(""), Vec::<String>::new());
    assert_eq!(split_lines("\n"), vec![""]);
    assert_eq!(tail_of(text.as_bytes(), 2), vec!["", "four\r"]);
    assert_eq!(tail_of(text.as_bytes(), 9).len(), 4);
    assert_eq!(tail_of(b"\xffz\n", 1), vec!["\u{fffd}z"]);
    assert!(tail_of(text.as_bytes(), 0).is_empty());
    assert!(tail_of(b"", 3).is_empty());
    assert!(follow(5, 6) == Watch::Show);
    assert!(follow(5, 4) == Watch::Rewind);
    assert!(follow(5, 5) == Watch::Wait);
}

/// Reads the end of a file as the program does, in larger and larger steps.
fn tail_of(file: &[u8], n: usize) -> Vec<String> {
    let mut end: &[u8] = &[];
    loop {
        match tail(end, file.len() as u64, n) {
            TailStep::Show(v) => return v,
            TailStep::Read(more) => {
                assert!(more as usize > end.len());
                end = &file[file.len() - more as usize..];
            }
        }
    }
}

#[test]
fn long_lines_are_shown_whole() {
    let long: Vec<String> = (0..5).map(|i| format!("{i}{}", "长é".repeat(30_000))).collect();
    let mut file = "first\n".to_string();
    for l in &long {
        file.push_str(l);
        file.push('\n');
    }
    assert!(file.len() > 5 * 65536);
    for n in 0..6 {
        assert_eq!(tail_of(file.as_bytes(), n), long[5 - n..].to_vec());
    }
    assert_eq!(tail_of(file.as_bytes(), 6)[0], "first");
    assert_eq!(tail_of(file.as_bytes(), 60).len(), 6);
    match tail(&[], 70_000, 1) {
        TailStep::Read(more) => assert_eq!(more, 65536),
        TailStep::Show(_) => panic!("nothing was read yet"),
    }
    match tail(&vec![b'x'; 65536], 70_000, 1) {
        TailStep::Read(more) => assert_eq!(more, 70_000),
        TailStep::Show(_) => panic!("no whole line was read yet"),
    }
}

#[test]
fn malformed_frames_are_chosen() {
    let (s1, kind) = next_fault(0x9E3779B97F4A7C15);
    let expected = 0x9E3779B97F4A7C15u64
        .wrapping_mul(6364136223846793005)
        .wrapping_add(1442695040888963407);
    assert_eq!(s1, expected);
    assert_eq!(kind as u64, (expected >> 33) % 6);
    let mut seen = [0u32; 6];
    let mut state = s1;
    let mut most = 0;
    for _ in 0..500 {
        let (next, kind) = next_fault(state);
        let (after, copies) = fault_copies(next);
        assert!(copies == 1 || copies == 2 || copies == 21 || copies == 22);
        seen[kind as usize] += 1;
        most = most.max(copies);
        state = after;
    }
    assert!(seen.iter().all(|n| *n > 0));
    assert!(most > 20);
    assert_eq!(fault_frame(0, 36, 68), vec![0u8; 64]);
    assert_eq!(fault_frame(1, 36, 68), vec![0x4c, 0x4d, 1]);
    assert_eq!(fault_frame(2, 36, 68), vec![0xde, 0xad, 0xbe, 0xef]);
    assert_eq!(fault_frame(3, 36, 68), vec![0x4c, 0x4d, 1, 6]);
    let mut fake = vec![0x41, 0x42];
    fake.resize(168, 0x11);
    assert_eq!(fault_frame(4, 36, 68), fake);
    let mut batch = vec![0x4c, 0x4d, 1, 0x0a];
    batch.resize(76, 0x33);
    batch[36] = 0xff;
    batch[37] = 0xff;
    assert_eq!(fault_frame(5, 36, 68), batch);
    assert_eq!(fault_pause_us(0), 1_000_000);
    assert_eq!(fault_pause_us(500), 2000);
    assert_eq!(fault_pause_us(5_000_000), 1);
}

#[test]
fn relay_tests_are_laid_out() {
    assert!(sends(0) && !sends(1));
    assert_eq!(relay_target(5, 3), 2);
    assert_eq!(relay_payload(252), 1);
    assert_eq!(frames_in(MsgKind::Relay, Some(1)), 1);
    assert_eq!(frames_in(MsgKind::RelayBatch, Some(4)), 4);
    assert_eq!(frames_in(MsgKind::RelayBatch, None), 0);
    assert_eq!(frames_in(MsgKind::Other, Some(1)), 0);
    assert_eq!(other_party(&[1; 32], &[2; 32], &[1; 32]), [2; 32]);
    assert_eq!(other_party(&[2; 32], &[2; 32], &[1; 32]), [1; 32]);
    assert_eq!(printable(b"a b\n\xff~"), "a b..~");
}

#[test]
fn tokens_are_compared() {
    assert!(constant_time_eq(b"abc", b"abc"));
    assert!(!constant_time_eq(b"abc", b"abd"));
    assert!(!constant_time_eq(b"abc", b"ab"));
    assert!(authorized(&None, "anything"));
    assert!(authorized(&Some("t".into()), "t"));
    assert!(!authorized(&Some("t".into()), ""));
    assert!(authorized(&Some(String::new()), "anything"));
    assert_eq!(token_to_send(Some("")), None);
    assert_eq!(token_to_send(Some("t")).as_deref(), Some("t"));
    assert!(reply_result(Some(true), Some("x")).is_ok());
    assert_eq!(reply_result(Some(false), Some("x")).unwrap_err(), "x");
    assert_eq!(reply_result(None, None).unwrap_err(), "未知错误");
}

#[test]
fn client_control_replies() {
    let req = |cmd: &str, token: &str| CtrlRequest {
        cmd: cmd.to_string(),
        token: token.to_string(),
        server: "s".into(),
        name: "n".into(),
    };
    let token = Some("secret".to_string());
    assert_eq!(read_request(&token, &req("stop", "")).unwrap_err(), "鉴权失败：token 不匹配");
    match read_request(&token, &req("start", "secret")).unwrap() {
        CtrlCommand::Start(s) => assert_eq!(s, "s"),
        _ => panic!("start is start"),
    }
    assert_eq!(read_request(&None, &req("dance", "")).unwrap_err(), "未知命令 dance");
    assert_eq!(stopped(), "客户端守护进程已停止");
    assert_eq!(start_reply("s", Ok(())).unwrap(), "已启动连接 s");
    assert_eq!(start_reply("s", Err("no".into())).unwrap_err(), "no");
    assert_eq!(resolve_reply("n", true, Some("10.0.0.1".into())).unwrap(), "10.0.0.1");
    assert!(resolve_reply("n", true, None).unwrap_err().contains("别名 n 未解析到任何设备"));
    assert!(resolve_reply("n", false, None).unwrap_err().contains("未启用"));
    assert!(cache_reply(true, Aliases::new()).is_ok());
    assert_eq!(cache_reply(false, Aliases::new()).unwrap_err(), "内嵌 DNS 未启用");
}

#[test]
fn command_lines_are_read() {
    let a = parse_args(Program::Client, &words(&["--join", "s", "n", "--code", "LMJ-1", "-y"])).unwrap();
    assert_eq!(a.command.as_deref(), Some("join"));
    assert_eq!(a.positionals, words(&["s", "n"]));
    assert_eq!(a.code.as_deref(), Some("LMJ-1"));
    assert_eq!(a.trust, Some(true));
    assert_eq!(a.config_path, "client.json");
    let b = parse_args(Program::Server, &words(&["--config", "x.json", "--quiet", "--crl"])).unwrap();
    assert_eq!(b.config_path, "x.json");
    assert!(b.quiet);
    assert_eq!(b.command.as_deref(), Some("crl"));
    assert_eq!(run_args(true, "c"), words(&["--run", "--config", "c"]));
    assert_eq!(
        run_args(false, "c"),
        words(&["--log", "-1", "--follow", "--run", "--config", "c"])
    );
    for program in [Program::Client, Program::Server] {
        for detail in [false, true] {
            let a = parse_args(program, &run_args(detail, "c")).unwrap();
            assert_eq!(a.command.as_deref(), Some("run"));
            assert_eq!((a.config_path.as_str(), a.follow), ("c", !detail));
        }
    }
}

#[test]
fn help_is_given() {
    assert_eq!(
        help_lines(Program::Client, "1.0", Some("stop")),
        words(&["--stop：停止客户端守护进程并清理 connections[]"])
    );
    assert_eq!(help_lines(Program::Server, "1.0", Some("stop")), words(&["--stop：停止信令服务"]));
    assert_eq!(help_lines(Program::Server, "1.0", Some("fly")), words(&["未知命令 fly"]));
    let all = help_lines(Program::Client, "1.0", None);
    assert_eq!(all.len(), 5 + 19 + 2);
    assert_eq!(all[0], "linkmesh-client 1.0 — NAT 穿透客户端（UDP 打洞 → 中继）");
    assert_eq!(help_lines(Program::Server, "1.0", None).len(), 4 + 22 + 2);
}

#[test]
fn probes_come_back() {
    let p = build_probe(0x0102, 24, 5);
    assert_eq!(p.len(), 24);
    assert_eq!(&p[..4], b"LMB1");
    assert_eq!(&p[20..22], &[0, 2]);
    // 2 * 31 + 7
    assert_eq!(&p[22..], &[69, 69]);
    assert_eq!(build_probe(1, 3, 5).len(), 22);
    let r = build_reply(&p, 9).unwrap();
    assert_eq!(&r[..4], b"LMBR");
    assert_eq!(r.len(), 32);
    assert_eq!(r[31], 69);
    assert_eq!(parse_reply(&r), Some((0x0102, 5, 9)));
    assert!(build_reply(&r, 9).is_none());
    assert!(parse_reply(&p).is_none());

    let pkt = build_ipv4_packet([10, 0, 0, 1], [10, 0, 0, 2], &p);
    assert_eq!(&pkt[..4], &[0x45, 0, 0, 44]);
    let (src, dst, payload) = parse_ip(&pkt).unwrap();
    assert_eq!((src, dst), ([10, 0, 0, 1], [10, 0, 0, 2]));
    assert_eq!(payload, p);
    assert!(parse_ip(&pkt[..19]).is_none());

    let seen = answer_probe(&pkt, [10, 0, 0, 2], 9).unwrap();
    assert_eq!((seen.seq, seen.size, seen.src), (0x0102, 24, [10, 0, 0, 1]));
    let sample = take_sample(&seen.answer, 15).unwrap();
    assert_eq!((sample.seq, sample.rtt_ms, sample.recv_ms, sample.size), (0x0102, 10, 9, 32));
    assert!(take_sample(&pkt, 15).is_none());
    assert!(answer_probe(&seen.answer, [10, 0, 0, 2], 9).is_none());
}

#[test]
fn samples_are_kept_in_order() {
    let sample = |seq: u64, send_ms: u64| Sample { seq, send_ms, recv_ms: 0, rtt_ms: 0, size: 0 };
    let mut v = Vec::new();
    keep_sample(&mut v, sample(2, 0));
    keep_sample(&mut v, sample(1, 1));
    keep_sample(&mut v, sample(2, 2));
    let got: Vec<(u64, u64)> = v.iter().map(|s| (s.seq, s.send_ms)).collect();
    assert_eq!(got, vec![(1, 1), (2, 0), (2, 2)]);
    assert_eq!(tally(10, 7), (7, 3));
    assert_eq!(tally(10, 12), (10, 0));
    assert_eq!(drain_ms(20), 505);
    assert_eq!(drain_ms(1_000_000), 4000);
}

#[test]
fn load_is_paced() {
    assert_eq!(pace_ms(0), 1000);
    assert_eq!(pace_ms(3), 333);
    assert_eq!(pace_ms(5000), 1);
    assert_eq!(v_ip(65536 + 256 * 2 + 3), [10, 1, 2, 3]);
    assert_eq!(next_client(2, 3), 0);
    assert_eq!(next_client(0, 3), 1);
    assert_eq!(arg_val(&words(&["--size", "5"]), "--size", "1"), "5");
    assert_eq!(arg_val(&words(&["--size"]), "--size", "1"), "1");
    assert_eq!(arg_val(&words(&[]), "--size", "1"), "1");
    assert!(arg_flag(&words(&["--quiet"]), "--quiet"));
    assert!(!arg_flag(&words(&[]), "--quiet"));
    assert_eq!(parse_ipv4("10.013.+1.255"), Some([10, 13, 1, 255]));
    assert_eq!(parse_ipv4("10.13.1"), None);
    assert_eq!(parse_ipv4("10.13.1.256"), None);
}

#[test]
fn addresses_are_written_and_read() {
    assert_eq!(ipv4_text(&[10, 0, 200, 1]), "10.0.200.1");
    assert_eq!(linkmesh::net::parse_ipv4("10.0.200.1"), Some([10, 0, 200, 1]));
    assert_eq!(linkmesh::net::parse_ipv4("10.0.200.01"), None);
    let a = Endpoint { ip: IpAddress::V4([1, 2, 3, 4]), port: 5, scope: 0 };
    let b = Endpoint { ip: IpAddress::V4([1, 2, 3, 4]), port: 6, scope: 0 };
    assert!(same_endpoint(&a, &a));
    assert!(!same_endpoint(&a, &b));
}

#[test]
fn texts_are_handled() {
    assert_eq!(trim("\u{3000} a b\t\n"), "a b");
    assert_eq!(lowercase("ÄB"), "äb");
    assert_eq!(uppercase("straße"), "STRASSE");
    assert_eq!(decimal_text(1200), "1200");
    assert_eq!(parse_number("+007", 10), Some(7));
    assert_eq!(parse_number("11", 10), None);
    assert_eq!(parse_number("", 10), None);
    assert_eq!(parse_number("-1", 10), None);
    assert_eq!(split_on("a..b", '.'), words(&["a", "", "b"]));
}

#[test]
fn random_values_differ() {
    assert_eq!(random_bytes(5).len(), 5);
    assert_ne!(random_bytes(32), random_bytes(32));
    assert_ne!(random_salt(), random_salt());
    assert_eq!(random_hex(16).len(), 32);
    assert_eq!(random_token().len(), 44);
    assert_eq!(hex_encode(&[0, 255, 0x1a]), "00ff1a");
}
