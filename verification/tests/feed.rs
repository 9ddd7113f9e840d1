use rust_hft_software::base64::base64_encode;
use rust_hft_software::frame::{build_frame, parse_frame};
use rust_hft_software::handshake::{
    accept_key, body, decode_text, get_request, handshake_progress, handshake_request,
    history_path, http_body, judge_answer, status_line, subscription, Answer, Progress, WS_GUID,
};
use rust_hft_software::ingest::Ingestor;
use rust_hft_software::live::{
    burst_seq, gap_follows, history_start, next_frame, on_text, pause, ping_payload, Pager, Pause,
    Reaction, Session,
};
use rust_hft_software::packet::decode;
use rust_hft_software::sha1::sha1;
use rust_hft_software::text::{chars_of, find_subslice, float_text, parse_u64};
use rust_hft_software::trades::{
    frame_pair, parse_kraken_ts, parse_rest_trades, parse_trades, quoted_tokens, Trade,
};

const MASK: [u8; 4] = [0x37, 0xFA, 0x21, 0x3D];

fn hex(b: &[u8]) -> String {
    let mut s = String::new();
    for x in b {
        s.push_str(&format!("{:02x}", x));
    }
    s
}

fn number(t: &Trade) -> (f32, f32, u64) {
    let price: f32 = t.price.parse().unwrap();
    let vol: f32 = t.volume.parse().unwrap();
    (price, if t.sell { -vol } else { vol }, t.time_ns)
}

#[test]
fn sha1_known_vectors() {
    assert_eq!(hex(&sha1(b"abc")), "a9993e364706816aba3e25717850c26c9cd0d89d");
    assert_eq!(hex(&sha1(b"")), "da39a3ee5e6b4b0d3255bfef95601890afd80709");
}

#[test]
fn sha1_of_more_than_one_block() {
    let text = b"abcdbcdecdefdefgefghfghighijhijkijkljklmklmnlmnomnopnopq";
    assert_eq!(hex(&sha1(text)), "84983e441c3bd26ebaae4aa1f95129e5e54670f1");
    assert_eq!(hex(&sha1(&vec![b'a'; 1000])), "291e9a6c66994949b57ba5e650361e98fc36b1ba");
}

#[test]
fn base64_known_vectors() {
    assert_eq!(base64_encode(b"abc"), "YWJj");
    assert_eq!(base64_encode(b"ab"), "YWI=");
    assert_eq!(base64_encode(b"a"), "YQ==");
}

#[test]
fn base64_uses_all_symbols() {
    assert_eq!(base64_encode(b""), "");
    assert_eq!(base64_encode(&[0xFB, 0xFF, 0xBF]), "+/+/");
    assert_eq!(base64_encode(b"foobar"), "Zm9vYmFy");
}

#[test]
fn websocket_accept_rfc_example() {
    let key = "dGhlIHNhbXBsZSBub25jZQ==";
    let accept = base64_encode(&sha1(format!("{key}{WS_GUID}").as_bytes()));
    assert_eq!(accept, "s3pPLMBiTxaQ9kYGzzhZRbK+xOo=");
    assert_eq!(accept_key(key), "s3pPLMBiTxaQ9kYGzzhZRbK+xOo=");
}

#[test]
fn frame_roundtrip() {
    let frame = build_frame(0x1, b"hello", MASK);
    let (opcode, payload, consumed) = parse_frame(&frame).expect("complete frame");
    assert_eq!(opcode, 0x1);
    assert_eq!(payload, b"hello");
    assert_eq!(consumed, frame.len());
}

#[test]
fn frame_incomplete_returns_none() {
    let frame = build_frame(0x1, b"hello world", MASK);
    assert!(parse_frame(&frame[..4]).is_none());
}

#[test]
fn frame_bytes_of_rfc_example() {
    let frame = build_frame(0x1, b"Hello", MASK);
    assert_eq!(
        frame,
        vec![0x81, 0x85, 0x37, 0xfa, 0x21, 0x3d, 0x7f, 0x9f, 0x4d, 0x51, 0x58]
    );
    let unmasked = [0x81, 0x05, 0x48, 0x65, 0x6c, 0x6c, 0x6f];
    assert_eq!(parse_frame(&unmasked), Some((1, b"Hello".to_vec(), 7)));
}

#[test]
fn frame_lengths_use_all_three_forms() {
    for n in [0usize, 125, 126, 127, 65535, 65536, 70000] {
        let payload = vec![0x5Au8; n];
        let mut frame = build_frame(0x2, &payload, MASK);
        let head = if n < 126 { 6 } else if n <= 65535 { 8 } else { 14 };
        assert_eq!(frame.len(), head + n);
        frame.extend_from_slice(b"rest");
        let (opcode, got, consumed) = parse_frame(&frame).unwrap();
        assert_eq!(opcode, 2);
        assert_eq!(got, payload);
        assert_eq!(consumed, head + n);
        assert!(parse_frame(&frame[..head + n - 1]).is_none() || n == 0);
    }
}

#[test]
fn frame_with_huge_length_waits() {
    let mut frame = vec![0x82, 127];
    frame.extend_from_slice(&u64::MAX.to_be_bytes());
    frame.extend_from_slice(&[0; 100]);
    assert!(parse_frame(&frame).is_none());
}

#[test]
fn frames_are_taken_out_of_a_stream() {
    let mut acc = build_frame(0x1, b"one", MASK);
    acc.extend_from_slice(&build_frame(0x9, b"two", MASK));
    acc.extend_from_slice(&build_frame(0x1, b"three", MASK)[..5]);
    assert_eq!(next_frame(&mut acc), Some((1, b"one".to_vec())));
    assert_eq!(next_frame(&mut acc), Some((9, b"two".to_vec())));
    assert_eq!(next_frame(&mut acc), None);
    assert_eq!(acc.len(), 5);
}

#[test]
fn parse_kraken_timestamp() {
    assert_eq!(parse_kraken_ts("1534614057.321597"), Some(1_534_614_057_321_597_000));
    assert_eq!(parse_kraken_ts("1700000000"), Some(1_700_000_000_000_000_000));
}

#[test]
fn timestamps_at_their_edges() {
    assert_eq!(parse_kraken_ts("1.5"), Some(1_500_000_000));
    assert_eq!(parse_kraken_ts("1.1234567899"), Some(1_123_456_789));
    assert_eq!(parse_kraken_ts("+7"), Some(7_000_000_000));
    assert_eq!(parse_kraken_ts("7."), Some(7_000_000_000));
    assert_eq!(parse_kraken_ts(""), None);
    assert_eq!(parse_kraken_ts(".5"), None);
    assert_eq!(parse_kraken_ts("1.2.3"), None);
    assert_eq!(parse_kraken_ts("1.x"), None);
    assert_eq!(parse_kraken_ts("1.12345678é"), None);
    assert_eq!(parse_kraken_ts("18446744073709551616"), None);
    let sec: u64 = 18446744073709551615;
    assert_eq!(
        parse_kraken_ts("18446744073709551615.25"),
        Some(sec.wrapping_mul(1_000_000_000).wrapping_add(250_000_000))
    );
}

#[test]
fn parse_trade_message() {
    let msg = r#"[337,[["5541.20000","0.15850568","1534614057.321597","s","l",""],["5541.30000","0.10000000","1534614057.400000","b","l",""]],"trade","XBT/USD"]"#;
    let found = parse_trades(msg);
    assert_eq!(found.len(), 2);
    let trades = vec![number(&found[0]), number(&found[1])];
    assert!((trades[0].0 - 5541.2).abs() < 0.01);
    assert!((trades[0].1 + 0.15850568).abs() < 1e-6);
    assert_eq!(trades[0].2, 1_534_614_057_321_597_000);
    assert!((trades[1].0 - 5541.3).abs() < 0.01);
    assert!((trades[1].1 - 0.10000000).abs() < 1e-6);
}

#[test]
fn non_trade_message_ignored() {
    assert!(parse_trades(r#"{"event":"heartbeat"}"#).is_empty());
    assert!(parse_trades(r#"{"event":"systemStatus","status":"online"}"#).is_empty());
}

#[test]
fn malformed_trades_are_left_out() {
    let msg = r#"[1,[["x","1","1.0","b"],["1","1","1.0"],["1","1","z","b"],["2.5","1e-3","3.0","sell"]],"trade","A/B"]"#;
    let found = parse_trades(msg);
    assert_eq!(found.len(), 1);
    assert_eq!(number(&found[0]), (2.5, -0.001, 3_000_000_000));
    assert!(parse_trades(r#"[1,"trade","A/B"]"#).is_empty());
}

#[test]
fn parse_rest_history() {
    let body = r#"{"error":[],"result":{"XXBTZUSD":[["96000.1","0.5",1700000000.5,"b","l","",1],["95999.0","0.2",1700000001.0,"s","m","",2]],"last":"1700000001000000000"}}"#;
    let (found, last) = parse_rest_trades(body);
    assert_eq!(found.len(), 2);
    let mut trades: Vec<(f32, f32, u64)> = Vec::new();
    for t in &found {
        let vol: f32 = t.volume.parse().unwrap();
        let time: f64 = t.time.parse().unwrap();
        let signed = if t.sell { -vol } else { vol };
        trades.push((t.price.parse().unwrap(), signed, (time * 1e9) as u64));
    }
    assert!((trades[0].0 - 96000.1).abs() < 0.1);
    assert!((trades[0].1 - 0.5).abs() < 1e-6);
    assert_eq!(trades[0].2, 1_700_000_000_500_000_000);
    assert!((trades[1].1 + 0.2).abs() < 1e-6);
    assert_eq!(last, "1700000001000000000");
}

#[test]
fn rest_page_without_trades_or_cursor() {
    let (found, last) = parse_rest_trades("{\"error\":[\"EGeneral\"]}");
    assert!(found.is_empty());
    assert_eq!(last, "");
    let (spaced, _) = parse_rest_trades("[[ \"1.5\" ,\t\"2\", 3 , \"s\"]]");
    assert_eq!(spaced.len(), 1);
    assert_eq!(spaced[0].price, "1.5");
    assert_eq!(spaced[0].time, "3");
    assert!(spaced[0].sell);
}

#[test]
fn quoted_tokens_and_escapes() {
    assert_eq!(quoted_tokens(r#"["a","b\"c",1,"\\"]"#), vec!["a", "b\"c", "\\"]);
    assert_eq!(quoted_tokens("\"open"), Vec::<String>::new());
    assert_eq!(quoted_tokens("\"end\\"), Vec::<String>::new());
}

#[test]
fn pair_of_a_trade_frame() {
    assert_eq!(
        frame_pair(r#"[1,[["1","2","3","s"]],"trade","XBT/USD"]"#),
        Some("XBT/USD".to_string())
    );
    assert_eq!(frame_pair(r#"{"event":"heartbeat"}"#), None);
    assert_eq!(frame_pair(r#"["x","trade"]"#), None);
    assert_eq!(frame_pair(r#"[1,[[]], "trade" , "A/B" ] "#), Some("A/B".to_string()));
    assert_eq!(frame_pair(r#"[1,[[]],"trade","A\"B"]"#), Some("A\"B".to_string()));
    assert_eq!(frame_pair(r#"[1,[[]],"trade",""]"#), Some(String::new()));
    for tail in [r#","A","B"]"#, r#","A""#, r#":"A"]"#, r#",A]"#, r#","A"x]"#, r#","A\"]"#, "]", ",]"] {
        assert_eq!(frame_pair(&format!("[1,[[]],\"trade\"{tail}")), None, "{}", tail);
    }
}

#[test]
fn messages_about_trades_are_no_trade_frames() {
    let status = r#"{"event":"subscriptionStatus","subscription":{"name":"trade"},"pair":"XBT/USD"}"#;
    assert_eq!(frame_pair(status), None);
    assert!(parse_trades(status).is_empty());
    let nested = r#"{"name":"trade","book":[["1","2","3.0","s"]]}"#;
    assert_eq!(frame_pair(nested), None);
    assert!(parse_trades(nested).is_empty());
    assert!(matches!(on_text(status, "pair", "XBT/USD"), Reaction::Ignore));
}

#[test]
fn float_text_agrees_with_the_parser() {
    let texts = [
        "1", "+1", "-1.5", "1.", ".5", ".", "", "+", "-", "1e5", "1E-5", "1e+5", "1e", "e5", "1e5.0",
        "inf", "-Infinity", "NaN", "+nan", "infinit", "1_000", " 1", "1 ", "0x10", "1..2", "1.2.3",
        "١", "12é", "--1", "1e--5", "00012.500", "1f", "nan1", "-.e1", "-.1e1", "5.e3",
    ];
    for t in texts {
        assert_eq!(float_text(&chars_of(t)), t.parse::<f32>().is_ok(), "{}", t);
        assert_eq!(float_text(&chars_of(t)), t.parse::<f64>().is_ok(), "{}", t);
    }
}

#[test]
fn unsigned_numbers_agree_with_the_parser() {
    let texts = [
        "0", "007", "+5", "++5", "+", "-0", "", "18446744073709551615", "18446744073709551616",
        "99999999999999999999999", "1 ", "1a", "٣",
    ];
    for t in texts {
        assert_eq!(parse_u64(&chars_of(t)), t.parse::<u64>().ok(), "{}", t);
    }
}

#[test]
fn subslices_are_found_at_their_first_place() {
    assert_eq!(find_subslice(b"aXbXb", b"Xb"), Some(1));
    assert_eq!(find_subslice(b"abc", b"abcd"), None);
    assert_eq!(find_subslice(b"", b"a"), None);
    assert_eq!(find_subslice(b"aab", b"ab"), Some(1));
}

#[test]
fn handshake_request_text() {
    assert_eq!(
        handshake_request("ws.kraken.com", "KEY="),
        "GET / HTTP/1.1\r\nHost: ws.kraken.com\r\nUpgrade: websocket\r\nConnection: Upgrade\r\n\
         Sec-WebSocket-Key: KEY=\r\nSec-WebSocket-Version: 13\r\nOrigin: https://ws.kraken.com\r\n\r\n"
    );
}

#[test]
fn handshake_is_followed_to_its_end() {
    let key = "dGhlIHNhbXBsZSBub25jZQ==";
    let head = "HTTP/1.1 101 Switching Protocols\r\nSEC-WebSocket-Accept: s3pPLMBiTxaQ9kYGzzhZRbK+xOo=";
    let mut buf = head.as_bytes().to_vec();
    assert!(matches!(handshake_progress(&buf, key), Progress::ReadMore));
    buf.extend_from_slice(b"\r\n\r\nframes");
    match handshake_progress(&buf, key) {
        Progress::Open { frames_at, proved } => {
            assert!(proved);
            assert_eq!(&buf[frames_at..], b"frames");
        }
        _ => panic!("not open"),
    }
    let middle = "HTTP/1.1 101 OK\r\nX: y\r\nsec-websocket-accept:s3pPLMBiTxaQ9kYGzzhZRbK+xOo=\r\nZ: w";
    assert_eq!(judge_answer(middle, key), Answer::Switched { proved: true });
    let wrong = b"HTTP/1.1 101 OK\r\nSec-WebSocket-Accept: nothing\r\n\r\n";
    assert!(matches!(
        handshake_progress(wrong, key),
        Progress::Open { frames_at: 50, proved: false }
    ));
}

#[test]
fn handshake_refusals() {
    match handshake_progress(b"HTTP/1.1 403 Forbidden\r\nX: 101 101\r\n\r\n", "k") {
        Progress::Refused { status } => assert_eq!(status, "HTTP/1.1 403 Forbidden"),
        _ => panic!("not refused"),
    }
    assert!(matches!(handshake_progress(&vec![b'x'; 16384], "k"), Progress::ReadMore));
    assert!(matches!(handshake_progress(&vec![b'x'; 16385], "k"), Progress::TooLarge));
    assert_eq!(judge_answer("HTTP/1.1 200 OK", "k"), Answer::Refused);
    assert_eq!(status_line("a\r\nb"), "a");
    assert_eq!(status_line(""), "");
}

#[test]
fn lossy_text_replaces_what_is_no_text() {
    assert_eq!(decode_text("grüße".as_bytes()), "grüße");
    assert_eq!(decode_text(&[0x61, 0xFF, 0x62]), "a\u{FFFD}b");
}

#[test]
fn history_requests() {
    assert_eq!(history_path("XBT/USD", 17), "/0/public/Trades?pair=XBTUSD&since=17");
    assert_eq!(
        get_request("/p", "h"),
        "GET /p HTTP/1.0\r\nHost: h\r\nUser-Agent: hft-engine\r\nAccept: */*\r\n\r\n"
    );
    assert_eq!(body("HTTP/1.0 200 OK\r\n\r\n{}\r\n\r\nx"), "{}\r\n\r\nx");
    assert_eq!(body("no header"), "no header");
    assert_eq!(http_body(b"H\r\n\r\n\xFFz"), "\u{FFFD}z");
}

#[test]
fn subscription_text() {
    assert_eq!(
        subscription("XBT/USD", "ETH/USD"),
        "{\"event\":\"subscribe\",\"pair\":[\"XBT/USD\",\"ETH/USD\"],\"subscription\":{\"name\":\"trade\"}}"
    );
}

#[test]
fn session_reacts_to_frames() {
    let mut s = Session::new();
    let msg = r#"[1,[["1","2","3","s"]],"trade","ETH/USD"]"#;
    match s.on_frame(0x1, msg.as_bytes().to_vec(), "XBT/USD", "ETH/USD", 0) {
        Reaction::Trades { id, trades } => {
            assert_eq!(id, 1);
            assert_eq!(trades.len(), 1);
        }
        _ => panic!("no trades"),
    }
    assert!(matches!(on_text(msg, "A", "B"), Reaction::Ignore));
    assert!(matches!(
        s.on_frame(0x1, b"{}".to_vec(), "XBT/USD", "ETH/USD", 0),
        Reaction::Ignore
    ));
    match s.on_frame(0x9, b"probe".to_vec(), "A", "B", 0) {
        Reaction::Pong { payload } => assert_eq!(payload, b"probe"),
        _ => panic!("no pong"),
    }
    assert!(matches!(s.on_frame(0x8, vec![], "A", "B", 0), Reaction::Closed));
    assert!(matches!(s.on_frame(0x2, vec![], "A", "B", 0), Reaction::Ignore));
    assert!(matches!(s.on_frame(0xA, ping_payload(1_000), "A", "B", 61_000), Reaction::Ignore));
    assert_eq!(s.transit_est_ns, 30_000);
    s.on_frame(0xA, b"short".to_vec(), "A", "B", 99);
    assert_eq!(s.transit_est_ns, 30_000);
    s.on_frame(0xA, ping_payload(100), "A", "B", 50);
    assert_eq!(s.transit_est_ns, 0);
}

#[test]
fn session_numbers_its_packets() {
    let mut s = Session::new();
    s.transit_est_ns = 7;
    let first = s.packet(0, 100.0f32.to_bits(), 2.0f32.to_bits(), true, 5);
    let other = s.packet(1, 3.0f32.to_bits(), 1.0f32.to_bits(), false, 6);
    let second = s.packet(0, 101.0f32.to_bits(), 1.0f32.to_bits(), false, 8);
    let a = decode(&first, 0).unwrap();
    assert_eq!(f32::from_bits(a.volume), -2.0);
    assert_eq!((a.sequence, a.origin_ts_ns, a.transit_est_ns), (1, 5, 7));
    assert_eq!(decode(&second, 0).unwrap().sequence, 2);
    assert_eq!(decode(&other, 0).unwrap().sequence, 1);
    assert_eq!((first[32], other[32]), (0, 1));
}

#[test]
fn live_feeds_have_no_gap() {
    let mut s = Session::new();
    let mut i = Ingestor::new();
    for id in [0u8, 1, 1, 0, 0, 1, 0] {
        let pkt = s.packet(id, 1.0f32.to_bits(), 2.0f32.to_bits(), id == 1, 7);
        assert!(!i.accept(&pkt, 0, 0, 9).unwrap().gap);
    }
    assert_eq!((i.traded_last, i.reference_last, i.stats.gap_count), (4, 3, 0));
    s.packet(0, 0, 0, false, 7);
    let late = s.packet(0, 0, 0, false, 7);
    assert!(i.accept(&late, 0, 0, 9).unwrap().gap);
    assert_eq!(i.stats.gap_count, 1);
}

#[test]
fn history_pages_stop() {
    let mut p = Pager::new(100);
    assert!(p.on_page(3, "200", 1000));
    assert_eq!((p.since, p.pages, p.total), (200, 1, 3));
    assert!(!p.on_page(0, "300", 1000));
    assert!(!p.on_page(1, "200", 1000));
    assert!(!p.on_page(1, "1000", 1000));
    assert!(!p.on_page(1, "", 1000));
    let mut q = Pager { since: 1, pages: 498, total: 0 };
    assert!(q.on_page(1, "2", 1000));
    assert!(!q.on_page(1, "3", 1000));
    assert_eq!(q.pages, 500);
    assert_eq!(history_start(10_000_000_000_000, 2), 2_800_000_000_000);
    assert_eq!(history_start(5, 1), 0);
}

#[test]
fn pauses_between_packets() {
    assert_eq!(pause(0), Pause::Skip);
    assert_eq!(pause(1_999_999), Pause::Spin { ns: 1_999_999 });
    assert_eq!(pause(2_000_000), Pause::Sleep { ns: 1_000_000, spin: 1_000_000 });
    match pause(7_654_321) {
        Pause::Sleep { ns, spin } => assert_eq!(ns + spin, 7_654_321),
        _ => panic!("not slept"),
    }
    assert_eq!(pause(u64::MAX), Pause::Sleep { ns: u64::MAX - 1_000_000, spin: 1_000_000 });
}

#[test]
fn burst_sequences_follow_the_warmup() {
    let mut expected = 11;
    for burst in 0..20 {
        for i in 0..50 {
            assert_eq!(burst_seq(burst, i), expected);
            expected += 1;
        }
        assert_eq!(gap_follows(burst), burst != 19);
    }
}
