use rubit::errors::ParseError;
use rubit::http::{announce_url, decode_http_response, push_decimal};
use rubit::tracker::{
    announce_request, connect_request, parse_announce_response, parse_connect_response,
    read_udp_peers, AnnounceConfig, Responses, TrackerError, UdpConnect,
};
use rubit::tracker_list::{get_tracker_list, protocol_of_scheme, Tracker, UrlProtocol};

fn config() -> AnnounceConfig {
    let mut peer_id = [0u8; 20];
    peer_id.copy_from_slice(b"RB01-abcdefghij12345");
    let mut info_hash = [0u8; 20];
    for i in 0..20 {
        info_hash[i] = (i * 13) as u8;
    }
    AnnounceConfig { info_hash, peer_id, port: 6881, uploaded: 1, downloaded: 2, left: 40000 }
}

#[test]
fn connect_request_has_the_magic_number() {
    assert_eq!(
        connect_request(0x01020304),
        vec![0, 0, 0x04, 0x17, 0x27, 0x10, 0x19, 0x80, 0, 0, 0, 0, 1, 2, 3, 4]
    );
}

fn connect_answer(action: u32, transaction_id: u32, connection_id: u64) -> Vec<u8> {
    let mut buf = Vec::new();
    buf.extend(action.to_be_bytes());
    buf.extend(transaction_id.to_be_bytes());
    buf.extend(connection_id.to_be_bytes());
    buf
}

#[test]
fn connect_answer_gives_the_connection_id() {
    let mut buf = connect_answer(0, 77, 0x1122334455667788);
    assert_eq!(parse_connect_response(&buf, 77), Ok(0x1122334455667788));
    buf.resize(2048, 0);
    assert_eq!(parse_connect_response(&buf, 77), Ok(0x1122334455667788));
}

#[test]
fn connect_answer_with_another_transaction_id_is_a_mismatch() {
    let buf = connect_answer(0, 78, 5);
    assert_eq!(parse_connect_response(&buf, 77), Err(TrackerError::MissMatchTransactionId));
}

#[test]
fn connect_answer_with_another_action_is_a_mismatch() {
    let buf = connect_answer(3, 77, 5);
    assert_eq!(parse_connect_response(&buf, 77), Err(TrackerError::MissMatchAction));
    let buf = connect_answer(1, 78, 5);
    assert_eq!(parse_connect_response(&buf, 77), Err(TrackerError::MissMatchAction));
}

#[test]
fn short_connect_answer_is_refused() {
    let buf = connect_answer(0, 77, 5);
    assert_eq!(parse_connect_response(&buf[..15], 77), Err(TrackerError::Slice));
    assert_eq!(parse_connect_response(&[], 77), Err(TrackerError::Slice));
}

#[test]
fn announce_request_has_98_bytes_in_order() {
    let c = config();
    let buf = announce_request(0x0102030405060708, 0x0A0B0C0D, 0x11223344, &c);
    assert_eq!(buf.len(), 98);
    assert_eq!(&buf[0..8], &[1, 2, 3, 4, 5, 6, 7, 8]);
    assert_eq!(&buf[8..12], &[0, 0, 0, 1]);
    assert_eq!(&buf[12..16], &[0x0A, 0x0B, 0x0C, 0x0D]);
    assert_eq!(&buf[16..36], &c.info_hash);
    assert_eq!(&buf[36..56], &c.peer_id);
    assert_eq!(&buf[56..64], &2u64.to_be_bytes());
    assert_eq!(&buf[64..72], &40000u64.to_be_bytes());
    assert_eq!(&buf[72..80], &1u64.to_be_bytes());
    assert_eq!(&buf[80..84], &[0, 0, 0, 0]);
    assert_eq!(&buf[84..88], &[0, 0, 0, 0]);
    assert_eq!(&buf[88..92], &[0x11, 0x22, 0x33, 0x44]);
    assert_eq!(&buf[92..96], &(-1i32).to_be_bytes());
    assert_eq!(&buf[96..98], &[0x1A, 0xE1]);
}

fn announce_answer(action: u32, transaction_id: u32, peers: &[u8]) -> Vec<u8> {
    let mut buf = Vec::new();
    buf.extend(action.to_be_bytes());
    buf.extend(transaction_id.to_be_bytes());
    buf.extend(1800u32.to_be_bytes());
    buf.extend(3u32.to_be_bytes());
    buf.extend(9u32.to_be_bytes());
    buf.extend(peers);
    buf
}

#[test]
fn announce_answer_is_read() {
    let mut buf = announce_answer(1, 5, &[10, 0, 0, 1, 0x1A, 0xE1, 0, 0, 0, 0, 0, 0, 8, 8, 8, 8, 0, 53]);
    buf.resize(2048, 0);
    match parse_announce_response(&buf, 5) {
        Ok(Responses::Done(done)) => {
            assert_eq!(done.interval, 1800);
            assert_eq!(done.min_interval, None);
            assert_eq!(done.incomplete, Some(3));
            assert_eq!(done.complete, Some(9));
            assert_eq!(done.peers, vec![((10, 0, 0, 1), 6881), ((8, 8, 8, 8), 53)]);
        }
        other => panic!("expected an answer, got {:?}", other),
    }
}

#[test]
fn announce_answer_mismatches_are_told_apart() {
    assert!(matches!(
        parse_announce_response(&announce_answer(0, 5, &[]), 5),
        Err(TrackerError::MissMatchAction)
    ));
    assert!(matches!(
        parse_announce_response(&announce_answer(1, 6, &[]), 5),
        Err(TrackerError::MissMatchTransactionId)
    ));
    assert!(matches!(
        parse_announce_response(&announce_answer(1, 5, &[])[..19], 5),
        Err(TrackerError::Slice)
    ));
}

#[test]
fn udp_peers_drop_zero_records_and_a_broken_tail() {
    assert_eq!(read_udp_peers(&[]), vec![]);
    assert_eq!(read_udp_peers(&[0; 12]), vec![]);
    assert_eq!(read_udp_peers(&[1, 2, 3, 4, 0, 0]), vec![((1, 2, 3, 4), 0)]);
    assert_eq!(read_udp_peers(&[0, 0, 0, 0, 0, 1]), vec![((0, 0, 0, 0), 1)]);
    assert_eq!(read_udp_peers(&[1, 2, 3, 4, 1, 1, 9, 9, 9]), vec![((1, 2, 3, 4), 257)]);
}

#[test]
fn both_transports_give_the_same_peers() {
    let raw = [10, 0, 0, 1, 0x1A, 0xE1, 8, 8, 8, 8, 0, 53];
    let mut body = b"d8:intervali60e5:peers12:".to_vec();
    body.extend(raw);
    body.push(b'e');
    let over_http = match decode_http_response(&body) {
        Ok(Responses::Done(done)) => done.peers,
        other => panic!("expected an answer, got {:?}", other),
    };
    assert_eq!(over_http, read_udp_peers(&raw));
}

#[test]
fn http_answer_is_read() {
    let mut body = b"d8:completei9e10:incompletei3e8:intervali1800e12:min intervali60e5:peers6:".to_vec();
    body.extend([10, 0, 0, 1, 0x1A, 0xE1]);
    body.push(b'e');
    match decode_http_response(&body) {
        Ok(Responses::Done(done)) => {
            assert_eq!(done.interval, 1800);
            assert_eq!(done.min_interval, Some(60));
            assert_eq!(done.complete, Some(9));
            assert_eq!(done.incomplete, Some(3));
            assert_eq!(done.peers, vec![((10, 0, 0, 1), 6881)]);
        }
        other => panic!("expected an answer, got {:?}", other),
    }
}

#[test]
fn http_answer_with_a_peer_list_is_read() {
    let body = b"d8:intervali5e5:peersld2:ip7:1.2.3.44:porti80eeee".to_vec();
    match decode_http_response(&body) {
        Ok(Responses::Done(done)) => {
            assert_eq!(done.interval, 5);
            assert_eq!(done.min_interval, None);
            assert_eq!(done.complete, None);
            assert_eq!(done.incomplete, None);
            assert_eq!(done.peers, vec![((1, 2, 3, 4), 80)]);
        }
        other => panic!("expected an answer, got {:?}", other),
    }
}

#[test]
fn failure_reason_comes_first() {
    let body = b"d14:failure reason4:nope8:intervali5ee".to_vec();
    match decode_http_response(&body) {
        Ok(Responses::Failure(f)) => assert_eq!(f.failure_reason, "nope"),
        other => panic!("expected a failure, got {:?}", other),
    }
}

#[test]
fn http_answer_that_does_not_fit_fails_to_decode() {
    for body in [
        &b"de"[..],
        &b"d5:peers0:e"[..],
        &b"d8:intervali5ee"[..],
        &b"d8:interval1:55:peers0:e"[..],
        &b"d8:intervali5e12:min interval1:x5:peers0:e"[..],
        &b"d14:failure reasoni1ee"[..],
        &b"d8:intervali5e5:peersi1ee"[..],
    ] {
        assert!(matches!(
            decode_http_response(&body.to_vec()),
            Err(TrackerError::FailedDecode)
        ));
    }
}

#[test]
fn http_answer_that_is_not_bencode_gives_the_parse_error() {
    assert!(matches!(
        decode_http_response(&b"<html>".to_vec()),
        Err(TrackerError::Bencode(ParseError::BadFile))
    ));
    assert!(matches!(
        decode_http_response(&Vec::new()),
        Err(TrackerError::Bencode(ParseError::BadFile))
    ));
    assert!(matches!(
        decode_http_response(&b"d8:intervalixee".to_vec()),
        Err(TrackerError::Bencode(ParseError::Int))
    ));
}

#[test]
fn lenient_counts_are_dropped() {
    let body = b"d8:complete1:x8:intervali5e5:peers0:e".to_vec();
    match decode_http_response(&body) {
        Ok(Responses::Done(done)) => assert_eq!(done.complete, None),
        other => panic!("expected an answer, got {:?}", other),
    }
}

#[test]
fn announce_url_encodes_the_raw_info_hash() {
    let mut c = config();
    c.info_hash = [
        0x12, 0x34, 0x56, 0x78, 0x9A, 0xBC, 0xDE, 0xF1, 0x23, 0x45, 0x67, 0x89, 0xAB, 0xCD, 0xEF,
        0x12, 0x34, 0x56, 0x78, 0x9A,
    ];
    assert_eq!(
        announce_url("http://tracker.test/announce", &c),
        "http://tracker.test/announce?peer_id=RB01-abcdefghij12345&port=6881&left=40000&uploaded=1&downloaded=2&compact=1&info_hash=%124Vx%9A%BC%DE%F1%23Eg%89%AB%CD%EF%124Vx%9A"
    );
}

#[test]
fn announce_url_encodes_spaces_and_marks() {
    let mut c = config();
    c.peer_id.copy_from_slice(b" *-._~!/=&?#%+\0\x7F\x80\xFFaZ");
    c.port = 0;
    c.left = u64::MAX;
    c.uploaded = 10;
    c.downloaded = 109;
    c.info_hash = [b'0'; 20];
    assert_eq!(
        announce_url("u", &c),
        "u?peer_id=+*-._%7E%21%2F%3D%26%3F%23%25%2B%00%7F%80%FFaZ&port=0&left=18446744073709551615&uploaded=10&downloaded=109&compact=1&info_hash=00000000000000000000"
    );
}

#[test]
fn decimal_text_is_appended() {
    let mut s = String::from("n=");
    push_decimal(&mut s, 0);
    push_decimal(&mut s, 7);
    push_decimal(&mut s, 1024);
    assert_eq!(s, "n=071024");
}

#[test]
fn schemes_name_their_protocol() {
    assert_eq!(protocol_of_scheme("http"), Some(UrlProtocol::HTTP));
    assert_eq!(protocol_of_scheme("https"), Some(UrlProtocol::HTTP));
    assert_eq!(protocol_of_scheme("udp"), Some(UrlProtocol::UDP));
    assert_eq!(protocol_of_scheme("ws"), None);
    assert_eq!(protocol_of_scheme(""), None);
    assert_eq!(protocol_of_scheme("HTTP"), None);
}

#[test]
fn tracker_is_made_from_a_url() {
    let t = Tracker::new("HTTP://Tracker.Test/announce").unwrap();
    assert_eq!(t.protocol, UrlProtocol::HTTP);
    assert_eq!(t.url, "http://tracker.test/announce");
    let t = Tracker::new("https://tracker.test").unwrap();
    assert_eq!(t.protocol, UrlProtocol::HTTP);
    assert_eq!(t.url, "https://tracker.test/");
    let t = Tracker::new("udp://tracker.test:6969/announce").unwrap();
    assert_eq!(t.protocol, UrlProtocol::UDP);
    assert_eq!(t.url, "udp://tracker.test:6969/announce");
}

#[test]
fn other_schemes_are_rejected() {
    assert!(matches!(
        Tracker::new("wss://tracker.test/"),
        Err(TrackerError::UnknownTrackerProtocol)
    ));
    assert!(matches!(
        Tracker::new("ftp://tracker.test/"),
        Err(TrackerError::UnknownTrackerProtocol)
    ));
}

#[test]
fn text_that_is_no_url_is_rejected() {
    assert!(matches!(Tracker::new("i guess no announce list"), Err(TrackerError::InvalidUrl)));
    assert!(matches!(Tracker::new(""), Err(TrackerError::InvalidUrl)));
    assert!(matches!(Tracker::new("/relative"), Err(TrackerError::InvalidUrl)));
}

#[test]
fn tracker_list_is_flattened_with_the_primary_last() {
    let list = get_tracker_list(
        String::from("http://primary.test/a"),
        vec![
            vec![String::from("udp://one.test:1/a"), String::from("not a url")],
            vec![],
            vec![String::from("wss://two.test/"), String::from("https://three.test/a")],
        ],
    );
    let seen: Vec<(String, UrlProtocol)> = list.into_iter().map(|t| (t.url, t.protocol)).collect();
    assert_eq!(
        seen,
        vec![
            (String::from("udp://one.test:1/a"), UrlProtocol::UDP),
            (String::from("https://three.test/a"), UrlProtocol::HTTP),
            (String::from("http://primary.test/a"), UrlProtocol::HTTP),
        ]
    );
}

#[test]
fn tracker_list_may_be_empty() {
    assert!(get_tracker_list(String::from("nothing"), vec![]).is_empty());
}

#[test]
fn udp_announce_runs_connect_then_announce() {
    let c = config();
    let (connect, request) = UdpConnect::start();
    assert_eq!(request, connect_request(connect.transaction_id));
    let answer = connect_answer(0, connect.transaction_id, 0xCAFE);
    let (announce, request) = match connect.answer(&answer, &c) {
        Ok(next) => next,
        Err(e) => panic!("the connect answer was refused: {:?}", e),
    };
    assert_eq!(
        request,
        announce_request(0xCAFE, announce.transaction_id, announce.key, &c)
    );
    let answer = announce_answer(1, announce.transaction_id, &[1, 2, 3, 4, 0, 9]);
    match announce.answer(&answer) {
        Ok(Responses::Done(done)) => assert_eq!(done.peers, vec![((1, 2, 3, 4), 9)]),
        other => panic!("expected an answer, got {:?}", other),
    }
}

#[test]
fn udp_announce_fails_when_the_connect_answer_does_not_echo() {
    let c = config();
    let (connect, _) = UdpConnect::start();
    let answer = connect_answer(0, connect.transaction_id.wrapping_add(1), 0xCAFE);
    assert!(matches!(connect.answer(&answer, &c), Err(TrackerError::MissMatchTransactionId)));
}

#[test]
fn udp_announce_fails_when_the_announce_answer_does_not_echo() {
    let c = config();
    let (connect, _) = UdpConnect::start();
    let answer = connect_answer(0, connect.transaction_id, 1);
    let (announce, _) = match connect.answer(&answer, &c) {
        Ok(next) => next,
        Err(e) => panic!("the connect answer was refused: {:?}", e),
    };
    let answer = announce_answer(1, announce.transaction_id.wrapping_add(1), &[]);
    assert!(matches!(announce.answer(&answer), Err(TrackerError::MissMatchTransactionId)));
}

#[test]
fn udp_announce_fails_on_another_action() {
    let c = config();
    let (connect, _) = UdpConnect::start();
    let answer = connect_answer(3, connect.transaction_id, 1);
    assert!(matches!(connect.answer(&answer, &c), Err(TrackerError::MissMatchAction)));
}
