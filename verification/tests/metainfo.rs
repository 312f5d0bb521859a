use rubit::errors::ParseError;
use rubit::hash::get_hash;
use rubit::torrent_file::{make_torrent_file, TorrentError, TorrentFile};
use rubit::util::{
    dict_get, dict_remove, parse_ip, unwrap_announce_list, unwrap_dict, unwrap_info_hash,
    unwrap_integer, unwrap_peers, unwrap_pieces, unwrap_string,
};
use rubit::value::BencodeTypes;

fn text(s: &str) -> BencodeTypes {
    BencodeTypes::String(String::from(s))
}

fn info_bytes() -> Vec<u8> {
    let mut info = b"d6:lengthi40000e4:name4:file12:piece lengthi32768e6:pieces40:".to_vec();
    info.extend(0u8..40);
    info.push(b'e');
    info
}

fn torrent_bytes(extra: &[u8]) -> Vec<u8> {
    let mut buf = b"d8:announce22:http://tracker.test/an".to_vec();
    buf.extend(extra);
    buf.extend(b"4:info");
    buf.extend(info_bytes());
    buf.push(b'e');
    buf
}

#[test]
fn metainfo_is_read() {
    let torrent = match TorrentFile::from_bytes(&torrent_bytes(b"")) {
        Ok(t) => t,
        Err(_) => panic!("a well-formed file was refused"),
    };
    assert_eq!(torrent.announce, "http://tracker.test/an");
    assert_eq!(torrent.info_hash, get_hash(&info_bytes()).unwrap());
    assert_eq!(
        torrent.info_hash,
        [138, 72, 39, 189, 3, 79, 88, 200, 122, 53, 63, 134, 73, 173, 189, 236, 241, 245, 233, 122]
    );
    assert_eq!(torrent.info.name, "file");
    assert_eq!(torrent.info.length, 40000);
    assert_eq!(torrent.info.piece_length, 32768);
    assert_eq!(torrent.info.pieces.len(), 2);
    assert_eq!(torrent.info.pieces[1][0], 20);
    assert!(torrent.announce_list.is_none());
    assert!(torrent.created_by.is_none());
    assert!(torrent.creation_date.is_none());
    assert!(torrent.encoding.is_none());
}

#[test]
fn optional_fields_are_read() {
    let extra = b"13:announce-listll6:udp://el4:a://4:b://ee10:created by2:me13:creation datei1700000000e8:encoding5:UTF-8";
    let torrent = match TorrentFile::from_bytes(&torrent_bytes(extra)) {
        Ok(t) => t,
        Err(_) => panic!("a well-formed file was refused"),
    };
    assert_eq!(
        torrent.announce_list,
        Some(vec![
            vec![String::from("udp://")],
            vec![String::from("a://"), String::from("b://")]
        ])
    );
    assert_eq!(torrent.created_by, Some(String::from("me")));
    assert_eq!(torrent.creation_date, Some(1700000000));
    assert_eq!(torrent.encoding, Some(String::from("UTF-8")));
}

#[test]
fn optional_field_of_the_wrong_type_is_dropped() {
    let extra = b"13:announce-listi5e10:created byi1e13:creation date1:x8:encodingle";
    let torrent = match TorrentFile::from_bytes(&torrent_bytes(extra)) {
        Ok(t) => t,
        Err(_) => panic!("a well-formed file was refused"),
    };
    assert!(torrent.announce_list.is_none());
    assert!(torrent.created_by.is_none());
    assert!(torrent.creation_date.is_none());
    assert!(torrent.encoding.is_none());
}

#[test]
fn empty_file_is_a_bad_file() {
    assert!(matches!(
        TorrentFile::from_bytes(&Vec::new()),
        Err(TorrentError::Parse(ParseError::BadFile))
    ));
}

#[test]
fn broken_file_gives_the_parse_error() {
    assert!(matches!(
        TorrentFile::from_bytes(&b"d8:announcei-1ee".to_vec()),
        Err(TorrentError::Parse(ParseError::Int))
    ));
}

#[test]
fn missing_announce_is_a_bad_torrent() {
    let mut buf = b"d4:info".to_vec();
    buf.extend(info_bytes());
    buf.push(b'e');
    assert!(matches!(TorrentFile::from_bytes(&buf), Err(TorrentError::BadTorrent)));
}

#[test]
fn missing_info_is_a_bad_torrent() {
    let buf = b"d8:announce3:a:/e".to_vec();
    assert!(matches!(TorrentFile::from_bytes(&buf), Err(TorrentError::BadTorrent)));
}

#[test]
fn multi_file_torrent_is_a_bad_torrent() {
    let mut buf = b"d8:announce3:a:/4:infod5:filesle4:name1:n12:piece lengthi4e6:pieces20:".to_vec();
    buf.extend([0u8; 20]);
    buf.extend(b"ee");
    assert!(matches!(TorrentFile::from_bytes(&buf), Err(TorrentError::BadTorrent)));
}

#[test]
fn required_field_of_the_wrong_type_is_a_bad_torrent() {
    let mut buf = b"d8:announcei1e4:info".to_vec();
    buf.extend(info_bytes());
    buf.push(b'e');
    assert!(matches!(TorrentFile::from_bytes(&buf), Err(TorrentError::BadTorrent)));
}

#[test]
fn make_torrent_file_needs_the_info_hash() {
    let dict = vec![
        (String::from("announce"), text("x")),
        (String::from("info"), BencodeTypes::Dict(vec![])),
    ];
    assert!(make_torrent_file(dict).is_none());
}

#[test]
fn unwrap_gives_the_matching_kind_only() {
    assert_eq!(unwrap_string(text("a")), Some(String::from("a")));
    assert_eq!(unwrap_string(BencodeTypes::Integer(1)), None);
    assert_eq!(unwrap_integer(BencodeTypes::Integer(9)), Some(9));
    assert_eq!(unwrap_integer(text("9")), None);
    assert_eq!(
        unwrap_dict(BencodeTypes::Dict(vec![(String::from("k"), text("v"))])),
        Some(vec![(String::from("k"), text("v"))])
    );
    assert_eq!(unwrap_dict(BencodeTypes::List(vec![])), None);
    assert_eq!(unwrap_info_hash(BencodeTypes::InfoHash([3; 20])), Some([3; 20]));
    assert_eq!(unwrap_info_hash(BencodeTypes::Pieces(vec![[3; 20]])), None);
    assert_eq!(unwrap_pieces(BencodeTypes::Pieces(vec![[3; 20]])), Some(vec![[3; 20]]));
    assert_eq!(unwrap_pieces(BencodeTypes::InfoHash([3; 20])), None);
}

#[test]
fn announce_list_needs_lists_of_strings() {
    let good = BencodeTypes::List(vec![
        BencodeTypes::List(vec![text("a"), text("b")]),
        BencodeTypes::List(vec![]),
    ]);
    assert_eq!(
        unwrap_announce_list(good),
        Some(vec![vec![String::from("a"), String::from("b")], vec![]])
    );
    assert_eq!(unwrap_announce_list(BencodeTypes::List(vec![])), Some(vec![]));
    assert_eq!(unwrap_announce_list(text("a")), None);
    assert_eq!(unwrap_announce_list(BencodeTypes::List(vec![text("a")])), None);
    assert_eq!(
        unwrap_announce_list(BencodeTypes::List(vec![BencodeTypes::List(vec![
            BencodeTypes::Integer(1)
        ])])),
        None
    );
}

#[test]
fn dotted_addresses_are_read() {
    assert_eq!(parse_ip("10.0.0.1"), Some((10, 0, 0, 1)));
    assert_eq!(parse_ip("255.255.255.255"), Some((255, 255, 255, 255)));
    assert_eq!(parse_ip("001.02.3.4"), Some((1, 2, 3, 4)));
    assert_eq!(parse_ip("1.2.3.4.5"), Some((1, 2, 3, 4)));
    assert_eq!(parse_ip("1.2.3"), None);
    assert_eq!(parse_ip("1.2.3.256"), None);
    assert_eq!(parse_ip("1.2.3.x"), None);
    assert_eq!(parse_ip("1..3.4"), None);
    assert_eq!(parse_ip("1.2.3.4."), None);
    assert_eq!(parse_ip(""), None);
}

fn peer_dict(ip: &str, port: u64) -> BencodeTypes {
    BencodeTypes::Dict(vec![
        (String::from("ip"), text(ip)),
        (String::from("port"), BencodeTypes::Integer(port)),
    ])
}

#[test]
fn peers_are_unwrapped_from_both_forms() {
    assert_eq!(
        unwrap_peers(BencodeTypes::PeersCompact(vec![((1, 2, 3, 4), 5)])),
        Some(vec![((1, 2, 3, 4), 5)])
    );
    assert_eq!(
        unwrap_peers(BencodeTypes::List(vec![peer_dict("10.0.0.1", 6881), peer_dict("8.8.8.8", 53)])),
        Some(vec![((10, 0, 0, 1), 6881), ((8, 8, 8, 8), 53)])
    );
    assert_eq!(unwrap_peers(BencodeTypes::List(vec![])), Some(vec![]));
}

#[test]
fn port_keeps_its_low_16_bits() {
    assert_eq!(
        unwrap_peers(BencodeTypes::List(vec![peer_dict("1.1.1.1", 65536 + 80)])),
        Some(vec![((1, 1, 1, 1), 80)])
    );
}

#[test]
fn malformed_peers_are_refused() {
    assert_eq!(unwrap_peers(text("x")), None);
    assert_eq!(unwrap_peers(BencodeTypes::List(vec![text("x")])), None);
    assert_eq!(unwrap_peers(BencodeTypes::List(vec![peer_dict("nowhere", 1)])), None);
    assert_eq!(
        unwrap_peers(BencodeTypes::List(vec![BencodeTypes::Dict(vec![(
            String::from("ip"),
            text("1.2.3.4")
        )])])),
        None
    );
    assert_eq!(
        unwrap_peers(BencodeTypes::List(vec![BencodeTypes::Dict(vec![
            (String::from("ip"), BencodeTypes::Integer(1)),
            (String::from("port"), BencodeTypes::Integer(1)),
        ])])),
        None
    );
}

#[test]
fn lookup_finds_the_last_entry() {
    let mut dict = vec![
        (String::from("a"), BencodeTypes::Integer(1)),
        (String::from("b"), BencodeTypes::Integer(2)),
        (String::from("a"), BencodeTypes::Integer(3)),
    ];
    assert_eq!(dict_get(&dict, "a"), Some(&BencodeTypes::Integer(3)));
    assert_eq!(dict_get(&dict, "c"), None);
    assert_eq!(dict_remove(&mut dict, "a"), Some(BencodeTypes::Integer(3)));
    assert_eq!(
        dict,
        vec![
            (String::from("a"), BencodeTypes::Integer(1)),
            (String::from("b"), BencodeTypes::Integer(2)),
        ]
    );
    assert_eq!(dict_remove(&mut dict, "zz"), None);
    assert_eq!(dict.len(), 2);
}
