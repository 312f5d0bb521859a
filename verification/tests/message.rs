use rubit::message::{frame_length, HandShake, Message};

#[test]
fn fixed_messages_are_framed() {
    assert_eq!(Message::KeepAlive.as_bytes(), Ok(vec![0, 0, 0, 0]));
    assert_eq!(Message::Choke.as_bytes(), Ok(vec![0, 0, 0, 1, 0]));
    assert_eq!(Message::UnChoke.as_bytes(), Ok(vec![0, 0, 0, 1, 1]));
    assert_eq!(Message::Interested.as_bytes(), Ok(vec![0, 0, 0, 1, 2]));
    assert_eq!(Message::NotInterested.as_bytes(), Ok(vec![0, 0, 0, 1, 3]));
}

#[test]
fn have_is_framed() {
    assert_eq!(
        Message::Have { index: 0x01020304 }.as_bytes(),
        Ok(vec![0, 0, 0, 5, 4, 1, 2, 3, 4])
    );
}

#[test]
fn bitfield_is_framed() {
    assert_eq!(
        Message::BitField { bits: vec![0b10100000, 0b00010000] }.as_bytes(),
        Ok(vec![0, 0, 0, 3, 5, 0b10100000, 0b00010000])
    );
}

#[test]
fn request_is_framed() {
    assert_eq!(
        Message::Request { index: 1, begin: 16384, length: 16384 }.as_bytes(),
        Ok(vec![0, 0, 0, 13, 6, 0, 0, 0, 1, 0, 0, 0x40, 0, 0, 0, 0x40, 0])
    );
}

#[test]
fn cancel_is_framed_with_id_8() {
    assert_eq!(
        Message::Cancel { index: 2, begin: 0, length: 7232 }.as_bytes(),
        Ok(vec![0, 0, 0, 13, 8, 0, 0, 0, 2, 0, 0, 0, 0, 0, 0, 0x1C, 0x40])
    );
}

#[test]
fn piece_is_framed() {
    assert_eq!(
        Message::Piece { index: 3, begin: 256, piece: vec![9, 8, 7] }.as_bytes(),
        Ok(vec![0, 0, 0, 12, 7, 0, 0, 0, 3, 0, 0, 1, 0, 9, 8, 7])
    );
}

#[test]
fn wide_integers_are_written_high_byte_first() {
    assert_eq!(
        Message::Have { index: u32::MAX }.as_bytes(),
        Ok(vec![0, 0, 0, 5, 4, 255, 255, 255, 255])
    );
}

fn payload_of(m: &Message) -> Vec<u8> {
    m.as_bytes().unwrap()[4..].to_vec()
}

fn same(m: &Message) {
    let back = Message::from_payload(&payload_of(m)).unwrap();
    assert_eq!(format!("{:?}", back), format!("{:?}", m));
}

#[test]
fn payloads_are_read_back() {
    same(&Message::KeepAlive);
    same(&Message::Choke);
    same(&Message::UnChoke);
    same(&Message::Interested);
    same(&Message::NotInterested);
    same(&Message::Have { index: 77 });
    same(&Message::BitField { bits: vec![] });
    same(&Message::BitField { bits: vec![1, 2, 3] });
    same(&Message::Request { index: 1, begin: 2, length: 3 });
    same(&Message::Cancel { index: 4, begin: 5, length: 6 });
    same(&Message::Piece { index: 7, begin: 8, piece: vec![] });
    same(&Message::Piece { index: 7, begin: 8, piece: vec![1, 2, 3, 4] });
}

#[test]
fn malformed_payloads_are_refused() {
    assert!(Message::from_payload(&[9]).is_none());
    assert!(Message::from_payload(&[0, 0]).is_none());
    assert!(Message::from_payload(&[1, 5]).is_none());
    assert!(Message::from_payload(&[4, 0, 0, 0]).is_none());
    assert!(Message::from_payload(&[4, 0, 0, 0, 0, 0]).is_none());
    assert!(Message::from_payload(&[6, 0, 0, 0, 0]).is_none());
    assert!(Message::from_payload(&[7, 0, 0, 0, 0, 0, 0, 0]).is_none());
    assert!(Message::from_payload(&[8]).is_none());
    assert!(Message::from_payload(&[255]).is_none());
}

#[test]
fn length_prefix_is_read() {
    assert_eq!(frame_length(&[0, 0, 0, 0]), 0);
    assert_eq!(frame_length(&[0, 0, 0, 13]), 13);
    assert_eq!(frame_length(&[0, 0, 0x40, 9]), 16393);
    assert_eq!(frame_length(&[1, 2, 3, 4]), 0x01020304);
    assert_eq!(frame_length(&[255, 255, 255, 255]), u32::MAX);
}

#[test]
fn handshake_has_68_bytes() {
    let info_hash = [0xAB; 20];
    let mut peer_id = [0u8; 20];
    peer_id.copy_from_slice(b"RB01-abcdefghij12345");
    let bytes = HandShake::new(info_hash, peer_id).as_bytes();
    assert_eq!(bytes.len(), 68);
    assert_eq!(bytes[0], 0x13);
    assert_eq!(&bytes[1..20], b"BitTorrent protocol");
    assert_eq!(&bytes[20..28], &[0u8; 8]);
    assert_eq!(&bytes[28..48], &info_hash);
    assert_eq!(&bytes[48..68], b"RB01-abcdefghij12345");
}

#[test]
fn handshake_for_the_same_torrent_is_accepted() {
    let ours = HandShake::new([1; 20], [2; 20]);
    let theirs = HandShake::new([1; 20], [9; 20]).as_bytes();
    assert!(ours.accepts(&theirs));
    assert!(ours.accepts(&ours.as_bytes()));
}

#[test]
fn handshake_for_another_torrent_is_refused() {
    let ours = HandShake::new([1; 20], [2; 20]);
    let mut theirs = HandShake::new([1; 20], [2; 20]).as_bytes();
    theirs[47] = 0;
    assert!(!ours.accepts(&theirs));
    let mut theirs = ours.as_bytes();
    theirs[28] = 0;
    assert!(!ours.accepts(&theirs));
}

#[test]
fn handshake_of_the_wrong_length_is_refused() {
    let ours = HandShake::new([1; 20], [2; 20]);
    let mut theirs = ours.as_bytes();
    theirs.push(0);
    assert!(!ours.accepts(&theirs));
    assert!(!ours.accepts(&theirs[..67]));
    assert!(!ours.accepts(&[]));
}
