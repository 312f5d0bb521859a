use std::collections::VecDeque;

use rubit::conn::{Action, ConnError, Event, PeerConnManager, Phase, State};
use rubit::hash::get_hash;
use rubit::message::Message;
use rubit::pieces::{block_request, block_size, num_blocks};
use rubit::torrent_file::Info;

fn info_for(length: u64, piece_length: u64, contents: &[&[u8]]) -> Info {
    Info {
        name: String::from("file"),
        length,
        piece_length,
        pieces: contents.iter().map(|c| get_hash(c).unwrap()).collect(),
    }
}

fn unchoked_conn(pieces: &[usize]) -> PeerConnManager {
    let mut conn = PeerConnManager::new();
    for &p in pieces {
        let mut have = vec![4u8];
        have.extend((p as u32).to_be_bytes());
        conn.read_have(&have);
    }
    conn.my_state = State::Interested;
    conn.state = State::UnChoked;
    conn.phase = Phase::Idle;
    conn
}

fn piece_frame(index: u32, begin: u32, data: &[u8]) -> Event {
    let mut body = vec![7u8];
    body.extend(index.to_be_bytes());
    body.extend(begin.to_be_bytes());
    body.extend(data);
    Event::Frame(body)
}

fn sent(action: Action) -> Message {
    match action {
        Action::Send(m) => m,
        other => panic!("expected a message to send, got {:?}", other),
    }
}

fn is_request(m: &Message, index: u32, begin: u32, length: u32) -> bool {
    matches!(m, Message::Request { index: i, begin: b, length: l } if *i == index && *b == begin && *l == length)
}

#[test]
fn new_connection_is_choked_and_silent() {
    let conn = PeerConnManager::new();
    assert_eq!(conn.my_state, State::Unset);
    assert_eq!(conn.state, State::Choked);
    assert_eq!(conn.phase, Phase::Preamble);
    assert!(conn.peer_pieces.is_empty());
}

#[test]
fn bitfield_is_read_highest_bit_first() {
    let mut conn = PeerConnManager::new();
    conn.read_bitfield(&[5, 0b10100000, 0b00010000]);
    let mut pieces: Vec<usize> = conn.peer_pieces.iter().copied().collect();
    pieces.sort();
    assert_eq!(pieces, vec![0, 2, 11]);
    assert!(conn.has_piece(0));
    assert!(!conn.has_piece(1));
    assert!(conn.has_piece(11));
}

#[test]
fn bitfield_adds_to_what_is_known() {
    let mut conn = PeerConnManager::new();
    conn.read_have(&[4, 0, 0, 0, 40]);
    conn.read_bitfield(&[5, 0xFF]);
    conn.read_bitfield(&[5, 0x00, 0x01]);
    let mut pieces: Vec<usize> = conn.peer_pieces.iter().copied().collect();
    pieces.sort();
    assert_eq!(pieces, vec![0, 1, 2, 3, 4, 5, 6, 7, 15, 40]);
}

#[test]
fn empty_bitfield_says_nothing() {
    let mut conn = PeerConnManager::new();
    conn.read_bitfield(&[5]);
    conn.read_bitfield(&[]);
    assert!(conn.peer_pieces.is_empty());
}

#[test]
fn have_names_one_piece() {
    let mut conn = PeerConnManager::new();
    conn.read_have(&[4, 0, 0, 1, 2]);
    assert!(conn.has_piece(258));
    assert_eq!(conn.peer_pieces.len(), 1);
    conn.read_have(&[4, 0, 0]);
    assert_eq!(conn.peer_pieces.len(), 1);
}

#[test]
fn push_back_goes_to_the_tail() {
    let mut conn = PeerConnManager::new();
    let mut queue: VecDeque<usize> = VecDeque::from(vec![1, 2]);
    conn.push_back_to_queue(&mut queue, 7);
    assert_eq!(queue, VecDeque::from(vec![1, 2, 7]));
    assert!(conn.has_piece(7));
}

#[test]
fn preamble_takes_in_pieces_up_to_unchoke() {
    let info = info_for(4, 4, &[b"abcd"]);
    let mut queue: VecDeque<usize> = VecDeque::from(vec![0]);
    let mut conn = PeerConnManager::new();
    assert!(matches!(conn.step(Event::Resume, &mut queue, &info), Action::Receive));
    assert!(matches!(
        conn.step(Event::Frame(vec![5, 0b01000000]), &mut queue, &info),
        Action::Receive
    ));
    assert!(matches!(
        conn.step(Event::Frame(vec![4, 0, 0, 0, 9]), &mut queue, &info),
        Action::Receive
    ));
    assert_eq!(conn.phase, Phase::Preamble);
    assert!(matches!(conn.step(Event::Frame(vec![1]), &mut queue, &info), Action::Continue));
    assert_eq!(conn.phase, Phase::Idle);
    assert_eq!(conn.state, State::UnChoked);
    assert!(conn.has_piece(1));
    assert!(conn.has_piece(9));
    assert_eq!(queue, VecDeque::from(vec![0]));
}

#[test]
fn other_message_ends_the_preamble_choked() {
    let info = info_for(4, 4, &[b"abcd"]);
    let mut queue: VecDeque<usize> = VecDeque::new();
    let mut conn = PeerConnManager::new();
    assert!(matches!(conn.step(Event::Frame(vec![]), &mut queue, &info), Action::Continue));
    assert_eq!(conn.phase, Phase::Idle);
    assert_eq!(conn.state, State::Choked);
    let mut conn = PeerConnManager::new();
    conn.end_preamble();
    assert_eq!(conn.phase, Phase::Idle);
}

#[test]
fn interest_is_sent_once_then_the_worker_waits_for_unchoke() {
    let info = info_for(4, 4, &[b"abcd"]);
    let mut queue: VecDeque<usize> = VecDeque::from(vec![0]);
    let mut conn = PeerConnManager::new();
    conn.end_preamble();
    assert!(matches!(sent(conn.step(Event::Resume, &mut queue, &info)), Message::Interested));
    assert_eq!(conn.my_state, State::Interested);
    assert!(matches!(conn.step(Event::Resume, &mut queue, &info), Action::Receive));
    assert_eq!(conn.phase, Phase::AwaitUnchoke);
    assert!(matches!(conn.step(Event::Frame(vec![0]), &mut queue, &info), Action::Continue));
    assert_eq!(conn.state, State::Choked);
    assert!(matches!(conn.step(Event::Resume, &mut queue, &info), Action::Receive));
    assert!(matches!(conn.step(Event::Frame(vec![1]), &mut queue, &info), Action::Continue));
    assert_eq!(conn.state, State::UnChoked);
    assert_eq!(conn.phase, Phase::Idle);
    assert_eq!(queue, VecDeque::from(vec![0]));
}

#[test]
fn whole_piece_is_asked_for_in_two_blocks_and_written() {
    let first = vec![0x11u8; 16384];
    let second = vec![0x22u8; 16384];
    let mut whole = first.clone();
    whole.extend(&second);
    let other = vec![0u8; 32768];
    let info = info_for(3 * 32768, 32768, &[&other, &whole, &other]);
    let mut queue: VecDeque<usize> = VecDeque::from(vec![1, 2]);
    let mut conn = unchoked_conn(&[1]);

    let m = sent(conn.step(Event::Resume, &mut queue, &info));
    assert!(is_request(&m, 1, 0, 16384));
    assert_eq!(conn.phase, Phase::Download);
    assert!(!conn.has_piece(1));
    assert_eq!(queue, VecDeque::from(vec![2]));

    assert!(matches!(conn.step(Event::Resume, &mut queue, &info), Action::Receive));
    let m = sent(conn.step(piece_frame(1, 0, &first), &mut queue, &info));
    assert!(is_request(&m, 1, 16384, 16384));

    assert!(matches!(conn.step(Event::Resume, &mut queue, &info), Action::Receive));
    match conn.step(piece_frame(1, 16384, &second), &mut queue, &info) {
        Action::Write { index, offset, data } => {
            assert_eq!(index, 1);
            assert_eq!(offset, 32768);
            assert_eq!(get_hash(&data).unwrap(), info.pieces[1]);
            assert_eq!(data, whole);
        }
        other => panic!("expected a write, got {:?}", other),
    }
    assert_eq!(conn.phase, Phase::Idle);
    assert_eq!(queue, VecDeque::from(vec![2]));
}

#[test]
fn short_last_piece_is_asked_for_in_one_block() {
    let last = vec![0x5Au8; 7232];
    let info = info_for(40000, 32768, &[&vec![0u8; 32768], &last]);
    assert_eq!(info.piece_size(0), 32768);
    assert_eq!(info.piece_size(1), 7232);
    assert_eq!(block_size(7232), 7232);
    assert_eq!(num_blocks(7232), 1);
    let mut queue: VecDeque<usize> = VecDeque::from(vec![1]);
    let mut conn = unchoked_conn(&[0, 1]);
    let m = sent(conn.step(Event::Resume, &mut queue, &info));
    assert!(is_request(&m, 1, 0, 7232));
    match conn.step(piece_frame(1, 0, &last), &mut queue, &info) {
        Action::Write { index, offset, data } => {
            assert_eq!(index, 1);
            assert_eq!(offset, 32768);
            assert_eq!(data, last);
        }
        other => panic!("expected a write, got {:?}", other),
    }
    assert!(queue.is_empty());
}

#[test]
fn piece_geometry_is_exact() {
    assert_eq!(block_size(32768), 16384);
    assert_eq!(num_blocks(32768), 2);
    assert_eq!(block_size(16384), 16384);
    assert_eq!(num_blocks(16384), 1);
    assert_eq!(block_size(16385), 16384);
    assert_eq!(num_blocks(16385), 2);
    assert_eq!(block_size(1), 1);
    assert_eq!(num_blocks(1), 1);
    assert!(is_request(&block_request(5, 40000, 0), 5, 0, 16384));
    assert!(is_request(&block_request(5, 40000, 1), 5, 16384, 16384));
    assert!(is_request(&block_request(5, 40000, 2), 5, 32768, 7232));
    let even = info_for(65536, 32768, &[b"", b""]);
    assert_eq!(even.piece_size(1), 32768);
    assert_eq!(even.piece_offset(1), 32768);
    assert_eq!(even.piece_offset(0), 0);
}

#[test]
fn info_validity_is_checked() {
    assert!(info_for(10, 4, &[b"", b"", b""]).is_valid());
    assert!(!info_for(10, 0, &[b""]).is_valid());
    assert!(!info_for(10, 1 << 32, &[b""]).is_valid());
    assert!(info_for(10, (1 << 32) - 1, &[b""]).is_valid());
}

#[test]
fn piece_that_fails_its_hash_goes_back_to_the_queue() {
    let info = info_for(4, 4, &[b"abcd"]);
    let mut queue: VecDeque<usize> = VecDeque::from(vec![0]);
    let mut conn = unchoked_conn(&[0]);
    let m = sent(conn.step(Event::Resume, &mut queue, &info));
    assert!(is_request(&m, 0, 0, 4));
    assert!(queue.is_empty());
    assert!(matches!(
        conn.step(piece_frame(0, 0, b"abcx"), &mut queue, &info),
        Action::Continue
    ));
    assert_eq!(queue, VecDeque::from(vec![0]));
    assert!(conn.has_piece(0));
    assert_eq!(conn.phase, Phase::Idle);
    assert_eq!(conn.state, State::UnChoked);
    assert!(conn.data.is_empty());
}

#[test]
fn choke_gives_the_piece_back() {
    let info = info_for(40000, 32768, &[&vec![1u8; 32768], &vec![2u8; 7232]]);
    let mut queue: VecDeque<usize> = VecDeque::from(vec![0, 1]);
    let mut conn = unchoked_conn(&[0, 1]);
    sent(conn.step(Event::Resume, &mut queue, &info));
    sent(conn.step(piece_frame(0, 0, &vec![1u8; 16384]), &mut queue, &info));
    assert!(matches!(conn.step(Event::Frame(vec![0]), &mut queue, &info), Action::Continue));
    assert_eq!(conn.state, State::Choked);
    assert_eq!(conn.phase, Phase::Idle);
    assert_eq!(queue, VecDeque::from(vec![1, 0]));
    assert!(conn.has_piece(0));
    assert!(matches!(conn.step(Event::Resume, &mut queue, &info), Action::Receive));
    assert_eq!(conn.phase, Phase::AwaitUnchoke);
}

#[test]
fn other_frames_are_skipped_while_a_block_is_awaited() {
    let info = info_for(4, 4, &[b"abcd"]);
    let mut queue: VecDeque<usize> = VecDeque::from(vec![0]);
    let mut conn = unchoked_conn(&[0]);
    sent(conn.step(Event::Resume, &mut queue, &info));
    assert!(matches!(conn.step(Event::Frame(vec![]), &mut queue, &info), Action::Receive));
    assert!(matches!(
        conn.step(Event::Frame(vec![4, 0, 0, 0, 1]), &mut queue, &info),
        Action::Receive
    ));
    assert!(matches!(conn.step(Event::Frame(vec![7, 0, 0]), &mut queue, &info), Action::Receive));
    assert_eq!(conn.phase, Phase::Download);
    assert!(matches!(
        conn.step(piece_frame(0, 0, b"abcd"), &mut queue, &info),
        Action::Write { .. }
    ));
}

#[test]
fn piece_that_the_peer_lacks_goes_to_the_tail() {
    let info = info_for(12, 4, &[b"aaaa", b"bbbb", b"cccc"]);
    let mut queue: VecDeque<usize> = VecDeque::from(vec![0, 1, 2]);
    let mut conn = unchoked_conn(&[1]);
    assert!(matches!(conn.step(Event::Resume, &mut queue, &info), Action::Continue));
    assert_eq!(queue, VecDeque::from(vec![1, 2, 0]));
    assert_eq!(conn.phase, Phase::Idle);
    let m = sent(conn.step(Event::Resume, &mut queue, &info));
    assert!(is_request(&m, 1, 0, 4));
    assert_eq!(queue, VecDeque::from(vec![2, 0]));
}

#[test]
fn index_beyond_the_torrent_is_never_claimed() {
    let info = info_for(4, 4, &[b"aaaa"]);
    let mut queue: VecDeque<usize> = VecDeque::from(vec![5]);
    let mut conn = unchoked_conn(&[5]);
    assert!(matches!(conn.step(Event::Resume, &mut queue, &info), Action::Continue));
    assert_eq!(queue, VecDeque::from(vec![5]));
    assert_eq!(conn.phase, Phase::Idle);
}

#[test]
fn empty_queue_ends_the_worker() {
    let info = info_for(4, 4, &[b"aaaa"]);
    let mut queue: VecDeque<usize> = VecDeque::new();
    let mut conn = unchoked_conn(&[0]);
    assert!(matches!(sent(conn.step(Event::Resume, &mut queue, &info)), Message::NotInterested));
    assert_eq!(conn.phase, Phase::Closing);
    assert!(matches!(
        conn.step(Event::Resume, &mut queue, &info),
        Action::Exit(ConnError::EmptyQueue)
    ));
    assert_eq!(conn.phase, Phase::Done);
    assert!(matches!(
        conn.step(Event::Resume, &mut queue, &info),
        Action::Exit(ConnError::EmptyQueue)
    ));
}

#[test]
fn steps_lose_no_piece() {
    let info = info_for(12, 4, &[b"aaaa", b"bbbb", b"cccc"]);
    let mut queue: VecDeque<usize> = VecDeque::from(vec![2, 0, 1]);
    let mut conn = unchoked_conn(&[0, 1]);
    let mut written: Vec<usize> = Vec::new();
    let script: Vec<Event> = vec![
        Event::Resume,
        Event::Resume,
        piece_frame(0, 0, b"aaaa"),
        Event::Resume,
        piece_frame(1, 0, b"xxxx"),
        Event::Resume,
        Event::Resume,
        Event::Frame(vec![0]),
    ];
    for event in script {
        if let Action::Write { index, .. } = conn.step(event, &mut queue, &info) {
            written.push(index);
        }
        let mut all: Vec<usize> = queue.iter().copied().collect();
        if conn.phase == Phase::Download {
            all.push(conn.index);
        }
        all.extend(&written);
        all.sort();
        all.dedup();
        assert_eq!(all, vec![0, 1, 2]);
    }
    assert_eq!(written, vec![0]);
}
