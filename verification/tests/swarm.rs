use std::collections::{HashSet, VecDeque};

use rubit::hash::{get_hash, hash_matches};
use rubit::orchestrator::{next_interval, next_tick, next_tracker, seed_queue, Tick, PEER_CAP};
use rubit::random::{get_random_id, peer_id_bytes};
use rubit::tracker::UdpConnect;
use rubit::registry::{addr_key, PeerManager};
use rubit::resume::{all_pieces, retain_not_downloaded_pieces, ResumeScanner};
use rubit::torrent_file::Info;

fn info_for(length: u64, piece_length: u64, contents: &[&[u8]]) -> Info {
    Info {
        name: String::from("file"),
        length,
        piece_length,
        pieces: contents.iter().map(|c| get_hash(c).unwrap()).collect(),
    }
}

fn read_region(file: &[u8], offset: u64, len: u64) -> Vec<u8> {
    let mut buf = vec![0u8; len as usize];
    let start = (offset as usize).min(file.len());
    let end = (start + len as usize).min(file.len());
    buf[..end - start].copy_from_slice(&file[start..end]);
    buf
}

fn scan(file: &[u8], info: &Info) -> Vec<usize> {
    let mut scanner = ResumeScanner::new(file.len() as u64, info);
    while let Some((offset, len)) = scanner.next_read(info) {
        scanner.absorb(&read_region(file, offset, len), info);
    }
    let mut found: Vec<usize> = scanner.finish().into_iter().collect();
    found.sort();
    found
}

#[test]
fn hash_is_compared_with_the_digest() {
    assert!(hash_matches(b"abc", &get_hash(b"abc").unwrap()));
    assert!(!hash_matches(b"abd", &get_hash(b"abc").unwrap()));
    assert!(!hash_matches(b"abc", &[0u8; 20]));
}

#[test]
fn empty_file_holds_nothing() {
    let info = info_for(10, 4, &[b"aaaa", b"bbbb", b"cc"]);
    let scanner = ResumeScanner::new(0, &info);
    assert!(scanner.done);
    assert_eq!(scanner.next_read(&info), None);
    assert_eq!(scan(b"", &info), Vec::<usize>::new());
}

#[test]
fn scanner_reads_each_piece_region_in_order() {
    let info = info_for(10, 4, &[b"aaaa", b"bbbb", b"cc"]);
    let mut scanner = ResumeScanner::new(10, &info);
    assert_eq!(scanner.next_read(&info), Some((0, 4)));
    scanner.absorb(b"aaaa", &info);
    assert_eq!(scanner.next_read(&info), Some((4, 4)));
    scanner.absorb(b"xxxx", &info);
    assert_eq!(scanner.next_read(&info), Some((8, 2)));
    scanner.absorb(b"cc", &info);
    assert_eq!(scanner.next_read(&info), None);
    let mut found: Vec<usize> = scanner.finish().into_iter().collect();
    found.sort();
    assert_eq!(found, vec![0, 2]);
}

#[test]
fn whole_last_piece_is_read_whole() {
    let info = info_for(8, 4, &[b"aaaa", b"bbbb"]);
    assert_eq!(scan(b"aaaabbbb", &info), vec![0, 1]);
    let mut scanner = ResumeScanner::new(8, &info);
    scanner.absorb(b"aaaa", &info);
    assert_eq!(scanner.next_read(&info), Some((4, 4)));
}

#[test]
fn short_file_leaves_its_pieces_in_the_queue() {
    let info = info_for(10, 4, &[b"aaaa", b"bbbb", b"cc"]);
    assert_eq!(scan(b"aaaabb", &info), vec![0]);
    assert_eq!(scan(b"aaaabbbbcc", &info), vec![0, 1, 2]);
    assert_eq!(scan(b"zzzzbbbbcc", &info), vec![1, 2]);
}

#[test]
fn scanning_twice_gives_the_same_pieces() {
    let info = info_for(10, 4, &[b"aaaa", b"bbbb", b"cc"]);
    let file = b"aaaa....cc";
    assert_eq!(scan(file, &info), scan(file, &info));
    assert_eq!(scan(file, &info), vec![0, 2]);
}

#[test]
fn torrent_without_pieces_has_nothing_to_scan() {
    let info = info_for(0, 4, &[]);
    let scanner = ResumeScanner::new(4, &info);
    assert_eq!(scanner.next_read(&info), None);
}

#[test]
fn complete_pieces_are_taken_out_in_order() {
    let completed: HashSet<usize> = [1, 3].into_iter().collect();
    assert_eq!(retain_not_downloaded_pieces(completed, vec![4, 3, 2, 1, 0]), vec![4, 2, 0]);
    assert_eq!(retain_not_downloaded_pieces(HashSet::new(), vec![2, 2, 5]), vec![2, 2, 5]);
    let all: HashSet<usize> = [0, 1].into_iter().collect();
    assert_eq!(retain_not_downloaded_pieces(all, vec![0, 1]), Vec::<usize>::new());
    assert_eq!(all_pieces(4), vec![0, 1, 2, 3]);
    assert_eq!(all_pieces(0), Vec::<usize>::new());
}

#[test]
fn seeded_queue_misses_nothing() {
    let completed: HashSet<usize> = [0, 5, 9, 40].into_iter().collect();
    let queue: VecDeque<usize> = seed_queue(completed, 10);
    let mut sorted: Vec<usize> = queue.into_iter().collect();
    sorted.sort();
    assert_eq!(sorted, vec![1, 2, 3, 4, 6, 7, 8]);
    assert!(seed_queue(HashSet::new(), 0).is_empty());
}

#[test]
fn seeded_queue_of_a_big_torrent_keeps_every_piece_once() {
    let queue = seed_queue(HashSet::new(), 1000);
    let mut sorted: Vec<usize> = queue.into_iter().collect();
    sorted.sort();
    assert_eq!(sorted, (0..1000).collect::<Vec<usize>>());
}

#[test]
fn address_is_registered_once() {
    let mut registry = PeerManager::new();
    assert!(registry.is_empty());
    assert!(registry.try_add(((10, 0, 0, 1), 6881)));
    assert!(!registry.try_add(((10, 0, 0, 1), 6881)));
    assert!(registry.try_add(((10, 0, 0, 1), 6882)));
    assert!(registry.try_add(((10, 0, 1, 0), 6881)));
    assert_eq!(registry.len(), 3);
    registry.release(((10, 0, 0, 1), 6882));
    assert!(!registry.try_add(((10, 0, 0, 1), 6881)));
    assert_eq!(registry.len(), 2);
    registry.release(((10, 0, 0, 1), 6881));
    assert!(registry.try_add(((10, 0, 0, 1), 6881)));
    registry.release(((1, 1, 1, 1), 1));
    assert_eq!(registry.len(), 2);
}

#[test]
fn address_key_writes_octets_and_port() {
    assert_eq!(addr_key(((1, 2, 3, 4), 0x0506)), 0x010203040506);
    assert_eq!(addr_key(((0, 0, 0, 0), 0)), 0);
    assert_eq!(addr_key(((255, 255, 255, 255), 65535)), 0xFFFF_FFFF_FFFF);
}

#[test]
fn driver_loop_rule() {
    assert_eq!(next_tick(0, 0, false), Tick::Finish);
    assert_eq!(next_tick(0, 0, true), Tick::Finish);
    assert_eq!(next_tick(5, 0, false), Tick::Announce);
    assert_eq!(next_tick(5, 0, true), Tick::Announce);
    assert_eq!(next_tick(5, 10, false), Tick::Wait);
    assert_eq!(next_tick(5, 10, true), Tick::Announce);
    assert_eq!(next_tick(0, 10, true), Tick::Announce);
    assert_eq!(next_tick(0, 10, false), Tick::Wait);
    assert_eq!(next_tick(5, PEER_CAP - 1, true), Tick::Announce);
    assert_eq!(next_tick(5, PEER_CAP, true), Tick::Wait);
    assert_eq!(next_tick(5, PEER_CAP + 1, true), Tick::Wait);
    assert_eq!(PEER_CAP, 300);
}

#[test]
fn interval_is_chosen_by_precedence() {
    assert_eq!(next_interval(Some(30), Some(60), 1800), 30);
    assert_eq!(next_interval(Some(30), None, 1800), 30);
    assert_eq!(next_interval(None, Some(60), 1800), 60);
    assert_eq!(next_interval(None, None, 1800), 1800);
}

#[test]
fn trackers_are_tried_round_robin() {
    assert_eq!(next_tracker(0, 3), 1);
    assert_eq!(next_tracker(1, 3), 2);
    assert_eq!(next_tracker(2, 3), 0);
    assert_eq!(next_tracker(7, 3), 0);
    assert_eq!(next_tracker(0, 1), 0);
    assert_eq!(next_tracker(0, 0), 0);
}

#[test]
fn peer_id_has_the_client_prefix() {
    let id = get_random_id();
    assert_eq!(id.len(), 20);
    assert!(id.starts_with("RB01-"));
    assert!(id[5..].bytes().all(|b| b.is_ascii_alphanumeric()));
    let bytes = peer_id_bytes(&id).unwrap();
    assert_eq!(&bytes, id.as_bytes());
}

#[test]
fn peer_ids_differ() {
    let ids: HashSet<String> = (0..8).map(|_| get_random_id()).collect();
    assert!(ids.len() > 1);
}

#[test]
fn peer_id_of_another_length_has_no_bytes() {
    assert_eq!(peer_id_bytes("RB01-short"), None);
    assert_eq!(peer_id_bytes("RB01-abcdefghij123456"), None);
    assert_eq!(peer_id_bytes("RB01-abcdefghij1234\u{e9}"), None);
}

#[test]
fn transaction_ids_vary() {
    let seen: HashSet<u32> = (0..16).map(|_| UdpConnect::start().0.transaction_id).collect();
    assert!(seen.len() > 1);
}
