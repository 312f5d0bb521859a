//! The core of a BitTorrent client for single-file torrents, verified with
//! Verus.
//!
//! - [`grammar`], [`decode`], [`encode`]: the bencode codec. The grammar is
//!   a specification on bytes; the decoders are proved to read exactly what
//!   it says, and [`roundtrip`] and [`reencode`] show that decoding and
//!   encoding undo each other.
//! - [`torrent_file`]: the metainfo that the swarm needs.
//! - [`message`], [`wire`]: the peer wire codec and the handshake.
//! - [`tracker`], [`http`], [`tracker_list`]: the two tracker protocols.
//! - [`conn`], [`pieces`]: the worker of one peer connection as a state
//!   machine, and the geometry of pieces and blocks.
//! - [`resume`], [`registry`], [`orchestrator`]: the pass over an existing
//!   file, the registry of live workers, and the rules of the driver loop.
//!
//! The library does no input or output. Its callers connect, read and write,
//! and hand it bytes.

pub mod conn;
pub mod decode;
pub mod encode;
pub mod errors;
pub mod grammar;
pub mod hash;
pub mod http;
pub mod info_hash;
pub mod message;
pub mod orchestrator;
pub mod pieces;
pub mod random;
pub mod reencode;
pub mod registry;
pub mod resume;
pub mod roundtrip;
pub mod scan;
pub mod text;
pub mod torrent_file;
pub mod tracker;
pub mod tracker_list;
pub mod util;
pub mod value;
pub mod wire;

pub use conn::{Action, ConnError, Event, PeerConnManager, Phase, State};
pub use decode::{
    decode_dict, decode_int, decode_list, decode_peers, decode_pieces, decode_string, decode_value,
};
pub use errors::ParseError;
pub use hash::get_hash;
pub use http::{announce_url, decode_http_response};
pub use message::{HandShake, Message, MessageError};
pub use orchestrator::{next_interval, next_tick, next_tracker, seed_queue, Tick};
pub use random::{get_random_id, peer_id_bytes};
pub use registry::PeerManager;
pub use resume::{retain_not_downloaded_pieces, ResumeScanner};
pub use torrent_file::{make_torrent_file, Info, TorrentError, TorrentFile};
pub use tracker::{
    announce_request, connect_request, parse_announce_response, parse_connect_response,
    AnnounceConfig, FailureResponse, OkResponse, Responses, TrackerError, UdpAnnounce, UdpConnect,
};
pub use tracker_list::{get_tracker_list, Tracker, UrlProtocol};
pub use util::{
    parse_ip, unwrap_announce_list, unwrap_dict, unwrap_info_hash, unwrap_integer, unwrap_peers,
    unwrap_pieces, unwrap_string,
};
pub use value::{BencodeTypes, Peers};
