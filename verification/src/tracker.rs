use vstd::prelude::*;
use vstd::slice::slice_subrange;

use crate::errors::ParseError;
use crate::grammar::{compact_peers, peer_of};
use crate::random::random_u32;
use crate::value::Peers;
use crate::wire::{
    be16, be32, be64, from_be32, from_be64, push_all, push_be16, push_be32, push_be64, read_be32,
    read_be64,
};

verus! {

/// Why an announce failed.
#[derive(Clone, Copy, Debug, PartialEq, Eq, Structural)]
pub enum TrackerError {
    /// The tracker's answer is no bencoded dictionary.
    Bencode(ParseError),
    /// The HTTP request failed.
    Http,
    /// A socket could not be opened, written or read.
    Io,
    /// The tracker's answer is too short to hold its fixed fields.
    Slice,
    /// The tracker's answer lacks a field or holds one of the wrong type.
    FailedDecode,
    NotHttpsAble,
    /// The URL's scheme is none of `http`, `https` and `udp`.
    UnknownTrackerProtocol,
    /// The text is no URL.
    InvalidUrl,
    /// The tracker answered with another action than the one asked for.
    MissMatchAction,
    /// The tracker's answer does not echo the transaction id.
    MissMatchTransactionId,
}

/// What an announce tells the tracker.
#[derive(Debug)]
pub struct AnnounceConfig {
    pub info_hash: [u8; 20],
    pub peer_id: [u8; 20],
    pub port: u16,
    pub uploaded: u64,
    pub downloaded: u64,
    pub left: u64,
}

/// A tracker's answer.
#[derive(Debug)]
pub enum Responses {
    Failure(FailureResponse),
    Done(OkResponse),
}

#[derive(Debug)]
pub struct FailureResponse {
    pub failure_reason: String,
}

#[derive(Debug)]
pub struct OkResponse {
    /// Seconds to wait before the next announce.
    pub interval: u64,
    /// Seconds below which the tracker wants no announce.
    pub min_interval: Option<u64>,
    /// Seeders number
    pub complete: Option<u64>,
    /// Leechers number
    pub incomplete: Option<u64>,
    pub peers: Peers,
}

/// The mathematical content of a [`Responses`].
#[verifier::ext_equal]
pub enum ResponsesView {
    Failure { failure_reason: Seq<char> },
    Done {
        interval: u64,
        min_interval: Option<u64>,
        complete: Option<u64>,
        incomplete: Option<u64>,
        peers: Seq<((u8, u8, u8, u8), u16)>,
    },
}

impl View for Responses {
    type V = ResponsesView;

    open spec fn view(&self) -> ResponsesView {
        match self {
            Responses::Failure(f) => ResponsesView::Failure { failure_reason: f.failure_reason@ },
            Responses::Done(d) => ResponsesView::Done {
                interval: d.interval,
                min_interval: d.min_interval,
                complete: d.complete,
                incomplete: d.incomplete,
                peers: d.peers@,
            },
        }
    }
}

/// The number that opens every connect request of the UDP tracker protocol.
pub const UDP_MAGIC_CONSTANT: u64 = 0x41727101980;

/// The action number of a connect.
pub const ACTION_CONNECT: u32 = 0;

/// The action number of an announce.
pub const ACTION_ANNOUNCE: u32 = 1;

/// The sixteen bytes of a connect request: the magic number, the action
/// and the transaction id.
pub open spec fn connect_request_bytes(transaction_id: u32) -> Seq<u8> {
    be64(UDP_MAGIC_CONSTANT) + be32(ACTION_CONNECT) + be32(transaction_id)
}

/// The connect request to send.
pub fn connect_request(transaction_id: u32) -> (r: Vec<u8>)
    ensures
        r@ == connect_request_bytes(transaction_id),
{
    let mut buf: Vec<u8> = Vec::new();
    push_be64(&mut buf, UDP_MAGIC_CONSTANT);
    push_be32(&mut buf, ACTION_CONNECT);
    push_be32(&mut buf, transaction_id);
    assert(buf@ =~= connect_request_bytes(transaction_id));
    buf
}

/// What an answer to a connect request says: the connection id, where the
/// answer has its sixteen bytes, names the connect action and echoes the
/// transaction id.
pub open spec fn connect_response_of(buf: Seq<u8>, transaction_id: u32) -> Result<u64, TrackerError> {
    if buf.len() < 16 {
        Err(TrackerError::Slice)
    } else if from_be32(buf, 0) != ACTION_CONNECT {
        Err(TrackerError::MissMatchAction)
    } else if from_be32(buf, 4) != transaction_id {
        Err(TrackerError::MissMatchTransactionId)
    } else {
        Ok(from_be64(buf, 8))
    }
}

/// Reads the answer to the connect request that carried `transaction_id`.
pub fn parse_connect_response(buf: &[u8], transaction_id: u32) -> (r: Result<u64, TrackerError>)
    ensures
        r == connect_response_of(buf@, transaction_id),
{
    if buf.len() < 16 {
        return Err(TrackerError::Slice);
    }
    let action = read_be32(buf, 0);
    let rec_transaction_id = read_be32(buf, 4);
    let connection_id = read_be64(buf, 8);
    if action != ACTION_CONNECT {
        return Err(TrackerError::MissMatchAction);
    }
    if rec_transaction_id != transaction_id {
        return Err(TrackerError::MissMatchTransactionId);
    }
    Ok(connection_id)
}

/// The 98 bytes of an announce request. The event and the IP address are
/// zero, and the number of peers wanted is -1: as many as the tracker gives.
pub open spec fn announce_request_bytes(
    connection_id: u64,
    transaction_id: u32,
    key: u32,
    info_hash: Seq<u8>,
    peer_id: Seq<u8>,
    downloaded: u64,
    left: u64,
    uploaded: u64,
    port: u16,
) -> Seq<u8> {
    be64(connection_id) + be32(ACTION_ANNOUNCE) + be32(transaction_id) + info_hash + peer_id + be64(
        downloaded,
    ) + be64(left) + be64(uploaded) + be32(0) + be32(0) + be32(key) + be32(0xFFFF_FFFF) + be16(
        port,
    )
}

/// The announce request to send.
pub fn announce_request(
    connection_id: u64,
    transaction_id: u32,
    key: u32,
    config: &AnnounceConfig,
) -> (r: Vec<u8>)
    ensures
        r@ == announce_request_bytes(
            connection_id,
            transaction_id,
            key,
            config.info_hash@,
            config.peer_id@,
            config.downloaded,
            config.left,
            config.uploaded,
            config.port,
        ),
        r@.len() == 98,
{
    let mut buf: Vec<u8> = Vec::new();
    push_be64(&mut buf, connection_id);
    push_be32(&mut buf, ACTION_ANNOUNCE);
    push_be32(&mut buf, transaction_id);
    push_all(&mut buf, config.info_hash.as_slice());
    push_all(&mut buf, config.peer_id.as_slice());
    push_be64(&mut buf, config.downloaded);
    push_be64(&mut buf, config.left);
    push_be64(&mut buf, config.uploaded);
    push_be32(&mut buf, 0);
    push_be32(&mut buf, 0);
    push_be32(&mut buf, key);
    push_be32(&mut buf, 0xFFFF_FFFF);
    push_be16(&mut buf, config.port);
    assert(buf@ =~= announce_request_bytes(
        connection_id,
        transaction_id,
        key,
        config.info_hash@,
        config.peer_id@,
        config.downloaded,
        config.left,
        config.uploaded,
        config.port,
    ));
    buf
}

/// Whether `peer` is more than a zero-filled record.
pub open spec fn is_real_peer(peer: ((u8, u8, u8, u8), u16)) -> bool {
    peer != ((0u8, 0u8, 0u8, 0u8), 0u16)
}

/// The peers of an announce answer over UDP: the 6-byte records of `raw`,
/// without those that are all zeros.
pub open spec fn udp_peers(raw: Seq<u8>) -> Seq<((u8, u8, u8, u8), u16)> {
    compact_peers(raw).filter(|peer: ((u8, u8, u8, u8), u16)| is_real_peer(peer))
}

/// What an answer to an announce request says, where the answer has its
/// twenty fixed bytes, names the announce action and echoes the transaction
/// id: the interval, the leechers, the seeders, and the peers that the rest
/// of the answer names.
pub open spec fn announce_response_of(buf: Seq<u8>, transaction_id: u32) -> Result<
    ResponsesView,
    TrackerError,
> {
    if buf.len() < 20 {
        Err(TrackerError::Slice)
    } else if from_be32(buf, 0) != ACTION_ANNOUNCE {
        Err(TrackerError::MissMatchAction)
    } else if from_be32(buf, 4) != transaction_id {
        Err(TrackerError::MissMatchTransactionId)
    } else {
        Ok(
            ResponsesView::Done {
                interval: from_be32(buf, 8) as u64,
                min_interval: None,
                complete: Some(from_be32(buf, 16) as u64),
                incomplete: Some(from_be32(buf, 12) as u64),
                peers: udp_peers(buf.subrange(20, buf.len() as int)),
            },
        )
    }
}

/// The peers that the records of `raw` name, without zero-filled records.
pub fn read_udp_peers(raw: &[u8]) -> (peers: Peers)
    ensures
        peers@ == udp_peers(raw@),
{
    let ghost all = compact_peers(raw@);
    let ghost keep = |peer: ((u8, u8, u8, u8), u16)| is_real_peer(peer);
    let count: usize = raw.len() / 6;
    let mut peers: Peers = Vec::new();
    let mut i: usize = 0;
    proof {
        reveal(Seq::filter);
        assert(all.subrange(0, 0) =~= Seq::<((u8, u8, u8, u8), u16)>::empty());
    }
    while i < count
        invariant
            i <= count,
            count == raw.len() / 6,
            count * 6 <= raw.len(),
            all == compact_peers(raw@),
            keep == (|peer: ((u8, u8, u8, u8), u16)| is_real_peer(peer)),
            peers@ == all.subrange(0, i as int).filter(keep),
        decreases count - i,
    {
        let at: usize = i * 6;
        let port: u16 = (raw[at + 4] as u16) * 256 + raw[at + 5] as u16;
        let peer = ((raw[at], raw[at + 1], raw[at + 2], raw[at + 3]), port);
        proof {
            reveal(Seq::filter);
            assert(peer == peer_of(raw@.subrange(i * 6, i * 6 + 6)));
            assert(all.subrange(0, i + 1).drop_last() =~= all.subrange(0, i as int));
            assert(all.subrange(0, i + 1).last() == peer);
        }
        if !(peer.0.0 == 0 && peer.0.1 == 0 && peer.0.2 == 0 && peer.0.3 == 0 && peer.1 == 0) {
            peers.push(peer);
        }
        i = i + 1;
    }
    assert(all.subrange(0, count as int) =~= all);
    peers
}

/// Reads the answer to the announce request that carried `transaction_id`.
pub fn parse_announce_response(buf: &[u8], transaction_id: u32) -> (r: Result<
    Responses,
    TrackerError,
>)
    ensures
        match announce_response_of(buf@, transaction_id) {
            Ok(response) => r matches Ok(v) && v@ == response,
            Err(e) => r matches Err(err) && err == e,
        },
{
    if buf.len() < 20 {
        return Err(TrackerError::Slice);
    }
    let rec_action = read_be32(buf, 0);
    let rec_transaction_id = read_be32(buf, 4);
    let interval = read_be32(buf, 8) as u64;
    let incomplete = Some(read_be32(buf, 12) as u64);
    let complete = Some(read_be32(buf, 16) as u64);
    let peers = read_udp_peers(slice_subrange(buf, 20, buf.len()));
    if rec_action != ACTION_ANNOUNCE {
        return Err(TrackerError::MissMatchAction);
    }
    if rec_transaction_id != transaction_id {
        return Err(TrackerError::MissMatchTransactionId);
    }
    Ok(Responses::Done(OkResponse { interval, min_interval: None, complete, incomplete, peers }))
}

/// An announce over UDP that waits for the answer to its connect request.
pub struct UdpConnect {
    /// The transaction id that the connect request carries.
    pub transaction_id: u32,
}

/// An announce over UDP that waits for the answer to its announce request.
pub struct UdpAnnounce {
    /// The transaction id that the announce request carries.
    pub transaction_id: u32,
    /// The key that the announce request carries.
    pub key: u32,
}

impl UdpConnect {
    /// Begins an announce over UDP: draws a transaction id and gives the
    /// connect request to send.
    pub fn start() -> (r: (UdpConnect, Vec<u8>))
        ensures
            r.1@ == connect_request_bytes(r.0.transaction_id),
    {
        let transaction_id = random_u32();
        (UdpConnect { transaction_id }, connect_request(transaction_id))
    }

    /// Takes the tracker's answer to the connect request. Where the answer
    /// names another action or does not echo the transaction id, the
    /// announce has failed; else a fresh transaction id and a key are drawn,
    /// and the announce request to send comes back.
    pub fn answer(self, buf: &[u8], config: &AnnounceConfig) -> (r: Result<
        (UdpAnnounce, Vec<u8>),
        TrackerError,
    >)
        ensures
            match connect_response_of(buf@, self.transaction_id) {
                Ok(connection_id) => r matches Ok((next, request)) && request@
                    == announce_request_bytes(
                    connection_id,
                    next.transaction_id,
                    next.key,
                    config.info_hash@,
                    config.peer_id@,
                    config.downloaded,
                    config.left,
                    config.uploaded,
                    config.port,
                ),
                Err(e) => r matches Err(err) && err == e,
            },
    {
        match parse_connect_response(buf, self.transaction_id) {
            Err(e) => Err(e),
            Ok(connection_id) => {
                let transaction_id = random_u32();
                let key = random_u32();
                let request = announce_request(connection_id, transaction_id, key, config);
                Ok((UdpAnnounce { transaction_id, key }, request))
            },
        }
    }
}

impl UdpAnnounce {
    /// Takes the tracker's answer to the announce request.
    pub fn answer(self, buf: &[u8]) -> (r: Result<Responses, TrackerError>)
        ensures
            match announce_response_of(buf@, self.transaction_id) {
                Ok(response) => r matches Ok(v) && v@ == response,
                Err(e) => r matches Err(err) && err == e,
            },
    {
        parse_announce_response(buf, self.transaction_id)
    }
}

/// Both transports name peers alike: where no record is all zeros, an
/// announce answer over UDP gives for the same bytes the same peers, in the
/// same order, as a compact peer string in an HTTP answer.
pub proof fn lemma_tracker_parity(raw: Seq<u8>)
    requires
        forall|i: int| 0 <= i < compact_peers(raw).len() ==> is_real_peer(#[trigger] compact_peers(raw)[i]),
    ensures
        udp_peers(raw) == compact_peers(raw),
{
    lemma_filter_all(compact_peers(raw));
}

/// A list without zero-filled records loses nothing when these are dropped.
pub proof fn lemma_filter_all(peers: Seq<((u8, u8, u8, u8), u16)>)
    requires
        forall|i: int| 0 <= i < peers.len() ==> is_real_peer(#[trigger] peers[i]),
    ensures
        peers.filter(|peer: ((u8, u8, u8, u8), u16)| is_real_peer(peer)) == peers,
    decreases peers.len(),
{
    reveal(Seq::filter);
    if peers.len() > 0 {
        lemma_filter_all(peers.drop_last());
        assert(peers.drop_last().push(peers.last()) =~= peers);
    }
}

} // verus!
