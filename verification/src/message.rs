use vstd::prelude::*;

use vstd::slice::slice_subrange;
use vstd::slice::slice_to_vec;

use crate::wire::{be32, from_be32, lemma_from_be32_round_trip, push_all, push_be32, read_be32};

verus! {

/// A message of the peer wire protocol.
#[derive(Debug)]
pub enum Message {
    KeepAlive,
    Choke,
    UnChoke,
    Interested,
    NotInterested,
    Have { index: u32 },
    /// Which pieces the sender has: piece 0 is the highest bit of the first
    /// byte.
    BitField { bits: Vec<u8> },
    Request { index: u32, begin: u32, length: u32 },
    Cancel { index: u32, begin: u32, length: u32 },
    Piece { index: u32, begin: u32, piece: Vec<u8> },
}

/// Why a message cannot be framed.
#[derive(Clone, Copy, Debug, PartialEq, Eq, Structural)]
pub enum MessageError {
    /// The payload is longer than a 32-bit length prefix can say.
    TooLong,
}

pub const ID_CHOKE: u8 = 0;

pub const ID_UNCHOKE: u8 = 1;

pub const ID_INTERESTED: u8 = 2;

pub const ID_NOT_INTERESTED: u8 = 3;

pub const ID_HAVE: u8 = 4;

pub const ID_BITFIELD: u8 = 5;

pub const ID_REQUEST: u8 = 6;

pub const ID_PIECE: u8 = 7;

pub const ID_CANCEL: u8 = 8;

impl Message {
    /// What follows the length prefix: nothing for a keep-alive, else the
    /// id and the fields, integers high byte first.
    pub open spec fn payload(&self) -> Seq<u8> {
        match self {
            Message::KeepAlive => Seq::empty(),
            Message::Choke => seq![ID_CHOKE],
            Message::UnChoke => seq![ID_UNCHOKE],
            Message::Interested => seq![ID_INTERESTED],
            Message::NotInterested => seq![ID_NOT_INTERESTED],
            Message::Have { index } => seq![ID_HAVE] + be32(*index),
            Message::BitField { bits } => seq![ID_BITFIELD] + bits@,
            Message::Request { index, begin, length } => seq![ID_REQUEST] + be32(*index) + be32(
                *begin,
            ) + be32(*length),
            Message::Cancel { index, begin, length } => seq![ID_CANCEL] + be32(*index) + be32(
                *begin,
            ) + be32(*length),
            Message::Piece { index, begin, piece } => seq![ID_PIECE] + be32(*index) + be32(*begin)
                + piece@,
        }
    }

    /// The frame of a message whose payload fits: the payload's length in
    /// four bytes, then the payload.
    pub open spec fn frame(&self) -> Seq<u8> {
        be32(self.payload().len() as u32) + self.payload()
    }

    /// The frame of this message, or `TooLong` where the payload has more
    /// than `u32::MAX` bytes.
    pub fn as_bytes(&self) -> (r: Result<Vec<u8>, MessageError>)
        ensures
            match r {
                Ok(bytes) => self.payload().len() <= u32::MAX && bytes@ == self.frame(),
                Err(e) => self.payload().len() > u32::MAX,
            },
    {
        let mut buf: Vec<u8> = Vec::new();
        match self {
            Message::KeepAlive => {
                push_be32(&mut buf, 0);
            },
            Message::Choke => {
                push_be32(&mut buf, 1);
                buf.push(ID_CHOKE);
            },
            Message::UnChoke => {
                push_be32(&mut buf, 1);
                buf.push(ID_UNCHOKE);
            },
            Message::Interested => {
                push_be32(&mut buf, 1);
                buf.push(ID_INTERESTED);
            },
            Message::NotInterested => {
                push_be32(&mut buf, 1);
                buf.push(ID_NOT_INTERESTED);
            },
            Message::Have { index } => {
                push_be32(&mut buf, 5);
                buf.push(ID_HAVE);
                push_be32(&mut buf, *index);
            },
            Message::BitField { bits } => {
                if bits.len() > 0xFFFF_FFFE {
                    return Err(MessageError::TooLong);
                }
                push_be32(&mut buf, bits.len() as u32 + 1);
                buf.push(ID_BITFIELD);
                push_all(&mut buf, bits.as_slice());
            },
            Message::Request { index, begin, length } => {
                push_be32(&mut buf, 13);
                buf.push(ID_REQUEST);
                push_be32(&mut buf, *index);
                push_be32(&mut buf, *begin);
                push_be32(&mut buf, *length);
            },
            Message::Piece { index, begin, piece } => {
                if piece.len() > 0xFFFF_FFF6 {
                    return Err(MessageError::TooLong);
                }
                push_be32(&mut buf, piece.len() as u32 + 9);
                buf.push(ID_PIECE);
                push_be32(&mut buf, *index);
                push_be32(&mut buf, *begin);
                push_all(&mut buf, piece.as_slice());
            },
            Message::Cancel { index, begin, length } => {
                push_be32(&mut buf, 13);
                buf.push(ID_CANCEL);
                push_be32(&mut buf, *index);
                push_be32(&mut buf, *begin);
                push_be32(&mut buf, *length);
            },
        };
        assert(buf@ =~= self.frame());
        Ok(buf)
    }
}

impl Message {
    /// Reads the payload of a frame: the message whose payload `body` is,
    /// or `None` where no message has this payload. An empty payload is a
    /// keep-alive.
    pub fn from_payload(body: &[u8]) -> (r: Option<Message>)
        ensures
            match r {
                Some(m) => m.payload() == body@,
                None => forall|m: Message| m.payload() != body@,
            },
    {
        let n = body.len();
        if n == 0 {
            assert(Message::KeepAlive.payload() =~= body@);
            return Some(Message::KeepAlive);
        }
        let id = body[0];
        let r = if id == ID_CHOKE && n == 1 {
            Some(Message::Choke)
        } else if id == ID_UNCHOKE && n == 1 {
            Some(Message::UnChoke)
        } else if id == ID_INTERESTED && n == 1 {
            Some(Message::Interested)
        } else if id == ID_NOT_INTERESTED && n == 1 {
            Some(Message::NotInterested)
        } else if id == ID_HAVE && n == 5 {
            proof {
                lemma_from_be32_round_trip(body@, 1);
            }
            Some(Message::Have { index: read_be32(body, 1) })
        } else if id == ID_BITFIELD {
            Some(Message::BitField { bits: slice_to_vec(slice_subrange(body, 1, n)) })
        } else if (id == ID_REQUEST || id == ID_CANCEL) && n == 13 {
            proof {
                lemma_from_be32_round_trip(body@, 1);
                lemma_from_be32_round_trip(body@, 5);
                lemma_from_be32_round_trip(body@, 9);
            }
            let index = read_be32(body, 1);
            let begin = read_be32(body, 5);
            let length = read_be32(body, 9);
            if id == ID_REQUEST {
                Some(Message::Request { index, begin, length })
            } else {
                Some(Message::Cancel { index, begin, length })
            }
        } else if id == ID_PIECE && n >= 9 {
            proof {
                lemma_from_be32_round_trip(body@, 1);
                lemma_from_be32_round_trip(body@, 5);
            }
            Some(
                Message::Piece {
                    index: read_be32(body, 1),
                    begin: read_be32(body, 5),
                    piece: slice_to_vec(slice_subrange(body, 9, n)),
                },
            )
        } else {
            None
        };
        proof {
            if r is Some {
                assert(r->Some_0.payload() =~= body@);
            } else {
                assert forall|m: Message| m.payload() != body@ by {
                    if m.payload() == body@ {
                        assert(m.payload()[0] == id);
                        assert(m.payload().len() == n);
                    }
                }
            }
        }
        r
    }
}

/// How many payload bytes follow a frame's length prefix; none for a
/// keep-alive.
pub fn frame_length(prefix: &[u8; 4]) -> (n: u32)
    ensures
        n == from_be32(prefix@, 0),
{
    read_be32(prefix.as_slice(), 0)
}

/// The handshake that opens a peer connection.
#[derive(Debug)]
pub struct HandShake {
    info_hash: [u8; 20],
    peer_id: [u8; 20],
}

/// The name of the protocol, `BitTorrent protocol`, in ASCII.
pub open spec fn protocol_name() -> Seq<u8> {
    seq![
        66,
        105,
        116,
        84,
        111,
        114,
        114,
        101,
        110,
        116,
        32,
        112,
        114,
        111,
        116,
        111,
        99,
        111,
        108,
    ]
}

/// The 68 bytes of a handshake: the length of the protocol's name, the name,
/// eight reserved zero bytes, the info-hash and the peer id.
pub open spec fn handshake_bytes(info_hash: Seq<u8>, peer_id: Seq<u8>) -> Seq<u8> {
    seq![19u8] + protocol_name() + Seq::new(8, |i: int| 0u8) + info_hash + peer_id
}

impl HandShake {
    /// The info-hash that this handshake carries.
    pub closed spec fn info_hash(&self) -> Seq<u8> {
        self.info_hash@
    }

    /// The peer id that this handshake carries.
    pub closed spec fn peer_id(&self) -> Seq<u8> {
        self.peer_id@
    }

    pub fn new(info_hash: [u8; 20], peer_id: [u8; 20]) -> (r: Self)
        ensures
            r.info_hash() == info_hash@,
            r.peer_id() == peer_id@,
    {
        Self { info_hash, peer_id }
    }

    /// Whether `reply` is a handshake for the same torrent: 68 bytes whose
    /// bytes 28 to 47 are this handshake's info-hash.
    pub fn accepts(&self, reply: &[u8]) -> (r: bool)
        ensures
            r == (reply@.len() == 68 && reply@.subrange(28, 48) == self.info_hash()),
    {
        if reply.len() != 68 {
            return false;
        }
        let mut i: usize = 0;
        while i < 20
            invariant
                i <= 20,
                reply@.len() == 68,
                forall|j: int| 0 <= j < i ==> reply@[28 + j] == self.info_hash@[j],
            decreases 20 - i,
        {
            if reply[28 + i] != self.info_hash[i] {
                assert(reply@.subrange(28, 48)[i as int] != self.info_hash@[i as int]);
                return false;
            }
            i = i + 1;
        }
        assert(reply@.subrange(28, 48) =~= self.info_hash@);
        true
    }

    /// The 68 bytes to send.
    pub fn as_bytes(&self) -> (r: Vec<u8>)
        ensures
            r@ == handshake_bytes(self.info_hash(), self.peer_id()),
            r@.len() == 68,
    {
        let name: [u8; 19] = [
            66,
            105,
            116,
            84,
            111,
            114,
            114,
            101,
            110,
            116,
            32,
            112,
            114,
            111,
            116,
            111,
            99,
            111,
            108,
        ];
        let zeros: [u8; 8] = [0u8; 8];
        let mut buf: Vec<u8> = Vec::new();
        buf.push(19);
        push_all(&mut buf, name.as_slice());
        push_all(&mut buf, zeros.as_slice());
        push_all(&mut buf, self.info_hash.as_slice());
        push_all(&mut buf, self.peer_id.as_slice());
        assert(name@ =~= protocol_name());
        assert(zeros@ =~= Seq::new(8, |i: int| 0u8));
        assert(buf@ =~= handshake_bytes(self.info_hash(), self.peer_id()));
        buf
    }
}

} // verus!
