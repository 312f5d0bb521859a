use std::collections::{HashSet, VecDeque};
use vstd::prelude::*;
use vstd::slice::slice_subrange;

use crate::hash::{hash_matches, sha1_digest};
use crate::message::{
    Message, ID_BITFIELD, ID_CHOKE, ID_HAVE, ID_PIECE, ID_UNCHOKE,
};
use crate::pieces::{
    block_request, lemma_num_blocks_positive, num_blocks, spec_block_begin, spec_block_len, spec_num_blocks, spec_piece_size,
};
use crate::torrent_file::{Info, InfoView};
use crate::wire::{from_be32, push_all, read_be32};

verus! {

broadcast use vstd::std_specs::hash::group_hash_axioms;

/// Why a peer worker ends.
#[derive(Clone, Copy, Debug, PartialEq, Eq, Structural)]
pub enum ConnError {
    /// Reading from or writing to the peer or the file failed.
    Io,
    /// The peer did not answer the connection in time.
    TimeOut,
    /// No piece is left to ask for: the worker is done.
    EmptyQueue,
}

/// The states of the two sides of a connection. This side is `Unset`,
/// `Interested` or `Notinterested`; the peer is `Choked` or `UnChoked`.
#[derive(Clone, Copy, Debug, PartialEq, Eq, Structural)]
pub enum State {
    Choked,
    UnChoked,
    Interested,
    Notinterested,
    /// This side has not said anything yet.
    Unset,
}

/// Where a worker stands in the life of its connection.
#[derive(Clone, Copy, Debug, PartialEq, Eq, Structural)]
pub enum Phase {
    /// After the handshake: taking in what the peer says it has, up to its
    /// first unchoke.
    Preamble,
    /// At the top of the download loop.
    Idle,
    /// Choked: waiting for the peer's next message.
    AwaitUnchoke,
    /// A piece is claimed and its blocks are being asked for.
    Download,
    /// The queue was empty and `not interested` is on its way.
    Closing,
    /// The worker has ended.
    Done,
}

/// What the worker's driver reports.
#[derive(Debug)]
pub enum Event {
    /// What was asked for has been done.
    Resume,
    /// The payload of a frame that was read; empty for a keep-alive.
    Frame(Vec<u8>),
}

/// What the worker's driver has to do next.
#[derive(Debug)]
pub enum Action {
    /// Write this message to the peer, then report `Resume`.
    Send(Message),
    /// Read one frame from the peer and report it.
    Receive,
    /// Write `data` to the output file at `offset`, then report `Resume`.
    Write { index: usize, offset: u64, data: Vec<u8> },
    /// Nothing to do: report `Resume`.
    Continue,
    /// End the worker.
    Exit(ConnError),
}

/// The place value of bit `bit` of a byte, counted from the highest.
pub open spec fn weight(bit: int) -> int {
    if bit == 0 {
        128
    } else if bit == 1 {
        64
    } else if bit == 2 {
        32
    } else if bit == 3 {
        16
    } else if bit == 4 {
        8
    } else if bit == 5 {
        4
    } else if bit == 6 {
        2
    } else {
        1
    }
}

/// Whether a bitfield says that the peer has `piece`: piece 0 is the
/// highest bit of the first byte.
pub open spec fn bitfield_has(bits: Seq<u8>, piece: int) -> bool {
    0 <= piece < 8 * bits.len() && (bits[piece / 8] as int / weight(piece % 8)) % 2 == 1
}

/// The pieces that a bitfield names.
pub open spec fn bitfield_pieces(bits: Seq<u8>) -> Set<usize> {
    Set::new(|piece: usize| bitfield_has(bits, piece as int))
}

/// The state of one peer connection.
pub struct PeerConnManager {
    /// Whether this side has said it is interested.
    pub my_state: State,
    /// Whether the peer chokes this side.
    pub state: State,
    /// The pieces that the peer has said it has and that this worker has
    /// not claimed.
    pub peer_pieces: HashSet<usize>,
    pub phase: Phase,
    /// The piece that is claimed, while in phase `Download`.
    pub index: usize,
    /// Its size in bytes.
    pub piece_size: u32,
    /// How many of its blocks have come in.
    pub received: u32,
    /// Their bytes, in order.
    pub data: Vec<u8>,
}

/// The mathematical content of a [`PeerConnManager`].
#[verifier::ext_equal]
pub struct ConnView {
    pub my_state: State,
    pub state: State,
    pub peer_pieces: Set<usize>,
    pub phase: Phase,
    pub index: usize,
    pub piece_size: u32,
    pub received: u32,
    pub data: Seq<u8>,
}

impl View for PeerConnManager {
    type V = ConnView;

    open spec fn view(&self) -> ConnView {
        ConnView {
            my_state: self.my_state,
            state: self.state,
            peer_pieces: self.peer_pieces@,
            phase: self.phase,
            index: self.index,
            piece_size: self.piece_size,
            received: self.received,
            data: self.data@,
        }
    }
}

/// The mathematical content of an [`Event`].
pub enum EventView {
    Resume,
    Frame(Seq<u8>),
}

impl View for Event {
    type V = EventView;

    open spec fn view(&self) -> EventView {
        match self {
            Event::Resume => EventView::Resume,
            Event::Frame(body) => EventView::Frame(body@),
        }
    }
}

/// The mathematical content of an [`Action`].
#[verifier::ext_equal]
pub enum ActionView {
    Send(Message),
    Receive,
    Write { index: usize, offset: u64, data: Seq<u8> },
    Continue,
    Exit(ConnError),
}

impl View for Action {
    type V = ActionView;

    open spec fn view(&self) -> ActionView {
        match self {
            Action::Send(m) => ActionView::Send(*m),
            Action::Receive => ActionView::Receive,
            Action::Write { index, offset, data } => ActionView::Write {
                index: *index,
                offset: *offset,
                data: data@,
            },
            Action::Continue => ActionView::Continue,
            Action::Exit(e) => ActionView::Exit(*e),
        }
    }
}

/// What a step comes to: the connection and the queue after it, and what
/// the driver is asked to do.
pub struct Outcome {
    pub conn: ConnView,
    pub queue: Seq<usize>,
    pub action: ActionView,
}

/// The request for block `k` of piece `index`.
pub open spec fn spec_request(index: usize, piece_size: u32, k: int) -> Message {
    Message::Request {
        index: index as u32,
        begin: spec_block_begin(piece_size as int, k) as u32,
        length: spec_block_len(piece_size as int, k) as u32,
    }
}

/// Whether `body` is the payload of a `piece` message.
pub open spec fn is_piece(body: Seq<u8>) -> bool {
    body.len() >= 9 && body[0] == ID_PIECE
}

/// Whether `body` is the payload of a `bitfield` message.
pub open spec fn is_bitfield(body: Seq<u8>) -> bool {
    body.len() >= 1 && body[0] == ID_BITFIELD
}

/// Whether `body` is the payload of a `have` message.
pub open spec fn is_have(body: Seq<u8>) -> bool {
    body.len() == 5 && body[0] == ID_HAVE
}

/// The connection after the claimed piece went back to the end of the queue
/// and among the peer's pieces.
pub open spec fn give_back(pre: ConnView, queue: Seq<usize>, state: State) -> Outcome {
    Outcome {
        conn: ConnView {
            state,
            peer_pieces: pre.peer_pieces.insert(pre.index),
            phase: Phase::Idle,
            data: Seq::empty(),
            ..pre
        },
        queue: queue.push(pre.index),
        action: ActionView::Continue,
    }
}

/// One step of a peer worker, from the connection, what the driver reports
/// and the shared queue to the connection and the queue afterwards and what
/// the driver is to do next.
///
/// In the preamble the worker takes in `bitfield` and `have` up to the first
/// `unchoke`; any other message ends the preamble. In the download loop it
/// says it is interested once, waits while choked, and when unchoked takes
/// the piece at the head of the queue: a piece that the peer lacks goes back
/// to the tail, any other is claimed and asked for block by block. A `choke`
/// in between gives the piece back. When the last block is in, the piece is
/// written if it hashes to its digest and given back if not. With the queue
/// empty the worker says it is not interested and ends.
pub open spec fn spec_step(pre: ConnView, event: EventView, queue: Seq<usize>, info: InfoView) -> Outcome {
    let keep = Outcome { conn: pre, queue, action: ActionView::Receive };
    let to_idle = Outcome {
        conn: ConnView { phase: Phase::Idle, ..pre },
        queue,
        action: ActionView::Continue,
    };
    let unchoked = Outcome {
        conn: ConnView { state: State::UnChoked, phase: Phase::Idle, ..pre },
        queue,
        action: ActionView::Continue,
    };
    match pre.phase {
        Phase::Preamble => match event {
            EventView::Resume => keep,
            EventView::Frame(body) => if is_bitfield(body) {
                Outcome {
                    conn: ConnView {
                        peer_pieces: pre.peer_pieces.union(
                            bitfield_pieces(body.subrange(1, body.len() as int)),
                        ),
                        ..pre
                    },
                    queue,
                    action: ActionView::Receive,
                }
            } else if is_have(body) {
                Outcome {
                    conn: ConnView {
                        peer_pieces: pre.peer_pieces.insert(from_be32(body, 1) as usize),
                        ..pre
                    },
                    queue,
                    action: ActionView::Receive,
                }
            } else if body == seq![ID_UNCHOKE] {
                unchoked
            } else {
                to_idle
            },
        },
        Phase::Idle => if pre.my_state == State::Unset {
            Outcome {
                conn: ConnView { my_state: State::Interested, ..pre },
                queue,
                action: ActionView::Send(Message::Interested),
            }
        } else if pre.state == State::Choked {
            Outcome {
                conn: ConnView { phase: Phase::AwaitUnchoke, ..pre },
                queue,
                action: ActionView::Receive,
            }
        } else if queue.len() == 0 {
            Outcome {
                conn: ConnView { phase: Phase::Closing, ..pre },
                queue,
                action: ActionView::Send(Message::NotInterested),
            }
        } else {
            let index = queue[0];
            let rest = queue.drop_first();
            if index < info.pieces.len() && pre.peer_pieces.contains(index) {
                let size = spec_piece_size(
                    index as int,
                    info.pieces.len() as int,
                    info.length as int,
                    info.piece_length as int,
                ) as u32;
                Outcome {
                    conn: ConnView {
                        peer_pieces: pre.peer_pieces.remove(index),
                        phase: Phase::Download,
                        index,
                        piece_size: size,
                        received: 0,
                        data: Seq::empty(),
                        ..pre
                    },
                    queue: rest,
                    action: ActionView::Send(spec_request(index, size, 0)),
                }
            } else {
                Outcome { conn: pre, queue: rest.push(index), action: ActionView::Continue }
            }
        },
        Phase::AwaitUnchoke => match event {
            EventView::Resume => keep,
            EventView::Frame(body) => if body == seq![ID_UNCHOKE] {
                unchoked
            } else {
                to_idle
            },
        },
        Phase::Download => match event {
            EventView::Resume => keep,
            EventView::Frame(body) => if is_piece(body) {
                let data = pre.data + body.subrange(9, body.len() as int);
                if pre.received + 1 < spec_num_blocks(pre.piece_size as int) {
                    Outcome {
                        conn: ConnView { received: (pre.received + 1) as u32, data, ..pre },
                        queue,
                        action: ActionView::Send(
                            spec_request(pre.index, pre.piece_size, pre.received + 1),
                        ),
                    }
                } else if sha1_digest(data) == info.pieces[pre.index as int] {
                    Outcome {
                        conn: ConnView { phase: Phase::Idle, data: Seq::empty(), ..pre },
                        queue,
                        action: ActionView::Write {
                            index: pre.index,
                            offset: (pre.index * info.piece_length) as u64,
                            data,
                        },
                    }
                } else {
                    give_back(pre, queue, pre.state)
                }
            } else if body == seq![ID_CHOKE] {
                give_back(pre, queue, State::Choked)
            } else {
                keep
            },
        },
        Phase::Closing => Outcome {
            conn: ConnView { phase: Phase::Done, ..pre },
            queue,
            action: ActionView::Exit(ConnError::EmptyQueue),
        },
        Phase::Done => Outcome { conn: pre, queue, action: ActionView::Exit(ConnError::EmptyQueue) },
    }
}

impl ConnView {
    /// Whether a claimed piece is one of the torrent's, with its size and
    /// with a block still to come.
    pub open spec fn wf(self, info: InfoView) -> bool {
        self.phase == Phase::Download ==> {
            &&& self.index < info.pieces.len()
            &&& self.piece_size == spec_piece_size(
                self.index as int,
                info.pieces.len() as int,
                info.length as int,
                info.piece_length as int,
            )
            &&& self.received < spec_num_blocks(self.piece_size as int)
        }
    }

    /// The piece that the worker holds a claim on, if any.
    pub open spec fn claimed(self) -> Set<usize> {
        if self.phase == Phase::Download {
            set![self.index]
        } else {
            Set::empty()
        }
    }
}

impl ActionView {
    /// The piece that this action puts on disk, if any.
    pub open spec fn written(self) -> Set<usize> {
        match self {
            ActionView::Write { index, .. } => set![index],
            _ => Set::empty(),
        }
    }
}

/// Adds to `pieces` the pieces that the bitfield `bits` names.
pub fn absorb_bitfield(pieces: &mut HashSet<usize>, bits: &[u8])
    ensures
        final(pieces)@ == old(pieces)@.union(bitfield_pieces(bits@)),
{
    let mut j: usize = 0;
    assert(pieces@ =~= old(pieces)@.union(
        Set::new(|p: usize| bitfield_has(bits@, p as int) && p < 8 * 0),
    ));
    while j < bits.len() && j <= (usize::MAX - 7) / 8
        invariant
            j <= bits.len(),
            pieces@ == old(pieces)@.union(
                Set::new(|p: usize| bitfield_has(bits@, p as int) && p < 8 * j),
            ),
        decreases bits.len() - j,
    {
        let byte = bits[j];
        let mut bit: usize = 0;
        let mut w: u8 = 128;
        while bit < 8
            invariant
                bit <= 8,
                j < bits.len(),
                j <= (usize::MAX - 7) / 8,
                byte == bits@[j as int],
                bit < 8 ==> w == weight(bit as int),
                pieces@ == old(pieces)@.union(
                    Set::new(|p: usize| bitfield_has(bits@, p as int) && p < 8 * j + bit),
                ),
            decreases 8 - bit,
        {
            let piece: usize = j * 8 + bit;
            let ghost before = pieces@;
            if (byte / w) % 2 == 1 {
                pieces.insert(piece);
            }
            assert(bitfield_has(bits@, piece as int) <==> (byte as int / weight(bit as int)) % 2
                == 1);
            assert(pieces@ =~= old(pieces)@.union(
                Set::new(|p: usize| bitfield_has(bits@, p as int) && p < 8 * j + (bit + 1)),
            ));
            bit = bit + 1;
            w = w / 2;
        }
        j = j + 1;
    }
    assert(pieces@ =~= old(pieces)@.union(bitfield_pieces(bits@))) by {
        assert forall|p: usize| bitfield_has(bits@, p as int) implies p < 8 * j by {
            if j < bits.len() {
                assert(usize::MAX % 8 == 7);
            }
        }
    }
}

impl PeerConnManager {
    /// A connection right after the handshake: nothing said, choked, and
    /// nothing known of what the peer has.
    pub fn new() -> (r: Self)
        ensures
            r@ == (ConnView {
                my_state: State::Unset,
                state: State::Choked,
                peer_pieces: Set::empty(),
                phase: Phase::Preamble,
                index: 0,
                piece_size: 0,
                received: 0,
                data: Seq::empty(),
            }),
    {
        Self {
            my_state: State::Unset,
            state: State::Choked,
            peer_pieces: HashSet::new(),
            phase: Phase::Preamble,
            index: 0,
            piece_size: 0,
            received: 0,
            data: Vec::new(),
        }
    }

    /// Takes in a `bitfield` payload, the id at index 0 and the bits after
    /// it: every piece whose bit is set counts as one that the peer has.
    pub fn read_bitfield(&mut self, buf: &[u8])
        ensures
            final(self)@ == (ConnView {
                peer_pieces: if buf@.len() >= 1 {
                    old(self)@.peer_pieces.union(
                        bitfield_pieces(buf@.subrange(1, buf@.len() as int)),
                    )
                } else {
                    old(self)@.peer_pieces
                },
                ..old(self)@
            }),
    {
        if buf.len() >= 1 {
            absorb_bitfield(&mut self.peer_pieces, slice_subrange(buf, 1, buf.len()));
        }
    }

    /// Takes in a `have` payload, the id at index 0 and the piece index in
    /// the four bytes after it: that piece counts as one that the peer has.
    /// A payload of fewer than five bytes says nothing.
    pub fn read_have(&mut self, buf: &[u8])
        ensures
            final(self)@ == (ConnView {
                peer_pieces: if buf@.len() >= 5 {
                    old(self)@.peer_pieces.insert(from_be32(buf@, 1) as usize)
                } else {
                    old(self)@.peer_pieces
                },
                ..old(self)@
            }),
    {
        if buf.len() >= 5 {
            self.peer_pieces.insert(read_be32(buf, 1) as usize);
        }
    }

    /// Puts `value` back at the tail of the queue and among the peer's
    /// pieces.
    pub fn push_back_to_queue(&mut self, queue: &mut VecDeque<usize>, value: usize)
        ensures
            final(queue)@ == old(queue)@.push(value),
            final(self)@ == (ConnView {
                peer_pieces: old(self)@.peer_pieces.insert(value),
                ..old(self)@
            }),
    {
        queue.push_back(value);
        self.peer_pieces.insert(value);
    }

    /// Whether the peer has said it has `index` and this worker has not
    /// claimed it.
    pub fn has_piece(&self, index: usize) -> (r: bool)
        ensures
            r == self@.peer_pieces.contains(index),
    {
        self.peer_pieces.contains(&index)
    }

    /// Ends the preamble where no frame could be read.
    pub fn end_preamble(&mut self)
        ensures
            final(self)@ == (ConnView {
                phase: if old(self)@.phase == Phase::Preamble {
                    Phase::Idle
                } else {
                    old(self)@.phase
                },
                ..old(self)@
            }),
    {
        if self.phase == Phase::Preamble {
            self.phase = Phase::Idle;
        }
    }

    /// Gives the claimed piece back and returns to the top of the download
    /// loop, the peer's state being `state`.
    fn give_back(&mut self, queue: &mut VecDeque<usize>, state: State) -> (action: Action)
        ensures
            final(self)@ == give_back(old(self)@, old(queue)@, state).conn,
            final(queue)@ == give_back(old(self)@, old(queue)@, state).queue,
            action@ == give_back(old(self)@, old(queue)@, state).action,
    {
        let index = self.index;
        self.state = state;
        self.phase = Phase::Idle;
        self.data = Vec::new();
        self.push_back_to_queue(queue, index);
        Action::Continue
    }

    /// Takes the piece at the head of the queue: claims it and asks for its
    /// first block where the peer has it, and puts it back at the tail where
    /// not. With the queue empty, says that this side is not interested.
    fn claim(&mut self, queue: &mut VecDeque<usize>, info: &Info) -> (action: Action)
        requires
            info.wf(),
            old(self)@.phase == Phase::Idle,
            old(self)@.my_state != State::Unset,
            old(self)@.state != State::Choked,
        ensures
            final(self)@ == spec_step(old(self)@, EventView::Resume, old(queue)@, info@).conn,
            final(queue)@ == spec_step(old(self)@, EventView::Resume, old(queue)@, info@).queue,
            action@ == spec_step(old(self)@, EventView::Resume, old(queue)@, info@).action,
            final(self)@.wf(info@),
    {
        match queue.pop_front() {
            None => {
                self.phase = Phase::Closing;
                Action::Send(Message::NotInterested)
            },
            Some(index) => {
                assert(queue@ == old(queue)@.drop_first());
                if index < info.pieces.len() && self.peer_pieces.contains(&index) {
                    self.peer_pieces.remove(&index);
                    let size: u32 = info.piece_size(index) as u32;
                    proof {
                        lemma_num_blocks_positive(size as int);
                    }
                    self.phase = Phase::Download;
                    self.index = index;
                    self.piece_size = size;
                    self.received = 0;
                    self.data = Vec::new();
                    Action::Send(block_request(index as u32, size, 0))
                } else {
                    queue.push_back(index);
                    Action::Continue
                }
            },
        }
    }

    /// Takes in one block of the claimed piece. Asks for the next block
    /// where one is still to come; else writes the piece where it hashes to
    /// its digest and gives it back where not.
    fn take_block(&mut self, body: &[u8], queue: &mut VecDeque<usize>, info: &Info) -> (action:
        Action)
        requires
            info.wf(),
            old(self)@.wf(info@),
            old(self)@.phase == Phase::Download,
            is_piece(body@),
        ensures
            final(self)@ == spec_step(
                old(self)@,
                EventView::Frame(body@),
                old(queue)@,
                info@,
            ).conn,
            final(queue)@ == spec_step(
                old(self)@,
                EventView::Frame(body@),
                old(queue)@,
                info@,
            ).queue,
            action@ == spec_step(old(self)@, EventView::Frame(body@), old(queue)@, info@).action,
            final(self)@.wf(info@),
    {
        push_all(&mut self.data, slice_subrange(body, 9, body.len()));
        let blocks = num_blocks(self.piece_size as u64);
        if (self.received as u64) + 1 < blocks {
            self.received = self.received + 1;
            Action::Send(block_request(self.index as u32, self.piece_size, self.received))
        } else if hash_matches(self.data.as_slice(), &info.pieces[self.index]) {
            let mut data: Vec<u8> = Vec::new();
            core::mem::swap(&mut self.data, &mut data);
            self.phase = Phase::Idle;
            Action::Write { index: self.index, offset: info.piece_offset(self.index), data }
        } else {
            let state = self.state;
            self.give_back(queue, state)
        }
    }

    /// One step of the worker: see [`spec_step`].
    pub fn step(&mut self, event: Event, queue: &mut VecDeque<usize>, info: &Info) -> (action:
        Action)
        requires
            info.wf(),
            old(self)@.wf(info@),
        ensures
            final(self)@ == spec_step(old(self)@, event@, old(queue)@, info@).conn,
            final(queue)@ == spec_step(old(self)@, event@, old(queue)@, info@).queue,
            action@ == spec_step(old(self)@, event@, old(queue)@, info@).action,
            final(self)@.wf(info@),
    {
        match self.phase {
            Phase::Preamble => match event {
                Event::Resume => Action::Receive,
                Event::Frame(body) => {
                    if body.len() >= 1 && body[0] == ID_BITFIELD {
                        self.read_bitfield(body.as_slice());
                        Action::Receive
                    } else if body.len() == 5 && body[0] == ID_HAVE {
                        self.read_have(body.as_slice());
                        Action::Receive
                    } else if body.len() == 1 && body[0] == ID_UNCHOKE {
                        assert(body@ =~= seq![ID_UNCHOKE]);
                        self.state = State::UnChoked;
                        self.phase = Phase::Idle;
                        Action::Continue
                    } else {
                        self.phase = Phase::Idle;
                        Action::Continue
                    }
                },
            },
            Phase::Idle => {
                if self.my_state == State::Unset {
                    self.my_state = State::Interested;
                    Action::Send(Message::Interested)
                } else if self.state == State::Choked {
                    self.phase = Phase::AwaitUnchoke;
                    Action::Receive
                } else {
                    self.claim(queue, info)
                }
            },
            Phase::AwaitUnchoke => match event {
                Event::Resume => Action::Receive,
                Event::Frame(body) => {
                    if body.len() == 1 && body[0] == ID_UNCHOKE {
                        assert(body@ =~= seq![ID_UNCHOKE]);
                        self.state = State::UnChoked;
                    }
                    self.phase = Phase::Idle;
                    Action::Continue
                },
            },
            Phase::Download => match event {
                Event::Resume => Action::Receive,
                Event::Frame(body) => {
                    if body.len() >= 9 && body[0] == ID_PIECE {
                        self.take_block(body.as_slice(), queue, info)
                    } else if body.len() == 1 && body[0] == ID_CHOKE {
                        assert(body@ =~= seq![ID_CHOKE]);
                        self.give_back(queue, State::Choked)
                    } else {
                        Action::Receive
                    }
                },
            },
            Phase::Closing => {
                self.phase = Phase::Done;
                Action::Exit(ConnError::EmptyQueue)
            },
            Phase::Done => Action::Exit(ConnError::EmptyQueue),
        }
    }
}

/// Only verified pieces are written: a step asks for a write only of a
/// piece of the torrent, only of bytes whose SHA-1 is that piece's digest,
/// and only at the offset that is the piece's index times the piece length.
pub proof fn lemma_written_piece_is_verified(
    pre: ConnView,
    event: EventView,
    queue: Seq<usize>,
    info: InfoView,
)
    requires
        info.wf(),
        pre.wf(info),
    ensures
        spec_step(pre, event, queue, info).action matches ActionView::Write { index, offset, data }
            ==> {
            &&& index < info.pieces.len()
            &&& sha1_digest(data) == info.pieces[index as int]
            &&& offset == index * info.piece_length
        },
{
    if pre.phase == Phase::Download {
        assert(pre.index * info.piece_length <= 0xFFFF_FFFF * 0xFFFF_FFFF) by (nonlinear_arith)
            requires
                pre.index <= 0xFFFF_FFFF,
                info.piece_length <= 0xFFFF_FFFF,
        ;
    }
}

/// No piece is lost or made up by a step: the pieces in the queue, the
/// piece that the worker holds a claim on and the piece that the step has
/// written are together the pieces that were in the queue or claimed before
/// the step.
pub proof fn lemma_step_conserves(pre: ConnView, event: EventView, queue: Seq<usize>, info: InfoView)
    ensures
        ({
            let out = spec_step(pre, event, queue, info);
            out.queue.to_set().union(out.conn.claimed()).union(out.action.written())
                == queue.to_set().union(pre.claimed())
        }),
{
    let out = spec_step(pre, event, queue, info);
    let before = queue.to_set().union(pre.claimed());
    let after = out.queue.to_set().union(out.conn.claimed()).union(out.action.written());
    queue.lemma_push_to_set_commute(pre.index);
    if queue.len() > 0 {
        let rest = queue.drop_first();
        rest.lemma_push_to_set_commute(queue[0]);
        assert(rest.to_set().insert(queue[0]) =~= queue.to_set()) by {
            assert forall|x: usize| queue.to_set().contains(x) implies rest.to_set().insert(
                queue[0],
            ).contains(x) by {
                let i = choose|i: int| 0 <= i < queue.len() && queue[i] == x;
                if i > 0 {
                    assert(rest[i - 1] == x);
                }
            }
            assert forall|x: usize| rest.to_set().contains(x) implies queue.to_set().contains(
                x,
            ) by {
                let i = choose|i: int| 0 <= i < rest.len() && rest[i] == x;
                assert(queue[i + 1] == x);
            }
            assert(queue.to_set().contains(queue[0]));
        }
    }
    assert(after =~= before);
}

} // verus!
