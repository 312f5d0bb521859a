use vstd::prelude::*;

use crate::message::Message;
use crate::torrent_file::Info;

verus! {

/// The most bytes that one request asks for.
pub const BLOCK_SIZE: u64 = 16384;

/// The size of piece `index` of `num_pieces`: every piece has
/// `piece_length` bytes, but the last has what is left of `length` where
/// that is not a whole piece.
pub open spec fn spec_piece_size(index: int, num_pieces: int, length: int, piece_length: int) -> int {
    if index == num_pieces - 1 && length % piece_length != 0 {
        length % piece_length
    } else {
        piece_length
    }
}

/// How many pieces a file of `length` bytes is cut into: its length over
/// the piece length, rounded up.
pub open spec fn spec_num_pieces(length: int, piece_length: int) -> int {
    if length % piece_length == 0 {
        length / piece_length
    } else {
        length / piece_length + 1
    }
}

/// The pieces lie end to end in the file and the last one ends where the
/// file ends: piece `index` occupies the bytes from `index * piece_length`
/// on, as many as its size says.
pub proof fn lemma_pieces_cover(length: int, piece_length: int, index: int)
    requires
        length > 0,
        piece_length > 0,
        0 <= index < spec_num_pieces(length, piece_length),
    ensures
        ({
            let count = spec_num_pieces(length, piece_length);
            let size = spec_piece_size(index, count, length, piece_length);
            &&& 0 < size <= piece_length
            &&& index * piece_length + size <= length
            &&& index + 1 < count ==> index * piece_length + size == (index + 1) * piece_length
            &&& index + 1 == count ==> index * piece_length + size == length
        }),
{
    assert(length == piece_length * (length / piece_length) + length % piece_length)
        by (nonlinear_arith)
        requires
            piece_length > 0,
    ;
    assert(0 <= length % piece_length < piece_length) by (nonlinear_arith)
        requires
            piece_length > 0,
    ;
    assert((index + 1) * piece_length == index * piece_length + piece_length)
        by (nonlinear_arith);
    assert(index + 1 <= length / piece_length ==> (index + 1) * piece_length <= (length
        / piece_length) * piece_length) by (nonlinear_arith)
        requires
            piece_length > 0,
    ;
    assert((length / piece_length) * piece_length == piece_length * (length / piece_length))
        by (nonlinear_arith);
}

/// The size of the blocks of a piece: 16384 bytes, or the whole piece where
/// it is smaller.
pub open spec fn spec_block_size(piece_size: int) -> int {
    if piece_size < BLOCK_SIZE {
        piece_size
    } else {
        BLOCK_SIZE as int
    }
}

/// How many blocks a piece is asked for in: its size over the block size,
/// rounded up.
pub open spec fn spec_num_blocks(piece_size: int) -> int {
    let block = spec_block_size(piece_size);
    if piece_size % block == 0 {
        piece_size / block
    } else {
        piece_size / block + 1
    }
}

/// The length of block `k` of a piece: the block size, but for the last
/// block what is left of the piece where that is not a whole block.
pub open spec fn spec_block_len(piece_size: int, k: int) -> int {
    let block = spec_block_size(piece_size);
    if k == spec_num_blocks(piece_size) - 1 && piece_size % block != 0 {
        piece_size % block
    } else {
        block
    }
}

/// Where block `k` of a piece begins.
pub open spec fn spec_block_begin(piece_size: int, k: int) -> int {
    k * spec_block_size(piece_size)
}

/// A piece is asked for in at least one block.
pub proof fn lemma_num_blocks_positive(piece_size: int)
    requires
        piece_size > 0,
    ensures
        spec_num_blocks(piece_size) >= 1,
{
    let block = spec_block_size(piece_size);
    assert(piece_size / block >= 1) by (nonlinear_arith)
        requires
            0 < block <= piece_size,
    ;
}

/// The blocks of a piece lie end to end and the last one ends where the
/// piece ends.
pub proof fn lemma_blocks_cover(piece_size: int, k: int)
    requires
        piece_size > 0,
        0 <= k < spec_num_blocks(piece_size),
    ensures
        spec_block_len(piece_size, k) > 0,
        spec_block_begin(piece_size, k) + spec_block_len(piece_size, k) <= piece_size,
        k + 1 < spec_num_blocks(piece_size) ==> spec_block_begin(piece_size, k) + spec_block_len(
            piece_size,
            k,
        ) == spec_block_begin(piece_size, k + 1),
        k + 1 == spec_num_blocks(piece_size) ==> spec_block_begin(piece_size, k) + spec_block_len(
            piece_size,
            k,
        ) == piece_size,
{
    let block = spec_block_size(piece_size);
    assert(piece_size == block * (piece_size / block) + piece_size % block) by (nonlinear_arith)
        requires
            block > 0,
    ;
    assert(0 <= piece_size % block < block) by (nonlinear_arith)
        requires
            block > 0,
    ;
    assert((k + 1) * block == k * block + block) by (nonlinear_arith);
    let n = spec_num_blocks(piece_size);
    assert(k + 1 <= piece_size / block ==> (k + 1) * block <= (piece_size / block) * block)
        by (nonlinear_arith)
        requires
            block > 0,
    ;
    assert((piece_size / block) * block == block * (piece_size / block)) by (nonlinear_arith);
}

impl Info {
    /// Whether the pieces can be asked for over the wire.
    pub open spec fn wf(&self) -> bool {
        self@.wf()
    }

    /// Whether the pieces can be asked for over the wire.
    pub fn is_valid(&self) -> (r: bool)
        ensures
            r == self.wf(),
    {
        0 < self.piece_length && self.piece_length <= 0xFFFF_FFFF && self.pieces.len()
            <= 0xFFFF_FFFF
    }

    /// The size of piece `index`.
    pub fn piece_size(&self, index: usize) -> (size: u64)
        requires
            self.piece_length > 0,
        ensures
            size == spec_piece_size(
                index as int,
                self.pieces@.len() as int,
                self.length as int,
                self.piece_length as int,
            ),
            0 < size <= self.piece_length,
    {
        let rest: u64 = self.length % self.piece_length;
        if self.pieces.len() > 0 && index == self.pieces.len() - 1 && rest != 0 {
            rest
        } else {
            self.piece_length
        }
    }

    /// Where piece `index` starts in the output file.
    pub fn piece_offset(&self, index: usize) -> (offset: u64)
        requires
            self.wf(),
            index < self.pieces@.len(),
        ensures
            offset == index * self.piece_length,
    {
        assert(index * self.piece_length <= 0xFFFF_FFFF * 0xFFFF_FFFF) by (nonlinear_arith)
            requires
                index <= 0xFFFF_FFFF,
                self.piece_length <= 0xFFFF_FFFF,
        ;
        index as u64 * self.piece_length
    }
}

/// The size of the blocks of a piece of `piece_size` bytes.
pub fn block_size(piece_size: u64) -> (size: u64)
    ensures
        size == spec_block_size(piece_size as int),
{
    if piece_size < BLOCK_SIZE {
        piece_size
    } else {
        BLOCK_SIZE
    }
}

/// How many blocks a piece of `piece_size` bytes is asked for in.
pub fn num_blocks(piece_size: u64) -> (n: u64)
    requires
        piece_size > 0,
    ensures
        n == spec_num_blocks(piece_size as int),
        n > 0,
{
    let block = block_size(piece_size);
    if piece_size < BLOCK_SIZE {
        assert(piece_size % piece_size == 0 && piece_size / piece_size == 1) by (nonlinear_arith)
            requires
                piece_size > 0,
        ;
        1
    } else if piece_size % BLOCK_SIZE == 0 {
        piece_size / BLOCK_SIZE
    } else {
        piece_size / BLOCK_SIZE + 1
    }
}

/// The request for block `k` of piece `index`, the piece having
/// `piece_size` bytes.
pub fn block_request(index: u32, piece_size: u32, k: u32) -> (r: Message)
    requires
        piece_size > 0,
        k < spec_num_blocks(piece_size as int),
    ensures
        r == (Message::Request {
            index,
            begin: spec_block_begin(piece_size as int, k as int) as u32,
            length: spec_block_len(piece_size as int, k as int) as u32,
        }),
        spec_block_begin(piece_size as int, k as int) + spec_block_len(
            piece_size as int,
            k as int,
        ) <= piece_size,
{
    proof {
        lemma_blocks_cover(piece_size as int, k as int);
    }
    let size: u64 = piece_size as u64;
    let block = block_size(size);
    let count = num_blocks(size);
    let length: u64 = if k as u64 == count - 1 && size % block != 0 {
        size % block
    } else {
        block
    };
    assert(k * block >= 0) by (nonlinear_arith)
        requires
            k >= 0,
            block >= 0,
    ;
    let begin: u64 = k as u64 * block;
    Message::Request { index, begin: begin as u32, length: length as u32 }
}

} // verus!
