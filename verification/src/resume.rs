use std::collections::HashSet;
use vstd::prelude::*;

use crate::hash::{hash_matches, sha1_digest};
use crate::pieces::spec_piece_size;
use crate::torrent_file::{Info, InfoView};

verus! {

broadcast use vstd::std_specs::hash::group_hash_axioms;

/// What a read of `len` bytes at `offset` brings from a file that holds
/// `file`: the bytes that are there, and zeros where the file has ended.
pub open spec fn spec_region(file: Seq<u8>, offset: int, len: int) -> Seq<u8> {
    Seq::new(
        len as nat,
        |k: int|
            if offset + k < file.len() {
                file[offset + k]
            } else {
                0u8
            },
    )
}

/// The region of the file where piece `index` lies.
pub open spec fn piece_region(file: Seq<u8>, info: InfoView, index: int) -> Seq<u8> {
    spec_region(
        file,
        index * info.piece_length,
        spec_piece_size(index, info.pieces.len() as int, info.length as int, info.piece_length as int),
    )
}

/// The regions of all the pieces, in order.
pub open spec fn piece_regions(file: Seq<u8>, info: InfoView) -> Seq<Seq<u8>> {
    Seq::new(info.pieces.len(), |i: int| piece_region(file, info, i))
}

/// The pieces among the first `chunks.len()` whose chunk hashes to the
/// piece's digest.
pub open spec fn matching_pieces(chunks: Seq<Seq<u8>>, digests: Seq<Seq<u8>>) -> Set<usize> {
    Set::new(
        |i: usize| i < chunks.len() && i < digests.len() && sha1_digest(chunks[i as int]) == digests[i as int],
    )
}

/// The pieces that a file already holds: none where the file is empty, else
/// those whose region hashes to the piece's digest.
pub open spec fn completed_pieces(file: Seq<u8>, info: InfoView) -> Set<usize> {
    if file.len() == 0 {
        Set::empty()
    } else {
        matching_pieces(piece_regions(file, info), info.pieces)
    }
}

/// The pass over an existing output file that finds the pieces it already
/// holds. The driver asks where to read, reads, and hands the bytes in.
pub struct ResumeScanner {
    /// The piece to read next.
    pub next: usize,
    /// Whether the pass has ended.
    pub done: bool,
    /// The pieces found complete so far.
    pub completed: HashSet<usize>,
    /// What was handed in so far, piece by piece.
    pub seen: Ghost<Seq<Seq<u8>>>,
}

impl ResumeScanner {
    /// Whether the scanner is consistent: it has seen one chunk per piece
    /// that it has passed, and holds the pieces whose chunk matched.
    pub open spec fn wf(&self, info: InfoView) -> bool {
        &&& self.next == self.seen@.len()
        &&& self.next <= info.pieces.len()
        &&& self.completed@ == matching_pieces(self.seen@, info.pieces)
        &&& !self.done ==> self.next < info.pieces.len()
    }

    /// Starts a pass over a file of `file_len` bytes. An empty file holds
    /// nothing, and the pass over it has ended before it began.
    pub fn new(file_len: u64, info: &Info) -> (r: Self)
        ensures
            r.wf(info@),
            r.next == 0,
            r.seen@ == Seq::<Seq<u8>>::empty(),
            r.completed@ == Set::<usize>::empty(),
            r.done == (file_len == 0 || info@.pieces.len() == 0),
    {
        let r = Self {
            next: 0,
            done: file_len == 0 || info.pieces.len() == 0,
            completed: HashSet::new(),
            seen: Ghost(Seq::empty()),
        };
        assert(r.completed@ =~= matching_pieces(r.seen@, info@.pieces));
        r
    }

    /// Where to read next: the offset and the length of the region of the
    /// next piece, or `None` when the pass has ended.
    pub fn next_read(&self, info: &Info) -> (r: Option<(u64, u64)>)
        requires
            info.wf(),
            self.wf(info@),
        ensures
            match r {
                Some((offset, len)) => !self.done && offset == self.next * info.piece_length
                    && len == spec_piece_size(
                    self.next as int,
                    info@.pieces.len() as int,
                    info.length as int,
                    info.piece_length as int,
                ),
                None => self.done,
            },
    {
        if self.done {
            None
        } else {
            Some((info.piece_offset(self.next), info.piece_size(self.next)))
        }
    }

    /// Takes in what was read for the next piece: the piece counts as
    /// complete where these bytes hash to its digest.
    pub fn absorb(&mut self, bytes: &[u8], info: &Info)
        requires
            old(self).wf(info@),
            !old(self).done,
        ensures
            final(self).wf(info@),
            final(self).seen@ == old(self).seen@.push(bytes@),
            final(self).next == old(self).next + 1,
            final(self).completed@ == if sha1_digest(bytes@) == info@.pieces[old(self).next as int] {
                old(self).completed@.insert(old(self).next)
            } else {
                old(self).completed@
            },
    {
        let index = self.next;
        let count = info.pieces.len();
        let ghost before = self.seen@;
        if hash_matches(bytes, &info.pieces[index]) {
            self.completed.insert(index);
        }
        self.seen = Ghost(before.push(bytes@));
        self.next = index + 1;
        self.done = self.next == count;
        assert(self.completed@ =~= matching_pieces(self.seen@, info@.pieces)) by {
            assert forall|i: usize| i < before.len() implies self.seen@[i as int] == before[i as int] by {}
        }
    }

    /// The pieces found complete.
    pub fn finish(self) -> (r: HashSet<usize>)
        ensures
            r@ == self.completed@,
    {
        self.completed
    }
}

/// The pass finds what the file holds: a scanner that was handed the
/// regions of a non-empty file, piece by piece, holds exactly the completed
/// pieces of that file.
pub proof fn lemma_scan_finds_completed(scanner: ResumeScanner, file: Seq<u8>, info: InfoView)
    requires
        scanner.wf(info),
        file.len() > 0,
        scanner.seen@ == piece_regions(file, info),
    ensures
        scanner.completed@ == completed_pieces(file, info),
{
}

/// The pass gives the same answer every time: two scanners that were handed
/// the same bytes hold the same pieces.
pub proof fn lemma_resume_idempotent(first: ResumeScanner, second: ResumeScanner, info: InfoView)
    requires
        first.wf(info),
        second.wf(info),
        first.seen@ == second.seen@,
    ensures
        first.completed@ == second.completed@,
{
}

/// The piece indices `0..n`, in order.
pub fn all_pieces(n: usize) -> (r: Vec<usize>)
    ensures
        r@ == Seq::new(n as nat, |i: int| i as usize),
{
    let mut out: Vec<usize> = Vec::new();
    let mut i: usize = 0;
    while i < n
        invariant
            i <= n,
            out@ == Seq::new(i as nat, |k: int| k as usize),
        decreases n - i,
    {
        out.push(i);
        i = i + 1;
        assert(out@ =~= Seq::new(i as nat, |k: int| k as usize));
    }
    out
}

/// The pieces of `buf` that are not in `completed`, in the order of `buf`.
pub fn retain_not_downloaded_pieces(completed: HashSet<usize>, buf: Vec<usize>) -> (r: Vec<usize>)
    ensures
        r@ == buf@.filter(|e: usize| !completed@.contains(e)),
{
    let ghost keep = |e: usize| !completed@.contains(e);
    let mut out: Vec<usize> = Vec::new();
    let mut i: usize = 0;
    proof {
        reveal(Seq::filter);
        assert(buf@.subrange(0, 0) =~= Seq::<usize>::empty());
    }
    while i < buf.len()
        invariant
            i <= buf.len(),
            keep == (|e: usize| !completed@.contains(e)),
            out@ == buf@.subrange(0, i as int).filter(keep),
        decreases buf.len() - i,
    {
        let e = buf[i];
        proof {
            reveal(Seq::filter);
            assert(buf@.subrange(0, i + 1).drop_last() =~= buf@.subrange(0, i as int));
            assert(buf@.subrange(0, i + 1).last() == e);
        }
        if !completed.contains(&e) {
            out.push(e);
        }
        i = i + 1;
    }
    assert(buf@.subrange(0, buf.len() as int) =~= buf@);
    out
}

/// The queue that a download starts from misses nothing: every piece is
/// either complete or in the queue, and the queue holds no complete piece.
pub proof fn lemma_seed_covers(completed: Set<usize>, n: usize, index: usize)
    ensures
        ({
            let queue = Seq::new(n as nat, |i: int| i as usize).filter(
                |e: usize| !completed.contains(e),
            );
            &&& index < n ==> (queue.contains(index) <==> !completed.contains(index))
            &&& queue.contains(index) ==> index < n
        }),
{
    let all = Seq::new(n as nat, |i: int| i as usize);
    let keep = |e: usize| !completed.contains(e);
    let queue = all.filter(keep);
    if index < n {
        assert(all[index as int] == index);
        if !completed.contains(index) {
            all.lemma_filter_contains(keep, index as int);
        }
    }
    if queue.contains(index) {
        all.lemma_filter_contains_rev(keep, index);
        let i = choose|i: int| 0 <= i < all.len() && all[i] == index;
        let k = choose|k: int| 0 <= k < queue.len() && queue[k] == index;
        all.lemma_filter_pred(keep, k);
    }
}

} // verus!
