use std::collections::{HashSet, VecDeque};
use vstd::prelude::*;

use crate::random::shuffle;
use crate::resume::{all_pieces, lemma_seed_covers, retain_not_downloaded_pieces};

verus! {

/// With this many peers or more, no tracker is asked for more.
pub const PEER_CAP: usize = 300;

/// What the driver loop does next.
#[derive(Clone, Copy, Debug, PartialEq, Eq, Structural)]
pub enum Tick {
    /// Nothing is left to download and no worker is alive: stop.
    Finish,
    /// Let the workers go on.
    Wait,
    /// Ask a tracker for peers.
    Announce,
}

/// The rule of the driver loop. It stops when the queue and the registry
/// are both empty. It asks a tracker when no worker is alive, and also when
/// the tracker's interval has passed and fewer than [`PEER_CAP`] workers
/// are alive. Otherwise it waits.
pub open spec fn spec_tick(queue_len: usize, peers_len: usize, interval_elapsed: bool) -> Tick {
    if queue_len == 0 && peers_len == 0 {
        Tick::Finish
    } else if peers_len == 0 {
        Tick::Announce
    } else if peers_len < PEER_CAP && interval_elapsed {
        Tick::Announce
    } else {
        Tick::Wait
    }
}

/// What the driver loop does next, given how many pieces are queued, how
/// many workers are alive and whether the tracker's interval has passed.
pub fn next_tick(queue_len: usize, peers_len: usize, interval_elapsed: bool) -> (tick: Tick)
    ensures
        tick == spec_tick(queue_len, peers_len, interval_elapsed),
{
    if queue_len == 0 && peers_len == 0 {
        Tick::Finish
    } else if peers_len == 0 {
        Tick::Announce
    } else if peers_len < PEER_CAP && interval_elapsed {
        Tick::Announce
    } else {
        Tick::Wait
    }
}

/// The seconds to wait before the next announce: the configured interval
/// where there is one, else the tracker's minimum interval where it gave
/// one, else the tracker's interval.
pub fn next_interval(configured: Option<u64>, min_interval: Option<u64>, interval: u64) -> (secs:
    u64)
    ensures
        secs == match configured {
            Some(c) => c,
            None => match min_interval {
                Some(m) => m,
                None => interval,
            },
        },
{
    match configured {
        Some(c) => c,
        None => match min_interval {
            Some(m) => m,
            None => interval,
        },
    }
}

/// The tracker to ask after tracker `current` of `count` has failed: the
/// next one, and the first one after the last.
pub fn next_tracker(current: usize, count: usize) -> (next: usize)
    ensures
        count > 0 ==> next < count,
        count > 0 && current < count - 1 ==> next == current + 1,
        count > 0 && current >= count - 1 ==> next == 0,
        count == 0 ==> next == 0,
{
    if count > 0 && current < count - 1 {
        current + 1
    } else {
        0
    }
}

/// The queue that a download starts from: the pieces `0..num_pieces` that
/// are not complete, each once, in an order left to chance.
pub fn seed_queue(completed: HashSet<usize>, num_pieces: usize) -> (queue: VecDeque<usize>)
    ensures
        queue@.to_multiset() == Seq::new(num_pieces as nat, |i: int| i as usize).filter(
            |e: usize| !completed@.contains(e),
        ).to_multiset(),
        forall|index: usize|
            queue@.contains(index) <==> index < num_pieces && !completed@.contains(index),
{
    let ghost wanted = Seq::new(num_pieces as nat, |i: int| i as usize).filter(
        |e: usize| !completed@.contains(e),
    );
    let mut pieces = retain_not_downloaded_pieces(completed, all_pieces(num_pieces));
    assert(pieces@ == wanted);
    shuffle(&mut pieces);
    assert(pieces@.to_multiset() == wanted.to_multiset());
    let mut queue: VecDeque<usize> = VecDeque::new();
    let mut i: usize = 0;
    while i < pieces.len()
        invariant
            i <= pieces.len(),
            queue@ == pieces@.subrange(0, i as int),
            pieces@.to_multiset() == wanted.to_multiset(),
        decreases pieces.len() - i,
    {
        queue.push_back(pieces[i]);
        i = i + 1;
        assert(queue@ =~= pieces@.subrange(0, i as int));
    }
    assert(queue@ =~= pieces@);
    proof {
        queue@.to_multiset_ensures();
        wanted.to_multiset_ensures();
        assert forall|index: usize|
            queue@.contains(index) <==> index < num_pieces && !completed@.contains(index) by {
            lemma_seed_covers(completed@, num_pieces, index);
            assert(queue@.to_multiset().count(index) == wanted.to_multiset().count(index));
            assert(queue@.contains(index) <==> wanted.contains(index));
        }
    }
    queue
}

} // verus!
