use rand::distributions::Alphanumeric;
use rand::seq::SliceRandom;
use rand::{thread_rng, Rng};
use vstd::prelude::*;
use vstd::string::StringExecFns;
use vstd::utf8::encode_utf8;

verus! {

/// Whether `c` is an ASCII letter or digit.
pub open spec fn is_alphanumeric(c: char) -> bool {
    ('0' <= c <= '9') || ('A' <= c <= 'Z') || ('a' <= c <= 'z')
}

/// Draws `n` characters with `Rng::sample_iter` over `Alphanumeric` from
/// `thread_rng` of the `rand` crate. Trusted: the text has `n` characters
/// and each is an ASCII letter or digit. Which ones is left to chance.
#[verifier::external_body]
pub(crate) fn random_alphanumeric(n: usize) -> (text: String)
    ensures
        text@.len() == n,
        forall|i: int| 0 <= i < n ==> is_alphanumeric(#[trigger] text@[i]),
{
    thread_rng().sample_iter(&Alphanumeric).take(n).map(char::from).collect()
}

/// Draws a 32-bit number with `rand::random`. Nothing is promised of it.
#[verifier::external_body]
pub(crate) fn random_u32() -> u32 {
    rand::random()
}

/// Reorders `v` with `SliceRandom::shuffle` of the `rand` crate, drawing
/// from `thread_rng`. Trusted: the shuffle only swaps elements, so `v` holds
/// the same elements as before, each as often. The order is left to chance.
#[verifier::external_body]
pub(crate) fn shuffle(v: &mut Vec<usize>)
    ensures
        final(v)@.to_multiset() == old(v)@.to_multiset(),
{
    v.shuffle(&mut thread_rng());
}

/// Whether `id` is a peer id of this client: `RB01-` and fifteen ASCII
/// letters or digits.
pub open spec fn is_peer_id(id: Seq<char>) -> bool {
    &&& id.len() == 20
    &&& id.subrange(0, 5) == "RB01-"@
    &&& forall|i: int| 5 <= i < 20 ==> is_alphanumeric(#[trigger] id[i])
}

/// A fresh peer id for this client.
pub fn get_random_id() -> (peer_id: String)
    ensures
        is_peer_id(peer_id@),
{
    let random_15 = random_alphanumeric(15);
    let peer_id = String::from_str("RB01-").concat(random_15.as_str());
    proof {
        reveal_strlit("RB01-");
        assert(peer_id@.subrange(0, 5) =~= "RB01-"@);
        assert forall|i: int| 5 <= i < 20 implies is_alphanumeric(#[trigger] peer_id@[i]) by {
            assert(peer_id@[i] == random_15@[i - 5]);
        }
    }
    peer_id
}

/// The twenty bytes of a peer id, where its text has that many bytes.
pub fn peer_id_bytes(peer_id: &str) -> (r: Option<[u8; 20]>)
    ensures
        match r {
            Some(bytes) => bytes@ == encode_utf8(peer_id@),
            None => encode_utf8(peer_id@).len() != 20,
        },
{
    let text = peer_id.as_bytes();
    if text.len() != 20 {
        return None;
    }
    let mut bytes: [u8; 20] = [0u8; 20];
    let mut i: usize = 0;
    while i < 20
        invariant
            i <= 20,
            text@.len() == 20,
            forall|j: int| 0 <= j < i ==> bytes@[j] == text@[j],
        decreases 20 - i,
    {
        bytes[i] = text[i];
        i = i + 1;
    }
    assert(bytes@ =~= text@);
    Some(bytes)
}

} // verus!
