use vstd::prelude::*;

use crate::errors::ParseError;
use crate::grammar::{
    spec_dict, spec_entries, spec_entry_value, spec_items, spec_raw, spec_string, spec_value,
    END_OF_TYPE, STRING_DELIM,
};
use crate::scan::lemma_find_byte;
use crate::torrent_file::metainfo_of;
use crate::hash::sha1_digest;
use crate::value::Value;

verus! {

/// A length-prefixed run of bytes ends after where it starts, within the
/// buffer.
pub proof fn lemma_raw_advances(buf: Seq<u8>, pos: int)
    requires
        0 <= pos,
    ensures
        spec_raw(buf, pos) matches Ok((start, end)) ==> pos < start <= end <= buf.len(),
{
    if pos <= buf.len() {
        lemma_find_byte(buf, pos, STRING_DELIM);
    }
}

/// A value ends after where it starts, within the buffer.
pub proof fn lemma_value_advances(buf: Seq<u8>, pos: int)
    ensures
        spec_value(buf, pos) matches Ok((_, end)) ==> pos < end <= buf.len(),
    decreases buf.len() - pos, 1int,
{
    if 0 <= pos < buf.len() {
        lemma_raw_advances(buf, pos);
        lemma_find_byte(buf, pos + 1, END_OF_TYPE);
        lemma_items_advance(buf, pos + 1);
        lemma_entries_advance(buf, pos + 1);
    }
}

/// The `e` that closes a list stands at or after where its items start.
pub proof fn lemma_items_advance(buf: Seq<u8>, pos: int)
    ensures
        spec_items(buf, pos) matches Ok((_, close)) ==> pos <= close < buf.len(),
    decreases buf.len() - pos, 0int,
{
    if 0 <= pos < buf.len() && buf[pos] != END_OF_TYPE {
        match spec_value(buf, pos) {
            Ok((_, next)) => {
                if pos < next <= buf.len() {
                    lemma_items_advance(buf, next);
                }
            },
            Err(_) => {},
        }
    }
}

/// The `e` that closes a dictionary stands at or after where its entries
/// start.
pub proof fn lemma_entries_advance(buf: Seq<u8>, pos: int)
    ensures
        spec_entries(buf, pos) matches Ok(found) ==> pos <= found.close < buf.len(),
    decreases buf.len() - pos, 0int,
{
    if 0 <= pos < buf.len() && buf[pos] != END_OF_TYPE {
        match spec_string(buf, pos) {
            Ok((key, at)) => {
                match spec_entry_value(buf, at, key) {
                    Ok((_, next)) => {
                        if pos < next <= buf.len() {
                            lemma_entries_advance(buf, next);
                        }
                    },
                    Err(_) => {},
                }
            },
            Err(_) => {},
        }
    }
}

/// The value of a dictionary entry ends after where it starts, within the
/// buffer.
pub proof fn lemma_entry_value_advances(buf: Seq<u8>, pos: int, key: Seq<char>)
    ensures
        spec_entry_value(buf, pos, key) matches Ok((_, end)) ==> pos < end <= buf.len(),
{
    if 0 <= pos < buf.len() {
        lemma_raw_advances(buf, pos);
        lemma_value_advances(buf, pos);
    }
}

/// Where the last key of a run of entries is `info`, the place recorded for
/// the hash is the start of that key's value, and the value ends where the
/// entries end.
pub proof fn lemma_last_info(buf: Seq<u8>, pos: int)
    requires
        spec_entries(buf, pos) matches Ok(found) && found.entries.len() > 0
            && found.entries.last().0 == "info"@,
    ensures
        spec_entries(buf, pos) matches Ok(found) && found.info_start matches Some(start) && pos
            < start <= found.close && spec_value(buf, start) == Ok::<(Value, int), ParseError>(
            (found.entries.last().1, found.close),
        ),
    decreases buf.len() - pos,
{
    let found = spec_entries(buf, pos)->Ok_0;
    assert(0 <= pos < buf.len() && buf[pos] != END_OF_TYPE);
    let (key, at) = spec_string(buf, pos)->Ok_0;
    let (value, next) = spec_entry_value(buf, at, key)->Ok_0;
    let rest = spec_entries(buf, next)->Ok_0;
    assert(found.entries == seq![(key, value)] + rest.entries);
    lemma_raw_advances(buf, pos);
    lemma_entry_value_advances(buf, at, key);
    if rest.entries.len() == 0 {
        assert(found.entries.last() == (key, value));
        assert(rest.close == next && rest.info_start is None);
        reveal_strlit("info");
        reveal_strlit("pieces");
        reveal_strlit("peers");
        assert("info"@.len() != "pieces"@.len());
        assert("info"@.len() != "peers"@.len());
    } else {
        assert(found.entries.last() == rest.entries.last());
        lemma_last_info(buf, next);
    }
}

/// The `info_hash` of a decoded dictionary whose last key on the wire is
/// `info` is the SHA-1 of exactly the bytes of the `info` value: from its
/// first byte up to and including the `e` that closes it. The index that
/// comes back is where that value starts.
pub proof fn lemma_info_hash_range(buf: Seq<u8>, pos: int) -> (start: int)
    requires
        spec_dict(buf, pos) matches Ok((entries, end)) && entries.len() >= 2 && entries[entries.len()
            - 2].0 == "info"@ && entries.last().1 is InfoHash,
    ensures
        spec_dict(buf, pos) matches Ok((entries, end)) && {
            &&& pos < start <= end - 1
            &&& spec_value(buf, start) == Ok::<(Value, int), ParseError>(
                (entries[entries.len() - 2].1, end - 1),
            )
            &&& entries.last() == (
                "info_hash"@,
                Value::InfoHash(sha1_digest(buf.subrange(start, end - 1))),
            )
        },
{
    let found = spec_entries(buf, pos + 1)->Ok_0;
    let (entries, end) = spec_dict(buf, pos)->Ok_0;
    lemma_no_synthetic(buf, pos + 1);
    assert(found.info_start is Some);
    assert(entries == found.entries.push(entries.last()));
    assert(found.entries.last() == entries[entries.len() - 2]);
    lemma_last_info(buf, pos + 1);
    found.info_start->Some_0
}

/// The info-hash of a metainfo file whose last key is `info` is the SHA-1 of
/// exactly the bytes of its `info` value. The index that comes back is where
/// that value starts.
pub proof fn lemma_metainfo_info_hash(buf: Seq<u8>) -> (start: int)
    requires
        spec_dict(buf, 0) matches Ok((entries, end)) && entries.len() >= 2 && entries[entries.len()
            - 2].0 == "info"@ && entries.last().1 is InfoHash && metainfo_of(entries) is Some,
    ensures
        spec_dict(buf, 0) matches Ok((entries, end)) && {
            &&& 0 < start <= end - 1
            &&& spec_value(buf, start) == Ok::<(Value, int), ParseError>(
                (entries[entries.len() - 2].1, end - 1),
            )
            &&& metainfo_of(entries)->Some_0.info_hash == sha1_digest(buf.subrange(start, end - 1))
        },
{
    let start = lemma_info_hash_range(buf, 0);
    let (entries, end) = spec_dict(buf, 0)->Ok_0;
    assert(crate::util::lookup(entries, "info_hash"@) == Some(entries.last().1));
    start
}

/// No entry read from the wire is an `info_hash`.
pub proof fn lemma_no_synthetic(buf: Seq<u8>, pos: int)
    requires
        spec_entries(buf, pos) is Ok,
    ensures
        forall|i: int|
            0 <= i < spec_entries(buf, pos)->Ok_0.entries.len() ==> !((
                #[trigger] spec_entries(buf, pos)->Ok_0.entries[i]).1 is InfoHash),
    decreases buf.len() - pos,
{
    let found = spec_entries(buf, pos)->Ok_0;
    if buf[pos] != END_OF_TYPE {
        let (key, at) = spec_string(buf, pos)->Ok_0;
        let (value, next) = spec_entry_value(buf, at, key)->Ok_0;
        let rest = spec_entries(buf, next)->Ok_0;
        lemma_no_synthetic(buf, next);
        assert(found.entries == seq![(key, value)] + rest.entries);
        assert forall|i: int| 0 <= i < found.entries.len() implies !((
            #[trigger] found.entries[i]).1 is InfoHash) by {
            if i > 0 {
                assert(found.entries[i] == rest.entries[i - 1]);
            }
        }
    }
}

} // verus!
