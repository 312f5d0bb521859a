use vstd::prelude::*;
use vstd::utf8::encode_utf8;

use crate::encode::{
    encode_entries, encode_entry, encode_items, encode_string, encode_value, has_at, lemma_has_at_split, lemma_int_at, lemma_peers_at,
    lemma_pieces_at, lemma_string_at,
};
use crate::errors::ParseError;
use crate::grammar::{
    is_digit, spec_entries, spec_entry_value, spec_items, spec_value,
    with_info_hash, DICTIONARY_START, END_OF_TYPE, INTEGER_START, LIST_START,
};
use crate::hash::sha1_digest;
use crate::value::Value;

verus! {

/// How many entries of a decoded dictionary come from the wire: all of them
/// but a last `info_hash`.
pub open spec fn real_len(entries: Seq<(Seq<char>, Value)>) -> int {
    if entries.len() > 0 && entries.last().1 is InfoHash {
        entries.len() - 1
    } else {
        entries.len() as int
    }
}

/// The bytes that the `info_hash` of a dictionary is taken over, seen from
/// the entries `from..n`: the wire form from the value of the last `info`
/// key up to the end of the entries.
pub open spec fn hashed_bytes(entries: Seq<(Seq<char>, Value)>, from: int, n: int) -> Option<
    Seq<u8>,
>
    decreases n - from,
{
    if 0 <= from < n {
        match hashed_bytes(entries, from + 1, n) {
            Some(bytes) => Some(bytes),
            None => if entries[from].0 == "info"@ {
                Some(encode_value(entries[from].1) + encode_entries(entries, from + 1))
            } else {
                None
            },
        }
    } else {
        None
    }
}

/// Whether a key can be written: its length fits the length prefix.
pub open spec fn wf_key(key: Seq<char>) -> bool {
    encode_utf8(key).len() <= u64::MAX
}

/// Whether `value` can stand under `key` in a decoded dictionary: digests
/// only under `pieces`, compact peers only under `peers`, and a plain string
/// under neither.
pub open spec fn wf_slot(key: Seq<char>, value: Value) -> bool {
    match value {
        Value::Pieces(digests) => {
            &&& key == "pieces"@
            &&& digests.len() * 20 <= u64::MAX
            &&& forall|i: int| 0 <= i < digests.len() ==> (#[trigger] digests[i]).len() == 20
        },
        Value::PeersCompact(peers) => key == "peers"@ && peers.len() * 6 <= u64::MAX,
        Value::Str(_) => key != "pieces"@ && key != "peers"@,
        Value::InfoHash(_) => false,
        _ => true,
    }
}

/// Whether `value` is a string, an integer, a list or a dictionary.
pub open spec fn is_plain(value: Value) -> bool {
    value is Str || value is Int || value is List || value is Dict
}

/// Whether a dictionary ends as a decoded one does: with an `info_hash` over
/// the right bytes where it has an `info` key, and without one where not.
pub open spec fn wf_info_hash(entries: Seq<(Seq<char>, Value)>) -> bool {
    let n = real_len(entries);
    match hashed_bytes(entries, 0, n) {
        Some(bytes) => n == entries.len() - 1 && entries[n] == (
            "info_hash"@,
            Value::InfoHash(sha1_digest(bytes)),
        ),
        None => n == entries.len(),
    }
}

/// The values that the decoder can give: strings and keys short enough for
/// their length prefix, `pieces` and `peers` strings in their cut form, and
/// in each dictionary the `info_hash` that its `info` key calls for.
pub open spec fn wf_value(v: Value) -> bool
    decreases v,
{
    match v {
        Value::Str(text) => encode_utf8(text).len() <= u64::MAX,
        Value::Int(_) => true,
        Value::List(items) => forall|i: int|
            0 <= i < items.len() ==> wf_value(#[trigger] items[i]),
        Value::Dict(entries) => {
            &&& forall|i: int|
                0 <= i < real_len(entries) ==> {
                    &&& wf_key((#[trigger] entries[i]).0)
                    &&& wf_slot(entries[i].0, entries[i].1)
                    &&& is_plain(entries[i].1) ==> wf_value(entries[i].1)
                }
            &&& wf_info_hash(entries)
        },
        _ => false,
    }
}

/// The byte that the wire form of a plain value starts with.
pub open spec fn first_byte_ok(v: Value, b: u8) -> bool {
    match v {
        Value::Str(_) => is_digit(b),
        Value::Int(_) => b == INTEGER_START,
        Value::List(_) => b == LIST_START,
        Value::Dict(_) => b == DICTIONARY_START,
        _ => false,
    }
}

/// Decoding undoes encoding: where the wire form of a well-formed value
/// stands at `pos`, the grammar reads that value there and ends right after
/// it. So a buffer that is the wire form of some well-formed value decodes
/// to a value whose wire form is the buffer again.
pub proof fn lemma_decode_encode(v: Value, buf: Seq<u8>, pos: int)
    requires
        wf_value(v),
        has_at(buf, pos, encode_value(v)),
    ensures
        spec_value(buf, pos) == Ok::<(Value, int), ParseError>((v, pos + encode_value(v).len())),
        encode_value(v).len() > 0,
        first_byte_ok(v, buf[pos]),
    decreases v, 0int,
{
    match v {
        Value::Str(text) => {
            lemma_string_at(buf, pos, text);
        },
        Value::Int(n) => {
            lemma_int_at(buf, pos, n);
        },
        Value::List(items) => {
            let body = encode_items(items, 0);
            lemma_has_at_split(buf, pos, seq![LIST_START] + body, seq![END_OF_TYPE]);
            lemma_has_at_split(buf, pos, seq![LIST_START], body);
            assert(buf.subrange(pos, pos + 1)[0] == buf[pos]);
            lemma_has_at_split(buf, pos + 1, body, seq![END_OF_TYPE]);
            lemma_items_at(items, 0, buf, pos + 1);
            assert(items.subrange(0, items.len() as int) =~= items);
        },
        Value::Dict(entries) => {
            let body = encode_entries(entries, 0);
            let n = real_len(entries);
            lemma_has_at_split(buf, pos, seq![DICTIONARY_START] + body, seq![END_OF_TYPE]);
            lemma_has_at_split(buf, pos, seq![DICTIONARY_START], body);
            assert(buf.subrange(pos, pos + 1)[0] == buf[pos]);
            lemma_has_at_split(buf, pos + 1, body, seq![END_OF_TYPE]);
            lemma_entries_at(entries, n, 0, buf, pos + 1);
            let found = spec_entries(buf, pos + 1)->Ok_0;
            assert(found.entries == entries.subrange(0, n));
            if n == entries.len() {
                assert(entries.subrange(0, n) =~= entries);
            } else {
                assert(entries.subrange(0, n).push(entries[n]) =~= entries);
            }
            assert(with_info_hash(buf, found) == entries);
        },
        _ => {},
    }
}

/// The items `from..` of a list are read back from their wire form.
pub proof fn lemma_items_at(items: Seq<Value>, from: int, buf: Seq<u8>, pos: int)
    requires
        0 <= from <= items.len(),
        forall|i: int| 0 <= i < items.len() ==> wf_value(#[trigger] items[i]),
        has_at(buf, pos, encode_items(items, from)),
        has_at(buf, pos + encode_items(items, from).len(), seq![END_OF_TYPE]),
    ensures
        spec_items(buf, pos) == Ok::<(Seq<Value>, int), ParseError>(
            (items.subrange(from, items.len() as int), pos + encode_items(items, from).len()),
        ),
    decreases items, items.len() - from,
{
    let close = pos + encode_items(items, from).len();
    assert(buf.subrange(close, close + 1)[0] == buf[close]);
    if from == items.len() {
        assert(items.subrange(from, items.len() as int) =~= Seq::<Value>::empty());
    } else {
        let item = items[from];
        let head = encode_value(item);
        let tail = encode_items(items, from + 1);
        lemma_has_at_split(buf, pos, head, tail);
        lemma_decode_encode(item, buf, pos);
        lemma_items_at(items, from + 1, buf, pos + head.len());
        assert(seq![item] + items.subrange(from + 1, items.len() as int) =~= items.subrange(
            from,
            items.len() as int,
        ));
    }
}

/// The entries `from..n` of a dictionary are read back from their wire
/// form, and with them the place that its `info_hash` is taken from.
pub proof fn lemma_entries_at(
    entries: Seq<(Seq<char>, Value)>,
    n: int,
    from: int,
    buf: Seq<u8>,
    pos: int,
)
    requires
        0 <= from <= n <= entries.len(),
        forall|i: int|
            0 <= i < n ==> {
                &&& wf_key((#[trigger] entries[i]).0)
                &&& wf_slot(entries[i].0, entries[i].1)
                &&& is_plain(entries[i].1) ==> wf_value(entries[i].1)
            },
        forall|i: int| n <= i < entries.len() ==> (#[trigger] entries[i]).1 is InfoHash,
        has_at(buf, pos, encode_entries(entries, from)),
        has_at(buf, pos + encode_entries(entries, from).len(), seq![END_OF_TYPE]),
    ensures
        spec_entries(buf, pos) matches Ok(found) && {
            &&& found.entries == entries.subrange(from, n)
            &&& found.close == pos + encode_entries(entries, from).len()
            &&& match found.info_start {
                Some(start) => pos <= start <= found.close && hashed_bytes(entries, from, n)
                    == Some(buf.subrange(start, found.close)),
                None => hashed_bytes(entries, from, n) is None,
            }
        },
    decreases entries, entries.len() - from,
{
    let close = pos + encode_entries(entries, from).len();
    assert(buf.subrange(close, close + 1)[0] == buf[close]);
    if from == n {
        lemma_synthetic_tail(entries, n);
        assert(entries.subrange(from, n) =~= Seq::<(Seq<char>, Value)>::empty());
    } else {
        let key = entries[from].0;
        let value = entries[from].1;
        let head = encode_entry(key, value);
        let tail = encode_entries(entries, from + 1);
        assert(head == encode_string(key) + encode_value(value));
        lemma_has_at_split(buf, pos, head, tail);
        lemma_has_at_split(buf, pos, encode_string(key), encode_value(value));
        lemma_string_at(buf, pos, key);
        let at = pos + encode_string(key).len();
        let next = at + encode_value(value).len();
        assert(spec_entry_value(buf, at, key) == Ok::<(Value, int), ParseError>((value, next))
            && next > at) by {
            match value {
                Value::Pieces(digests) => {
                    lemma_pieces_at(buf, at, digests);
                },
                Value::PeersCompact(peers) => {
                    reveal_strlit("pieces");
                    reveal_strlit("peers");
                    assert("pieces"@.len() != "peers"@.len());
                    lemma_peers_at(buf, at, peers);
                },
                _ => {
                    lemma_decode_encode(value, buf, at);
                },
            }
        }
        lemma_entries_at(entries, n, from + 1, buf, next);
        let rest = spec_entries(buf, next)->Ok_0;
        assert(seq![(key, value)] + entries.subrange(from + 1, n) =~= entries.subrange(from, n));
        if rest.info_start is None && key == "info"@ {
            lemma_has_at_split(buf, at, encode_value(value), tail);
            assert(buf.subrange(at, close) =~= encode_value(value) + tail);
        }
    }
}

/// Synthetic entries write nothing.
pub proof fn lemma_synthetic_tail(entries: Seq<(Seq<char>, Value)>, from: int)
    requires
        0 <= from <= entries.len(),
        forall|i: int| from <= i < entries.len() ==> (#[trigger] entries[i]).1 is InfoHash,
    ensures
        encode_entries(entries, from) == Seq::<u8>::empty(),
    decreases entries.len() - from,
{
    if from < entries.len() {
        lemma_synthetic_tail(entries, from + 1);
        assert(entries[from].1 is InfoHash);
        assert(encode_entry(entries[from].0, entries[from].1) + Seq::<u8>::empty() =~= Seq::<
            u8,
        >::empty());
    }
}

} // verus!
