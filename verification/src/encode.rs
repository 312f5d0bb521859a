use vstd::prelude::*;
use vstd::utf8::{encode_utf8, encode_utf8_decode_utf8, encode_utf8_valid_utf8};

use crate::errors::ParseError;
use crate::grammar::{
    all_digits, be_u16, chunks, compact_peers, digits_value, find_byte, is_digit, spec_int, spec_number, spec_peers_compact, spec_pieces, spec_raw, spec_string,
    DICTIONARY_START, END_OF_TYPE, INTEGER_START, LIST_START, STRING_DELIM,
};
use crate::value::{digests_view, entries_view, values_view, BencodeTypes, Value};
use crate::wire::push_all;

verus! {

/// The decimal numeral of `n`, without leading zeros.
pub open spec fn decimal_digits(n: nat) -> Seq<u8>
    decreases n,
{
    if n < 10 {
        seq![(0x30 + n) as u8]
    } else {
        decimal_digits(n / 10).push((0x30 + n % 10) as u8)
    }
}

/// The numeral of `n` is made of digits, at least one, and writes `n`.
pub proof fn lemma_decimal_digits(n: nat)
    ensures
        decimal_digits(n).len() > 0,
        all_digits(decimal_digits(n)),
        digits_value(decimal_digits(n)) == n,
    decreases n,
{
    let d = decimal_digits(n);
    if n < 10 {
        assert(d.drop_last() =~= Seq::<u8>::empty());
        assert(digits_value(d.drop_last()) == 0);
    } else {
        lemma_decimal_digits(n / 10);
        assert(d.drop_last() =~= decimal_digits(n / 10));
        assert forall|i: int| 0 <= i < d.len() implies is_digit(#[trigger] d[i]) by {
            if i < d.len() - 1 {
                assert(d[i] == decimal_digits(n / 10)[i]);
            }
        }
    }
}

/// Where digits stand at `pos` and `delim`, which is no digit, follows
/// them, the numeral at `pos` is read whole.
pub proof fn lemma_number_at(buf: Seq<u8>, pos: int, n: nat, delim: u8)
    requires
        0 <= pos,
        n <= u64::MAX,
        !is_digit(delim),
        pos + decimal_digits(n).len() < buf.len(),
        buf.subrange(pos, pos + decimal_digits(n).len()) == decimal_digits(n),
        buf[pos + decimal_digits(n).len()] == delim,
    ensures
        spec_number(buf, pos, delim) == Ok::<(u64, int), ParseError>(
            (n as u64, pos + decimal_digits(n).len() + 1),
        ),
{
    let d = decimal_digits(n);
    lemma_decimal_digits(n);
    lemma_find_skips(buf, pos, pos + d.len(), delim);
}

/// Where no byte of `buf[pos..end]` is `b`, and `buf[end]` is, the search
/// from `pos` ends at `end`.
pub proof fn lemma_find_skips(buf: Seq<u8>, pos: int, end: int, b: u8)
    requires
        0 <= pos <= end < buf.len(),
        all_digits(buf.subrange(pos, end)),
        !is_digit(b),
        buf[end] == b,
    ensures
        find_byte(buf, pos, b) == end,
    decreases end - pos,
{
    if pos < end {
        assert(buf.subrange(pos, end)[0] == buf[pos]);
        assert forall|i: int| 0 <= i < end - (pos + 1) implies is_digit(
            #[trigger] buf.subrange(pos + 1, end)[i],
        ) by {
            assert(buf.subrange(pos + 1, end)[i] == buf.subrange(pos, end)[i + 1]);
        }
        lemma_find_skips(buf, pos + 1, end, b);
    }
}

/// Whether `part` stands in `buf` at `pos`.
pub open spec fn has_at(buf: Seq<u8>, pos: int, part: Seq<u8>) -> bool {
    &&& 0 <= pos
    &&& pos + part.len() <= buf.len()
    &&& buf.subrange(pos, pos + part.len()) == part
}

/// `a + b` stands at `pos` exactly where `a` stands at `pos` and `b` after it.
pub proof fn lemma_has_at_split(buf: Seq<u8>, pos: int, a: Seq<u8>, b: Seq<u8>)
    ensures
        has_at(buf, pos, a + b) <==> has_at(buf, pos, a) && has_at(buf, pos + a.len(), b),
{
    if has_at(buf, pos, a + b) {
        assert(buf.subrange(pos, pos + a.len()) =~= (a + b).subrange(0, a.len() as int));
        assert((a + b).subrange(0, a.len() as int) =~= a);
        assert(buf.subrange(pos + a.len(), pos + a.len() + b.len()) =~= (a + b).subrange(
            a.len() as int,
            (a + b).len() as int,
        ));
        assert((a + b).subrange(a.len() as int, (a + b).len() as int) =~= b);
    }
    if has_at(buf, pos, a) && has_at(buf, pos + a.len(), b) {
        assert(buf.subrange(pos, pos + (a + b).len()) =~= buf.subrange(pos, pos + a.len())
            + buf.subrange(pos + a.len(), pos + a.len() + b.len()));
    }
}

/// The wire form of a run of bytes: its length, `:`, the bytes.
pub open spec fn encode_raw(bytes: Seq<u8>) -> Seq<u8> {
    decimal_digits(bytes.len()) + seq![STRING_DELIM] + bytes
}

/// The wire form of a string.
pub open spec fn encode_string(text: Seq<char>) -> Seq<u8> {
    encode_raw(encode_utf8(text))
}

/// The wire form of an integer.
pub open spec fn encode_int(n: u64) -> Seq<u8> {
    seq![INTEGER_START] + decimal_digits(n as nat) + seq![END_OF_TYPE]
}

/// Where the wire form of `bytes` stands at `pos`, the length-prefixed run
/// at `pos` is these bytes.
pub proof fn lemma_raw_at(buf: Seq<u8>, pos: int, bytes: Seq<u8>)
    requires
        bytes.len() <= u64::MAX,
        has_at(buf, pos, encode_raw(bytes)),
    ensures
        spec_raw(buf, pos) == Ok::<(int, int), ParseError>(
            (pos + decimal_digits(bytes.len()).len() + 1, pos + encode_raw(bytes).len()),
        ),
        buf.subrange(
            pos + decimal_digits(bytes.len()).len() + 1,
            pos + encode_raw(bytes).len(),
        ) == bytes,
        is_digit(buf[pos]),
{
    let d = decimal_digits(bytes.len());
    lemma_decimal_digits(bytes.len());
    lemma_has_at_split(buf, pos, d + seq![STRING_DELIM], bytes);
    lemma_has_at_split(buf, pos, d, seq![STRING_DELIM]);
    assert(buf.subrange(pos + d.len(), pos + d.len() + 1)[0] == buf[pos + d.len()]);
    assert(buf.subrange(pos, pos + d.len())[0] == buf[pos]);
    lemma_number_at(buf, pos, bytes.len(), STRING_DELIM);
}

/// Where the wire form of a string stands at `pos`, that string is read
/// there.
pub proof fn lemma_string_at(buf: Seq<u8>, pos: int, text: Seq<char>)
    requires
        encode_utf8(text).len() <= u64::MAX,
        has_at(buf, pos, encode_string(text)),
    ensures
        spec_string(buf, pos) == Ok::<(Seq<char>, int), ParseError>(
            (text, pos + encode_string(text).len()),
        ),
        is_digit(buf[pos]),
{
    lemma_raw_at(buf, pos, encode_utf8(text));
    encode_utf8_valid_utf8(text);
    encode_utf8_decode_utf8(text);
}

/// Where the wire form of an integer stands at `pos`, that integer is read
/// there.
pub proof fn lemma_int_at(buf: Seq<u8>, pos: int, n: u64)
    requires
        has_at(buf, pos, encode_int(n)),
    ensures
        spec_int(buf, pos) == Ok::<(u64, int), ParseError>((n, pos + encode_int(n).len())),
        buf[pos] == INTEGER_START,
{
    let d = decimal_digits(n as nat);
    lemma_decimal_digits(n as nat);
    lemma_has_at_split(buf, pos, seq![INTEGER_START] + d, seq![END_OF_TYPE]);
    lemma_has_at_split(buf, pos, seq![INTEGER_START], d);
    assert(buf.subrange(pos, pos + 1)[0] == buf[pos]);
    assert(buf.subrange(pos + 1 + d.len(), pos + 1 + d.len() + 1)[0] == buf[pos + 1 + d.len()]);
    lemma_number_at(buf, pos + 1, n as nat, END_OF_TYPE);
}

/// The parts, one after the other.
pub open spec fn concat(parts: Seq<Seq<u8>>) -> Seq<u8>
    decreases parts.len(),
{
    if parts.len() == 0 {
        Seq::empty()
    } else {
        concat(parts.drop_last()) + parts.last()
    }
}

/// Cutting the concatenation of parts of one width gives the parts back.
pub proof fn lemma_chunks_concat(parts: Seq<Seq<u8>>, width: int)
    requires
        width > 0,
        forall|i: int| 0 <= i < parts.len() ==> (#[trigger] parts[i]).len() == width,
    ensures
        concat(parts).len() == parts.len() * width,
        chunks(concat(parts), width) == parts,
    decreases parts.len(),
{
    let n = parts.len() as int;
    if n == 0 {
        assert(0 * width == 0);
        assert(0int / width == 0) by (nonlinear_arith)
            requires
                width > 0,
        ;
        assert(chunks(concat(parts), width) =~= parts);
    } else {
        let init = parts.drop_last();
        lemma_chunks_concat(init, width);
        let whole = concat(parts);
        assert(whole.len() == n * width) by (nonlinear_arith)
            requires
                whole.len() == (n - 1) * width + width,
        ;
        assert((n * width) / width == n) by (nonlinear_arith)
            requires
                width > 0,
        ;
        assert forall|i: int| 0 <= i < n implies #[trigger] chunks(whole, width)[i] == parts[i] by {
            assert(0 <= i * width && i * width + width <= n * width) by (nonlinear_arith)
                requires
                    0 <= i < n,
                    width > 0,
            ;
            if i < n - 1 {
                assert(i * width + width <= (n - 1) * width) by (nonlinear_arith)
                    requires
                        0 <= i < n - 1,
                        width > 0,
                ;
                assert(((n - 1) * width) / width == n - 1) by (nonlinear_arith)
                    requires
                        width > 0,
                ;
                assert(whole.subrange(i * width, i * width + width) =~= concat(init).subrange(
                    i * width,
                    i * width + width,
                ));
                assert(chunks(concat(init), width)[i] == init[i]);
            } else {
                assert((n - 1) * width + width == n * width) by (nonlinear_arith);
                assert(whole.subrange(i * width, i * width + width) =~= parts.last());
            }
        }
        assert(chunks(whole, width) =~= parts);
    }
}

/// The wire form of a list of digests: one string that holds them all.
pub open spec fn encode_pieces(digests: Seq<Seq<u8>>) -> Seq<u8> {
    encode_raw(concat(digests))
}

/// The six bytes that name `peer`: four octets and a big-endian port.
pub open spec fn peer_record(peer: ((u8, u8, u8, u8), u16)) -> Seq<u8> {
    seq![
        peer.0.0,
        peer.0.1,
        peer.0.2,
        peer.0.3,
        (peer.1 / 256) as u8,
        (peer.1 % 256) as u8,
    ]
}

/// The six-byte records of `peers`, in order.
pub open spec fn peer_records(peers: Seq<((u8, u8, u8, u8), u16)>) -> Seq<Seq<u8>> {
    Seq::new(peers.len(), |i: int| peer_record(peers[i]))
}

/// The wire form of a compact peer list: one string that holds the records.
pub open spec fn encode_peers(peers: Seq<((u8, u8, u8, u8), u16)>) -> Seq<u8> {
    encode_raw(concat(peer_records(peers)))
}

/// Where the wire form of a list of 20-byte digests stands at `pos`, these
/// digests are read there.
pub proof fn lemma_pieces_at(buf: Seq<u8>, pos: int, digests: Seq<Seq<u8>>)
    requires
        forall|i: int| 0 <= i < digests.len() ==> (#[trigger] digests[i]).len() == 20,
        digests.len() * 20 <= u64::MAX,
        has_at(buf, pos, encode_pieces(digests)),
    ensures
        spec_pieces(buf, pos) == Ok::<(Seq<Seq<u8>>, int), ParseError>(
            (digests, pos + encode_pieces(digests).len()),
        ),
        is_digit(buf[pos]),
{
    lemma_chunks_concat(digests, 20);
    lemma_raw_at(buf, pos, concat(digests));
}

/// Where the wire form of a compact peer list stands at `pos`, these peers
/// are read there.
pub proof fn lemma_peers_at(buf: Seq<u8>, pos: int, peers: Seq<((u8, u8, u8, u8), u16)>)
    requires
        peers.len() * 6 <= u64::MAX,
        has_at(buf, pos, encode_peers(peers)),
    ensures
        spec_peers_compact(buf, pos) == Ok::<(Seq<((u8, u8, u8, u8), u16)>, int), ParseError>(
            (peers, pos + encode_peers(peers).len()),
        ),
        is_digit(buf[pos]),
{
    let records = peer_records(peers);
    lemma_chunks_concat(records, 6);
    lemma_raw_at(buf, pos, concat(records));
    let raw = concat(records);
    assert forall|i: int| 0 <= i < peers.len() implies #[trigger] compact_peers(raw)[i]
        == peers[i] by {
        assert(chunks(raw, 6)[i] == records[i]);
        let port = peers[i].1;
        assert(be_u16((port / 256) as u8, (port % 256) as u8) == port);
    }
    assert(compact_peers(raw) =~= peers);
}

/// The wire form of a value. A synthetic `info_hash` has none: it is not
/// part of what was read.
pub open spec fn encode_value(v: Value) -> Seq<u8>
    decreases v, 0int,
{
    match v {
        Value::Str(text) => encode_string(text),
        Value::Int(n) => encode_int(n),
        Value::List(items) => seq![LIST_START] + encode_items(items, 0) + seq![END_OF_TYPE],
        Value::Dict(entries) => seq![DICTIONARY_START] + encode_entries(entries, 0)
            + seq![END_OF_TYPE],
        Value::InfoHash(_) => Seq::empty(),
        Value::Pieces(digests) => encode_pieces(digests),
        Value::PeersCompact(peers) => encode_peers(peers),
    }
}

/// The wire forms of the items from index `from` on, one after the other.
pub open spec fn encode_items(items: Seq<Value>, from: int) -> Seq<u8>
    decreases items, items.len() - from,
{
    if 0 <= from < items.len() {
        encode_value(items[from]) + encode_items(items, from + 1)
    } else {
        Seq::empty()
    }
}

/// The wire form of one dictionary entry: key, then value. A synthetic
/// `info_hash` entry has none.
pub open spec fn encode_entry(key: Seq<char>, value: Value) -> Seq<u8>
    decreases value, 1int,
{
    if value is InfoHash {
        Seq::empty()
    } else {
        encode_string(key) + encode_value(value)
    }
}

/// The wire forms of the entries from index `from` on, one after the other.
pub open spec fn encode_entries(entries: Seq<(Seq<char>, Value)>, from: int) -> Seq<u8>
    decreases entries, entries.len() - from,
{
    if 0 <= from < entries.len() {
        encode_entry(entries[from].0, entries[from].1) + encode_entries(entries, from + 1)
    } else {
        Seq::empty()
    }
}

/// Appends the decimal numeral of `n`.
pub fn push_decimal_digits(buf: &mut Vec<u8>, n: u64)
    ensures
        final(buf)@ == old(buf)@ + decimal_digits(n as nat),
    decreases n,
{
    if n >= 10 {
        push_decimal_digits(buf, n / 10);
    }
    buf.push((0x30 + n % 10) as u8);
    assert(buf@ =~= old(buf)@ + decimal_digits(n as nat));
}

/// Appends the wire form of a run of bytes.
pub fn push_raw(buf: &mut Vec<u8>, bytes: &[u8])
    ensures
        final(buf)@ == old(buf)@ + encode_raw(bytes@),
{
    push_decimal_digits(buf, bytes.len() as u64);
    buf.push(STRING_DELIM);
    push_all(buf, bytes);
    assert(buf@ =~= old(buf)@ + encode_raw(bytes@));
}

/// Appends the wire form of a list of digests.
fn push_pieces(buf: &mut Vec<u8>, digests: &Vec<[u8; 20]>)
    ensures
        final(buf)@ == old(buf)@ + encode_pieces(digests_view(digests@)),
{
    let ghost parts = digests_view(digests@);
    let mut raw: Vec<u8> = Vec::new();
    let mut i: usize = 0;
    assert(parts.subrange(0, 0) =~= Seq::<Seq<u8>>::empty());
    while i < digests.len()
        invariant
            i <= digests.len(),
            parts == digests_view(digests@),
            raw@ == concat(parts.subrange(0, i as int)),
        decreases digests.len() - i,
    {
        push_all(&mut raw, digests[i].as_slice());
        assert(parts.subrange(0, i + 1).drop_last() =~= parts.subrange(0, i as int));
        assert(parts.subrange(0, i + 1).last() == digests@[i as int]@);
        i = i + 1;
    }
    assert(parts.subrange(0, digests.len() as int) =~= parts);
    push_raw(buf, raw.as_slice());
}

/// Appends the wire form of a compact peer list.
fn push_peers(buf: &mut Vec<u8>, peers: &Vec<((u8, u8, u8, u8), u16)>)
    ensures
        final(buf)@ == old(buf)@ + encode_peers(peers@),
{
    let ghost parts = peer_records(peers@);
    let mut raw: Vec<u8> = Vec::new();
    let mut i: usize = 0;
    assert(parts.subrange(0, 0) =~= Seq::<Seq<u8>>::empty());
    while i < peers.len()
        invariant
            i <= peers.len(),
            parts == peer_records(peers@),
            raw@ == concat(parts.subrange(0, i as int)),
        decreases peers.len() - i,
    {
        let peer = peers[i];
        let ghost before = raw@;
        raw.push(peer.0.0);
        raw.push(peer.0.1);
        raw.push(peer.0.2);
        raw.push(peer.0.3);
        raw.push((peer.1 / 256) as u8);
        raw.push((peer.1 % 256) as u8);
        assert(raw@ =~= before + peer_record(peer));
        assert(parts.subrange(0, i + 1).drop_last() =~= parts.subrange(0, i as int));
        assert(parts.subrange(0, i + 1).last() == peer_record(peer));
        i = i + 1;
    }
    assert(parts.subrange(0, peers.len() as int) =~= parts);
    push_raw(buf, raw.as_slice());
}

/// Appends the wire form of `value`.
pub fn push_value(buf: &mut Vec<u8>, value: &BencodeTypes)
    ensures
        final(buf)@ == old(buf)@ + encode_value(value@),
    decreases value,
{
    match value {
        BencodeTypes::String(s) => {
            push_raw(buf, s.as_str().as_bytes());
        },
        BencodeTypes::Integer(n) => {
            buf.push(INTEGER_START);
            push_decimal_digits(buf, *n);
            buf.push(END_OF_TYPE);
            assert(buf@ =~= old(buf)@ + encode_int(*n));
        },
        BencodeTypes::List(items) => {
            let ghost views = values_view(items@);
            buf.push(LIST_START);
            let ghost start = buf@;
            let mut i: usize = 0;
            assert(buf@ + encode_items(views, 0) =~= start + encode_items(views, 0));
            while i < items.len()
                invariant
                    i <= items.len(),
                    views == values_view(items@),
                    value == &BencodeTypes::List(*items),
                    buf@ + encode_items(views, i as int) == start + encode_items(views, 0),
                decreases items.len() - i,
            {
                let ghost before = buf@;
                assert(views[i as int] == items@[i as int]@);
                assert(items@[i as int] == value->List_0@[i as int]);
                assert(decreases_to!(value => value->List_0@[i as int]));
                push_value(buf, &items[i]);
                assert(buf@ + encode_items(views, i + 1) =~= before + encode_items(
                    views,
                    i as int,
                ));
                i = i + 1;
            }
            assert(buf@ + Seq::<u8>::empty() =~= buf@);
            buf.push(END_OF_TYPE);
            assert(buf@ =~= old(buf)@ + encode_value(value@));
        },
        BencodeTypes::Dict(entries) => {
            let ghost views = entries_view(entries@);
            buf.push(DICTIONARY_START);
            let ghost start = buf@;
            let mut i: usize = 0;
            assert(buf@ + encode_entries(views, 0) =~= start + encode_entries(views, 0));
            while i < entries.len()
                invariant
                    i <= entries.len(),
                    views == entries_view(entries@),
                    value == &BencodeTypes::Dict(*entries),
                    buf@ + encode_entries(views, i as int) == start + encode_entries(views, 0),
                decreases entries.len() - i,
            {
                let ghost before = buf@;
                assert(views[i as int] == (entries@[i as int].0@, entries@[i as int].1@));
                assert(entries@[i as int].1 == value->Dict_0@[i as int].1);
                assert(decreases_to!(value => value->Dict_0@[i as int].1));
                match &entries[i].1 {
                    BencodeTypes::InfoHash(_) => {
                        assert(views[i as int].1 is InfoHash);
                        assert(encode_entry(views[i as int].0, views[i as int].1)
                            == Seq::<u8>::empty());
                    },
                    other => {
                        assert(!(views[i as int].1 is InfoHash));
                        push_raw(buf, entries[i].0.as_str().as_bytes());
                        push_value(buf, other);
                        assert(buf@ =~= before + encode_entry(
                            views[i as int].0,
                            views[i as int].1,
                        ));
                    },
                }
                assert(buf@ + encode_entries(views, i + 1) =~= before + encode_entries(
                    views,
                    i as int,
                ));
                i = i + 1;
            }
            assert(buf@ + Seq::<u8>::empty() =~= buf@);
            buf.push(END_OF_TYPE);
            assert(buf@ =~= old(buf)@ + encode_value(value@));
        },
        BencodeTypes::InfoHash(_) => {
            assert(buf@ =~= old(buf)@ + encode_value(value@));
        },
        BencodeTypes::Pieces(digests) => {
            push_pieces(buf, digests);
        },
        BencodeTypes::PeersCompact(peers) => {
            push_peers(buf, peers);
        },
    }
}

/// The wire form of `value`.
pub fn encode(value: &BencodeTypes) -> (bytes: Vec<u8>)
    ensures
        bytes@ == encode_value(value@),
{
    let mut buf: Vec<u8> = Vec::new();
    push_value(&mut buf, value);
    assert(buf@ =~= encode_value(value@));
    buf
}

} // verus!
