use vstd::prelude::*;
use vstd::utf8::{decode_utf8_encode_utf8, valid_utf8};

use crate::encode::{
    concat, decimal_digits, encode_entries, encode_entry, encode_int, encode_items, encode_peers,
    encode_pieces, encode_raw, encode_string, encode_value, peer_record, peer_records,
};
use crate::errors::ParseError;
use crate::grammar::{
    all_digits, chunks, compact_peers, digits_value, is_digit, peer_of, spec_decimal, spec_dict,
    spec_entries, spec_entry_value, spec_int, spec_items, spec_list, spec_number,
    spec_peers_compact, spec_pieces, spec_raw, spec_string, spec_value, with_info_hash,
    END_OF_TYPE, STRING_DELIM,
};
use crate::scan::lemma_find_byte;
use crate::value::Value;

verus! {

/// Whether `part`, no longer than the bytes `buf[from..to]`, is these bytes
/// as soon as it is as long.
pub open spec fn fits(part: Seq<u8>, buf: Seq<u8>, from: int, to: int) -> bool {
    &&& 0 <= from <= to <= buf.len()
    &&& part.len() <= to - from
    &&& part.len() == to - from ==> part == buf.subrange(from, to)
}

/// Two parts that fit adjacent ranges fit, one after the other, the range
/// that the two make up.
pub proof fn lemma_fits_join(a: Seq<u8>, b: Seq<u8>, buf: Seq<u8>, from: int, mid: int, to: int)
    requires
        fits(a, buf, from, mid),
        fits(b, buf, mid, to),
    ensures
        fits(a + b, buf, from, to),
{
    if (a + b).len() == to - from {
        assert(a + b =~= buf.subrange(from, to));
    }
}

/// The numeral of the value of a numeral is no longer than the numeral, and
/// as long only where the two are the same: leading zeros are all that a
/// numeral can lose.
pub proof fn lemma_digits_canonical(d: Seq<u8>)
    requires
        d.len() > 0,
        all_digits(d),
    ensures
        decimal_digits(digits_value(d)).len() <= d.len(),
        decimal_digits(digits_value(d)).len() == d.len() ==> decimal_digits(digits_value(d)) == d,
    decreases d.len(),
{
    let init = d.drop_last();
    let x = (d.last() - 0x30) as nat;
    assert(is_digit(d[d.len() - 1]));
    if d.len() == 1 {
        assert(init =~= Seq::<u8>::empty());
        assert(digits_value(init) == 0);
        assert(decimal_digits(digits_value(d)) =~= d);
    } else {
        assert forall|i: int| 0 <= i < init.len() implies is_digit(#[trigger] init[i]) by {
            assert(init[i] == d[i]);
        }
        lemma_digits_canonical(init);
        let v = digits_value(init);
        let value = digits_value(d);
        assert(value == v * 10 + x);
        if v == 0 {
            assert(decimal_digits(value).len() == 1);
        } else {
            assert(value / 10 == v && value % 10 == x);
            assert(decimal_digits(value) == decimal_digits(v).push(d.last()));
            if decimal_digits(value).len() == d.len() {
                assert(decimal_digits(v) == init);
                assert(init.push(d.last()) =~= d);
            }
        }
    }
}

/// The numeral of a number that was read, with its delimiter, fits the
/// bytes that it was read from.
pub proof fn lemma_number_fits(buf: Seq<u8>, pos: int, delim: u8)
    requires
        0 <= pos,
        spec_number(buf, pos, delim) is Ok,
    ensures
        ({
            let (n, next) = spec_number(buf, pos, delim)->Ok_0;
            &&& pos < next <= buf.len()
            &&& fits(decimal_digits(n as nat) + seq![delim], buf, pos, next)
        }),
{
    let (n, next) = spec_number(buf, pos, delim)->Ok_0;
    if pos <= buf.len() {
        lemma_find_byte(buf, pos, delim);
    }
    let d = buf.subrange(pos, next - 1);
    assert(spec_decimal(d) == Some(n));
    lemma_digits_canonical(d);
    let written = decimal_digits(n as nat) + seq![delim];
    if written.len() == next - pos {
        assert(written =~= buf.subrange(pos, next));
    }
}

/// The wire form of a run of bytes that was read fits the bytes that it was
/// read from.
pub proof fn lemma_raw_fits(buf: Seq<u8>, pos: int)
    requires
        0 <= pos,
        spec_raw(buf, pos) is Ok,
    ensures
        ({
            let (start, end) = spec_raw(buf, pos)->Ok_0;
            &&& pos < start <= end <= buf.len()
            &&& fits(encode_raw(buf.subrange(start, end)), buf, pos, end)
        }),
{
    let (start, end) = spec_raw(buf, pos)->Ok_0;
    lemma_number_fits(buf, pos, STRING_DELIM);
    let n = spec_number(buf, pos, STRING_DELIM)->Ok_0.0;
    let bytes = buf.subrange(start, end);
    assert(bytes.len() == n);
    lemma_fits_join(decimal_digits(n as nat) + seq![STRING_DELIM], bytes, buf, pos, start, end);
}

/// Putting the pieces of a run of bytes together gives the run back, where
/// the run is a whole number of pieces long.
pub proof fn lemma_concat_chunks(raw: Seq<u8>, width: int)
    requires
        width > 0,
        raw.len() as int % width == 0,
    ensures
        concat(chunks(raw, width)) == raw,
    decreases raw.len(),
{
    let parts = chunks(raw, width);
    let n = raw.len() as int / width;
    assert(raw.len() == n * width) by (nonlinear_arith)
        requires
            width > 0,
            raw.len() as int % width == 0,
            n == raw.len() as int / width,
    ;
    if n == 0 {
        assert(n * width == 0) by (nonlinear_arith)
            requires
                n == 0,
        ;
        assert(raw =~= Seq::<u8>::empty());
        assert(parts =~= Seq::<Seq<u8>>::empty());
    } else {
        let rest = raw.subrange(0, raw.len() - width);
        assert((n - 1) * width == n * width - width) by (nonlinear_arith);
        assert(((n - 1) * width) % width == 0 && ((n - 1) * width) / width == n - 1)
            by (nonlinear_arith)
            requires
                width > 0,
                n >= 1,
        ;
        lemma_concat_chunks(rest, width);
        assert forall|i: int| 0 <= i < n - 1 implies #[trigger] chunks(rest, width)[i]
            == parts[i] by {
            assert(0 <= i * width && i * width + width <= (n - 1) * width) by (nonlinear_arith)
                requires
                    0 <= i < n - 1,
                    width > 0,
            ;
            assert(rest.subrange(i * width, i * width + width) =~= raw.subrange(
                i * width,
                i * width + width,
            ));
        }
        assert(parts.drop_last() =~= chunks(rest, width));
        assert(parts.last() =~= raw.subrange((n - 1) * width, (n - 1) * width + width));
        assert(concat(parts) =~= raw);
    }
}

/// A string that was read and written again fits the bytes that it was read
/// from.
pub proof fn lemma_string_fits(buf: Seq<u8>, pos: int)
    requires
        0 <= pos,
        spec_string(buf, pos) is Ok,
    ensures
        ({
            let (text, end) = spec_string(buf, pos)->Ok_0;
            &&& pos < end <= buf.len()
            &&& fits(encode_string(text), buf, pos, end)
        }),
{
    let (start, end) = spec_raw(buf, pos)->Ok_0;
    lemma_raw_fits(buf, pos);
    decode_utf8_encode_utf8(buf.subrange(start, end));
}

/// An integer that was read and written again fits the bytes that it was
/// read from.
pub proof fn lemma_int_fits(buf: Seq<u8>, pos: int)
    requires
        spec_int(buf, pos) is Ok,
    ensures
        ({
            let (n, end) = spec_int(buf, pos)->Ok_0;
            &&& pos < end <= buf.len()
            &&& fits(encode_int(n), buf, pos, end)
        }),
{
    let (n, end) = spec_int(buf, pos)->Ok_0;
    lemma_number_fits(buf, pos + 1, END_OF_TYPE);
    assert(seq![buf[pos]] =~= buf.subrange(pos, pos + 1));
    lemma_fits_join(
        seq![buf[pos]],
        decimal_digits(n as nat) + seq![END_OF_TYPE],
        buf,
        pos,
        pos + 1,
        end,
    );
    assert(encode_int(n) =~= seq![buf[pos]] + (decimal_digits(n as nat) + seq![END_OF_TYPE]));
}

/// Digests that were read and written again fit the bytes that they were
/// read from.
pub proof fn lemma_pieces_fit(buf: Seq<u8>, pos: int)
    requires
        0 <= pos,
        spec_pieces(buf, pos) is Ok,
    ensures
        ({
            let (digests, end) = spec_pieces(buf, pos)->Ok_0;
            &&& pos < end <= buf.len()
            &&& fits(encode_pieces(digests), buf, pos, end)
        }),
{
    let (start, end) = spec_raw(buf, pos)->Ok_0;
    lemma_raw_fits(buf, pos);
    lemma_concat_chunks(buf.subrange(start, end), 20);
}

/// A record names a peer whose record it is.
pub proof fn lemma_peer_record(record: Seq<u8>)
    requires
        record.len() == 6,
    ensures
        peer_record(peer_of(record)) == record,
{
    let port = peer_of(record).1;
    assert(port == record[4] * 256 + record[5]);
    assert(port / 256 == record[4] && port % 256 == record[5]);
    assert(peer_record(peer_of(record)) =~= record);
}

/// Compact peers that were read and written again fit the bytes that they
/// were read from.
pub proof fn lemma_peers_fit(buf: Seq<u8>, pos: int)
    requires
        0 <= pos,
        spec_peers_compact(buf, pos) is Ok,
    ensures
        ({
            let (peers, end) = spec_peers_compact(buf, pos)->Ok_0;
            &&& pos < end <= buf.len()
            &&& fits(encode_peers(peers), buf, pos, end)
        }),
{
    let (start, end) = spec_raw(buf, pos)->Ok_0;
    lemma_raw_fits(buf, pos);
    let raw = buf.subrange(start, end);
    lemma_concat_chunks(raw, 6);
    assert forall|i: int| 0 <= i < chunks(raw, 6).len() implies #[trigger] peer_records(
        compact_peers(raw),
    )[i] == chunks(raw, 6)[i] by {
        lemma_peer_record(raw.subrange(i * 6, i * 6 + 6));
    }
    assert(peer_records(compact_peers(raw)) =~= chunks(raw, 6));
}

/// The wire forms of the items after the first are those of the rest.
pub proof fn lemma_items_shift(first: Value, rest: Seq<Value>, from: int)
    requires
        0 <= from <= rest.len(),
    ensures
        encode_items(seq![first] + rest, from + 1) == encode_items(rest, from),
    decreases rest.len() - from,
{
    let all = seq![first] + rest;
    if from < rest.len() {
        assert(all[from + 1] == rest[from]);
        lemma_items_shift(first, rest, from + 1);
    }
}

/// The wire forms of the entries after the first are those of the rest.
pub proof fn lemma_entries_shift(
    first: (Seq<char>, Value),
    rest: Seq<(Seq<char>, Value)>,
    from: int,
)
    requires
        0 <= from <= rest.len(),
    ensures
        encode_entries(seq![first] + rest, from + 1) == encode_entries(rest, from),
    decreases rest.len() - from,
{
    let all = seq![first] + rest;
    if from < rest.len() {
        assert(all[from + 1] == rest[from]);
        lemma_entries_shift(first, rest, from + 1);
    }
}

/// An entry added at the end adds its wire form at the end.
pub proof fn lemma_entries_push(
    entries: Seq<(Seq<char>, Value)>,
    last: (Seq<char>, Value),
    from: int,
)
    requires
        0 <= from <= entries.len(),
    ensures
        encode_entries(entries.push(last), from) == encode_entries(entries, from) + encode_entry(
            last.0,
            last.1,
        ),
    decreases entries.len() - from,
{
    let all = entries.push(last);
    if from < entries.len() {
        assert(all[from] == entries[from]);
        lemma_entries_push(entries, last, from + 1);
        assert(encode_entries(all, from) =~= encode_entries(entries, from) + encode_entry(
            last.0,
            last.1,
        ));
    } else {
        assert(all[from] == last);
        assert(encode_entries(all, from + 1) =~= Seq::<u8>::empty());
        assert(encode_entries(all, from) =~= encode_entries(entries, from) + encode_entry(
            last.0,
            last.1,
        ));
    }
}

/// Re-encoding gives the input back: the wire form of a value that was
/// read is never longer than the bytes that it was read from, and where it
/// is as long, it is these bytes, one for one. It is shorter only where the
/// input wrote a length or an integer with leading zeros.
pub proof fn lemma_reencode(buf: Seq<u8>, pos: int)
    requires
        spec_value(buf, pos) is Ok,
    ensures
        ({
            let (value, end) = spec_value(buf, pos)->Ok_0;
            fits(encode_value(value), buf, pos, end)
        }),
    decreases buf.len() - pos, 1int,
{
    let (value, end) = spec_value(buf, pos)->Ok_0;
    if is_digit(buf[pos]) {
        lemma_string_fits(buf, pos);
    } else if value is Int {
        lemma_int_fits(buf, pos);
    } else if value is List {
        let (items, close) = spec_items(buf, pos + 1)->Ok_0;
        lemma_items_reencode(buf, pos + 1);
        lemma_fits_frame(buf, pos, close, encode_items(items, 0));
    } else if value is Dict {
        let found = spec_entries(buf, pos + 1)->Ok_0;
        lemma_entries_reencode(buf, pos + 1);
        let entries = with_info_hash(buf, found);
        if found.info_start is Some {
            lemma_entries_push(found.entries, entries.last(), 0);
            assert(encode_entries(found.entries, 0) + Seq::<u8>::empty() =~= encode_entries(
                found.entries,
                0,
            ));
        }
        lemma_fits_frame(buf, pos, found.close, encode_entries(entries, 0));
    }
}

/// A body that fits between an opening byte and a closing byte fits, with
/// these two bytes around it, the range that they bound.
proof fn lemma_fits_frame(buf: Seq<u8>, pos: int, close: int, body: Seq<u8>)
    requires
        0 <= pos < close < buf.len(),
        fits(body, buf, pos + 1, close),
    ensures
        fits(seq![buf[pos]] + body + seq![buf[close]], buf, pos, close + 1),
{
    assert(seq![buf[pos]] =~= buf.subrange(pos, pos + 1));
    assert(seq![buf[close]] =~= buf.subrange(close, close + 1));
    lemma_fits_join(seq![buf[pos]], body, buf, pos, pos + 1, close);
    lemma_fits_join(seq![buf[pos]] + body, seq![buf[close]], buf, pos, close, close + 1);
}

/// The items of a list, written again, fit the bytes that they were read
/// from.
proof fn lemma_items_reencode(buf: Seq<u8>, pos: int)
    requires
        spec_items(buf, pos) is Ok,
    ensures
        ({
            let (items, close) = spec_items(buf, pos)->Ok_0;
            &&& pos <= close < buf.len()
            &&& buf[close] == END_OF_TYPE
            &&& fits(encode_items(items, 0), buf, pos, close)
        }),
    decreases buf.len() - pos, 2int,
{
    let (items, close) = spec_items(buf, pos)->Ok_0;
    if buf[pos] == END_OF_TYPE {
        assert(encode_items(items, 0) =~= buf.subrange(pos, pos));
    } else {
        let (item, next) = spec_value(buf, pos)->Ok_0;
        let (rest, _) = spec_items(buf, next)->Ok_0;
        lemma_reencode(buf, pos);
        lemma_items_reencode(buf, next);
        lemma_items_shift(item, rest, 0);
        assert(items == seq![item] + rest);
        assert(items[0] == item);
        assert(encode_items(items, 0) == encode_value(item) + encode_items(rest, 0));
        lemma_fits_join(encode_value(item), encode_items(rest, 0), buf, pos, next, close);
    }
}

/// The entries of a dictionary, written again, fit the bytes that they were
/// read from.
proof fn lemma_entries_reencode(buf: Seq<u8>, pos: int)
    requires
        spec_entries(buf, pos) is Ok,
    ensures
        ({
            let found = spec_entries(buf, pos)->Ok_0;
            &&& pos <= found.close < buf.len()
            &&& buf[found.close] == END_OF_TYPE
            &&& fits(encode_entries(found.entries, 0), buf, pos, found.close)
            &&& forall|i: int|
                0 <= i < found.entries.len() ==> !((#[trigger] found.entries[i]).1 is InfoHash)
        }),
    decreases buf.len() - pos, 2int,
{
    let found = spec_entries(buf, pos)->Ok_0;
    if buf[pos] == END_OF_TYPE {
        assert(encode_entries(found.entries, 0) =~= buf.subrange(pos, pos));
    } else {
        let (key, at) = spec_string(buf, pos)->Ok_0;
        let (value, next) = spec_entry_value(buf, at, key)->Ok_0;
        let rest = spec_entries(buf, next)->Ok_0;
        lemma_string_fits(buf, pos);
        if value is Pieces {
            lemma_pieces_fit(buf, at);
        } else if value is PeersCompact {
            lemma_peers_fit(buf, at);
        } else {
            lemma_reencode(buf, at);
        }
        assert(fits(encode_value(value), buf, at, next) && !(value is InfoHash));
        lemma_entries_reencode(buf, next);
        lemma_entries_shift((key, value), rest.entries, 0);
        assert(found.entries == seq![(key, value)] + rest.entries);
        assert(found.entries[0] == (key, value));
        assert(encode_entries(found.entries, 0) == encode_entry(key, value) + encode_entries(
            rest.entries,
            0,
        ));
        lemma_fits_join(encode_string(key), encode_value(value), buf, pos, at, next);
        lemma_fits_join(
            encode_entry(key, value),
            encode_entries(rest.entries, 0),
            buf,
            pos,
            next,
            found.close,
        );
        assert forall|i: int| 0 <= i < found.entries.len() implies !((
            #[trigger] found.entries[i]).1 is InfoHash) by {
            if i > 0 {
                assert(found.entries[i] == rest.entries[i - 1]);
            }
        }
    }
}

} // verus!
