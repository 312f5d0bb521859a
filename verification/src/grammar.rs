use vstd::prelude::*;
use vstd::utf8::{decode_utf8, valid_utf8};

use crate::errors::ParseError;
use crate::hash::sha1_digest;
use crate::scan::lemma_find_byte;
use crate::value::Value;

verus! {

/// `i`, the byte that opens an integer.
pub const INTEGER_START: u8 = 0x69;

/// `:`, the byte between a string's length and its bytes.
pub const STRING_DELIM: u8 = 0x3A;

/// `d`, the byte that opens a dictionary.
pub const DICTIONARY_START: u8 = 0x64;

/// `l`, the byte that opens a list.
pub const LIST_START: u8 = 0x6C;

/// `e`, the byte that closes an integer, a list or a dictionary.
pub const END_OF_TYPE: u8 = 0x65;

/// Whether `b` is an ASCII digit.
pub open spec fn is_digit(b: u8) -> bool {
    0x30 <= b <= 0x39
}

/// Whether every byte of `d` is an ASCII digit.
pub open spec fn all_digits(d: Seq<u8>) -> bool {
    forall|i: int| 0 <= i < d.len() ==> is_digit(#[trigger] d[i])
}

/// The number that the decimal numeral `d` writes.
pub open spec fn digits_value(d: Seq<u8>) -> nat
    decreases d.len(),
{
    if d.len() == 0 {
        0
    } else {
        digits_value(d.drop_last()) * 10 + (d.last() - 0x30) as nat
    }
}

/// The value of `d` read as a decimal numeral: at least one digit, digits
/// only, and no more than 64 bits.
pub open spec fn spec_decimal(d: Seq<u8>) -> Option<u64> {
    if d.len() > 0 && all_digits(d) && digits_value(d) <= u64::MAX {
        Some(digits_value(d) as u64)
    } else {
        None
    }
}

/// The first index at or after `pos` that holds `b`; the length of `buf`
/// where there is none.
pub open spec fn find_byte(buf: Seq<u8>, pos: int, b: u8) -> int
    decreases buf.len() - pos,
{
    if pos >= buf.len() {
        buf.len() as int
    } else if buf[pos] == b {
        pos
    } else {
        find_byte(buf, pos + 1, b)
    }
}

/// A decimal numeral that starts at `pos` and runs up to the next `delim`:
/// its value and the index after the delimiter.
pub open spec fn spec_number(buf: Seq<u8>, pos: int, delim: u8) -> Result<(u64, int), ParseError> {
    let end = find_byte(buf, pos, delim);
    if end >= buf.len() {
        Err(ParseError::BadFile)
    } else {
        match spec_decimal(buf.subrange(pos, end)) {
            None => Err(ParseError::Int),
            Some(n) => Ok((n, end + 1)),
        }
    }
}

/// A length-prefixed run of bytes at `pos`: the index where the bytes start
/// and the index after them.
pub open spec fn spec_raw(buf: Seq<u8>, pos: int) -> Result<(int, int), ParseError> {
    match spec_number(buf, pos, STRING_DELIM) {
        Err(e) => Err(e),
        Ok((n, start)) => if start + n > buf.len() {
            Err(ParseError::BadFile)
        } else {
            Ok((start, start + n))
        },
    }
}

/// A string at `pos`: `<len>:<bytes>`, the bytes being UTF-8 text.
pub open spec fn spec_string(buf: Seq<u8>, pos: int) -> Result<(Seq<char>, int), ParseError> {
    match spec_raw(buf, pos) {
        Err(e) => Err(e),
        Ok((start, end)) => if valid_utf8(buf.subrange(start, end)) {
            Ok((decode_utf8(buf.subrange(start, end)), end))
        } else {
            Err(ParseError::Str)
        },
    }
}

/// An integer at `pos`: `i<decimal>e`.
pub open spec fn spec_int(buf: Seq<u8>, pos: int) -> Result<(u64, int), ParseError> {
    if 0 <= pos < buf.len() && buf[pos] == INTEGER_START {
        spec_number(buf, pos + 1, END_OF_TYPE)
    } else {
        Err(ParseError::BadFile)
    }
}

/// `raw` cut into consecutive pieces of `width` bytes.
pub open spec fn chunks(raw: Seq<u8>, width: int) -> Seq<Seq<u8>> {
    Seq::new((raw.len() as int / width) as nat, |i: int| raw.subrange(i * width, i * width + width))
}

/// A `pieces` string at `pos`: a length that is a multiple of 20, and that
/// many bytes, cut into 20-byte digests.
pub open spec fn spec_pieces(buf: Seq<u8>, pos: int) -> Result<(Seq<Seq<u8>>, int), ParseError> {
    match spec_raw(buf, pos) {
        Err(e) => Err(e),
        Ok((start, end)) => if (end - start) % 20 == 0 {
            Ok((chunks(buf.subrange(start, end), 20), end))
        } else {
            Err(ParseError::BadFile)
        },
    }
}

/// The 16-bit number that two bytes write, high byte first.
pub open spec fn be_u16(hi: u8, lo: u8) -> u16 {
    (hi * 256 + lo) as u16
}

/// The peer that a 6-byte record names: four octets and a big-endian port.
pub open spec fn peer_of(record: Seq<u8>) -> ((u8, u8, u8, u8), u16) {
    ((record[0], record[1], record[2], record[3]), be_u16(record[4], record[5]))
}

/// The peers that consecutive 6-byte records of `raw` name.
pub open spec fn compact_peers(raw: Seq<u8>) -> Seq<((u8, u8, u8, u8), u16)> {
    Seq::new((raw.len() / 6) as nat, |i: int| peer_of(raw.subrange(i * 6, i * 6 + 6)))
}

/// A compact `peers` string at `pos`: a length that is a multiple of 6, and
/// that many bytes, cut into 6-byte records.
pub open spec fn spec_peers_compact(buf: Seq<u8>, pos: int) -> Result<
    (Seq<((u8, u8, u8, u8), u16)>, int),
    ParseError,
> {
    match spec_raw(buf, pos) {
        Err(e) => Err(e),
        Ok((start, end)) => if (end - start) % 6 == 0 {
            Ok((compact_peers(buf.subrange(start, end)), end))
        } else {
            Err(ParseError::BadFile)
        },
    }
}

/// The value at `pos` and the index after it. The first byte decides: a
/// digit opens a string, `i` an integer, `l` a list, `d` a dictionary.
pub open spec fn spec_value(buf: Seq<u8>, pos: int) -> Result<(Value, int), ParseError>
    decreases buf.len() - pos, 1int,
{
    if !(0 <= pos < buf.len()) {
        Err(ParseError::BadFile)
    } else if is_digit(buf[pos]) {
        match spec_string(buf, pos) {
            Err(e) => Err(e),
            Ok((s, end)) => Ok((Value::Str(s), end)),
        }
    } else if buf[pos] == INTEGER_START {
        match spec_int(buf, pos) {
            Err(e) => Err(e),
            Ok((n, end)) => Ok((Value::Int(n), end)),
        }
    } else if buf[pos] == LIST_START {
        match spec_list(buf, pos) {
            Err(e) => Err(e),
            Ok((items, end)) => Ok((Value::List(items), end)),
        }
    } else if buf[pos] == DICTIONARY_START {
        match spec_dict(buf, pos) {
            Err(e) => Err(e),
            Ok((entries, end)) => Ok((Value::Dict(entries), end)),
        }
    } else {
        Err(ParseError::BadFile)
    }
}

/// A list at `pos`: `l`, its items, `e`.
pub open spec fn spec_list(buf: Seq<u8>, pos: int) -> Result<(Seq<Value>, int), ParseError>
    decreases buf.len() - pos, 0int,
{
    if 0 <= pos < buf.len() && buf[pos] == LIST_START {
        match spec_items(buf, pos + 1) {
            Err(e) => Err(e),
            Ok((items, close)) => Ok((items, close + 1)),
        }
    } else {
        Err(ParseError::BadFile)
    }
}

/// The items of a list from `pos` on, and the index of the `e` that closes
/// the list. Every item ends after where it starts; the test for it is
/// there to show that the reading ends, and never fails.
pub open spec fn spec_items(buf: Seq<u8>, pos: int) -> Result<(Seq<Value>, int), ParseError>
    decreases buf.len() - pos, 2int,
{
    if !(0 <= pos < buf.len()) {
        Err(ParseError::BadFile)
    } else if buf[pos] == END_OF_TYPE {
        Ok((Seq::empty(), pos))
    } else {
        match spec_value(buf, pos) {
            Err(e) => Err(e),
            Ok((item, next)) => if pos < next <= buf.len() {
                match spec_items(buf, next) {
                    Err(e) => Err(e),
                    Ok((rest, close)) => Ok((seq![item] + rest, close)),
                }
            } else {
                Err(ParseError::BadFile)
            },
        }
    }
}

/// What a dictionary's entries add up to: the entries, the index of the `e`
/// that closes the dictionary, and the index where the value of the last
/// `info` key starts, if there is such a key.
pub struct Entries {
    pub entries: Seq<(Seq<char>, Value)>,
    pub close: int,
    pub info_start: Option<int>,
}

/// The value of a dictionary entry whose key is `key`, at `pos`. A string
/// under `pieces` is cut into digests, one under `peers` into peer records.
pub open spec fn spec_entry_value(buf: Seq<u8>, pos: int, key: Seq<char>) -> Result<
    (Value, int),
    ParseError,
>
    decreases buf.len() - pos, 2int,
{
    if !(0 <= pos < buf.len()) {
        Err(ParseError::BadFile)
    } else if is_digit(buf[pos]) && key == "pieces"@ {
        match spec_pieces(buf, pos) {
            Err(e) => Err(e),
            Ok((digests, end)) => Ok((Value::Pieces(digests), end)),
        }
    } else if is_digit(buf[pos]) && key == "peers"@ {
        match spec_peers_compact(buf, pos) {
            Err(e) => Err(e),
            Ok((peers, end)) => Ok((Value::PeersCompact(peers), end)),
        }
    } else {
        spec_value(buf, pos)
    }
}

/// The entries of a dictionary from `pos` on: key and value in turn, up to
/// the `e` that closes the dictionary. Every entry ends after where it
/// starts; the test for it is there to show that the reading ends, and never
/// fails.
pub open spec fn spec_entries(buf: Seq<u8>, pos: int) -> Result<Entries, ParseError>
    decreases buf.len() - pos, 3int,
{
    if !(0 <= pos < buf.len()) {
        Err(ParseError::BadFile)
    } else if buf[pos] == END_OF_TYPE {
        Ok(Entries { entries: Seq::empty(), close: pos, info_start: None })
    } else {
        match spec_string(buf, pos) {
            Err(e) => Err(e),
            Ok((key, at)) => {
                proof {
                    lemma_find_byte(buf, pos, STRING_DELIM);
                }
                match spec_entry_value(buf, at, key) {
                    Err(e) => Err(e),
                    Ok((value, next)) => if pos < next <= buf.len() {
                        match spec_entries(buf, next) {
                            Err(e) => Err(e),
                            Ok(rest) => Ok(
                                Entries {
                                    entries: seq![(key, value)] + rest.entries,
                                    close: rest.close,
                                    info_start: if rest.info_start is Some {
                                        rest.info_start
                                    } else if key == "info"@ {
                                        Some(at)
                                    } else {
                                        None
                                    },
                                },
                            ),
                        }
                    } else {
                        Err(ParseError::BadFile)
                    },
                }
            },
        }
    }
}

/// The entries of a decoded dictionary: those of the wire form and, where an
/// `info` key occurred, a last entry `info_hash` with the SHA-1 of the bytes
/// from the start of that key's value up to the `e` that closes the
/// dictionary.
pub open spec fn with_info_hash(buf: Seq<u8>, found: Entries) -> Seq<(Seq<char>, Value)> {
    match found.info_start {
        Some(start) => found.entries.push(
            ("info_hash"@, Value::InfoHash(sha1_digest(buf.subrange(start, found.close)))),
        ),
        None => found.entries,
    }
}

/// A dictionary at `pos`: `d`, its entries, `e`.
pub open spec fn spec_dict(buf: Seq<u8>, pos: int) -> Result<
    (Seq<(Seq<char>, Value)>, int),
    ParseError,
>
    decreases buf.len() - pos, 0int,
{
    if 0 <= pos < buf.len() && buf[pos] == DICTIONARY_START {
        match spec_entries(buf, pos + 1) {
            Err(e) => Err(e),
            Ok(found) => Ok((with_info_hash(buf, found), found.close + 1)),
        }
    } else {
        Err(ParseError::BadFile)
    }
}

} // verus!
