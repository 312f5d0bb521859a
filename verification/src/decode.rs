use vstd::prelude::*;
use vstd::string::StringExecFns;

use crate::errors::ParseError;
use crate::grammar::{
    chunks, compact_peers, peer_of, spec_dict, spec_entries, spec_entry_value, spec_int,
    spec_items, spec_list, spec_peers_compact, spec_pieces, spec_string, spec_value,
    Entries, DICTIONARY_START, END_OF_TYPE, INTEGER_START, LIST_START,
};
use crate::hash::sha1;
use crate::scan::{is_ascii_digit, read_number, read_raw, sub_slice};
use crate::text::{str_eq, utf8_text};
use crate::value::{
    digests_view, entries_view, lemma_entries_view_push, lemma_values_view_push, values_view,
    BencodeTypes, Peers, Value,
};

verus! {

/// Decodes the string at `*pointer`: `<len>:<bytes>`, the bytes being UTF-8
/// text. On success the cursor stands after the last byte of the string; on
/// failure it has not moved.
pub fn decode_string(pointer: &mut usize, buf: &Vec<u8>) -> (r: Result<String, ParseError>)
    ensures
        match spec_string(buf@, *old(pointer) as int) {
            Ok((text, end)) => r matches Ok(s) && s@ == text && *final(pointer) == end
                && *old(pointer) < end <= buf.len(),
            Err(e) => r == Err::<String, ParseError>(e) && *final(pointer) == *old(pointer),
        },
{
    let pos = *pointer;
    if pos > buf.len() {
        return Err(ParseError::BadFile);
    }
    match read_raw(buf.as_slice(), pos) {
        Err(e) => Err(e),
        Ok((start, end)) => match utf8_text(sub_slice(buf.as_slice(), start, end)) {
            None => Err(ParseError::Str),
            Some(text) => {
                *pointer = end;
                Ok(String::from_str(text))
            },
        },
    }
}

/// Decodes the integer at `*pointer`: `i<decimal>e`. On success the cursor
/// stands after the `e`; on failure it has not moved.
pub fn decode_int(pointer: &mut usize, buf: &Vec<u8>) -> (r: Result<u64, ParseError>)
    ensures
        match spec_int(buf@, *old(pointer) as int) {
            Ok((n, end)) => r == Ok::<u64, ParseError>(n) && *final(pointer) == end && *old(
                pointer,
            ) < end <= buf.len(),
            Err(e) => r == Err::<u64, ParseError>(e) && *final(pointer) == *old(pointer),
        },
{
    let pos = *pointer;
    if pos >= buf.len() || buf[pos] != INTEGER_START {
        return Err(ParseError::BadFile);
    }
    match read_number(buf.as_slice(), pos + 1, END_OF_TYPE) {
        Err(e) => Err(e),
        Ok((n, end)) => {
            *pointer = end;
            Ok(n)
        },
    }
}

/// The twenty bytes of `buf` from `start` on.
fn digest_at(buf: &[u8], start: usize) -> (digest: [u8; 20])
    requires
        start + 20 <= buf.len(),
    ensures
        digest@ == buf@.subrange(start as int, start + 20),
{
    let mut digest: [u8; 20] = [0u8; 20];
    let mut j: usize = 0;
    while j < 20
        invariant
            j <= 20,
            start + 20 <= buf.len(),
            forall|k: int| 0 <= k < j ==> digest@[k] == buf@[start + k],
        decreases 20 - j,
    {
        digest[j] = buf[start + j];
        j = j + 1;
    }
    assert(digest@ =~= buf@.subrange(start as int, start + 20));
    digest
}

/// Decodes the `pieces` string at `*pointer` into its 20-byte digests. The
/// length must be a multiple of 20. On success the cursor stands after the
/// last byte of the string; on failure it has not moved.
pub fn decode_pieces(pointer: &mut usize, buf: &Vec<u8>) -> (r: Result<Vec<[u8; 20]>, ParseError>)
    ensures
        match spec_pieces(buf@, *old(pointer) as int) {
            Ok((digests, end)) => r matches Ok(v) && digests_view(v@) == digests && *final(pointer)
                == end && *old(pointer) < end <= buf.len(),
            Err(e) => r == Err::<Vec<[u8; 20]>, ParseError>(e) && *final(pointer) == *old(pointer),
        },
{
    let pos = *pointer;
    if pos > buf.len() {
        return Err(ParseError::BadFile);
    }
    match read_raw(buf.as_slice(), pos) {
        Err(e) => Err(e),
        Ok((start, end)) => {
            if (end - start) % 20 != 0 {
                return Err(ParseError::BadFile);
            }
            let ghost raw = buf@.subrange(start as int, end as int);
            let count: usize = (end - start) / 20;
            let mut pieces: Vec<[u8; 20]> = Vec::new();
            let mut i: usize = 0;
            while i < count
                invariant
                    i <= count,
                    start <= end <= buf.len(),
                    count * 20 == end - start,
                    raw == buf@.subrange(start as int, end as int),
                    pieces.len() == i,
                    forall|k: int| 0 <= k < i ==> (#[trigger] pieces@[k])@ == raw.subrange(k * 20, k * 20 + 20),
                decreases count - i,
            {
                let digest = digest_at(buf.as_slice(), start + i * 20);
                assert(digest@ =~= raw.subrange(i * 20, i * 20 + 20));
                pieces.push(digest);
                i = i + 1;
            }
            assert(digests_view(pieces@) =~= chunks(raw, 20));
            *pointer = end;
            Ok(pieces)
        },
    }
}

/// Decodes the compact `peers` string at `*pointer` into its 6-byte
/// records. The length must be a multiple of 6. On success the cursor stands
/// after the last byte of the string; on failure it has not moved.
pub fn decode_peers_compact(pointer: &mut usize, buf: &Vec<u8>) -> (r: Result<Peers, ParseError>)
    ensures
        match spec_peers_compact(buf@, *old(pointer) as int) {
            Ok((peers, end)) => r matches Ok(v) && v@ == peers && *final(pointer) == end && *old(
                pointer,
            ) < end <= buf.len(),
            Err(e) => r == Err::<Peers, ParseError>(e) && *final(pointer) == *old(pointer),
        },
{
    let pos = *pointer;
    if pos > buf.len() {
        return Err(ParseError::BadFile);
    }
    match read_raw(buf.as_slice(), pos) {
        Err(e) => Err(e),
        Ok((start, end)) => {
            if (end - start) % 6 != 0 {
                return Err(ParseError::BadFile);
            }
            let ghost raw = buf@.subrange(start as int, end as int);
            let count: usize = (end - start) / 6;
            let mut peers: Peers = Vec::new();
            let mut i: usize = 0;
            while i < count
                invariant
                    i <= count,
                    start <= end <= buf.len(),
                    count * 6 == end - start,
                    raw == buf@.subrange(start as int, end as int),
                    peers.len() == i,
                    forall|k: int| 0 <= k < i ==> #[trigger] peers@[k] == peer_of(raw.subrange(k * 6, k * 6 + 6)),
                decreases count - i,
            {
                let at: usize = start + i * 6;
                let port: u16 = (buf[at + 4] as u16) * 256 + buf[at + 5] as u16;
                let peer = ((buf[at], buf[at + 1], buf[at + 2], buf[at + 3]), port);
                assert(peer == peer_of(raw.subrange(i * 6, i * 6 + 6)));
                peers.push(peer);
                i = i + 1;
            }
            assert(peers@ =~= compact_peers(raw));
            *pointer = end;
            Ok(peers)
        },
    }
}

/// The value that `decode_peers` finds at `pos`: a list where `l` opens it,
/// else a compact peer string.
pub open spec fn spec_peers(buf: Seq<u8>, pos: int) -> Result<(Value, int), ParseError> {
    if 0 <= pos < buf.len() && buf[pos] == LIST_START {
        match spec_list(buf, pos) {
            Err(e) => Err(e),
            Ok((items, end)) => Ok((Value::List(items), end)),
        }
    } else {
        match spec_peers_compact(buf, pos) {
            Err(e) => Err(e),
            Ok((peers, end)) => Ok((Value::PeersCompact(peers), end)),
        }
    }
}

/// Decodes the value of a `peers` key at `*pointer`: a list of peer
/// dictionaries stays a list, a string becomes a compact peer list. On
/// success the cursor stands after the value; on failure it has not moved.
pub fn decode_peers(pointer: &mut usize, buf: &Vec<u8>) -> (r: Result<BencodeTypes, ParseError>)
    ensures
        match spec_peers(buf@, *old(pointer) as int) {
            Ok((value, end)) => r matches Ok(v) && v@ == value && *final(pointer) == end && *old(
                pointer,
            ) < end <= buf.len(),
            Err(e) => r == Err::<BencodeTypes, ParseError>(e) && *final(pointer) == *old(pointer),
        },
    decreases buf.len() - *old(pointer), 2int,
{
    let pos = *pointer;
    if pos < buf.len() && buf[pos] == LIST_START {
        match decode_list(pointer, buf) {
            Err(e) => Err(e),
            Ok(items) => Ok(BencodeTypes::List(items)),
        }
    } else {
        match decode_peers_compact(pointer, buf) {
            Err(e) => Err(e),
            Ok(peers) => Ok(BencodeTypes::PeersCompact(peers)),
        }
    }
}

/// Decodes the value at `*pointer`, whatever its kind. On success the cursor
/// stands after the value; on failure it has not moved.
pub fn decode_value(pointer: &mut usize, buf: &Vec<u8>) -> (r: Result<BencodeTypes, ParseError>)
    ensures
        match spec_value(buf@, *old(pointer) as int) {
            Ok((value, end)) => r matches Ok(v) && v@ == value && *final(pointer) == end && *old(
                pointer,
            ) < end <= buf.len(),
            Err(e) => r == Err::<BencodeTypes, ParseError>(e) && *final(pointer) == *old(pointer),
        },
    decreases buf.len() - *old(pointer), 1int,
{
    let pos = *pointer;
    if pos >= buf.len() {
        return Err(ParseError::BadFile);
    }
    let lookahead = buf[pos];
    if is_ascii_digit(lookahead) {
        match decode_string(pointer, buf) {
            Err(e) => Err(e),
            Ok(s) => Ok(BencodeTypes::String(s)),
        }
    } else if lookahead == INTEGER_START {
        match decode_int(pointer, buf) {
            Err(e) => Err(e),
            Ok(n) => Ok(BencodeTypes::Integer(n)),
        }
    } else if lookahead == LIST_START {
        match decode_list(pointer, buf) {
            Err(e) => Err(e),
            Ok(items) => Ok(BencodeTypes::List(items)),
        }
    } else if lookahead == DICTIONARY_START {
        match decode_dict(pointer, buf) {
            Err(e) => Err(e),
            Ok(entries) => Ok(BencodeTypes::Dict(entries)),
        }
    } else {
        Err(ParseError::BadFile)
    }
}

/// Decodes the list at `*pointer`: `l`, its items, `e`. On success the
/// cursor stands after the `e`; on failure it has not moved.
pub fn decode_list(pointer: &mut usize, buf: &Vec<u8>) -> (r: Result<Vec<BencodeTypes>, ParseError>)
    ensures
        match spec_list(buf@, *old(pointer) as int) {
            Ok((items, end)) => r matches Ok(v) && values_view(v@) == items && *final(pointer)
                == end && *old(pointer) < end <= buf.len(),
            Err(e) => r == Err::<Vec<BencodeTypes>, ParseError>(e) && *final(pointer) == *old(
                pointer,
            ),
        },
    decreases buf.len() - *old(pointer), 0int,
{
    let pos = *pointer;
    if pos >= buf.len() || buf[pos] != LIST_START {
        return Err(ParseError::BadFile);
    }
    let mut list: Vec<BencodeTypes> = Vec::new();
    let mut cur: usize = pos + 1;
    assert(values_view(list@) + Seq::<Value>::empty() =~= Seq::<Value>::empty());
    loop
        invariant
            pos == *old(pointer),
            *pointer == pos,
            pos < cur <= buf.len(),
            pos < buf.len(),
            buf@[pos as int] == LIST_START,
            match spec_items(buf@, cur as int) {
                Ok((rest, close)) => spec_items(buf@, pos + 1) == Ok::<(Seq<Value>, int), ParseError>(
                    (values_view(list@) + rest, close),
                ),
                Err(e) => spec_items(buf@, pos + 1) == Err::<(Seq<Value>, int), ParseError>(e),
            },
        decreases buf.len() - cur,
    {
        if cur >= buf.len() {
            return Err(ParseError::BadFile);
        }
        if buf[cur] == END_OF_TYPE {
            assert(values_view(list@) + Seq::<Value>::empty() =~= values_view(list@));
            *pointer = cur + 1;
            return Ok(list);
        }
        let mut next: usize = cur;
        match decode_value(&mut next, buf) {
            Err(e) => {
                return Err(e);
            },
            Ok(item) => {
                proof {
                    lemma_values_view_push(list@, item);
                    match spec_items(buf@, next as int) {
                        Ok((rest, close)) => {
                            assert(values_view(list@) + (seq![item@] + rest) =~= values_view(
                                list@,
                            ).push(item@) + rest);
                        },
                        Err(e) => {},
                    }
                }
                list.push(item);
                cur = next;
            },
        }
    }
}

/// Decodes the value of a dictionary entry at `*pointer`, given the entry's
/// key: a string under `pieces` is cut into digests, one under `peers` into
/// peer records, and anything else is decoded as it stands. On success the
/// cursor stands after the value; on failure it has not moved.
pub fn decode_entry_value(pointer: &mut usize, buf: &Vec<u8>, key: &String) -> (r: Result<
    BencodeTypes,
    ParseError,
>)
    ensures
        match spec_entry_value(buf@, *old(pointer) as int, key@) {
            Ok((value, end)) => r matches Ok(v) && v@ == value && *final(pointer) == end && *old(
                pointer,
            ) < end <= buf.len(),
            Err(e) => r == Err::<BencodeTypes, ParseError>(e) && *final(pointer) == *old(pointer),
        },
    decreases buf.len() - *old(pointer), 3int,
{
    let pos = *pointer;
    if pos >= buf.len() {
        return Err(ParseError::BadFile);
    }
    let is_string = is_ascii_digit(buf[pos]);
    if is_string && str_eq(key.as_str(), "pieces") {
        match decode_pieces(pointer, buf) {
            Err(e) => Err(e),
            Ok(digests) => Ok(BencodeTypes::Pieces(digests)),
        }
    } else if is_string && str_eq(key.as_str(), "peers") {
        decode_peers(pointer, buf)
    } else {
        decode_value(pointer, buf)
    }
}

/// Decodes the dictionary at `*pointer`: `d`, keys and values in turn, `e`.
/// The entries come in the order of the buffer. Where a key `info` occurred,
/// a last entry `info_hash` follows them: the SHA-1 of the bytes from the
/// start of that key's value up to the `e` that closes the dictionary. On
/// success the cursor stands after the `e`; on failure it has not moved.
pub fn decode_dict(pointer: &mut usize, buf: &Vec<u8>) -> (r: Result<
    Vec<(String, BencodeTypes)>,
    ParseError,
>)
    ensures
        match spec_dict(buf@, *old(pointer) as int) {
            Ok((entries, end)) => r matches Ok(v) && entries_view(v@) == entries && *final(pointer)
                == end && *old(pointer) < end <= buf.len(),
            Err(e) => r == Err::<Vec<(String, BencodeTypes)>, ParseError>(e) && *final(pointer)
                == *old(pointer),
        },
    decreases buf.len() - *old(pointer), 0int,
{
    let pos = *pointer;
    if pos >= buf.len() || buf[pos] != DICTIONARY_START {
        return Err(ParseError::BadFile);
    }
    let mut dict: Vec<(String, BencodeTypes)> = Vec::new();
    let mut cur: usize = pos + 1;
    let mut info_hash_start: Option<usize> = None;
    assert(entries_view(dict@) + Seq::<(Seq<char>, Value)>::empty() =~= Seq::<
        (Seq<char>, Value),
    >::empty());
    loop
        invariant
            pos == *old(pointer),
            *pointer == pos,
            pos < cur <= buf.len(),
            pos < buf.len(),
            buf@[pos as int] == DICTIONARY_START,
            info_hash_start matches Some(s) ==> pos < s <= cur,
            match spec_entries(buf@, cur as int) {
                Ok(rest) => spec_entries(buf@, pos + 1) == Ok::<Entries, ParseError>(
                    Entries {
                        entries: entries_view(dict@) + rest.entries,
                        close: rest.close,
                        info_start: if rest.info_start is Some {
                            rest.info_start
                        } else {
                            match info_hash_start {
                                Some(s) => Some(s as int),
                                None => None,
                            }
                        },
                    },
                ),
                Err(e) => spec_entries(buf@, pos + 1) == Err::<Entries, ParseError>(e),
            },
        decreases buf.len() - cur,
    {
        if cur >= buf.len() {
            return Err(ParseError::BadFile);
        }
        if buf[cur] == END_OF_TYPE {
            assert(entries_view(dict@) + Seq::<(Seq<char>, Value)>::empty() =~= entries_view(
                dict@,
            ));
            match info_hash_start {
                Some(start) => {
                    let hash = sha1(sub_slice(buf.as_slice(), start, cur));
                    let entry = (String::from_str("info_hash"), BencodeTypes::InfoHash(hash));
                    proof {
                        lemma_entries_view_push(dict@, entry);
                    }
                    dict.push(entry);
                },
                None => {},
            }
            *pointer = cur + 1;
            return Ok(dict);
        }
        let mut at: usize = cur;
        let key = match decode_string(&mut at, buf) {
            Err(e) => {
                return Err(e);
            },
            Ok(key) => key,
        };
        let mut next: usize = at;
        let value = match decode_entry_value(&mut next, buf, &key) {
            Err(e) => {
                return Err(e);
            },
            Ok(value) => value,
        };
        if str_eq(key.as_str(), "info") {
            info_hash_start = Some(at);
        }
        proof {
            let entry = (key, value);
            lemma_entries_view_push(dict@, entry);
            match spec_entries(buf@, next as int) {
                Ok(rest) => {
                    assert(entries_view(dict@) + (seq![(key@, value@)] + rest.entries)
                        =~= entries_view(dict@).push((key@, value@)) + rest.entries);
                },
                Err(e) => {},
            }
        }
        dict.push((key, value));
        cur = next;
    }
}

} // verus!
