use vstd::prelude::*;

use vstd::utf8::encode_utf8;

use crate::grammar::{find_byte, spec_decimal};
use crate::scan::{lemma_find_byte, parse_decimal, scan_to};
use crate::text::str_eq;
use crate::value::{digests_view, entries_view, values_view, BencodeTypes, Peers, Value};

verus! {

/// The string that `string` holds, if it is one.
pub fn unwrap_string(string: BencodeTypes) -> (r: Option<String>)
    ensures
        match string@ {
            Value::Str(text) => r matches Some(s) && s@ == text,
            _ => r is None,
        },
{
    if let BencodeTypes::String(s) = string {
        Some(s)
    } else {
        None
    }
}

/// The integer that `integer` holds, if it is one.
pub fn unwrap_integer(integer: BencodeTypes) -> (r: Option<u64>)
    ensures
        match integer@ {
            Value::Int(n) => r == Some(n),
            _ => r is None,
        },
{
    if let BencodeTypes::Integer(i) = integer {
        Some(i)
    } else {
        None
    }
}

/// The entries that `dict` holds, if it is a dictionary.
pub fn unwrap_dict(dict: BencodeTypes) -> (r: Option<Vec<(String, BencodeTypes)>>)
    ensures
        match dict@ {
            Value::Dict(entries) => r matches Some(d) && entries_view(d@) == entries,
            _ => r is None,
        },
{
    if let BencodeTypes::Dict(d) = dict {
        Some(d)
    } else {
        None
    }
}

/// The digest that `info_hash` holds, if it is an info-hash.
pub fn unwrap_info_hash(info_hash: BencodeTypes) -> (r: Option<[u8; 20]>)
    ensures
        match info_hash@ {
            Value::InfoHash(digest) => r matches Some(h) && h@ == digest,
            _ => r is None,
        },
{
    if let BencodeTypes::InfoHash(ih) = info_hash {
        Some(ih)
    } else {
        None
    }
}

/// The digests that `pieces` holds, if it is a list of piece digests.
pub fn unwrap_pieces(pieces: BencodeTypes) -> (r: Option<Vec<[u8; 20]>>)
    ensures
        match pieces@ {
            Value::Pieces(digests) => r matches Some(p) && digests_view(p@) == digests,
            _ => r is None,
        },
{
    if let BencodeTypes::Pieces(p) = pieces {
        Some(p)
    } else {
        None
    }
}

/// The texts of a list of strings; `None` where an item is no string.
pub open spec fn texts_of(items: Seq<Value>) -> Option<Seq<Seq<char>>> {
    if forall|i: int| 0 <= i < items.len() ==> (#[trigger] items[i]) is Str {
        Some(Seq::new(items.len(), |i: int| items[i]->Str_0))
    } else {
        None
    }
}

/// The tiers of an announce list: a list of lists of strings. `None` where
/// the value has any other shape.
pub open spec fn announce_list_of(v: Value) -> Option<Seq<Seq<Seq<char>>>> {
    match v {
        Value::List(tiers) => if forall|i: int|
            0 <= i < tiers.len() ==> (#[trigger] tiers[i]) is List && texts_of(
                tiers[i]->List_0,
            ) is Some {
            Some(Seq::new(tiers.len(), |i: int| texts_of(tiers[i]->List_0)->Some_0))
        } else {
            None
        },
        _ => None,
    }
}

/// The texts of a vector of strings.
pub open spec fn strings_view(v: Seq<String>) -> Seq<Seq<char>> {
    Seq::new(v.len(), |i: int| v[i]@)
}

/// The texts of the tiers of an announce list.
pub open spec fn tiers_view(v: Seq<Vec<String>>) -> Seq<Seq<Seq<char>>> {
    Seq::new(v.len(), |i: int| strings_view(v[i]@))
}

/// The strings of `items`, if every item is a string.
fn unwrap_strings(items: &Vec<BencodeTypes>) -> (r: Option<Vec<String>>)
    ensures
        match texts_of(values_view(items@)) {
            Some(texts) => r matches Some(v) && strings_view(v@) == texts,
            None => r is None,
        },
{
    let mut out: Vec<String> = Vec::new();
    let mut i: usize = 0;
    while i < items.len()
        invariant
            i <= items.len(),
            out.len() == i,
            forall|j: int| 0 <= j < i ==> (#[trigger] values_view(items@)[j]) is Str,
            forall|j: int| 0 <= j < i ==> (#[trigger] out@[j])@ == values_view(items@)[j]->Str_0,
        decreases items.len() - i,
    {
        match &items[i] {
            BencodeTypes::String(s) => {
                out.push(s.clone());
            },
            _ => {
                assert(!(values_view(items@)[i as int] is Str));
                return None;
            },
        }
        i = i + 1;
    }
    assert(strings_view(out@) =~= texts_of(values_view(items@))->Some_0);
    Some(out)
}

/// The tiers of an announce list: every item of `vec` must be a list of
/// strings. Any other shape gives `None`.
pub fn unwrap_announce_list(vec: BencodeTypes) -> (r: Option<Vec<Vec<String>>>)
    ensures
        match announce_list_of(vec@) {
            Some(tiers) => r matches Some(v) && tiers_view(v@) == tiers,
            None => r is None,
        },
{
    let BencodeTypes::List(tiers) = vec else {
        return None;
    };
    let ghost views = values_view(tiers@);
    let mut out: Vec<Vec<String>> = Vec::new();
    let mut i: usize = 0;
    while i < tiers.len()
        invariant
            i <= tiers.len(),
            out.len() == i,
            views == values_view(tiers@),
            vec@ == Value::List(views),
            forall|j: int|
                0 <= j < i ==> (#[trigger] views[j]) is List && texts_of(views[j]->List_0) is Some,
            forall|j: int|
                0 <= j < i ==> strings_view((#[trigger] out@[j])@) == texts_of(
                    views[j]->List_0,
                )->Some_0,
        decreases tiers.len() - i,
    {
        assert(views[i as int] == tiers@[i as int]@);
        match &tiers[i] {
            BencodeTypes::List(items) => {
                match unwrap_strings(items) {
                    Some(texts) => {
                        out.push(texts);
                    },
                    None => {
                        assert(texts_of(views[i as int]->List_0) is None);
                        return None;
                    },
                }
            },
            _ => {
                assert(!(views[i as int] is List));
                return None;
            },
        }
        i = i + 1;
    }
    assert(tiers_view(out@) =~= announce_list_of(vec@)->Some_0);
    Some(out)
}

/// The value under `key`: that of the last entry with this key.
pub open spec fn lookup(entries: Seq<(Seq<char>, Value)>, key: Seq<char>) -> Option<Value>
    decreases entries.len(),
{
    if entries.len() == 0 {
        None
    } else if entries.last().0 == key {
        Some(entries.last().1)
    } else {
        lookup(entries.drop_last(), key)
    }
}

/// The index of the last entry with `key`.
pub open spec fn last_index(entries: Seq<(Seq<char>, Value)>, key: Seq<char>) -> Option<int>
    decreases entries.len(),
{
    if entries.len() == 0 {
        None
    } else if entries.last().0 == key {
        Some(entries.len() - 1)
    } else {
        last_index(entries.drop_last(), key)
    }
}

/// `last_index` names an entry with the key, and the one that `lookup`
/// gives.
pub proof fn lemma_last_index(entries: Seq<(Seq<char>, Value)>, key: Seq<char>)
    ensures
        match last_index(entries, key) {
            Some(i) => 0 <= i < entries.len() && entries[i].0 == key && lookup(entries, key)
                == Some(entries[i].1) && forall|j: int|
                i < j < entries.len() ==> (#[trigger] entries[j]).0 != key,
            None => lookup(entries, key) is None && forall|j: int|
                0 <= j < entries.len() ==> (#[trigger] entries[j]).0 != key,
        },
    decreases entries.len(),
{
    if entries.len() > 0 && entries.last().0 != key {
        lemma_last_index(entries.drop_last(), key);
        assert forall|j: int| 0 <= j < entries.len() - 1 implies entries[j]
            == entries.drop_last()[j] by {}
    }
}

/// Where no entry from `from` on has the key, the search may stop at `from`.
pub proof fn lemma_last_index_skip(entries: Seq<(Seq<char>, Value)>, key: Seq<char>, from: int)
    requires
        0 <= from <= entries.len(),
        forall|j: int| from <= j < entries.len() ==> (#[trigger] entries[j]).0 != key,
    ensures
        last_index(entries, key) == last_index(entries.subrange(0, from), key),
    decreases entries.len() - from,
{
    if from == entries.len() {
        assert(entries.subrange(0, from) =~= entries);
    } else {
        assert(entries.last().0 != key);
        lemma_last_index_skip(entries.drop_last(), key, from);
        assert(entries.drop_last().subrange(0, from) =~= entries.subrange(0, from));
    }
}

/// The index of the last entry of `dict` whose key is `key`.
pub fn dict_find(dict: &Vec<(String, BencodeTypes)>, key: &str) -> (r: Option<usize>)
    ensures
        match last_index(entries_view(dict@), key@) {
            Some(i) => r == Some(i as usize) && i < dict.len(),
            None => r is None,
        },
{
    let ghost entries = entries_view(dict@);
    let mut i: usize = dict.len();
    while i > 0
        invariant
            i <= dict.len(),
            entries == entries_view(dict@),
            forall|j: int| i <= j < entries.len() ==> (#[trigger] entries[j]).0 != key@,
        decreases i,
    {
        i = i - 1;
        if str_eq(dict[i].0.as_str(), key) {
            proof {
                lemma_last_index_skip(entries, key@, i + 1);
                assert(entries.subrange(0, i + 1).last() == entries[i as int]);
            }
            return Some(i);
        }
    }
    proof {
        lemma_last_index_skip(entries, key@, 0);
    }
    None
}

/// The value under `key` in `dict`, if there is one.
pub fn dict_get<'a>(dict: &'a Vec<(String, BencodeTypes)>, key: &str) -> (r: Option<
    &'a BencodeTypes,
>)
    ensures
        match lookup(entries_view(dict@), key@) {
            Some(value) => r matches Some(v) && v@ == value,
            None => r is None,
        },
{
    proof {
        lemma_last_index(entries_view(dict@), key@);
    }
    match dict_find(dict, key) {
        Some(i) => Some(&dict[i].1),
        None => None,
    }
}

/// Takes the last entry with `key` out of `dict` and gives its value; the
/// other entries keep their order.
pub fn dict_remove(dict: &mut Vec<(String, BencodeTypes)>, key: &str) -> (r: Option<BencodeTypes>)
    ensures
        match last_index(entries_view(old(dict)@), key@) {
            Some(i) => r matches Some(v) && Some(v@) == lookup(entries_view(old(dict)@), key@)
                && entries_view(final(dict)@) == entries_view(old(dict)@).remove(i),
            None => r is None && final(dict)@ == old(dict)@,
        },
        match lookup(entries_view(old(dict)@), key@) {
            Some(value) => r matches Some(v) && v@ == value,
            None => r is None,
        },
        forall|other: Seq<char>|
            other != key@ ==> #[trigger] lookup(entries_view(final(dict)@), other) == lookup(
                entries_view(old(dict)@),
                other,
            ),
{
    proof {
        lemma_last_index(entries_view(dict@), key@);
    }
    match dict_find(dict, key) {
        Some(i) => {
            let ghost before = dict@;
            let entry = dict.remove(i);
            assert(entries_view(dict@) =~= entries_view(before).remove(i as int));
            assert forall|other: Seq<char>| other != key@ implies #[trigger] lookup(
                entries_view(dict@),
                other,
            ) == lookup(entries_view(before), other) by {
                lemma_lookup_remove(entries_view(before), i as int, other);
            }
            Some(entry.1)
        },
        None => None,
    }
}

/// Taking out an entry with another key leaves what `lookup` finds.
pub proof fn lemma_lookup_remove(
    entries: Seq<(Seq<char>, Value)>,
    i: int,
    key: Seq<char>,
)
    requires
        0 <= i < entries.len(),
        entries[i].0 != key,
    ensures
        lookup(entries.remove(i), key) == lookup(entries, key),
    decreases entries.len(),
{
    if i == entries.len() - 1 {
        assert(entries.remove(i) =~= entries.drop_last());
    } else {
        assert(entries.remove(i).last() == entries.last());
        assert(entries.remove(i).drop_last() =~= entries.drop_last().remove(i));
        if entries.last().0 != key {
            lemma_lookup_remove(entries.drop_last(), i, key);
        }
    }
}

/// `.`, the byte between the octets of a dotted address.
pub const DOT: u8 = 0x2E;

/// The numbers of the dot-separated parts of `text` from `pos` on; `None`
/// where a part is no decimal numeral or is above 255.
pub open spec fn spec_octets(text: Seq<u8>, pos: int) -> Option<Seq<u8>>
    decreases text.len() - pos,
{
    if !(0 <= pos <= text.len()) {
        None
    } else {
        let end = find_byte(text, pos, DOT);
        match spec_decimal(text.subrange(pos, end)) {
            None => None,
            Some(n) => if n > 255 {
                None
            } else if end >= text.len() {
                Some(seq![n as u8])
            } else {
                proof {
                    lemma_find_byte(text, pos, DOT);
                }
                match spec_octets(text, end + 1) {
                    None => None,
                    Some(rest) => Some(seq![n as u8] + rest),
                }
            },
        }
    }
}

/// The IPv4 address that a dotted text writes: its first four parts, where
/// there are at least four and every part is a number up to 255.
pub open spec fn spec_ip(text: Seq<u8>) -> Option<(u8, u8, u8, u8)> {
    match spec_octets(text, 0) {
        Some(octets) => if octets.len() >= 4 {
            Some((octets[0], octets[1], octets[2], octets[3]))
        } else {
            None
        },
        None => None,
    }
}

/// Reads a dotted IPv4 address such as `10.0.0.1`.
pub fn parse_ip(string: &str) -> (r: Option<(u8, u8, u8, u8)>)
    ensures
        r == spec_ip(encode_utf8(string@)),
{
    let bytes = string.as_bytes();
    let mut octets: Vec<u8> = Vec::new();
    let mut cur: usize = 0;
    assert(octets@ + Seq::<u8>::empty() =~= Seq::<u8>::empty());
    loop
        invariant_except_break
            cur <= bytes.len(),
            match spec_octets(bytes@, cur as int) {
                Some(rest) => spec_octets(bytes@, 0) == Some(octets@ + rest),
                None => spec_octets(bytes@, 0) is None,
            },
        invariant
            bytes@ == encode_utf8(string@),
        ensures
            spec_octets(bytes@, 0) == Some(octets@),
        decreases bytes.len() - cur,
    {
        let end = scan_to(bytes, cur, DOT);
        match parse_decimal(bytes, cur, end) {
            None => {
                return None;
            },
            Some(n) => {
                if n > 255 {
                    return None;
                }
                proof {
                    match spec_octets(bytes@, end + 1) {
                        Some(rest) => {
                            assert(octets@ + (seq![n as u8] + rest) =~= octets@.push(n as u8)
                                + rest);
                        },
                        None => {},
                    }
                    assert(octets@ + seq![n as u8] =~= octets@.push(n as u8));
                }
                octets.push(n as u8);
                if end >= bytes.len() {
                    break ;
                }
                cur = end + 1;
            },
        }
    }
    if octets.len() >= 4 {
        Some((octets[0], octets[1], octets[2], octets[3]))
    } else {
        None
    }
}

/// The peer that one item of a peer list names: a dictionary with a dotted
/// address under `ip` and a number under `port`, of which the low 16 bits
/// count.
pub open spec fn peer_of_entry(v: Value) -> Option<((u8, u8, u8, u8), u16)> {
    match v {
        Value::Dict(entries) => match (lookup(entries, "ip"@), lookup(entries, "port"@)) {
            (Some(Value::Str(ip)), Some(Value::Int(port))) => match spec_ip(encode_utf8(ip)) {
                Some(octets) => Some((octets, (port % 65536) as u16)),
                None => None,
            },
            _ => None,
        },
        _ => None,
    }
}

/// The peers that a `peers` value names: a compact list as it stands, a
/// list of dictionaries entry by entry. `None` for any other shape.
pub open spec fn peers_of(v: Value) -> Option<Seq<((u8, u8, u8, u8), u16)>> {
    match v {
        Value::PeersCompact(peers) => Some(peers),
        Value::List(items) => if forall|i: int|
            0 <= i < items.len() ==> peer_of_entry(#[trigger] items[i]) is Some {
            Some(Seq::new(items.len(), |i: int| peer_of_entry(items[i])->Some_0))
        } else {
            None
        },
        _ => None,
    }
}

/// The peer that `item` names, if it is a well-formed peer dictionary.
fn unwrap_peer(item: &BencodeTypes) -> (r: Option<((u8, u8, u8, u8), u16)>)
    ensures
        r == peer_of_entry(item@),
{
    match item {
        BencodeTypes::Dict(d) => {
            let ip = match dict_get(d, "ip") {
                Some(BencodeTypes::String(s)) => s,
                _ => {
                    return None;
                },
            };
            let port = match dict_get(d, "port") {
                Some(BencodeTypes::Integer(p)) => *p,
                _ => {
                    return None;
                },
            };
            match parse_ip(ip.as_str()) {
                Some(octets) => Some((octets, (port % 65536) as u16)),
                None => None,
            }
        },
        _ => None,
    }
}

/// The peers that a decoded `peers` value names.
pub fn unwrap_peers(peers: BencodeTypes) -> (r: Option<Peers>)
    ensures
        match peers_of(peers@) {
            Some(list) => r matches Some(v) && v@ == list,
            None => r is None,
        },
{
    match peers {
        BencodeTypes::PeersCompact(p) => Some(p),
        BencodeTypes::List(l) => {
            let ghost views = values_view(l@);
            let mut out: Peers = Vec::new();
            let mut i: usize = 0;
            while i < l.len()
                invariant
                    i <= l.len(),
                    out.len() == i,
                    views == values_view(l@),
                    peers@ == Value::List(views),
                    forall|j: int| 0 <= j < i ==> peer_of_entry(#[trigger] views[j]) is Some,
                    forall|j: int|
                        0 <= j < i ==> #[trigger] out@[j] == peer_of_entry(views[j])->Some_0,
                decreases l.len() - i,
            {
                assert(views[i as int] == l@[i as int]@);
                match unwrap_peer(&l[i]) {
                    Some(peer) => {
                        out.push(peer);
                    },
                    None => {
                        return None;
                    },
                }
                i = i + 1;
            }
            assert(out@ =~= peers_of(peers@)->Some_0);
            Some(out)
        },
        _ => None,
    }
}

} // verus!
