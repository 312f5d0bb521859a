use vstd::prelude::*;

use crate::decode::decode_dict;
use crate::errors::ParseError;
use crate::grammar::spec_dict;
use crate::util::{
    announce_list_of, dict_remove, lookup, tiers_view, unwrap_announce_list, unwrap_dict,
    unwrap_info_hash, unwrap_integer, unwrap_pieces, unwrap_string,
};
use crate::value::{digests_view, entries_view, BencodeTypes, Value};

verus! {

/// The `info` dictionary of a single-file torrent.
#[derive(Debug)]
pub struct Info {
    pub name: String,
    pub length: u64,
    pub piece_length: u64,
    pub pieces: Vec<[u8; 20]>,
}

/// What the swarm needs of a metainfo file.
#[derive(Debug)]
pub struct TorrentFile {
    pub info_hash: [u8; 20],
    pub announce: String,
    pub announce_list: Option<Vec<Vec<String>>>,
    pub created_by: Option<String>,
    pub creation_date: Option<u64>,
    pub encoding: Option<String>,
    pub info: Info,
}

/// Why a buffer is no metainfo file.
#[derive(Clone, Copy, Debug, PartialEq, Eq, Structural)]
pub enum TorrentError {
    /// The buffer is no bencoded dictionary.
    Parse(ParseError),
    /// A required field is missing or has the wrong type.
    BadTorrent,
}

/// The mathematical content of an [`Info`].
pub struct InfoView {
    pub name: Seq<char>,
    pub length: u64,
    pub piece_length: u64,
    pub pieces: Seq<Seq<u8>>,
}

/// The mathematical content of a [`TorrentFile`].
pub struct TorrentView {
    pub info_hash: Seq<u8>,
    pub announce: Seq<char>,
    pub announce_list: Option<Seq<Seq<Seq<char>>>>,
    pub created_by: Option<Seq<char>>,
    pub creation_date: Option<u64>,
    pub encoding: Option<Seq<char>>,
    pub info: InfoView,
}

impl InfoView {
    /// Whether the pieces can be asked for over the wire: a piece has at
    /// least one byte, and piece lengths and piece indices fit in 32 bits.
    pub open spec fn wf(self) -> bool {
        &&& 0 < self.piece_length <= u32::MAX
        &&& self.pieces.len() <= u32::MAX
    }
}

impl View for Info {
    type V = InfoView;

    open spec fn view(&self) -> InfoView {
        InfoView {
            name: self.name@,
            length: self.length,
            piece_length: self.piece_length,
            pieces: digests_view(self.pieces@),
        }
    }
}

impl View for TorrentFile {
    type V = TorrentView;

    open spec fn view(&self) -> TorrentView {
        TorrentView {
            info_hash: self.info_hash@,
            announce: self.announce@,
            announce_list: match self.announce_list {
                Some(tiers) => Some(tiers_view(tiers@)),
                None => None,
            },
            created_by: match self.created_by {
                Some(s) => Some(s@),
                None => None,
            },
            creation_date: self.creation_date,
            encoding: match self.encoding {
                Some(s) => Some(s@),
                None => None,
            },
            info: self.info@,
        }
    }
}

/// The string under `key`, if the key is there and holds a string.
pub open spec fn text_at(entries: Seq<(Seq<char>, Value)>, key: Seq<char>) -> Option<Seq<char>> {
    match lookup(entries, key) {
        Some(Value::Str(text)) => Some(text),
        _ => None,
    }
}

/// The integer under `key`, if the key is there and holds an integer.
pub open spec fn int_at(entries: Seq<(Seq<char>, Value)>, key: Seq<char>) -> Option<u64> {
    match lookup(entries, key) {
        Some(Value::Int(n)) => Some(n),
        _ => None,
    }
}

/// The `info` fields of a single-file torrent: `name`, `length`,
/// `piece length` and `pieces`, all required.
pub open spec fn info_of(entries: Seq<(Seq<char>, Value)>) -> Option<InfoView> {
    match (
        text_at(entries, "name"@),
        int_at(entries, "length"@),
        int_at(entries, "piece length"@),
        lookup(entries, "pieces"@),
    ) {
        (Some(name), Some(length), Some(piece_length), Some(Value::Pieces(pieces))) => Some(
            InfoView { name, length, piece_length, pieces },
        ),
        _ => None,
    }
}

/// The metainfo that a decoded top-level dictionary holds. `info_hash`,
/// `announce` and `info` with its four fields are required; `announce-list`,
/// `created by`, `creation date` and `encoding` are optional, and one of the
/// wrong type counts as absent.
pub open spec fn metainfo_of(entries: Seq<(Seq<char>, Value)>) -> Option<TorrentView> {
    match (lookup(entries, "info_hash"@), text_at(entries, "announce"@), lookup(entries, "info"@)) {
        (Some(Value::InfoHash(info_hash)), Some(announce), Some(Value::Dict(info_entries))) => {
            match info_of(info_entries) {
                Some(info) => Some(
                    TorrentView {
                        info_hash,
                        announce,
                        announce_list: match lookup(entries, "announce-list"@) {
                            Some(list) => announce_list_of(list),
                            None => None,
                        },
                        created_by: text_at(entries, "created by"@),
                        creation_date: int_at(entries, "creation date"@),
                        encoding: text_at(entries, "encoding"@),
                        info,
                    },
                ),
                None => None,
            }
        },
        _ => None,
    }
}

/// The keys of a metainfo file differ from one another.
pub proof fn lemma_keys_differ()
    ensures
        "info_hash"@ != "announce"@,
        "info_hash"@ != "info"@,
        "info_hash"@ != "announce-list"@,
        "info_hash"@ != "created by"@,
        "info_hash"@ != "creation date"@,
        "info_hash"@ != "encoding"@,
        "announce"@ != "info"@,
        "announce"@ != "announce-list"@,
        "announce"@ != "created by"@,
        "announce"@ != "creation date"@,
        "announce"@ != "encoding"@,
        "info"@ != "announce-list"@,
        "info"@ != "created by"@,
        "info"@ != "creation date"@,
        "info"@ != "encoding"@,
        "announce-list"@ != "created by"@,
        "announce-list"@ != "creation date"@,
        "announce-list"@ != "encoding"@,
        "created by"@ != "creation date"@,
        "created by"@ != "encoding"@,
        "creation date"@ != "encoding"@,
        "name"@ != "length"@,
        "name"@ != "piece length"@,
        "name"@ != "pieces"@,
        "length"@ != "piece length"@,
        "length"@ != "pieces"@,
        "piece length"@ != "pieces"@,
{
    reveal_strlit("info_hash");
    reveal_strlit("announce");
    reveal_strlit("info");
    reveal_strlit("announce-list");
    reveal_strlit("created by");
    reveal_strlit("creation date");
    reveal_strlit("encoding");
    reveal_strlit("name");
    reveal_strlit("length");
    reveal_strlit("piece length");
    reveal_strlit("pieces");
    assert("announce"@[0] != "encoding"@[0]);
    assert("announce-list"@[0] != "creation date"@[0]);
    assert("length"@[0] != "pieces"@[0]);
    assert("info_hash"@.len() == 9);
    assert("announce"@.len() == 8);
    assert("info"@.len() == 4);
    assert("announce-list"@.len() == 13);
    assert("created by"@.len() == 10);
    assert("creation date"@.len() == 13);
    assert("encoding"@.len() == 8);
    assert("name"@.len() == 4);
    assert("length"@.len() == 6);
    assert("piece length"@.len() == 12);
    assert("pieces"@.len() == 6);
}

/// Builds the `info` fields from the entries of an `info` dictionary.
fn make_info(info_dict: Vec<(String, BencodeTypes)>) -> (r: Option<Info>)
    ensures
        match info_of(entries_view(info_dict@)) {
            Some(info) => r matches Some(i) && i@ == info,
            None => r is None,
        },
{
    proof {
        lemma_keys_differ();
    }
    let mut info_dict = info_dict;
    let name = unwrap_string(dict_remove(&mut info_dict, "name")?)?;
    let length = unwrap_integer(dict_remove(&mut info_dict, "length")?)?;
    let piece_length = unwrap_integer(dict_remove(&mut info_dict, "piece length")?)?;
    let pieces = unwrap_pieces(dict_remove(&mut info_dict, "pieces")?)?;
    Some(Info { name, length, piece_length, pieces })
}

/// Builds the metainfo from the entries of a decoded top-level dictionary.
pub fn make_torrent_file(dict: Vec<(String, BencodeTypes)>) -> (r: Option<TorrentFile>)
    ensures
        match metainfo_of(entries_view(dict@)) {
            Some(metainfo) => r matches Some(t) && t@ == metainfo,
            None => r is None,
        },
{
    proof {
        lemma_keys_differ();
    }
    let mut dict = dict;
    let info_hash = unwrap_info_hash(dict_remove(&mut dict, "info_hash")?)?;
    let announce = unwrap_string(dict_remove(&mut dict, "announce")?)?;
    let info_dict = unwrap_dict(dict_remove(&mut dict, "info")?)?;
    let info = make_info(info_dict)?;

    let announce_list = match dict_remove(&mut dict, "announce-list") {
        Some(l) => unwrap_announce_list(l),
        None => None,
    };

    let created_by = match dict_remove(&mut dict, "created by") {
        Some(s) => unwrap_string(s),
        None => None,
    };

    let creation_date = match dict_remove(&mut dict, "creation date") {
        Some(i) => unwrap_integer(i),
        None => None,
    };

    let encoding = match dict_remove(&mut dict, "encoding") {
        Some(s) => unwrap_string(s),
        None => None,
    };

    Some(TorrentFile { info_hash, announce, announce_list, created_by, creation_date, encoding, info })
}

impl TorrentFile {
    /// Reads a metainfo file: the buffer must hold a bencoded dictionary
    /// from its first byte on, with the fields of a single-file torrent.
    pub fn from_bytes(buf: &Vec<u8>) -> (r: Result<TorrentFile, TorrentError>)
        ensures
            match spec_dict(buf@, 0) {
                Err(e) => r matches Err(err) && err == TorrentError::Parse(e),
                Ok((entries, _)) => match metainfo_of(entries) {
                    Some(metainfo) => r matches Ok(t) && t@ == metainfo,
                    None => r matches Err(err) && err == TorrentError::BadTorrent,
                },
            },
    {
        let mut pointer: usize = 0;
        let dict = match decode_dict(&mut pointer, buf) {
            Ok(d) => d,
            Err(e) => {
                return Err(TorrentError::Parse(e));
            },
        };
        match make_torrent_file(dict) {
            Some(t) => Ok(t),
            None => Err(TorrentError::BadTorrent),
        }
    }
}

} // verus!
