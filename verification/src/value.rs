use vstd::prelude::*;

verus! {

/// A peer list: for each peer its IPv4 octets and its port number.
pub type Peers = Vec<((u8, u8, u8, u8), u16)>;

/// A decoded bencode value.
///
/// A dictionary keeps its entries in the order of the wire form; where a key
/// occurs more than once, the last entry is the one that lookups find.
#[derive(Debug, PartialEq)]
pub enum BencodeTypes {
    String(String),
    Integer(u64),
    List(Vec<BencodeTypes>),
    Dict(Vec<(String, BencodeTypes)>),
    /// SHA-1 of the raw bytes of an `info` value; never read from the wire.
    InfoHash([u8; 20]),
    /// The `pieces` string, cut into 20-byte digests.
    Pieces(Vec<[u8; 20]>),
    /// The compact `peers` string, cut into 6-byte records.
    PeersCompact(Peers),
}

/// The mathematical value that a [`BencodeTypes`] stands for.
pub enum Value {
    Str(Seq<char>),
    Int(u64),
    List(Seq<Value>),
    Dict(Seq<(Seq<char>, Value)>),
    InfoHash(Seq<u8>),
    Pieces(Seq<Seq<u8>>),
    PeersCompact(Seq<((u8, u8, u8, u8), u16)>),
}

/// The views of the items of a list, in order.
pub open spec fn values_view(items: Seq<BencodeTypes>) -> Seq<Value>
    decreases items,
{
    Seq::new(
        items.len(),
        |i: int|
            if 0 <= i < items.len() {
                items[i].view()
            } else {
                Value::Int(0)
            },
    )
}

/// The views of the entries of a dictionary, in order.
pub open spec fn entries_view(entries: Seq<(String, BencodeTypes)>) -> Seq<(Seq<char>, Value)>
    decreases entries,
{
    Seq::new(
        entries.len(),
        |i: int|
            if 0 <= i < entries.len() {
                (entries[i].0@, entries[i].1.view())
            } else {
                (Seq::empty(), Value::Int(0))
            },
    )
}

/// The byte sequences of a list of digests.
pub open spec fn digests_view(digests: Seq<[u8; 20]>) -> Seq<Seq<u8>> {
    Seq::new(digests.len(), |i: int| digests[i]@)
}

impl View for BencodeTypes {
    type V = Value;

    open spec fn view(&self) -> Value
        decreases self,
    {
        match self {
            BencodeTypes::String(s) => Value::Str(s@),
            BencodeTypes::Integer(i) => Value::Int(*i),
            BencodeTypes::List(l) => Value::List(values_view(l@)),
            BencodeTypes::Dict(d) => Value::Dict(entries_view(d@)),
            BencodeTypes::InfoHash(h) => Value::InfoHash(h@),
            BencodeTypes::Pieces(p) => Value::Pieces(digests_view(p@)),
            BencodeTypes::PeersCompact(p) => Value::PeersCompact(p@),
        }
    }
}

/// Pushing an item onto a list pushes its view onto the list's view.
pub proof fn lemma_values_view_push(items: Seq<BencodeTypes>, item: BencodeTypes)
    ensures
        values_view(items.push(item)) == values_view(items).push(item@),
{
    assert(values_view(items.push(item)) =~= values_view(items).push(item@));
}

/// Pushing an entry onto a dictionary pushes its view onto the dictionary's view.
pub proof fn lemma_entries_view_push(entries: Seq<(String, BencodeTypes)>, entry: (String, BencodeTypes))
    ensures
        entries_view(entries.push(entry)) == entries_view(entries).push((entry.0@, entry.1@)),
{
    assert(entries_view(entries.push(entry)) =~= entries_view(entries).push((entry.0@, entry.1@)));
}

} // verus!
