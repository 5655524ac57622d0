//! The header of a container as its JSON text describes it, before any of it
//! has been checked against the data region.

use vstd::prelude::*;

verus! {

/// One tensor entry of a header, as written: the dtype is still a token.
#[derive(Clone, Debug, PartialEq, Eq)]
pub struct RawEntry {
    pub name: String,
    pub dtype: String,
    pub shape: Vec<usize>,
    pub start: usize,
    pub end: usize,
}

/// Mathematical content of a [`RawEntry`].
pub struct EntryModel {
    pub name: Seq<char>,
    pub dtype: Seq<char>,
    pub shape: Seq<usize>,
    pub start: usize,
    pub end: usize,
}

impl View for RawEntry {
    type V = EntryModel;

    open spec fn view(&self) -> EntryModel {
        EntryModel {
            name: self.name@,
            dtype: self.dtype@,
            shape: self.shape@,
            start: self.start,
            end: self.end,
        }
    }
}

/// A header as a list: the tensor entries in some order, and the free-form
/// metadata if the header carries any.
#[derive(Clone, Debug, PartialEq, Eq)]
pub struct RawHeader {
    pub tensors: Vec<RawEntry>,
    pub metadata: Option<Vec<(String, String)>>,
}

/// Mathematical content of a [`RawHeader`]; the metadata is a map, since the
/// order of its keys carries no meaning.
pub struct HeaderModel {
    pub tensors: Seq<EntryModel>,
    pub metadata: Option<Map<Seq<char>, Seq<char>>>,
}

/// Keys and values of a list of string pairs, as character sequences.
pub open spec fn pairs_view(pairs: Seq<(String, String)>) -> Seq<(Seq<char>, Seq<char>)> {
    Seq::new(pairs.len(), |i: int| (pairs[i].0@, pairs[i].1@))
}

/// No key occurs twice in the list.
pub open spec fn distinct_keys(pairs: Seq<(Seq<char>, Seq<char>)>) -> bool {
    forall|i: int, j: int| 0 <= i < j < pairs.len() ==> pairs[i].0 != pairs[j].0
}

/// The map that a list of pairs stands for; where a key occurs more than
/// once, one of its values is picked.
pub open spec fn pairs_map(pairs: Seq<(Seq<char>, Seq<char>)>) -> Map<Seq<char>, Seq<char>> {
    Map::new(
        |k: Seq<char>| exists|i: int| 0 <= i < pairs.len() && #[trigger] pairs[i].0 == k,
        |k: Seq<char>| pairs[choose|i: int| 0 <= i < pairs.len() && #[trigger] pairs[i].0 == k].1,
    )
}

/// In a list of pairs without a key twice, the map holds each pair.
pub proof fn lemma_pairs_map_holds(pairs: Seq<(Seq<char>, Seq<char>)>, i: int)
    requires
        distinct_keys(pairs),
        0 <= i < pairs.len(),
    ensures
        pairs_map(pairs).dom().contains(pairs[i].0),
        pairs_map(pairs)[pairs[i].0] == pairs[i].1,
{
    let k = pairs[i].0;
    let j = choose|j: int| 0 <= j < pairs.len() && #[trigger] pairs[j].0 == k;
    assert(j == i);
}

/// The metadata of a header as a map.
pub open spec fn metadata_view(metadata: Option<Vec<(String, String)>>) -> Option<
    Map<Seq<char>, Seq<char>>,
> {
    match metadata {
        Some(pairs) => Some(pairs_map(pairs_view(pairs@))),
        None => None,
    }
}

/// The metadata holds no key twice.
pub open spec fn metadata_distinct(metadata: Option<Vec<(String, String)>>) -> bool {
    match metadata {
        Some(pairs) => distinct_keys(pairs_view(pairs@)),
        None => true,
    }
}

/// The mathematical content of a list of entries.
pub open spec fn entries_view(entries: Seq<RawEntry>) -> Seq<EntryModel> {
    Seq::new(entries.len(), |i: int| entries[i]@)
}

impl View for RawHeader {
    type V = HeaderModel;

    open spec fn view(&self) -> HeaderModel {
        HeaderModel {
            tensors: entries_view(self.tensors@),
            metadata: metadata_view(self.metadata),
        }
    }
}

/// What a header's text says once decoded: the tensor entries by name, for
/// the order in which a JSON object lists its keys carries no meaning, and
/// the metadata.
pub struct DecodedHeader {
    pub tensors: Map<Seq<char>, EntryModel>,
    pub metadata: Option<Map<Seq<char>, Seq<char>>>,
}

/// The sequence lists the entries of the map: each entry once, under its
/// own name, and nothing else.
pub open spec fn lists(table: Seq<EntryModel>, entries: Map<Seq<char>, EntryModel>) -> bool {
    &&& forall|i: int|
        0 <= i < table.len() ==> entries.dom().contains((#[trigger] table[i]).name)
            && entries[table[i].name] == table[i]
    &&& forall|name: Seq<char>|
        entries.dom().contains(name) ==> exists|i: int|
            0 <= i < table.len() && (#[trigger] table[i]).name == name
    &&& forall|i: int, j: int|
        0 <= i < j < table.len() ==> (#[trigger] table[i]).name != (#[trigger] table[j]).name
}

/// What the header decoder of the `safetensors` crate makes of a header's
/// JSON text: `None` where it rejects the text.
pub uninterp spec fn decoded_header(text: Seq<u8>) -> Option<DecodedHeader>;

/// Decodes the JSON text of a header with `serde_json::from_slice` into
/// `safetensors::tensor::Metadata` and hands out what it holds: the entries
/// named by `Metadata::offset_keys`, each read with `Metadata::info`, and
/// the pairs of `Metadata::metadata`.
///
/// Trusted: which entries and which metadata come out depends on the text
/// alone. Their order does not: entries of equal offsets and the metadata
/// pairs pass through hash maps. No name and no metadata key comes out
/// twice.
#[verifier::external_body]
pub(crate) fn decode_header(text: &[u8]) -> (r: Option<RawHeader>)
    ensures
        match r {
            Some(h) => {
                &&& decoded_header(text@) matches Some(d) && lists(h@.tensors, d.tensors)
                    && d.metadata == h@.metadata
                &&& metadata_distinct(h.metadata)
            },
            None => decoded_header(text@) is None,
        },
{
    let parsed: safetensors::tensor::Metadata = serde_json::from_slice(text).ok()?;
    let tensors = parsed.offset_keys().into_iter().map(|name| {
        parsed.info(&name).map(|info| RawEntry {
            dtype: info.dtype.to_string(),
            shape: info.shape.clone(),
            start: info.data_offsets.0,
            end: info.data_offsets.1,
            name,
        })
    }).collect::<Option<Vec<RawEntry>>>()?;
    let metadata = parsed.metadata().clone().map(|pairs| pairs.into_iter().collect());
    Some(RawHeader { tensors, metadata })
}

} // verus!
