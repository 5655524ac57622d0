//! Writing a container: the tensors are laid out in table order without
//! gaps, the header is encoded over the new spans, and the result is the
//! length prefix, the header and the payloads.

use vstd::prelude::*;
use vstd::bytes::{
    lemma_auto_spec_u64_to_from_le_bytes,
    spec_u64_to_le_bytes,
    u64_to_le_bytes,
};
use crate::container::{
    assembled,
    entry_fault,
    lemma_skip_sound_entries,
    lemma_sound_header_is_wf,
    resolve,
    Container,
    ContainerModel,
    TensorDescriptor,
    TensorModel,
};
use crate::dtype::{lemma_token_round_trip, Dtype};
use crate::error::WriteError;
use crate::header::{
    decode_header,
    decoded_header,
    distinct_keys,
    entries_view,
    lemma_pairs_map_holds,
    metadata_distinct,
    metadata_view,
    pairs_map,
    pairs_view,
    EntryModel,
    RawEntry,
};
use crate::order::{entry_key, key_before, lemma_sorted_lists, sort_entries, table_of};
use crate::reader::{data_region, declared_header_len, framed, header_text, parsed};

verus! {

/// What is to be written for each tensor: `None` keeps the payload of the
/// source, `Some` replaces it.
pub open spec fn edits_view(edits: Seq<Option<Vec<u8>>>) -> Seq<Option<Seq<u8>>> {
    Seq::new(
        edits.len(),
        |i: int|
            match edits[i] {
                Some(b) => Some(b@),
                None => None,
            },
    )
}

/// A list of replacements that replaces nothing.
pub open spec fn no_edits(n: nat) -> Seq<Option<Seq<u8>>> {
    Seq::new(n, |i: int| None)
}

/// The replacement at position `i`, if there is one, has the length of the
/// payload that it replaces.
pub open spec fn edit_fits(c: ContainerModel, edits: Seq<Option<Seq<u8>>>, i: int) -> bool {
    match edits[i] {
        Some(b) => b.len() == c.tensors[i].span_len(),
        None => true,
    }
}

/// There is one place per tensor, and every replacement fits.
pub open spec fn edits_fit(c: ContainerModel, edits: Seq<Option<Seq<u8>>>) -> bool {
    &&& edits.len() == c.tensors.len()
    &&& forall|i: int| 0 <= i < edits.len() ==> edit_fits(c, edits, i)
}

/// The bytes written for the tensor at position `i`.
pub open spec fn final_payload(c: ContainerModel, edits: Seq<Option<Seq<u8>>>, i: int) -> Seq<u8> {
    match edits[i] {
        Some(b) => b,
        None => c.payload(i),
    }
}

/// The bytes written for each tensor, in table order.
pub open spec fn final_payloads(c: ContainerModel, edits: Seq<Option<Seq<u8>>>) -> Seq<Seq<u8>> {
    Seq::new(c.tensors.len(), |i: int| final_payload(c, edits, i))
}

/// Where the payload of the tensor at position `i` begins once the tensors
/// are laid out in table order without gaps.
pub open spec fn packed_start(tensors: Seq<TensorModel>, i: int) -> nat
    decreases i,
{
    if i <= 0 {
        0
    } else {
        packed_start(tensors, i - 1) + tensors[i - 1].span_len()
    }
}

/// The table with its spans recomputed: same names, kinds and shapes, in the
/// same order, each span beginning where the one before it ends.
pub open spec fn packed(tensors: Seq<TensorModel>) -> Seq<TensorModel> {
    Seq::new(
        tensors.len(),
        |i: int|
            TensorModel {
                name: tensors[i].name,
                dtype: tensors[i].dtype,
                shape: tensors[i].shape,
                start: packed_start(tensors, i) as usize,
                end: packed_start(tensors, i + 1) as usize,
            },
    )
}

/// The payloads one after another.
pub open spec fn joined(payloads: Seq<Seq<u8>>) -> Seq<u8>
    decreases payloads.len(),
{
    if payloads.len() == 0 {
        Seq::empty()
    } else {
        joined(payloads.drop_last()) + payloads.last()
    }
}

/// The bytes of a container file: the header's length in 8 little-endian
/// bytes, the header's text, the data region.
pub open spec fn frame(text: Seq<u8>, data: Seq<u8>) -> Seq<u8> {
    spec_u64_to_le_bytes(text.len() as u64) + text + data
}

/// `out` is a container file written from `c` with the given replacements:
/// its data region holds the final payloads one after another, and read
/// back it gives the table of `c` with recomputed spans and the metadata of
/// `c`.
pub open spec fn written(c: ContainerModel, edits: Seq<Option<Seq<u8>>>, out: Seq<u8>) -> bool {
    &&& framed(out)
    &&& data_region(out) == joined(final_payloads(c, edits))
    &&& parsed(out) matches Ok(m) && m.wf() && m.tensors == packed(c.tensors) && m.metadata
        == c.metadata
}

/// The entries, with their dtype tokens read, are exactly the given table.
pub open spec fn entries_resolve_to(entries: Seq<EntryModel>, table: Seq<TensorModel>) -> bool {
    &&& entries.len() == table.len()
    &&& forall|i: int|
        0 <= i < entries.len() ==> Dtype::spec_from_token((#[trigger] entries[i]).dtype) is Some
            && resolve(entries[i]) == table[i]
}

/// The header text decodes to the table of `c` with recomputed spans and
/// to the metadata of `c`.
pub open spec fn header_reads_as(c: ContainerModel, text: Seq<u8>) -> bool {
    decoded_header(text) matches Some(h) && h.metadata == c.metadata && entries_resolve_to(
        table_of(h.tensors),
        packed(c.tensors),
    )
}

/// The mathematical content of a list of descriptors.
pub open spec fn descriptors_view(table: Seq<TensorDescriptor>) -> Seq<TensorModel> {
    Seq::new(table.len(), |i: int| table[i]@)
}

/// A frame splits into the parts it was made of.
pub proof fn lemma_frame_splits(text: Seq<u8>, data: Seq<u8>)
    requires
        text.len() <= u64::MAX,
    ensures
        framed(frame(text, data)),
        declared_header_len(frame(text, data)) == text.len(),
        header_text(frame(text, data)) == text,
        data_region(frame(text, data)) == data,
{
    lemma_auto_spec_u64_to_from_le_bytes();
    let prefix = spec_u64_to_le_bytes(text.len() as u64);
    let out = frame(text, data);
    assert(out.subrange(0, 8) =~= prefix);
    assert(out.subrange(8, 8 + text.len() as int) =~= text);
    assert(out.subrange(8 + text.len() as int, out.len() as int) =~= data);
}

/// In a well-formed container the tensors already lie where packing
/// puts them.
pub proof fn lemma_packed_start_bounded(c: ContainerModel, i: int)
    requires
        c.wf(),
        0 <= i <= c.tensors.len(),
    ensures
        packed_start(c.tensors, i) == c.expected_start(i),
        packed_start(c.tensors, i) <= c.data.len(),
        packed_start(c.tensors, i) <= usize::MAX,
    decreases i,
{
    if i > 0 {
        lemma_packed_start_bounded(c, i - 1);
        assert(c.tensors[i - 1].consistent());
        assert(c.tensors[i - 1].start == c.expected_start(i - 1));
    }
}

/// Packing the table of a well-formed container changes nothing: no span
/// moves.
pub proof fn lemma_packed_is_identity(c: ContainerModel)
    requires
        c.wf(),
    ensures
        packed(c.tensors) == c.tensors,
{
    assert forall|i: int| 0 <= i < c.tensors.len() implies packed(c.tensors)[i]
        == c.tensors[i] by {
        lemma_packed_start_bounded(c, i);
        lemma_packed_start_bounded(c, i + 1);
        assert(c.tensors[i].start == c.expected_start(i));
    }
    assert(packed(c.tensors) =~= c.tensors);
}

/// The joined payloads of a prefix of the list are a prefix of the whole.
proof fn lemma_joined_take(payloads: Seq<Seq<u8>>, k: int)
    requires
        0 <= k <= payloads.len(),
    ensures
        joined(payloads.take(k)).len() <= joined(payloads).len(),
        joined(payloads).subrange(0, joined(payloads.take(k)).len() as int) == joined(
            payloads.take(k),
        ),
    decreases payloads.len() - k,
{
    if k == payloads.len() {
        assert(payloads.take(k) =~= payloads);
        assert(joined(payloads).subrange(0, joined(payloads).len() as int) =~= joined(payloads));
    } else {
        lemma_joined_take(payloads, k + 1);
        let next = payloads.take(k + 1);
        assert(next.drop_last() =~= payloads.take(k));
        assert(next.last() == payloads[k]);
        let a = joined(payloads.take(k));
        assert(joined(next) == a + payloads[k]);
        assert(joined(payloads).subrange(0, a.len() as int) =~= joined(next).subrange(
            0,
            a.len() as int,
        ));
        assert(joined(next).subrange(0, a.len() as int) =~= a);
    }
}

/// In the joined payloads, each payload lies where the lengths of those
/// before it put it.
pub proof fn lemma_joined_slice(payloads: Seq<Seq<u8>>, i: int)
    requires
        0 <= i < payloads.len(),
    ensures
        joined(payloads.take(i + 1)).len() == joined(payloads.take(i)).len() + payloads[i].len(),
        joined(payloads.take(i + 1)).len() <= joined(payloads).len(),
        joined(payloads).subrange(
            joined(payloads.take(i)).len() as int,
            joined(payloads.take(i + 1)).len() as int,
        ) == payloads[i],
{
    lemma_joined_take(payloads, i + 1);
    let next = payloads.take(i + 1);
    assert(next.drop_last() =~= payloads.take(i));
    assert(next.last() == payloads[i]);
    let a = joined(payloads.take(i));
    assert(joined(next) == a + payloads[i]);
    assert(joined(payloads).subrange(a.len() as int, joined(next).len() as int) =~= joined(
        next,
    ).subrange(a.len() as int, joined(next).len() as int));
    assert(joined(next).subrange(a.len() as int, joined(next).len() as int) =~= payloads[i]);
}

/// Where every replacement fits, the joined final payloads reach each packed
/// start exactly.
pub proof fn lemma_joined_matches_packed(c: ContainerModel, edits: Seq<Option<Seq<u8>>>, i: int)
    requires
        c.wf(),
        edits_fit(c, edits),
        0 <= i <= c.tensors.len(),
    ensures
        joined(final_payloads(c, edits).take(i)).len() == packed_start(c.tensors, i),
    decreases i,
{
    let ps = final_payloads(c, edits);
    if i > 0 {
        lemma_joined_matches_packed(c, edits, i - 1);
        lemma_joined_slice(ps, i - 1);
        assert(edit_fits(c, edits, i - 1));
        assert(c.tensors[i - 1].consistent());
        assert(c.tensors[i - 1].end <= c.data.len());
    } else {
        assert(ps.take(0) =~= Seq::<Seq<u8>>::empty());
    }
}

/// What a written container holds when it is read back: every tensor of
/// the source under its name, kind and shape, with the payload that was
/// written for it.
pub proof fn lemma_written_reads_back(c: ContainerModel, edits: Seq<Option<Seq<u8>>>, out: Seq<u8>)
    requires
        c.wf(),
        edits_fit(c, edits),
        written(c, edits, out),
    ensures
        parsed(out) is Ok,
        parsed(out)->Ok_0.tensors.len() == c.tensors.len(),
        forall|i: int|
            #![trigger c.tensors[i]]
            0 <= i < c.tensors.len() ==> {
                let m = parsed(out)->Ok_0;
                &&& m.tensors[i].name == c.tensors[i].name
                &&& m.tensors[i].dtype == c.tensors[i].dtype
                &&& m.tensors[i].shape == c.tensors[i].shape
                &&& m.tensors[i].span_len() == c.tensors[i].span_len()
                &&& m.payload(i) == final_payload(c, edits, i)
            },
        parsed(out)->Ok_0.metadata == c.metadata,
        parsed(out)->Ok_0.tensors.len() > 0 ==> parsed(out)->Ok_0.tensors[0].start == 0,
        forall|i: int|
            #![trigger c.tensors[i]]
            0 < i < c.tensors.len() ==> parsed(out)->Ok_0.tensors[i].start == parsed(
                out,
            )->Ok_0.tensors[i - 1].end,
{
    let m = parsed(out)->Ok_0;
    let ps = final_payloads(c, edits);
    assert(m.data == data_region(out));
    assert forall|i: int| #![trigger c.tensors[i]] 0 <= i < c.tensors.len() implies {
        &&& m.tensors[i].name == c.tensors[i].name
        &&& m.tensors[i].dtype == c.tensors[i].dtype
        &&& m.tensors[i].shape == c.tensors[i].shape
        &&& m.tensors[i].span_len() == c.tensors[i].span_len()
        &&& m.payload(i) == final_payload(c, edits, i)
    } by {
        lemma_packed_start_bounded(c, i);
        lemma_packed_start_bounded(c, i + 1);
        lemma_joined_matches_packed(c, edits, i);
        lemma_joined_matches_packed(c, edits, i + 1);
        lemma_joined_slice(ps, i);
    }
    assert forall|i: int|
        #![trigger c.tensors[i]]
        0 < i < c.tensors.len() implies m.tensors[i].start
        == m.tensors[i - 1].end by {
        lemma_packed_start_bounded(c, i);
    }
}

/// A written container reads back with the table and the metadata of its
/// source: no descriptor is changed, no span moves.
pub proof fn lemma_written_keeps_table(
    c: ContainerModel,
    edits: Seq<Option<Seq<u8>>>,
    out: Seq<u8>,
)
    requires
        c.wf(),
        written(c, edits, out),
    ensures
        parsed(out) is Ok,
        parsed(out)->Ok_0.tensors == c.tensors,
        parsed(out)->Ok_0.metadata == c.metadata,
{
    lemma_packed_is_identity(c);
}

/// A container written with nothing replaced reads back with the payload of
/// every tensor as it was.
proof fn lemma_unchanged_payloads(c: ContainerModel, out: Seq<u8>)
    requires
        c.wf(),
        written(c, no_edits(c.tensors.len()), out),
    ensures
        forall|i: int|
            #![trigger c.tensors[i]]
            0 <= i < c.tensors.len() ==> parsed(out)->Ok_0.payload(i) == c.payload(i),
{
    lemma_written_reads_back(c, no_edits(c.tensors.len()), out);
}

/// Writing a container with nothing replaced and reading the result back
/// gives the same table, descriptor for descriptor, the same payload bytes
/// for each tensor, and the same metadata.
pub proof fn lemma_round_trip(c: ContainerModel, out: Seq<u8>)
    requires
        c.wf(),
        written(c, no_edits(c.tensors.len()), out),
    ensures
        parsed(out) is Ok,
        parsed(out)->Ok_0.tensors == c.tensors,
        forall|i: int|
            #![trigger c.tensors[i]]
            0 <= i < c.tensors.len() ==> parsed(out)->Ok_0.payload(i) == c.payload(i),
        parsed(out)->Ok_0.metadata == c.metadata,
{
    lemma_written_keeps_table(c, no_edits(c.tensors.len()), out);
    lemma_unchanged_payloads(c, out);
}

/// The packed starts never go back.
pub proof fn lemma_packed_start_grows(tensors: Seq<TensorModel>, i: int, j: int)
    requires
        0 <= i <= j,
    ensures
        packed_start(tensors, i) <= packed_start(tensors, j),
    decreases j - i,
{
    if i < j {
        lemma_packed_start_grows(tensors, i, j - 1);
    }
}

/// A header text that decodes to the packed table of `c` and to its
/// metadata, framed with the final payloads, is a written container.
pub proof fn lemma_sealed_is_written(
    c: ContainerModel,
    edits: Seq<Option<Seq<u8>>>,
    text: Seq<u8>,
    out: Seq<u8>,
)
    requires
        c.wf(),
        edits_fit(c, edits),
        header_reads_as(c, text),
        text.len() <= u64::MAX,
        out == frame(text, joined(final_payloads(c, edits))),
    ensures
        written(c, edits, out),
{
    let n = c.tensors.len() as int;
    let fp = final_payloads(c, edits);
    let data = joined(fp);
    let h = decoded_header(text)->Some_0;
    let entries = table_of(h.tensors);
    let table = packed(c.tensors);
    lemma_packed_is_identity(c);
    lemma_frame_splits(text, data);
    lemma_joined_matches_packed(c, edits, n);
    assert(fp.take(n) =~= fp);
    let total = data.len();
    assert forall|i: int| 0 <= i < n implies entry_fault(entries, i, total) is None by {
        lemma_packed_start_bounded(c, i);
        lemma_packed_start_bounded(c, i + 1);
        lemma_packed_start_grows(c.tensors, i + 1, n);
        assert(resolve(entries[i]) == table[i]);
        assert(c.tensors[i].consistent());
        assert(c.tensors[i].end <= c.data.len());
        if i > 0 {
            assert(resolve(entries[i - 1]) == table[i - 1]);
            assert(key_before(c.tensors[i - 1].key(), c.tensors[i].key()));
            assert(entry_key(entries[i - 1]) == c.tensors[i - 1].key());
            assert(entry_key(entries[i]) == c.tensors[i].key());
        }
        assert forall|j: int| 0 <= j < i implies (#[trigger] entries[j]).name
            != entries[i].name by {
            assert(resolve(entries[j]) == table[j]);
            assert(c.tensors[j].name != c.tensors[i].name);
        }
    }
    lemma_skip_sound_entries(entries, n, total);
    lemma_sound_header_is_wf(entries, h.metadata, data);
    let m = assembled(entries, h.metadata, data)->Ok_0;
    assert(m.tensors =~= table) by {
        assert forall|i: int| 0 <= i < n implies m.tensors[i] == table[i] by {
            assert(resolve(entries[i]) == table[i]);
        }
    }
}

/// The table as header entries: each descriptor with its kind written as
/// a token.
pub fn raw_table(table: &Vec<TensorDescriptor>) -> (r: Vec<RawEntry>)
    ensures
        entries_resolve_to(entries_view(r@), descriptors_view(table@)),
{
    let mut entries: Vec<RawEntry> = Vec::new();
    let mut i: usize = 0;
    while i < table.len()
        invariant
            i <= table@.len(),
            entries@.len() == i,
            forall|j: int|
                0 <= j < i ==> Dtype::spec_from_token((#[trigger] entries@[j])@.dtype) is Some
                    && resolve(entries@[j]@) == table@[j]@,
        decreases table@.len() - i,
    {
        let d = &table[i];
        proof {
            lemma_token_round_trip(d.dtype);
        }
        let shape = d.shape.clone();
        assert(shape@ =~= d.shape@);
        entries.push(
            RawEntry {
                name: d.name.clone(),
                dtype: d.dtype.token().to_owned(),
                shape,
                start: d.start,
                end: d.end,
            },
        );
        i += 1;
    }
    entries
}

/// Encodes a header as JSON text: builds `safetensors::tensor::Metadata`
/// with `Metadata::new` from the metadata pairs and one
/// `safetensors::tensor::TensorInfo` per entry, in the order given, and
/// serializes it with `serde_json::to_vec`. Each dtype token is turned into
/// a `safetensors::Dtype` with `serde_json::from_value`. `None` where one of
/// them refuses.
///
/// Trusted: nothing is claimed of the text, whose metadata keys come out
/// of a hash map in no fixed order; [`seal`] decodes it again and compares.
/// The names must differ from one another: `Metadata` keeps one index per
/// name, and its serializer reaches past its list of names where two
/// tensors share one.
#[verifier::external_body]
fn encode_header(entries: &Vec<RawEntry>, metadata: &Option<Vec<(String, String)>>) -> (r: Option<
    Vec<u8>,
>)
    requires
        forall|i: int, j: int|
            0 <= i < j < entries@.len() ==> (#[trigger] entries@[i]).name@ != (
            #[trigger] entries@[j]).name@,
{
    let infos = entries.iter().map(|e| {
        Ok((e.name.clone(), safetensors::tensor::TensorInfo {
            dtype: serde_json::from_value(serde_json::Value::String(e.dtype.clone()))?,
            shape: e.shape.clone(),
            data_offsets: (e.start, e.end),
        }))
    }).collect::<Result<Vec<_>, serde_json::Error>>().ok()?;
    let pairs = metadata.clone().map(|m| m.into_iter().collect());
    let header = safetensors::tensor::Metadata::new(pairs, infos).ok()?;
    serde_json::to_vec(&header).ok()
}

/// Whether two shapes are the same.
fn shapes_equal(a: &Vec<usize>, b: &Vec<usize>) -> (r: bool)
    ensures
        r == (a@ == b@),
{
    if a.len() != b.len() {
        return false;
    }
    let mut i: usize = 0;
    while i < a.len()
        invariant
            i <= a@.len(),
            a@.len() == b@.len(),
            forall|j: int| 0 <= j < i ==> a@[j] == b@[j],
        decreases a@.len() - i,
    {
        if a[i] != b[i] {
            return false;
        }
        i += 1;
    }
    assert(a@ =~= b@);
    true
}

/// Whether a header entry, with its dtype token read, is the descriptor.
fn entry_matches(e: &RawEntry, d: &TensorDescriptor) -> (r: bool)
    ensures
        r == (Dtype::spec_from_token(e@.dtype) is Some && resolve(e@) == d@),
{
    match Dtype::from_token(e.dtype.as_str()) {
        Some(dtype) => e.name == d.name && dtype == d.dtype && shapes_equal(&e.shape, &d.shape)
            && e.start == d.start && e.end == d.end,
        None => false,
    }
}

/// Whether the entries of a header, with their dtype tokens read, are the
/// given table.
fn entries_match(entries: &Vec<RawEntry>, table: &Vec<TensorDescriptor>) -> (r: bool)
    ensures
        r == entries_resolve_to(entries_view(entries@), descriptors_view(table@)),
{
    let ghost es = entries_view(entries@);
    let ghost ds = descriptors_view(table@);
    if entries.len() != table.len() {
        return false;
    }
    let mut i: usize = 0;
    while i < entries.len()
        invariant
            i <= entries@.len(),
            entries@.len() == table@.len(),
            es == entries_view(entries@),
            ds == descriptors_view(table@),
            forall|j: int|
                0 <= j < i ==> Dtype::spec_from_token((#[trigger] es[j]).dtype) is Some && resolve(
                    es[j],
                ) == ds[j],
        decreases entries@.len() - i,
    {
        if !entry_matches(&entries[i], &table[i]) {
            assert(es[i as int] == entries@[i as int]@);
            assert(ds[i as int] == table@[i as int]@);
            return false;
        }
        i += 1;
    }
    true
}

/// The pair occurs in the list.
pub open spec fn listed(pairs: Seq<(Seq<char>, Seq<char>)>, p: (Seq<char>, Seq<char>)) -> bool {
    exists|j: int| 0 <= j < pairs.len() && #[trigger] pairs[j] == p
}

/// Every pair of `a` occurs in `b`.
pub open spec fn within(a: Seq<(Seq<char>, Seq<char>)>, b: Seq<(Seq<char>, Seq<char>)>) -> bool {
    forall|i: int| 0 <= i < a.len() ==> listed(b, #[trigger] a[i])
}

/// Whether the pair of `key` and `value` is in the list.
fn pair_listed(pairs: &Vec<(String, String)>, key: &String, value: &String) -> (r: bool)
    ensures
        r == listed(pairs_view(pairs@), (key@, value@)),
{
    let mut i: usize = 0;
    while i < pairs.len()
        invariant
            i <= pairs@.len(),
            forall|j: int| 0 <= j < i ==> #[trigger] pairs_view(pairs@)[j] != (key@, value@),
        decreases pairs@.len() - i,
    {
        if pairs[i].0 == *key && pairs[i].1 == *value {
            assert(pairs_view(pairs@)[i as int] == (key@, value@));
            return true;
        }
        i += 1;
    }
    false
}

/// Whether every pair of `a` is in `b`.
fn pairs_within(a: &Vec<(String, String)>, b: &Vec<(String, String)>) -> (r: bool)
    ensures
        r == within(pairs_view(a@), pairs_view(b@)),
{
    let mut i: usize = 0;
    while i < a.len()
        invariant
            i <= a@.len(),
            forall|k: int| 0 <= k < i ==> listed(pairs_view(b@), #[trigger] pairs_view(a@)[k]),
        decreases a@.len() - i,
    {
        assert(pairs_view(a@)[i as int] == (a@[i as int].0@, a@[i as int].1@));
        if !pair_listed(b, &a[i].0, &a[i].1) {
            return false;
        }
        i += 1;
    }
    true
}

/// Two lists of pairs that hold each other's pairs stand for the same map,
/// where one of them holds no key twice.
proof fn lemma_same_pairs_same_map(a: Seq<(Seq<char>, Seq<char>)>, b: Seq<(Seq<char>, Seq<char>)>)
    requires
        distinct_keys(b),
        within(a, b),
        within(b, a),
    ensures
        pairs_map(a) == pairs_map(b),
{
    let ma = pairs_map(a);
    let mb = pairs_map(b);
    assert forall|k: Seq<char>| ma.dom().contains(k) implies mb.dom().contains(k) && ma[k]
        == mb[k] by {
        let i = choose|i: int| 0 <= i < a.len() && #[trigger] a[i].0 == k;
        assert(listed(b, a[i]));
        let j = choose|j: int| 0 <= j < b.len() && #[trigger] b[j] == a[i];
        assert(b[j].0 == k);
        let j2 = choose|j2: int| 0 <= j2 < b.len() && #[trigger] b[j2].0 == k;
        assert(j2 == j);
    }
    assert forall|k: Seq<char>| mb.dom().contains(k) implies ma.dom().contains(k) by {
        let i = choose|i: int| 0 <= i < b.len() && #[trigger] b[i].0 == k;
        assert(listed(a, b[i]));
        let j = choose|j: int| 0 <= j < a.len() && #[trigger] a[j] == b[i];
        assert(a[j].0 == k);
    }
    assert(ma =~= mb);
}

/// Two lists of pairs without a key twice that stand for the same map hold
/// each other's pairs.
proof fn lemma_same_map_same_pairs(a: Seq<(Seq<char>, Seq<char>)>, b: Seq<(Seq<char>, Seq<char>)>)
    requires
        distinct_keys(a),
        distinct_keys(b),
        pairs_map(a) == pairs_map(b),
    ensures
        within(a, b),
{
    assert forall|i: int| 0 <= i < a.len() implies listed(b, #[trigger] a[i]) by {
        lemma_pairs_map_holds(a, i);
        let k = a[i].0;
        assert(pairs_map(b).dom().contains(k));
        let j = choose|j: int| 0 <= j < b.len() && #[trigger] b[j].0 == k;
        lemma_pairs_map_holds(b, j);
        assert(b[j] == a[i]);
    }
}

/// Whether two headers carry the same metadata.
fn metadata_agrees(a: &Option<Vec<(String, String)>>, b: &Option<Vec<(String, String)>>) -> (r:
    bool)
    requires
        metadata_distinct(*a),
        metadata_distinct(*b),
    ensures
        r == (metadata_view(*a) == metadata_view(*b)),
{
    match (a, b) {
        (None, None) => true,
        (Some(x), Some(y)) => {
            let both = pairs_within(x, y) && pairs_within(y, x);
            proof {
                if both {
                    lemma_same_pairs_same_map(pairs_view(x@), pairs_view(y@));
                }
                if pairs_map(pairs_view(x@)) == pairs_map(pairs_view(y@)) {
                    lemma_same_map_same_pairs(pairs_view(x@), pairs_view(y@));
                    lemma_same_map_same_pairs(pairs_view(y@), pairs_view(x@));
                }
            }
            both
        },
        _ => false,
    }
}

/// Appends the bytes of `src` to `out`.
fn append_bytes(out: &mut Vec<u8>, src: &[u8])
    ensures
        final(out)@ == old(out)@ + src@,
{
    out.extend_from_slice(src);
    assert(out@ =~= old(out)@ + src@);
}

/// Whether there is one place per tensor and every replacement has the
/// length of the payload it replaces; else which of the two fails, and for
/// the second at which tensor first.
fn check_edits(c: &Container, edits: &Vec<Option<Vec<u8>>>) -> (r: Result<(), WriteError>)
    ensures
        c@.wf(),
        match r {
            Ok(_) => edits_fit(c@, edits_view(edits@)),
            Err(WriteError::ReplacementCount) => edits@.len() != c@.tensors.len(),
            Err(WriteError::ReplacementLength { index }) => {
                &&& edits@.len() == c@.tensors.len()
                &&& index < edits@.len()
                &&& !edit_fits(c@, edits_view(edits@), index as int)
                &&& forall|j: int| 0 <= j < index ==> edit_fits(c@, edits_view(edits@), j)
            },
            Err(WriteError::Unreadable) => false,
        },
{
    let n: usize = c.tensor_count();
    if edits.len() != n {
        return Err(WriteError::ReplacementCount);
    }
    let mut i: usize = 0;
    while i < n
        invariant
            i <= n,
            n == c@.tensors.len(),
            n == edits@.len(),
            c@.wf(),
            forall|j: int| 0 <= j < i ==> edit_fits(c@, edits_view(edits@), j),
        decreases n - i,
    {
        let d = c.descriptor(i);
        match &edits[i] {
            Some(b) => {
                if b.len() != d.end - d.start {
                    return Err(WriteError::ReplacementLength { index: i });
                }
            },
            None => {},
        }
        i += 1;
    }
    Ok(())
}

/// The table of a container with its spans recomputed: the tensors in
/// table order, each beginning where the one before it ends, the first at 0.
pub fn packed_table(c: &Container) -> (table: Vec<TensorDescriptor>)
    ensures
        descriptors_view(table@) == packed(c@.tensors),
{
    let n: usize = c.tensor_count();
    let mut table: Vec<TensorDescriptor> = Vec::new();
    let mut offset: usize = 0;
    let mut i: usize = 0;
    while i < n
        invariant
            i <= n,
            n == c@.tensors.len(),
            c@.wf(),
            offset == packed_start(c@.tensors, i as int),
            table@.len() == i,
            forall|j: int| 0 <= j < i ==> (#[trigger] table@[j])@ == packed(c@.tensors)[j],
        decreases n - i,
    {
        let d = c.descriptor(i);
        let len: usize = d.end - d.start;
        proof {
            lemma_packed_start_bounded(c@, i as int + 1);
        }
        let shape = d.shape.clone();
        assert(shape@ =~= d.shape@);
        table.push(
            TensorDescriptor {
                name: d.name.clone(),
                dtype: d.dtype,
                shape,
                start: offset,
                end: offset + len,
            },
        );
        offset = offset + len;
        i += 1;
    }
    assert(descriptors_view(table@) =~= packed(c@.tensors));
    table
}

/// Makes a container file of a header text and the final payloads, after
/// checking the text: it must decode to the table of `c` with recomputed
/// spans and to the metadata of `c`. Then the file is the length of the text
/// in 8 little-endian bytes, the text, and the payloads in table order,
/// and it reads back as [`written`] says.
pub fn seal(c: &Container, edits: &Vec<Option<Vec<u8>>>, text: &[u8]) -> (r: Result<
    Vec<u8>,
    WriteError,
>)
    ensures
        match r {
            Ok(out) => {
                &&& edits_fit(c@, edits_view(edits@))
                &&& header_reads_as(c@, text@)
                &&& out@ == frame(text@, joined(final_payloads(c@, edits_view(edits@))))
                &&& written(c@, edits_view(edits@), out@)
            },
            Err(WriteError::ReplacementCount) => edits@.len() != c@.tensors.len(),
            Err(WriteError::ReplacementLength { index }) => {
                &&& edits@.len() == c@.tensors.len()
                &&& index < edits@.len()
                &&& !edit_fits(c@, edits_view(edits@), index as int)
                &&& forall|j: int| 0 <= j < index ==> edit_fits(c@, edits_view(edits@), j)
            },
            Err(WriteError::Unreadable) => edits_fit(c@, edits_view(edits@)) && !header_reads_as(
                c@,
                text@,
            ),
        },
{
    let ghost ev = edits_view(edits@);
    let ghost fp = final_payloads(c@, ev);
    match check_edits(c, edits) {
        Ok(_) => {},
        Err(e) => {
            return Err(e);
        },
    }
    let raw = match decode_header(text) {
        Some(h) => h,
        None => {
            return Err(WriteError::Unreadable);
        },
    };
    let table = packed_table(c);
    let ghost given = raw@.tensors;
    let entries = sort_entries(raw.tensors);
    proof {
        lemma_sorted_lists(entries_view(entries@), given, decoded_header(text@)->Some_0.tensors);
    }
    if !metadata_agrees(&raw.metadata, c.metadata()) || !entries_match(&entries, &table) {
        return Err(WriteError::Unreadable);
    }
    let n: usize = c.tensor_count();
    let mut out: Vec<u8> = u64_to_le_bytes(text.len() as u64);
    append_bytes(&mut out, text);
    let ghost head = out@;
    let mut k: usize = 0;
    while k < n
        invariant
            k <= n,
            n == c@.tensors.len(),
            n == edits@.len(),
            ev == edits_view(edits@),
            fp == final_payloads(c@, ev),
            out@ == head + joined(fp.take(k as int)),
        decreases n - k,
    {
        proof {
            let next = fp.take(k + 1);
            assert(next.drop_last() =~= fp.take(k as int));
            assert(next.last() == fp[k as int]);
            assert(head + (joined(fp.take(k as int)) + fp[k as int]) =~= head + joined(
                fp.take(k as int),
            ) + fp[k as int]);
        }
        match &edits[k] {
            Some(b) => {
                append_bytes(&mut out, b.as_slice());
            },
            None => {
                append_bytes(&mut out, c.payload(k));
            },
        }
        k += 1;
    }
    proof {
        assert(fp.take(n as int) =~= fp);
        assert(out@ =~= frame(text@, joined(fp)));
        lemma_sealed_is_written(c@, ev, text@, out@);
    }
    Ok(out)
}

/// Serializes a container, with some payloads replaced, into the bytes of a
/// container file. The tensors are laid out in table order without gaps,
/// the metadata is kept, and each replacement must have the length of the
/// payload it replaces.
///
/// The header text comes from an encoder outside this library, and [`seal`]
/// checks it before it is used: a result is always a file that reads back
/// as [`written`] says. Where the encoder gives no text, or one that does
/// not stand the check, there is no result.
pub fn write_container(c: &Container, edits: &Vec<Option<Vec<u8>>>) -> (r: Result<
    Vec<u8>,
    WriteError,
>)
    ensures
        match r {
            Ok(out) => edits_fit(c@, edits_view(edits@)) && written(
                c@,
                edits_view(edits@),
                out@,
            ),
            Err(WriteError::ReplacementCount) => edits@.len() != c@.tensors.len(),
            Err(WriteError::ReplacementLength { index }) => {
                &&& edits@.len() == c@.tensors.len()
                &&& index < edits@.len()
                &&& !edit_fits(c@, edits_view(edits@), index as int)
                &&& forall|j: int| 0 <= j < index ==> edit_fits(c@, edits_view(edits@), j)
            },
            Err(WriteError::Unreadable) => edits_fit(c@, edits_view(edits@)),
        },
{
    match check_edits(c, edits) {
        Ok(_) => {},
        Err(e) => {
            return Err(e);
        },
    }
    let table = packed_table(c);
    let entries = raw_table(&table);
    assert(descriptors_view(table@).len() == table@.len());
    assert(packed(c@.tensors).len() == c@.tensors.len());
    assert forall|i: int, j: int| 0 <= i < j < entries@.len() implies (
    #[trigger] entries@[i]).name@ != (#[trigger] entries@[j]).name@ by {
        assert(resolve(entries_view(entries@)[i]) == descriptors_view(table@)[i]);
        assert(resolve(entries_view(entries@)[j]) == descriptors_view(table@)[j]);
        assert(descriptors_view(table@)[i] == packed(c@.tensors)[i]);
        assert(descriptors_view(table@)[j] == packed(c@.tensors)[j]);
        assert(c@.tensors[i].name != c@.tensors[j].name);
    }
    match encode_header(&entries, c.metadata()) {
        Some(text) => seal(c, edits, text.as_slice()),
        None => Err(WriteError::Unreadable),
    }
}

} // verus!
