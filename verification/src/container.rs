//! A container in memory: the checked table of tensor descriptors, the
//! metadata, and a borrowed view of the data region. The spans of the table
//! follow one another from 0 without gap or overlap; what the data region
//! holds behind the last span belongs to no tensor.

use vstd::prelude::*;
use vstd::slice::slice_subrange;
use crate::dtype::Dtype;
use crate::error::{FormatError, FormatFault};
use crate::header::{metadata_distinct, metadata_view, EntryModel, RawEntry, RawHeader};
use crate::layout::{byte_len, span_fits};
use crate::order::{
    entry_before,
    entry_key,
    entry_precedes,
    key_before,
    lemma_before_transitive,
    Key,
};
use crate::text::str_eq;

verus! {

/// One tensor of a container: its name, element kind, shape, and the
/// half-open byte span `[start, end)` of its payload in the data region.
#[derive(Clone, Debug, PartialEq, Eq)]
pub struct TensorDescriptor {
    pub name: String,
    pub dtype: Dtype,
    pub shape: Vec<usize>,
    pub start: usize,
    pub end: usize,
}

/// Mathematical content of a [`TensorDescriptor`].
pub struct TensorModel {
    pub name: Seq<char>,
    pub dtype: Dtype,
    pub shape: Seq<usize>,
    pub start: usize,
    pub end: usize,
}

impl View for TensorDescriptor {
    type V = TensorModel;

    open spec fn view(&self) -> TensorModel {
        TensorModel {
            name: self.name@,
            dtype: self.dtype,
            shape: self.shape@,
            start: self.start,
            end: self.end,
        }
    }
}

impl TensorModel {
    /// What decides the place of the tensor in the table.
    pub open spec fn key(self) -> Key {
        Key { start: self.start, end: self.end, name: self.name }
    }

    /// Length of the payload in bytes.
    pub open spec fn span_len(self) -> nat {
        (self.end - self.start) as nat
    }

    /// The span is not reversed and has the length that kind and shape give.
    pub open spec fn consistent(self) -> bool {
        &&& self.start <= self.end
        &&& byte_len(self.dtype, self.shape) == Some(self.span_len())
    }
}

/// Mathematical content of a container.
pub struct ContainerModel {
    pub tensors: Seq<TensorModel>,
    pub metadata: Option<Map<Seq<char>, Seq<char>>>,
    pub data: Seq<u8>,
}

impl ContainerModel {
    /// Where the span of the tensor at position `i` has to begin: at 0, or
    /// where the span before it ends.
    pub open spec fn expected_start(self, i: int) -> int {
        if i <= 0 {
            0
        } else {
            self.tensors[i - 1].end as int
        }
    }

    /// The invariant of a container: every span is consistent with its
    /// tensor's kind and shape and lies within the data region; the spans
    /// follow one another without gap or overlap, the first at 0; the
    /// tensors stand in the order of their keys; and no name is used twice.
    pub open spec fn wf(self) -> bool {
        &&& forall|i: int|
            0 <= i < self.tensors.len() ==> (#[trigger] self.tensors[i]).consistent()
                && self.tensors[i].end <= self.data.len() && self.tensors[i].start
                == self.expected_start(i)
        &&& forall|i: int, j: int|
            0 <= i < j < self.tensors.len() ==> key_before(
                (#[trigger] self.tensors[i]).key(),
                (#[trigger] self.tensors[j]).key(),
            )
        &&& forall|i: int, j: int|
            0 <= i < j < self.tensors.len() ==> (#[trigger] self.tensors[i]).name != (
            #[trigger] self.tensors[j]).name
    }

    /// The payload of the tensor at position `i`.
    pub open spec fn payload(self, i: int) -> Seq<u8> {
        self.data.subrange(self.tensors[i].start as int, self.tensors[i].end as int)
    }
}

/// The descriptor that a header entry stands for once its dtype token is
/// read.
pub open spec fn resolve(e: EntryModel) -> TensorModel {
    TensorModel {
        name: e.name,
        dtype: Dtype::spec_from_token(e.dtype).unwrap(),
        shape: e.shape,
        start: e.start,
        end: e.end,
    }
}

/// What is wrong with entry `i` of a header, given the entries before it and
/// the length of the data region; `None` where it is in order.
pub open spec fn entry_fault(entries: Seq<EntryModel>, i: int, data_len: nat) -> Option<
    FormatFault,
> {
    let e = entries[i];
    match Dtype::spec_from_token(e.dtype) {
        None => Some(FormatFault::UnknownDtype { tensor: e.name }),
        Some(d) => if e.start > e.end || e.end > data_len {
            Some(FormatFault::SpanOutOfRange { tensor: e.name })
        } else if byte_len(d, e.shape) != Some((e.end - e.start) as nat) {
            Some(FormatFault::ShapeMismatch { tensor: e.name })
        } else if e.start != (if i > 0 {
            entries[i - 1].end
        } else {
            0
        }) {
            Some(FormatFault::SpanMisplaced { tensor: e.name })
        } else if i > 0 && !entry_before(entries[i - 1], e) {
            Some(FormatFault::OutOfOrder { tensor: e.name })
        } else if exists|j: int| 0 <= j < i && (#[trigger] entries[j]).name == e.name {
            Some(FormatFault::DuplicateName { tensor: e.name })
        } else {
            None
        },
    }
}

/// The fault of the first faulty entry at or after position `k`.
pub open spec fn first_fault_from(entries: Seq<EntryModel>, k: int, data_len: nat) -> Option<
    FormatFault,
>
    decreases entries.len() - k,
{
    if k < 0 || k >= entries.len() {
        None
    } else {
        match entry_fault(entries, k, data_len) {
            Some(f) => Some(f),
            None => first_fault_from(entries, k + 1, data_len),
        }
    }
}

/// The fault of the first faulty entry of a header, `None` for a header that
/// fits a data region of the given length.
pub open spec fn first_fault(entries: Seq<EntryModel>, data_len: nat) -> Option<FormatFault> {
    first_fault_from(entries, 0, data_len)
}

/// The container that a header and a data region make, or the first fault
/// that forbids it.
pub open spec fn assembled(
    entries: Seq<EntryModel>,
    metadata: Option<Map<Seq<char>, Seq<char>>>,
    data: Seq<u8>,
) -> Result<ContainerModel, FormatFault> {
    match first_fault(entries, data.len()) {
        Some(f) => Err(f),
        None => Ok(
            ContainerModel {
                tensors: Seq::new(entries.len(), |i: int| resolve(entries[i])),
                metadata,
                data,
            },
        ),
    }
}

/// Entries without a fault up to `k` do not decide the first fault.
pub proof fn lemma_skip_sound_entries(entries: Seq<EntryModel>, k: int, data_len: nat)
    requires
        0 <= k <= entries.len(),
        forall|j: int| 0 <= j < k ==> entry_fault(entries, j, data_len) is None,
    ensures
        first_fault(entries, data_len) == first_fault_from(entries, k, data_len),
    decreases k,
{
    if k > 0 {
        lemma_skip_sound_entries(entries, k - 1, data_len);
    }
}

/// A header without a fault makes a well-formed container.
pub proof fn lemma_sound_header_is_wf(
    entries: Seq<EntryModel>,
    metadata: Option<Map<Seq<char>, Seq<char>>>,
    data: Seq<u8>,
)
    requires
        first_fault(entries, data.len()) is None,
    ensures
        assembled(entries, metadata, data) is Ok,
        assembled(entries, metadata, data)->Ok_0.wf(),
{
    let n = entries.len() as int;
    let len = data.len();
    assert forall|j: int| 0 <= j < n implies entry_fault(entries, j, len) is None by {
        lemma_no_fault_anywhere(entries, 0, j, len);
    }
    let m = assembled(entries, metadata, data)->Ok_0;
    assert forall|i: int, j: int| 0 <= i < j < n implies entry_before(entries[i], entries[j]) by {
        lemma_entries_ordered(entries, i, j, len);
    }
    assert forall|i: int, j: int| 0 <= i < j < n implies (#[trigger] m.tensors[i]).name != (
    #[trigger] m.tensors[j]).name by {
        assert(entry_fault(entries, j, len) is None);
        assert(entries[i].name != entries[j].name);
    }
    assert forall|i: int| 0 <= i < n implies (#[trigger] m.tensors[i]).consistent()
        && m.tensors[i].end <= len && m.tensors[i].start == m.expected_start(i) by {
        assert(entry_fault(entries, i, len) is None);
    }
    assert forall|i: int, j: int| 0 <= i < j < n implies key_before(
        (#[trigger] m.tensors[i]).key(),
        (#[trigger] m.tensors[j]).key(),
    ) by {
        assert(entry_before(entries[i], entries[j]));
    }
}

proof fn lemma_no_fault_anywhere(entries: Seq<EntryModel>, k: int, j: int, data_len: nat)
    requires
        0 <= k <= j < entries.len(),
        first_fault_from(entries, k, data_len) is None,
    ensures
        entry_fault(entries, j, data_len) is None,
    decreases j - k,
{
    if k < j {
        lemma_no_fault_anywhere(entries, k + 1, j, data_len);
    }
}

proof fn lemma_entries_ordered(entries: Seq<EntryModel>, i: int, j: int, data_len: nat)
    requires
        0 <= i < j < entries.len(),
        forall|k: int| 0 <= k < entries.len() ==> entry_fault(entries, k, data_len) is None,
    ensures
        entry_before(entries[i], entries[j]),
    decreases j - i,
{
    assert(entry_fault(entries, j, data_len) is None);
    if i + 1 < j {
        lemma_entries_ordered(entries, i, j - 1, data_len);
        lemma_before_transitive(
            entry_key(entries[i]),
            entry_key(entries[j - 1]),
            entry_key(entries[j]),
        );
    }
}

/// A parsed container: a checked table of descriptors over a borrowed data
/// region. It cannot be changed; what is to be written in place of a payload
/// is kept beside it.
pub struct Container<'a> {
    tensors: Vec<TensorDescriptor>,
    metadata: Option<Vec<(String, String)>>,
    data: &'a [u8],
}

impl<'a> View for Container<'a> {
    type V = ContainerModel;

    closed spec fn view(&self) -> ContainerModel {
        ContainerModel {
            tensors: Seq::new(self.tensors@.len(), |i: int| self.tensors@[i]@),
            metadata: metadata_view(self.metadata),
            data: self.data@,
        }
    }
}

/// Whether an earlier entry already has the name of entry `i`.
fn name_taken(entries: &Vec<RawEntry>, i: usize) -> (r: bool)
    requires
        i < entries@.len(),
    ensures
        r == exists|j: int|
            0 <= j < i && (#[trigger] entries@[j]).name@ == entries@[i as int].name@,
{
    let mut j: usize = 0;
    while j < i
        invariant
            j <= i < entries@.len(),
            forall|k: int|
                0 <= k < j ==> (#[trigger] entries@[k]).name@ != entries@[i as int].name@,
        decreases i - j,
    {
        if entries[j].name == entries[i].name {
            return true;
        }
        j += 1;
    }
    false
}

impl<'a> Container<'a> {
    #[verifier::type_invariant]
    closed spec fn inv(self) -> bool {
        self@.wf() && metadata_distinct(self.metadata)
    }

    /// Checks a header against a data region and makes the container of the
    /// two. The entries are taken in the order given, which must be the
    /// order of a table. Fails with the fault of the first entry that is not
    /// in order. The metadata of the header must be a mapping: no key twice.
    pub fn assemble(raw: RawHeader, data: &'a [u8]) -> (r: Result<Container<'a>, FormatError>)
        requires
            metadata_distinct(raw.metadata),
        ensures
            match r {
                Ok(c) => assembled(raw@.tensors, raw@.metadata, data@) == Ok::<
                    ContainerModel,
                    FormatFault,
                >(c@) && c@.wf(),
                Err(e) => assembled(raw@.tensors, raw@.metadata, data@) == Err::<
                    ContainerModel,
                    FormatFault,
                >(e@),
            },
    {
        let ghost entries = raw@.tensors;
        let ghost len = data@.len();
        let mut tensors: Vec<TensorDescriptor> = Vec::new();
        let mut i: usize = 0;
        while i < raw.tensors.len()
            invariant
                i <= raw.tensors@.len(),
                entries == raw@.tensors,
                entries.len() == raw.tensors@.len(),
                len == data@.len(),
                forall|j: int| 0 <= j < i ==> entry_fault(entries, j, len) is None,
                tensors@.len() == i,
                forall|j: int| 0 <= j < i ==> (#[trigger] tensors@[j])@ == resolve(entries[j]),
            decreases raw.tensors@.len() - i,
        {
            let entry = &raw.tensors[i];
            assert(entry@ == entries[i as int]);
            proof {
                lemma_skip_sound_entries(entries, i as int, len);
            }
            let dtype = match Dtype::from_token(entry.dtype.as_str()) {
                Some(d) => d,
                None => {
                    return Err(FormatError::UnknownDtype { tensor: entry.name.clone() });
                },
            };
            if entry.start > entry.end || entry.end > data.len() {
                return Err(FormatError::SpanOutOfRange { tensor: entry.name.clone() });
            }
            if !span_fits(dtype, &entry.shape, entry.end - entry.start) {
                return Err(FormatError::ShapeMismatch { tensor: entry.name.clone() });
            }
            let expected: usize = if i > 0 {
                raw.tensors[i - 1].end
            } else {
                0
            };
            if entry.start != expected {
                return Err(FormatError::SpanMisplaced { tensor: entry.name.clone() });
            }
            if i > 0 && !entry_precedes(&raw.tensors[i - 1], entry) {
                return Err(FormatError::OutOfOrder { tensor: entry.name.clone() });
            }
            if name_taken(&raw.tensors, i) {
                assert(exists|j: int|
                    0 <= j < i && (#[trigger] entries[j]).name == entries[i as int].name) by {
                    let j = choose|j: int|
                        0 <= j < i && (#[trigger] raw.tensors@[j]).name@
                            == raw.tensors@[i as int].name@;
                    assert(entries[j].name == entries[i as int].name);
                }
                return Err(FormatError::DuplicateName { tensor: entry.name.clone() });
            }
            assert(entry_fault(entries, i as int, len) is None) by {
                if exists|j: int|
                    0 <= j < i && (#[trigger] entries[j]).name == entries[i as int].name {
                    let j = choose|j: int|
                        0 <= j < i && (#[trigger] entries[j]).name == entries[i as int].name;
                    assert(raw.tensors@[j].name@ == raw.tensors@[i as int].name@);
                }
            }
            let shape = entry.shape.clone();
            assert(shape@ =~= entry.shape@);
            tensors.push(
                TensorDescriptor {
                    name: entry.name.clone(),
                    dtype,
                    shape,
                    start: entry.start,
                    end: entry.end,
                },
            );
            i += 1;
        }
        let ghost expected = assembled(raw@.tensors, raw@.metadata, data@)->Ok_0;
        let ghost built = ContainerModel {
            tensors: Seq::new(tensors@.len(), |i: int| tensors@[i]@),
            metadata: metadata_view(raw.metadata),
            data: data@,
        };
        proof {
            lemma_skip_sound_entries(entries, i as int, len);
            lemma_sound_header_is_wf(entries, raw@.metadata, data@);
            assert(built.tensors =~= expected.tensors);
            assert(built == expected);
        }
        let c = Container { tensors, metadata: raw.metadata, data };
        Ok(c)
    }

    /// Number of tensors in the table.
    pub fn tensor_count(&self) -> (n: usize)
        ensures
            n == self@.tensors.len(),
            self@.wf(),
    {
        proof {
            use_type_invariant(self);
        }
        self.tensors.len()
    }

    /// The descriptor at position `i` of the table.
    pub fn descriptor(&self, i: usize) -> (d: &TensorDescriptor)
        requires
            i < self@.tensors.len(),
        ensures
            d@ == self@.tensors[i as int],
            d@.consistent(),
            d@.end <= self@.data.len(),
            self@.wf(),
    {
        proof {
            use_type_invariant(self);
        }
        &self.tensors[i]
    }

    /// The payload of the tensor at position `i`, borrowed from the data
    /// region.
    pub fn payload(&self, i: usize) -> (p: &'a [u8])
        requires
            i < self@.tensors.len(),
        ensures
            p@ == self@.payload(i as int),
            p@.len() == self@.tensors[i as int].span_len(),
    {
        proof {
            use_type_invariant(self);
        }
        let d = &self.tensors[i];
        assert(d@ == self@.tensors[i as int]);
        slice_subrange(self.data, d.start, d.end)
    }

    /// The whole data region.
    pub fn data(&self) -> (d: &'a [u8])
        ensures
            d@ == self@.data,
    {
        self.data
    }

    /// The metadata pairs, in no particular order and without a key twice;
    /// `None` where the header carries no metadata.
    pub fn metadata(&self) -> (m: &Option<Vec<(String, String)>>)
        ensures
            metadata_view(*m) == self@.metadata,
            metadata_distinct(*m),
    {
        proof {
            use_type_invariant(self);
        }
        &self.metadata
    }

    /// Position of the tensor with the given name.
    pub fn find(&self, name: &str) -> (r: Option<usize>)
        ensures
            match r {
                Some(i) => i < self@.tensors.len() && self@.tensors[i as int].name == name@,
                None => forall|i: int|
                    0 <= i < self@.tensors.len() ==> (#[trigger] self@.tensors[i]).name != name@,
            },
    {
        let mut i: usize = 0;
        while i < self.tensors.len()
            invariant
                i <= self.tensors@.len(),
                forall|j: int| 0 <= j < i ==> (#[trigger] self.tensors@[j]).name@ != name@,
            decreases self.tensors@.len() - i,
        {
            if str_eq(self.tensors[i].name.as_str(), name) {
                return Some(i);
            }
            i += 1;
        }
        assert forall|i: int| 0 <= i < self@.tensors.len() implies (
        #[trigger] self@.tensors[i]).name != name@ by {
            assert(self.tensors@[i].name@ != name@);
        }
        None
    }
}

} // verus!
