//! Elementwise transforms of tensor payloads. A payload of 4-byte elements
//! is read as little-endian words, each word is handed to a function of the
//! caller, and the results are written back in place: the payload keeps its
//! length.

use vstd::prelude::*;
use crate::container::{Container, ContainerModel};
use crate::writer::{edit_fits, edits_fit, edits_view};

verus! {

/// Number of whole 4-byte words in a payload.
pub open spec fn word_count(bytes: Seq<u8>) -> nat {
    bytes.len() / 4
}

/// The word that four bytes write, the least significant byte first.
pub open spec fn word_of(b0: u8, b1: u8, b2: u8, b3: u8) -> u32 {
    (b0 as u32) | ((b1 as u32) << 8) | ((b2 as u32) << 16) | ((b3 as u32) << 24)
}

/// The four bytes that write a word, the least significant byte first.
pub open spec fn word_bytes(w: u32) -> Seq<u8> {
    seq![
        (w & 0xff) as u8,
        ((w >> 8) & 0xff) as u8,
        ((w >> 16) & 0xff) as u8,
        ((w >> 24) & 0xff) as u8,
    ]
}

/// The `i`-th little-endian word of a payload.
pub open spec fn word_at(bytes: Seq<u8>, i: int) -> u32 {
    word_of(bytes[4 * i], bytes[4 * i + 1], bytes[4 * i + 2], bytes[4 * i + 3])
}

/// The bytes that write a word write that word.
pub proof fn lemma_word_round_trip(w: u32)
    ensures
        word_bytes(w).len() == 4,
        word_of(word_bytes(w)[0], word_bytes(w)[1], word_bytes(w)[2], word_bytes(w)[3]) == w,
{
    let b0 = (w & 0xff) as u8;
    let b1 = ((w >> 8) & 0xff) as u8;
    let b2 = ((w >> 16) & 0xff) as u8;
    let b3 = ((w >> 24) & 0xff) as u8;
    assert(w & 0xff < 256 && (w >> 8) & 0xff < 256 && (w >> 16) & 0xff < 256 && (w >> 24) & 0xff
        < 256) by (bit_vector);
    assert((w & 0xff) | (((w >> 8) & 0xff) << 8) | (((w >> 16) & 0xff) << 16) | (((w >> 24)
        & 0xff) << 24) == w) by (bit_vector);
    assert(b0 as u32 == w & 0xff);
    assert(b1 as u32 == (w >> 8) & 0xff);
    assert(b2 as u32 == (w >> 16) & 0xff);
    assert(b3 as u32 == (w >> 24) & 0xff);
}

/// `out` is `payload` with `f` applied to each word, `slot` being handed
/// to `f` beside the word.
pub open spec fn words_mapped<F: Fn(usize, u32) -> u32>(
    payload: Seq<u8>,
    slot: usize,
    f: F,
    out: Seq<u8>,
) -> bool {
    &&& out.len() == payload.len()
    &&& forall|i: int|
        0 <= i < word_count(payload) ==> f.ensures(
            (slot, word_at(payload, i)),
            #[trigger] word_at(out, i),
        )
}

/// Reads the word that begins at byte `at`.
fn read_word(bytes: &[u8], at: usize) -> (w: u32)
    requires
        at + 4 <= bytes@.len(),
    ensures
        w == word_of(
            bytes@[at as int],
            bytes@[at as int + 1],
            bytes@[at as int + 2],
            bytes@[at as int + 3],
        ),
{
    let b0: u8 = bytes[at];
    let b1: u8 = bytes[at + 1];
    let b2: u8 = bytes[at + 2];
    let b3: u8 = bytes[at + 3];
    (b0 as u32) | ((b1 as u32) << 8) | ((b2 as u32) << 16) | ((b3 as u32) << 24)
}

/// Appends the four bytes of a word.
fn push_word(out: &mut Vec<u8>, w: u32)
    ensures
        final(out)@ == old(out)@ + word_bytes(w),
{
    assert(w & 0xff < 256 && (w >> 8) & 0xff < 256 && (w >> 16) & 0xff < 256 && (w >> 24) & 0xff
        < 256) by (bit_vector);
    out.push((w & 0xff) as u8);
    out.push(((w >> 8) & 0xff) as u8);
    out.push(((w >> 16) & 0xff) as u8);
    out.push(((w >> 24) & 0xff) as u8);
    assert(out@ =~= old(out)@ + word_bytes(w));
}

/// Applies `f` to every 4-byte little-endian word of a payload and returns
/// the re-encoded words; `slot` is passed through to `f`.
pub fn map_words<F: Fn(usize, u32) -> u32>(payload: &[u8], slot: usize, f: &F) -> (out: Vec<u8>)
    requires
        payload@.len() % 4 == 0,
        forall|w: u32| f.requires((slot, w)),
    ensures
        words_mapped(payload@, slot, *f, out@),
{
    let n: usize = payload.len() / 4;
    assert(4 * n == payload@.len());
    assert(4 * n <= usize::MAX);
    let mut out: Vec<u8> = Vec::with_capacity(payload.len());
    let mut i: usize = 0;
    while i < n
        invariant
            i <= n,
            n == payload@.len() / 4,
            4 * n == payload@.len(),
            4 * n <= usize::MAX,
            out@.len() == 4 * i,
            forall|w: u32| f.requires((slot, w)),
            forall|j: int|
                0 <= j < i ==> f.ensures((slot, word_at(payload@, j)), #[trigger] word_at(out@, j)),
        decreases n - i,
    {
        let word: u32 = read_word(payload, 4 * i);
        let mapped: u32 = f(slot, word);
        let ghost before = out@;
        push_word(&mut out, mapped);
        proof {
            lemma_word_round_trip(mapped);
            assert(word_at(out@, i as int) == mapped);
            assert(word_at(payload@, i as int) == word);
            assert forall|j: int| 0 <= j < i implies f.ensures(
                (slot, word_at(payload@, j)),
                #[trigger] word_at(out@, j),
            ) by {
                assert(word_at(out@, j) == word_at(before, j));
            }
        }
        i += 1;
    }
    out
}

/// What [`scale_tensors`] did: the replacement payloads, one place per
/// tensor of the container, and the positions of the tensors that were
/// selected but left as they are because their elements are not 4-byte
/// floats.
pub struct Scaled {
    pub edits: Vec<Option<Vec<u8>>>,
    pub skipped: Vec<usize>,
}

/// `slot` is the first place of the selection that names tensor `t`.
pub open spec fn first_slot(selected: Seq<usize>, slot: int, t: int) -> bool {
    &&& 0 <= slot < selected.len()
    &&& selected[slot] == t
    &&& forall|s: int| 0 <= s < slot ==> selected[s] != t
}

/// The selection names tensor `t`.
pub open spec fn is_selected(selected: Seq<usize>, t: int) -> bool {
    exists|s: int| 0 <= s < selected.len() && #[trigger] selected[s] == t
}

/// The first place of the selection that names tensor `t`, if any.
fn find_slot(selected: &Vec<usize>, t: usize) -> (r: Option<usize>)
    ensures
        match r {
            Some(s) => first_slot(selected@, s as int, t as int),
            None => !is_selected(selected@, t as int),
        },
{
    let mut s: usize = 0;
    while s < selected.len()
        invariant
            s <= selected@.len(),
            forall|q: int| 0 <= q < s ==> selected@[q] != t,
        decreases selected@.len() - s,
    {
        if selected[s] == t {
            return Some(s);
        }
        s += 1;
    }
    None
}

/// `edits` replaces the payloads of the selected tensors of 4-byte floats,
/// and no others, by the payloads with `f` applied to every word; `f` is
/// handed the first place of the tensor in the selection.
pub open spec fn scaled_edits<F: Fn(usize, u32) -> u32>(
    c: ContainerModel,
    selected: Seq<usize>,
    f: F,
    edits: Seq<Option<Seq<u8>>>,
) -> bool {
    &&& edits.len() == c.tensors.len()
    &&& forall|t: int|
        0 <= t < c.tensors.len() ==> (#[trigger] edits[t] is Some <==> is_selected(selected, t)
            && c.tensors[t].dtype.spec_is_f32())
    &&& forall|t: int|
        0 <= t < c.tensors.len() && #[trigger] edits[t] is Some ==> exists|s: usize|
            first_slot(selected, s as int, t) && #[trigger] words_mapped(
                c.payload(t),
                s,
                f,
                edits[t]->Some_0,
            )
}

/// `skipped` lists, in increasing order, the selected tensors that are not
/// of 4-byte floats.
pub open spec fn lists_skipped(
    c: ContainerModel,
    selected: Seq<usize>,
    skipped: Seq<usize>,
) -> bool {
    &&& forall|t: int|
        0 <= t < c.tensors.len() ==> (listed_skipped(skipped, t) <==> is_selected(selected, t)
            && !(#[trigger] c.tensors[t]).dtype.spec_is_f32())
    &&& forall|p: int, q: int| 0 <= p < q < skipped.len() ==> skipped[p] < skipped[q]
    &&& forall|q: int| 0 <= q < skipped.len() ==> skipped[q] < c.tensors.len()
}

/// The list of skipped positions holds `t`.
pub open spec fn listed_skipped(skipped: Seq<usize>, t: int) -> bool {
    exists|q: int| 0 <= q < skipped.len() && #[trigger] skipped[q] == t
}

/// Transforms the selected tensors of a container. For each selected tensor
/// of 4-byte floats, every word of its payload is replaced by what `f`
/// makes of it; `f` is handed the tensor's first place in the selection and
/// the word's bits. A selected tensor of another kind is left as it is and
/// reported in `skipped`. Tensors that are not selected get no replacement.
///
/// Every replacement has the length of the payload it replaces, and no
/// descriptor is touched: shapes, kinds and spans stay as they are.
pub fn scale_tensors<F: Fn(usize, u32) -> u32>(c: &Container, selected: &Vec<usize>, f: &F) -> (r:
    Scaled)
    requires
        forall|s: usize, w: u32| s < selected@.len() ==> f.requires((s, w)),
    ensures
        c@.wf(),
        edits_fit(c@, edits_view(r.edits@)),
        scaled_edits(c@, selected@, *f, edits_view(r.edits@)),
        lists_skipped(c@, selected@, r.skipped@),
{
    let n: usize = c.tensor_count();
    let mut edits: Vec<Option<Vec<u8>>> = Vec::new();
    let mut skipped: Vec<usize> = Vec::new();
    let mut t: usize = 0;
    while t < n
        invariant
            t <= n,
            n == c@.tensors.len(),
            c@.wf(),
            edits@.len() == t,
            forall|s: usize, w: u32| s < selected@.len() ==> f.requires((s, w)),
            forall|j: int| 0 <= j < t ==> edit_fits(c@, edits_view(edits@), j),
            forall|j: int|
                0 <= j < t ==> (#[trigger] edits@[j] is Some <==> is_selected(selected@, j)
                    && c@.tensors[j].dtype.spec_is_f32()),
            forall|j: int|
                0 <= j < t && #[trigger] edits@[j] is Some ==> exists|s: usize|
                    first_slot(selected@, s as int, j) && #[trigger] words_mapped(
                        c@.payload(j),
                        s,
                        *f,
                        edits@[j]->Some_0@,
                    ),
            forall|j: int|
                0 <= j < n ==> (listed_skipped(skipped@, j) <==> j < t && is_selected(selected@, j)
                    && !c@.tensors[j].dtype.spec_is_f32()),
            forall|p: int, q: int| 0 <= p < q < skipped@.len() ==> skipped@[p] < skipped@[q],
            forall|q: int| 0 <= q < skipped@.len() ==> skipped@[q] < t,
        decreases n - t,
    {
        let ghost old_edits = edits@;
        let ghost old_skipped = skipped@;
        let d = c.descriptor(t);
        match find_slot(selected, t) {
            Some(s) => {
                if d.dtype.is_f32() {
                    let payload = c.payload(t);
                    proof {
                        lemma_f32_payload_is_words(c@, t as int);
                    }
                    let bytes = map_words(payload, s, f);
                    edits.push(Some(bytes));
                    assert(words_mapped(c@.payload(t as int), s, *f, edits@[t as int]->Some_0@));
                    assert(first_slot(selected@, s as int, t as int));
                } else {
                    edits.push(None);
                    skipped.push(t);
                    assert(skipped@[old_skipped.len() as int] == t);
                    assert(listed_skipped(skipped@, t as int));
                }
            },
            None => {
                edits.push(None);
            },
        }
        proof {
            assert forall|j: int| 0 <= j < t implies edits@[j] == old_edits[j] by {}
            assert forall|j: int| 0 <= j < t + 1 implies edit_fits(c@, edits_view(edits@), j) by {
                if j < t {
                    assert(edit_fits(c@, edits_view(old_edits), j));
                }
            }
            assert forall|j: int| 0 <= j < n implies (listed_skipped(skipped@, j) <==> j < t + 1
                && is_selected(selected@, j) && !c@.tensors[j].dtype.spec_is_f32()) by {
                if listed_skipped(skipped@, j) {
                    let q = choose|q: int| 0 <= q < skipped@.len() && #[trigger] skipped@[q] == j;
                    if q < old_skipped.len() {
                        assert(old_skipped[q] == j);
                        assert(listed_skipped(old_skipped, j));
                    }
                }
                if listed_skipped(old_skipped, j) {
                    let q = choose|q: int|
                        0 <= q < old_skipped.len() && #[trigger] old_skipped[q] == j;
                    assert(skipped@[q] == j);
                }
            }
        }
        t += 1;
    }
    proof {
        let ev = edits_view(edits@);
        assert forall|j: int| 0 <= j < n implies (#[trigger] ev[j] is Some <==> is_selected(
            selected@,
            j,
        ) && c@.tensors[j].dtype.spec_is_f32()) by {
            assert(edits@[j] is Some <==> ev[j] is Some);
        }
        assert forall|j: int| 0 <= j < n && #[trigger] ev[j] is Some implies exists|s: usize|
            first_slot(selected@, s as int, j) && #[trigger] words_mapped(
                c@.payload(j),
                s,
                *f,
                ev[j]->Some_0,
            ) by {
            assert(edits@[j] is Some);
            assert(ev[j]->Some_0 == edits@[j]->Some_0@);
        }
    }
    Scaled { edits, skipped }
}

/// The payload of a well-formed tensor of 4-byte floats is a whole number
/// of words.
pub proof fn lemma_f32_payload_is_words(c: ContainerModel, t: int)
    requires
        c.wf(),
        0 <= t < c.tensors.len(),
        c.tensors[t].dtype.spec_is_f32(),
    ensures
        c.payload(t).len() % 4 == 0,
        c.payload(t).len() == c.tensors[t].span_len(),
{
    let d = c.tensors[t];
    assert(d.consistent());
    assert(d.end <= c.data.len());
}

} // verus!
