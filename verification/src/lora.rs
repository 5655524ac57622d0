//! The block-scaling tool as a function on bytes: read a container of LoRA
//! weights, choose two of its blocks at random, rescale them, and give back
//! the new container under a name that tells which blocks were touched.

use vstd::prelude::*;
use crate::container::ContainerModel;
use crate::error::{FormatError, FormatFault, SelectionError, WriteError};
use crate::naming::{file_name, generate_new_filename, joined_abbreviations, NamingError};
use crate::reader::{data_region, framed, parsed, read_container};
use crate::select::{is_selection, match_count, select_tensors};
use crate::text::strings_view;
use crate::transform::{
    first_slot,
    is_selected,
    lists_skipped,
    scale_tensors,
    scaled_edits,
    words_mapped,
};
use crate::writer::{
    edits_fit,
    edits_view,
    final_payload,
    final_payloads,
    lemma_joined_matches_packed,
    lemma_written_reads_back,
    packed_start,
    write_container,
    written,
};

verus! {

/// Why a container could not be processed, by the step that failed.
#[derive(Clone, Debug, PartialEq, Eq)]
pub enum ProcessError {
    Format(FormatError),
    Selection(SelectionError),
    Naming(NamingError),
    Write(WriteError),
}

/// The outcome of [`process_lora`]: the bytes of the new container, the name
/// for its file, the positions of the chosen tensors in the order in which
/// they were drawn, and those among them that were left as they are.
pub struct ScaledFile {
    pub file_name: String,
    pub bytes: Vec<u8>,
    pub selected: Vec<usize>,
    pub skipped: Vec<usize>,
}

/// How many blocks are rescaled.
pub const BLOCKS: usize = 2;

/// The name prefixes of the two families of blocks: those of the UNet and
/// those of the text encoders.
pub open spec fn lora_prefixes() -> Seq<Seq<char>> {
    seq!["lora_unet"@, "lora_te"@]
}

/// The names of the chosen tensors, in the order of the choice.
pub open spec fn selected_names(c: ContainerModel, selected: Seq<usize>) -> Seq<Seq<char>> {
    Seq::new(selected.len(), |i: int| c.tensors[selected[i] as int].name)
}

/// `out` is a container file that holds `c` with the chosen tensors
/// rescaled by `f`: the same tensors under the same names, kinds and shapes,
/// the same metadata; every word of a chosen tensor of 4-byte floats is what
/// `f` made of the word in its place, and every other payload is unchanged.
/// The data region ends with the last payload.
pub open spec fn rescaled<F: Fn(usize, u32) -> u32>(
    c: ContainerModel,
    selected: Seq<usize>,
    f: F,
    out: Seq<u8>,
) -> bool {
    &&& framed(out)
    &&& data_region(out).len() == packed_start(c.tensors, c.tensors.len() as int)
    &&& parsed(out) matches Ok(w) && w.wf() && w.tensors.len() == c.tensors.len() && w.metadata
        == c.metadata && forall|t: int|
        #![trigger c.tensors[t]]
        0 <= t < c.tensors.len() ==> {
            &&& w.tensors[t].name == c.tensors[t].name
            &&& w.tensors[t].dtype == c.tensors[t].dtype
            &&& w.tensors[t].shape == c.tensors[t].shape
            &&& if is_selected(selected, t) && c.tensors[t].dtype.spec_is_f32() {
                exists|s: usize|
                    first_slot(selected, s as int, t) && #[trigger] words_mapped(
                        c.payload(t),
                        s,
                        f,
                        w.payload(t),
                    )
            } else {
                w.payload(t) == c.payload(t)
            }
        }
}

/// `file` is what processing the container `c` gives: two chosen tensors,
/// the container rescaled at those two, the file name made of their
/// abbreviations, and the list of those that were chosen but left alone.
pub open spec fn processed<F: Fn(usize, u32) -> u32>(
    c: ContainerModel,
    stem: Seq<char>,
    extension: Seq<char>,
    f: F,
    file: ScaledFile,
) -> bool {
    let joined = joined_abbreviations(selected_names(c, file.selected@), BLOCKS as int);
    &&& is_selection(c, lora_prefixes(), BLOCKS, file.selected@)
    &&& rescaled(c, file.selected@, f, file.bytes@)
    &&& joined is Some
    &&& file.file_name@ == file_name(stem, "scaled"@, joined->Some_0, extension)
    &&& lists_skipped(c, file.selected@, file.skipped@)
}

/// A container written with the scaled replacements is the container
/// rescaled.
pub proof fn lemma_scaled_and_written<F: Fn(usize, u32) -> u32>(
    c: ContainerModel,
    selected: Seq<usize>,
    f: F,
    edits: Seq<Option<Seq<u8>>>,
    out: Seq<u8>,
)
    requires
        c.wf(),
        edits_fit(c, edits),
        scaled_edits(c, selected, f, edits),
        written(c, edits, out),
    ensures
        rescaled(c, selected, f, out),
{
    lemma_written_reads_back(c, edits, out);
    assert(data_region(out).len() == packed_start(c.tensors, c.tensors.len() as int)) by {
        let payloads = final_payloads(c, edits);
        lemma_joined_matches_packed(c, edits, c.tensors.len() as int);
        assert(payloads.take(c.tensors.len() as int) =~= payloads);
    }
    let w = parsed(out)->Ok_0;
    assert forall|t: int| #![trigger c.tensors[t]] 0 <= t < c.tensors.len() implies {
        &&& w.tensors[t].name == c.tensors[t].name
        &&& w.tensors[t].dtype == c.tensors[t].dtype
        &&& w.tensors[t].shape == c.tensors[t].shape
        &&& if is_selected(selected, t) && c.tensors[t].dtype.spec_is_f32() {
            exists|s: usize|
                first_slot(selected, s as int, t) && #[trigger] words_mapped(
                    c.payload(t),
                    s,
                    f,
                    w.payload(t),
                )
        } else {
            w.payload(t) == c.payload(t)
        }
    } by {
        assert(w.payload(t) == final_payload(c, edits, t));
        if edits[t] is Some {
            let s = choose|s: usize|
                first_slot(selected, s as int, t) && #[trigger] words_mapped(
                    c.payload(t),
                    s,
                    f,
                    edits[t]->Some_0,
                );
            assert(words_mapped(c.payload(t), s, f, w.payload(t)));
        }
    }
}

/// `chosen` is a choice of two blocks of `c` of which one has a name
/// without an abbreviation.
pub open spec fn unnamed(c: ContainerModel, chosen: Seq<usize>) -> bool {
    &&& is_selection(c, lora_prefixes(), BLOCKS, chosen)
    &&& joined_abbreviations(selected_names(c, chosen), BLOCKS as int) is None
}

/// The two prefixes as strings.
fn prefixes() -> (r: Vec<String>)
    ensures
        strings_view(r@) == lora_prefixes(),
{
    let mut r: Vec<String> = Vec::new();
    r.push("lora_unet".to_owned());
    r.push("lora_te".to_owned());
    assert(strings_view(r@) =~= lora_prefixes());
    r
}

/// Rescales two randomly chosen LoRA blocks of a container file.
///
/// The container is parsed from `bytes`. Two distinct tensors are drawn
/// among those whose name begins with `lora_unet` or `lora_te`, from a
/// generator seeded with `seed`; where fewer than two match, nothing is
/// produced. Each chosen tensor of 4-byte floats has every word of its
/// payload replaced by `f(slot, word)`, `slot` being 0 for the first tensor
/// drawn and 1 for the second; a chosen tensor of another kind is left as it
/// is and listed in `skipped`. The result is serialized again, and named
/// `{stem}-scaled-{abbreviations}.{extension}` after the chosen tensors,
/// `stem` and `extension` being those of the file that the bytes came from.
pub fn process_lora<F: Fn(usize, u32) -> u32>(
    bytes: &[u8],
    stem: &str,
    extension: &str,
    seed: u64,
    f: &F,
) -> (r: Result<ScaledFile, ProcessError>)
    requires
        forall|s: usize, w: u32| s < BLOCKS ==> f.requires((s, w)),
    ensures
        match r {
            Ok(file) => parsed(bytes@) is Ok && processed(
                parsed(bytes@)->Ok_0,
                stem@,
                extension@,
                *f,
                file,
            ),
            Err(ProcessError::Format(e)) => parsed(bytes@) == Err::<ContainerModel, FormatFault>(
                e@,
            ),
            Err(ProcessError::Selection(e)) => {
                &&& parsed(bytes@) matches Ok(c) && e.available == match_count(
                    c.tensors,
                    lora_prefixes(),
                    c.tensors.len() as int,
                )
                &&& e.requested == BLOCKS
                &&& e.available < BLOCKS
            },
            Err(ProcessError::Naming(_)) => parsed(bytes@) is Ok && exists|chosen: Seq<usize>|
                unnamed(parsed(bytes@)->Ok_0, chosen),
            Err(ProcessError::Write(e)) => {
                &&& parsed(bytes@) matches Ok(c) && BLOCKS <= match_count(
                    c.tensors,
                    lora_prefixes(),
                    c.tensors.len() as int,
                )
                &&& e is Unreadable
            },
        },
{
    let c = match read_container(bytes) {
        Ok(c) => c,
        Err(e) => {
            return Err(ProcessError::Format(e));
        },
    };
    let wanted = prefixes();
    let selected = match select_tensors(&c, &wanted, BLOCKS, seed) {
        Ok(s) => s,
        Err(e) => {
            return Err(ProcessError::Selection(e));
        },
    };
    let scaled = scale_tensors(&c, &selected, f);
    let mut keys: Vec<String> = Vec::new();
    let mut i: usize = 0;
    while i < selected.len()
        invariant
            i <= selected@.len(),
            keys@.len() == i,
            forall|q: int|
                0 <= q < selected@.len() ==> (#[trigger] selected@[q]) < c@.tensors.len(),
            forall|q: int|
                0 <= q < i ==> (#[trigger] keys@[q])@ == c@.tensors[selected@[q] as int].name,
        decreases selected@.len() - i,
    {
        keys.push(c.descriptor(selected[i]).name.clone());
        i += 1;
    }
    assert(strings_view(keys@) =~= selected_names(c@, selected@));
    let name = match generate_new_filename(stem, "scaled", extension, &keys) {
        Ok(n) => n,
        Err(e) => {
            assert(unnamed(c@, selected@));
            return Err(ProcessError::Naming(e));
        },
    };
    let out = match write_container(&c, &scaled.edits) {
        Ok(o) => o,
        Err(e) => {
            return Err(ProcessError::Write(e));
        },
    };
    proof {
        lemma_scaled_and_written(c@, selected@, *f, edits_view(scaled.edits@), out@);
    }
    Ok(ScaledFile { file_name: name, bytes: out, selected, skipped: scaled.skipped })
}

} // verus!
