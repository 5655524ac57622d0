//! Reading a container from its bytes: an 8-byte little-endian header
//! length, the header's JSON text, then the data region.

use vstd::prelude::*;
use vstd::bytes::{spec_u64_from_le_bytes, u64_from_le_bytes};
use vstd::slice::slice_subrange;
use crate::container::{assembled, Container, ContainerModel};
use crate::error::{FormatError, FormatFault};
use crate::header::{decode_header, decoded_header, RawHeader};
use crate::order::{lemma_sorted_lists, sort_entries, table_of};

verus! {

/// Length of the length prefix.
pub const PREFIX_LEN: usize = 8;

/// The header length that the first 8 bytes declare.
pub open spec fn declared_header_len(bytes: Seq<u8>) -> nat {
    spec_u64_from_le_bytes(bytes.subrange(0, 8)) as nat
}

/// The source holds its prefix and as many header bytes as the prefix
/// declares.
pub open spec fn framed(bytes: Seq<u8>) -> bool {
    bytes.len() >= 8 && declared_header_len(bytes) <= bytes.len() - 8
}

/// The JSON text of the header.
pub open spec fn header_text(bytes: Seq<u8>) -> Seq<u8> {
    bytes.subrange(8, 8 + declared_header_len(bytes) as int)
}

/// What follows the header: the payloads.
pub open spec fn data_region(bytes: Seq<u8>) -> Seq<u8> {
    bytes.subrange(8 + declared_header_len(bytes) as int, bytes.len() as int)
}

/// The container that a byte source holds, or the reason why it holds none.
pub open spec fn parsed(bytes: Seq<u8>) -> Result<ContainerModel, FormatFault> {
    if bytes.len() < 8 {
        Err(FormatFault::TooShort)
    } else if declared_header_len(bytes) > bytes.len() - 8 {
        Err(FormatFault::HeaderLength)
    } else {
        match decoded_header(header_text(bytes)) {
            None => Err(FormatFault::MalformedHeader),
            Some(h) => assembled(table_of(h.tensors), h.metadata, data_region(bytes)),
        }
    }
}

/// Parses a container. The tensor payloads stay where they are: the
/// container borrows the data region from `bytes`.
///
/// Fails where the source is shorter than its prefix, where the declared
/// header length exceeds the rest of the source, where the header does not
/// decode, and with the first fault of the header's entries against the data
/// region.
pub fn read_container<'a>(bytes: &'a [u8]) -> (r: Result<Container<'a>, FormatError>)
    ensures
        match r {
            Ok(c) => parsed(bytes@) == Ok::<ContainerModel, FormatFault>(c@) && c@.wf(),
            Err(e) => parsed(bytes@) == Err::<ContainerModel, FormatFault>(e@),
        },
{
    if bytes.len() < PREFIX_LEN {
        return Err(FormatError::TooShort);
    }
    let declared: u64 = u64_from_le_bytes(slice_subrange(bytes, 0, PREFIX_LEN));
    if declared > (bytes.len() - PREFIX_LEN) as u64 {
        return Err(FormatError::HeaderLength);
    }
    let header_end: usize = PREFIX_LEN + declared as usize;
    let text = slice_subrange(bytes, PREFIX_LEN, header_end);
    let data = slice_subrange(bytes, header_end, bytes.len());
    match decode_header(text) {
        None => Err(FormatError::MalformedHeader),
        Some(raw) => {
            let ghost given = raw@.tensors;
            let ghost decoded = decoded_header(text@)->Some_0;
            let tensors = sort_entries(raw.tensors);
            let table = RawHeader { tensors, metadata: raw.metadata };
            proof {
                lemma_sorted_lists(table@.tensors, given, decoded.tensors);
            }
            Container::assemble(table, data)
        },
    }
}

} // verus!
