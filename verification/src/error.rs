//! What can go wrong with a container, by component.

use vstd::prelude::*;

verus! {

/// A container whose bytes do not describe a valid header and data region.
/// Where one tensor is at fault, the error names it.
#[derive(Clone, Debug, PartialEq, Eq)]
pub enum FormatError {
    /// The source is shorter than the 8-byte length prefix.
    TooShort,
    /// The declared header length exceeds what follows the prefix.
    HeaderLength,
    /// The header is not JSON of the expected form.
    MalformedHeader,
    /// The tensor's dtype token names no known element kind.
    UnknownDtype { tensor: String },
    /// The tensor's byte span is reversed or reaches past the data region.
    SpanOutOfRange { tensor: String },
    /// The tensor's byte span does not have the length that its shape and
    /// element width give.
    ShapeMismatch { tensor: String },
    /// The tensor's byte span does not begin where the span of the tensor
    /// before it ends, or not at 0 where it is the first.
    SpanMisplaced { tensor: String },
    /// The tensor has the span of the tensor before it, both being empty,
    /// and a name that does not come after that tensor's name.
    OutOfOrder { tensor: String },
    /// The tensor's name was already used by an earlier tensor.
    DuplicateName { tensor: String },
}

/// Mathematical content of a [`FormatError`].
pub enum FormatFault {
    TooShort,
    HeaderLength,
    MalformedHeader,
    UnknownDtype { tensor: Seq<char> },
    SpanOutOfRange { tensor: Seq<char> },
    ShapeMismatch { tensor: Seq<char> },
    SpanMisplaced { tensor: Seq<char> },
    OutOfOrder { tensor: Seq<char> },
    DuplicateName { tensor: Seq<char> },
}

impl View for FormatError {
    type V = FormatFault;

    open spec fn view(&self) -> FormatFault {
        match self {
            FormatError::TooShort => FormatFault::TooShort,
            FormatError::HeaderLength => FormatFault::HeaderLength,
            FormatError::MalformedHeader => FormatFault::MalformedHeader,
            FormatError::UnknownDtype { tensor } => FormatFault::UnknownDtype { tensor: tensor@ },
            FormatError::SpanOutOfRange { tensor } => FormatFault::SpanOutOfRange {
                tensor: tensor@,
            },
            FormatError::ShapeMismatch { tensor } => FormatFault::ShapeMismatch { tensor: tensor@ },
            FormatError::SpanMisplaced { tensor } => FormatFault::SpanMisplaced {
                tensor: tensor@,
            },
            FormatError::OutOfOrder { tensor } => FormatFault::OutOfOrder { tensor: tensor@ },
            FormatError::DuplicateName { tensor } => FormatFault::DuplicateName { tensor: tensor@ },
        }
    }
}

/// Why a container could not be written.
#[derive(Clone, Copy, Debug, PartialEq, Eq, Structural)]
pub enum WriteError {
    /// The list of replacements does not have one place per tensor.
    ReplacementCount,
    /// The replacement for the tensor at this position does not have the
    /// length of the payload it replaces.
    ReplacementLength { index: usize },
    /// No header text was to be had that decodes to the table and the
    /// metadata that were to be written.
    Unreadable,
}

/// Fewer tensors match than were asked for.
#[derive(Clone, Copy, Debug, PartialEq, Eq, Structural)]
pub struct SelectionError {
    /// How many distinct tensors were to be chosen.
    pub requested: usize,
    /// How many tensors match.
    pub available: usize,
}

} // verus!
