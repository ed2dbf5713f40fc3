//! The typed failures of the codec. Any one of them aborts the whole parse:
//! there is no partial result.
use vstd::prelude::*;

verus! {

/// Why a document was refused.
///
/// `IoFailure` is reserved for callers that feed the codec from a stream
/// and must report the stream's own failure under the same type; the codec
/// itself never produces it.
#[derive(Clone, Copy, Debug, PartialEq, Eq, Structural)]
pub enum HefError {
    /// The three opening magic lines are wrong, or the document ends before
    /// the part-count line.
    MalformedHeader,
    /// A parameters, variant or properties line does not decode.
    InvalidDocument,
    /// A positional field holds no number of the expected form.
    InvalidNumber,
    /// The declared part count asks for more lines than the document holds.
    PartCountMismatch,
    /// A record names a part index outside the table.
    UnknownPartIndex,
    /// A record does not hold exactly its eight fields.
    MalformedRecord,
    /// An underlying stream failed before the text reached the codec.
    IoFailure,
}

} // verus!
