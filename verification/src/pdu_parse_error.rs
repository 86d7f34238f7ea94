use vstd::prelude::*;

verus! {

/// Why a PDU could not be parsed, or could not be written.
#[allow(inconsistent_fields)]
#[derive(Debug, PartialEq, Eq)]
pub enum PduParseErr {
    /// The buffer ended before the named field was complete.
    BufferEnded { field: Option<&'static str> },
    /// An element's length indicator and its contents disagree, both in bits.
    InconsistentLength { expected: usize, found: usize },
    /// A field holds a value that it cannot have there.
    InvalidValue { field: &'static str, value: u64 },
    /// The M-bit that ends the optional part announces one more element.
    InvalidTrailingMbitValue,
    /// The PDU is of another type than the parser's.
    InvalidPduType { expected: u64, found: u64 },
}

} // verus!
