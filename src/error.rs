use vstd::prelude::*;

verus! {

/// Why one file record could not be turned into its decompressed bytes.
#[derive(Clone, Copy, Debug, PartialEq, Eq, Structural)]
pub enum CorruptCause {
    /// A field of the record is out of range (reversed range, or past the image).
    FieldRange,
    /// A stored record would read past the end of the image.
    OutOfBounds,
    /// The compressed stream does not start with the codec's magic bytes.
    BadHeader,
    /// The length declared by the stream header differs from the record's virtual length.
    LengthMismatch,
    /// The compressed stream ended before the declared length was produced.
    Truncated,
    /// A back-reference points before the start of the output.
    BadReference,
    /// A back-reference would write past the declared length.
    Overrun,
    /// The record's virtual range intersects that of an earlier record.
    Overlap,
}

/// Every way in which decompressing an image can fail.
#[derive(Clone, Copy, Debug, PartialEq, Eq, Structural)]
pub enum DecompressError {
    /// The input is not exactly one cartridge long; carries the length that was given.
    InputSize(usize),
    /// No file table was found in the scanned window.
    TableNotFound,
    /// The record at this index of the table is malformed, for the given cause.
    RecordCorrupt(usize, CorruptCause),
    /// A conversion between a width read from the stream and a host integer failed.
    /// Every conversion made by this library is proved to fit, so `decompress`
    /// never returns it; it completes the set of outcomes that callers report.
    NumericOverflow,
}

} // verus!
