use vstd::prelude::*;

verus! {

/// The ways in which decoding a register stream or an effect source can fail.
#[derive(Debug, Clone, Copy, PartialEq, Eq, Structural)]
pub enum YmError {
    /// A YSG payload shorter than its 12-byte header.
    YsgTooSmall,
    /// A YSG payload that ends inside its sequence or offset table.
    YsgTruncated,
    /// A sequence table entry that names no stored pattern.
    YsgSequenceIndex { index: usize, max: usize },
    /// A YSG pattern that ends before the mask of one of its frames.
    YsgPatternEof,
    /// A YSG pattern that ends inside the register payload of a frame.
    YsgPayloadEof,
    /// An AYFX CSV line with fewer than five columns (`line` counts from 1).
    CsvColumns { line: usize, found: usize },
    /// An AYFX CSV column that is not a number of the expected range.
    CsvNumber,
    /// An empty AYFX bank.
    EmptyBank,
    /// A YFX payload whose length is not a multiple of five.
    YfxSize,
    /// A compressed YM file that could not be unpacked.
    Decompression,
}

} // verus!
