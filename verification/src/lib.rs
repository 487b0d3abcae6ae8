//! Extraction of cell-barcode (CB) and UMI subsequences from read 1 of a
//! paired-end sequencing dataset, driven by a user-supplied pattern with
//! named groups `cb` and `umi`.  Pairs whose read 1 does not match the
//! anchored pattern, or whose match lacks one of the named groups, are
//! filtered out; kept pairs get a rewritten read 1 whose sequence and
//! quality are the matched spans, while read 2 passes through unchanged.

pub mod engine;
pub mod matcher;
pub mod options;
pub mod record;
pub mod report;
