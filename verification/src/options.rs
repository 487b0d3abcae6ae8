//! The tool's resolved configuration, as plain values.

use vstd::prelude::*;

verus! {

/// What one invocation of the tool was asked to do: the two input paths,
/// an optional output prefix (standard streams are used when it is
/// absent), and the pattern fragment with the named groups `cb` and
/// `umi`.
pub struct Opt {
    pub read1: String,
    pub read2: String,
    pub out: Option<String>,
    pub regex: String,
}

} // verus!
