//! Vocabulary of the fallback chains: ordered strategy tiers, the observed
//! outcome of one platform query, and the raw sample a tier produces.

use vstd::prelude::*;

verus! {

/// One ordered tier of a fallback chain, tried strictly in this order.
#[derive(Clone, Copy, Debug, PartialEq, Eq, Structural)]
pub enum MethodTag {
    Primary,
    Secondary,
    Tertiary,
}

/// The observed outcome of running one platform query: whether the utility
/// ran and exited successfully, and the bytes it wrote to standard output.
#[derive(Clone, Debug)]
pub struct QueryOutput {
    pub success: bool,
    pub stdout: Vec<u8>,
}

/// The validated text one strategy produced, tagged with its tier.
#[derive(Clone, Debug)]
pub struct RawSample {
    pub method: MethodTag,
    pub text: Vec<u8>,
}

/// A strategy that produced no usable sample. Never surfaced past the
/// chain: it only sends resolution on to the next tier.
#[derive(Clone, Copy, Debug, PartialEq, Eq, Structural)]
pub struct QueryFailure;

} // verus!
