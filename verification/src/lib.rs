//! Core of a duplicate-file finder.
//!
//! Candidate files are narrowed in stages: first grouped by exact size, then
//! by a cheap three-window sample digest, then by a whole-content digest.
//! Every stage drops the groups with fewer than two members; what survives
//! the last requested stage becomes the output, one entry per group, sorted
//! ascending by size.
//!
//! All decisions live here and are verified; reading directories and file
//! bytes is left to the caller, which hands the bytes in as plain values.

use vstd::prelude::*;

pub mod digest;
pub mod exclude;
pub mod group;
pub mod output;
pub mod pipeline;

verus! {

/// How far the narrowing pipeline runs: size grouping only, size plus the
/// sampled digest, or size, sampled digest and whole-content digest.
#[derive(Clone, Copy, PartialEq, Eq, Structural, Debug)]
pub enum CompareDepth {
    SizeOnly,
    PartialHash,
    FullHash,
}

/// Whether the sampled-digest stage runs at this depth.
pub fn runs_partial_stage(depth: CompareDepth) -> (r: bool)
    ensures
        r == (depth == CompareDepth::PartialHash || depth == CompareDepth::FullHash),
{
    match depth {
        CompareDepth::SizeOnly => false,
        CompareDepth::PartialHash => true,
        CompareDepth::FullHash => true,
    }
}

/// Whether the whole-content digest stage runs at this depth.
pub fn runs_full_stage(depth: CompareDepth) -> (r: bool)
    ensures
        r == (depth == CompareDepth::FullHash),
{
    match depth {
        CompareDepth::SizeOnly => false,
        CompareDepth::PartialHash => false,
        CompareDepth::FullHash => true,
    }
}

} // verus!
