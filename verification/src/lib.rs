//! Clipping analysis for raw interleaved 8-bit I/Q sample captures.
//!
//! A capture file is a headerless stream of unsigned bytes, alternating the
//! in-phase (I) and quadrature (Q) channel of each sample pair.  A channel
//! value of 0 or 255 is clipped: the signal saturated the 8-bit range.
//!
//! The crate offers two analyses over such a stream:
//! - a full scan ([`full::FullScan`]) fed chunk by chunk, which accumulates
//!   four global per-channel-extreme counters and a per-second map of clipped
//!   pairs, and
//! - a breakout ([`breakout`]) of one requested second, located by direct
//!   offset arithmetic instead of a scan of the whole file.
//!
//! File access itself (open, read, seek) is left to the caller; every
//! function here works on plain byte buffers and integers.

use vstd::prelude::*;

pub mod breakout;
pub mod full;
pub mod model;
pub mod report;

verus! {

/// The number of complete I/Q pairs that a buffer of `n` bytes holds; a
/// trailing odd byte cannot form a pair and is ignored.
pub fn pair_count(n: usize) -> (r: usize)
    ensures
        r == n as int / 2,
{
    n / 2
}

} // verus!
