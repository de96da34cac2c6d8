//! Spacing and width thresholds of the layout.

use vstd::prelude::*;

verus! {

/// No space.
pub const S0: u16 = 0;

/// One cell of space.
pub const S1: u16 = 1;

/// Two cells of space.
pub const S2: u16 = 2;

/// Three cells of space.
pub const S3: u16 = 3;

/// Below this width the layout is narrow.
pub const NARROW_WIDTH: u16 = 80;

/// From this width on the layout is wide.
pub const WIDE_WIDTH: u16 = 140;

} // verus!
