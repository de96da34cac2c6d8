//! Byte counts.

use crate::ui::components::utils::{human_size, human_size_text};
use vstd::prelude::*;
use vstd::std_specs::convert::FromSpecImpl;

verus! {

/// A number of bytes.
#[derive(Debug, Clone, Copy, PartialEq, Eq, Structural, PartialOrd, Ord, Hash)]
pub struct ByteSize(pub u64);

impl View for ByteSize {
    type V = nat;

    open spec fn view(&self) -> nat {
        self.0 as nat
    }
}

impl ByteSize {
    /// `bytes` bytes.
    pub fn new(bytes: u64) -> (r: Self)
        ensures
            r@ == bytes,
    {
        ByteSize(bytes)
    }

    /// The number of bytes.
    pub fn as_u64(self) -> (r: u64)
        ensures
            r == self@,
    {
        self.0
    }

    /// No bytes.
    pub fn zero() -> (r: Self)
        ensures
            r@ == 0,
    {
        ByteSize(0)
    }

    /// The size for people to read, in the largest binary unit that it
    /// reaches.
    pub fn to_string(&self) -> (r: String)
        ensures
            r@ == human_size_text(self@),
    {
        human_size(self.0)
    }
}

impl From<u64> for ByteSize {
    fn from(bytes: u64) -> (r: Self) {
        ByteSize(bytes)
    }
}

impl FromSpecImpl<u64> for ByteSize {
    open spec fn obeys_from_spec() -> bool {
        true
    }

    open spec fn from_spec(bytes: u64) -> Self {
        ByteSize(bytes)
    }
}

} // verus!
