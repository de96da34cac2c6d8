//! A box in the middle of the screen.

use vstd::prelude::*;

verus! {

/// The margins around a centred box, in percent of the area it stands
/// in.
pub struct CenteredModal {
    pub horizontal_margin_pct: u16,
    pub vertical_margin_pct: u16,
}

impl Default for CenteredModal {
    fn default() -> (r: Self)
        ensures
            r.horizontal_margin_pct == 20,
            r.vertical_margin_pct == 20,
    {
        CenteredModal { horizontal_margin_pct: 20, vertical_margin_pct: 20 }
    }
}

impl CenteredModal {
    /// The share of the width that is left for the box, in percent, where
    /// the two margins leave any.
    pub fn content_pct(&self) -> (r: Option<u16>)
        ensures
            r == if 2 * self.horizontal_margin_pct <= 100 {
                Some((100 - 2 * self.horizontal_margin_pct) as u16)
            } else {
                None
            },
    {
        if self.horizontal_margin_pct <= 50 {
            Some(100 - 2 * self.horizontal_margin_pct)
        } else {
            None
        }
    }
}

} // verus!
