//! The row of steps at the top of every screen.

use crate::app::state::Screen;
use vstd::prelude::*;

verus! {

/// The position of `screen` among the steps, from 0.
pub open spec fn step_index(screen: Screen) -> nat {
    match screen {
        Screen::IsoSearch => 0,
        Screen::DeviceSelect => 1,
        Screen::Confirm => 2,
        Screen::Writing => 3,
        Screen::Done => 4,
    }
}

/// The position of `screen` among the steps, from 0.
pub fn screen_to_step_index(screen: &Screen) -> (r: usize)
    ensures
        r == step_index(*screen),
{
    match screen {
        Screen::IsoSearch => 0,
        Screen::DeviceSelect => 1,
        Screen::Confirm => 2,
        Screen::Writing => 3,
        Screen::Done => 4,
    }
}

} // verus!
