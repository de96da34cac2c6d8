//! The screens before the last.

use vstd::prelude::*;

verus! {

/// The screen on which an image is searched for.
pub struct IsoSearchScreen;

/// The screen on which a device is picked.
pub struct DeviceSelectScreen;

/// The screen on which the write is confirmed.
pub struct ConfirmScreen;

/// The screen that shows the write and the verification at work.
pub struct WritingScreen;

} // verus!
