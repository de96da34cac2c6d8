//! One marker type for each screen, and what the last screen decides.

mod done;
mod kinds;

pub use done::{contains_perm_denied, DoneScreen};
pub use kinds::{ConfirmScreen, DeviceSelectScreen, IsoSearchScreen, WritingScreen};
