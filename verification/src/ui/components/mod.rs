//! Reusable pieces of the screens.

mod input;
pub mod utils;

pub use input::{Input, InputState};
pub use utils::{format_seconds, human_size};
