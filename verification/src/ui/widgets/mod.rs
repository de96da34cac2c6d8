//! Larger pieces of the screens.

pub mod centered_modal;
pub mod step_header;

pub use centered_modal::CenteredModal;
