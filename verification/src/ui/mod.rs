//! What the screens show, as plain values. Drawing is not done here.

pub mod components;
pub mod hints;
pub mod icons;
pub mod props;
pub mod screens;
pub mod tokens;
pub mod widgets;

pub use hints::nav_cycle_hint;
pub use props::{ConfirmProps, DeviceSelectProps, DoneProps, IsoSearchProps, WritingProps};
