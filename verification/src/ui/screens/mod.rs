//! The five screens.

pub mod views;
