//! Core of an interactive disk-image writer: device discovery, image
//! discovery, the write/verify pipelines and the state reducer that
//! sequences them.

pub mod clock;
pub mod text;
pub mod domain;
pub mod adapters;
pub mod app;
pub mod ui;
