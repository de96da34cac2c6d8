//! The state machine: messages in, a new model and commands out.

pub mod cmd;
pub mod msg;
pub mod state;
pub mod update;
