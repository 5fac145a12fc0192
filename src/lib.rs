//! A personal task list kept as a line-oriented text store.
//!
//! Each line of the store holds one task: a fixed-width marker that tells
//! whether the task is finished, followed by the task's text. This crate
//! holds the store's format, the listing rules and the reconciliation of an
//! interactive selection, each stated and proved over a model of the store.
pub mod task;
pub mod text;
pub mod store;
pub mod listing;
pub mod selection;
pub mod command;

pub use task::{Style, Task};
