//! A small verified task keeper: tasks carry a deadline window and an
//! importance weight, and a manager keeps them sorted by urgency.
//!
//! A `TaskBuilder` stages field edits and freezes them into an immutable
//! [`task::Task`]; the derived completion window and priority are computed
//! only at that point.  A [`task_manager::TaskManager`] holds the tasks as an
//! index-addressed sequence that is sorted by descending priority after every
//! mutation, with tasks whose window is already closed pinned to the front
//! and ranked among themselves by declared weight.

pub mod ordering;
pub mod parse;
pub mod render;
pub mod task;
pub mod task_manager;
