//! A terminal tool that lists stale Python virtual environments and deletes
//! the ones the user selects.
//!
//! The library holds the verified part of the tool: the application state and
//! its key handling, the deletion bookkeeping, the rules that decide which
//! projects are listed and in which order, the path completion, and the text
//! and geometry of the screen. Reading the disk, deleting directories and
//! drawing on the terminal are left to the program around it.

pub mod model;
pub mod text;
pub mod app;
pub mod app_laws;
pub mod scanner;
pub mod completion;
pub mod ui;
