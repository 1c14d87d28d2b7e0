//! An interactive command picker's verified core: a placeholder template
//! parser, a keyword-indexed command catalog, a suggestion engine, the
//! editor's view-model, and the keystroke state machine that drives them.
//!
//! Terminal rendering and raw-mode handling are deliberately outside this
//! crate's scope; they consume the state kept here.

pub mod command;
pub mod runner;
pub mod screen;
pub mod suggestion;
pub mod text;
