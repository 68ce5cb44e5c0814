//! A terminal dashboard core: it discovers spec folders, counts checklist
//! progress in their task documents, and drives the view-navigation state
//! machine that a terminal front end renders from.
//!
//! Everything here is pure computation over plain values.  Directory
//! walking, file reading, key decoding and drawing live in the surrounding
//! binary, which hands this library the values it needs.

pub mod app;
pub mod events;
pub mod finder;
pub mod parser;
pub mod reader;
pub mod ui;
