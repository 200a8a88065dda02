//! A small note- and project-tracking library.
//!
//! The crate models the persistent store of a command-line tracker: free-text
//! notes and structured project entries are added, listed, deleted, and a
//! project's status is updated through a fixed set of menu choices.  The store
//! itself is an in-memory collection with verified operations; the surrounding
//! binary persists it and talks to the user.

pub mod codec;
pub mod command;
pub mod format;
mod gen;
pub mod menu;
pub mod model;
pub mod store;
pub mod text;
