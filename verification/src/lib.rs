//! Reversible deletion. An object that is to be removed is buried instead:
//! moved to a graveyard that mirrors the paths it came from, and recorded in
//! a journal, from which it can be brought back.
//!
//! The library decides and does not touch the disk. It is told what exists
//! and asks, step by step, for what is to be done; every decision has a
//! contract, and the laws that the decisions obey together are proved next
//! to them.
//!
//! - [`path`]: paths as text, and what it means to lie below a directory.
//! - [`util`]: grave paths, fresh names for graves that collide, sizes for
//!   display.
//! - [`journal`]: the records of burials and the text that holds them.
//! - [`resolver`]: which grave the last burial of an actor is.
//! - [`transfer`]: moving a file or a tree, with rollback.
//! - [`engine`]: what a request to bury or to restore comes to.
//! - [`text`]: strings as sequences of characters.

pub mod engine;
pub mod journal;
pub mod path;
pub mod resolver;
pub mod text;
pub mod transfer;
pub mod util;
