//! Reconciles desired application shortcuts with a launcher's persisted
//! shortcut catalog and decides the steps that stop and restart the launcher
//! around the rewrite.
//!
//! - `shortcut`: the records of a catalog, the shortcuts a caller desires,
//!   and the identity that keys them.
//! - `codec`: the catalog's byte format.
//! - `catalog`: which records a rewrite keeps and the one order in which a
//!   catalog lists them.
//! - `reconcile`: the rewrite itself, on records and on bytes.
//! - `theorems`: what the rewrite guarantees.
//! - `steam_start_stop`: the decisions that stop the launcher, start it and
//!   confirm that it runs.
//! - `instances`, `settings`, `model`, `pages`: what the application around
//!   the library shows and edits.
//! - `text`: decimal numerals and the order on names.
//!
//! Nothing here reads a file, lists a process or sleeps: callers do, and hand
//! over what they found.

pub mod catalog;
pub mod codec;
pub mod error;
pub mod instances;
mod keys;
pub mod model;
pub mod pages;
pub mod reconcile;
pub mod settings;
pub mod shortcut;
pub mod steam_start_stop;
pub mod text;
pub mod theorems;
