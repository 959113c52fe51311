//! Answers one question: is a package, at a given semantic version, installed
//! on this host?
//!
//! The crate holds a semantic-version value type with a verified parser and
//! precedence order, a `Package` record built on it, and a detector that looks
//! for the on-disk layout of a package manager.

pub mod decimal;
pub mod grammar;
pub mod never;
pub mod order;
pub mod package;
pub mod precedence;
pub mod text;
pub mod version;

pub use never::Never;
