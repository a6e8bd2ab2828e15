//! Stalkerware detection core: a rule repository and a matching engine.
//!
//! The crate parses indicator rule documents, decides how the local rule cache
//! moves on a download, and evaluates rules against a snapshot of a device.
//! Every function carries a contract over the mathematical model of its data.

pub mod text;
pub mod glob;
pub mod rules;
pub mod engine;
pub mod notify;
pub mod collector;
pub mod digest;
pub mod document;
pub mod repository;
pub mod bootstrap;
