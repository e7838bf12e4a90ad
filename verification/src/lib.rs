//! An in-memory book catalog: records are added under generated
//! identifiers, looked up by title and author, and toggled between
//! available and borrowed.

pub mod catalog;
pub mod hex;
pub mod laws;
pub mod rng;
