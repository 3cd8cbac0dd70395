//! An in-memory registry of people served over a small HTTP surface:
//! routing, payload validation and the record store, with their contracts.

pub mod json;
pub mod router;
pub mod service;
pub mod store;
pub mod text;

