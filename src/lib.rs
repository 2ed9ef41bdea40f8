//! An in-memory key/value store whose entries live for a fixed time, with an
//! optional bound on the number of keys, lazy expiry on lookup and a sampling
//! sweep that reclaims expired entries, plus a single-owner service that
//! serialises every request against one store.

pub mod config;
pub mod cache;
mod sample;
pub mod lemmas;
pub mod service;
pub mod time;
