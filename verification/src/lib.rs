//! Client-resident application state for a shared food-inventory manager.
//!
//! The crate owns the canonical in-memory collection of inventories, their
//! items and units, mediates every read and mutation through a typed
//! request/response protocol, gates mutations on the observed session state,
//! and renders the whole collection to a durable snapshot after every change.

pub mod auth;
pub mod codec;
pub mod data;
pub mod domain;
pub mod ids;
