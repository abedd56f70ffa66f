//! A key-value store organised in named keyspaces, each persisted by its own
//! embedded engine instance, and the request handling that serves it.

pub mod engine;
pub mod error;
pub mod keyspace;
pub mod laws;
pub mod models;
pub mod order;
pub mod query;
pub mod server;
pub mod settings;
pub mod store;
pub mod text;
