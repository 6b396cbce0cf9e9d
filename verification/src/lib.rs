//! A small replicated key-value store: the data it holds, the expiry of
//! keys set with a lifespan, the rules by which a server answers each
//! request, and the client's reading of commands and replies.

pub mod table;
pub mod store;
pub mod message;
pub mod server;
pub mod text;
pub mod client;
pub mod middleware;
pub mod laws;
pub mod json;
pub mod config;
