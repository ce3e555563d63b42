//! Backend of a small desktop mail client: a settings singleton, a message
//! store with identity-based deduplication, MIME header extraction, and the
//! decision logic of the fetch and send pipelines.

pub mod models;
pub mod identity;
pub mod mime;
pub mod store;
pub mod fetch;
pub mod send;
