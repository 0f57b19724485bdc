//! Ingestion gateway core: request authorization against a credential
//! registry, JSON payload parsing, and the row-to-column pivot that turns a
//! payload of JSON objects into a typed columnar batch ready for bulk
//! insertion into a columnar store.

pub mod auth;
pub mod batch;
pub mod json;
pub mod worker;
