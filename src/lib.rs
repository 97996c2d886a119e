//! The per-user "equivalent domains" settings resource: the payload that
//! clients send, the check of its shape, and the three operations that read,
//! create or replace, and update it.
pub mod auth;
pub mod error;
pub mod json;
pub mod settings;
