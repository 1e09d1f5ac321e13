//! A small poll service's core: credential storage and verification,
//! session issuance and validation, signed-cookie transport, and the
//! shared application state those share.

pub mod auth;
pub mod codec;
pub mod crypto;
pub mod hex;
pub mod models;
pub mod session;
pub mod state;
pub mod store;
