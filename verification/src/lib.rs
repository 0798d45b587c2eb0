//! Trust-gated key synchronisation and recipient-tree management for a shared
//! password store.
//!
//! The keyring, the files of the store and the operator are reached by the
//! program around this library. The library decides: which keys are to be
//! imported, refreshed and published ([`sync`]), whether a key that comes in
//! may be trusted ([`key::trust`]), who the recipients of a directory are and
//! what adding to them comes to ([`key::gpg_id`], [`recipients`]), and what
//! the first run offers ([`setup`]).

pub mod config;
pub mod key;
pub mod prompt;
pub mod recipients;
pub mod setup;
pub mod sync;
pub mod text;
