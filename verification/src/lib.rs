//! A local credential and identity-settings library for a relay-based social
//! protocol: an encrypted at-rest envelope with a canonical text encoding of
//! the key index and per-identity settings, a key index with a single active
//! identity, a per-label secret store, and a model of the lazily built
//! signing-client cache.
pub mod cache;
pub mod chars;
pub mod cli;
pub mod config;
pub mod follows;
pub mod jsontext;
pub mod crypto;
pub mod keyjson;
pub mod keys;
pub mod keystore;
pub mod error;
pub mod metadata;
pub mod nostrkeys;
pub mod relays;
pub mod secrets;
pub mod setjson;
pub mod server;
pub mod settings;
pub mod subscriptions;
pub mod util;
pub mod storage;
