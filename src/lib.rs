//! An encrypted, single-user credential store: each database is one file
//! holding `username|secret` lines, sealed under a key derived from a master
//! passphrase.
pub mod common;
pub mod crypto;
pub mod error;
pub mod generator;
pub mod records;
pub mod vault;
