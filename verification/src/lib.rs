//! Release artifact resolution and checksum verification.
//!
//! The crate turns the flat file list of a published release into artifacts
//! paired with their checksum sidecars, narrows a detailed host operating
//! system to the coarse bucket that selects an artifact, resolves releases by
//! version string, and verifies downloaded bytes against a hex-encoded digest.

pub mod api;
pub mod asset;
pub mod checksum;
pub mod error;
pub mod os;
pub mod release;
