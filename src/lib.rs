//! Self-describing AES-256-CBC configuration containers whose key material is
//! derived from a machine fingerprint recorded inside the container itself.

pub mod bytes;
pub mod derive;
pub mod aes_cbc;
pub mod metadata;
pub mod container;
pub mod fingerprint;
pub mod report;
pub mod outcome;
