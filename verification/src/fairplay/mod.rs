//! The SAP hash and the modified MD5 compression of the FairPlay handshake.

pub mod bits;
pub mod md5;
pub mod sap;

pub use md5::modified_md5_rust;
pub use sap::sap_hash_rust;
