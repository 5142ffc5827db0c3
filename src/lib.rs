//! Decryption of ITG2 patch containers: header parsing, key derivation,
//! key verification and the chained block decryption of the payload.

pub mod crypt;
pub mod error;
pub mod patch_file;
