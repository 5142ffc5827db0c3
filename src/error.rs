use vstd::prelude::*;

verus! {

/// The ways in which decrypting a container can fail.
#[derive(Debug, Clone, Copy, PartialEq, Eq, Structural)]
pub enum CryptError {
    /// A header field is shorter than the format requires.
    TruncatedHeader,
    /// The container's magic is not the expected one.
    BadMagic,
    /// The block cipher refused to decrypt a block.
    CipherFault,
    /// The verify block did not decrypt to the expected tag.
    VerificationFailed,
    /// Reading the source or writing the destination failed.
    IoError,
}

} // verus!
