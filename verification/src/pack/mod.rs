//! The packer: folds a folder into one compressed archive file, optionally
//! encrypted with a password, and unfolds it again.

pub mod aes256_gcm;
pub mod cli;
pub mod compression;
pub mod encryption;
pub mod utils;

use vstd::prelude::*;

verus! {

/// Why packing or unpacking stopped.
#[derive(Debug, Clone, PartialEq, Eq)]
pub enum PackError {
    /// The action is neither `pack` nor `unpack`.
    InvalidAction,
    /// The compressor failed; its message.
    CompressionFailure(String),
    /// The data is not a compressed archive; the decompressor's message.
    DecompressionFailure(String),
    /// The cipher refused the plaintext (it is too long).
    EncryptionFailure,
    /// The password is wrong or the data was altered.
    DecryptionFailure,
}

/// The message of an error.
pub open spec fn pack_error_message(e: PackError) -> Seq<char> {
    match e {
        PackError::InvalidAction => "Invalid action. Use 'pack' or 'unpack'."@,
        PackError::CompressionFailure(m) => m@,
        PackError::DecompressionFailure(m) => m@,
        PackError::EncryptionFailure => "Encryption failure"@,
        PackError::DecryptionFailure => "Decryption failure"@,
    }
}

impl PackError {
    /// The message of the error.
    pub fn message(&self) -> (r: String)
        ensures
            r@ == pack_error_message(*self),
    {
        match self {
            PackError::InvalidAction => String::from_str("Invalid action. Use 'pack' or 'unpack'."),
            PackError::CompressionFailure(m) => m.clone(),
            PackError::DecompressionFailure(m) => m.clone(),
            PackError::EncryptionFailure => String::from_str("Encryption failure"),
            PackError::DecryptionFailure => String::from_str("Decryption failure"),
        }
    }
}

} // verus!
