//! Password-based encryption of archive bytes.

use vstd::prelude::*;
use super::PackError;

verus! {

/// A way to encrypt bytes under a password, and to decrypt them again.
pub trait Encryption {
    /// The plaintexts and passwords that `encrypt_bytes` takes.
    spec fn encrypt_accepts(plaintext: Seq<u8>, password: Seq<char>) -> bool;

    /// The data and passwords that `decrypt_bytes` takes.
    spec fn decrypt_accepts(data: Seq<u8>, password: Seq<char>) -> bool;

    fn encrypt_bytes(plaintext: &[u8], password: &str) -> Result<Vec<u8>, PackError>
        requires
            Self::encrypt_accepts(plaintext@, password@),
    ;

    fn decrypt_bytes(data: &[u8], password: &str) -> Result<Vec<u8>, PackError>
        requires
            Self::decrypt_accepts(data@, password@),
    ;
}

} // verus!
