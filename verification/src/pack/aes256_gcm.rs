//! AES-256-GCM encryption with a key that Argon2 derives from the password.
//!
//! The encrypted form is the 16-byte salt, then the 12-byte nonce, then the
//! AES-256-GCM ciphertext (with its tag).

use vstd::prelude::*;
use vstd::utf8::encode_utf8;
use aes_gcm::aead::{Aead, KeyInit};
use rand::RngCore;
use argon2::{password_hash::SaltString, Argon2, PasswordHasher};
use super::PackError;
use super::encryption::Encryption;

verus! {

/// Length of the salt.
pub const SALT_LEN: usize = 16;

/// Length of the nonce.
pub const NONCE_LEN: usize = 12;

/// Length of the authentication tag that follows the ciphertext.
pub const TAG_LEN: usize = 16;

/// The longest plaintext AES-GCM encrypts (2^36 bytes).
pub const PLAINTEXT_MAX: u64 = 0x10_0000_0000;

/// The key that Argon2 with default parameters derives from `password` and
/// `salt` (its 32-byte hash output).
pub uninterp spec fn argon2_key(password: Seq<char>, salt: Seq<u8>) -> Seq<u8>;

/// The ciphertext with tag that AES-256-GCM makes of `plaintext` under `key`
/// and `nonce`, with no associated data.
pub uninterp spec fn aes256_gcm_seal(key: Seq<u8>, nonce: Seq<u8>, plaintext: Seq<u8>) -> Seq<u8>;

/// The plaintext that AES-256-GCM recovers from `ciphertext` under `key` and
/// `nonce`, or `None` where the tag does not match.
pub uninterp spec fn aes256_gcm_open(key: Seq<u8>, nonce: Seq<u8>, ciphertext: Seq<u8>) -> Option<
    Seq<u8>,
>;

/// Fills 16 bytes from `rand::thread_rng`. Only their number is stated.
#[verifier::external_body]
fn generate_salt() -> (salt: Vec<u8>)
    ensures
        salt@.len() == SALT_LEN,
{
    let mut salt = vec![0u8; SALT_LEN];
    rand::thread_rng().fill_bytes(&mut salt);
    salt
}

/// Fills 12 bytes from `rand::thread_rng`. Only their number is stated.
#[verifier::external_body]
fn generate_nonce() -> (nonce: Vec<u8>)
    ensures
        nonce@.len() == NONCE_LEN,
{
    let mut nonce = vec![0u8; NONCE_LEN];
    rand::thread_rng().fill_bytes(&mut nonce);
    nonce
}

/// Calls `Argon2::hash_password` (default parameters, the salt in B64) and
/// takes the 32-byte hash: the result is the one `argon2_key` names. The
/// call fails, and the `unwrap` here would panic, only for a password of
/// more than 2^32 - 1 bytes, which `requires` leaves out.
#[verifier::external_body]
fn derive_key_from_password_argon2(password: &str, salt: &[u8]) -> (key: Vec<u8>)
    requires
        encode_utf8(password@).len() <= u32::MAX,
        salt@.len() == SALT_LEN,
    ensures
        key@ == argon2_key(password@, salt@),
        key@.len() == 32,
{
    let salt = SaltString::encode_b64(salt).unwrap();
    let password_hash = Argon2::default().hash_password(password.as_bytes(), &salt).unwrap();
    password_hash.hash.unwrap().as_bytes().to_vec()
}

/// Calls `Aes256Gcm::encrypt`: it fails only for a plaintext longer than
/// 2^36 bytes, and otherwise gives what `aes256_gcm_seal` names: the
/// ciphertext, as long as the plaintext, followed by the 16-byte tag.
#[verifier::external_body]
fn aes256_gcm_encrypt(key: &[u8], nonce: &[u8], plaintext: &[u8]) -> (r: Option<Vec<u8>>)
    requires
        key@.len() == 32,
        nonce@.len() == NONCE_LEN,
    ensures
        r is Some <==> plaintext@.len() <= PLAINTEXT_MAX,
        r matches Some(c) ==> c@ == aes256_gcm_seal(key@, nonce@, plaintext@),
        r matches Some(c) ==> c@.len() == plaintext@.len() + TAG_LEN,
{
    let cipher = aes_gcm::Aes256Gcm::new(aes_gcm::Key::<aes_gcm::Aes256Gcm>::from_slice(key));
    cipher.encrypt(aes_gcm::Nonce::from_slice(nonce), plaintext).ok()
}

/// Calls `Aes256Gcm::decrypt`: it gives what `aes256_gcm_open` names, and,
/// as for any AEAD cipher, it gives back the plaintext of a ciphertext that
/// `encrypt` made under the same key and nonce.
#[verifier::external_body]
fn aes256_gcm_decrypt(key: &[u8], nonce: &[u8], ciphertext: &[u8]) -> (r: Option<Vec<u8>>)
    requires
        key@.len() == 32,
        nonce@.len() == NONCE_LEN,
    ensures
        match aes256_gcm_open(key@, nonce@, ciphertext@) {
            Some(p) => r matches Some(v) && v@ == p,
            None => r is None,
        },
        match r {
            Some(v) => forall|p: Seq<u8>|
                p.len() <= PLAINTEXT_MAX && #[trigger] aes256_gcm_seal(key@, nonce@, p)
                    == ciphertext@ ==> v@ == p,
            None => forall|p: Seq<u8>|
                p.len() <= PLAINTEXT_MAX ==> #[trigger] aes256_gcm_seal(key@, nonce@, p)
                    != ciphertext@,
        },
{
    let cipher = aes_gcm::Aes256Gcm::new(aes_gcm::Key::<aes_gcm::Aes256Gcm>::from_slice(key));
    cipher.decrypt(aes_gcm::Nonce::from_slice(nonce), ciphertext).ok()
}

/// Whether `data` is the encrypted form of `plaintext` under `password`: the
/// salt and nonce that head it, and after them the ciphertext of `plaintext`
/// under the key derived from the password and that salt.
pub open spec fn encrypts_to(plaintext: Seq<u8>, password: Seq<char>, data: Seq<u8>) -> bool {
    &&& data.len() >= SALT_LEN + NONCE_LEN
    &&& plaintext.len() <= PLAINTEXT_MAX
    &&& data.skip((SALT_LEN + NONCE_LEN) as int) == aes256_gcm_seal(
        argon2_key(password, data.take(SALT_LEN as int)),
        data.subrange(SALT_LEN as int, (SALT_LEN + NONCE_LEN) as int),
        plaintext,
    )
}

/// What decrypting `data` gives: the plaintext that the cipher recovers
/// with the key from the password and the salt, or `None`.
pub open spec fn decryption_of(data: Seq<u8>, password: Seq<char>) -> Option<Seq<u8>> {
    aes256_gcm_open(
        argon2_key(password, data.take(SALT_LEN as int)),
        data.subrange(SALT_LEN as int, (SALT_LEN + NONCE_LEN) as int),
        data.skip((SALT_LEN + NONCE_LEN) as int),
    )
}

/// AES-256-GCM with an Argon2-derived key.
pub struct Aes256Gcm;

impl Aes256Gcm {
    /// Encrypts `plaintext` with the key derived from `password` and `salt`,
    /// under `nonce`: the salt, the nonce and the ciphertext, in this order.
    pub fn encrypt_with(plaintext: &[u8], password: &str, salt: &[u8], nonce: &[u8]) -> (r: Result<
        Vec<u8>,
        PackError,
    >)
        requires
            encode_utf8(password@).len() <= u32::MAX,
            salt@.len() == SALT_LEN,
            nonce@.len() == NONCE_LEN,
        ensures
            r is Ok <==> plaintext@.len() <= PLAINTEXT_MAX,
            r matches Ok(c) ==> c@ == salt@ + nonce@ + aes256_gcm_seal(
                argon2_key(password@, salt@),
                nonce@,
                plaintext@,
            ),
            r matches Ok(c) ==> c@.len() == plaintext@.len() + SALT_LEN + NONCE_LEN + TAG_LEN,
            r matches Err(e) ==> e == PackError::EncryptionFailure,
    {
        let key = derive_key_from_password_argon2(password, salt);
        match aes256_gcm_encrypt(key.as_slice(), nonce, plaintext) {
            Some(ciphertext) => {
                let mut out: Vec<u8> = Vec::new();
                out.extend_from_slice(salt);
                out.extend_from_slice(nonce);
                out.extend_from_slice(ciphertext.as_slice());
                Ok(out)
            },
            None => Err(PackError::EncryptionFailure),
        }
    }
}

impl Encryption for Aes256Gcm {
    open spec fn encrypt_accepts(plaintext: Seq<u8>, password: Seq<char>) -> bool {
        encode_utf8(password).len() <= u32::MAX
    }

    open spec fn decrypt_accepts(data: Seq<u8>, password: Seq<char>) -> bool {
        data.len() >= SALT_LEN + NONCE_LEN && encode_utf8(password).len() <= u32::MAX
    }

    /// Encrypts under a fresh random salt and nonce.
    fn encrypt_bytes(plaintext: &[u8], password: &str) -> (r: Result<Vec<u8>, PackError>)
        ensures
            r is Ok <==> plaintext@.len() <= PLAINTEXT_MAX,
            r matches Ok(c) ==> encrypts_to(plaintext@, password@, c@),
            r matches Ok(c) ==> c@.len() == plaintext@.len() + SALT_LEN + NONCE_LEN + TAG_LEN,
            r matches Err(e) ==> e == PackError::EncryptionFailure,
    {
        let salt = generate_salt();
        let nonce = generate_nonce();
        let r = Aes256Gcm::encrypt_with(plaintext, password, salt.as_slice(), nonce.as_slice());
        proof {
            if r is Ok {
                let c = r->Ok_0;
                let sealed = aes256_gcm_seal(argon2_key(password@, salt@), nonce@, plaintext@);
                assert(c@.take(SALT_LEN as int) == salt@);
                assert(c@.subrange(SALT_LEN as int, (SALT_LEN + NONCE_LEN) as int) == nonce@);
                assert(c@.skip((SALT_LEN + NONCE_LEN) as int) == sealed);
            }
        }
        r
    }

    /// Decrypts what [`Aes256Gcm::encrypt_bytes`] made; the encrypted form
    /// of a plaintext under this password decrypts to that plaintext.
    fn decrypt_bytes(data: &[u8], password: &str) -> (r: Result<Vec<u8>, PackError>)
        ensures
            match decryption_of(data@, password@) {
                Some(p) => r matches Ok(v) && v@ == p,
                None => r == Err::<Vec<u8>, PackError>(PackError::DecryptionFailure),
            },
            forall|p: Seq<u8>|
                #[trigger] encrypts_to(p, password@, data@) ==> (r matches Ok(v) && v@ == p),
    {
        let (salt_and_nonce, ciphertext) = data.split_at(SALT_LEN + NONCE_LEN);
        let (salt, nonce) = salt_and_nonce.split_at(SALT_LEN);
        proof {
            assert(salt@ == data@.take(SALT_LEN as int));
            assert(nonce@ == data@.subrange(SALT_LEN as int, (SALT_LEN + NONCE_LEN) as int));
            assert(ciphertext@ == data@.skip((SALT_LEN + NONCE_LEN) as int));
        }
        let key = derive_key_from_password_argon2(password, salt);
        match aes256_gcm_decrypt(key.as_slice(), nonce, ciphertext) {
            Some(plaintext) => Ok(plaintext),
            None => Err(PackError::DecryptionFailure),
        }
    }
}

} // verus!
