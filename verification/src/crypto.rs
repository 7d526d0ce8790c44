//! Cryptographic primitives: RSA-2048 PKCS#1 v1.5 key transport and
//! AES-256-GCM payload encryption.
//!
//! Keys cross this boundary as plain bytes: a private key as PKCS#8 DER,
//! a public key as SubjectPublicKeyInfo PEM. Each function here wraps one
//! operation of the `rsa` or `aes_gcm` crate; what those operations
//! return is named by uninterpreted functions of the key and message
//! bytes, and everything the library proves about onions rests on the
//! contracts stated here.

use vstd::prelude::*;
use crate::errors::CryptoError;
use aes_gcm::aead::{Aead, KeyInit};
use aes_gcm::{Aes256Gcm, Key, Nonce};
use rsa::{RsaPrivateKey, RsaPublicKey, Pkcs1v15Encrypt};
use rsa::pkcs8::{EncodePrivateKey, DecodePrivateKey, EncodePublicKey, DecodePublicKey, LineEnding};
use rand::rngs::OsRng;

verus! {

/// Length of an AES-256 session key.
pub const AES_KEY_LEN: usize = 32;

/// Length of an AES-GCM nonce.
pub const AES_NONCE_LEN: usize = 12;

/// Length of the AES-GCM authentication tag appended to a ciphertext.
pub const AES_TAG_LEN: usize = 16;

/// Modulus size of the generated RSA keys, in bits.
pub const RSA_BITS: usize = 2048;

/// Largest plaintext this library hands to AES-GCM; far below the
/// algorithm's own bound of about 64 GiB, so encryption cannot fail on it.
pub const MAX_AES_PLAINTEXT: usize = 0x1000_0000;

/// What AES-256-GCM decryption returns for a key, nonce and ciphertext:
/// the plaintext when the tag authenticates, nothing otherwise. A
/// function of its arguments alone.
pub uninterp spec fn aead_open_of(key: Seq<u8>, nonce: Seq<u8>, ct: Seq<u8>) -> Option<Seq<u8>>;

/// The SubjectPublicKeyInfo PEM of the public half of an RSA private key
/// given as PKCS#8 DER. Both encodings are canonical, so this is a
/// function of the private key bytes alone.
pub uninterp spec fn rsa_public_pem_of(priv_der: Seq<u8>) -> Seq<u8>;

/// What RSA PKCS#1 v1.5 decryption returns for a private key (PKCS#8
/// DER) and a ciphertext: the sealed plaintext when the key parses and
/// the padding checks out, nothing otherwise. Decryption is run without
/// blinding, so this is a function of its arguments alone.
pub uninterp spec fn rsa_open_of(priv_der: Seq<u8>, ct: Seq<u8>) -> Option<Seq<u8>>;

/// Whether these bytes are UTF-8 SubjectPublicKeyInfo PEM text for a
/// public key the `rsa` crate accepts (odd exponent within bounds, odd
/// modulus of at most 4096 bits). A function of the bytes alone, and
/// exactly the condition under which sealing can succeed.
pub uninterp spec fn rsa_seals(pub_pem: Seq<u8>) -> bool;

/// The byte size of the parsed key's modulus: the exact length of every
/// ciphertext sealed under it, and the capacity bound on what it can
/// seal. A function of the bytes alone; meaningful only where
/// `rsa_seals` holds.
pub uninterp spec fn rsa_sealed_len(pub_pem: Seq<u8>) -> nat;

/// Largest modulus, in bytes, of a public key the `rsa` crate accepts.
pub const MAX_RSA_MODULUS_LEN: usize = 512;

/// Modulus size, in bytes, of the keys [`generate_rsa_keys`] produces.
pub const RSA_MODULUS_LEN: usize = 256;

/// Generates an RSA-2048 keypair with the platform CSPRNG.
///
/// Relies on `rsa::RsaPrivateKey::new` together with the `pkcs8`
/// encoders: the returned PEM is exactly the public half of the returned
/// private key, which is what `rsa_public_pem_of` names. Key generation
/// retries until the modulus has exactly 2048 bits, so the PEM parses
/// back to a sealing key with a 256-byte modulus.
#[verifier::external_body]
pub fn generate_rsa_keys() -> (r: Result<(Vec<u8>, Vec<u8>), CryptoError>)
    ensures
        r matches Ok(kp) ==> {
            &&& kp.1@ == rsa_public_pem_of(kp.0@)
            &&& rsa_seals(kp.1@)
            &&& rsa_sealed_len(kp.1@) == RSA_MODULUS_LEN
        },
{
    let key = RsaPrivateKey::new(&mut OsRng, RSA_BITS).map_err(|_| CryptoError::Key)?;
    let priv_der = key.to_pkcs8_der().map_err(|_| CryptoError::Key)?.as_bytes().to_vec();
    let pub_pem = key
        .to_public_key()
        .to_public_key_pem(LineEnding::LF)
        .map_err(|_| CryptoError::Key)?
        .into_bytes();
    Ok((priv_der, pub_pem))
}

/// Seals `data` to the public key `pub_pem` with RSA PKCS#1 v1.5.
///
/// Relies on `rsa::RsaPublicKey::encrypt` with `Pkcs1v15Encrypt`: any
/// private key whose public half is `pub_pem` recovers exactly `data`
/// from the returned ciphertext. Sealing succeeds exactly when the PEM
/// parses (`rsa_seals`) and `data` plus the 11 padding bytes fit the
/// modulus; the ciphertext is then exactly one modulus long, and parsed
/// keys are capped at 4096-bit moduli.
#[verifier::external_body]
pub fn rsa_encrypt(pub_pem: &[u8], data: &[u8]) -> (r: Result<Vec<u8>, CryptoError>)
    ensures
        match r {
            Ok(ct) => {
                &&& rsa_seals(pub_pem@)
                &&& data@.len() + 11 <= rsa_sealed_len(pub_pem@)
                &&& ct@.len() == rsa_sealed_len(pub_pem@)
                &&& ct@.len() <= MAX_RSA_MODULUS_LEN
                &&& forall|sk: Seq<u8>|
                    #[trigger] rsa_public_pem_of(sk) == pub_pem@ ==> rsa_open_of(sk, ct@) == Some(
                        data@,
                    )
            },
            Err(e) => {
                &&& !(rsa_seals(pub_pem@) && data@.len() + 11 <= rsa_sealed_len(pub_pem@))
                &&& e == (if rsa_seals(pub_pem@) {
                    CryptoError::Encrypt
                } else {
                    CryptoError::Key
                })
            },
        },
{
    let pem = core::str::from_utf8(pub_pem).map_err(|_| CryptoError::Key)?;
    let key = RsaPublicKey::from_public_key_pem(pem).map_err(|_| CryptoError::Key)?;
    key.encrypt(&mut OsRng, Pkcs1v15Encrypt, data).map_err(|_| CryptoError::Encrypt)
}

/// Opens an RSA PKCS#1 v1.5 ciphertext with the private key `priv_der`.
///
/// Relies on `rsa::RsaPrivateKey::decrypt` with `Pkcs1v15Encrypt`, whose
/// result is what `rsa_open_of` names.
#[verifier::external_body]
pub fn rsa_decrypt(priv_der: &[u8], data: &[u8]) -> (r: Result<Vec<u8>, CryptoError>)
    ensures
        match r {
            Ok(pt) => rsa_open_of(priv_der@, data@) == Some(pt@),
            Err(e) => rsa_open_of(priv_der@, data@) is None && e == CryptoError::Decrypt,
        },
{
    let key = RsaPrivateKey::from_pkcs8_der(priv_der).map_err(|_| CryptoError::Decrypt)?;
    key.decrypt(Pkcs1v15Encrypt, data).map_err(|_| CryptoError::Decrypt)
}

/// Draws a uniformly random 32-byte AES session key.
///
/// Relies on `rand::random`; nothing can be promised of a random value.
#[verifier::external_body]
pub fn generate_aes_key() -> (r: [u8; AES_KEY_LEN]) {
    rand::random()
}

/// Encrypts `data` under `key` with AES-256-GCM and a fresh random
/// 12-byte nonce, returning the ciphertext (tag appended) and the nonce.
///
/// Relies on `aes_gcm::Aes256Gcm::encrypt`: decrypting the returned
/// ciphertext under the same key and nonce yields `data` again, the
/// ciphertext is `data` plus the 16-byte tag, and encryption cannot fail
/// below the algorithm's size bound.
#[verifier::external_body]
pub fn aes_encrypt(key: &[u8; AES_KEY_LEN], data: &[u8]) -> (r: (Vec<u8>, Vec<u8>))
    requires
        data@.len() <= MAX_AES_PLAINTEXT,
    ensures
        r.0@.len() == data@.len() + AES_TAG_LEN,
        r.1@.len() == AES_NONCE_LEN,
        aead_open_of(key@, r.1@, r.0@) == Some(data@),
{
    let cipher = Aes256Gcm::new(Key::<Aes256Gcm>::from_slice(key));
    let nonce_bytes = rand::random::<[u8; AES_NONCE_LEN]>();
    let nonce = Nonce::from_slice(&nonce_bytes);
    let ciphertext = cipher.encrypt(nonce, data).expect("plaintext within AES-GCM bounds");
    (ciphertext, nonce_bytes.to_vec())
}

/// Decrypts an AES-256-GCM ciphertext, failing on tag mismatch.
///
/// Relies on `aes_gcm::Aes256Gcm::decrypt`, whose result is what
/// `aead_open_of` names; on success the plaintext is the ciphertext
/// without its 16-byte tag.
#[verifier::external_body]
pub fn aes_decrypt(key: &[u8; AES_KEY_LEN], nonce: &[u8], ciphertext: &[u8]) -> (r: Result<
    Vec<u8>,
    CryptoError,
>)
    requires
        nonce@.len() == AES_NONCE_LEN,
    ensures
        match r {
            Ok(pt) => aead_open_of(key@, nonce@, ciphertext@) == Some(pt@) && pt@.len()
                + AES_TAG_LEN == ciphertext@.len(),
            Err(e) => aead_open_of(key@, nonce@, ciphertext@) is None && e
                == CryptoError::Decrypt,
        },
{
    let cipher = Aes256Gcm::new(Key::<Aes256Gcm>::from_slice(key));
    let nonce = Nonce::from_slice(nonce);
    cipher.decrypt(nonce, ciphertext).map_err(|_| CryptoError::Decrypt)
}

} // verus!
