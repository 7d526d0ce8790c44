//! Error taxonomy of the overlay core.
//!
//! Errors are small tag enums so that contracts can state exactly which
//! error a function returns on which input.

use vstd::prelude::*;

verus! {

/// Failure of a cryptographic primitive.
#[derive(Clone, Copy, Debug, PartialEq, Eq, Structural)]
pub enum CryptoError {
    /// RSA or AES-GCM decryption failed (malformed ciphertext, wrong key,
    /// or AEAD tag mismatch).
    Decrypt,
    /// RSA encryption failed (unusable public key or oversized plaintext).
    Encrypt,
    /// A key could not be parsed or generated.
    Key,
}

/// Failure while interpreting the per-hop wire protocol.
#[derive(Clone, Copy, Debug, PartialEq, Eq, Structural)]
pub enum ProtocolError {
    /// The handshake frame did not decode, or the sealed session key did
    /// not decrypt to a 32-byte AES key.
    BadHandshake,
    /// The onion frame did not decrypt or did not decode as an onion layer.
    BadLayer,
}

/// Failure while building a circuit.
#[derive(Clone, Copy, Debug, PartialEq, Eq, Structural)]
pub enum CircuitError {
    /// Fewer than `CIRCUIT_LEN` nodes are available.
    InsufficientNodes,
    /// A hop's public key could not be used to seal the session key.
    Crypto,
    /// A constructed payload would exceed the wire format's size limits.
    Oversize,
}

/// Failure while talking to the directory.
#[derive(Clone, Copy, Debug, PartialEq, Eq, Structural)]
pub enum DirectoryError {
    /// The directory's reply was not a well-formed response of the
    /// expected variant.
    BadResponse,
}

} // verus!
