//! An encrypted credential store for remote-connection profiles.
//!
//! The library keeps an ordered list of connection profiles (name, address,
//! password), serializes it to a canonical byte encoding, and seals those
//! bytes with AES-256-GCM under a key derived deterministically from a master
//! passphrase.  A key-lifecycle state machine governs when the store may be
//! read, written, or must be rejected as wrong.  All file, window and process
//! handling stays outside; the library works on plain values.
use vstd::prelude::*;

pub mod app;
pub mod client;
pub mod codec;
pub mod encryption;
pub mod session;

verus! {

/// How an operation on the store can fail.
///
/// A wrong key and a corrupted or tampered container are indistinguishable:
/// both surface as `Authentication`.  `Format` means bytes that passed
/// authentication do not decode, which indicates an inconsistency rather
/// than an adversarial input.  Filesystem failures never reach this library;
/// the caller that does the reading and writing reports them itself.
#[derive(Clone, Copy, Debug, PartialEq, Eq, Structural)]
pub enum VaultError {
    /// The container's integrity tag does not verify under the given key,
    /// or the container is too short to hold a nonce.
    Authentication,
    /// The decrypted bytes are not a well-formed profile-list encoding.
    Format,
}

} // verus!
