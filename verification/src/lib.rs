//! An engine for authenticated encryption with associated data.
//!
//! A session binds a key to one of the supported algorithms. It encrypts and
//! decrypts any number of messages, each under a nonce that the caller
//! chooses, and is destroyed once; destroying it overwrites the key with
//! zeros before the storage is released.
//!
//! ```text
//! registry      the algorithms, their parameters, the length checks
//! session       create, encrypt, decrypt, destroy
//! backend       what each implementation computes; dispatch on the selector
//! chacha20      the stream cipher and the key derivation
//! poly1305      the one-time authenticator
//! constant_time comparison of tags
//! memory        owned secret storage and its release
//! bytes         little-endian numbers
//! laws          what holds of every key and every message
//! ```
//!
//! Every function is verified against a contract over sequences of bytes and
//! natural numbers. The contracts say what is computed. They say nothing
//! about time, nor about what a compiler does with a store to memory that is
//! about to be released.

pub mod backend;
pub mod bytes;
pub mod chacha20;
pub mod constant_time;
pub mod error;
pub mod laws;
pub mod memory;
pub mod poly1305;
pub mod registry;
pub mod session;

pub use crate::error::AeadError;
pub use crate::memory::{free, OwnedBuffer};
pub use crate::registry::{params_for, AlgorithmId, AlgorithmParams};
pub use crate::session::{CiphertextRecord, EverCrypt_AEAD_state_s, SessionState};
