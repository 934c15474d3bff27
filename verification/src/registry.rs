//! The supported algorithms and their fixed parameters.

use crate::error::AeadError;
use vstd::prelude::*;

verus! {

/// A supported AEAD construction.
#[derive(Clone, Copy, Debug, PartialEq, Eq, Structural)]
pub enum AlgorithmId {
    /// ChaCha20 with Poly1305, 96-bit nonces.
    ChaCha20Poly1305,
    /// ChaCha20 with Poly1305 under a key derived by HChaCha20, 192-bit
    /// nonces.
    XChaCha20Poly1305,
}

/// The sizes that an algorithm fixes, in bytes.
#[derive(Clone, Copy, Debug, PartialEq, Eq, Structural)]
pub struct AlgorithmParams {
    pub key_len: usize,
    pub nonce_len: usize,
    pub tag_len: usize,
    pub max_associated_data_len: u64,
    pub max_plaintext_len: u64,
}

/// The routine that carries an algorithm out.
#[derive(Clone, Copy, Debug, PartialEq, Eq, Structural)]
pub enum Implementation {
    /// ChaCha20-Poly1305 in portable integer arithmetic.
    PortableChaCha20Poly1305,
    /// XChaCha20-Poly1305 in portable integer arithmetic.
    PortableXChaCha20Poly1305,
}

/// The longest plaintext a 32-bit block counter that starts at one can
/// cover: `64 * (2^32 - 1)` bytes.
pub const MAX_STREAM_LEN: u64 = 274_877_906_880;

impl AlgorithmId {
    /// The byte that names this algorithm outside the process.
    pub open spec fn code_of(self) -> u8 {
        match self {
            AlgorithmId::ChaCha20Poly1305 => 1u8,
            AlgorithmId::XChaCha20Poly1305 => 2u8,
        }
    }

    /// The algorithm that a byte names, if it names one.
    pub open spec fn named_by(code: u8) -> Result<AlgorithmId, AeadError> {
        if code == 1 {
            Ok(AlgorithmId::ChaCha20Poly1305)
        } else if code == 2 {
            Ok(AlgorithmId::XChaCha20Poly1305)
        } else {
            Err(AeadError::UnsupportedAlgorithm)
        }
    }

    /// The byte that names this algorithm outside the process.
    pub fn code(self) -> (c: u8)
        ensures
            c == self.code_of(),
            AlgorithmId::named_by(c) == Ok::<AlgorithmId, AeadError>(self),
    {
        match self {
            AlgorithmId::ChaCha20Poly1305 => 1,
            AlgorithmId::XChaCha20Poly1305 => 2,
        }
    }

    /// The algorithm that `code` names; `UnsupportedAlgorithm` for a byte
    /// that names none.
    pub fn from_code(code: u8) -> (r: Result<AlgorithmId, AeadError>)
        ensures
            r == AlgorithmId::named_by(code),
    {
        if code == 1 {
            Ok(AlgorithmId::ChaCha20Poly1305)
        } else if code == 2 {
            Ok(AlgorithmId::XChaCha20Poly1305)
        } else {
            Err(AeadError::UnsupportedAlgorithm)
        }
    }
}

/// The parameters of each algorithm.
pub open spec fn params_of(id: AlgorithmId) -> AlgorithmParams {
    match id {
        AlgorithmId::ChaCha20Poly1305 => AlgorithmParams {
            key_len: 32,
            nonce_len: 12,
            tag_len: 16,
            max_associated_data_len: u64::MAX,
            max_plaintext_len: MAX_STREAM_LEN,
        },
        AlgorithmId::XChaCha20Poly1305 => AlgorithmParams {
            key_len: 32,
            nonce_len: 24,
            tag_len: 16,
            max_associated_data_len: u64::MAX,
            max_plaintext_len: MAX_STREAM_LEN,
        },
    }
}

/// The implementation bound to each algorithm.
pub open spec fn implementation_of(id: AlgorithmId) -> Implementation {
    match id {
        AlgorithmId::ChaCha20Poly1305 => Implementation::PortableChaCha20Poly1305,
        AlgorithmId::XChaCha20Poly1305 => Implementation::PortableXChaCha20Poly1305,
    }
}

/// What a lookup by code gives: the parameters of the algorithm that the
/// byte names.
pub open spec fn params_named_by(code: u8) -> Result<AlgorithmParams, AeadError> {
    match AlgorithmId::named_by(code) {
        Ok(id) => Ok(params_of(id)),
        Err(e) => Err(e),
    }
}

/// The parameters of `id`.
pub fn params_for(id: AlgorithmId) -> (p: AlgorithmParams)
    ensures
        p == params_of(id),
{
    match id {
        AlgorithmId::ChaCha20Poly1305 => AlgorithmParams {
            key_len: 32,
            nonce_len: 12,
            tag_len: 16,
            max_associated_data_len: u64::MAX,
            max_plaintext_len: MAX_STREAM_LEN,
        },
        AlgorithmId::XChaCha20Poly1305 => AlgorithmParams {
            key_len: 32,
            nonce_len: 24,
            tag_len: 16,
            max_associated_data_len: u64::MAX,
            max_plaintext_len: MAX_STREAM_LEN,
        },
    }
}

/// The parameters of the algorithm that `code` names;
/// `UnsupportedAlgorithm` for a byte that names none.
pub fn params_for_code(code: u8) -> (r: Result<AlgorithmParams, AeadError>)
    ensures
        r == params_named_by(code),
{
    match AlgorithmId::from_code(code) {
        Ok(id) => Ok(params_for(id)),
        Err(e) => Err(e),
    }
}

/// The implementation bound to `id`. The choice depends on nothing else.
pub fn implementation_for(id: AlgorithmId) -> (imp: Implementation)
    ensures
        imp == implementation_of(id),
{
    match id {
        AlgorithmId::ChaCha20Poly1305 => Implementation::PortableChaCha20Poly1305,
        AlgorithmId::XChaCha20Poly1305 => Implementation::PortableXChaCha20Poly1305,
    }
}

/// The first length that breaks a limit of `p`, in the order nonce,
/// associated data, text; `Ok` when none does.
pub open spec fn length_check(p: AlgorithmParams, nonce_len: nat, ad_len: nat, text_len: nat)
    -> Result<(), AeadError> {
    if nonce_len != p.nonce_len {
        Err(AeadError::InvalidNonceLength)
    } else if ad_len > p.max_associated_data_len {
        Err(AeadError::AssociatedDataTooLong)
    } else if text_len > p.max_plaintext_len {
        Err(AeadError::PlaintextTooLong)
    } else {
        Ok(())
    }
}

/// Holds the lengths of a message to the limits of `p`.
pub fn check_lengths(p: &AlgorithmParams, nonce_len: usize, ad_len: u64, text_len: u64) -> (r:
    Result<(), AeadError>)
    ensures
        r == length_check(*p, nonce_len as nat, ad_len as nat, text_len as nat),
{
    if nonce_len != p.nonce_len {
        Err(AeadError::InvalidNonceLength)
    } else if ad_len > p.max_associated_data_len {
        Err(AeadError::AssociatedDataTooLong)
    } else if text_len > p.max_plaintext_len {
        Err(AeadError::PlaintextTooLong)
    } else {
        Ok(())
    }
}

} // verus!
