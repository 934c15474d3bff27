//! The algorithm registry and the length checks.

use aead_engine::error::AeadError;
use aead_engine::registry::{
    check_lengths, implementation_for, params_for, params_for_code, AlgorithmId, AlgorithmParams,
    Implementation, MAX_STREAM_LEN,
};

#[test]
fn parameters_of_chacha20_poly1305() {
    assert_eq!(
        params_for(AlgorithmId::ChaCha20Poly1305),
        AlgorithmParams {
            key_len: 32,
            nonce_len: 12,
            tag_len: 16,
            max_associated_data_len: u64::MAX,
            max_plaintext_len: 274_877_906_880,
        }
    );
}

#[test]
fn parameters_of_xchacha20_poly1305() {
    assert_eq!(
        params_for(AlgorithmId::XChaCha20Poly1305),
        AlgorithmParams {
            key_len: 32,
            nonce_len: 24,
            tag_len: 16,
            max_associated_data_len: u64::MAX,
            max_plaintext_len: 274_877_906_880,
        }
    );
}

#[test]
fn the_longest_stream_is_all_blocks_but_the_first() {
    assert_eq!(MAX_STREAM_LEN, 64 * (u32::MAX as u64));
}

#[test]
fn codes_name_the_algorithms() {
    assert_eq!(AlgorithmId::ChaCha20Poly1305.code(), 1);
    assert_eq!(AlgorithmId::XChaCha20Poly1305.code(), 2);
    assert_eq!(AlgorithmId::from_code(1), Ok(AlgorithmId::ChaCha20Poly1305));
    assert_eq!(AlgorithmId::from_code(2), Ok(AlgorithmId::XChaCha20Poly1305));
}

#[test]
fn every_other_code_is_unsupported() {
    for code in 0u8..=255 {
        if code == 1 || code == 2 {
            let id = AlgorithmId::from_code(code).unwrap();
            assert_eq!(id.code(), code);
            assert_eq!(params_for_code(code), Ok(params_for(id)));
        } else {
            assert_eq!(AlgorithmId::from_code(code), Err(AeadError::UnsupportedAlgorithm));
            assert_eq!(params_for_code(code), Err(AeadError::UnsupportedAlgorithm));
        }
    }
}

#[test]
fn each_algorithm_has_its_implementation() {
    assert_eq!(
        implementation_for(AlgorithmId::ChaCha20Poly1305),
        Implementation::PortableChaCha20Poly1305
    );
    assert_eq!(
        implementation_for(AlgorithmId::XChaCha20Poly1305),
        Implementation::PortableXChaCha20Poly1305
    );
}

#[test]
fn lengths_within_the_limits_pass() {
    let p = params_for(AlgorithmId::ChaCha20Poly1305);
    assert_eq!(check_lengths(&p, 12, 0, 0), Ok(()));
    assert_eq!(check_lengths(&p, 12, u64::MAX, MAX_STREAM_LEN), Ok(()));
}

#[test]
fn a_plaintext_over_the_limit_is_too_long() {
    let p = params_for(AlgorithmId::ChaCha20Poly1305);
    assert_eq!(check_lengths(&p, 12, 0, MAX_STREAM_LEN + 1), Err(AeadError::PlaintextTooLong));
    assert_eq!(check_lengths(&p, 12, 0, u64::MAX), Err(AeadError::PlaintextTooLong));
}

#[test]
fn associated_data_over_the_limit_is_too_long() {
    let p = AlgorithmParams {
        key_len: 32,
        nonce_len: 12,
        tag_len: 16,
        max_associated_data_len: 10,
        max_plaintext_len: 20,
    };
    assert_eq!(check_lengths(&p, 12, 10, 20), Ok(()));
    assert_eq!(check_lengths(&p, 12, 11, 20), Err(AeadError::AssociatedDataTooLong));
    assert_eq!(check_lengths(&p, 12, 10, 21), Err(AeadError::PlaintextTooLong));
}

#[test]
fn the_first_fault_is_reported() {
    let p = AlgorithmParams {
        key_len: 32,
        nonce_len: 12,
        tag_len: 16,
        max_associated_data_len: 10,
        max_plaintext_len: 20,
    };
    assert_eq!(check_lengths(&p, 11, 11, 21), Err(AeadError::InvalidNonceLength));
    assert_eq!(check_lengths(&p, 12, 11, 21), Err(AeadError::AssociatedDataTooLong));
}
