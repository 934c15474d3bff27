//! The session and its four operations.

use aead_engine::error::AeadError;
use aead_engine::registry::{implementation_for, params_for, AlgorithmId};
use aead_engine::session::{CiphertextRecord, EverCrypt_AEAD_state_s, SessionState};

const ALGORITHMS: [AlgorithmId; 2] =
    [AlgorithmId::ChaCha20Poly1305, AlgorithmId::XChaCha20Poly1305];

fn session(id: AlgorithmId, key: &[u8]) -> SessionState {
    match EverCrypt_AEAD_state_s::create(id, key) {
        Ok(s) => s,
        Err(e) => panic!("create failed: {:?}", e),
    }
}

fn nonce_for(id: AlgorithmId, fill: u8) -> Vec<u8> {
    vec![fill; params_for(id).nonce_len]
}

fn pattern(len: usize, seed: u8) -> Vec<u8> {
    (0..len).map(|i| (i as u8).wrapping_mul(31).wrapping_add(seed)).collect()
}

#[test]
fn scenario_zero_key_zero_nonce_three_bytes() {
    let key = [0u8; 32];
    let nonce = [0u8; 12];
    let s = session(AlgorithmId::ChaCha20Poly1305, &key);
    assert_eq!(params_for(s.algorithm()).key_len, 32);
    assert_eq!(params_for(s.algorithm()).nonce_len, 12);
    assert_eq!(params_for(s.algorithm()).tag_len, 16);

    let record = s.encrypt(&nonce, &[], &[1, 2, 3]).unwrap();
    assert_eq!(record.ciphertext.len(), 3);
    assert_eq!(record.tag.len(), 16);
    assert_eq!(record.ciphertext, vec![0x9e, 0x05, 0xe4]);
    assert_eq!(
        record.tag,
        vec![
            0x7e, 0x70, 0x7b, 0x1b, 0x32, 0xe6, 0x70, 0xad, 0x46, 0xb9, 0x9b, 0x30, 0x6e, 0xba,
            0x5e, 0xb9
        ]
    );
    // The values are reproducible.
    assert_eq!(s.encrypt(&nonce, &[], &[1, 2, 3]), Ok(record.clone()));

    assert_eq!(s.decrypt(&nonce, &[], &record.ciphertext, &record.tag), Ok(vec![1, 2, 3]));

    let mut bad_tag = record.tag.clone();
    bad_tag[15] = bad_tag[15].wrapping_add(1);
    assert_eq!(
        s.decrypt(&nonce, &[], &record.ciphertext, &bad_tag),
        Err(AeadError::AuthenticationFailure)
    );
    s.destroy();
}

#[test]
fn scenario_with_the_long_nonce() {
    let s = session(AlgorithmId::XChaCha20Poly1305, &[0u8; 32]);
    let nonce = [0u8; 24];
    let record = s.encrypt(&nonce, &[], &[1, 2, 3]).unwrap();
    assert_eq!(record.ciphertext, vec![0x79, 0x9c, 0x95]);
    assert_eq!(
        record.tag,
        vec![
            0x26, 0x85, 0xeb, 0xdd, 0xa9, 0xb1, 0x40, 0x5e, 0x8d, 0xe1, 0xd6, 0xdb, 0x9a, 0xc0,
            0x2f, 0x2b
        ]
    );
    assert_eq!(s.decrypt(&nonce, &[], &record.ciphertext, &record.tag), Ok(vec![1, 2, 3]));
}

#[test]
fn round_trip_over_lengths_and_algorithms() {
    for id in ALGORITHMS {
        let key = pattern(32, 7);
        let s = session(id, &key);
        let nonce = nonce_for(id, 0x24);
        for len in [0usize, 1, 15, 16, 17, 63, 64, 65, 127, 128, 129, 1000] {
            for ad_len in [0usize, 1, 16, 33] {
                let pt = pattern(len, 3);
                let ad = pattern(ad_len, 9);
                let record = s.encrypt(&nonce, &ad, &pt).unwrap();
                assert_eq!(record.ciphertext.len(), pt.len());
                assert_eq!(record.tag.len(), params_for(id).tag_len);
                assert_eq!(s.decrypt(&nonce, &ad, &record.ciphertext, &record.tag), Ok(pt));
            }
        }
    }
}

#[test]
fn encrypt_and_decrypt_in_any_order() {
    let s = session(AlgorithmId::ChaCha20Poly1305, &pattern(32, 1));
    let n1 = [1u8; 12];
    let n2 = [2u8; 12];
    let a = s.encrypt(&n1, b"a", b"first").unwrap();
    let b = s.encrypt(&n2, b"b", b"second").unwrap();
    assert_eq!(s.decrypt(&n2, b"b", &b.ciphertext, &b.tag), Ok(b"second".to_vec()));
    let c = s.encrypt(&n1, b"a", b"first").unwrap();
    assert_eq!(a, c);
    assert_eq!(s.decrypt(&n1, b"a", &a.ciphertext, &a.tag), Ok(b"first".to_vec()));
    assert_eq!(s.decrypt(&n1, b"a", &a.ciphertext, &a.tag), Ok(b"first".to_vec()));
}

#[test]
fn any_flipped_bit_is_refused() {
    for id in ALGORITHMS {
        let s = session(id, &pattern(32, 5));
        let nonce = nonce_for(id, 0x11);
        let ad = pattern(5, 1);
        let pt = pattern(21, 2);
        let CiphertextRecord { ciphertext, tag } = s.encrypt(&nonce, &ad, &pt).unwrap();
        for at in 0..ciphertext.len() {
            for bit in 0..8 {
                let mut changed = ciphertext.clone();
                changed[at] ^= 1 << bit;
                assert_eq!(
                    s.decrypt(&nonce, &ad, &changed, &tag),
                    Err(AeadError::AuthenticationFailure)
                );
            }
        }
        for at in 0..tag.len() {
            for bit in 0..8 {
                let mut changed = tag.clone();
                changed[at] ^= 1 << bit;
                assert_eq!(
                    s.decrypt(&nonce, &ad, &ciphertext, &changed),
                    Err(AeadError::AuthenticationFailure)
                );
            }
        }
        for at in 0..ad.len() {
            for bit in 0..8 {
                let mut changed = ad.clone();
                changed[at] ^= 1 << bit;
                assert_eq!(
                    s.decrypt(&nonce, &changed, &ciphertext, &tag),
                    Err(AeadError::AuthenticationFailure)
                );
            }
        }
        for at in 0..nonce.len() {
            let mut changed = nonce.clone();
            changed[at] ^= 0x80;
            assert_eq!(
                s.decrypt(&changed, &ad, &ciphertext, &tag),
                Err(AeadError::AuthenticationFailure)
            );
        }
    }
}

#[test]
fn a_tag_of_the_wrong_length_is_refused() {
    let s = session(AlgorithmId::ChaCha20Poly1305, &[9u8; 32]);
    let nonce = [0u8; 12];
    let record = s.encrypt(&nonce, b"", b"text").unwrap();
    let mut long = record.tag.clone();
    long.push(0);
    for tag in [&record.tag[..15], &record.tag[..0], &long[..]] {
        assert_eq!(
            s.decrypt(&nonce, b"", &record.ciphertext, tag),
            Err(AeadError::AuthenticationFailure)
        );
    }
}

#[test]
fn truncated_or_extended_ciphertext_is_refused() {
    let s = session(AlgorithmId::ChaCha20Poly1305, &[9u8; 32]);
    let nonce = [0u8; 12];
    let record = s.encrypt(&nonce, b"ad", b"some text").unwrap();
    let mut longer = record.ciphertext.clone();
    longer.push(0);
    assert_eq!(
        s.decrypt(&nonce, b"ad", &longer, &record.tag),
        Err(AeadError::AuthenticationFailure)
    );
    assert_eq!(
        s.decrypt(&nonce, b"ad", &record.ciphertext[..8], &record.tag),
        Err(AeadError::AuthenticationFailure)
    );
    // Moving a byte from the associated data to the ciphertext is noticed.
    assert_eq!(
        s.decrypt(&nonce, b"a", &record.ciphertext, &record.tag),
        Err(AeadError::AuthenticationFailure)
    );
}

#[test]
fn another_key_does_not_open_the_message() {
    let a = session(AlgorithmId::ChaCha20Poly1305, &[1u8; 32]);
    let b = session(AlgorithmId::ChaCha20Poly1305, &[2u8; 32]);
    let nonce = [0u8; 12];
    let record = a.encrypt(&nonce, b"", b"secret").unwrap();
    assert_eq!(
        b.decrypt(&nonce, b"", &record.ciphertext, &record.tag),
        Err(AeadError::AuthenticationFailure)
    );
}

#[test]
fn the_two_algorithms_differ() {
    let key = [3u8; 32];
    let short = session(AlgorithmId::ChaCha20Poly1305, &key);
    let long = session(AlgorithmId::XChaCha20Poly1305, &key);
    assert_eq!(short.algorithm(), AlgorithmId::ChaCha20Poly1305);
    assert_eq!(long.algorithm(), AlgorithmId::XChaCha20Poly1305);
    assert_eq!(short.implementation(), implementation_for(AlgorithmId::ChaCha20Poly1305));
    assert_eq!(long.implementation(), implementation_for(AlgorithmId::XChaCha20Poly1305));
    assert_ne!(short.implementation(), long.implementation());
    let a = short.encrypt(&[0u8; 12], b"", b"same text").unwrap();
    let b = long.encrypt(&[0u8; 24], b"", b"same text").unwrap();
    assert_ne!(a.ciphertext, b.ciphertext);
    assert_ne!(a.tag, b.tag);
}

#[test]
fn create_refuses_every_wrong_key_length() {
    for id in ALGORITHMS {
        for len in [0usize, 1, 16, 24, 31, 33, 64] {
            let key = vec![0u8; len];
            assert_eq!(
                EverCrypt_AEAD_state_s::create(id, &key).err(),
                Some(AeadError::InvalidKeyLength)
            );
        }
        assert!(EverCrypt_AEAD_state_s::create(id, &[0u8; 32]).is_ok());
    }
}

#[test]
fn wrong_nonce_length_is_refused_by_encrypt_and_decrypt() {
    for id in ALGORITHMS {
        let s = session(id, &[0u8; 32]);
        let right = params_for(id).nonce_len;
        for len in [0usize, 8, 11, 12, 13, 16, 23, 24, 25] {
            if len == right {
                continue;
            }
            let nonce = vec![0u8; len];
            assert_eq!(
                s.encrypt(&nonce, b"ad", b"text"),
                Err(AeadError::InvalidNonceLength)
            );
            assert_eq!(
                s.decrypt(&nonce, b"ad", b"text", &[0u8; 16]),
                Err(AeadError::InvalidNonceLength)
            );
        }
    }
}

#[test]
fn the_nonce_of_one_algorithm_is_wrong_for_the_other() {
    let short = session(AlgorithmId::ChaCha20Poly1305, &[0u8; 32]);
    let long = session(AlgorithmId::XChaCha20Poly1305, &[0u8; 32]);
    assert_eq!(short.encrypt(&[0u8; 24], b"", b"x"), Err(AeadError::InvalidNonceLength));
    assert_eq!(long.encrypt(&[0u8; 12], b"", b"x"), Err(AeadError::InvalidNonceLength));
}

#[test]
fn the_caller_may_overwrite_its_key_after_create() {
    let mut key = pattern(32, 4);
    let reference = session(AlgorithmId::ChaCha20Poly1305, &key);
    let s = session(AlgorithmId::ChaCha20Poly1305, &key);
    for b in key.iter_mut() {
        *b = 0xee;
    }
    drop(key);
    let nonce = [5u8; 12];
    assert_eq!(s.encrypt(&nonce, b"", b"text"), reference.encrypt(&nonce, b"", b"text"));
}

#[test]
fn sessions_with_equal_keys_are_independent() {
    for id in ALGORITHMS {
        let key = pattern(32, 8);
        let a = session(id, &key);
        let b = session(id, &key);
        let nonce = nonce_for(id, 1);
        let from_a = a.encrypt(&nonce, b"header", b"payload").unwrap();
        let from_b = b.encrypt(&nonce, b"header", b"payload").unwrap();
        assert_eq!(from_a, from_b);
        a.destroy();
        assert_eq!(b.encrypt(&nonce, b"header", b"payload"), Ok(from_a.clone()));
        assert_eq!(
            b.decrypt(&nonce, b"header", &from_a.ciphertext, &from_a.tag),
            Ok(b"payload".to_vec())
        );
        b.destroy();
    }
}

#[test]
fn wiping_leaves_zeros_of_the_key_length() {
    for id in ALGORITHMS {
        let key = pattern(32, 0x55);
        assert!(key.iter().any(|b| *b != 0));
        let s = session(id, &key);
        let mut residue = s.wipe_key();
        assert!(residue.owns_storage());
        assert_eq!(residue.len(), 32);
        let bytes = residue.read().unwrap().to_vec();
        assert_eq!(bytes, vec![0u8; 32]);
        for (left, was) in bytes.iter().zip(key.iter()) {
            if *was != 0 {
                assert_ne!(left, was);
            }
        }
        aead_engine::memory::free(&mut residue);
        assert!(!residue.owns_storage());
    }
}

#[test]
fn nonce_reuse_reveals_the_difference_of_the_plaintexts() {
    // The engine does not keep track of nonces. Two messages under one key
    // and one nonce share a key stream: their ciphertexts differ exactly
    // where the plaintexts do.
    let s = session(AlgorithmId::ChaCha20Poly1305, &pattern(32, 2));
    let nonce = [7u8; 12];
    let dawn = b"attack at dawn";
    let dusk = b"attack at dusk";
    let sealed_dawn = s.encrypt(&nonce, b"", dawn).unwrap().ciphertext;
    let sealed_dusk = s.encrypt(&nonce, b"", dusk).unwrap().ciphertext;
    for i in 0..dawn.len() {
        assert_eq!(sealed_dawn[i] ^ sealed_dusk[i], dawn[i] ^ dusk[i]);
    }
}

#[test]
fn associated_data_is_authenticated_but_not_sent() {
    let s = session(AlgorithmId::ChaCha20Poly1305, &pattern(32, 2));
    let nonce = [7u8; 12];
    let with = s.encrypt(&nonce, b"header", b"body").unwrap();
    let without = s.encrypt(&nonce, b"", b"body").unwrap();
    assert_eq!(with.ciphertext, without.ciphertext);
    assert_ne!(with.tag, without.tag);
}
