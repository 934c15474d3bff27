//! Owned storage, comparison of secrets, and byte order.

use aead_engine::bytes::{load_u128_le, store_le};
use aead_engine::constant_time::bytes_equal;
use aead_engine::error::AeadError;
use aead_engine::memory::wipe_bytes;
use aead_engine::{free, OwnedBuffer};

#[test]
fn a_copy_shares_nothing_with_its_source() {
    let mut source = vec![1u8, 2, 3];
    let buffer = OwnedBuffer::copy_of(&source);
    source[0] = 9;
    assert!(buffer.owns_storage());
    assert_eq!(buffer.len(), 3);
    assert_eq!(buffer.read(), Ok(&[1u8, 2, 3][..]));
}

#[test]
fn wipe_zeroes_and_keeps_the_storage() {
    let mut buffer = OwnedBuffer::copy_of(&[0xaa, 0xbb, 0, 0xcc]);
    buffer.wipe();
    assert!(buffer.owns_storage());
    assert_eq!(buffer.read(), Ok(&[0u8, 0, 0, 0][..]));
}

#[test]
fn wipe_bytes_zeroes_in_place() {
    let mut bytes = vec![1u8, 0, 0xff, 7];
    wipe_bytes(&mut bytes);
    assert_eq!(bytes, vec![0u8; 4]);
    let mut none: Vec<u8> = Vec::new();
    wipe_bytes(&mut none);
    assert!(none.is_empty());
}

#[test]
fn free_releases_once_and_then_does_nothing() {
    let mut buffer = OwnedBuffer::copy_of(&[1, 2, 3]);
    free(&mut buffer);
    assert!(!buffer.owns_storage());
    assert_eq!(buffer.len(), 0);
    free(&mut buffer);
    free(&mut buffer);
    assert!(!buffer.owns_storage());
    assert_eq!(buffer.len(), 0);
}

#[test]
fn free_of_the_null_handle_does_nothing() {
    let mut buffer = OwnedBuffer::null();
    assert!(!buffer.owns_storage());
    free(&mut buffer);
    assert!(!buffer.owns_storage());
    assert_eq!(buffer.len(), 0);
}

#[test]
fn release_is_free() {
    let mut buffer = OwnedBuffer::copy_of(&[4, 5]);
    buffer.release();
    assert!(!buffer.owns_storage());
    buffer.release();
    assert!(!buffer.owns_storage());
}

#[test]
fn reading_after_release_is_misuse() {
    let mut buffer = OwnedBuffer::copy_of(&[1, 2, 3]);
    free(&mut buffer);
    assert_eq!(buffer.read(), Err(AeadError::MisuseAfterDestroy));
    assert_eq!(OwnedBuffer::null().read(), Err(AeadError::MisuseAfterDestroy));
}

#[test]
fn wiping_a_released_handle_does_nothing() {
    let mut buffer = OwnedBuffer::null();
    buffer.wipe();
    assert!(!buffer.owns_storage());
    assert_eq!(buffer.len(), 0);
}

#[test]
fn an_empty_buffer_is_still_owned() {
    let buffer = OwnedBuffer::copy_of(&[]);
    assert!(buffer.owns_storage());
    assert_eq!(buffer.read(), Ok(&[][..]));
}

#[test]
fn equal_strings_are_equal() {
    assert!(bytes_equal(&[], &[]));
    assert!(bytes_equal(&[1, 2, 3], &[1, 2, 3]));
    assert!(bytes_equal(&[0xff; 16], &[0xff; 16]));
}

#[test]
fn a_difference_anywhere_is_found() {
    let a = [7u8; 16];
    for at in 0..16 {
        for bit in 0..8 {
            let mut b = a;
            b[at] ^= 1 << bit;
            assert!(!bytes_equal(&a, &b));
            assert!(!bytes_equal(&b, &a));
        }
    }
}

#[test]
fn strings_of_different_length_differ() {
    assert!(!bytes_equal(&[], &[0]));
    assert!(!bytes_equal(&[1, 2, 3], &[1, 2]));
    assert!(!bytes_equal(&[1, 2], &[1, 2, 0]));
}

#[test]
fn sixteen_bytes_are_read_least_significant_first() {
    let bytes: Vec<u8> = (1u8..=18).collect();
    assert_eq!(load_u128_le(&bytes, 0), 0x100f0e0d0c0b0a090807060504030201);
    assert_eq!(load_u128_le(&bytes, 2), 0x1211100f0e0d0c0b0a09080706050403);
    assert_eq!(load_u128_le(&[0xff; 16], 0), u128::MAX);
    assert_eq!(load_u128_le(&[0; 16], 0), 0);
}

#[test]
fn numbers_are_written_least_significant_first() {
    let mut out = vec![0xaa];
    store_le(&mut out, 0x0102030405060708, 8);
    assert_eq!(out, vec![0xaa, 8, 7, 6, 5, 4, 3, 2, 1]);
    let mut out = Vec::new();
    store_le(&mut out, 0x0102, 1);
    assert_eq!(out, vec![2]);
    store_le(&mut out, 5, 0);
    assert_eq!(out, vec![2]);
    store_le(&mut out, 1, 17);
    assert_eq!(out.len(), 18);
    assert_eq!(out[1], 1);
    assert!(out[2..].iter().all(|b| *b == 0));
}

#[test]
fn writing_then_reading_gives_the_number_back() {
    let n: u128 = 0x0123456789abcdef_fedcba9876543210;
    let mut out = Vec::new();
    store_le(&mut out, n, 16);
    assert_eq!(load_u128_le(&out, 0), n);
}
