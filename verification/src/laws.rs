//! What holds of the engine whatever the key and the message, proved over the
//! models that `create`, `encrypt` and `decrypt` are specified by.

use crate::backend::{lemma_open_inverts_seal, lemma_sealed_lengths, sealed_tag, sealed_text};
use crate::error::AeadError;
use crate::memory::zeros;
use crate::registry::{implementation_of, length_check, params_of, AlgorithmId};
use crate::session::{create_check, decrypt_model, encrypt_model, EverCrypt_AEAD_state_s};
use vstd::prelude::*;

verus! {

/// `s` with bit `bit` of the byte at `at` inverted.
pub open spec fn flip_bit(s: Seq<u8>, at: int, bit: u8) -> Seq<u8> {
    s.update(at, s[at] ^ (1u8 << bit))
}

/// Inverting a bit changes the string.
pub proof fn lemma_flip_bit_differs(s: Seq<u8>, at: int, bit: u8)
    requires
        0 <= at < s.len(),
        bit < 8,
    ensures
        flip_bit(s, at, bit) != s,
        flip_bit(s, at, bit).len() == s.len(),
{
    let x = s[at];
    assert(x ^ (1u8 << bit) != x) by (bit_vector)
        requires
            bit < 8,
    ;
    assert(flip_bit(s, at, bit)[at] != s[at]);
}

/// What `encrypt` made of a plaintext, `decrypt` turns back into that
/// plaintext, under the same key, nonce and associated data.
pub proof fn round_trip(id: AlgorithmId, key: Seq<u8>, nonce: Seq<u8>, ad: Seq<u8>, pt: Seq<u8>)
    requires
        length_check(params_of(id), nonce.len(), ad.len(), pt.len()) is Ok,
    ensures
        encrypt_model(id, key, nonce, ad, pt) is Ok,
        ({
            let sealed = encrypt_model(id, key, nonce, ad, pt)->Ok_0;
            &&& sealed.0.len() == pt.len()
            &&& sealed.1.len() == params_of(id).tag_len
            &&& decrypt_model(id, key, nonce, ad, sealed.0, sealed.1) == Ok::<Seq<u8>, AeadError>(
                pt,
            )
        }),
{
    let imp = implementation_of(id);
    let ct = sealed_text(imp, key, nonce, pt);
    lemma_sealed_lengths(imp, key, nonce, ad, pt);
    lemma_sealed_lengths(imp, key, nonce, ad, ct);
    lemma_open_inverts_seal(imp, key, nonce, pt);
}

/// A tag with any one bit inverted is refused with `AuthenticationFailure`.
pub proof fn flipped_tag_is_refused(
    id: AlgorithmId,
    key: Seq<u8>,
    nonce: Seq<u8>,
    ad: Seq<u8>,
    pt: Seq<u8>,
    at: int,
    bit: u8,
)
    requires
        length_check(params_of(id), nonce.len(), ad.len(), pt.len()) is Ok,
        0 <= at < params_of(id).tag_len,
        bit < 8,
    ensures
        encrypt_model(id, key, nonce, ad, pt) is Ok,
        ({
            let sealed = encrypt_model(id, key, nonce, ad, pt)->Ok_0;
            decrypt_model(id, key, nonce, ad, sealed.0, flip_bit(sealed.1, at, bit)) == Err::<
                Seq<u8>,
                AeadError,
            >(AeadError::AuthenticationFailure)
        }),
{
    let imp = implementation_of(id);
    let ct = sealed_text(imp, key, nonce, pt);
    let tag = sealed_tag(imp, key, nonce, ad, ct);
    lemma_sealed_lengths(imp, key, nonce, ad, pt);
    lemma_sealed_lengths(imp, key, nonce, ad, ct);
    lemma_flip_bit_differs(tag, at, bit);
}

/// A ciphertext with any one bit inverted is refused with
/// `AuthenticationFailure`, unless the changed ciphertext happens to have
/// the very tag of the true one.
pub proof fn flipped_ciphertext_is_refused(
    id: AlgorithmId,
    key: Seq<u8>,
    nonce: Seq<u8>,
    ad: Seq<u8>,
    pt: Seq<u8>,
    at: int,
    bit: u8,
)
    requires
        length_check(params_of(id), nonce.len(), ad.len(), pt.len()) is Ok,
        0 <= at < pt.len(),
        bit < 8,
        ({
            let ct = sealed_text(implementation_of(id), key, nonce, pt);
            sealed_tag(implementation_of(id), key, nonce, ad, flip_bit(ct, at, bit)) != sealed_tag(
                implementation_of(id),
                key,
                nonce,
                ad,
                ct,
            )
        }),
    ensures
        encrypt_model(id, key, nonce, ad, pt) is Ok,
        ({
            let sealed = encrypt_model(id, key, nonce, ad, pt)->Ok_0;
            decrypt_model(id, key, nonce, ad, flip_bit(sealed.0, at, bit), sealed.1) == Err::<
                Seq<u8>,
                AeadError,
            >(AeadError::AuthenticationFailure)
        }),
{
    lemma_sealed_lengths(implementation_of(id), key, nonce, ad, pt);
}

/// Associated data with any one bit inverted is refused with
/// `AuthenticationFailure`, unless the changed data happens to have the very
/// tag of the true one.
pub proof fn flipped_associated_data_is_refused(
    id: AlgorithmId,
    key: Seq<u8>,
    nonce: Seq<u8>,
    ad: Seq<u8>,
    pt: Seq<u8>,
    at: int,
    bit: u8,
)
    requires
        length_check(params_of(id), nonce.len(), ad.len(), pt.len()) is Ok,
        0 <= at < ad.len(),
        bit < 8,
        ({
            let ct = sealed_text(implementation_of(id), key, nonce, pt);
            sealed_tag(implementation_of(id), key, nonce, flip_bit(ad, at, bit), ct) != sealed_tag(
                implementation_of(id),
                key,
                nonce,
                ad,
                ct,
            )
        }),
    ensures
        encrypt_model(id, key, nonce, ad, pt) is Ok,
        ({
            let sealed = encrypt_model(id, key, nonce, ad, pt)->Ok_0;
            decrypt_model(id, key, nonce, flip_bit(ad, at, bit), sealed.0, sealed.1) == Err::<
                Seq<u8>,
                AeadError,
            >(AeadError::AuthenticationFailure)
        }),
{
    lemma_sealed_lengths(implementation_of(id), key, nonce, ad, pt);
}

/// Whatever `decrypt` accepts is an encryption, so it never gives a
/// plaintext that does not belong to the message: the plaintext it gives
/// encrypts, under the same key, nonce and associated data, to the very
/// ciphertext and tag that it was given.
pub proof fn accepted_is_authentic(
    id: AlgorithmId,
    key: Seq<u8>,
    nonce: Seq<u8>,
    ad: Seq<u8>,
    ct: Seq<u8>,
    tag: Seq<u8>,
)
    requires
        decrypt_model(id, key, nonce, ad, ct, tag) is Ok,
    ensures
        encrypt_model(id, key, nonce, ad, decrypt_model(id, key, nonce, ad, ct, tag)->Ok_0) == Ok::<
            (Seq<u8>, Seq<u8>),
            AeadError,
        >((ct, tag)),
{
    lemma_sealed_lengths(implementation_of(id), key, nonce, ad, ct);
    lemma_open_inverts_seal(implementation_of(id), key, nonce, ct);
}

/// `decrypt` fails with `AuthenticationFailure` exactly on messages of
/// admissible lengths whose tag is not the tag of their associated data and
/// ciphertext.
pub proof fn refused_iff_tag_is_wrong(
    id: AlgorithmId,
    key: Seq<u8>,
    nonce: Seq<u8>,
    ad: Seq<u8>,
    ct: Seq<u8>,
    tag: Seq<u8>,
)
    ensures
        decrypt_model(id, key, nonce, ad, ct, tag) == Err::<Seq<u8>, AeadError>(
            AeadError::AuthenticationFailure,
        ) <==> (length_check(params_of(id), nonce.len(), ad.len(), ct.len()) is Ok && tag
            != sealed_tag(implementation_of(id), key, nonce, ad, ct)),
{
}

/// A key of any length but the algorithm's is refused with
/// `InvalidKeyLength`, and no other key is.
pub proof fn wrong_key_length_is_refused(id: AlgorithmId, key_len: nat)
    ensures
        key_len != params_of(id).key_len ==> create_check(id, key_len) == Err::<(), AeadError>(
            AeadError::InvalidKeyLength,
        ),
        key_len == params_of(id).key_len ==> create_check(id, key_len) is Ok,
{
}

/// A nonce of any length but the algorithm's is refused with
/// `InvalidNonceLength` by `encrypt` and by `decrypt`, whatever else is wrong
/// with the message.
pub proof fn wrong_nonce_length_is_refused(
    id: AlgorithmId,
    key: Seq<u8>,
    nonce: Seq<u8>,
    ad: Seq<u8>,
    text: Seq<u8>,
    tag: Seq<u8>,
)
    requires
        nonce.len() != params_of(id).nonce_len,
    ensures
        encrypt_model(id, key, nonce, ad, text) == Err::<(Seq<u8>, Seq<u8>), AeadError>(
            AeadError::InvalidNonceLength,
        ),
        decrypt_model(id, key, nonce, ad, text, tag) == Err::<Seq<u8>, AeadError>(
            AeadError::InvalidNonceLength,
        ),
{
}

/// Two sessions of one algorithm that hold equal keys encrypt and decrypt
/// alike. What a session computes depends on its algorithm and its key and
/// on nothing else.
pub proof fn equal_keys_work_alike(
    a: EverCrypt_AEAD_state_s,
    b: EverCrypt_AEAD_state_s,
    nonce: Seq<u8>,
    ad: Seq<u8>,
    text: Seq<u8>,
    tag: Seq<u8>,
)
    requires
        a.algorithm_id() == b.algorithm_id(),
        a.key_material() == b.key_material(),
    ensures
        encrypt_model(a.algorithm_id(), a.key_material(), nonce, ad, text) == encrypt_model(
            b.algorithm_id(),
            b.key_material(),
            nonce,
            ad,
            text,
        ),
        decrypt_model(a.algorithm_id(), a.key_material(), nonce, ad, text, tag) == decrypt_model(
            b.algorithm_id(),
            b.key_material(),
            nonce,
            ad,
            text,
            tag,
        ),
{
}

/// The bytes that `wipe_key` leaves differ from the key at every place where
/// the key was not zero already.
pub proof fn wiped_key_keeps_no_key_byte(key: Seq<u8>, at: int)
    requires
        0 <= at < key.len(),
        key[at] != 0,
    ensures
        zeros(key.len()).len() == key.len(),
        zeros(key.len())[at] == 0,
        zeros(key.len())[at] != key[at],
{
}

} // verus!
