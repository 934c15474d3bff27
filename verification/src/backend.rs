//! The algorithms behind the engine: what each implementation computes, and
//! the one place that dispatches on the selector.
//!
//! Both implementations are the construction of RFC 8439. The plaintext is
//! encrypted with ChaCha20 from block one on. Block zero of the key stream
//! gives the one-time Poly1305 key, and the tag authenticates the associated
//! data, the ciphertext and their lengths. They differ in the key and the
//! nonce that the stream cipher is run under: XChaCha20-Poly1305 derives a
//! key from the first sixteen bytes of its nonce and runs under the rest.

use crate::bytes::{le_bytes, lemma_le_bytes_len, store_le};
use crate::chacha20::{
    apply_key_stream, block, derive_key, derived_key, key_stream_block,
    lemma_xor_stream_involution, xor_stream,
};
use crate::constant_time::bytes_equal;
use crate::memory::{wipe_bytes, OwnedBuffer};
use crate::poly1305::{absorb, lemma_absorb_concat, tag_of, zero_pad16, Poly1305};
use crate::registry::{Implementation, MAX_STREAM_LEN};
use vstd::prelude::*;
use vstd::slice::slice_subrange;

verus! {

/// The length of the keys of `imp`.
pub open spec fn key_len_of(imp: Implementation) -> nat {
    32
}

/// The length of the tags of `imp`.
pub open spec fn tag_len_of(imp: Implementation) -> nat {
    16
}

/// The length of the nonces of `imp`.
pub open spec fn nonce_len_of(imp: Implementation) -> nat {
    match imp {
        Implementation::PortableChaCha20Poly1305 => 12,
        Implementation::PortableXChaCha20Poly1305 => 24,
    }
}

/// The key that the stream cipher runs under.
pub open spec fn stream_key(imp: Implementation, key: Seq<u8>, nonce: Seq<u8>) -> Seq<u8> {
    match imp {
        Implementation::PortableChaCha20Poly1305 => key,
        Implementation::PortableXChaCha20Poly1305 => derived_key(key, nonce.subrange(0, 16)),
    }
}

/// The 12-byte nonce that the stream cipher runs under.
pub open spec fn stream_nonce(imp: Implementation, nonce: Seq<u8>) -> Seq<u8> {
    match imp {
        Implementation::PortableChaCha20Poly1305 => nonce,
        Implementation::PortableXChaCha20Poly1305 => seq![0u8, 0u8, 0u8, 0u8] + nonce.subrange(
            16,
            24,
        ),
    }
}

/// The one-time authenticator key: the first half of key-stream block zero.
pub open spec fn one_time_key(key: Seq<u8>, nonce: Seq<u8>) -> Seq<u8> {
    block(key, 0, nonce).subrange(0, 32)
}

/// What the tag authenticates: the associated data and the ciphertext, each
/// padded with zeros to a whole block, then their lengths in eight bytes
/// each.
pub open spec fn mac_data(ad: Seq<u8>, ct: Seq<u8>) -> Seq<u8> {
    zero_pad16(ad) + zero_pad16(ct) + le_bytes(ad.len(), 8) + le_bytes(ct.len(), 8)
}

/// The ciphertext of `pt`.
pub open spec fn sealed_text(imp: Implementation, key: Seq<u8>, nonce: Seq<u8>, pt: Seq<u8>) -> Seq<
    u8,
> {
    xor_stream(stream_key(imp, key, nonce), stream_nonce(imp, nonce), 1, pt)
}

/// The tag that authenticates `ad` and the ciphertext `ct`.
pub open spec fn sealed_tag(
    imp: Implementation,
    key: Seq<u8>,
    nonce: Seq<u8>,
    ad: Seq<u8>,
    ct: Seq<u8>,
) -> Seq<u8> {
    tag_of(one_time_key(stream_key(imp, key, nonce), stream_nonce(imp, nonce)), mac_data(ad, ct))
}

/// The plaintext of `ct`.
pub open spec fn opened_text(imp: Implementation, key: Seq<u8>, nonce: Seq<u8>, ct: Seq<u8>) -> Seq<
    u8,
> {
    xor_stream(stream_key(imp, key, nonce), stream_nonce(imp, nonce), 1, ct)
}

/// The inputs that `imp` works on: a key and a nonce of its lengths, and a
/// text that the block counter can cover.
pub open spec fn accepts(imp: Implementation, key: Seq<u8>, nonce: Seq<u8>, text_len: nat) -> bool {
    &&& key.len() == key_len_of(imp)
    &&& nonce.len() == nonce_len_of(imp)
    &&& text_len <= MAX_STREAM_LEN
}

/// The ciphertext is as long as the plaintext, the plaintext as long as the
/// ciphertext, and the tag has the length that the implementation fixes.
pub proof fn lemma_sealed_lengths(
    imp: Implementation,
    key: Seq<u8>,
    nonce: Seq<u8>,
    ad: Seq<u8>,
    text: Seq<u8>,
)
    ensures
        sealed_text(imp, key, nonce, text).len() == text.len(),
        opened_text(imp, key, nonce, text).len() == text.len(),
        sealed_tag(imp, key, nonce, ad, text).len() == tag_len_of(imp),
{
    assert forall|n: nat| #[trigger] le_bytes(n, 16).len() == 16 by {
        lemma_le_bytes_len(n, 16);
    }
}

/// Decryption undoes encryption, and encryption undoes decryption: both add
/// the same key stream.
pub proof fn lemma_open_inverts_seal(
    imp: Implementation,
    key: Seq<u8>,
    nonce: Seq<u8>,
    text: Seq<u8>,
)
    ensures
        opened_text(imp, key, nonce, sealed_text(imp, key, nonce, text)) == text,
        sealed_text(imp, key, nonce, opened_text(imp, key, nonce, text)) == text,
{
    lemma_xor_stream_involution(stream_key(imp, key, nonce), stream_nonce(imp, nonce), 1, text);
}

/// A padded string ends on a block boundary.
pub proof fn lemma_zero_pad16_len(s: Seq<u8>)
    ensures
        zero_pad16(s).len() % 16 == 0,
        s.len() % 16 == 0 ==> zero_pad16(s) == s,
{
    if s.len() % 16 == 0 {
        assert(zero_pad16(s) =~= s);
    }
}

/// Absorbing the padded associated data, the padded ciphertext and the two
/// lengths one after the other is absorbing what the tag authenticates.
#[verifier::rlimit(40)]
proof fn lemma_absorb_mac_data(r: nat, ad: Seq<u8>, ct: Seq<u8>, lengths: Seq<u8>)
    requires
        lengths == le_bytes(ad.len(), 8) + le_bytes(ct.len(), 8),
    ensures
        zero_pad16(lengths) == lengths,
        absorb(absorb(absorb(0, r, zero_pad16(ad)), r, zero_pad16(ct)), r, lengths) == absorb(
            0,
            r,
            mac_data(ad, ct),
        ),
{
    let a = zero_pad16(ad);
    let c = zero_pad16(ct);
    lemma_le_bytes_len(ad.len(), 8);
    lemma_le_bytes_len(ct.len(), 8);
    lemma_zero_pad16_len(ad);
    lemma_zero_pad16_len(ct);
    lemma_zero_pad16_len(lengths);
    lemma_absorb_concat(0, r, a, c);
    lemma_absorb_concat(0, r, a + c, lengths);
    assert((a + c) + lengths =~= mac_data(ad, ct));
}

/// The block that closes what the tag authenticates: two lengths, eight
/// bytes each.
fn length_block(ad_len: usize, ct_len: usize) -> (lengths: Vec<u8>)
    ensures
        lengths@ == le_bytes(ad_len as nat, 8) + le_bytes(ct_len as nat, 8),
{
    let mut lengths: Vec<u8> = Vec::new();
    store_le(&mut lengths, ad_len as u128, 8);
    store_le(&mut lengths, ct_len as u128, 8);
    assert(lengths@ =~= le_bytes(ad_len as nat, 8) + le_bytes(ct_len as nat, 8));
    lengths
}

/// The tag of the construction under the stream key `key` and the 12-byte
/// stream nonce `nonce`.
#[verifier::rlimit(40)]
fn authenticate(key: &[u8], nonce: &[u8], ad: &[u8], ct: &[u8]) -> (tag: Vec<u8>)
    requires
        key@.len() == 32,
        nonce@.len() == 12,
    ensures
        tag@ == tag_of(one_time_key(key@, nonce@), mac_data(ad@, ct@)),
{
    let mut otk = key_stream_block(key, 0, nonce);
    otk.truncate(32);
    let mut st = Poly1305::new(otk.as_slice());
    wipe_bytes(&mut otk);
    let lengths = length_block(ad.len(), ct.len());
    proof {
        lemma_absorb_mac_data(st.multiplier(), ad@, ct@, lengths@);
    }
    st.absorb_padded(ad);
    st.absorb_padded(ct);
    st.absorb_padded(lengths.as_slice());
    st.finish()
}

/// The 12-byte nonce that the stream cipher runs under where the nonce has
/// 24 bytes: four zero bytes and the last eight of the nonce.
fn short_nonce(nonce: &[u8]) -> (n: Vec<u8>)
    requires
        nonce@.len() == 24,
    ensures
        n@ == stream_nonce(Implementation::PortableXChaCha20Poly1305, nonce@),
        n@.len() == 12,
{
    let mut n: Vec<u8> = Vec::new();
    n.push(0);
    n.push(0);
    n.push(0);
    n.push(0);
    n.extend_from_slice(slice_subrange(nonce, 16, 24));
    assert(n@ =~= stream_nonce(Implementation::PortableXChaCha20Poly1305, nonce@));
    n
}

/// Encrypts under the 32-byte stream key `key` and the 12-byte stream nonce
/// `nonce`.
fn seal_under(key: &[u8], nonce: &[u8], ad: &[u8], pt: &[u8]) -> (r: (Vec<u8>, Vec<u8>))
    requires
        key@.len() == 32,
        nonce@.len() == 12,
        pt@.len() <= MAX_STREAM_LEN,
    ensures
        r.0@ == xor_stream(key@, nonce@, 1, pt@),
        r.1@ == tag_of(one_time_key(key@, nonce@), mac_data(ad@, r.0@)),
{
    let ct = apply_key_stream(key, nonce, 1, pt);
    let tag = authenticate(key, nonce, ad, ct.as_slice());
    (ct, tag)
}

/// Decrypts under the 32-byte stream key `key` and the 12-byte stream nonce
/// `nonce`, if `tag` is the tag of `ad` and `ct`.
fn open_under(key: &[u8], nonce: &[u8], ad: &[u8], ct: &[u8], tag: &[u8]) -> (r: Option<Vec<u8>>)
    requires
        key@.len() == 32,
        nonce@.len() == 12,
        ct@.len() <= MAX_STREAM_LEN,
    ensures
        match r {
            Some(pt) => {
                &&& tag@ == tag_of(one_time_key(key@, nonce@), mac_data(ad@, ct@))
                &&& pt@ == xor_stream(key@, nonce@, 1, ct@)
            },
            None => tag@ != tag_of(one_time_key(key@, nonce@), mac_data(ad@, ct@)),
        },
{
    let expected = authenticate(key, nonce, ad, ct);
    if bytes_equal(expected.as_slice(), tag) {
        Some(apply_key_stream(key, nonce, 1, ct))
    } else {
        None
    }
}

/// The key material that a session of `imp` keeps: a copy of the key, in
/// storage of its own.
pub fn expand_key(imp: Implementation, key: &[u8]) -> (ek: OwnedBuffer)
    requires
        key@.len() == key_len_of(imp),
    ensures
        ek.is_live(),
        ek@ == key@,
{
    OwnedBuffer::copy_of(key)
}

/// Encrypts `pt` and authenticates it together with `ad`. Gives the
/// ciphertext and the tag. A key derived on the way is overwritten with
/// zeros before the call returns.
pub fn seal(imp: Implementation, key: &[u8], nonce: &[u8], ad: &[u8], pt: &[u8]) -> (r: (
    Vec<u8>,
    Vec<u8>,
))
    requires
        accepts(imp, key@, nonce@, pt@.len()),
    ensures
        r.0@ == sealed_text(imp, key@, nonce@, pt@),
        r.1@ == sealed_tag(imp, key@, nonce@, ad@, r.0@),
        r.0@.len() == pt@.len(),
        r.1@.len() == tag_len_of(imp),
{
    proof {
        lemma_sealed_lengths(imp, key@, nonce@, ad@, pt@);
        lemma_sealed_lengths(imp, key@, nonce@, ad@, sealed_text(imp, key@, nonce@, pt@));
    }
    match imp {
        Implementation::PortableChaCha20Poly1305 => seal_under(key, nonce, ad, pt),
        Implementation::PortableXChaCha20Poly1305 => {
            let mut derived = derive_key(key, slice_subrange(nonce, 0, 16));
            let n = short_nonce(nonce);
            let r = seal_under(derived.as_slice(), n.as_slice(), ad, pt);
            wipe_bytes(&mut derived);
            r
        },
    }
}

/// Checks `tag` against `ad` and `ct`, and only if it is the right one
/// decrypts `ct`. The comparison reads both tags to the end. A key derived
/// on the way is overwritten with zeros before the call returns.
pub fn open(imp: Implementation, key: &[u8], nonce: &[u8], ad: &[u8], ct: &[u8], tag: &[u8]) -> (r:
    Option<Vec<u8>>)
    requires
        accepts(imp, key@, nonce@, ct@.len()),
    ensures
        match r {
            Some(pt) => {
                &&& tag@ == sealed_tag(imp, key@, nonce@, ad@, ct@)
                &&& pt@ == opened_text(imp, key@, nonce@, ct@)
                &&& pt@.len() == ct@.len()
            },
            None => tag@ != sealed_tag(imp, key@, nonce@, ad@, ct@),
        },
{
    proof {
        lemma_sealed_lengths(imp, key@, nonce@, ad@, ct@);
    }
    match imp {
        Implementation::PortableChaCha20Poly1305 => open_under(key, nonce, ad, ct, tag),
        Implementation::PortableXChaCha20Poly1305 => {
            let mut derived = derive_key(key, slice_subrange(nonce, 0, 16));
            let n = short_nonce(nonce);
            let r = open_under(derived.as_slice(), n.as_slice(), ad, ct, tag);
            wipe_bytes(&mut derived);
            r
        },
    }
}

} // verus!
