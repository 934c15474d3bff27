//! The session: a key bound to an algorithm, and the four operations on it.
//!
//! A session is created from a key, encrypts and decrypts any number of
//! messages in any order, and is destroyed once. `destroy` takes the session
//! by value, so nothing can use it afterwards, and the type cannot be copied.
//! The key is overwritten by `destroy`, not by letting the session go out of
//! scope.

use crate::backend::{accepts, expand_key, open, opened_text, seal, sealed_tag, sealed_text};
use crate::error::AeadError;
use crate::memory::{free, zeros, OwnedBuffer};
use crate::registry::{
    check_lengths, implementation_for, implementation_of, length_check, params_for, params_of,
    AlgorithmId, Implementation,
};
use vstd::prelude::*;

verus! {

/// What `encrypt` produces: the ciphertext, as long as the plaintext, and the
/// tag.
#[derive(Clone, Debug, PartialEq, Eq)]
pub struct CiphertextRecord {
    pub ciphertext: Vec<u8>,
    pub tag: Vec<u8>,
}

/// What `create` gives for a key of `key_len` bytes.
pub open spec fn create_check(id: AlgorithmId, key_len: nat) -> Result<(), AeadError> {
    if key_len == params_of(id).key_len {
        Ok(())
    } else {
        Err(AeadError::InvalidKeyLength)
    }
}

/// What `encrypt` gives: the first length fault if there is one, else the
/// ciphertext and the tag.
pub open spec fn encrypt_model(
    id: AlgorithmId,
    key: Seq<u8>,
    nonce: Seq<u8>,
    ad: Seq<u8>,
    pt: Seq<u8>,
) -> Result<(Seq<u8>, Seq<u8>), AeadError> {
    match length_check(params_of(id), nonce.len(), ad.len(), pt.len()) {
        Err(e) => Err(e),
        Ok(_) => {
            let ct = sealed_text(implementation_of(id), key, nonce, pt);
            Ok((ct, sealed_tag(implementation_of(id), key, nonce, ad, ct)))
        },
    }
}

/// What `decrypt` gives: the first length fault if there is one, else
/// `AuthenticationFailure` unless `tag` is the tag of `ad` and `ct`, else the
/// plaintext.
pub open spec fn decrypt_model(
    id: AlgorithmId,
    key: Seq<u8>,
    nonce: Seq<u8>,
    ad: Seq<u8>,
    ct: Seq<u8>,
    tag: Seq<u8>,
) -> Result<Seq<u8>, AeadError> {
    match length_check(params_of(id), nonce.len(), ad.len(), ct.len()) {
        Err(e) => Err(e),
        Ok(_) => {
            if tag == sealed_tag(implementation_of(id), key, nonce, ad, ct) {
                Ok(opened_text(implementation_of(id), key, nonce, ct))
            } else {
                Err(AeadError::AuthenticationFailure)
            }
        },
    }
}

/// The state of a session: the algorithm, the implementation bound to it,
/// and the key material in storage that the session alone owns.
#[allow(non_camel_case_types)]
pub struct EverCrypt_AEAD_state_s {
    algorithm: AlgorithmId,
    implementation: Implementation,
    ek: OwnedBuffer,
}

/// The state of a session, by its shorter name.
pub type SessionState = EverCrypt_AEAD_state_s;

impl EverCrypt_AEAD_state_s {
    /// The key is held, has the algorithm's length, and the implementation
    /// is the algorithm's.
    #[verifier::type_invariant]
    closed spec fn inv(&self) -> bool {
        &&& self.ek.is_live()
        &&& self.ek@.len() == params_of(self.algorithm).key_len
        &&& self.implementation == implementation_of(self.algorithm)
    }

    /// The algorithm the session was created for.
    pub closed spec fn algorithm_id(&self) -> AlgorithmId {
        self.algorithm
    }

    /// The implementation bound to the session.
    pub closed spec fn implementation_selector(&self) -> Implementation {
        self.implementation
    }

    /// The key the session holds.
    pub closed spec fn key_material(&self) -> Seq<u8> {
        self.ek@
    }

    /// A session for `id` under a copy of `key`; `InvalidKeyLength` unless
    /// `key` has the length that `id` fixes.
    pub fn create(id: AlgorithmId, key: &[u8]) -> (r: Result<EverCrypt_AEAD_state_s, AeadError>)
        ensures
            match r {
                Ok(s) => {
                    &&& create_check(id, key@.len()) is Ok
                    &&& s.algorithm_id() == id
                    &&& s.implementation_selector() == implementation_of(id)
                    &&& s.key_material() == key@
                },
                Err(e) => create_check(id, key@.len()) == Err::<(), AeadError>(e),
            },
    {
        let params = params_for(id);
        if key.len() != params.key_len {
            return Err(AeadError::InvalidKeyLength);
        }
        let implementation = implementation_for(id);
        let ek = expand_key(implementation, key);
        Ok(EverCrypt_AEAD_state_s { algorithm: id, implementation, ek })
    }

    /// The algorithm the session was created for.
    pub fn algorithm(&self) -> (id: AlgorithmId)
        ensures
            id == self.algorithm_id(),
    {
        self.algorithm
    }

    /// The implementation bound to the session.
    pub fn implementation(&self) -> (imp: Implementation)
        ensures
            imp == self.implementation_selector(),
            imp == implementation_of(self.algorithm_id()),
    {
        proof {
            use_type_invariant(self);
        }
        self.implementation
    }

    /// Encrypts `plaintext` and authenticates it together with
    /// `associated_data`. The lengths are checked before anything is
    /// computed. The session is not changed; a nonce must not be used twice
    /// under one key, and the session does not watch over that.
    pub fn encrypt(&self, nonce: &[u8], associated_data: &[u8], plaintext: &[u8]) -> (r: Result<
        CiphertextRecord,
        AeadError,
    >)
        ensures
            match r {
                Ok(record) => {
                    &&& encrypt_model(
                        self.algorithm_id(),
                        self.key_material(),
                        nonce@,
                        associated_data@,
                        plaintext@,
                    ) == Ok::<(Seq<u8>, Seq<u8>), AeadError>((record.ciphertext@, record.tag@))
                    &&& record.ciphertext@.len() == plaintext@.len()
                    &&& record.tag@.len() == params_of(self.algorithm_id()).tag_len
                },
                Err(e) => encrypt_model(
                    self.algorithm_id(),
                    self.key_material(),
                    nonce@,
                    associated_data@,
                    plaintext@,
                ) == Err::<(Seq<u8>, Seq<u8>), AeadError>(e),
            },
    {
        proof {
            use_type_invariant(self);
        }
        let params = params_for(self.algorithm);
        match check_lengths(
            &params,
            nonce.len(),
            associated_data.len() as u64,
            plaintext.len() as u64,
        ) {
            Err(e) => Err(e),
            Ok(_) => {
                match self.ek.read() {
                    Ok(key) => {
                        let (ciphertext, tag) = seal(
                            self.implementation,
                            key,
                            nonce,
                            associated_data,
                            plaintext,
                        );
                        Ok(CiphertextRecord { ciphertext, tag })
                    },
                    // A session holds its key until it is destroyed.
                    Err(e) => Err(e),
                }
            },
        }
    }

    /// Checks `tag` against `associated_data` and `ciphertext`, and gives
    /// the plaintext if it is the right one. No plaintext is computed before
    /// the tag has been found right.
    pub fn decrypt(
        &self,
        nonce: &[u8],
        associated_data: &[u8],
        ciphertext: &[u8],
        tag: &[u8],
    ) -> (r: Result<Vec<u8>, AeadError>)
        ensures
            match r {
                Ok(plaintext) => {
                    &&& decrypt_model(
                        self.algorithm_id(),
                        self.key_material(),
                        nonce@,
                        associated_data@,
                        ciphertext@,
                        tag@,
                    ) == Ok::<Seq<u8>, AeadError>(plaintext@)
                    &&& plaintext@.len() == ciphertext@.len()
                },
                Err(e) => decrypt_model(
                    self.algorithm_id(),
                    self.key_material(),
                    nonce@,
                    associated_data@,
                    ciphertext@,
                    tag@,
                ) == Err::<Seq<u8>, AeadError>(e),
            },
    {
        proof {
            use_type_invariant(self);
        }
        let params = params_for(self.algorithm);
        match check_lengths(
            &params,
            nonce.len(),
            associated_data.len() as u64,
            ciphertext.len() as u64,
        ) {
            Err(e) => Err(e),
            Ok(_) => {
                match self.ek.read() {
                    Ok(key) => {
                        match open(
                            self.implementation,
                            key,
                            nonce,
                            associated_data,
                            ciphertext,
                            tag,
                        ) {
                            Some(plaintext) => Ok(plaintext),
                            None => Err(AeadError::AuthenticationFailure),
                        }
                    },
                    // A session holds its key until it is destroyed.
                    Err(e) => Err(e),
                }
            },
        }
    }

    /// Ends the session and hands out its key storage, every byte of it
    /// overwritten with zero and not yet released.
    pub fn wipe_key(self) -> (residue: OwnedBuffer)
        ensures
            residue.is_live(),
            residue@ == zeros(self.key_material().len()),
            residue@.len() == params_of(self.algorithm_id()).key_len,
    {
        proof {
            use_type_invariant(&self);
        }
        let EverCrypt_AEAD_state_s { algorithm: _, implementation: _, ek } = self;
        let mut ek = ek;
        ek.wipe();
        ek
    }

    /// Ends the session: overwrites the key with zeros, then releases its
    /// storage.
    pub fn destroy(self) {
        let mut residue = self.wipe_key();
        free(&mut residue);
    }
}

} // verus!
