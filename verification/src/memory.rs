//! Ownership of secret storage, and its release.
//!
//! Every buffer that holds key material, or that crosses the boundary to a
//! caller in another runtime, is an `OwnedBuffer`. It has one owner. Its
//! storage is given back through `free`, which first overwrites it with
//! zeros, and which does nothing to a handle that owns no storage.
//!
//! Only `free` and `release` overwrite. A handle that goes out of scope while
//! it still owns storage gives it back as it is: release it first, or, where
//! a session holds it, destroy the session.

use crate::error::AeadError;
use vstd::prelude::*;

verus! {

/// `n` zero bytes.
pub open spec fn zeros(n: nat) -> Seq<u8> {
    Seq::new(n, |i: int| 0u8)
}

/// Overwrites every byte of `bytes` with zero. The length stays.
pub fn wipe_bytes(bytes: &mut Vec<u8>)
    ensures
        final(bytes)@ == zeros(old(bytes)@.len()),
{
    let n = bytes.len();
    let mut i: usize = 0;
    while i < n
        invariant
            i <= n == bytes@.len(),
            n == old(bytes)@.len(),
            forall|k: int| 0 <= k < i ==> bytes@[k] == 0,
        decreases n - i,
    {
        bytes[i] = 0;
        i = i + 1;
    }
    assert(bytes@ =~= zeros(n as nat));
}

/// A handle to storage that it alone owns, or to none.
pub struct OwnedBuffer {
    storage: Option<Vec<u8>>,
}

impl View for OwnedBuffer {
    type V = Seq<u8>;

    /// The bytes held; none where the handle owns no storage.
    closed spec fn view(&self) -> Seq<u8> {
        match self.storage {
            Some(bytes) => bytes@,
            None => Seq::empty(),
        }
    }
}

impl OwnedBuffer {
    /// Whether the handle still owns storage.
    pub closed spec fn is_live(&self) -> bool {
        self.storage is Some
    }

    /// The handle that owns no storage.
    pub fn null() -> (b: OwnedBuffer)
        ensures
            !b.is_live(),
            b@ == Seq::<u8>::empty(),
    {
        OwnedBuffer { storage: None }
    }

    /// A buffer of its own with a copy of `src`. The copy shares nothing with
    /// `src`.
    pub fn copy_of(src: &[u8]) -> (b: OwnedBuffer)
        ensures
            b.is_live(),
            b@ == src@,
    {
        let n = src.len();
        let mut bytes: Vec<u8> = Vec::with_capacity(n);
        let mut i: usize = 0;
        while i < n
            invariant
                i <= n == src@.len(),
                bytes@ == src@.subrange(0, i as int),
            decreases n - i,
        {
            bytes.push(src[i]);
            i = i + 1;
            assert(bytes@ =~= src@.subrange(0, i as int));
        }
        assert(src@.subrange(0, n as int) =~= src@);
        OwnedBuffer { storage: Some(bytes) }
    }

    /// Whether the handle still owns storage.
    pub fn owns_storage(&self) -> (live: bool)
        ensures
            live == self.is_live(),
    {
        self.storage.is_some()
    }

    /// The number of bytes held.
    pub fn len(&self) -> (n: usize)
        ensures
            n == self@.len(),
    {
        match &self.storage {
            Some(bytes) => bytes.len(),
            None => 0,
        }
    }

    /// The bytes held; `MisuseAfterDestroy` where the handle owns no storage.
    pub fn read(&self) -> (r: Result<&[u8], AeadError>)
        ensures
            match r {
                Ok(bytes) => self.is_live() && bytes@ == self@,
                Err(e) => !self.is_live() && e == AeadError::MisuseAfterDestroy,
            },
    {
        match &self.storage {
            Some(bytes) => Ok(bytes.as_slice()),
            None => Err(AeadError::MisuseAfterDestroy),
        }
    }

    /// Overwrites every byte held with zero. The storage stays.
    pub fn wipe(&mut self)
        ensures
            final(self).is_live() == old(self).is_live(),
            final(self)@ == zeros(old(self)@.len()),
    {
        match self.storage.take() {
            Some(bytes) => {
                let mut bytes = bytes;
                wipe_bytes(&mut bytes);
                self.storage = Some(bytes);
            },
            None => {
                assert(self@ =~= zeros(0));
            },
        }
    }

    /// Overwrites the bytes held with zero, then gives the storage back. A
    /// handle that owns none is left as it is. That the bytes are zero when
    /// the storage goes is proved; that the stores reach memory is up to the
    /// compiler.
    pub fn release(&mut self)
        ensures
            !final(self).is_live(),
            final(self)@ == Seq::<u8>::empty(),
            !old(self).is_live() ==> *final(self) == *old(self),
    {
        if self.storage.is_some() {
            self.wipe();
            self.storage = None;
        }
    }
}

/// Releases the storage behind `p`, overwritten with zeros first. Releasing
/// a handle that owns none, because it never did or because it was released
/// before, does nothing.
pub fn free(p: &mut OwnedBuffer)
    ensures
        !final(p).is_live(),
        final(p)@ == Seq::<u8>::empty(),
        !old(p).is_live() ==> *final(p) == *old(p),
{
    p.release();
}

} // verus!
