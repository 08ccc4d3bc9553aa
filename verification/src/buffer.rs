//! Ownership transfer for engine-allocated buffers.
//!
//! A materialization or rasterization allocates memory that the caller must
//! later release, exactly once. The registry models that contract: handing
//! a buffer over yields an opaque token, and the paired release gives the
//! buffer back and retires the token. A token releases at most once —
//! releasing it again is reported as an error, never honoured — and a
//! token that was never issued is refused. Omitting the release leaks the
//! buffer by design; that is the caller's documented obligation.

use vstd::prelude::*;

verus! {

/// Why a release was refused.
#[derive(Clone, Copy, PartialEq, Eq, Structural, Debug)]
pub enum BufferError {
    /// The token was never issued by this registry.
    UnknownToken,
    /// The buffer the token names was already released.
    AlreadyReleased,
}

/// The registry of transferred buffers: one slot per issued token, emptied
/// when the token is released.
pub struct TransferRegistry<T> {
    pub slots: Vec<Option<T>>,
}

/// `token` currently names an unreleased buffer.
pub open spec fn spec_release_ok<T>(slots: Seq<Option<T>>, token: int) -> bool {
    0 <= token < slots.len() && slots[token] is Some
}

impl<T> TransferRegistry<T> {
    /// A fresh registry with no outstanding buffer.
    pub fn new() -> (r: Self)
        ensures
            r.slots@ == Seq::<Option<T>>::empty(),
    {
        TransferRegistry { slots: Vec::new() }
    }

    /// Number of tokens ever issued.
    pub fn issued(&self) -> (r: usize)
        ensures
            r == self.slots@.len(),
    {
        self.slots.len()
    }

    /// Hands a buffer over, returning the fresh token that alone can
    /// release it.
    pub fn transfer_out(&mut self, buf: T) -> (token: usize)
        ensures
            token == old(self).slots@.len(),
            final(self).slots@ == old(self).slots@.push(Some(buf)),
            spec_release_ok(final(self).slots@, token as int),
    {
        let token = self.slots.len();
        self.slots.push(Some(buf));
        token
    }

    /// Releases the buffer a token names and retires the token.
    ///
    /// Succeeds exactly once per issued token: it returns the transferred
    /// buffer itself and empties the slot, so a second release of the same
    /// token reports `AlreadyReleased`; a token never issued reports
    /// `UnknownToken`. A failed release changes nothing.
    pub fn release(&mut self, token: usize) -> (r: Result<T, BufferError>)
        ensures
            match r {
                Ok(buf) => {
                    &&& spec_release_ok(old(self).slots@, token as int)
                    &&& old(self).slots@[token as int] == Some(buf)
                    &&& final(self).slots@ == old(self).slots@.update(token as int, None)
                },
                Err(BufferError::UnknownToken) => {
                    &&& token >= old(self).slots@.len()
                    &&& final(self).slots@ == old(self).slots@
                },
                Err(BufferError::AlreadyReleased) => {
                    &&& token < old(self).slots@.len()
                    &&& old(self).slots@[token as int] is None
                    &&& final(self).slots@ == old(self).slots@
                },
            },
            r is Ok <==> spec_release_ok(old(self).slots@, token as int),
    {
        if token >= self.slots.len() {
            return Err(BufferError::UnknownToken);
        }
        let mut taken: Option<T> = None;
        core::mem::swap(&mut self.slots[token], &mut taken);
        match taken {
            Some(buf) => Ok(buf),
            None => {
                proof {
                    assert(self.slots@ =~= old(self).slots@);
                }
                Err(BufferError::AlreadyReleased)
            },
        }
    }
}

/// Law: transfer and release pair up — the token a transfer hands out
/// names exactly the transferred buffer, and releasing it yields that
/// buffer.
pub proof fn lemma_transfer_then_release<T>(slots: Seq<Option<T>>, buf: T)
    ensures
        spec_release_ok(slots.push(Some(buf)), slots.len() as int),
        slots.push(Some(buf))[slots.len() as int] == Some(buf),
{
}

/// Law: a buffer is released at most once — once a release of a token has
/// succeeded, no further release of that token can succeed.
pub proof fn lemma_release_exactly_once<T>(slots: Seq<Option<T>>, token: int)
    requires
        spec_release_ok(slots, token),
    ensures
        !spec_release_ok(slots.update(token, None), token),
{
}

} // verus!
