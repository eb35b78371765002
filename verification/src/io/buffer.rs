//! Buffers that size themselves to the message they are to hold.
use vstd::prelude::*;

verus! {

/// What a buffer holds once it was made to hold `len` bytes: as much of
/// its old content as fits, then zeros.
pub open spec fn resized(old: Seq<u8>, len: nat) -> Seq<u8> {
    Seq::new(
        len,
        |i: int|
            if i < old.len() {
                old[i]
            } else {
                0u8
            },
    )
}

/// A buffer that can be made to hold a message of a given length.
pub trait AllocateBuf: Sized {
    /// Whether this buffer can be made to hold `len` bytes.
    spec fn can_hold(&self, len: nat) -> bool;

    /// Makes room for exactly `blob_len` bytes and lends them out, or gives
    /// `None` where the buffer cannot hold that many.
    fn reserve(&mut self, blob_len: i32) -> (r: Option<&mut [u8]>)
        requires
            blob_len >= 0,
        ensures
            r is Some <==> old(self).can_hold(blob_len as nat),
            r matches Some(room) ==> room@.len() == blob_len,
    ;
}

/// Sets the length of `buf` to `len`, keeping what fits and filling up
/// with zeros.
pub fn fit(buf: &mut Vec<u8>, len: usize)
    ensures
        final(buf)@ == resized(old(buf)@, len as nat),
{
    buf.resize(len, 0u8);
    proof {
        assert(buf@ =~= resized(old(buf)@, len as nat));
    }
}

/// A vector grows or shrinks to the length asked for, and never refuses.
impl AllocateBuf for Vec<u8> {
    open spec fn can_hold(&self, len: nat) -> bool {
        true
    }

    fn reserve(&mut self, blob_len: i32) -> (r: Option<&mut [u8]>) {
        fit(self, blob_len as usize);
        Some(self.as_mut_slice())
    }
}

/// An empty slot is filled with a new vector on the first call; a vector
/// that is there already is resized. Neither ever refuses.
impl AllocateBuf for Option<Vec<u8>> {
    open spec fn can_hold(&self, len: nat) -> bool {
        true
    }

    fn reserve(&mut self, blob_len: i32) -> (r: Option<&mut [u8]>)
        ensures
            r matches Some(room) && room@ == resized(
                match *old(self) {
                    Some(v) => v@,
                    None => Seq::empty(),
                },
                blob_len as nat,
            ) && (*final(self) matches Some(v) && v@ == final(room)@),
    {
        if self.is_none() {
            *self = Some(Vec::new());
        }
        match self {
            Some(buf) => {
                fit(buf, blob_len as usize);
                Some(buf.as_mut_slice())
            },
            None => None,
        }
    }
}

} // verus!
