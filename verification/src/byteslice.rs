//! Buffer over a borrowed mutable byte slice: the caller owns the storage,
//! the buffer never allocates, and writes past the end are refused with
//! [`BufferError::BoundsExceeded`].

use vstd::prelude::*;

verus! {

use crate::buffer::splice;
use crate::buffer::Buffer;
use crate::BufferError;
use crate::Endianess;

/// Byte buffer over a caller-owned mutable byte slice of fixed size.
pub struct ByteSlice<'a> {
    position: usize,
    pub buffer: &'a mut [u8],
    pub endianess: Endianess,
}

/// Relies on the indexing operator of the primitive slice type to store one
/// byte in place; vstd specifies slice reads but not slice element writes.
#[verifier::external_body]
fn slice_set(s: &mut [u8], i: usize, v: u8)
    requires
        i < old(s)@.len(),
    ensures
        final(s)@ == old(s)@.update(i as int, v),
{
    s[i] = v;
}

impl<'a> ByteSlice<'a> {
    /// A buffer borrowing `slice` as its storage, cursor at the start.
    pub fn new(slice: &'a mut [u8], endianess: Endianess) -> (r: ByteSlice<'a>)
        ensures
            r.bytes() == old(slice)@,
            r.cursor() == 0,
            r.endian() == endianess,
            !r.growable(),
    {
        ByteSlice { position: 0, buffer: slice, endianess }
    }

    /// Stores one byte at the cursor and advances the cursor by one; fails
    /// with [`BufferError::BoundsExceeded`] at or beyond the end of storage.
    pub fn write_u8(&mut self, v: u8) -> (r: Result<(), BufferError>)
        ensures
            final(self).endian() == old(self).endian(),
            final(self).growable() == old(self).growable(),
            r is Ok <==> old(self).cursor() < old(self).bytes().len(),
            r is Ok ==> final(self).bytes() == splice(
                old(self).bytes(),
                old(self).cursor(),
                seq![v],
            ) && final(self).cursor() == old(self).cursor() + 1,
            r is Err ==> r == Err::<(), BufferError>(BufferError::BoundsExceeded)
                && final(self).bytes() == old(self).bytes()
                && final(self).cursor() == old(self).cursor(),
    {
        if self.position < self.buffer.len() {
            slice_set(self.buffer, self.position, v);
            proof {
                assert(self.buffer@ =~= splice(old(self).bytes(), old(self).cursor(), seq![v]));
            }
            self.position = self.position + 1;
            Ok(())
        } else {
            Err(BufferError::BoundsExceeded)
        }
    }
}

impl<'a> Buffer for ByteSlice<'a> {
    closed spec fn bytes(&self) -> Seq<u8> {
        self.buffer@
    }

    closed spec fn cursor(&self) -> nat {
        self.position as nat
    }

    closed spec fn endian(&self) -> Endianess {
        self.endianess
    }

    open spec fn growable(&self) -> bool {
        false
    }

    fn len(&self) -> (r: usize) {
        self.buffer.len()
    }

    fn pos(&self) -> (r: usize) {
        self.position
    }

    fn set_pos(&mut self, p: usize) {
        self.position = p;
    }

    fn endianess(&self) -> (r: Endianess) {
        self.endianess
    }

    fn is_growable(&self) -> (r: bool) {
        false
    }

    fn write_u8(&mut self, v: u8) -> (r: Result<(), BufferError>) {
        ByteSlice::write_u8(self, v)
    }

    fn read_u8(&mut self) -> (r: Result<u8, BufferError>) {
        if self.position < self.buffer.len() {
            let b = self.buffer[self.position];
            self.position = self.position + 1;
            Ok(b)
        } else {
            Err(BufferError::BoundsExceeded)
        }
    }
}

} // verus!
