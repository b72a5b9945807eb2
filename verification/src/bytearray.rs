//! Buffer over owned growable storage: a write past the end extends the
//! storage (zero-filling any gap below the cursor) instead of failing.

use vstd::prelude::*;

verus! {

use crate::buffer::splice;
use crate::buffer::Buffer;
use crate::BufferError;
use crate::Endianess;

/// Byte buffer with owned storage that grows on writes past the end.
pub struct ByteArray {
    position: usize,
    pub buffer: Vec<u8>,
    pub endianess: Endianess,
}

impl ByteArray {
    /// A zero-filled buffer of `start_size` bytes with the cursor at the
    /// start; the storage grows as writes run past its end.
    pub fn new(start_size: usize, endianess: Endianess) -> (r: ByteArray)
        ensures
            r.bytes() =~= Seq::new(start_size as nat, |i: int| 0u8),
            r.cursor() == 0,
            r.endian() == endianess,
            r.growable(),
    {
        let mut buffer: Vec<u8> = Vec::new();
        let mut i: usize = 0;
        while i < start_size
            invariant
                i <= start_size,
                buffer@ =~= Seq::new(i as nat, |j: int| 0u8),
            decreases start_size - i,
        {
            buffer.push(0u8);
            i += 1;
        }
        ByteArray { position: 0, buffer, endianess }
    }

    /// Stores one byte at the cursor and advances the cursor by one,
    /// growing the storage first when the cursor is at or past its end.
    pub fn write_u8(&mut self, v: u8) -> (r: Result<(), BufferError>)
        requires
            old(self).cursor() < usize::MAX,
        ensures
            final(self).endian() == old(self).endian(),
            final(self).growable() == old(self).growable(),
            r is Ok,
            final(self).bytes() == splice(old(self).bytes(), old(self).cursor(), seq![v]),
            final(self).cursor() == old(self).cursor() + 1,
    {
        if self.position < self.buffer.len() {
            self.buffer[self.position] = v;
            proof {
                assert(self.buffer@ =~= splice(old(self).bytes(), old(self).cursor(), seq![v]));
            }
        } else {
            while self.buffer.len() < self.position
                invariant
                    self.position == old(self).position,
                    self.endianess == old(self).endianess,
                    old(self).buffer@.len() <= self.buffer@.len() <= self.position,
                    self.buffer@ =~= old(self).buffer@ + Seq::new(
                        (self.buffer@.len() - old(self).buffer@.len()) as nat,
                        |j: int| 0u8,
                    ),
                decreases self.position - self.buffer.len(),
            {
                self.buffer.push(0u8);
            }
            self.buffer.push(v);
            proof {
                assert(self.buffer@ =~= splice(old(self).bytes(), old(self).cursor(), seq![v]));
            }
        }
        self.position = self.position + 1;
        Ok(())
    }
}

impl Buffer for ByteArray {
    closed spec fn bytes(&self) -> Seq<u8> {
        self.buffer@
    }

    closed spec fn cursor(&self) -> nat {
        self.position as nat
    }

    closed spec fn endian(&self) -> Endianess {
        self.endianess
    }

    open spec fn growable(&self) -> bool {
        true
    }

    fn len(&self) -> (r: usize) {
        self.buffer.len()
    }

    fn pos(&self) -> (r: usize) {
        self.position
    }

    fn set_pos(&mut self, p: usize) {
        self.position = p;
    }

    fn endianess(&self) -> (r: Endianess) {
        self.endianess
    }

    fn is_growable(&self) -> (r: bool) {
        true
    }

    fn write_u8(&mut self, v: u8) -> (r: Result<(), BufferError>) {
        ByteArray::write_u8(self, v)
    }

    fn read_u8(&mut self) -> (r: Result<u8, BufferError>) {
        if self.position < self.buffer.len() {
            let b = self.buffer[self.position];
            self.position = self.position + 1;
            Ok(b)
        } else {
            Err(BufferError::BoundsExceeded)
        }
    }
}

} // verus!
