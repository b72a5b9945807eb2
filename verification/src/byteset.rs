//! Buffer over owned storage of a fixed size: writes past the end are
//! refused with [`BufferError::BoundsExceeded`].

use vstd::prelude::*;

verus! {

use crate::buffer::splice;
use crate::buffer::Buffer;
use crate::codec::enc_seq;
use crate::codec::lemma_enc_seq_len;
use crate::BufferError;
use crate::Endianess;
use vstd::string::StringSliceAdditionalSpecFns;

/// Byte buffer with fixed-size owned storage.
pub struct ByteSet {
    position: usize,
    pub buffer: Vec<u8>,
    pub endianess: Endianess,
}

impl ByteSet {
    /// A zero-filled buffer of `size` bytes with the cursor at the start.
    pub fn new(size: usize, endianess: Endianess) -> (r: ByteSet)
        ensures
            r.bytes() =~= Seq::new(size as nat, |i: int| 0u8),
            r.cursor() == 0,
            r.endian() == endianess,
            !r.growable(),
    {
        let mut buffer: Vec<u8> = Vec::new();
        let mut i: usize = 0;
        while i < size
            invariant
                i <= size,
                buffer@ =~= Seq::new(i as nat, |j: int| 0u8),
            decreases size - i,
        {
            buffer.push(0u8);
            i += 1;
        }
        ByteSet { position: 0, buffer, endianess }
    }

    /// A buffer that takes `vec` as its storage, cursor at the start.
    pub fn from_vec(vec: Vec<u8>, endianess: Endianess) -> (r: ByteSet)
        ensures
            r.bytes() == vec@,
            r.cursor() == 0,
            r.endian() == endianess,
            !r.growable(),
    {
        ByteSet { position: 0, buffer: vec, endianess }
    }

    /// Stores one byte at the cursor and advances the cursor by one; fails
    /// with [`BufferError::BoundsExceeded`] at or beyond the end of storage.
    pub fn write_u8(&mut self, v: u8) -> (r: Result<(), BufferError>)
        ensures
            final(self).endian() == old(self).endian(),
            final(self).growable() == old(self).growable(),
            r is Ok <==> old(self).cursor() < old(self).bytes().len(),
            r is Ok ==> final(self).bytes() == splice(
                old(self).bytes(),
                old(self).cursor(),
                seq![v],
            ) && final(self).cursor() == old(self).cursor() + 1,
            r is Err ==> r == Err::<(), BufferError>(BufferError::BoundsExceeded)
                && final(self).bytes() == old(self).bytes()
                && final(self).cursor() == old(self).cursor(),
    {
        if self.position < self.buffer.len() {
            self.buffer[self.position] = v;
            proof {
                assert(self.buffer@ =~= splice(
                    old(self).bytes(),
                    old(self).cursor(),
                    seq![v],
                ));
            }
            self.position = self.position + 1;
            Ok(())
        } else {
            Err(BufferError::BoundsExceeded)
        }
    }

    /// Extends this buffer with the full storage of `v`, byte by byte,
    /// starting at the cursor; `v` itself is left unchanged and its cursor
    /// plays no part.
    pub fn append(&mut self, v: &ByteSet) -> (r: Result<(), BufferError>)
        ensures
            final(self).endian() == old(self).endian(),
            final(self).growable() == old(self).growable(),
            r is Ok <==> v.bytes().len() == 0
                || old(self).cursor() + v.bytes().len() <= old(self).bytes().len(),
            r is Ok ==> final(self).bytes() == splice(
                old(self).bytes(),
                old(self).cursor(),
                v.bytes(),
            ) && final(self).cursor() == old(self).cursor() + v.bytes().len(),
            r is Ok ==> final(self).bytes().len() == crate::buffer::spliced_len(
                old(self).bytes().len(),
                old(self).cursor(),
                v.bytes().len(),
            ),
            r is Err ==> r == Err::<(), BufferError>(BufferError::BoundsExceeded)
                && final(self).bytes() == old(self).bytes()
                && final(self).cursor() == old(self).cursor(),
    {
        self.write_u8_slice(v.buffer.as_slice())
    }

    /// A new buffer sized to hold the bytes of `self` followed by the
    /// bytes of `v`, with its cursor reset to the start; neither operand
    /// is changed.
    pub fn concat(&self, v: &ByteSet) -> (r: ByteSet)
        requires
            self.bytes().len() + v.bytes().len() <= usize::MAX,
        ensures
            r.bytes() == self.bytes() + v.bytes(),
            r.cursor() == 0,
            r.endian() == self.endian(),
            !r.growable(),
    {
        let mut b = ByteSet::new(self.len() + v.len(), self.endianess());
        let _ = b.write_u8_slice(self.buffer.as_slice());
        let _ = b.write_u8_slice(v.buffer.as_slice());
        b.set_pos(0);
        proof {
            assert(b.bytes() =~= self.bytes() + v.bytes());
        }
        b
    }

    /// A new buffer sized to hold the bytes of `self` followed by the raw
    /// UTF-8 bytes of `v`, with its cursor reset to the start.
    pub fn concat_str(&self, v: &str) -> (r: ByteSet)
        requires
            self.bytes().len() + v.spec_bytes().len() <= usize::MAX,
        ensures
            r.bytes() == self.bytes() + v.spec_bytes(),
            r.cursor() == 0,
            r.endian() == self.endian(),
            !r.growable(),
    {
        let mut b = ByteSet::new(self.len() + v.len(), self.endianess());
        let _ = b.write_u8_slice(self.buffer.as_slice());
        let _ = b.write_string(v);
        b.set_pos(0);
        proof {
            assert(b.bytes() =~= self.bytes() + v.spec_bytes());
        }
        b
    }

    /// A new buffer sized to hold the bytes of `self` followed by each
    /// byte of `v`, with its cursor reset to the start.
    pub fn concat_u8_vec(&self, v: &Vec<u8>) -> (r: ByteSet)
        requires
            self.bytes().len() + v@.len() <= usize::MAX,
        ensures
            r.bytes() == self.bytes() + v@,
            r.cursor() == 0,
            r.endian() == self.endian(),
            !r.growable(),
    {
        let mut b = ByteSet::new(self.len() + v.len(), self.endianess());
        let _ = b.write_u8_slice(self.buffer.as_slice());
        let _ = b.write_u8_vec(v);
        b.set_pos(0);
        proof {
            assert(b.bytes() =~= self.bytes() + v@);
        }
        b
    }

    /// A new buffer sized to hold the bytes of `self` followed by each
    /// element of `v` as one byte, with its cursor reset to the start.
    pub fn concat_i8_vec(&self, v: &Vec<i8>) -> (r: ByteSet)
        requires
            self.bytes().len() + v@.len() <= usize::MAX,
        ensures
            r.bytes() == self.bytes() + v@.map_values(|x: i8| x as u8),
            r.cursor() == 0,
            r.endian() == self.endian(),
            !r.growable(),
    {
        let mut b = ByteSet::new(self.len() + v.len(), self.endianess());
        let _ = b.write_u8_slice(self.buffer.as_slice());
        let _ = b.write_i8_vec(v);
        b.set_pos(0);
        proof {
            assert(b.bytes() =~= self.bytes() + v@.map_values(|x: i8| x as u8));
        }
        b
    }

    /// A new buffer sized to hold the bytes of `self` followed by each
    /// element of `v` as two bytes, in this buffer's byte order, with its
    /// cursor reset to the start.
    pub fn concat_u16_vec(&self, v: &Vec<u16>) -> (r: ByteSet)
        requires
            self.bytes().len() + 2 * v@.len() <= usize::MAX,
        ensures
            r.bytes() == self.bytes() + enc_seq(
                self.endian(),
                v@.map_values(|x: u16| x as nat),
                2,
            ),
            r.cursor() == 0,
            r.endian() == self.endian(),
            !r.growable(),
    {
        let mut b = ByteSet::new(self.len() + v.len() * 2, self.endianess());
        let _ = b.write_u8_slice(self.buffer.as_slice());
        proof {
            lemma_enc_seq_len(self.endian(), v@.map_values(|x: u16| x as nat), 2);
        }
        let _ = b.write_u16_vec(v);
        b.set_pos(0);
        proof {
            assert(b.bytes() =~= self.bytes() + enc_seq(
                self.endian(),
                v@.map_values(|x: u16| x as nat),
                2,
            ));
        }
        b
    }

    /// A new buffer sized to hold the bytes of `self` followed by each
    /// element of `v` as two bytes, in this buffer's byte order, with its
    /// cursor reset to the start.
    pub fn concat_i16_vec(&self, v: &Vec<i16>) -> (r: ByteSet)
        requires
            self.bytes().len() + 2 * v@.len() <= usize::MAX,
        ensures
            r.bytes() == self.bytes() + enc_seq(
                self.endian(),
                v@.map_values(|x: i16| (x as u16) as nat),
                2,
            ),
            r.cursor() == 0,
            r.endian() == self.endian(),
            !r.growable(),
    {
        let mut b = ByteSet::new(self.len() + v.len() * 2, self.endianess());
        let _ = b.write_u8_slice(self.buffer.as_slice());
        proof {
            lemma_enc_seq_len(self.endian(), v@.map_values(|x: i16| (x as u16) as nat), 2);
        }
        let _ = b.write_i16_vec(v);
        b.set_pos(0);
        proof {
            assert(b.bytes() =~= self.bytes() + enc_seq(
                self.endian(),
                v@.map_values(|x: i16| (x as u16) as nat),
                2,
            ));
        }
        b
    }

    /// A new buffer sized to hold the bytes of `self` followed by each
    /// element of `v` as four bytes, in this buffer's byte order, with its
    /// cursor reset to the start.
    pub fn concat_u32_vec(&self, v: &Vec<u32>) -> (r: ByteSet)
        requires
            self.bytes().len() + 4 * v@.len() <= usize::MAX,
        ensures
            r.bytes() == self.bytes() + enc_seq(
                self.endian(),
                v@.map_values(|x: u32| x as nat),
                4,
            ),
            r.cursor() == 0,
            r.endian() == self.endian(),
            !r.growable(),
    {
        let mut b = ByteSet::new(self.len() + v.len() * 4, self.endianess());
        let _ = b.write_u8_slice(self.buffer.as_slice());
        proof {
            lemma_enc_seq_len(self.endian(), v@.map_values(|x: u32| x as nat), 4);
        }
        let _ = b.write_u32_vec(v);
        b.set_pos(0);
        proof {
            assert(b.bytes() =~= self.bytes() + enc_seq(
                self.endian(),
                v@.map_values(|x: u32| x as nat),
                4,
            ));
        }
        b
    }

    /// A new buffer sized to hold the bytes of `self` followed by each
    /// element of `v` as four bytes, in this buffer's byte order, with its
    /// cursor reset to the start.
    pub fn concat_i32_vec(&self, v: &Vec<i32>) -> (r: ByteSet)
        requires
            self.bytes().len() + 4 * v@.len() <= usize::MAX,
        ensures
            r.bytes() == self.bytes() + enc_seq(
                self.endian(),
                v@.map_values(|x: i32| (x as u32) as nat),
                4,
            ),
            r.cursor() == 0,
            r.endian() == self.endian(),
            !r.growable(),
    {
        let mut b = ByteSet::new(self.len() + v.len() * 4, self.endianess());
        let _ = b.write_u8_slice(self.buffer.as_slice());
        proof {
            lemma_enc_seq_len(self.endian(), v@.map_values(|x: i32| (x as u32) as nat), 4);
        }
        let _ = b.write_i32_vec(v);
        b.set_pos(0);
        proof {
            assert(b.bytes() =~= self.bytes() + enc_seq(
                self.endian(),
                v@.map_values(|x: i32| (x as u32) as nat),
                4,
            ));
        }
        b
    }

    /// A new buffer sized to hold the bytes of `self` followed by each
    /// element of `v` as eight bytes, in this buffer's byte order, with its
    /// cursor reset to the start.
    pub fn concat_u64_vec(&self, v: &Vec<u64>) -> (r: ByteSet)
        requires
            self.bytes().len() + 8 * v@.len() <= usize::MAX,
        ensures
            r.bytes() == self.bytes() + enc_seq(
                self.endian(),
                v@.map_values(|x: u64| x as nat),
                8,
            ),
            r.cursor() == 0,
            r.endian() == self.endian(),
            !r.growable(),
    {
        let mut b = ByteSet::new(self.len() + v.len() * 8, self.endianess());
        let _ = b.write_u8_slice(self.buffer.as_slice());
        proof {
            lemma_enc_seq_len(self.endian(), v@.map_values(|x: u64| x as nat), 8);
        }
        let _ = b.write_u64_vec(v);
        b.set_pos(0);
        proof {
            assert(b.bytes() =~= self.bytes() + enc_seq(
                self.endian(),
                v@.map_values(|x: u64| x as nat),
                8,
            ));
        }
        b
    }

    /// A new buffer sized to hold the bytes of `self` followed by each
    /// element of `v` as eight bytes, in this buffer's byte order, with its
    /// cursor reset to the start.
    pub fn concat_i64_vec(&self, v: &Vec<i64>) -> (r: ByteSet)
        requires
            self.bytes().len() + 8 * v@.len() <= usize::MAX,
        ensures
            r.bytes() == self.bytes() + enc_seq(
                self.endian(),
                v@.map_values(|x: i64| (x as u64) as nat),
                8,
            ),
            r.cursor() == 0,
            r.endian() == self.endian(),
            !r.growable(),
    {
        let mut b = ByteSet::new(self.len() + v.len() * 8, self.endianess());
        let _ = b.write_u8_slice(self.buffer.as_slice());
        proof {
            lemma_enc_seq_len(self.endian(), v@.map_values(|x: i64| (x as u64) as nat), 8);
        }
        let _ = b.write_i64_vec(v);
        b.set_pos(0);
        proof {
            assert(b.bytes() =~= self.bytes() + enc_seq(
                self.endian(),
                v@.map_values(|x: i64| (x as u64) as nat),
                8,
            ));
        }
        b
    }
}

impl Buffer for ByteSet {
    closed spec fn bytes(&self) -> Seq<u8> {
        self.buffer@
    }

    closed spec fn cursor(&self) -> nat {
        self.position as nat
    }

    closed spec fn endian(&self) -> Endianess {
        self.endianess
    }

    open spec fn growable(&self) -> bool {
        false
    }

    fn len(&self) -> (r: usize) {
        self.buffer.len()
    }

    fn pos(&self) -> (r: usize) {
        self.position
    }

    fn set_pos(&mut self, p: usize) {
        self.position = p;
    }

    fn endianess(&self) -> (r: Endianess) {
        self.endianess
    }

    fn is_growable(&self) -> (r: bool) {
        false
    }

    fn write_u8(&mut self, v: u8) -> (r: Result<(), BufferError>) {
        ByteSet::write_u8(self, v)
    }

    fn read_u8(&mut self) -> (r: Result<u8, BufferError>) {
        if self.position < self.buffer.len() {
            let b = self.buffer[self.position];
            self.position = self.position + 1;
            Ok(b)
        } else {
            Err(BufferError::BoundsExceeded)
        }
    }
}

} // verus!
