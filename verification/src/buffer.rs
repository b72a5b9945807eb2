//! The buffer engine: one cursor model and one read/write contract shared by
//! every storage flavour.
//!
//! A storage flavour supplies the byte-level primitives (`write_u8`,
//! `read_u8`) and the cursor accessors; every wider operation is a provided
//! method built from those primitives, so bounds checking and growth policy
//! exist in exactly one place per flavour.

use vstd::prelude::*;

verus! {

use crate::codec::dec;
use crate::codec::enc;
use crate::codec::enc_seq;
use crate::codec::lemma_dec_bound;
use crate::codec::lemma_enc_seq_len;
use crate::codec::lemma_enc_seq_snoc;
use crate::codec::lemma_pow256_values;
use crate::codec::pow256;
use crate::codec::uint_from_bytes;
use crate::codec::uint_to_bytes;
use crate::BufferError;
use crate::Endianess;
use vstd::string::StringSliceAdditionalSpecFns;
use vstd::utf8::decode_utf8;
use vstd::utf8::valid_utf8;

broadcast use crate::codec::lemma_enc_len, crate::codec::lemma_enc_seq_len;

/// Length of the storage after `n` bytes are written at offset `at` into a
/// storage of length `len`, growth permitting.
pub open spec fn spliced_len(len: nat, at: nat, n: nat) -> nat {
    if n == 0 {
        len
    } else if at + n <= len {
        len
    } else {
        at + n
    }
}

/// The storage after `data` is written at offset `at`: the written range
/// takes `data`, bytes outside it are kept, and any gap between the old end
/// of storage and `at` is zero-filled.
pub open spec fn splice(s: Seq<u8>, at: nat, data: Seq<u8>) -> Seq<u8> {
    Seq::new(
        spliced_len(s.len(), at, data.len()),
        |i: int|
            if at <= i < at + data.len() {
                data[i - at]
            } else if i < s.len() {
                s[i]
            } else {
                0u8
            },
    )
}

/// Writing `d1` and then `d2` right after it is one write of `d1 + d2`.
pub proof fn lemma_splice_splice(s: Seq<u8>, at: nat, d1: Seq<u8>, d2: Seq<u8>)
    ensures
        splice(splice(s, at, d1), at + d1.len(), d2) == splice(s, at, d1 + d2),
{
    assert(splice(splice(s, at, d1), at + d1.len(), d2) =~= splice(s, at, d1 + d2));
}

/// A write is read back unchanged from the spliced storage.
pub proof fn lemma_splice_reads_back(s: Seq<u8>, at: nat, data: Seq<u8>)
    requires
        data.len() > 0 || at <= s.len(),
    ensures
        splice(s, at, data).subrange(at as int, at as int + data.len() as int) == data,
{
    assert(splice(s, at, data).subrange(at as int, at as int + data.len() as int) =~= data);
}

/// A write that stays inside the storage does not change its length.
pub proof fn lemma_splice_in_bounds(s: Seq<u8>, at: nat, data: Seq<u8>)
    requires
        at + data.len() <= s.len(),
    ensures
        splice(s, at, data).len() == s.len(),
{
}

/// The shared read/write contract of all buffer flavours.
///
/// `bytes` is the backing storage, `cursor` the next read/write offset, and
/// `endian` the byte order fixed at construction. `growable` tells the
/// flavour apart: a growable buffer extends its storage on writes past the
/// end (zero-filling any gap below the cursor), a non-growable one reports
/// [`BufferError::BoundsExceeded`] and stays unchanged. Reads past the end
/// fail on every flavour. Every successful read or write of `n` bytes
/// advances the cursor by exactly `n`.
pub trait Buffer: Sized {
    /// The backing storage.
    spec fn bytes(&self) -> Seq<u8>;

    /// The next read/write offset. It may point past the end of storage.
    spec fn cursor(&self) -> nat;

    /// The byte order of every multi-byte operation.
    spec fn endian(&self) -> Endianess;

    /// Whether writes past the end extend the storage instead of failing.
    spec fn growable(&self) -> bool;

    /// Current storage size in bytes.
    fn len(&self) -> (r: usize)
        ensures
            r == self.bytes().len(),
    ;

    /// Current cursor offset.
    fn pos(&self) -> (r: usize)
        ensures
            r == self.cursor(),
    ;

    /// Moves the cursor to `p`; an offset beyond the end is legal and acts
    /// as the append point of a growable buffer.
    fn set_pos(&mut self, p: usize)
        ensures
            final(self).bytes() == old(self).bytes(),
            final(self).cursor() == p,
            final(self).endian() == old(self).endian(),
            final(self).growable() == old(self).growable(),
    ;

    /// The byte order this buffer was constructed with.
    fn endianess(&self) -> (r: Endianess)
        ensures
            r == self.endian(),
    ;

    /// Whether writes past the end extend the storage instead of failing.
    fn is_growable(&self) -> (r: bool)
        ensures
            r == self.growable(),
    ;

    /// Stores one byte at the cursor and advances the cursor by one.
    fn write_u8(&mut self, v: u8) -> (r: Result<(), BufferError>)
        requires
            old(self).growable() ==> old(self).cursor() < usize::MAX,
        ensures
            final(self).endian() == old(self).endian(),
            final(self).growable() == old(self).growable(),
            r is Ok <==> old(self).growable() || old(self).cursor() < old(self).bytes().len(),
            r is Ok ==> final(self).bytes() == splice(
                old(self).bytes(),
                old(self).cursor(),
                seq![v],
            ) && final(self).cursor() == old(self).cursor() + 1,
            r is Ok ==> final(self).bytes().len() == spliced_len(
                old(self).bytes().len(),
                old(self).cursor(),
                1,
            ),
            r is Err ==> r == Err::<(), BufferError>(BufferError::BoundsExceeded)
                && final(self).bytes() == old(self).bytes()
                && final(self).cursor() == old(self).cursor(),
    ;

    /// Returns the byte at the cursor and advances the cursor by one.
    fn read_u8(&mut self) -> (r: Result<u8, BufferError>)
        ensures
            final(self).endian() == old(self).endian(),
            final(self).growable() == old(self).growable(),
            final(self).bytes() == old(self).bytes(),
            r is Ok <==> old(self).cursor() < old(self).bytes().len(),
            r matches Ok(b) ==> b == old(self).bytes()[old(self).cursor() as int]
                && final(self).cursor() == old(self).cursor() + 1,
            r is Err ==> r == Err::<u8, BufferError>(BufferError::BoundsExceeded)
                && final(self).cursor() == old(self).cursor(),
    ;

    /// Whether the cursor has reached the end of storage.
    fn is_end(&self) -> (r: bool)
        ensures
            r == (self.cursor() >= self.bytes().len()),
    {
        self.pos() >= self.len()
    }

    /// Writes every byte of `s` in order, starting at the cursor.
    fn write_u8_slice(&mut self, s: &[u8]) -> (r: Result<(), BufferError>)
        requires
            old(self).growable() ==> old(self).cursor() + s@.len() <= usize::MAX,
        ensures
            final(self).endian() == old(self).endian(),
            final(self).growable() == old(self).growable(),
            r is Ok <==> old(self).growable() || s@.len() == 0
                || old(self).cursor() + s@.len() <= old(self).bytes().len(),
            r is Ok ==> final(self).bytes() == splice(old(self).bytes(), old(self).cursor(), s@)
                && final(self).cursor() == old(self).cursor() + s@.len(),
            r is Ok ==> final(self).bytes().len() == spliced_len(
                old(self).bytes().len(),
                old(self).cursor(),
                s@.len(),
            ),
            r is Err ==> r == Err::<(), BufferError>(BufferError::BoundsExceeded)
                && final(self).bytes() == old(self).bytes()
                && final(self).cursor() == old(self).cursor(),
    {
        let n = s.len();
        if n == 0 {
            proof {
                assert(splice(self.bytes(), self.cursor(), s@) =~= self.bytes());
            }
            return Ok(());
        }
        if !self.is_growable() {
            let l = self.len();
            let p = self.pos();
            if n > l || p > l - n {
                return Err(BufferError::BoundsExceeded);
            }
        }
        let mut i: usize = 0;
        while i < n
            invariant
                i <= n == s@.len(),
                old(self).growable() ==> old(self).cursor() + n <= usize::MAX,
                !old(self).growable() ==> old(self).cursor() + n <= old(self).bytes().len(),
                self.endian() == old(self).endian(),
                self.growable() == old(self).growable(),
                self.bytes() == splice(old(self).bytes(), old(self).cursor(), s@.take(i as int)),
                self.cursor() == old(self).cursor() + i,
            decreases n - i,
        {
            proof {
                if !self.growable() {
                    lemma_splice_in_bounds(
                        old(self).bytes(),
                        old(self).cursor(),
                        s@.take(i as int),
                    );
                }
            }
            let r = self.write_u8(s[i]);
            match r {
                Ok(()) => {
                    proof {
                        lemma_splice_splice(
                            old(self).bytes(),
                            old(self).cursor(),
                            s@.take(i as int),
                            seq![s@[i as int]],
                        );
                        assert(s@.take(i as int) + seq![s@[i as int]] =~= s@.take(i + 1));
                    }
                },
                Err(e) => {
                    return Err(e);
                },
            }
            i += 1;
        }
        proof {
            assert(s@.take(n as int) =~= s@);
        }
        Ok(())
    }

    /// Reads the next `n` bytes in order and returns them as a vector.
    fn read_u8_vec(&mut self, n: usize) -> (r: Result<Vec<u8>, BufferError>)
        ensures
            final(self).endian() == old(self).endian(),
            final(self).growable() == old(self).growable(),
            final(self).bytes() == old(self).bytes(),
            r is Ok <==> old(self).cursor() + n <= old(self).bytes().len(),
            r matches Ok(v) ==> v@ == old(self).bytes().subrange(
                old(self).cursor() as int,
                old(self).cursor() + n,
            ) && final(self).cursor() == old(self).cursor() + n,
            r is Err ==> r == Err::<Vec<u8>, BufferError>(BufferError::BoundsExceeded)
                && final(self).cursor() == old(self).cursor(),
    {
        let l = self.len();
        let p = self.pos();
        if n > l || p > l - n {
            return Err(BufferError::BoundsExceeded);
        }
        let mut out: Vec<u8> = Vec::new();
        let mut i: usize = 0;
        while i < n
            invariant
                i <= n,
                old(self).cursor() + n <= old(self).bytes().len(),
                self.endian() == old(self).endian(),
                self.growable() == old(self).growable(),
                self.bytes() == old(self).bytes(),
                self.cursor() == old(self).cursor() + i,
                out@ == old(self).bytes().subrange(
                    old(self).cursor() as int,
                    old(self).cursor() + i,
                ),
            decreases n - i,
        {
            let r = self.read_u8();
            match r {
                Ok(b) => {
                    out.push(b);
                    proof {
                        assert(old(self).bytes().subrange(
                            old(self).cursor() as int,
                            old(self).cursor() + i,
                        ).push(old(self).bytes()[old(self).cursor() + i]) =~= old(
                            self,
                        ).bytes().subrange(old(self).cursor() as int, old(self).cursor() as int + i + 1));
                    }
                },
                Err(e) => {
                    return Err(e);
                },
            }
            i += 1;
        }
        Ok(out)
    }

    /// Writes the `n`-byte encoding of `v` at the cursor, in the buffer's
    /// byte order; the part of `v` beyond `n` bytes is discarded.
    fn write_uint(&mut self, v: u64, n: usize) -> (r: Result<(), BufferError>)
        requires
            n <= 8,
            old(self).growable() ==> old(self).cursor() + n <= usize::MAX,
        ensures
            final(self).endian() == old(self).endian(),
            final(self).growable() == old(self).growable(),
            r is Ok <==> old(self).growable() || n == 0
                || old(self).cursor() + n <= old(self).bytes().len(),
            r is Ok ==> final(self).bytes() == splice(
                old(self).bytes(),
                old(self).cursor(),
                enc(old(self).endian(), v as nat, n as nat),
            ) && final(self).cursor() == old(self).cursor() + n,
            r is Ok ==> final(self).bytes().len() == spliced_len(
                old(self).bytes().len(),
                old(self).cursor(),
                n as nat,
            ),
            r is Err ==> r == Err::<(), BufferError>(BufferError::BoundsExceeded)
                && final(self).bytes() == old(self).bytes()
                && final(self).cursor() == old(self).cursor(),
    {
        let e = self.endianess();
        let data = uint_to_bytes(v, n, e);
        self.write_u8_slice(data.as_slice())
    }

    /// Reads the next `n` bytes as an unsigned value in the buffer's byte
    /// order.
    fn read_uint(&mut self, n: usize) -> (r: Result<u64, BufferError>)
        requires
            n <= 8,
        ensures
            final(self).endian() == old(self).endian(),
            final(self).growable() == old(self).growable(),
            final(self).bytes() == old(self).bytes(),
            r is Ok <==> old(self).cursor() + n <= old(self).bytes().len(),
            r matches Ok(x) ==> x as nat == dec(
                old(self).endian(),
                old(self).bytes().subrange(old(self).cursor() as int, old(self).cursor() as int + n),
            ) && (x as nat) < pow256(n as nat) && final(self).cursor() == old(self).cursor() + n,
            r is Err ==> r == Err::<u64, BufferError>(BufferError::BoundsExceeded)
                && final(self).cursor() == old(self).cursor(),
    {
        let e = self.endianess();
        match self.read_u8_vec(n) {
            Ok(data) => {
                proof {
                    lemma_dec_bound(e, data@);
                }
                Ok(uint_from_bytes(data.as_slice(), e))
            },
            Err(er) => Err(er),
        }
    }

    /// Writes `v` as one byte (its two's-complement bit pattern).
    fn write_i8(&mut self, v: i8) -> (r: Result<(), BufferError>)
        requires
            old(self).growable() ==> old(self).cursor() < usize::MAX,
        ensures
            final(self).endian() == old(self).endian(),
            final(self).growable() == old(self).growable(),
            r is Ok <==> old(self).growable() || old(self).cursor() < old(self).bytes().len(),
            r is Ok ==> final(self).bytes() == splice(
                old(self).bytes(),
                old(self).cursor(),
                seq![v as u8],
            ) && final(self).cursor() == old(self).cursor() + 1,
            r is Ok ==> final(self).bytes().len() == spliced_len(
                old(self).bytes().len(),
                old(self).cursor(),
                1,
            ),
            r is Err ==> r == Err::<(), BufferError>(BufferError::BoundsExceeded)
                && final(self).bytes() == old(self).bytes()
                && final(self).cursor() == old(self).cursor(),
    {
        self.write_u8(#[verifier::truncate] (v as u8))
    }

    /// Reads one byte as a signed value.
    fn read_i8(&mut self) -> (r: Result<i8, BufferError>)
        ensures
            final(self).endian() == old(self).endian(),
            final(self).growable() == old(self).growable(),
            final(self).bytes() == old(self).bytes(),
            r is Ok <==> old(self).cursor() < old(self).bytes().len(),
            r matches Ok(b) ==> b == old(self).bytes()[old(self).cursor() as int] as i8
                && final(self).cursor() == old(self).cursor() + 1,
            r is Err ==> r == Err::<i8, BufferError>(BufferError::BoundsExceeded)
                && final(self).cursor() == old(self).cursor(),
    {
        match self.read_u8() {
            Ok(b) => Ok(#[verifier::truncate] (b as i8)),
            Err(e) => Err(e),
        }
    }

    /// Writes `v` as two bytes in the buffer's byte order.
    fn write_u16(&mut self, v: u16) -> (r: Result<(), BufferError>)
        requires
            old(self).growable() ==> old(self).cursor() + 2 <= usize::MAX,
        ensures
            final(self).endian() == old(self).endian(),
            final(self).growable() == old(self).growable(),
            r is Ok <==> old(self).growable() || old(self).cursor() + 2 <= old(
                self,
            ).bytes().len(),
            r is Ok ==> final(self).bytes() == splice(
                old(self).bytes(),
                old(self).cursor(),
                enc(old(self).endian(), v as nat, 2),
            ) && final(self).cursor() == old(self).cursor() + 2,
            r is Ok ==> final(self).bytes().len() == spliced_len(
                old(self).bytes().len(),
                old(self).cursor(),
                2,
            ),
            r is Err ==> r == Err::<(), BufferError>(BufferError::BoundsExceeded)
                && final(self).bytes() == old(self).bytes()
                && final(self).cursor() == old(self).cursor(),
    {
        self.write_uint(v as u64, 2)
    }

    /// Reads two bytes in the buffer's byte order as an unsigned value.
    fn read_u16(&mut self) -> (r: Result<u16, BufferError>)
        ensures
            final(self).endian() == old(self).endian(),
            final(self).growable() == old(self).growable(),
            final(self).bytes() == old(self).bytes(),
            r is Ok <==> old(self).cursor() + 2 <= old(self).bytes().len(),
            r matches Ok(x) ==> x as nat == dec(
                old(self).endian(),
                old(self).bytes().subrange(old(self).cursor() as int, old(self).cursor() as int + 2),
            ) && final(self).cursor() == old(self).cursor() + 2,
            r is Err ==> r == Err::<u16, BufferError>(BufferError::BoundsExceeded)
                && final(self).cursor() == old(self).cursor(),
    {
        match self.read_uint(2) {
            Ok(x) => {
                proof {
                    lemma_pow256_values();
                }
                Ok(x as u16)
            },
            Err(e) => Err(e),
        }
    }

    /// Writes `v` as two bytes (its two's-complement bit pattern) in the buffer's byte order.
    fn write_i16(&mut self, v: i16) -> (r: Result<(), BufferError>)
        requires
            old(self).growable() ==> old(self).cursor() + 2 <= usize::MAX,
        ensures
            final(self).endian() == old(self).endian(),
            final(self).growable() == old(self).growable(),
            r is Ok <==> old(self).growable() || old(self).cursor() + 2 <= old(
                self,
            ).bytes().len(),
            r is Ok ==> final(self).bytes() == splice(
                old(self).bytes(),
                old(self).cursor(),
                enc(old(self).endian(), (v as u16) as nat, 2),
            ) && final(self).cursor() == old(self).cursor() + 2,
            r is Ok ==> final(self).bytes().len() == spliced_len(
                old(self).bytes().len(),
                old(self).cursor(),
                2,
            ),
            r is Err ==> r == Err::<(), BufferError>(BufferError::BoundsExceeded)
                && final(self).bytes() == old(self).bytes()
                && final(self).cursor() == old(self).cursor(),
    {
        self.write_uint((#[verifier::truncate] (v as u16)) as u64, 2)
    }

    /// Reads two bytes in the buffer's byte order as a signed value.
    fn read_i16(&mut self) -> (r: Result<i16, BufferError>)
        ensures
            final(self).endian() == old(self).endian(),
            final(self).growable() == old(self).growable(),
            final(self).bytes() == old(self).bytes(),
            r is Ok <==> old(self).cursor() + 2 <= old(self).bytes().len(),
            r matches Ok(x) ==> x == dec(
                old(self).endian(),
                old(self).bytes().subrange(old(self).cursor() as int, old(self).cursor() as int + 2),
            ) as u16 as i16 && final(self).cursor() == old(self).cursor() + 2,
            r is Err ==> r == Err::<i16, BufferError>(BufferError::BoundsExceeded)
                && final(self).cursor() == old(self).cursor(),
    {
        match self.read_uint(2) {
            Ok(x) => {
                proof {
                    lemma_pow256_values();
                }
                {
                let y = x as u16;
                Ok(#[verifier::truncate] (y as i16))
            }
            },
            Err(e) => Err(e),
        }
    }

    /// Writes `v` as three bytes; the most significant byte of `v` is discarded in the buffer's byte order.
    fn write_u24(&mut self, v: u32) -> (r: Result<(), BufferError>)
        requires
            old(self).growable() ==> old(self).cursor() + 3 <= usize::MAX,
        ensures
            final(self).endian() == old(self).endian(),
            final(self).growable() == old(self).growable(),
            r is Ok <==> old(self).growable() || old(self).cursor() + 3 <= old(
                self,
            ).bytes().len(),
            r is Ok ==> final(self).bytes() == splice(
                old(self).bytes(),
                old(self).cursor(),
                enc(old(self).endian(), v as nat, 3),
            ) && final(self).cursor() == old(self).cursor() + 3,
            r is Ok ==> final(self).bytes().len() == spliced_len(
                old(self).bytes().len(),
                old(self).cursor(),
                3,
            ),
            r is Err ==> r == Err::<(), BufferError>(BufferError::BoundsExceeded)
                && final(self).bytes() == old(self).bytes()
                && final(self).cursor() == old(self).cursor(),
    {
        self.write_uint(v as u64, 3)
    }

    /// Reads three bytes in the buffer's byte order as an unsigned value.
    fn read_u24(&mut self) -> (r: Result<u32, BufferError>)
        ensures
            final(self).endian() == old(self).endian(),
            final(self).growable() == old(self).growable(),
            final(self).bytes() == old(self).bytes(),
            r is Ok <==> old(self).cursor() + 3 <= old(self).bytes().len(),
            r matches Ok(x) ==> x as nat == dec(
                old(self).endian(),
                old(self).bytes().subrange(old(self).cursor() as int, old(self).cursor() as int + 3),
            ) && final(self).cursor() == old(self).cursor() + 3,
            r is Err ==> r == Err::<u32, BufferError>(BufferError::BoundsExceeded)
                && final(self).cursor() == old(self).cursor(),
    {
        match self.read_uint(3) {
            Ok(x) => {
                proof {
                    lemma_pow256_values();
                }
                Ok(x as u32)
            },
            Err(e) => Err(e),
        }
    }

    /// Writes `v` as four bytes in the buffer's byte order.
    fn write_u32(&mut self, v: u32) -> (r: Result<(), BufferError>)
        requires
            old(self).growable() ==> old(self).cursor() + 4 <= usize::MAX,
        ensures
            final(self).endian() == old(self).endian(),
            final(self).growable() == old(self).growable(),
            r is Ok <==> old(self).growable() || old(self).cursor() + 4 <= old(
                self,
            ).bytes().len(),
            r is Ok ==> final(self).bytes() == splice(
                old(self).bytes(),
                old(self).cursor(),
                enc(old(self).endian(), v as nat, 4),
            ) && final(self).cursor() == old(self).cursor() + 4,
            r is Ok ==> final(self).bytes().len() == spliced_len(
                old(self).bytes().len(),
                old(self).cursor(),
                4,
            ),
            r is Err ==> r == Err::<(), BufferError>(BufferError::BoundsExceeded)
                && final(self).bytes() == old(self).bytes()
                && final(self).cursor() == old(self).cursor(),
    {
        self.write_uint(v as u64, 4)
    }

    /// Reads four bytes in the buffer's byte order as an unsigned value.
    fn read_u32(&mut self) -> (r: Result<u32, BufferError>)
        ensures
            final(self).endian() == old(self).endian(),
            final(self).growable() == old(self).growable(),
            final(self).bytes() == old(self).bytes(),
            r is Ok <==> old(self).cursor() + 4 <= old(self).bytes().len(),
            r matches Ok(x) ==> x as nat == dec(
                old(self).endian(),
                old(self).bytes().subrange(old(self).cursor() as int, old(self).cursor() as int + 4),
            ) && final(self).cursor() == old(self).cursor() + 4,
            r is Err ==> r == Err::<u32, BufferError>(BufferError::BoundsExceeded)
                && final(self).cursor() == old(self).cursor(),
    {
        match self.read_uint(4) {
            Ok(x) => {
                proof {
                    lemma_pow256_values();
                }
                Ok(x as u32)
            },
            Err(e) => Err(e),
        }
    }

    /// Writes `v` as four bytes (its two's-complement bit pattern) in the buffer's byte order.
    fn write_i32(&mut self, v: i32) -> (r: Result<(), BufferError>)
        requires
            old(self).growable() ==> old(self).cursor() + 4 <= usize::MAX,
        ensures
            final(self).endian() == old(self).endian(),
            final(self).growable() == old(self).growable(),
            r is Ok <==> old(self).growable() || old(self).cursor() + 4 <= old(
                self,
            ).bytes().len(),
            r is Ok ==> final(self).bytes() == splice(
                old(self).bytes(),
                old(self).cursor(),
                enc(old(self).endian(), (v as u32) as nat, 4),
            ) && final(self).cursor() == old(self).cursor() + 4,
            r is Ok ==> final(self).bytes().len() == spliced_len(
                old(self).bytes().len(),
                old(self).cursor(),
                4,
            ),
            r is Err ==> r == Err::<(), BufferError>(BufferError::BoundsExceeded)
                && final(self).bytes() == old(self).bytes()
                && final(self).cursor() == old(self).cursor(),
    {
        self.write_uint((#[verifier::truncate] (v as u32)) as u64, 4)
    }

    /// Reads four bytes in the buffer's byte order as a signed value.
    fn read_i32(&mut self) -> (r: Result<i32, BufferError>)
        ensures
            final(self).endian() == old(self).endian(),
            final(self).growable() == old(self).growable(),
            final(self).bytes() == old(self).bytes(),
            r is Ok <==> old(self).cursor() + 4 <= old(self).bytes().len(),
            r matches Ok(x) ==> x == dec(
                old(self).endian(),
                old(self).bytes().subrange(old(self).cursor() as int, old(self).cursor() as int + 4),
            ) as u32 as i32 && final(self).cursor() == old(self).cursor() + 4,
            r is Err ==> r == Err::<i32, BufferError>(BufferError::BoundsExceeded)
                && final(self).cursor() == old(self).cursor(),
    {
        match self.read_uint(4) {
            Ok(x) => {
                proof {
                    lemma_pow256_values();
                }
                {
                let y = x as u32;
                Ok(#[verifier::truncate] (y as i32))
            }
            },
            Err(e) => Err(e),
        }
    }

    /// Writes `v` as eight bytes in the buffer's byte order.
    fn write_u64(&mut self, v: u64) -> (r: Result<(), BufferError>)
        requires
            old(self).growable() ==> old(self).cursor() + 8 <= usize::MAX,
        ensures
            final(self).endian() == old(self).endian(),
            final(self).growable() == old(self).growable(),
            r is Ok <==> old(self).growable() || old(self).cursor() + 8 <= old(
                self,
            ).bytes().len(),
            r is Ok ==> final(self).bytes() == splice(
                old(self).bytes(),
                old(self).cursor(),
                enc(old(self).endian(), v as nat, 8),
            ) && final(self).cursor() == old(self).cursor() + 8,
            r is Ok ==> final(self).bytes().len() == spliced_len(
                old(self).bytes().len(),
                old(self).cursor(),
                8,
            ),
            r is Err ==> r == Err::<(), BufferError>(BufferError::BoundsExceeded)
                && final(self).bytes() == old(self).bytes()
                && final(self).cursor() == old(self).cursor(),
    {
        self.write_uint(v, 8)
    }

    /// Reads eight bytes in the buffer's byte order as an unsigned value.
    fn read_u64(&mut self) -> (r: Result<u64, BufferError>)
        ensures
            final(self).endian() == old(self).endian(),
            final(self).growable() == old(self).growable(),
            final(self).bytes() == old(self).bytes(),
            r is Ok <==> old(self).cursor() + 8 <= old(self).bytes().len(),
            r matches Ok(x) ==> x as nat == dec(
                old(self).endian(),
                old(self).bytes().subrange(old(self).cursor() as int, old(self).cursor() as int + 8),
            ) && final(self).cursor() == old(self).cursor() + 8,
            r is Err ==> r == Err::<u64, BufferError>(BufferError::BoundsExceeded)
                && final(self).cursor() == old(self).cursor(),
    {
        match self.read_uint(8) {
            Ok(x) => {
                proof {
                    lemma_pow256_values();
                }
                Ok(x)
            },
            Err(e) => Err(e),
        }
    }

    /// Writes `v` as eight bytes (its two's-complement bit pattern) in the buffer's byte order.
    fn write_i64(&mut self, v: i64) -> (r: Result<(), BufferError>)
        requires
            old(self).growable() ==> old(self).cursor() + 8 <= usize::MAX,
        ensures
            final(self).endian() == old(self).endian(),
            final(self).growable() == old(self).growable(),
            r is Ok <==> old(self).growable() || old(self).cursor() + 8 <= old(
                self,
            ).bytes().len(),
            r is Ok ==> final(self).bytes() == splice(
                old(self).bytes(),
                old(self).cursor(),
                enc(old(self).endian(), (v as u64) as nat, 8),
            ) && final(self).cursor() == old(self).cursor() + 8,
            r is Ok ==> final(self).bytes().len() == spliced_len(
                old(self).bytes().len(),
                old(self).cursor(),
                8,
            ),
            r is Err ==> r == Err::<(), BufferError>(BufferError::BoundsExceeded)
                && final(self).bytes() == old(self).bytes()
                && final(self).cursor() == old(self).cursor(),
    {
        self.write_uint(#[verifier::truncate] (v as u64), 8)
    }

    /// Reads eight bytes in the buffer's byte order as a signed value.
    fn read_i64(&mut self) -> (r: Result<i64, BufferError>)
        ensures
            final(self).endian() == old(self).endian(),
            final(self).growable() == old(self).growable(),
            final(self).bytes() == old(self).bytes(),
            r is Ok <==> old(self).cursor() + 8 <= old(self).bytes().len(),
            r matches Ok(x) ==> x == dec(
                old(self).endian(),
                old(self).bytes().subrange(old(self).cursor() as int, old(self).cursor() as int + 8),
            ) as u64 as i64 && final(self).cursor() == old(self).cursor() + 8,
            r is Err ==> r == Err::<i64, BufferError>(BufferError::BoundsExceeded)
                && final(self).cursor() == old(self).cursor(),
    {
        match self.read_uint(8) {
            Ok(x) => {
                proof {
                    lemma_pow256_values();
                }
                Ok(#[verifier::truncate] (x as i64))
            },
            Err(e) => Err(e),
        }
    }

    /// Writes the raw UTF-8 bytes of `v`, with no length prefix and no
    /// terminator; the caller is responsible for framing.
    fn write_string(&mut self, v: &str) -> (r: Result<(), BufferError>)
        requires
            old(self).growable() ==> old(self).cursor() + v.spec_bytes().len() <= usize::MAX,
        ensures
            final(self).endian() == old(self).endian(),
            final(self).growable() == old(self).growable(),
            r is Ok <==> old(self).growable() || v.spec_bytes().len() == 0
                || old(self).cursor() + v.spec_bytes().len() <= old(self).bytes().len(),
            r is Ok ==> final(self).bytes() == splice(
                old(self).bytes(),
                old(self).cursor(),
                v.spec_bytes(),
            ) && final(self).cursor() == old(self).cursor() + v.spec_bytes().len(),
            r is Ok ==> final(self).bytes().len() == spliced_len(
                old(self).bytes().len(),
                old(self).cursor(),
                v.spec_bytes().len(),
            ),
            r is Err ==> r == Err::<(), BufferError>(BufferError::BoundsExceeded)
                && final(self).bytes() == old(self).bytes()
                && final(self).cursor() == old(self).cursor(),
    {
        self.write_u8_slice(v.as_bytes())
    }

    /// Reads exactly `n` bytes and decodes them as UTF-8; bytes that are
    /// not valid UTF-8 are refused with [`BufferError::InvalidEncoding`]
    /// and the buffer is left unchanged.
    fn read_string(&mut self, n: usize) -> (r: Result<String, BufferError>)
        ensures
            final(self).endian() == old(self).endian(),
            final(self).growable() == old(self).growable(),
            final(self).bytes() == old(self).bytes(),
            ({
                let seg = old(self).bytes().subrange(
                    old(self).cursor() as int,
                    old(self).cursor() as int + n,
                );
                &&& (r is Ok <==> old(self).cursor() + n <= old(self).bytes().len()
                    && valid_utf8(seg))
                &&& (r matches Ok(t) ==> t@ == decode_utf8(seg) && final(self).cursor() == old(
                    self,
                ).cursor() + n)
                &&& (r is Err ==> final(self).cursor() == old(self).cursor())
                &&& (old(self).cursor() + n > old(self).bytes().len() ==> r == Err::<
                    String,
                    BufferError,
                >(BufferError::BoundsExceeded))
                &&& (old(self).cursor() + n <= old(self).bytes().len() && !valid_utf8(seg)
                    ==> r == Err::<String, BufferError>(BufferError::InvalidEncoding))
            }),
    {
        let p = self.pos();
        match self.read_u8_vec(n) {
            Ok(data) => {
                match string_from_utf8_bytes(data) {
                    Some(t) => Ok(t),
                    None => {
                        self.set_pos(p);
                        Err(BufferError::InvalidEncoding)
                    },
                }
            },
            Err(e) => Err(e),
        }
    }

    /// Writes each byte of `v` in order.
    fn write_u8_vec(&mut self, v: &Vec<u8>) -> (r: Result<(), BufferError>)
        requires
            old(self).growable() ==> old(self).cursor() + v@.len() <= usize::MAX,
        ensures
            final(self).endian() == old(self).endian(),
            final(self).growable() == old(self).growable(),
            r is Ok <==> old(self).growable() || v@.len() == 0
                || old(self).cursor() + v@.len() <= old(self).bytes().len(),
            r is Ok ==> final(self).bytes() == splice(old(self).bytes(), old(self).cursor(), v@)
                && final(self).cursor() == old(self).cursor() + v@.len(),
            r is Ok ==> final(self).bytes().len() == spliced_len(
                old(self).bytes().len(),
                old(self).cursor(),
                v@.len(),
            ),
            r is Err ==> r == Err::<(), BufferError>(BufferError::BoundsExceeded)
                && final(self).bytes() == old(self).bytes()
                && final(self).cursor() == old(self).cursor(),
    {
        self.write_u8_slice(v.as_slice())
    }

    /// Writes each element of `v` in order as one byte (its
    /// two's-complement bit pattern).
    fn write_i8_vec(&mut self, v: &Vec<i8>) -> (r: Result<(), BufferError>)
        requires
            old(self).growable() ==> old(self).cursor() + v@.len() <= usize::MAX,
        ensures
            final(self).endian() == old(self).endian(),
            final(self).growable() == old(self).growable(),
            r is Ok <==> old(self).growable() || v@.len() == 0
                || old(self).cursor() + v@.len() <= old(self).bytes().len(),
            r is Ok ==> final(self).bytes() == splice(
                old(self).bytes(),
                old(self).cursor(),
                v@.map_values(|x: i8| x as u8),
            ) && final(self).cursor() == old(self).cursor() + v@.len(),
            r is Ok ==> final(self).bytes().len() == spliced_len(
                old(self).bytes().len(),
                old(self).cursor(),
                v@.len(),
            ),
            r is Err ==> r == Err::<(), BufferError>(BufferError::BoundsExceeded)
                && final(self).bytes() == old(self).bytes()
                && final(self).cursor() == old(self).cursor(),
    {
        let mut data: Vec<u8> = Vec::new();
        let mut i: usize = 0;
        while i < v.len()
            invariant
                i <= v@.len(),
                data@.len() == i,
                forall|k: int| 0 <= k < i ==> data@[k] == v@[k] as u8,
            decreases v@.len() - i,
        {
            data.push(#[verifier::truncate] (v[i] as u8));
            i += 1;
        }
        proof {
            assert(data@ =~= v@.map_values(|x: i8| x as u8));
        }
        self.write_u8_slice(data.as_slice())
    }

    /// Reads the next `n` bytes in order as signed values.
    fn read_i8_vec(&mut self, n: usize) -> (r: Result<Vec<i8>, BufferError>)
        ensures
            final(self).endian() == old(self).endian(),
            final(self).growable() == old(self).growable(),
            final(self).bytes() == old(self).bytes(),
            r is Ok <==> old(self).cursor() + n <= old(self).bytes().len(),
            r matches Ok(v) ==> v@.len() == n && final(self).cursor() == old(self).cursor() + n
                && (forall|k: int|
                0 <= k < n ==> v@[k] == old(self).bytes()[old(self).cursor() + k] as i8),
            r is Err ==> r == Err::<Vec<i8>, BufferError>(BufferError::BoundsExceeded)
                && final(self).cursor() == old(self).cursor(),
    {
        match self.read_u8_vec(n) {
            Ok(data) => {
                let mut out: Vec<i8> = Vec::new();
                let mut i: usize = 0;
                while i < data.len()
                    invariant
                        i <= data@.len(),
                        out@.len() == i,
                        forall|k: int| 0 <= k < i ==> out@[k] == data@[k] as i8,
                    decreases data@.len() - i,
                {
                    out.push(#[verifier::truncate] (data[i] as i8));
                    i += 1;
                }
                Ok(out)
            },
            Err(e) => Err(e),
        }
    }

    /// Writes each element of `v` in order, two bytes per element, in the
    /// buffer's byte order.
    fn write_u16_vec(&mut self, v: &Vec<u16>) -> (r: Result<(), BufferError>)
        requires
            old(self).growable() ==> old(self).cursor() + 2 * v@.len() <= usize::MAX,
        ensures
            final(self).endian() == old(self).endian(),
            final(self).growable() == old(self).growable(),
            r is Ok <==> old(self).growable() || v@.len() == 0
                || old(self).cursor() + 2 * v@.len() <= old(self).bytes().len(),
            r is Ok ==> final(self).bytes() == splice(
                old(self).bytes(),
                old(self).cursor(),
                enc_seq(old(self).endian(), v@.map_values(|x: u16| x as nat), 2),
            ) && final(self).cursor() == old(self).cursor() + 2 * v@.len(),
            r is Ok ==> final(self).bytes().len() == spliced_len(
                old(self).bytes().len(),
                old(self).cursor(),
                2 * v@.len(),
            ),
            r is Err ==> r == Err::<(), BufferError>(BufferError::BoundsExceeded)
                && final(self).bytes() == old(self).bytes()
                && final(self).cursor() == old(self).cursor(),
    {
        let n = v.len();
        if n == 0 {
            proof {
                assert(v@.map_values(|x: u16| x as nat) =~= Seq::<nat>::empty());
                assert(splice(
                    self.bytes(),
                    self.cursor(),
                    enc_seq(self.endian(), v@.map_values(|x: u16| x as nat), 2),
                ) =~= self.bytes());
            }
            return Ok(());
        }
        if !self.is_growable() {
            let l = self.len();
            let p = self.pos();
            let total = match n.checked_mul(2) {
                Some(t) => t,
                None => {
                    return Err(BufferError::BoundsExceeded);
                },
            };
            if total > l || p > l - total {
                return Err(BufferError::BoundsExceeded);
            }
        }
        let mut i: usize = 0;
        while i < n
            invariant
                i <= n == v@.len(),
                self.endian() == old(self).endian(),
                self.growable() == old(self).growable(),
                old(self).growable() ==> old(self).cursor() + 2 * n <= usize::MAX,
                !old(self).growable() ==> old(self).cursor() + 2 * n <= old(self).bytes().len(),
                self.bytes() == splice(
                    old(self).bytes(),
                    old(self).cursor(),
                    enc_seq(
                        old(self).endian(),
                        v@.take(i as int).map_values(|x: u16| x as nat),
                        2,
                    ),
                ),
                self.cursor() == old(self).cursor() + 2 * i,
            decreases n - i,
        {
            proof {
                lemma_enc_seq_len(
                    old(self).endian(),
                    v@.take(i as int).map_values(|x: u16| x as nat),
                    2,
                );
            }
            let r = self.write_u16(v[i]);
            match r {
                Ok(()) => {
                    proof {
                        let done = v@.take(i as int).map_values(|x: u16| x as nat);
                        lemma_enc_seq_snoc(old(self).endian(), done, v@[i as int] as nat, 2);
                        lemma_splice_splice(
                            old(self).bytes(),
                            old(self).cursor(),
                            enc_seq(old(self).endian(), done, 2),
                            enc(old(self).endian(), v@[i as int] as nat, 2),
                        );
                        assert(v@.take(i + 1).map_values(|x: u16| x as nat) =~= done.push(
                            v@[i as int] as nat,
                        ));
                    }
                },
                Err(e) => {
                    return Err(e);
                },
            }
            i += 1;
        }
        proof {
            assert(v@.take(n as int) =~= v@);
        }
        Ok(())
    }

    /// Reads `n` values in order, two bytes per value, in the buffer's byte
    /// order.
    fn read_u16_vec(&mut self, n: usize) -> (r: Result<Vec<u16>, BufferError>)
        ensures
            final(self).endian() == old(self).endian(),
            final(self).growable() == old(self).growable(),
            final(self).bytes() == old(self).bytes(),
            r is Ok <==> old(self).cursor() + 2 * n <= old(self).bytes().len(),
            r matches Ok(v) ==> v@.len() == n && final(self).cursor() == old(self).cursor() + 2
                * n && (forall|k: int|
                0 <= k < n ==> v@[k] as nat == dec(
                    old(self).endian(),
                    old(self).bytes().subrange(
                        old(self).cursor() + 2 * k,
                        old(self).cursor() + 2 * k + 2,
                    ),
                )),
            r is Err ==> r == Err::<Vec<u16>, BufferError>(BufferError::BoundsExceeded)
                && final(self).cursor() == old(self).cursor(),
    {
        let l = self.len();
        let p = self.pos();
        let total = match n.checked_mul(2) {
            Some(t) => t,
            None => {
                return Err(BufferError::BoundsExceeded);
            },
        };
        if total > l || p > l - total {
            return Err(BufferError::BoundsExceeded);
        }
        let mut out: Vec<u16> = Vec::new();
        let mut i: usize = 0;
        while i < n
            invariant
                i <= n,
                old(self).cursor() + 2 * n <= old(self).bytes().len(),
                self.endian() == old(self).endian(),
                self.growable() == old(self).growable(),
                self.bytes() == old(self).bytes(),
                self.cursor() == old(self).cursor() + 2 * i,
                out@.len() == i,
                forall|k: int| 0 <= k < i ==> out@[k] as nat == dec(old(self).endian(), old(self).bytes().subrange(old(self).cursor() + 2 * k, old(self).cursor() + 2 * k + 2)),
            decreases n - i,
        {
            match self.read_u16() {
                Ok(x) => {
                    out.push(x);
                },
                Err(e) => {
                    return Err(e);
                },
            }
            i += 1;
        }
        Ok(out)
    }

    /// Writes each element of `v` in order, four bytes per element, in the
    /// buffer's byte order.
    fn write_u32_vec(&mut self, v: &Vec<u32>) -> (r: Result<(), BufferError>)
        requires
            old(self).growable() ==> old(self).cursor() + 4 * v@.len() <= usize::MAX,
        ensures
            final(self).endian() == old(self).endian(),
            final(self).growable() == old(self).growable(),
            r is Ok <==> old(self).growable() || v@.len() == 0
                || old(self).cursor() + 4 * v@.len() <= old(self).bytes().len(),
            r is Ok ==> final(self).bytes() == splice(
                old(self).bytes(),
                old(self).cursor(),
                enc_seq(old(self).endian(), v@.map_values(|x: u32| x as nat), 4),
            ) && final(self).cursor() == old(self).cursor() + 4 * v@.len(),
            r is Ok ==> final(self).bytes().len() == spliced_len(
                old(self).bytes().len(),
                old(self).cursor(),
                4 * v@.len(),
            ),
            r is Err ==> r == Err::<(), BufferError>(BufferError::BoundsExceeded)
                && final(self).bytes() == old(self).bytes()
                && final(self).cursor() == old(self).cursor(),
    {
        let n = v.len();
        if n == 0 {
            proof {
                assert(v@.map_values(|x: u32| x as nat) =~= Seq::<nat>::empty());
                assert(splice(
                    self.bytes(),
                    self.cursor(),
                    enc_seq(self.endian(), v@.map_values(|x: u32| x as nat), 4),
                ) =~= self.bytes());
            }
            return Ok(());
        }
        if !self.is_growable() {
            let l = self.len();
            let p = self.pos();
            let total = match n.checked_mul(4) {
                Some(t) => t,
                None => {
                    return Err(BufferError::BoundsExceeded);
                },
            };
            if total > l || p > l - total {
                return Err(BufferError::BoundsExceeded);
            }
        }
        let mut i: usize = 0;
        while i < n
            invariant
                i <= n == v@.len(),
                self.endian() == old(self).endian(),
                self.growable() == old(self).growable(),
                old(self).growable() ==> old(self).cursor() + 4 * n <= usize::MAX,
                !old(self).growable() ==> old(self).cursor() + 4 * n <= old(self).bytes().len(),
                self.bytes() == splice(
                    old(self).bytes(),
                    old(self).cursor(),
                    enc_seq(
                        old(self).endian(),
                        v@.take(i as int).map_values(|x: u32| x as nat),
                        4,
                    ),
                ),
                self.cursor() == old(self).cursor() + 4 * i,
            decreases n - i,
        {
            proof {
                lemma_enc_seq_len(
                    old(self).endian(),
                    v@.take(i as int).map_values(|x: u32| x as nat),
                    4,
                );
            }
            let r = self.write_u32(v[i]);
            match r {
                Ok(()) => {
                    proof {
                        let done = v@.take(i as int).map_values(|x: u32| x as nat);
                        lemma_enc_seq_snoc(old(self).endian(), done, v@[i as int] as nat, 4);
                        lemma_splice_splice(
                            old(self).bytes(),
                            old(self).cursor(),
                            enc_seq(old(self).endian(), done, 4),
                            enc(old(self).endian(), v@[i as int] as nat, 4),
                        );
                        assert(v@.take(i + 1).map_values(|x: u32| x as nat) =~= done.push(
                            v@[i as int] as nat,
                        ));
                    }
                },
                Err(e) => {
                    return Err(e);
                },
            }
            i += 1;
        }
        proof {
            assert(v@.take(n as int) =~= v@);
        }
        Ok(())
    }

    /// Reads `n` values in order, four bytes per value, in the buffer's byte
    /// order.
    fn read_u32_vec(&mut self, n: usize) -> (r: Result<Vec<u32>, BufferError>)
        ensures
            final(self).endian() == old(self).endian(),
            final(self).growable() == old(self).growable(),
            final(self).bytes() == old(self).bytes(),
            r is Ok <==> old(self).cursor() + 4 * n <= old(self).bytes().len(),
            r matches Ok(v) ==> v@.len() == n && final(self).cursor() == old(self).cursor() + 4
                * n && (forall|k: int|
                0 <= k < n ==> v@[k] as nat == dec(
                    old(self).endian(),
                    old(self).bytes().subrange(
                        old(self).cursor() + 4 * k,
                        old(self).cursor() + 4 * k + 4,
                    ),
                )),
            r is Err ==> r == Err::<Vec<u32>, BufferError>(BufferError::BoundsExceeded)
                && final(self).cursor() == old(self).cursor(),
    {
        let l = self.len();
        let p = self.pos();
        let total = match n.checked_mul(4) {
            Some(t) => t,
            None => {
                return Err(BufferError::BoundsExceeded);
            },
        };
        if total > l || p > l - total {
            return Err(BufferError::BoundsExceeded);
        }
        let mut out: Vec<u32> = Vec::new();
        let mut i: usize = 0;
        while i < n
            invariant
                i <= n,
                old(self).cursor() + 4 * n <= old(self).bytes().len(),
                self.endian() == old(self).endian(),
                self.growable() == old(self).growable(),
                self.bytes() == old(self).bytes(),
                self.cursor() == old(self).cursor() + 4 * i,
                out@.len() == i,
                forall|k: int| 0 <= k < i ==> out@[k] as nat == dec(old(self).endian(), old(self).bytes().subrange(old(self).cursor() + 4 * k, old(self).cursor() + 4 * k + 4)),
            decreases n - i,
        {
            match self.read_u32() {
                Ok(x) => {
                    out.push(x);
                },
                Err(e) => {
                    return Err(e);
                },
            }
            i += 1;
        }
        Ok(out)
    }

    /// Writes each element of `v` in order, eight bytes per element, in the
    /// buffer's byte order.
    fn write_u64_vec(&mut self, v: &Vec<u64>) -> (r: Result<(), BufferError>)
        requires
            old(self).growable() ==> old(self).cursor() + 8 * v@.len() <= usize::MAX,
        ensures
            final(self).endian() == old(self).endian(),
            final(self).growable() == old(self).growable(),
            r is Ok <==> old(self).growable() || v@.len() == 0
                || old(self).cursor() + 8 * v@.len() <= old(self).bytes().len(),
            r is Ok ==> final(self).bytes() == splice(
                old(self).bytes(),
                old(self).cursor(),
                enc_seq(old(self).endian(), v@.map_values(|x: u64| x as nat), 8),
            ) && final(self).cursor() == old(self).cursor() + 8 * v@.len(),
            r is Ok ==> final(self).bytes().len() == spliced_len(
                old(self).bytes().len(),
                old(self).cursor(),
                8 * v@.len(),
            ),
            r is Err ==> r == Err::<(), BufferError>(BufferError::BoundsExceeded)
                && final(self).bytes() == old(self).bytes()
                && final(self).cursor() == old(self).cursor(),
    {
        let n = v.len();
        if n == 0 {
            proof {
                assert(v@.map_values(|x: u64| x as nat) =~= Seq::<nat>::empty());
                assert(splice(
                    self.bytes(),
                    self.cursor(),
                    enc_seq(self.endian(), v@.map_values(|x: u64| x as nat), 8),
                ) =~= self.bytes());
            }
            return Ok(());
        }
        if !self.is_growable() {
            let l = self.len();
            let p = self.pos();
            let total = match n.checked_mul(8) {
                Some(t) => t,
                None => {
                    return Err(BufferError::BoundsExceeded);
                },
            };
            if total > l || p > l - total {
                return Err(BufferError::BoundsExceeded);
            }
        }
        let mut i: usize = 0;
        while i < n
            invariant
                i <= n == v@.len(),
                self.endian() == old(self).endian(),
                self.growable() == old(self).growable(),
                old(self).growable() ==> old(self).cursor() + 8 * n <= usize::MAX,
                !old(self).growable() ==> old(self).cursor() + 8 * n <= old(self).bytes().len(),
                self.bytes() == splice(
                    old(self).bytes(),
                    old(self).cursor(),
                    enc_seq(
                        old(self).endian(),
                        v@.take(i as int).map_values(|x: u64| x as nat),
                        8,
                    ),
                ),
                self.cursor() == old(self).cursor() + 8 * i,
            decreases n - i,
        {
            proof {
                lemma_enc_seq_len(
                    old(self).endian(),
                    v@.take(i as int).map_values(|x: u64| x as nat),
                    8,
                );
            }
            let r = self.write_u64(v[i]);
            match r {
                Ok(()) => {
                    proof {
                        let done = v@.take(i as int).map_values(|x: u64| x as nat);
                        lemma_enc_seq_snoc(old(self).endian(), done, v@[i as int] as nat, 8);
                        lemma_splice_splice(
                            old(self).bytes(),
                            old(self).cursor(),
                            enc_seq(old(self).endian(), done, 8),
                            enc(old(self).endian(), v@[i as int] as nat, 8),
                        );
                        assert(v@.take(i + 1).map_values(|x: u64| x as nat) =~= done.push(
                            v@[i as int] as nat,
                        ));
                    }
                },
                Err(e) => {
                    return Err(e);
                },
            }
            i += 1;
        }
        proof {
            assert(v@.take(n as int) =~= v@);
        }
        Ok(())
    }

    /// Reads `n` values in order, eight bytes per value, in the buffer's byte
    /// order.
    fn read_u64_vec(&mut self, n: usize) -> (r: Result<Vec<u64>, BufferError>)
        ensures
            final(self).endian() == old(self).endian(),
            final(self).growable() == old(self).growable(),
            final(self).bytes() == old(self).bytes(),
            r is Ok <==> old(self).cursor() + 8 * n <= old(self).bytes().len(),
            r matches Ok(v) ==> v@.len() == n && final(self).cursor() == old(self).cursor() + 8
                * n && (forall|k: int|
                0 <= k < n ==> v@[k] as nat == dec(
                    old(self).endian(),
                    old(self).bytes().subrange(
                        old(self).cursor() + 8 * k,
                        old(self).cursor() + 8 * k + 8,
                    ),
                )),
            r is Err ==> r == Err::<Vec<u64>, BufferError>(BufferError::BoundsExceeded)
                && final(self).cursor() == old(self).cursor(),
    {
        let l = self.len();
        let p = self.pos();
        let total = match n.checked_mul(8) {
            Some(t) => t,
            None => {
                return Err(BufferError::BoundsExceeded);
            },
        };
        if total > l || p > l - total {
            return Err(BufferError::BoundsExceeded);
        }
        let mut out: Vec<u64> = Vec::new();
        let mut i: usize = 0;
        while i < n
            invariant
                i <= n,
                old(self).cursor() + 8 * n <= old(self).bytes().len(),
                self.endian() == old(self).endian(),
                self.growable() == old(self).growable(),
                self.bytes() == old(self).bytes(),
                self.cursor() == old(self).cursor() + 8 * i,
                out@.len() == i,
                forall|k: int| 0 <= k < i ==> out@[k] as nat == dec(old(self).endian(), old(self).bytes().subrange(old(self).cursor() + 8 * k, old(self).cursor() + 8 * k + 8)),
            decreases n - i,
        {
            match self.read_u64() {
                Ok(x) => {
                    out.push(x);
                },
                Err(e) => {
                    return Err(e);
                },
            }
            i += 1;
        }
        Ok(out)
    }

    /// Writes each element of `v` in order, two bytes per element, in the
    /// buffer's byte order.
    fn write_i16_vec(&mut self, v: &Vec<i16>) -> (r: Result<(), BufferError>)
        requires
            old(self).growable() ==> old(self).cursor() + 2 * v@.len() <= usize::MAX,
        ensures
            final(self).endian() == old(self).endian(),
            final(self).growable() == old(self).growable(),
            r is Ok <==> old(self).growable() || v@.len() == 0
                || old(self).cursor() + 2 * v@.len() <= old(self).bytes().len(),
            r is Ok ==> final(self).bytes() == splice(
                old(self).bytes(),
                old(self).cursor(),
                enc_seq(old(self).endian(), v@.map_values(|x: i16| (x as u16) as nat), 2),
            ) && final(self).cursor() == old(self).cursor() + 2 * v@.len(),
            r is Ok ==> final(self).bytes().len() == spliced_len(
                old(self).bytes().len(),
                old(self).cursor(),
                2 * v@.len(),
            ),
            r is Err ==> r == Err::<(), BufferError>(BufferError::BoundsExceeded)
                && final(self).bytes() == old(self).bytes()
                && final(self).cursor() == old(self).cursor(),
    {
        let n = v.len();
        if n == 0 {
            proof {
                assert(v@.map_values(|x: i16| (x as u16) as nat) =~= Seq::<nat>::empty());
                assert(splice(
                    self.bytes(),
                    self.cursor(),
                    enc_seq(self.endian(), v@.map_values(|x: i16| (x as u16) as nat), 2),
                ) =~= self.bytes());
            }
            return Ok(());
        }
        if !self.is_growable() {
            let l = self.len();
            let p = self.pos();
            let total = match n.checked_mul(2) {
                Some(t) => t,
                None => {
                    return Err(BufferError::BoundsExceeded);
                },
            };
            if total > l || p > l - total {
                return Err(BufferError::BoundsExceeded);
            }
        }
        let mut i: usize = 0;
        while i < n
            invariant
                i <= n == v@.len(),
                self.endian() == old(self).endian(),
                self.growable() == old(self).growable(),
                old(self).growable() ==> old(self).cursor() + 2 * n <= usize::MAX,
                !old(self).growable() ==> old(self).cursor() + 2 * n <= old(self).bytes().len(),
                self.bytes() == splice(
                    old(self).bytes(),
                    old(self).cursor(),
                    enc_seq(
                        old(self).endian(),
                        v@.take(i as int).map_values(|x: i16| (x as u16) as nat),
                        2,
                    ),
                ),
                self.cursor() == old(self).cursor() + 2 * i,
            decreases n - i,
        {
            proof {
                lemma_enc_seq_len(
                    old(self).endian(),
                    v@.take(i as int).map_values(|x: i16| (x as u16) as nat),
                    2,
                );
            }
            let r = self.write_i16(v[i]);
            match r {
                Ok(()) => {
                    proof {
                        let done = v@.take(i as int).map_values(|x: i16| (x as u16) as nat);
                        lemma_enc_seq_snoc(old(self).endian(), done, (v@[i as int] as u16) as nat, 2);
                        lemma_splice_splice(
                            old(self).bytes(),
                            old(self).cursor(),
                            enc_seq(old(self).endian(), done, 2),
                            enc(old(self).endian(), (v@[i as int] as u16) as nat, 2),
                        );
                        assert(v@.take(i + 1).map_values(|x: i16| (x as u16) as nat) =~= done.push(
                            (v@[i as int] as u16) as nat,
                        ));
                    }
                },
                Err(e) => {
                    return Err(e);
                },
            }
            i += 1;
        }
        proof {
            assert(v@.take(n as int) =~= v@);
        }
        Ok(())
    }

    /// Reads `n` signed values in order, two bytes per value, in the buffer's
    /// byte order.
    fn read_i16_vec(&mut self, n: usize) -> (r: Result<Vec<i16>, BufferError>)
        ensures
            final(self).endian() == old(self).endian(),
            final(self).growable() == old(self).growable(),
            final(self).bytes() == old(self).bytes(),
            r is Ok <==> old(self).cursor() + 2 * n <= old(self).bytes().len(),
            r matches Ok(v) ==> v@.len() == n && final(self).cursor() == old(self).cursor() + 2
                * n && (forall|k: int|
                0 <= k < n ==> v@[k] == dec(
                    old(self).endian(),
                    old(self).bytes().subrange(
                        old(self).cursor() + 2 * k,
                        old(self).cursor() + 2 * k + 2,
                    ),
                ) as u16 as i16),
            r is Err ==> r == Err::<Vec<i16>, BufferError>(BufferError::BoundsExceeded)
                && final(self).cursor() == old(self).cursor(),
    {
        let l = self.len();
        let p = self.pos();
        let total = match n.checked_mul(2) {
            Some(t) => t,
            None => {
                return Err(BufferError::BoundsExceeded);
            },
        };
        if total > l || p > l - total {
            return Err(BufferError::BoundsExceeded);
        }
        let mut out: Vec<i16> = Vec::new();
        let mut i: usize = 0;
        while i < n
            invariant
                i <= n,
                old(self).cursor() + 2 * n <= old(self).bytes().len(),
                self.endian() == old(self).endian(),
                self.growable() == old(self).growable(),
                self.bytes() == old(self).bytes(),
                self.cursor() == old(self).cursor() + 2 * i,
                out@.len() == i,
                forall|k: int| 0 <= k < i ==> out@[k] == dec(old(self).endian(), old(self).bytes().subrange(old(self).cursor() + 2 * k, old(self).cursor() + 2 * k + 2)) as u16 as i16,
            decreases n - i,
        {
            match self.read_i16() {
                Ok(x) => {
                    out.push(x);
                },
                Err(e) => {
                    return Err(e);
                },
            }
            i += 1;
        }
        Ok(out)
    }

    /// Writes each element of `v` in order, four bytes per element, in the
    /// buffer's byte order.
    fn write_i32_vec(&mut self, v: &Vec<i32>) -> (r: Result<(), BufferError>)
        requires
            old(self).growable() ==> old(self).cursor() + 4 * v@.len() <= usize::MAX,
        ensures
            final(self).endian() == old(self).endian(),
            final(self).growable() == old(self).growable(),
            r is Ok <==> old(self).growable() || v@.len() == 0
                || old(self).cursor() + 4 * v@.len() <= old(self).bytes().len(),
            r is Ok ==> final(self).bytes() == splice(
                old(self).bytes(),
                old(self).cursor(),
                enc_seq(old(self).endian(), v@.map_values(|x: i32| (x as u32) as nat), 4),
            ) && final(self).cursor() == old(self).cursor() + 4 * v@.len(),
            r is Ok ==> final(self).bytes().len() == spliced_len(
                old(self).bytes().len(),
                old(self).cursor(),
                4 * v@.len(),
            ),
            r is Err ==> r == Err::<(), BufferError>(BufferError::BoundsExceeded)
                && final(self).bytes() == old(self).bytes()
                && final(self).cursor() == old(self).cursor(),
    {
        let n = v.len();
        if n == 0 {
            proof {
                assert(v@.map_values(|x: i32| (x as u32) as nat) =~= Seq::<nat>::empty());
                assert(splice(
                    self.bytes(),
                    self.cursor(),
                    enc_seq(self.endian(), v@.map_values(|x: i32| (x as u32) as nat), 4),
                ) =~= self.bytes());
            }
            return Ok(());
        }
        if !self.is_growable() {
            let l = self.len();
            let p = self.pos();
            let total = match n.checked_mul(4) {
                Some(t) => t,
                None => {
                    return Err(BufferError::BoundsExceeded);
                },
            };
            if total > l || p > l - total {
                return Err(BufferError::BoundsExceeded);
            }
        }
        let mut i: usize = 0;
        while i < n
            invariant
                i <= n == v@.len(),
                self.endian() == old(self).endian(),
                self.growable() == old(self).growable(),
                old(self).growable() ==> old(self).cursor() + 4 * n <= usize::MAX,
                !old(self).growable() ==> old(self).cursor() + 4 * n <= old(self).bytes().len(),
                self.bytes() == splice(
                    old(self).bytes(),
                    old(self).cursor(),
                    enc_seq(
                        old(self).endian(),
                        v@.take(i as int).map_values(|x: i32| (x as u32) as nat),
                        4,
                    ),
                ),
                self.cursor() == old(self).cursor() + 4 * i,
            decreases n - i,
        {
            proof {
                lemma_enc_seq_len(
                    old(self).endian(),
                    v@.take(i as int).map_values(|x: i32| (x as u32) as nat),
                    4,
                );
            }
            let r = self.write_i32(v[i]);
            match r {
                Ok(()) => {
                    proof {
                        let done = v@.take(i as int).map_values(|x: i32| (x as u32) as nat);
                        lemma_enc_seq_snoc(old(self).endian(), done, (v@[i as int] as u32) as nat, 4);
                        lemma_splice_splice(
                            old(self).bytes(),
                            old(self).cursor(),
                            enc_seq(old(self).endian(), done, 4),
                            enc(old(self).endian(), (v@[i as int] as u32) as nat, 4),
                        );
                        assert(v@.take(i + 1).map_values(|x: i32| (x as u32) as nat) =~= done.push(
                            (v@[i as int] as u32) as nat,
                        ));
                    }
                },
                Err(e) => {
                    return Err(e);
                },
            }
            i += 1;
        }
        proof {
            assert(v@.take(n as int) =~= v@);
        }
        Ok(())
    }

    /// Reads `n` signed values in order, four bytes per value, in the buffer's
    /// byte order.
    fn read_i32_vec(&mut self, n: usize) -> (r: Result<Vec<i32>, BufferError>)
        ensures
            final(self).endian() == old(self).endian(),
            final(self).growable() == old(self).growable(),
            final(self).bytes() == old(self).bytes(),
            r is Ok <==> old(self).cursor() + 4 * n <= old(self).bytes().len(),
            r matches Ok(v) ==> v@.len() == n && final(self).cursor() == old(self).cursor() + 4
                * n && (forall|k: int|
                0 <= k < n ==> v@[k] == dec(
                    old(self).endian(),
                    old(self).bytes().subrange(
                        old(self).cursor() + 4 * k,
                        old(self).cursor() + 4 * k + 4,
                    ),
                ) as u32 as i32),
            r is Err ==> r == Err::<Vec<i32>, BufferError>(BufferError::BoundsExceeded)
                && final(self).cursor() == old(self).cursor(),
    {
        let l = self.len();
        let p = self.pos();
        let total = match n.checked_mul(4) {
            Some(t) => t,
            None => {
                return Err(BufferError::BoundsExceeded);
            },
        };
        if total > l || p > l - total {
            return Err(BufferError::BoundsExceeded);
        }
        let mut out: Vec<i32> = Vec::new();
        let mut i: usize = 0;
        while i < n
            invariant
                i <= n,
                old(self).cursor() + 4 * n <= old(self).bytes().len(),
                self.endian() == old(self).endian(),
                self.growable() == old(self).growable(),
                self.bytes() == old(self).bytes(),
                self.cursor() == old(self).cursor() + 4 * i,
                out@.len() == i,
                forall|k: int| 0 <= k < i ==> out@[k] == dec(old(self).endian(), old(self).bytes().subrange(old(self).cursor() + 4 * k, old(self).cursor() + 4 * k + 4)) as u32 as i32,
            decreases n - i,
        {
            match self.read_i32() {
                Ok(x) => {
                    out.push(x);
                },
                Err(e) => {
                    return Err(e);
                },
            }
            i += 1;
        }
        Ok(out)
    }

    /// Writes each element of `v` in order, eight bytes per element, in the
    /// buffer's byte order.
    fn write_i64_vec(&mut self, v: &Vec<i64>) -> (r: Result<(), BufferError>)
        requires
            old(self).growable() ==> old(self).cursor() + 8 * v@.len() <= usize::MAX,
        ensures
            final(self).endian() == old(self).endian(),
            final(self).growable() == old(self).growable(),
            r is Ok <==> old(self).growable() || v@.len() == 0
                || old(self).cursor() + 8 * v@.len() <= old(self).bytes().len(),
            r is Ok ==> final(self).bytes() == splice(
                old(self).bytes(),
                old(self).cursor(),
                enc_seq(old(self).endian(), v@.map_values(|x: i64| (x as u64) as nat), 8),
            ) && final(self).cursor() == old(self).cursor() + 8 * v@.len(),
            r is Ok ==> final(self).bytes().len() == spliced_len(
                old(self).bytes().len(),
                old(self).cursor(),
                8 * v@.len(),
            ),
            r is Err ==> r == Err::<(), BufferError>(BufferError::BoundsExceeded)
                && final(self).bytes() == old(self).bytes()
                && final(self).cursor() == old(self).cursor(),
    {
        let n = v.len();
        if n == 0 {
            proof {
                assert(v@.map_values(|x: i64| (x as u64) as nat) =~= Seq::<nat>::empty());
                assert(splice(
                    self.bytes(),
                    self.cursor(),
                    enc_seq(self.endian(), v@.map_values(|x: i64| (x as u64) as nat), 8),
                ) =~= self.bytes());
            }
            return Ok(());
        }
        if !self.is_growable() {
            let l = self.len();
            let p = self.pos();
            let total = match n.checked_mul(8) {
                Some(t) => t,
                None => {
                    return Err(BufferError::BoundsExceeded);
                },
            };
            if total > l || p > l - total {
                return Err(BufferError::BoundsExceeded);
            }
        }
        let mut i: usize = 0;
        while i < n
            invariant
                i <= n == v@.len(),
                self.endian() == old(self).endian(),
                self.growable() == old(self).growable(),
                old(self).growable() ==> old(self).cursor() + 8 * n <= usize::MAX,
                !old(self).growable() ==> old(self).cursor() + 8 * n <= old(self).bytes().len(),
                self.bytes() == splice(
                    old(self).bytes(),
                    old(self).cursor(),
                    enc_seq(
                        old(self).endian(),
                        v@.take(i as int).map_values(|x: i64| (x as u64) as nat),
                        8,
                    ),
                ),
                self.cursor() == old(self).cursor() + 8 * i,
            decreases n - i,
        {
            proof {
                lemma_enc_seq_len(
                    old(self).endian(),
                    v@.take(i as int).map_values(|x: i64| (x as u64) as nat),
                    8,
                );
            }
            let r = self.write_i64(v[i]);
            match r {
                Ok(()) => {
                    proof {
                        let done = v@.take(i as int).map_values(|x: i64| (x as u64) as nat);
                        lemma_enc_seq_snoc(old(self).endian(), done, (v@[i as int] as u64) as nat, 8);
                        lemma_splice_splice(
                            old(self).bytes(),
                            old(self).cursor(),
                            enc_seq(old(self).endian(), done, 8),
                            enc(old(self).endian(), (v@[i as int] as u64) as nat, 8),
                        );
                        assert(v@.take(i + 1).map_values(|x: i64| (x as u64) as nat) =~= done.push(
                            (v@[i as int] as u64) as nat,
                        ));
                    }
                },
                Err(e) => {
                    return Err(e);
                },
            }
            i += 1;
        }
        proof {
            assert(v@.take(n as int) =~= v@);
        }
        Ok(())
    }

    /// Reads `n` signed values in order, eight bytes per value, in the buffer's
    /// byte order.
    fn read_i64_vec(&mut self, n: usize) -> (r: Result<Vec<i64>, BufferError>)
        ensures
            final(self).endian() == old(self).endian(),
            final(self).growable() == old(self).growable(),
            final(self).bytes() == old(self).bytes(),
            r is Ok <==> old(self).cursor() + 8 * n <= old(self).bytes().len(),
            r matches Ok(v) ==> v@.len() == n && final(self).cursor() == old(self).cursor() + 8
                * n && (forall|k: int|
                0 <= k < n ==> v@[k] == dec(
                    old(self).endian(),
                    old(self).bytes().subrange(
                        old(self).cursor() + 8 * k,
                        old(self).cursor() + 8 * k + 8,
                    ),
                ) as u64 as i64),
            r is Err ==> r == Err::<Vec<i64>, BufferError>(BufferError::BoundsExceeded)
                && final(self).cursor() == old(self).cursor(),
    {
        let l = self.len();
        let p = self.pos();
        let total = match n.checked_mul(8) {
            Some(t) => t,
            None => {
                return Err(BufferError::BoundsExceeded);
            },
        };
        if total > l || p > l - total {
            return Err(BufferError::BoundsExceeded);
        }
        let mut out: Vec<i64> = Vec::new();
        let mut i: usize = 0;
        while i < n
            invariant
                i <= n,
                old(self).cursor() + 8 * n <= old(self).bytes().len(),
                self.endian() == old(self).endian(),
                self.growable() == old(self).growable(),
                self.bytes() == old(self).bytes(),
                self.cursor() == old(self).cursor() + 8 * i,
                out@.len() == i,
                forall|k: int| 0 <= k < i ==> out@[k] == dec(old(self).endian(), old(self).bytes().subrange(old(self).cursor() + 8 * k, old(self).cursor() + 8 * k + 8)) as u64 as i64,
            decreases n - i,
        {
            match self.read_i64() {
                Ok(x) => {
                    out.push(x);
                },
                Err(e) => {
                    return Err(e);
                },
            }
            i += 1;
        }
        Ok(out)
    }
}

/// Relies on `String::from_utf8`: it succeeds exactly on input that is
/// valid UTF-8 and then returns the string those bytes spell.
#[verifier::external_body]
fn string_from_utf8_bytes(v: Vec<u8>) -> (r: Option<String>)
    ensures
        r is Some <==> valid_utf8(v@),
        r matches Some(t) ==> t@ == decode_utf8(v@),
{
    String::from_utf8(v).ok()
}

} // verus!
