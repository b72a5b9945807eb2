//! The laws the buffer engine obeys, stated once over the storage model:
//! `splice` is what a write leaves in storage, `enc`/`enc_seq` are the bytes
//! a write lays down, and `dec` is what a read makes of them, so each law
//! connects the `ensures` of a write to the `ensures` of the read after it.

use vstd::arithmetic::div_mod::lemma_small_mod;
use vstd::prelude::*;

verus! {

use crate::buffer::lemma_splice_reads_back;
use crate::buffer::splice;
use crate::codec::dec;
use crate::codec::enc;
use crate::codec::enc_seq;
use crate::codec::lemma_enc_dec;
use crate::codec::lemma_enc_len;
use crate::codec::lemma_enc_seq_index;
use crate::codec::lemma_enc_seq_len;
use crate::codec::lemma_pow256_values;
use crate::codec::pow256;
use crate::Endianess;
use vstd::utf8::decode_utf8;
use vstd::utf8::encode_utf8;
use vstd::utf8::encode_utf8_decode_utf8;
use vstd::utf8::encode_utf8_valid_utf8;
use vstd::utf8::valid_utf8;

/// Encoding a value that fits in `n` bytes and decoding those bytes under
/// the same endianness gives the value back, for little-endian and
/// big-endian alike.
pub proof fn lemma_same_endian_round_trip(e: Endianess, v: nat, n: nat)
    requires
        v < pow256(n),
    ensures
        dec(e, enc(e, v, n)) == v,
{
    lemma_enc_dec(e, v, n);
    lemma_small_mod(v, pow256(n));
}

/// The two byte orders lay down the same bytes in opposite order.
pub proof fn lemma_endianness_reverse(v: nat, n: nat)
    ensures
        enc(Endianess::BE, v, n) == enc(Endianess::LE, v, n).reverse(),
{
}

/// Whenever the little-endian encoding of a value is not a palindrome, the
/// two byte orders produce different byte sequences; a value whose encoded
/// bytes read the same forwards and backwards (in particular one whose
/// bytes are all equal) encodes identically under both orders.
pub proof fn lemma_endianness_differs(v: nat, n: nat)
    requires
        enc(Endianess::LE, v, n) != enc(Endianess::LE, v, n).reverse(),
    ensures
        enc(Endianess::BE, v, n) != enc(Endianess::LE, v, n),
{
}

/// Writing one byte at offset `p` stores exactly that byte at `p`: the
/// byte a read at `p` then returns.
pub proof fn lemma_round_trip_u8(s: Seq<u8>, p: nat, v: u8)
    ensures
        splice(s, p, seq![v])[p as int] == v,
{
}

/// Writing a 16-bit value at offset `p` and decoding the two bytes found
/// there afterwards gives the value back, under either endianness.
pub proof fn lemma_round_trip_u16(s: Seq<u8>, p: nat, e: Endianess, v: u16)
    ensures
        dec(e, splice(s, p, enc(e, v as nat, 2)).subrange(p as int, p as int + 2)) == v as nat,
{
    lemma_width_round_trip(s, p, e, v as nat, 2);
    lemma_pow256_values();
    lemma_small_mod(v as nat, pow256(2));
}

/// Writing a 24-bit value (held in a 32-bit integer below `0x1000000`) at
/// offset `p` and decoding the three bytes found there afterwards gives
/// the value back, under either endianness.
pub proof fn lemma_round_trip_u24(s: Seq<u8>, p: nat, e: Endianess, v: u32)
    requires
        v < 0x1000000,
    ensures
        dec(e, splice(s, p, enc(e, v as nat, 3)).subrange(p as int, p as int + 3)) == v as nat,
{
    lemma_width_round_trip(s, p, e, v as nat, 3);
    lemma_pow256_values();
    lemma_small_mod(v as nat, pow256(3));
}

/// Writing a 32-bit value at offset `p` and decoding the four bytes found
/// there afterwards gives the value back, under either endianness.
pub proof fn lemma_round_trip_u32(s: Seq<u8>, p: nat, e: Endianess, v: u32)
    ensures
        dec(e, splice(s, p, enc(e, v as nat, 4)).subrange(p as int, p as int + 4)) == v as nat,
{
    lemma_width_round_trip(s, p, e, v as nat, 4);
    lemma_pow256_values();
    lemma_small_mod(v as nat, pow256(4));
}

/// Writing a 64-bit value at offset `p` and decoding the eight bytes found
/// there afterwards gives the value back, under either endianness.
pub proof fn lemma_round_trip_u64(s: Seq<u8>, p: nat, e: Endianess, v: u64)
    ensures
        dec(e, splice(s, p, enc(e, v as nat, 8)).subrange(p as int, p as int + 8)) == v as nat,
{
    lemma_width_round_trip(s, p, e, v as nat, 8);
    lemma_pow256_values();
    lemma_small_mod(v as nat, pow256(8));
}

/// Writing a signed 16-bit value at offset `p` and reading two bytes back
/// as a signed value afterwards gives the value back, under either
/// endianness: the bit pattern, and with it the sign, survives the trip.
pub proof fn lemma_round_trip_i16(s: Seq<u8>, p: nat, e: Endianess, v: i16)
    ensures
        dec(
            e,
            splice(s, p, enc(e, (v as u16) as nat, 2)).subrange(p as int, p as int + 2),
        ) as u16 as i16 == v,
{
    lemma_round_trip_u16(s, p, e, v as u16);
    assert((v as u16) as i16 == v) by (bit_vector);
}

/// Writing a signed 32-bit value at offset `p` and reading four bytes back
/// as a signed value afterwards gives the value back, under either
/// endianness.
pub proof fn lemma_round_trip_i32(s: Seq<u8>, p: nat, e: Endianess, v: i32)
    ensures
        dec(
            e,
            splice(s, p, enc(e, (v as u32) as nat, 4)).subrange(p as int, p as int + 4),
        ) as u32 as i32 == v,
{
    lemma_round_trip_u32(s, p, e, v as u32);
    assert((v as u32) as i32 == v) by (bit_vector);
}

/// Writing a signed 64-bit value at offset `p` and reading eight bytes
/// back as a signed value afterwards gives the value back, under either
/// endianness.
pub proof fn lemma_round_trip_i64(s: Seq<u8>, p: nat, e: Endianess, v: i64)
    ensures
        dec(
            e,
            splice(s, p, enc(e, (v as u64) as nat, 8)).subrange(p as int, p as int + 8),
        ) as u64 as i64 == v,
{
    lemma_round_trip_u64(s, p, e, v as u64);
    assert((v as u64) as i64 == v) by (bit_vector);
}

/// Writing one signed byte at offset `p` and reading it back as a signed
/// value gives the value back.
pub proof fn lemma_round_trip_i8(s: Seq<u8>, p: nat, v: i8)
    ensures
        splice(s, p, seq![v as u8])[p as int] as i8 == v,
{
    assert((v as u8) as i8 == v) by (bit_vector);
}

/// The common step of the unsigned round trips: an `n`-byte write at `p`
/// is decoded from the written storage as the encoded value.
proof fn lemma_width_round_trip(s: Seq<u8>, p: nat, e: Endianess, v: nat, n: nat)
    requires
        n > 0,
    ensures
        dec(e, splice(s, p, enc(e, v, n)).subrange(p as int, p as int + n)) == v % pow256(n),
{
    lemma_enc_len(e, v, n);
    lemma_splice_reads_back(s, p, enc(e, v, n));
    lemma_enc_dec(e, v, n);
}

/// Writing an array of values of one width at offset `p` stores each
/// element at its own offset: decoding the bytes at `p + w * i` gives
/// element `i` back (modulo the width, which is the identity for every
/// value that fits).
pub proof fn lemma_round_trip_vec(s: Seq<u8>, p: nat, e: Endianess, vals: Seq<nat>, w: nat, i: int)
    requires
        w > 0,
        0 <= i < vals.len(),
    ensures
        dec(
            e,
            splice(s, p, enc_seq(e, vals, w)).subrange(
                p as int + w * i,
                p as int + w * i + w,
            ),
        ) == vals[i] % pow256(w),
{
    let data = enc_seq(e, vals, w);
    lemma_enc_seq_len(e, vals, w);
    lemma_splice_reads_back(s, p, data);
    lemma_enc_seq_index(e, vals, w, i);
    lemma_enc_dec(e, vals[i], w);
    assert(w * i + w <= w * vals.len()) by (nonlinear_arith)
        requires
            i + 1 <= vals.len(),
            w >= 0,
    ;
    assert(w * i >= 0) by (nonlinear_arith)
        requires
            i >= 0,
            w >= 0,
    ;
    assert(splice(s, p, data).subrange(p as int + w * i, p as int + w * i + w) =~= data.subrange(
        w * i,
        w * i + w,
    ));
}

/// Writing the UTF-8 bytes of a string at offset `p` and decoding that
/// many bytes from the written storage afterwards gives the string back:
/// the written range is valid UTF-8 and spells the original characters.
pub proof fn lemma_string_round_trip(s: Seq<u8>, p: nat, t: Seq<char>)
    requires
        p <= s.len() || encode_utf8(t).len() > 0,
    ensures
        valid_utf8(
            splice(s, p, encode_utf8(t)).subrange(
                p as int,
                p as int + encode_utf8(t).len() as int,
            ),
        ),
        decode_utf8(
            splice(s, p, encode_utf8(t)).subrange(
                p as int,
                p as int + encode_utf8(t).len() as int,
            ),
        ) == t,
{
    let data = encode_utf8(t);
    lemma_splice_reads_back(s, p, data);
    encode_utf8_valid_utf8(t);
    encode_utf8_decode_utf8(t);
}

} // verus!
