//! The number codec shared by every buffer flavour: a value is encoded as a
//! fixed number of bytes, least significant first for little-endian and most
//! significant first for big-endian.

use vstd::arithmetic::div_mod::lemma_div_denominator;
use vstd::arithmetic::div_mod::lemma_fundamental_div_mod;
use vstd::prelude::*;

verus! {

use crate::Endianess;

/// `256^n`: the number of distinct values that `n` bytes can hold.
pub open spec fn pow256(n: nat) -> nat
    decreases n,
{
    if n == 0 {
        1
    } else {
        256 * pow256((n - 1) as nat)
    }
}

/// The `n` little-endian bytes of `v`; anything of `v` beyond `n` bytes is
/// discarded, so the encoded value is `v % pow256(n)`.
pub open spec fn le_bytes(v: nat, n: nat) -> Seq<u8>
    decreases n,
{
    if n == 0 {
        Seq::empty()
    } else {
        seq![(v % 256) as u8] + le_bytes(v / 256, (n - 1) as nat)
    }
}

/// The value of a little-endian byte sequence.
pub open spec fn le_value(s: Seq<u8>) -> nat
    decreases s.len(),
{
    if s.len() == 0 {
        0
    } else {
        s[0] as nat + 256 * le_value(s.drop_first())
    }
}

/// The encoding of `v % pow256(n)` in `n` bytes under endianness `e`.
pub open spec fn enc(e: Endianess, v: nat, n: nat) -> Seq<u8> {
    match e {
        Endianess::LE => le_bytes(v, n),
        Endianess::BE => le_bytes(v, n).reverse(),
    }
}

/// The value of a byte sequence read under endianness `e`.
pub open spec fn dec(e: Endianess, s: Seq<u8>) -> nat {
    match e {
        Endianess::LE => le_value(s),
        Endianess::BE => le_value(s.reverse()),
    }
}

pub proof fn lemma_le_bytes_len(v: nat, n: nat)
    ensures
        le_bytes(v, n).len() == n,
    decreases n,
{
    if n > 0 {
        lemma_le_bytes_len(v / 256, (n - 1) as nat);
    }
}

pub broadcast proof fn lemma_enc_len(e: Endianess, v: nat, n: nat)
    ensures
        (#[trigger] enc(e, v, n)).len() == n,
{
    lemma_le_bytes_len(v, n);
}

pub proof fn lemma_pow256_pos(n: nat)
    ensures
        pow256(n) >= 1,
    decreases n,
{
    if n > 0 {
        lemma_pow256_pos((n - 1) as nat);
    }
}

pub proof fn lemma_le_value_bound(s: Seq<u8>)
    ensures
        le_value(s) < pow256(s.len()),
    decreases s.len(),
{
    if s.len() > 0 {
        lemma_le_value_bound(s.drop_first());
    }
}

/// Decoding the little-endian encoding of `v` gives back `v % pow256(n)`;
/// in particular it gives back `v` whenever `v` fits in `n` bytes.
pub proof fn lemma_le_round_trip(v: nat, n: nat)
    ensures
        le_value(le_bytes(v, n)) == v % pow256(n),
    decreases n,
{
    if n == 0 {
        assert(pow256(0) == 1);
        assert(v % 1 == 0) by (nonlinear_arith);
    } else {
        let s = le_bytes(v, n);
        let tail = le_bytes(v / 256, (n - 1) as nat);
        assert(s.drop_first() =~= tail);
        lemma_le_round_trip(v / 256, (n - 1) as nat);
        assert(le_value(s) == v % 256 + 256 * ((v / 256) % pow256((n - 1) as nat)));
        lemma_pow256_pos((n - 1) as nat);
        lemma_mod_split(v, pow256((n - 1) as nat));
    }
}

/// `v % (256 * p)` split into its lowest byte and the rest.
proof fn lemma_mod_split(v: nat, p: nat)
    requires
        p > 0,
    ensures
        v % (256 * p) == v % 256 + 256 * ((v / 256) % p),
{
    lemma_fundamental_div_mod(v as int, 256);
    let q = v / 256;
    let r = v % 256;
    assert(v == 256 * q + r);
    lemma_fundamental_div_mod(q as int, p as int);
    let q2 = q / p;
    let r2 = q % p;
    assert(q == p * q2 + r2);
    assert(v == 256 * (p * q2 + r2) + r);
    assert(v == (256 * p) * q2 + (256 * r2 + r)) by (nonlinear_arith)
        requires
            v == 256 * (p * q2 + r2) + r,
    ;
    assert(0 <= 256 * r2 + r < 256 * p) by (nonlinear_arith)
        requires
            0 <= r < 256,
            0 <= r2 < p,
    ;
    vstd::arithmetic::div_mod::lemma_fundamental_div_mod_converse(
        v as int,
        (256 * p) as int,
        q2 as int,
        (256 * r2 + r) as int,
    );
}

/// `pow256` grows with its exponent.
pub proof fn lemma_pow256_increases(a: nat, b: nat)
    requires
        a <= b,
    ensures
        pow256(a) <= pow256(b),
    decreases b,
{
    if a < b {
        lemma_pow256_increases(a, (b - 1) as nat);
        lemma_pow256_pos((b - 1) as nat);
    }
}

/// The powers of 256 for every width this codec uses.
pub proof fn lemma_pow256_values()
    ensures
        pow256(1) == 0x100,
        pow256(2) == 0x10000,
        pow256(3) == 0x1000000,
        pow256(4) == 0x100000000,
        pow256(8) == 0x10000000000000000,
{
    assert(pow256(0) == 1);
    assert(pow256(1) == 0x100);
    assert(pow256(2) == 0x10000);
    assert(pow256(3) == 0x1000000);
    assert(pow256(4) == 0x100000000);
    assert(pow256(5) == 0x10000000000);
    assert(pow256(6) == 0x1000000000000);
    assert(pow256(7) == 0x100000000000000);
    assert(pow256(8) == 0x10000000000000000);
}

/// One more little-endian byte extends the encoding at its most
/// significant end.
pub proof fn lemma_le_bytes_snoc(v: nat, n: nat)
    ensures
        le_bytes(v, n + 1) == le_bytes(v, n).push(((v / pow256(n)) % 256) as u8),
    decreases n,
{
    if n == 0 {
        vstd::arithmetic::div_mod::lemma_div_basics(v as int);
        assert(le_bytes(v / 256, 0) == Seq::<u8>::empty());
        assert(le_bytes(v, 0) == Seq::<u8>::empty());
        assert(le_bytes(v, 1) =~= le_bytes(v, 0).push(((v / pow256(0)) % 256) as u8));
    } else {
        lemma_le_bytes_snoc(v / 256, (n - 1) as nat);
        lemma_pow256_pos((n - 1) as nat);
        lemma_div_denominator(v as int, 256, pow256((n - 1) as nat) as int);
        assert(le_bytes(v, n + 1) =~= le_bytes(v, n).push(((v / pow256(n)) % 256) as u8));
    }
}

/// Decoding under either endianness gives back the encoded value; both
/// orders round-trip every value that fits in `n` bytes.
pub proof fn lemma_enc_dec(e: Endianess, v: nat, n: nat)
    ensures
        dec(e, enc(e, v, n)) == v % pow256(n),
{
    match e {
        Endianess::LE => {
            lemma_le_round_trip(v, n);
        },
        Endianess::BE => {
            assert(le_bytes(v, n).reverse().reverse() =~= le_bytes(v, n));
            lemma_le_round_trip(v, n);
        },
    }
}

/// A decoded value fits in as many bytes as were read.
pub proof fn lemma_dec_bound(e: Endianess, s: Seq<u8>)
    ensures
        dec(e, s) < pow256(s.len()),
{
    match e {
        Endianess::LE => {
            lemma_le_value_bound(s);
        },
        Endianess::BE => {
            lemma_le_value_bound(s.reverse());
        },
    }
}

/// The bytes of `s` in the opposite order.
pub fn reversed(s: &[u8]) -> (r: Vec<u8>)
    ensures
        r@ == s@.reverse(),
{
    let n = s.len();
    let mut out: Vec<u8> = Vec::new();
    let mut i: usize = 0;
    while i < n
        invariant
            i <= n == s@.len(),
            out@.len() == i,
            forall|k: int| 0 <= k < i ==> out@[k] == s@[n - 1 - k],
        decreases n - i,
    {
        out.push(s[n - 1 - i]);
        i += 1;
    }
    proof {
        assert(out@ =~= s@.reverse());
    }
    out
}

/// Encodes `v` into its `n`-byte representation under endianness `e`.
pub fn uint_to_bytes(v: u64, n: usize, e: Endianess) -> (r: Vec<u8>)
    ensures
        r@ == enc(e, v as nat, n as nat),
        r@.len() == n,
{
    let mut le: Vec<u8> = Vec::new();
    let mut x: u64 = v;
    let mut i: usize = 0;
    proof {
        vstd::arithmetic::div_mod::lemma_div_basics(v as int);
    }
    while i < n
        invariant
            i <= n,
            le@.len() == i,
            le@ == le_bytes(v as nat, i as nat),
            x as nat == (v as nat) / pow256(i as nat),
        decreases n - i,
    {
        let b = (x % 256) as u8;
        proof {
            lemma_le_bytes_snoc(v as nat, i as nat);
            lemma_pow256_pos(i as nat);
            lemma_div_denominator(v as int, pow256(i as nat) as int, 256);
        }
        le.push(b);
        x = x / 256;
        i += 1;
    }
    proof {
        lemma_le_bytes_len(v as nat, n as nat);
    }
    match e {
        Endianess::LE => le,
        Endianess::BE => reversed(le.as_slice()),
    }
}

/// Decodes a little-endian byte sequence of at most eight bytes.
fn le_from_bytes(s: &[u8]) -> (r: u64)
    requires
        s@.len() <= 8,
    ensures
        r as nat == le_value(s@),
{
    let n = s.len();
    let mut acc: u64 = 0;
    let mut i: usize = n;
    while i > 0
        invariant
            i <= n == s@.len() <= 8,
            acc as nat == le_value(s@.skip(i as int)),
        decreases i,
    {
        proof {
            lemma_le_value_bound(s@.skip(i as int));
            lemma_pow256_increases(s@.skip(i as int).len(), 7);
            lemma_pow256_values();
            assert((acc as nat) * 256 + 255 < pow256(8)) by (nonlinear_arith)
                requires
                    (acc as nat) < pow256(7),
                    pow256(8) == 256 * pow256(7),
            ;
            assert(s@.skip(i - 1).drop_first() =~= s@.skip(i as int));
            assert(s@.skip(i - 1)[0] == s@[i - 1]);
        }
        acc = acc * 256 + (s[i - 1] as u64);
        i -= 1;
    }
    proof {
        assert(s@.skip(0) =~= s@);
    }
    acc
}

/// Decodes the `s.len()`-byte value stored in `s` under endianness `e`.
pub fn uint_from_bytes(s: &[u8], e: Endianess) -> (r: u64)
    requires
        s@.len() <= 8,
    ensures
        r as nat == dec(e, s@),
{
    match e {
        Endianess::LE => le_from_bytes(s),
        Endianess::BE => {
            let rev = reversed(s);
            le_from_bytes(rev.as_slice())
        },
    }
}

/// The concatenated `width`-byte encodings of `vals` under endianness `e`.
pub open spec fn enc_seq(e: Endianess, vals: Seq<nat>, width: nat) -> Seq<u8>
    decreases vals.len(),
{
    if vals.len() == 0 {
        Seq::empty()
    } else {
        enc(e, vals[0], width) + enc_seq(e, vals.drop_first(), width)
    }
}

pub broadcast proof fn lemma_enc_seq_len(e: Endianess, vals: Seq<nat>, width: nat)
    ensures
        (#[trigger] enc_seq(e, vals, width)).len() == vals.len() * width,
    decreases vals.len(),
{
    if vals.len() == 0 {
    } else {
        lemma_enc_len(e, vals[0], width);
        lemma_enc_seq_len(e, vals.drop_first(), width);
        assert(vals.len() * width == width + (vals.len() - 1) * width) by (nonlinear_arith);
    }
}

/// One more element extends the concatenated encoding at its end.
pub proof fn lemma_enc_seq_snoc(e: Endianess, vals: Seq<nat>, x: nat, width: nat)
    ensures
        enc_seq(e, vals.push(x), width) == enc_seq(e, vals, width) + enc(e, x, width),
    decreases vals.len(),
{
    if vals.len() == 0 {
        assert(vals.push(x).drop_first() =~= Seq::<nat>::empty());
        assert(enc_seq(e, Seq::<nat>::empty(), width) == Seq::<u8>::empty());
        assert(vals =~= Seq::<nat>::empty());
        assert(vals.push(x)[0] == x);
        assert(enc_seq(e, vals.push(x), width) == enc(e, x, width) + Seq::<u8>::empty());
        assert(enc_seq(e, vals.push(x), width) =~= enc_seq(e, vals, width) + enc(e, x, width));
    } else {
        assert(vals.push(x).drop_first() =~= vals.drop_first().push(x));
        lemma_enc_seq_snoc(e, vals.drop_first(), x, width);
        assert(vals.push(x)[0] == vals[0]);
        assert(enc_seq(e, vals.push(x), width) == enc(e, vals[0], width) + enc_seq(
            e,
            vals.drop_first().push(x),
            width,
        ));
        assert(enc_seq(e, vals, width) == enc(e, vals[0], width) + enc_seq(
            e,
            vals.drop_first(),
            width,
        ));
        assert(enc_seq(e, vals.push(x), width) =~= enc_seq(e, vals, width) + enc(e, x, width));
    }
}

/// Each element of the concatenated encoding sits at its own offset.
pub proof fn lemma_enc_seq_index(e: Endianess, vals: Seq<nat>, width: nat, i: int)
    requires
        0 <= i < vals.len(),
    ensures
        enc_seq(e, vals, width).subrange(width * i, width * i + width) == enc(e, vals[i], width),
    decreases i,
{
    lemma_enc_seq_len(e, vals, width);
    lemma_enc_len(e, vals[0], width);
    lemma_enc_seq_len(e, vals.drop_first(), width);
    if i == 0 {
        assert(width * i == 0) by (nonlinear_arith)
            requires
                i == 0,
        ;
        assert(enc_seq(e, vals, width).subrange(width * i, width * i + width) =~= enc(
            e,
            vals[0],
            width,
        ));
    } else {
        lemma_enc_seq_index(e, vals.drop_first(), width, i - 1);
        assert(vals.drop_first()[i - 1] == vals[i]);
        assert((vals.len() - 1) * width == vals.len() * width - width) by (nonlinear_arith);
        assert(width * i + width <= vals.len() * width) by (nonlinear_arith)
            requires
                i + 1 <= vals.len(),
                width >= 0,
        ;
        assert(enc_seq(e, vals, width) == enc(e, vals[0], width) + enc_seq(
            e,
            vals.drop_first(),
            width,
        ));
        assert(width * (i - 1) == width * i - width) by (nonlinear_arith);
        assert(enc_seq(e, vals, width).subrange(width * i, width * i + width) =~= enc_seq(
            e,
            vals.drop_first(),
            width,
        ).subrange(width * (i - 1), width * (i - 1) + width));
    }
}

} // verus!
