//! Big-endian byte encodings of integers.

use vstd::arithmetic::div_mod::*;
use vstd::arithmetic::power::*;
use vstd::prelude::*;

verus! {

/// The unsigned value of big-endian bytes.
pub open spec fn be_unsigned(b: Seq<u8>) -> nat
    decreases b.len(),
{
    if b.len() == 0 {
        0
    } else {
        (be_unsigned(b.drop_last()) * 256 + b.last()) as nat
    }
}

/// The `width`-byte big-endian encoding of `v` (its low `width` bytes).
pub open spec fn be_seq(v: nat, width: nat) -> Seq<u8>
    decreases width,
{
    if width == 0 {
        Seq::empty()
    } else {
        be_seq(v / 256, (width - 1) as nat).push((v % 256) as u8)
    }
}

/// Bytes are the big-endian encoding of their unsigned value.
pub proof fn lemma_be_seq_of_bytes(b: Seq<u8>)
    ensures
        be_seq(be_unsigned(b), b.len()) == b,
    decreases b.len(),
{
    if b.len() > 0 {
        let v = be_unsigned(b);
        let rest = be_unsigned(b.drop_last());
        lemma_fundamental_div_mod_converse(v as int, 256, rest as int, b.last() as int);
        lemma_be_seq_of_bytes(b.drop_last());
        assert(b.drop_last().push(b.last()) =~= b);
    }
}

/// The two's-complement value of a 128-bit unsigned number.
pub open spec fn as_signed_128(u: int) -> int {
    if u >= 0x8000_0000_0000_0000_0000_0000_0000_0000 {
        u - 0x1_0000_0000_0000_0000_0000_0000_0000_0000int
    } else {
        u
    }
}

pub proof fn lemma_pow_unfold(b: int, e: nat)
    requires
        e > 0,
    ensures
        pow(b, e) == b * pow(b, (e - 1) as nat),
{
    reveal(pow);
}

/// `256^width` for the widths used here.
pub proof fn lemma_pow256_values()
    ensures
        pow(256, 0) == 1,
        pow(256, 4) == 0x1_0000_0000int,
        pow(256, 8) == 0x1_0000_0000_0000_0000int,
        pow(256, 15) == 0x0100_0000_0000_0000_0000_0000_0000_0000,
        pow(256, 16) == 0x1_0000_0000_0000_0000_0000_0000_0000_0000int,
{
    reveal(pow);
    assert(pow(256, 0) == 1int);
    assert(pow(256, 1) == 256int);
    assert(pow(256, 2) == 65536int);
    assert(pow(256, 3) == 16777216int);
    assert(pow(256, 4) == 4294967296int);
    assert(pow(256, 5) == 1099511627776int);
    assert(pow(256, 6) == 281474976710656int);
    assert(pow(256, 7) == 72057594037927936int);
    assert(pow(256, 8) == 18446744073709551616int);
    assert(pow(256, 9) == 4722366482869645213696int);
    assert(pow(256, 10) == 1208925819614629174706176int);
    assert(pow(256, 11) == 309485009821345068724781056int);
    assert(pow(256, 12) == 79228162514264337593543950336int);
    assert(pow(256, 13) == 20282409603651670423947251286016int);
    assert(pow(256, 14) == 5192296858534827628530496329220096int);
    assert(pow(256, 15) == 1329227995784915872903807060280344576int);
    assert(pow(256, 16) == 340282366920938463463374607431768211456int);
}

pub proof fn lemma_pow_increases_to(i: nat, j: nat)
    requires
        i <= j,
    ensures
        pow(256, i) <= pow(256, j),
    decreases j - i,
{
    if i < j {
        lemma_pow_increases_to(i, (j - 1) as nat);
        lemma_pow_unfold(256, j);
        lemma_pow_positive(256, (j - 1) as nat);
    }
}

/// `u` as `width` big-endian bytes.
pub fn be_encode(u: u128, width: usize) -> (b: Vec<u8>)
    requires
        1 <= width <= 16,
        u < pow(256, width as nat),
    ensures
        b@.len() == width,
        be_unsigned(b@) == u,
        b@ == be_seq(u as nat, width as nat),
{
    proof {
        lemma_pow256_values();
        lemma_pow_increases_to((width - 1) as nat, 15);
    }
    let mut d: u128 = 1;
    let mut k: usize = 1;
    while k < width
        invariant
            1 <= k <= width <= 16,
            d == pow(256, (k - 1) as nat),
            pow(256, 15) == 0x0100_0000_0000_0000_0000_0000_0000_0000,
        decreases width - k,
    {
        proof {
            lemma_pow_unfold(256, k as nat);
            lemma_pow_increases_to(k as nat, 15);
        }
        d = d * 256;
        k = k + 1;
    }
    let mut b: Vec<u8> = Vec::new();
    let mut i: usize = 0;
    proof {
        lemma_pow_unfold(256, width as nat);
        lemma_pow_positive(256, (width - 1) as nat);
        lemma_basic_div_small(u as int, d as int * 256);
    }
    while i < width
        invariant
            1 <= width <= 16,
            i <= width,
            b@.len() == i,
            i < width ==> d == pow(256, (width - 1 - i) as nat),
            i < width ==> be_unsigned(b@) == (u as int) / (d * 256),
            i == width ==> be_unsigned(b@) == u,
        decreases width - i,
    {
        proof {
            lemma_pow_positive(256, (width - 1 - i) as nat);
        }
        let byte: u8 = ((u / d) % 256) as u8;
        proof {
            let q = u / d;
            lemma_div_denominator(u as int, d as int, 256);
            lemma_fundamental_div_mod(q as int, 256);
            assert(b@.push(byte).drop_last() =~= b@);
            assert(be_unsigned(b@.push(byte)) == be_unsigned(b@) * 256 + byte);
            assert(be_unsigned(b@) * 256 + byte == q);
            if i + 1 < width {
                lemma_pow_unfold(256, (width - 1 - i) as nat);
            } else {
                assert(d == 1) by {
                    reveal(pow);
                }
            }
        }
        b.push(byte);
        if i + 1 < width {
            proof {
                lemma_div_by_multiple(pow(256, (width - 2 - i) as nat) as int, 256);
            }
            d = d / 256;
        }
        i = i + 1;
    }
    proof {
        lemma_be_seq_of_bytes(b@);
    }
    b
}

proof fn lemma_basic_div_small(x: int, d: int)
    requires
        0 <= x < d,
    ensures
        x / d == 0,
{
    lemma_basic_div(x, d);
}

/// Reading a 128-bit unsigned number as `i128` gives its two's-complement
/// value.
pub proof fn lemma_u128_signed(u: u128)
    ensures
        (u as i128) as int == as_signed_128(u as int),
{
    assert(u < 0x8000_0000_0000_0000_0000_0000_0000_0000u128 ==> (u as i128) as int == u as int)
        by (bit_vector);
    assert(u >= 0x8000_0000_0000_0000_0000_0000_0000_0000u128 ==> (u as i128) as int == u as int
        - 0x1_0000_0000_0000_0000_0000_0000_0000_0000int) by (bit_vector);
}

/// The unsigned reading of an `i128`'s bits, read back as two's
/// complement, is the `i128`.
pub proof fn lemma_i128_bits(v: i128)
    ensures
        as_signed_128((v as u128) as int) == v,
{
    let u = v as u128;
    assert(((v as u128) as i128) == v) by (bit_vector);
    lemma_u128_signed(u);
}

/// The 16-byte big-endian two's-complement encoding of `value`.
pub fn be_i128(value: i128) -> (b: Vec<u8>)
    ensures
        b@.len() == 16,
        as_signed_128(be_unsigned(b@) as int) == value,
        b@ == be_seq((value as u128) as nat, 16),
{
    proof {
        lemma_pow256_values();
        lemma_i128_bits(value);
    }
    be_encode(#[verifier::truncate] (value as u128), 16)
}

/// The 8-byte big-endian encoding of `value`.
pub fn be_u64(value: u64) -> (b: Vec<u8>)
    ensures
        b@.len() == 8,
        be_unsigned(b@) == value,
        b@ == be_seq(value as nat, 8),
{
    proof {
        lemma_pow256_values();
    }
    be_encode(value as u128, 8)
}

/// The 4-byte big-endian encoding of `value`.
pub fn be_u32(value: u32) -> (b: Vec<u8>)
    ensures
        b@.len() == 4,
        be_unsigned(b@) == value,
        b@ == be_seq(value as nat, 4),
{
    proof {
        lemma_pow256_values();
    }
    be_encode(value as u128, 4)
}

} // verus!
