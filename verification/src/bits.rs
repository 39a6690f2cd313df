//! Two's-complement arithmetic on 32-bit words and big-endian byte
//! packing, shared by the memory layer and the CPU.

use vstd::arithmetic::div_mod::{lemma_mod_multiples_vanish, lemma_small_mod};
use vstd::prelude::*;

verus! {

/// The 32-bit word that a mathematical integer wraps to.
pub open spec fn wrap_u32(v: int) -> u32 {
    (v % 0x1_0000_0000) as u32
}

/// The 64-bit word that a mathematical integer wraps to.
pub open spec fn wrap_u64(v: int) -> u64 {
    (v % 0x1_0000_0000_0000_0000) as u64
}

/// Integer division truncating toward zero, as the DIV instruction
/// computes its quotient.
pub open spec fn trunc_div(a: int, b: int) -> int {
    if (a < 0) == (b < 0) {
        vstd::math::abs(a) as int / vstd::math::abs(b) as int
    } else {
        -(vstd::math::abs(a) as int / vstd::math::abs(b) as int)
    }
}

/// The remainder that goes with `trunc_div`: it takes the dividend's
/// sign.
pub open spec fn trunc_rem(a: int, b: int) -> int {
    if a < 0 {
        -(vstd::math::abs(a) as int % vstd::math::abs(b) as int)
    } else {
        vstd::math::abs(a) as int % vstd::math::abs(b) as int
    }
}

/// The signed value that a 32-bit word represents in two's complement.
pub open spec fn as_signed(v: u32) -> int {
    if v >= 0x8000_0000 {
        v - 0x1_0000_0000
    } else {
        v as int
    }
}

pub proof fn lemma_wrap_u32_small(v: int)
    requires
        0 <= v < 0x1_0000_0000,
    ensures
        wrap_u32(v) == v,
{
    lemma_small_mod(v as nat, 0x1_0000_0000 as nat);
}

pub proof fn lemma_wrap_u32_add_multiple(v: int)
    ensures
        wrap_u32(v + 0x1_0000_0000) == wrap_u32(v),
{
    lemma_mod_multiples_vanish(1, v, 0x1_0000_0000);
}

pub proof fn lemma_wrap_u32_sub_multiple(v: int)
    ensures
        wrap_u32(v - 0x1_0000_0000) == wrap_u32(v),
{
    lemma_mod_multiples_vanish(-1, v, 0x1_0000_0000);
}

pub proof fn lemma_wrap_u64_small(v: int)
    requires
        0 <= v < 0x1_0000_0000_0000_0000,
    ensures
        wrap_u64(v) == v,
{
    lemma_small_mod(v as nat, 0x1_0000_0000_0000_0000 as nat);
}

pub proof fn lemma_wrap_u64_add_multiple(v: int)
    ensures
        wrap_u64(v + 0x1_0000_0000_0000_0000) == wrap_u64(v),
{
    lemma_mod_multiples_vanish(1, v, 0x1_0000_0000_0000_0000);
}

/// `u32::wrapping_add` computes the sum modulo two to the 32nd.
pub proof fn lemma_wrapping_add(a: u32, b: u32)
    ensures
        vstd::wrapping::u32_specs::wrapping_add(a, b) == wrap_u32(a + b),
{
    if a + b > u32::MAX {
        lemma_wrap_u32_sub_multiple(a + b);
        lemma_wrap_u32_small(a + b - 0x1_0000_0000);
    } else {
        lemma_wrap_u32_small(a + b);
    }
}

/// `u32::wrapping_sub` computes the difference modulo two to the 32nd.
pub proof fn lemma_wrapping_sub(a: u32, b: u32)
    ensures
        vstd::wrapping::u32_specs::wrapping_sub(a, b) == wrap_u32(a - b),
{
    if a - b < 0 {
        lemma_wrap_u32_add_multiple(a - b);
        lemma_wrap_u32_small(a - b + 0x1_0000_0000);
    } else {
        lemma_wrap_u32_small(a - b);
    }
}

/// `u64::wrapping_sub` computes the difference modulo two to the 64th.
pub proof fn lemma_wrapping_sub_u64(a: u64, b: u64)
    ensures
        vstd::wrapping::u64_specs::wrapping_sub(a, b) == wrap_u64(a - b),
{
    if a - b < 0 {
        lemma_wrap_u64_add_multiple(a - b);
        lemma_wrap_u64_small(a - b + 0x1_0000_0000_0000_0000);
    } else {
        lemma_wrap_u64_small(a - b);
    }
}

pub proof fn lemma_mask5_bound(x: u32)
    by (bit_vector)
    ensures
        x & 0x1f < 32,
{
}

pub proof fn lemma_mask6_bound(x: u32)
    by (bit_vector)
    ensures
        x & 0x3f < 64,
{
}

pub proof fn lemma_mask8_bound(x: u32)
    by (bit_vector)
    ensures
        x & 0xff < 256,
{
}

pub proof fn lemma_mask16_bound(x: u32)
    by (bit_vector)
    ensures
        x & 0xffff < 0x1_0000,
{
}

pub proof fn lemma_shr26_bound(x: u32)
    by (bit_vector)
    ensures
        x >> 26 < 64,
{
}

pub proof fn lemma_be_byte_bounds(v: u32)
    by (bit_vector)
    ensures
        (v >> 24) & 0xff < 256,
        (v >> 16) & 0xff < 256,
        (v >> 8) & 0xff < 256,
        v & 0xff < 256,
{
}

/// The 16-bit immediate sign-extended to a 32-bit word.
pub open spec fn spec_sign_extend_half(v: u32) -> u32 {
    if v & 0x8000 != 0 {
        v | 0xffff_0000
    } else {
        v
    }
}

pub fn sign_extend_half(v: u32) -> (r: u32)
    ensures
        r == spec_sign_extend_half(v),
{
    if v & 0x8000 != 0 {
        v | 0xffff_0000
    } else {
        v
    }
}

/// A byte sign-extended to a 32-bit word.
pub open spec fn spec_sign_extend_byte(b: u8) -> u32 {
    if b & 0x80 != 0 {
        (b as u32) | 0xffff_ff00
    } else {
        b as u32
    }
}

pub fn sign_extend_byte(b: u8) -> (r: u32)
    ensures
        r == spec_sign_extend_byte(b),
{
    if b & 0x80 != 0 {
        (b as u32) | 0xffff_ff00
    } else {
        b as u32
    }
}

/// The word that four bytes spell in big-endian order.
pub open spec fn word_from_be(b0: u8, b1: u8, b2: u8, b3: u8) -> u32 {
    ((b0 as u32) << 24) | ((b1 as u32) << 16) | ((b2 as u32) << 8) | (b3 as u32)
}

pub fn word_from_be_bytes(bytes: &[u8; 4]) -> (r: u32)
    ensures
        r == word_from_be(bytes@[0], bytes@[1], bytes@[2], bytes@[3]),
{
    ((bytes[0] as u32) << 24u32) | ((bytes[1] as u32) << 16u32) | ((bytes[2] as u32) << 8u32) | (
    bytes[3] as u32)
}

/// The value that two bytes spell in big-endian order.
pub open spec fn half_from_be(b0: u8, b1: u8) -> u32 {
    ((b0 as u32) << 8) | (b1 as u32)
}

pub fn half_from_be_bytes(bytes: &[u8; 2]) -> (r: u32)
    ensures
        r == half_from_be(bytes@[0], bytes@[1]),
{
    ((bytes[0] as u32) << 8u32) | (bytes[1] as u32)
}

/// The four big-endian bytes of a word, most significant first.
pub open spec fn word_to_be(v: u32) -> Seq<u8> {
    seq![
        ((v >> 24) & 0xff) as u8,
        ((v >> 16) & 0xff) as u8,
        ((v >> 8) & 0xff) as u8,
        (v & 0xff) as u8,
    ]
}

pub fn word_to_be_bytes(v: u32) -> (r: [u8; 4])
    ensures
        r@ == word_to_be(v),
{
    proof {
        lemma_be_byte_bounds(v);
    }
    let r: [u8; 4] = [
        ((v >> 24u32) & 0xff) as u8,
        ((v >> 16u32) & 0xff) as u8,
        ((v >> 8u32) & 0xff) as u8,
        (v & 0xff) as u8,
    ];
    proof {
        assert(r@ =~= word_to_be(v));
    }
    r
}

/// The two big-endian bytes of a value's low half-word.
pub open spec fn half_to_be(v: u32) -> Seq<u8> {
    seq![((v >> 8) & 0xff) as u8, (v & 0xff) as u8]
}

pub fn half_to_be_bytes(v: u32) -> (r: [u8; 2])
    ensures
        r@ == half_to_be(v),
{
    proof {
        lemma_be_byte_bounds(v);
    }
    let r: [u8; 2] = [((v >> 8u32) & 0xff) as u8, (v & 0xff) as u8];
    proof {
        assert(r@ =~= half_to_be(v));
    }
    r
}

} // verus!
