//! Multi-limb integers: fixed-width little-endian numbers in base 2^64, and the
//! carry-propagating primitives every field operation is built from.
//!
//! Nothing here branches on the value of a limb.

use vstd::arithmetic::div_mod::{
    lemma_fundamental_div_mod, lemma_fundamental_div_mod_converse, lemma_mod_bound,
};
use vstd::arithmetic::mul::{
    lemma_mul_is_associative, lemma_mul_is_commutative, lemma_mul_is_distributive_add,
    lemma_mul_upper_bound,
};
use vstd::prelude::*;

verus! {

/// `2^64`, the base of a limb.
pub open spec fn pow2_64() -> nat {
    0x1_0000_0000_0000_0000nat
}

/// `2^128`, the weight of limb 2.
pub open spec fn pow2_128() -> nat {
    0x1_0000_0000_0000_0000_0000_0000_0000_0000nat
}

/// `2^192`, the weight of limb 3.
pub open spec fn pow2_192() -> nat {
    0x1_0000_0000_0000_0000_0000_0000_0000_0000_0000_0000_0000_0000nat
}

/// `2^256`, one more than the largest four-limb integer.
pub open spec fn pow2_256() -> nat {
    0x1_0000_0000_0000_0000_0000_0000_0000_0000_0000_0000_0000_0000_0000_0000_0000_0000nat
}

/// `2^320`, the weight of limb 5.
pub open spec fn pow2_320() -> nat {
    0x1_0000_0000_0000_0000_0000_0000_0000_0000_0000_0000_0000_0000_0000_0000_0000_0000_0000_0000_0000_0000nat
}

/// `2^384`, the weight of limb 6.
pub open spec fn pow2_384() -> nat {
    0x1_0000_0000_0000_0000_0000_0000_0000_0000_0000_0000_0000_0000_0000_0000_0000_0000_0000_0000_0000_0000_0000_0000_0000_0000nat
}

/// `2^448`, the weight of limb 7.
pub open spec fn pow2_448() -> nat {
    0x1_0000_0000_0000_0000_0000_0000_0000_0000_0000_0000_0000_0000_0000_0000_0000_0000_0000_0000_0000_0000_0000_0000_0000_0000_0000_0000_0000_0000nat
}

/// `2^512`, one more than the largest eight-limb integer.
pub open spec fn pow2_512() -> nat {
    0x1_0000_0000_0000_0000_0000_0000_0000_0000_0000_0000_0000_0000_0000_0000_0000_0000_0000_0000_0000_0000_0000_0000_0000_0000_0000_0000_0000_0000_0000_0000_0000_0000nat
}

/// The integer that four little-endian limbs hold.
pub open spec fn value4(a: [u64; 4]) -> nat {
    (a[0] as nat) + (a[1] as nat) * pow2_64() + (a[2] as nat) * pow2_128() + (a[3] as nat)
        * pow2_192()
}

/// The integer that eight little-endian limbs hold.
pub open spec fn value8(a: [u64; 8]) -> nat {
    (a[0] as nat) + (a[1] as nat) * pow2_64() + (a[2] as nat) * pow2_128() + (a[3] as nat)
        * pow2_192() + (a[4] as nat) * pow2_256() + (a[5] as nat) * pow2_320() + (
    a[6] as nat) * pow2_384() + (a[7] as nat) * pow2_448()
}

/// The four limbs of `n mod 2^256`, least significant first.
pub open spec fn limbs_of(n: nat) -> [u64; 4] {
    [
        (n % pow2_64()) as u64,
        ((n / pow2_64()) % pow2_64()) as u64,
        ((n / pow2_128()) % pow2_64()) as u64,
        ((n / pow2_192()) % pow2_64()) as u64,
    ]
}

/// Four limbs always hold an integer below `2^256`.
pub proof fn lemma_value4_bound(a: [u64; 4])
    ensures
        value4(a) < pow2_256(),
{
}

/// Limbs are determined by the integer they hold.
pub proof fn lemma_limbs_of_value(a: [u64; 4])
    ensures
        limbs_of(value4(a)) == a,
{
    let n = value4(a) as int;
    let b = pow2_64() as int;
    let (a0, a1, a2, a3) = (a[0] as int, a[1] as int, a[2] as int, a[3] as int);
    lemma_fundamental_div_mod_converse(n, b, a1 + a2 * b + a3 * pow2_128(), a0);
    lemma_fundamental_div_mod_converse(n, pow2_128() as int, a2 + a3 * b, a0 + a1 * b);
    lemma_fundamental_div_mod_converse(n, pow2_192() as int, a3, a0 + a1 * b + a2 * pow2_128());
    lemma_fundamental_div_mod_converse(a1 + a2 * b + a3 * pow2_128(), b, a2 + a3 * b, a1);
    lemma_fundamental_div_mod_converse(a2 + a3 * b, b, a3, a2);
    lemma_fundamental_div_mod_converse(a3, b, 0, a3);
}

/// Every integer below `2^256` is held by its limbs.
pub proof fn lemma_value_of_limbs(n: nat)
    requires
        n < pow2_256(),
    ensures
        value4(limbs_of(n)) == n,
{
    let b = pow2_64() as int;
    let n = n as int;
    let (l0, q1) = (n % b, n / b);
    let (l1, q2) = (q1 % b, q1 / b);
    let (l2, q3) = (q2 % b, q2 / b);
    lemma_fundamental_div_mod(n, b);
    lemma_fundamental_div_mod(q1, b);
    lemma_fundamental_div_mod(q2, b);
    lemma_mod_bound(n, b);
    lemma_mod_bound(q1, b);
    lemma_mod_bound(q2, b);
    assert(n == l0 + l1 * b + l2 * pow2_128() + q3 * pow2_192());
    lemma_fundamental_div_mod_converse(n, pow2_128() as int, q2, l0 + l1 * b);
    lemma_fundamental_div_mod_converse(n, pow2_192() as int, q3, l0 + l1 * b + l2 * pow2_128());
    lemma_fundamental_div_mod_converse(q3, b, 0, q3);
}

/// Two limb arrays that hold the same integer are the same array.
pub proof fn lemma_value4_injective(a: [u64; 4], b: [u64; 4])
    requires
        value4(a) == value4(b),
    ensures
        a == b,
{
    lemma_limbs_of_value(a);
    lemma_limbs_of_value(b);
}

proof fn lemma_split_u128(t: u128)
    by (bit_vector)
    ensures
        (t >> 64) <= 0xffff_ffff_ffff_ffffu128,
        t == (t >> 64) * 0x1_0000_0000_0000_0000u128 + (t as u64) as u128,
{
}

proof fn lemma_mask_select(x: u64, y: u64, mask: u64)
    by (bit_vector)
    ensures
        mask == 0 ==> (x & !mask) | (y & mask) == x,
        mask == 0xffff_ffff_ffff_ffffu64 ==> (x & !mask) | (y & mask) == y,
{
}

proof fn lemma_or_is_zero(x: u64, y: u64)
    by (bit_vector)
    ensures
        (x | y) == 0 <==> x == 0 && y == 0,
{
}

proof fn lemma_xor_is_zero(x: u64, y: u64)
    by (bit_vector)
    ensures
        (x ^ y) == 0 <==> x == y,
{
}

/// Add with carry: the sum `a + b + carry` as a low limb and a carry out.
#[inline(always)]
pub fn adc(a: u64, b: u64, carry: u64) -> (r: (u64, u64))
    ensures
        r.0 + r.1 * pow2_64() == a + b + carry,
        r.1 <= 2,
        carry <= 1 ==> r.1 <= 1,
{
    let t: u128 = a as u128 + b as u128 + carry as u128;
    proof {
        lemma_split_u128(t);
    }
    (t as u64, (t >> 64) as u64)
}

/// Subtract with borrow: the difference `a - b - borrow` as a low limb and the
/// number of times `2^64` had to be lent to keep it from going negative.
#[inline(always)]
pub fn sbb(a: u64, b: u64, borrow: u64) -> (r: (u64, u64))
    ensures
        r.0 - r.1 * pow2_64() == a - b - borrow,
        r.1 <= 2,
        borrow <= 1 ==> r.1 <= 1,
{
    let t: u128 = (a as u128 + 0x2_0000_0000_0000_0000u128) - (b as u128 + borrow as u128);
    proof {
        lemma_split_u128(t);
    }
    (t as u64, 2 - (t >> 64) as u64)
}

/// Multiply-accumulate: `acc + x * y + carry` as a low limb and a high limb.
/// The sum never exceeds `2^128 - 1`, so nothing is lost.
#[inline(always)]
pub fn mac(acc: u64, x: u64, y: u64, carry: u64) -> (r: (u64, u64))
    ensures
        r.0 + r.1 * pow2_64() == acc + x * y + carry,
{
    proof {
        assert(x * y <= 0xffff_ffff_ffff_ffff * 0xffff_ffff_ffff_ffff) by (nonlinear_arith)
            requires
                x <= 0xffff_ffff_ffff_ffff,
                y <= 0xffff_ffff_ffff_ffff,
        ;
    }
    let t: u128 = acc as u128 + (x as u128) * (y as u128) + carry as u128;
    proof {
        lemma_split_u128(t);
    }
    (t as u64, (t >> 64) as u64)
}

/// Branch-free choice between two limbs: `y` when `choice` holds, else `x`.
#[inline(always)]
pub fn select(choice: bool, x: u64, y: u64) -> (r: u64)
    ensures
        r == if choice { y } else { x },
{
    let mask: u64 = 0u64.wrapping_sub(choice as u64);
    proof {
        lemma_mask_select(x, y, mask);
    }
    (x & !mask) | (y & mask)
}

/// Branch-free disjunction.
#[inline(always)]
pub fn either(a: bool, b: bool) -> (r: bool)
    ensures
        r == (a || b),
{
    proof {
        lemma_or_is_zero(a as u64, b as u64);
    }
    ((a as u64) | (b as u64)) != 0
}

/// Branch-free comparison of two four-limb integers.
pub fn equal4(a: &[u64; 4], b: &[u64; 4]) -> (r: bool)
    ensures
        r == (*a == *b),
{
    let (d0, d1, d2, d3) = (a[0] ^ b[0], a[1] ^ b[1], a[2] ^ b[2], a[3] ^ b[3]);
    proof {
        lemma_xor_is_zero(a[0], b[0]);
        lemma_xor_is_zero(a[1], b[1]);
        lemma_xor_is_zero(a[2], b[2]);
        lemma_xor_is_zero(a[3], b[3]);
        lemma_or_is_zero(d0, d1);
        lemma_or_is_zero(d2, d3);
        lemma_or_is_zero(d0 | d1, d2 | d3);
        assert((*a == *b) <==> (*a =~= *b));
    }
    ((d0 | d1) | (d2 | d3)) == 0
}

/// Branch-free choice between two four-limb integers.
#[inline(always)]
pub fn select4(choice: bool, x: &[u64; 4], y: &[u64; 4]) -> (r: [u64; 4])
    ensures
        r == if choice { *y } else { *x },
{
    let r = [
        select(choice, x[0], y[0]),
        select(choice, x[1], y[1]),
        select(choice, x[2], y[2]),
        select(choice, x[3], y[3]),
    ];
    r
}

/// Four-limb addition: the low 256 bits of `a + b` and the carry out of them.
#[inline(always)]
pub fn add4(a: &[u64; 4], b: &[u64; 4]) -> (r: ([u64; 4], u64))
    ensures
        value4(r.0) + r.1 * pow2_256() == value4(*a) + value4(*b),
        r.1 <= 1,
{
    let (s0, c) = adc(a[0], b[0], 0);
    let (s1, c) = adc(a[1], b[1], c);
    let (s2, c) = adc(a[2], b[2], c);
    let (s3, c) = adc(a[3], b[3], c);
    ([s0, s1, s2, s3], c)
}

/// Four-limb subtraction: `a - b` modulo `2^256` and whether it went below zero.
#[inline(always)]
pub fn sub4(a: &[u64; 4], b: &[u64; 4]) -> (r: ([u64; 4], u64))
    ensures
        value4(r.0) - r.1 * pow2_256() == value4(*a) - value4(*b),
        r.1 <= 1,
{
    let (d0, w) = sbb(a[0], b[0], 0);
    let (d1, w) = sbb(a[1], b[1], w);
    let (d2, w) = sbb(a[2], b[2], w);
    let (d3, w) = sbb(a[3], b[3], w);
    ([d0, d1, d2, d3], w)
}

/// Multiplication by `x` distributes over the weighted sum of four limbs, from
/// either side.
pub proof fn lemma_mul_distributes4(
    x: int,
    b0: int,
    b1: int,
    b2: int,
    b3: int,
    w1: int,
    w2: int,
    w3: int,
)
    ensures
        x * (b0 + b1 * w1 + b2 * w2 + b3 * w3) == x * b0 + (x * b1) * w1 + (x * b2) * w2 + (x * b3)
            * w3,
        (b0 + b1 * w1 + b2 * w2 + b3 * w3) * x == b0 * x + (b1 * x) * w1 + (b2 * x) * w2 + (b3 * x)
            * w3,
{
    lemma_mul_is_distributive_add(x, b0 + b1 * w1 + b2 * w2, b3 * w3);
    lemma_mul_is_distributive_add(x, b0 + b1 * w1, b2 * w2);
    lemma_mul_is_distributive_add(x, b0, b1 * w1);
    lemma_mul_is_associative(x, b1, w1);
    lemma_mul_is_associative(x, b2, w2);
    lemma_mul_is_associative(x, b3, w3);
    lemma_mul_is_commutative(x, b0 + b1 * w1 + b2 * w2 + b3 * w3);
    lemma_mul_is_commutative(x, b0);
    lemma_mul_is_commutative(x, b1);
    lemma_mul_is_commutative(x, b2);
    lemma_mul_is_commutative(x, b3);
}

/// One row of a schoolbook product: `acc + x * b`, whose lowest limb is handed
/// back apart from the four above it.
#[inline(always)]
pub fn mul_add_row(acc: &[u64; 4], x: u64, b: &[u64; 4]) -> (r: (u64, [u64; 4]))
    ensures
        r.0 + value4(r.1) * pow2_64() == value4(*acc) + x * value4(*b),
{
    let (r0, c) = mac(acc[0], x, b[0], 0);
    let (r1, c) = mac(acc[1], x, b[1], c);
    let (r2, c) = mac(acc[2], x, b[2], c);
    let (r3, c) = mac(acc[3], x, b[3], c);
    proof {
        lemma_mul_distributes4(
            x as int,
            b[0] as int,
            b[1] as int,
            b[2] as int,
            b[3] as int,
            pow2_64() as int,
            pow2_128() as int,
            pow2_192() as int,
        );
    }
    (r0, [r1, r2, r3, c])
}

/// The full 512-bit product of two four-limb integers.
pub fn mul_wide(a: &[u64; 4], b: &[u64; 4]) -> (r: [u64; 8])
    ensures
        value8(r) == value4(*a) * value4(*b),
{
    let zero = [0u64, 0u64, 0u64, 0u64];
    let (t0, h0) = mul_add_row(&zero, a[0], b);
    let (t1, h1) = mul_add_row(&h0, a[1], b);
    let (t2, h2) = mul_add_row(&h1, a[2], b);
    let (t3, h3) = mul_add_row(&h2, a[3], b);
    proof {
        lemma_mul_distributes4(
            value4(*b) as int,
            a[0] as int,
            a[1] as int,
            a[2] as int,
            a[3] as int,
            pow2_64() as int,
            pow2_128() as int,
            pow2_192() as int,
        );
    }
    [t0, t1, t2, t3, h3[0], h3[1], h3[2], h3[3]]
}

/// The products of two different limbs of `a`, each counted once and summed
/// at its weight, one limb down: `a[i] * a[j]` stands at `2^(64 * (i + j - 1))`.
spec fn cross_value(a: [u64; 4]) -> nat {
    (a[0] as nat) * (a[1] as nat) + ((a[0] as nat) * (a[2] as nat)) * pow2_64() + ((a[0] as nat) * (
    a[3] as nat) + (a[1] as nat) * (a[2] as nat)) * pow2_128() + ((a[1] as nat) * (a[3] as nat))
        * pow2_192() + ((a[2] as nat) * (a[3] as nat)) * pow2_256()
}

/// The integer that six little-endian limbs hold.
spec fn value6(c: [u64; 6]) -> nat {
    (c[0] as nat) + (c[1] as nat) * pow2_64() + (c[2] as nat) * pow2_128() + (c[3] as nat)
        * pow2_192() + (c[4] as nat) * pow2_256() + (c[5] as nat) * pow2_320()
}

/// The square of a four-limb integer, limb product by limb product: the four
/// squares once and the mixed products twice.
proof fn lemma_square_expands(a: [u64; 4])
    ensures
        value4(a) * value4(a) == a[0] * a[0] + (a[1] * a[1]) * pow2_128() + (a[2] * a[2])
            * pow2_256() + (a[3] * a[3]) * pow2_384() + 2 * cross_value(a) * pow2_64(),
{
    let v = value4(a) as int;
    let (a0, a1, a2, a3) = (a[0] as int, a[1] as int, a[2] as int, a[3] as int);
    let (w1, w2, w3) = (pow2_64() as int, pow2_128() as int, pow2_192() as int);
    let sum = a0 + a1 * w1 + a2 * w2 + a3 * w3;
    assert(v == sum);
    lemma_mul_distributes4(v, a0, a1, a2, a3, w1, w2, w3);
    lemma_mul_distributes4(a0, a0, a1, a2, a3, w1, w2, w3);
    lemma_mul_distributes4(a1, a0, a1, a2, a3, w1, w2, w3);
    lemma_mul_distributes4(a2, a0, a1, a2, a3, w1, w2, w3);
    lemma_mul_distributes4(a3, a0, a1, a2, a3, w1, w2, w3);
    lemma_mul_is_commutative(a1, a0);
    lemma_mul_is_commutative(a2, a0);
    lemma_mul_is_commutative(a3, a0);
    lemma_mul_is_commutative(a2, a1);
    lemma_mul_is_commutative(a3, a1);
    lemma_mul_is_commutative(a3, a2);
}

/// The products of two different limbs of `a`, summed at their weights: what
/// limbs one to six of the square hold before doubling.
#[inline(always)]
fn cross_products(a: &[u64; 4]) -> (c: [u64; 6])
    ensures
        value6(c) == cross_value(*a),
{
    let (c1, k) = mac(0, a[0], a[1], 0);
    let (c2, k) = mac(0, a[0], a[2], k);
    let (c3, c4) = mac(0, a[0], a[3], k);
    let (c3, k) = mac(c3, a[1], a[2], 0);
    let (c4, c5) = mac(c4, a[1], a[3], k);
    let (c5, c6) = mac(c5, a[2], a[3], 0);
    [c1, c2, c3, c4, c5, c6]
}

/// Twice a six-limb integer, as its low six limbs and the bit shifted out.
#[inline(always)]
fn double6(c: &[u64; 6]) -> (d: ([u64; 6], u64))
    ensures
        value6(d.0) + d.1 * pow2_384() == 2 * value6(*c),
        d.1 <= 1,
{
    let (d0, k) = adc(c[0], c[0], 0);
    let (d1, k) = adc(c[1], c[1], k);
    let (d2, k) = adc(c[2], c[2], k);
    let (d3, k) = adc(c[3], c[3], k);
    let (d4, k) = adc(c[4], c[4], k);
    let (d5, k) = adc(c[5], c[5], k);
    ([d0, d1, d2, d3, d4, d5], k)
}

/// The full 512-bit square of a four-limb integer. Each product of two
/// different limbs is computed once and doubled, so ten limb multiplications
/// do the work of sixteen.
pub fn square_wide(a: &[u64; 4]) -> (r: [u64; 8])
    ensures
        value8(r) == value4(*a) * value4(*a),
{
    let c = cross_products(a);
    let (d, d6) = double6(&c);
    let (r0, k) = mac(0, a[0], a[0], 0);
    let (r1, k) = adc(d[0], k, 0);
    let (r2, k) = mac(d[1], a[1], a[1], k);
    let (r3, k) = adc(d[2], k, 0);
    let (r4, k) = mac(d[3], a[2], a[2], k);
    let (r5, k) = adc(d[4], k, 0);
    let (r6, k) = mac(d[5], a[3], a[3], k);
    let (r7, k) = adc(d6, k, 0);
    let r = [r0, r1, r2, r3, r4, r5, r6, r7];
    proof {
        lemma_square_expands(*a);
        assert(value8(r) + k * pow2_512() == a[0] * a[0] + (a[1] * a[1]) * pow2_128() + (a[2]
            * a[2]) * pow2_256() + (a[3] * a[3]) * pow2_384() + (value6(d) + d6 * pow2_384())
            * pow2_64());
        lemma_mul_upper_bound(
            value4(*a) as int,
            pow2_256() - 1,
            value4(*a) as int,
            pow2_256() - 1,
        );
    }
    r
}

} // verus!
