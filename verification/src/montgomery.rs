//! Modular arithmetic on four-limb integers, for any odd modulus below `2^256`:
//! addition and subtraction with a single correction, and multiplication by
//! Montgomery reduction with radix `R = 2^256`.
//!
//! The engine is written once. What makes a field is a modulus, the word
//! `-m^-1 mod 2^64` that drives the reduction, and the two inverses that say
//! what the reduction computes.

use crate::limbs::{
    adc, add4, either, lemma_mul_distributes4, lemma_value4_bound, mul_add_row, mul_wide, pow2_128,
    pow2_192, pow2_256, pow2_64, select4, square_wide, sub4, value4, value8,
};
use vstd::arithmetic::div_mod::{
    lemma_fundamental_div_mod, lemma_fundamental_div_mod_converse, lemma_mod_bound,
    lemma_mul_mod_noop_right, lemma_small_mod,
};
use vstd::prelude::*;

verus! {

/// A modulus `m` below `R = 2^256`, with the inverse of `-m` modulo `R` and
/// the inverse of `R` modulo `m`.
pub struct Montgomery {
    pub modulus: nat,
    pub neg_inv: nat,
    pub radix_inv: nat,
}

impl Montgomery {
    /// The two inverses are what they are called: `R * radix_inv - neg_inv * m == 1`.
    /// This makes `m` odd and greater than one.
    pub open spec fn wf(self) -> bool {
        &&& self.modulus < pow2_256()
        &&& self.neg_inv < pow2_256()
        &&& self.radix_inv < self.modulus
        &&& pow2_256() * self.radix_inv == 1 + self.neg_inv * self.modulus
    }

    /// The limbs `m` hold the modulus, and `inv` is `-m^-1 mod 2^64`.
    pub open spec fn describes(self, m: [u64; 4], inv: u64) -> bool {
        &&& self.wf()
        &&& self.modulus == value4(m)
        &&& (m[0] * inv + 1) % (pow2_64() as int) == 0
    }

    /// `x` after the modulus is taken off once, if `x` reaches it; the
    /// difference is kept to 256 bits.
    pub open spec fn reduce_once(self, x: nat) -> nat {
        if x >= self.modulus {
            ((x - self.modulus) % (pow2_256() as int)) as nat
        } else {
            x
        }
    }

    /// The sum of two four-limb integers, corrected once.
    pub open spec fn add(self, a: nat, b: nat) -> nat {
        self.reduce_once(a + b)
    }

    /// The difference of two four-limb integers; the modulus is added back
    /// once after a borrow, and the result is kept to 256 bits.
    pub open spec fn sub(self, a: nat, b: nat) -> nat {
        if a >= b {
            (a - b) as nat
        } else {
            ((a - b + self.modulus) % (pow2_256() as int)) as nat
        }
    }

    /// Montgomery reduction of `t`: with `q = t * neg_inv mod R`, the sum
    /// `t + q * m` is a multiple of `R`; the quotient is corrected once.
    pub open spec fn redc(self, t: nat) -> nat {
        let q = (t * self.neg_inv) % pow2_256();
        self.reduce_once((t + q * self.modulus) / pow2_256())
    }

    /// The Montgomery product of two four-limb integers.
    pub open spec fn mul(self, a: nat, b: nat) -> nat {
        self.redc(a * b)
    }

    /// The Montgomery form of `x`: `x * R mod m`.
    pub open spec fn to_montgomery(self, x: nat) -> nat {
        (x * pow2_256()) % self.modulus
    }

    /// The integer whose Montgomery form is `x`: `x * R^-1 mod m`.
    pub open spec fn from_montgomery(self, x: nat) -> nat {
        (x * self.radix_inv) % self.modulus
    }
}

/// A well-formed modulus is at least two, and `R * radix_inv` is one modulo it.
pub proof fn lemma_radix_inverse(f: Montgomery)
    requires
        f.wf(),
    ensures
        f.modulus > 1,
        (pow2_256() * f.radix_inv) % f.modulus == 1,
{
    let r = pow2_256() as int;
    let (m, n, i) = (f.modulus as int, f.neg_inv as int, f.radix_inv as int);
    lemma_fundamental_div_mod_converse(r * i, m, n, 1);
}

/// Multiplying by `R * radix_inv` changes nothing modulo `m`.
pub proof fn lemma_radix_cancels(f: Montgomery, x: int)
    requires
        f.wf(),
    ensures
        (x * (pow2_256() * f.radix_inv)) % (f.modulus as int) == x % (f.modulus as int),
{
    lemma_radix_inverse(f);
    lemma_mul_mod_noop_right(x, (pow2_256() * f.radix_inv) as int, f.modulus as int);
}

/// The product of an integer no greater than the modulus and one that fits
/// four limbs stays below `m * R`, on whichever side each stands.
pub proof fn lemma_product_bound(f: Montgomery, a: nat, b: nat)
    requires
        0 < f.modulus,
        a <= f.modulus,
        b < pow2_256(),
    ensures
        a * b < f.modulus * pow2_256(),
        b * a < f.modulus * pow2_256(),
{
    let (m, r) = (f.modulus as int, pow2_256() as int);
    assert(a * b < m * r && b * a < m * r) by (nonlinear_arith)
        requires
            0 < m,
            0 <= a <= m,
            0 <= b < r,
    ;
}

/// Below twice the modulus, one conditional subtraction is reduction modulo `m`.
pub proof fn lemma_reduce_once(f: Montgomery, x: nat)
    requires
        0 < f.modulus < pow2_256(),
        x < 2 * f.modulus,
    ensures
        f.reduce_once(x) == x % f.modulus,
{
    let m = f.modulus as int;
    if x >= f.modulus {
        lemma_small_mod((x - m) as nat, pow2_256());
        lemma_fundamental_div_mod_converse(x as int, m, 1, x - m);
    } else {
        lemma_small_mod(x, f.modulus);
    }
}

/// As long as the sum stays below twice the modulus, as it does for operands
/// below the modulus, addition with one correction is addition modulo `m`.
pub proof fn lemma_add_reduced(f: Montgomery, a: nat, b: nat)
    requires
        f.modulus < pow2_256(),
        a + b < 2 * f.modulus,
    ensures
        f.add(a, b) == (a + b) % f.modulus,
{
    lemma_reduce_once(f, a + b);
}

/// As long as the difference is at least `-m` and below `m`, as it is for
/// operands below the modulus, subtraction with one correction is subtraction
/// modulo `m`.
pub proof fn lemma_sub_reduced(f: Montgomery, a: nat, b: nat)
    requires
        f.modulus < pow2_256(),
        -f.modulus <= a - b < f.modulus,
    ensures
        f.sub(a, b) == (a - b) % (f.modulus as int),
{
    let m = f.modulus as int;
    if a >= b {
        lemma_small_mod((a - b) as nat, f.modulus);
    } else {
        lemma_small_mod((a - b + m) as nat, pow2_256());
        lemma_fundamental_div_mod_converse(a - b, m, -1, a - b + m);
    }
}

/// Whatever `q < R` makes `t + q * m` a multiple of `R` is `t * neg_inv mod R`,
/// the multiple that Montgomery reduction is defined with.
pub proof fn lemma_redc_quotient(f: Montgomery, t: nat, q: nat, u: nat)
    requires
        f.wf(),
        q < pow2_256(),
        u * pow2_256() == t + q * f.modulus,
    ensures
        q == (t * f.neg_inv) % pow2_256(),
        u == (t + q * f.modulus) / pow2_256(),
{
    let r = pow2_256() as int;
    let (m, n, i) = (f.modulus as int, f.neg_inv as int, f.radix_inv as int);
    let (t, q, u) = (t as int, q as int, u as int);
    assert(t * n == (u * n - q * i) * r + q) by (nonlinear_arith)
        requires
            r * i == 1 + n * m,
            u * r == t + q * m,
    ;
    lemma_fundamental_div_mod_converse(t * n, r, u * n - q * i, q);
    lemma_fundamental_div_mod_converse(t + q * m, r, u, 0);
}

/// Montgomery reduction divides by `R` modulo `m`: the result is congruent to
/// `t * R^-1` for every `t` that fits eight limbs, and for `t < m * R` it is
/// below `m`, so that it is exactly `t * R^-1 mod m`.
pub proof fn lemma_redc_congruent(f: Montgomery, t: nat)
    requires
        f.wf(),
        t < pow2_256() * pow2_256(),
    ensures
        f.redc(t) % f.modulus == (t * f.radix_inv) % f.modulus,
        t < f.modulus * pow2_256() ==> f.redc(t) == (t * f.radix_inv) % f.modulus,
{
    let r = pow2_256() as int;
    let (m, n, i) = (f.modulus as int, f.neg_inv as int, f.radix_inv as int);
    let t = t as int;
    let q = (t * n) % r;
    let c = (t * n) / r;
    lemma_fundamental_div_mod(t * n, r);
    lemma_mod_bound(t * n, r);
    let u = t * i - c * m;
    assert(t + q * m == u * r) by (nonlinear_arith)
        requires
            r * i == 1 + n * m,
            t * n == r * c + q,
            u == t * i - c * m,
    ;
    lemma_fundamental_div_mod_converse(t + q * m, r, u, 0);
    assert(0 <= u < r + m) by (nonlinear_arith)
        requires
            u * r == t + q * m,
            0 <= t < r * r,
            0 <= q < r,
            0 < r,
            0 <= m,
    ;
    let e: int = if u >= m { 1 } else { 0 };
    if u >= m {
        lemma_small_mod((u - m) as nat, pow2_256());
    }
    let v = f.redc(t as nat) as int;
    assert(t * i == (c + e) * m + v) by (nonlinear_arith)
        requires
            u == t * i - c * m,
            v == u - e * m,
    ;
    lemma_radix_inverse(f);
    lemma_fundamental_div_mod(v, m);
    lemma_mod_bound(v, m);
    let (d, rem) = (v / m, v % m);
    assert(t * i == (c + e + d) * m + rem) by (nonlinear_arith)
        requires
            t * i == (c + e) * m + v,
            v == m * d + rem,
    ;
    lemma_fundamental_div_mod_converse(t * i, m, c + e + d, rem);
    if t < m * r {
        assert(u < 2 * m) by (nonlinear_arith)
            requires
                u * r == t + q * m,
                0 <= t < m * r,
                0 <= q < r,
                0 < r,
                0 <= m,
        ;
        lemma_small_mod(v as nat, f.modulus);
    }
}

/// The product of two integers that fit four limbs fits eight.
pub proof fn lemma_product_fits(a: nat, b: nat)
    requires
        a < pow2_256(),
        b < pow2_256(),
    ensures
        a * b < pow2_256() * pow2_256(),
{
    let r = pow2_256() as int;
    assert(a * b < r * r) by (nonlinear_arith)
        requires
            0 <= a < r,
            0 <= b < r,
    ;
}

/// The Montgomery product is congruent to the product times `R^-1`; when one
/// factor is no greater than the modulus, it is below `m`.
pub proof fn lemma_mul_congruent(f: Montgomery, a: nat, b: nat)
    requires
        f.wf(),
        a < pow2_256(),
        b < pow2_256(),
    ensures
        f.mul(a, b) % f.modulus == (a * b * f.radix_inv) % f.modulus,
        a <= f.modulus || b <= f.modulus ==> f.mul(a, b) == (a * b * f.radix_inv) % f.modulus,
{
    lemma_radix_inverse(f);
    if a <= f.modulus {
        lemma_product_bound(f, a, b);
    } else if b <= f.modulus {
        lemma_product_bound(f, b, a);
    }
    lemma_product_fits(a, b);
    lemma_redc_congruent(f, a * b);
}

/// With `r2 = R^2 mod m`, the Montgomery product of `x` and `r2` is the
/// Montgomery form of `x`, for every `x` that fits four limbs.
pub proof fn lemma_to_montgomery_by_mul(f: Montgomery, x: nat, r2: nat)
    requires
        f.wf(),
        x < pow2_256(),
        r2 == (pow2_256() * pow2_256()) % f.modulus,
    ensures
        f.mul(x, r2) == f.to_montgomery(x),
{
    let m = f.modulus as int;
    let (r, i) = (pow2_256() as int, f.radix_inv as int);
    let x = x as int;
    lemma_radix_inverse(f);
    lemma_mod_bound(r * r, m);
    lemma_mul_congruent(f, x as nat, r2);
    assert(x * r2 * i == (x * i) * r2) by (nonlinear_arith);
    lemma_mul_mod_noop_right(x * i, r * r, m);
    assert((x * i) * (r * r) == (x * r) * (r * i)) by (nonlinear_arith);
    lemma_radix_cancels(f, x * r);
}

/// Montgomery reduction alone leaves Montgomery form, for every `x` that fits
/// four limbs.
pub proof fn lemma_from_montgomery_by_redc(f: Montgomery, x: nat)
    requires
        f.wf(),
        x < pow2_256(),
    ensures
        f.redc(x) == f.from_montgomery(x),
{
    lemma_radix_inverse(f);
    lemma_product_bound(f, 1, x);
    lemma_product_fits(1, x);
    lemma_redc_congruent(f, x);
}

/// One conditional subtraction of the modulus from the five-limb integer
/// `w + carry * 2^256`.
pub fn reduce_once(w: &[u64; 4], carry: bool, m: &[u64; 4], Ghost(f): Ghost<Montgomery>) -> (r: [
    u64;
    4
])
    requires
        f.modulus == value4(*m),
    ensures
        value4(r) == f.reduce_once(
            value4(*w) + if carry {
                pow2_256()
            } else {
                0
            },
        ),
{
    let (d, borrow) = sub4(w, m);
    proof {
        let x = value4(*w) + if carry { pow2_256() as int } else { 0 };
        if carry {
            lemma_fundamental_div_mod_converse(
                x - f.modulus,
                pow2_256() as int,
                1 - borrow,
                value4(d) as int,
            );
        } else if borrow == 0 {
            lemma_small_mod(value4(d), pow2_256());
        }
    }
    select4(either(carry, borrow == 0), w, &d)
}

/// Modular addition: `a + b`, less the modulus if the sum reaches it. For a
/// sum below `2 * m` this is the sum modulo `m`.
pub fn add_mod(a: &[u64; 4], b: &[u64; 4], m: &[u64; 4], Ghost(f): Ghost<Montgomery>) -> (r: [
    u64;
    4
])
    requires
        f.modulus == value4(*m),
    ensures
        value4(r) == f.add(value4(*a), value4(*b)),
        value4(*a) + value4(*b) < 2 * f.modulus ==> value4(r) == (value4(*a) + value4(*b))
            % f.modulus,
{
    proof {
        lemma_value4_bound(*m);
        if value4(*a) + value4(*b) < 2 * f.modulus {
            lemma_add_reduced(f, value4(*a), value4(*b));
        }
    }
    let (s, carry) = add4(a, b);
    reduce_once(&s, carry != 0, m, Ghost(f))
}

/// Modular subtraction: `a - b`, plus the modulus if the difference borrows.
/// For a difference of at least `-m` and below `m` this is the difference
/// modulo `m`.
pub fn sub_mod(a: &[u64; 4], b: &[u64; 4], m: &[u64; 4], Ghost(f): Ghost<Montgomery>) -> (r: [
    u64;
    4
])
    requires
        f.modulus == value4(*m),
    ensures
        value4(r) == f.sub(value4(*a), value4(*b)),
        -f.modulus <= value4(*a) - value4(*b) < f.modulus ==> value4(r) == (value4(*a) - value4(
            *b,
        )) % (f.modulus as int),
{
    let (d, borrow) = sub4(a, b);
    let zero = [0u64, 0u64, 0u64, 0u64];
    let correction = select4(borrow != 0, &zero, m);
    let (r, carry) = add4(&d, &correction);
    proof {
        lemma_value4_bound(*m);
        if borrow != 0 {
            lemma_fundamental_div_mod_converse(
                value4(*a) - value4(*b) + f.modulus,
                pow2_256() as int,
                carry - 1,
                value4(r) as int,
            );
        }
        if -f.modulus <= value4(*a) - value4(*b) < f.modulus {
            lemma_sub_reduced(f, value4(*a), value4(*b));
        }
    }
    r
}

/// The digit `k = w0 * inv mod 2^64` is the one multiple of the modulus that
/// clears the lowest limb.
proof fn lemma_reduction_digit(w0: u64, m0: u64, inv: u64, k: u64)
    requires
        (m0 * inv + 1) % (pow2_64() as int) == 0,
        k == (w0 * inv) % (pow2_64() as int),
    ensures
        (w0 + k * m0) % (pow2_64() as int) == 0,
{
    let b = pow2_64() as int;
    let j = (m0 * inv + 1) / b;
    let l = (w0 * inv) / b;
    lemma_fundamental_div_mod(m0 * inv + 1, b);
    lemma_fundamental_div_mod(w0 * inv, b);
    assert(w0 + k * m0 == (w0 * j - l * m0) * b) by (nonlinear_arith)
        requires
            m0 * inv + 1 == b * j,
            w0 * inv == b * l + k,
    ;
    lemma_fundamental_div_mod_converse(w0 + k * m0, b, w0 * j - l * m0, 0);
}

/// One round of the reduction. The multiple `k * m` that clears the lowest
/// limb of the window `w` is added, the window moves up one limb and takes in
/// `next` together with the carry that the round before left over.
#[inline(always)]
fn reduce_round(w: &[u64; 4], carry: u64, next: u64, m: &[u64; 4], inv: u64) -> (r: (
    u64,
    [u64; 4],
    u64,
))
    requires
        carry <= 1,
        (m[0] * inv + 1) % (pow2_64() as int) == 0,
    ensures
        (value4(r.1) + r.2 * pow2_256()) * pow2_64() == value4(*w) + r.0 * value4(*m) + (next
            + carry) * pow2_256(),
        r.2 <= 1,
{
    let k = w[0].wrapping_mul(inv);
    let (lo, h) = mul_add_row(w, k, m);
    proof {
        let b = pow2_64() as int;
        let (k, lo) = (k as int, lo as int);
        lemma_reduction_digit(w[0], m[0], inv, k as u64);
        let g = (w[0] + k * m[0]) / b;
        lemma_fundamental_div_mod(w[0] + k * m[0], b);
        lemma_mul_distributes4(
            k,
            m[0] as int,
            m[1] as int,
            m[2] as int,
            m[3] as int,
            pow2_64() as int,
            pow2_128() as int,
            pow2_192() as int,
        );
        let rest = w[1] + w[2] * pow2_64() + w[3] * pow2_128() + k * m[1] + (k * m[2]) * pow2_64()
            + (k * m[3]) * pow2_128();
        let x = value4(*w) + k * value4(*m);
        assert(x == (g + rest) * b + 0);
        lemma_fundamental_div_mod_converse(x, b, g + rest, 0);
        lemma_fundamental_div_mod_converse(x, b, value4(h) as int, lo);
        assert(lo == 0);
    }
    let (top, carry) = adc(h[3], next, carry);
    (k, [h[0], h[1], h[2], top], carry)
}

/// Montgomery reduction of an eight-limb integer `t`: four rounds, each of
/// which clears one low limb by adding a multiple of the modulus, then one
/// conditional subtraction. The result is congruent to `t * R^-1` modulo `m`,
/// and for `t < m * 2^256` it is below `m`.
pub fn montgomery_reduce(t: &[u64; 8], m: &[u64; 4], inv: u64, Ghost(f): Ghost<Montgomery>) -> (r: [
    u64;
    4
])
    requires
        f.describes(*m, inv),
    ensures
        value4(r) == f.redc(value8(*t)),
        value4(r) % f.modulus == (value8(*t) * f.radix_inv) % f.modulus,
        value8(*t) < f.modulus * pow2_256() ==> value4(r) < f.modulus,
{
    let w0 = [t[0], t[1], t[2], t[3]];
    let (k0, w1, c1) = reduce_round(&w0, 0, t[4], m, inv);
    let (k1, w2, c2) = reduce_round(&w1, c1, t[5], m, inv);
    let (k2, w3, c3) = reduce_round(&w2, c2, t[6], m, inv);
    let (k3, w4, c4) = reduce_round(&w3, c3, t[7], m, inv);
    proof {
        let q = value4([k0, k1, k2, k3]);
        let u = value4(w4) + c4 * pow2_256();
        lemma_mul_distributes4(
            f.modulus as int,
            k0 as int,
            k1 as int,
            k2 as int,
            k3 as int,
            pow2_64() as int,
            pow2_128() as int,
            pow2_192() as int,
        );
        assert(u * pow2_256() == value8(*t) + q * f.modulus);
        lemma_redc_quotient(f, value8(*t), q, u as nat);
        lemma_radix_inverse(f);
        lemma_redc_congruent(f, value8(*t));
        lemma_mod_bound((value8(*t) * f.radix_inv) as int, f.modulus as int);
    }
    reduce_once(&w4, c4 != 0, m, Ghost(f))
}

/// Montgomery multiplication: the 512-bit product of `a` and `b`, reduced.
/// The result is congruent to `a * b * R^-1` modulo `m`, and when one factor
/// is no greater than the modulus it is below `m`.
pub fn mul_mod(a: &[u64; 4], b: &[u64; 4], m: &[u64; 4], inv: u64, Ghost(f): Ghost<Montgomery>) -> (r:
    [u64; 4])
    requires
        f.describes(*m, inv),
    ensures
        value4(r) == f.mul(value4(*a), value4(*b)),
        value4(r) % f.modulus == (value4(*a) * value4(*b) * f.radix_inv) % f.modulus,
        value4(*a) <= f.modulus || value4(*b) <= f.modulus ==> value4(r) < f.modulus,
{
    proof {
        lemma_value4_bound(*a);
        lemma_value4_bound(*b);
        lemma_radix_inverse(f);
        lemma_mul_congruent(f, value4(*a), value4(*b));
        lemma_mod_bound((value4(*a) * value4(*b) * f.radix_inv) as int, f.modulus as int);
    }
    let t = mul_wide(a, b);
    montgomery_reduce(&t, m, inv, Ghost(f))
}

/// Montgomery squaring: what `mul_mod` gives for `a` and `a`, from a product
/// that computes each mixed limb product once.
pub fn square_mod(a: &[u64; 4], m: &[u64; 4], inv: u64, Ghost(f): Ghost<Montgomery>) -> (r: [
    u64;
    4
])
    requires
        f.describes(*m, inv),
    ensures
        value4(r) == f.mul(value4(*a), value4(*a)),
        value4(r) % f.modulus == (value4(*a) * value4(*a) * f.radix_inv) % f.modulus,
        value4(*a) <= f.modulus ==> value4(r) < f.modulus,
{
    proof {
        lemma_value4_bound(*a);
        lemma_radix_inverse(f);
        lemma_mul_congruent(f, value4(*a), value4(*a));
        lemma_mod_bound((value4(*a) * value4(*a) * f.radix_inv) as int, f.modulus as int);
    }
    let t = square_wide(a);
    montgomery_reduce(&t, m, inv, Ghost(f))
}

/// Into Montgomery form: `x * R mod m`, for any four limbs `x`, by one
/// Montgomery multiplication with `r2 = R^2 mod m`.
pub fn to_montgomery(
    x: &[u64; 4],
    r2: &[u64; 4],
    m: &[u64; 4],
    inv: u64,
    Ghost(f): Ghost<Montgomery>,
) -> (r: [u64; 4])
    requires
        f.describes(*m, inv),
        value4(*r2) == (pow2_256() * pow2_256()) % f.modulus,
    ensures
        value4(r) == f.to_montgomery(value4(*x)),
        value4(r) < f.modulus,
{
    proof {
        lemma_value4_bound(*x);
        lemma_radix_inverse(f);
        lemma_to_montgomery_by_mul(f, value4(*x), value4(*r2));
        lemma_mod_bound((value4(*x) * pow2_256()) as int, f.modulus as int);
    }
    mul_mod(x, r2, m, inv, Ghost(f))
}

/// Out of Montgomery form: `x * R^-1 mod m`, for any four limbs `x`, by one
/// Montgomery reduction.
pub fn from_montgomery(x: &[u64; 4], m: &[u64; 4], inv: u64, Ghost(f): Ghost<Montgomery>) -> (r: [
    u64;
    4
])
    requires
        f.describes(*m, inv),
    ensures
        value4(r) == f.from_montgomery(value4(*x)),
        value4(r) < f.modulus,
{
    proof {
        lemma_value4_bound(*x);
        lemma_radix_inverse(f);
        lemma_from_montgomery_by_redc(f, value4(*x));
        lemma_mod_bound((value4(*x) * f.radix_inv) as int, f.modulus as int);
    }
    let t = [x[0], x[1], x[2], x[3], 0, 0, 0, 0];
    montgomery_reduce(&t, m, inv, Ghost(f))
}

} // verus!
