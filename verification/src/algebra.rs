//! What the engine's operations mean: on operands below the modulus they are
//! the field operations on the integers that the Montgomery forms stand for,
//! and they obey the field laws.

use crate::limbs::pow2_256;
use crate::montgomery::{
    lemma_add_reduced, lemma_mul_congruent, lemma_radix_cancels, lemma_radix_inverse,
    lemma_sub_reduced, Montgomery,
};
use vstd::arithmetic::div_mod::{
    lemma_add_mod_noop, lemma_add_mod_noop_right, lemma_fundamental_div_mod_converse,
    lemma_mod_bound, lemma_mod_multiples_basic, lemma_mul_mod_noop, lemma_mul_mod_noop_left,
    lemma_mul_mod_noop_right, lemma_small_mod, lemma_sub_mod_noop,
};
use vstd::prelude::*;

verus! {

/// Leaving Montgomery form undoes entering it: `x * R * R^-1 == x` modulo `m`.
pub proof fn lemma_from_to_montgomery(f: Montgomery, x: nat)
    requires
        f.wf(),
    ensures
        f.from_montgomery(f.to_montgomery(x)) == x % f.modulus,
{
    let m = f.modulus as int;
    let (r, i) = (pow2_256() as int, f.radix_inv as int);
    lemma_radix_inverse(f);
    lemma_mul_mod_noop_left(x * r, i, m);
    assert((x * r) * i == x * (r * i)) by (nonlinear_arith);
    lemma_radix_cancels(f, x as int);
}

/// Entering Montgomery form undoes leaving it, for an integer below the modulus.
pub proof fn lemma_to_from_montgomery(f: Montgomery, x: nat)
    requires
        f.wf(),
        x < f.modulus,
    ensures
        f.to_montgomery(f.from_montgomery(x)) == x,
{
    let m = f.modulus as int;
    let (r, i) = (pow2_256() as int, f.radix_inv as int);
    lemma_radix_inverse(f);
    lemma_mul_mod_noop_left(x * i, r, m);
    assert((x * i) * r == x * (r * i)) by (nonlinear_arith);
    lemma_radix_cancels(f, x as int);
    lemma_small_mod(x, f.modulus);
}

/// Two integers below the modulus that stand for the same field element are equal.
pub proof fn lemma_from_montgomery_injective(f: Montgomery, x: nat, y: nat)
    requires
        f.wf(),
        x < f.modulus,
        y < f.modulus,
        f.from_montgomery(x) == f.from_montgomery(y),
    ensures
        x == y,
{
    lemma_to_from_montgomery(f, x);
    lemma_to_from_montgomery(f, y);
}

/// Addition of Montgomery forms is addition of what they stand for, as long
/// as their sum stays below twice the modulus.
pub proof fn lemma_add_value(f: Montgomery, a: nat, b: nat)
    requires
        f.wf(),
        a + b < 2 * f.modulus,
    ensures
        f.add(a, b) < f.modulus,
        f.from_montgomery(f.add(a, b)) == (f.from_montgomery(a) + f.from_montgomery(b))
            % f.modulus,
{
    let m = f.modulus as int;
    let i = f.radix_inv as int;
    lemma_add_reduced(f, a, b);
    let (a, b) = (a as int, b as int);
    lemma_mod_bound(a + b, m);
    lemma_mul_mod_noop_left(a + b, i, m);
    assert((a + b) * i == a * i + b * i) by (nonlinear_arith);
    lemma_add_mod_noop(a * i, b * i, m);
}

/// Subtraction of Montgomery forms is subtraction of what they stand for, as
/// long as their difference is at least `-m` and below `m`.
pub proof fn lemma_sub_value(f: Montgomery, a: nat, b: nat)
    requires
        f.wf(),
        -f.modulus <= a - b < f.modulus,
    ensures
        f.sub(a, b) < f.modulus,
        f.from_montgomery(f.sub(a, b)) == (f.from_montgomery(a) - f.from_montgomery(b)) % (
        f.modulus as int),
{
    let m = f.modulus as int;
    let i = f.radix_inv as int;
    lemma_sub_reduced(f, a, b);
    let (a, b) = (a as int, b as int);
    lemma_mod_bound(a - b, m);
    lemma_mul_mod_noop_left(a - b, i, m);
    assert((a - b) * i == a * i - b * i) by (nonlinear_arith);
    lemma_sub_mod_noop(a * i, b * i, m);
}

/// Montgomery multiplication is multiplication of what the forms stand for,
/// whatever the limbs hold; the product is below the modulus when one factor
/// is no greater than it.
pub proof fn lemma_mul_value(f: Montgomery, a: nat, b: nat)
    requires
        f.wf(),
        a < pow2_256(),
        b < pow2_256(),
    ensures
        a <= f.modulus || b <= f.modulus ==> f.mul(a, b) < f.modulus,
        f.from_montgomery(f.mul(a, b)) == (f.from_montgomery(a) * f.from_montgomery(b))
            % f.modulus,
{
    let m = f.modulus as int;
    let i = f.radix_inv as int;
    lemma_radix_inverse(f);
    lemma_mul_congruent(f, a, b);
    let p = f.mul(a, b) as int;
    let (a, b) = (a as int, b as int);
    lemma_mod_bound(a * b * i, m);
    lemma_mul_mod_noop_left(p, i, m);
    lemma_mul_mod_noop_left(a * b * i, i, m);
    assert((a * b * i) * i == (a * i) * (b * i)) by (nonlinear_arith);
    lemma_mul_mod_noop(a * i, b * i, m);
}

/// Addition commutes.
pub proof fn lemma_add_commutes(f: Montgomery, a: nat, b: nat)
    ensures
        f.add(a, b) == f.add(b, a),
{
}

/// Zero is the identity of addition.
pub proof fn lemma_add_zero(f: Montgomery, a: nat)
    requires
        a < f.modulus,
    ensures
        f.add(a, 0) == a,
{
}

/// `0 - a` is the additive inverse of `a`, for every `a` that fits four limbs.
pub proof fn lemma_add_negation(f: Montgomery, a: nat)
    requires
        f.modulus < pow2_256(),
        a < pow2_256(),
    ensures
        f.sub(0, a) < pow2_256(),
        f.add(a, f.sub(0, a)) == 0,
{
    let r = pow2_256() as int;
    let m = f.modulus as int;
    if a == 0 {
        lemma_small_mod(0, pow2_256());
    } else if a <= f.modulus {
        lemma_small_mod((m - a) as nat, pow2_256());
        lemma_small_mod(0, pow2_256());
    } else {
        lemma_fundamental_div_mod_converse(m - a, r, -1, r + m - a);
        lemma_fundamental_div_mod_converse(r, r, 1, 0);
    }
}

/// Addition associates.
pub proof fn lemma_add_associates(f: Montgomery, a: nat, b: nat, c: nat)
    requires
        f.modulus < pow2_256(),
        a < f.modulus,
        b < f.modulus,
        c < f.modulus,
    ensures
        f.add(f.add(a, b), c) == f.add(a, f.add(b, c)),
{
    let m = f.modulus as int;
    lemma_add_reduced(f, a, b);
    lemma_add_reduced(f, b, c);
    lemma_mod_bound((a + b) as int, m);
    lemma_mod_bound((b + c) as int, m);
    lemma_add_reduced(f, f.add(a, b), c);
    lemma_add_reduced(f, a, f.add(b, c));
    lemma_add_mod_noop_right(c as int, (a + b) as int, m);
    lemma_add_mod_noop_right(a as int, (b + c) as int, m);
}

/// Multiplication commutes.
pub proof fn lemma_mul_commutes(f: Montgomery, a: nat, b: nat)
    ensures
        f.mul(a, b) == f.mul(b, a),
{
}

/// Multiplication associates.
pub proof fn lemma_mul_associates(f: Montgomery, a: nat, b: nat, c: nat)
    requires
        f.wf(),
        a < f.modulus,
        b < f.modulus,
        c < f.modulus,
    ensures
        f.mul(f.mul(a, b), c) == f.mul(a, f.mul(b, c)),
{
    let m = f.modulus as int;
    let i = f.radix_inv as int;
    lemma_mul_congruent(f, a, b);
    lemma_mul_congruent(f, b, c);
    let (ab, bc) = (f.mul(a, b), f.mul(b, c));
    let (a, b, c) = (a as int, b as int, c as int);
    lemma_mod_bound(a * b * i, m);
    lemma_mod_bound(b * c * i, m);
    lemma_mul_congruent(f, ab, c as nat);
    lemma_mul_congruent(f, a as nat, bc);
    lemma_mul_mod_noop_left(a * b * i, c * i, m);
    lemma_mul_mod_noop_right(a * i, b * c * i, m);
    assert(ab * c * i == ab * (c * i)) by (nonlinear_arith);
    assert(a * bc * i == (a * i) * bc) by (nonlinear_arith);
    assert((a * b * i) * (c * i) == (a * i) * (b * c * i)) by (nonlinear_arith);
}

/// The Montgomery form of one is the identity of multiplication.
pub proof fn lemma_mul_one(f: Montgomery, a: nat)
    requires
        f.wf(),
        a < f.modulus,
    ensures
        f.mul(a, f.to_montgomery(1)) == a,
{
    let m = f.modulus as int;
    let (r, i) = (pow2_256() as int, f.radix_inv as int);
    let one = f.to_montgomery(1) as int;
    lemma_mod_bound(r, m);
    lemma_mul_congruent(f, a, one as nat);
    let a = a as int;
    assert(a * one * i == (a * i) * one) by (nonlinear_arith);
    lemma_mul_mod_noop_right(a * i, r, m);
    assert((a * i) * r == a * (r * i)) by (nonlinear_arith);
    lemma_radix_cancels(f, a);
    lemma_small_mod(a as nat, f.modulus);
}

/// Multiplication distributes over addition.
pub proof fn lemma_mul_distributes(f: Montgomery, a: nat, b: nat, c: nat)
    requires
        f.wf(),
        a < f.modulus,
        b < f.modulus,
        c < f.modulus,
    ensures
        f.mul(a, f.add(b, c)) == f.add(f.mul(a, b), f.mul(a, c)),
{
    let m = f.modulus as int;
    let i = f.radix_inv as int;
    lemma_add_reduced(f, b, c);
    lemma_mod_bound((b + c) as int, m);
    let s = f.add(b, c);
    lemma_mul_congruent(f, a, s);
    lemma_mul_congruent(f, a, b);
    lemma_mul_congruent(f, a, c);
    let (a, b, c, s) = (a as int, b as int, c as int, s as int);
    lemma_mod_bound(a * b * i, m);
    lemma_mod_bound(a * c * i, m);
    lemma_add_reduced(f, f.mul(a as nat, b as nat), f.mul(a as nat, c as nat));
    lemma_add_mod_noop(a * b * i, a * c * i, m);
    assert(a * s * i == (a * i) * s) by (nonlinear_arith);
    lemma_mul_mod_noop_right(a * i, b + c, m);
    assert((a * i) * (b + c) == a * b * i + a * c * i) by (nonlinear_arith);
}

/// The modulus itself enters Montgomery form as zero.
pub proof fn lemma_modulus_is_zero(f: Montgomery)
    requires
        0 < f.modulus,
    ensures
        f.to_montgomery(f.modulus) == 0,
{
    lemma_mod_multiples_basic(pow2_256() as int, f.modulus as int);
}

} // verus!
