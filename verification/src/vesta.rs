//! The base field of the Vesta curve: integers modulo the prime
//!
//! `q = 0x4000000000000000_0000000000000000_224698fc0994a8dd_8c46eb2100000001`,
//!
//! held in Montgomery form with radix `R = 2^256`.

use crate::algebra::{
    lemma_add_associates, lemma_add_commutes, lemma_add_negation, lemma_add_value, lemma_add_zero,
    lemma_from_montgomery_injective, lemma_from_to_montgomery, lemma_modulus_is_zero,
    lemma_mul_associates, lemma_mul_commutes, lemma_mul_distributes, lemma_mul_one,
    lemma_mul_value, lemma_sub_value,
};
use crate::limbs::{
    equal4, lemma_limbs_of_value, lemma_value4_bound, lemma_value4_injective,
    lemma_value_of_limbs, limbs_of, pow2_256, pow2_64, value4,
};
use crate::montgomery::{
    add_mod, from_montgomery, mul_mod, square_mod, sub_mod, to_montgomery, Montgomery,
};
use vstd::arithmetic::div_mod::{
    lemma_fundamental_div_mod_converse, lemma_mod_bound, lemma_small_mod,
};
use vstd::prelude::*;
use vstd::std_specs::cmp::PartialEqSpecImpl;
use vstd::std_specs::convert::FromSpecImpl;

verus! {

/// The raw encoding of an element: four 64-bit limbs, least significant first,
/// and nothing else.
#[allow(non_camel_case_types)]
#[derive(Debug, Copy, Clone, Eq)]
pub struct pasta_fq {
    pub l: [u64; 4],
}

/// The prime `q`, as four limbs. It is not the Montgomery form of anything.
pub const FQ_MODULUS: [u64; 4] = [
    0x8c46eb2100000001,
    0x224698fc0994a8dd,
    0x0000000000000000,
    0x4000000000000000,
];

/// `R mod q`: the Montgomery form of one.
pub const FQ_R: [u64; 4] = [
    0x5b2b3e9cfffffffd,
    0x992c350be3420567,
    0xffffffffffffffff,
    0x3fffffffffffffff,
];

/// `R^2 mod q`: multiplying by it, then reducing, enters Montgomery form.
pub const FQ_R2: [u64; 4] = [
    0xfc9678ff0000000f,
    0x67bb433d891a16e3,
    0x7fae231004ccf590,
    0x096d41af7ccfdaa9,
];

/// `-q^-1 mod 2^64`: the word that drives the reduction.
pub const FQ_INV: u64 = 0x8c46eb20ffffffff;

/// An element of the field, stored as the limbs of its Montgomery form.
///
/// The limbs are public, so any four words can be wrapped. An element is
/// *reduced* when its limbs hold an integer below `q`; every operation
/// returns a reduced element when given reduced ones, and the conversions
/// always do.
#[derive(Debug, Copy, Clone, Eq)]
pub struct Fq(pub pasta_fq);

/// The field: the prime `q`, with `-q^-1 mod R` and `R^-1 mod q`.
pub open spec fn field() -> Montgomery {
    Montgomery {
        modulus: 0x4000000000000000_0000000000000000_224698fc0994a8dd_8c46eb2100000001nat,
        neg_inv: 0x7dea27745d91e54d_5e42f96301437c4e_d6c83a9183930e9c_8c46eb20ffffffffnat,
        radix_inv: 0x1f7a89dd17647953_5790be58c050df13_c68de1279dc601eb_6119a3dd8e1a6f7fnat,
    }
}

/// The constants are what their names say.
pub proof fn lemma_constants()
    ensures
        field().describes(FQ_MODULUS, FQ_INV),
        value4(FQ_R) == field().to_montgomery(1),
        value4(FQ_R2) == (pow2_256() * pow2_256()) % field().modulus,
{
    let m = field().modulus as int;
    let r = pow2_256() as int;
    lemma_fundamental_div_mod_converse(1 * r, m, 3, value4(FQ_R) as int);
    lemma_fundamental_div_mod_converse(
        r * r,
        m,
        0x3_ffffffffffffffff_fffffffffffffffd_db96703f66b57227_3b914deffffffff1int,
        value4(FQ_R2) as int,
    );
    lemma_fundamental_div_mod_converse(
        FQ_MODULUS[0] * FQ_INV + 1,
        pow2_64() as int,
        0x4cdda4d186019a41int,
        0,
    );
}

impl View for pasta_fq {
    type V = nat;

    /// The integer that the limbs hold.
    open spec fn view(&self) -> nat {
        value4(self.l)
    }
}

impl View for Fq {
    type V = nat;

    /// The field element that the limbs stand for, as the integer in `[0, q)`.
    open spec fn view(&self) -> nat {
        field().from_montgomery(self.raw())
    }
}

impl Default for pasta_fq {
    /// Four zero limbs.
    fn default() -> (r: pasta_fq)
        ensures
            r.l == [0u64, 0u64, 0u64, 0u64],
    {
        pasta_fq { l: [0, 0, 0, 0] }
    }
}

impl Default for Fq {
    /// Zero.
    fn default() -> (r: Fq)
        ensures
            r == Fq::zero(),
    {
        Fq::zero()
    }
}

impl PartialEq for pasta_fq {
    /// Limb by limb, without branching on what the limbs hold.
    fn eq(&self, other: &pasta_fq) -> (r: bool) {
        equal4(&self.l, &other.l)
    }
}

impl PartialEqSpecImpl for pasta_fq {
    open spec fn obeys_eq_spec() -> bool {
        true
    }

    open spec fn eq_spec(&self, other: &pasta_fq) -> bool {
        *self == *other
    }
}

impl PartialEq for Fq {
    /// Equality of the limbs, which for reduced elements is equality of the
    /// field elements they stand for.
    fn eq(&self, other: &Fq) -> (r: bool) {
        equal4(&self.0.l, &other.0.l)
    }
}

impl PartialEqSpecImpl for Fq {
    open spec fn obeys_eq_spec() -> bool {
        true
    }

    open spec fn eq_spec(&self, other: &Fq) -> bool {
        *self == *other
    }
}

impl Fq {
    /// The integer that the limbs hold: the Montgomery form itself.
    pub open spec fn raw(self) -> nat {
        self.0@
    }

    /// The limbs hold an integer below `q`.
    pub open spec fn is_reduced(self) -> bool {
        self.raw() < field().modulus
    }

    /// The element whose limbs hold `n mod 2^256`.
    pub open spec fn of_raw(n: nat) -> Fq {
        Fq(pasta_fq { l: limbs_of(n) })
    }

    /// The element whose limbs are all zero.
    pub open spec fn spec_zero() -> Fq {
        Fq::of_raw(0)
    }

    /// The element whose limbs hold `R mod q`.
    pub open spec fn spec_one() -> Fq {
        Fq::of_raw(field().to_montgomery(1))
    }

    /// Zero less one.
    pub open spec fn spec_neg_one() -> Fq {
        Fq::spec_zero().spec_sub(&Fq::spec_one())
    }

    /// The element whose limbs hold `q` itself.
    pub open spec fn spec_modulus() -> Fq {
        Fq::of_raw(field().modulus)
    }

    /// `x * R mod q`, for the integer `x` that `le_u64s` holds.
    pub open spec fn spec_from_le_u64s_nonmont(le_u64s: [u64; 4]) -> Fq {
        Fq::of_raw(field().to_montgomery(value4(le_u64s)))
    }

    /// The limbs of the integer in `[0, q)` that the element stands for.
    pub open spec fn spec_to_le_u64s_nonmont(&self) -> [u64; 4] {
        limbs_of(self@)
    }

    /// The sum of the two Montgomery forms, less `q` if it reaches `q`.
    pub open spec fn spec_add(&self, other: &Fq) -> Fq {
        Fq::of_raw(field().add(self.raw(), other.raw()))
    }

    /// The difference of the two Montgomery forms, plus `q` if it is negative.
    pub open spec fn spec_sub(&self, other: &Fq) -> Fq {
        Fq::of_raw(field().sub(self.raw(), other.raw()))
    }

    /// The Montgomery reduction of the product of the two Montgomery forms.
    pub open spec fn spec_mul(&self, other: &Fq) -> Fq {
        Fq::of_raw(field().mul(self.raw(), other.raw()))
    }

    /// The product of the element with itself.
    pub open spec fn spec_square(&self) -> Fq {
        self.spec_mul(self)
    }

    /// An element is what `of_raw` makes of the integer in its limbs.
    pub proof fn lemma_of_raw(self)
        ensures
            Fq::of_raw(self.raw()) == self,
    {
        lemma_limbs_of_value(self.0.l);
    }

    /// `of_raw` puts `n` into the limbs unchanged, for `n` below `2^256`.
    pub proof fn lemma_raw_of_raw(n: nat)
        requires
            n < pow2_256(),
        ensures
            Fq::of_raw(n).raw() == n,
    {
        lemma_value_of_limbs(n);
    }

    /// As long as the two Montgomery forms add up to less than `2 * q`, as
    /// those of reduced elements do, the sum is reduced and stands for the sum
    /// of what the elements stand for.
    pub proof fn lemma_add_value(a: Fq, b: Fq)
        requires
            a.raw() + b.raw() < 2 * field().modulus,
        ensures
            a.add(&b).is_reduced(),
            a.add(&b)@ == (a@ + b@) % field().modulus,
    {
        lemma_constants();
        lemma_add_value(field(), a.raw(), b.raw());
        Fq::lemma_raw_of_raw(field().add(a.raw(), b.raw()));
    }

    /// As long as the two Montgomery forms differ by at least `-q` and less
    /// than `q`, as those of reduced elements do, the difference is reduced and
    /// stands for the difference of what the elements stand for.
    pub proof fn lemma_sub_value(a: Fq, b: Fq)
        requires
            -field().modulus <= a.raw() - b.raw() < field().modulus,
        ensures
            a.sub(&b).is_reduced(),
            a.sub(&b)@ == (a@ - b@) % (field().modulus as int),
    {
        lemma_constants();
        lemma_sub_value(field(), a.raw(), b.raw());
        Fq::lemma_raw_of_raw(field().sub(a.raw(), b.raw()));
    }

    /// The product of two elements stands for the product of what they stand
    /// for, whatever their limbs hold; it is reduced when the limbs of one of
    /// them hold no more than `q`.
    pub proof fn lemma_mul_value(a: Fq, b: Fq)
        ensures
            a.mul(&b)@ == (a@ * b@) % field().modulus,
            a.raw() <= field().modulus || b.raw() <= field().modulus ==> a.mul(&b).is_reduced(),
    {
        lemma_constants();
        lemma_value4_bound(a.0.l);
        lemma_value4_bound(b.0.l);
        lemma_mul_value(field(), a.raw(), b.raw());
        Fq::lemma_raw_of_raw(field().mul(a.raw(), b.raw()));
    }

    /// Zero, whose Montgomery form is zero.
    #[verifier::when_used_as_spec(spec_zero)]
    pub fn zero() -> (r: Fq)
        ensures
            r == Fq::spec_zero(),
            r.is_reduced(),
            r@ == 0,
    {
        let r = Fq(pasta_fq { l: [0, 0, 0, 0] });
        proof {
            r.lemma_of_raw();
        }
        r
    }

    /// One, whose Montgomery form is `R mod q`.
    #[verifier::when_used_as_spec(spec_one)]
    pub fn one() -> (r: Fq)
        ensures
            r == Fq::spec_one(),
            r.is_reduced(),
            r@ == 1,
    {
        let r = Fq(pasta_fq { l: FQ_R });
        proof {
            lemma_constants();
            r.lemma_of_raw();
            lemma_mod_bound((1 * pow2_256()) as int, field().modulus as int);
            lemma_from_to_montgomery(field(), 1);
        }
        r
    }

    /// `-1 = q - 1 (mod q)`
    #[verifier::when_used_as_spec(spec_neg_one)]
    pub fn neg_one() -> (r: Fq)
        ensures
            r == Fq::spec_neg_one(),
            r.is_reduced(),
            r@ == field().modulus - 1,
    {
        Fq::zero().sub(&Fq::one())
    }

    /// The element for the integer that `le_u64s` holds, which may be any
    /// 256-bit integer: it is taken modulo `q` on the way into Montgomery form.
    #[verifier::when_used_as_spec(spec_from_le_u64s_nonmont)]
    pub fn from_le_u64s_nonmont(le_u64s: [u64; 4]) -> (r: Fq)
        ensures
            r == Fq::spec_from_le_u64s_nonmont(le_u64s),
            r.is_reduced(),
            r@ == value4(le_u64s) % field().modulus,
    {
        proof {
            lemma_constants();
        }
        let l = to_montgomery(&le_u64s, &FQ_R2, &FQ_MODULUS, FQ_INV, Ghost(field()));
        let r = Fq(pasta_fq { l });
        proof {
            lemma_from_to_montgomery(field(), value4(le_u64s));
            r.lemma_of_raw();
        }
        r
    }

    /// The integer in `[0, q)` that the element stands for, as four limbs.
    /// This is defined for any limbs, reduced or not.
    #[verifier::when_used_as_spec(spec_to_le_u64s_nonmont)]
    pub fn to_le_u64s_nonmont(&self) -> (r: [u64; 4])
        ensures
            r == self.spec_to_le_u64s_nonmont(),
            value4(r) == self@,
            self@ < field().modulus,
    {
        proof {
            lemma_constants();
        }
        let r = from_montgomery(&self.0.l, &FQ_MODULUS, FQ_INV, Ghost(field()));
        proof {
            lemma_limbs_of_value(r);
        }
        r
    }

    /// Field addition, with a single conditional subtraction of `q`. As long
    /// as the two Montgomery forms add up to less than `2 * q`, as those of
    /// reduced elements do, the result is reduced and stands for the sum
    /// modulo `q`.
    #[verifier::when_used_as_spec(spec_add)]
    pub fn add(&self, other: &Fq) -> (r: Fq)
        ensures
            r == self.spec_add(other),
            self.raw() + other.raw() < 2 * field().modulus ==> r.is_reduced() && r@ == (self@
                + other@) % field().modulus,
    {
        proof {
            lemma_constants();
        }
        let l = add_mod(&self.0.l, &other.0.l, &FQ_MODULUS, Ghost(field()));
        let r = Fq(pasta_fq { l });
        proof {
            r.lemma_of_raw();
            if self.raw() + other.raw() < 2 * field().modulus {
                Fq::lemma_add_value(*self, *other);
            }
        }
        r
    }

    /// Field subtraction, with a single conditional addition of `q`. As long
    /// as the two Montgomery forms differ by at least `-q` and less than `q`,
    /// as those of reduced elements do, the result is reduced and stands for
    /// the difference modulo `q`.
    #[verifier::when_used_as_spec(spec_sub)]
    pub fn sub(&self, other: &Fq) -> (r: Fq)
        ensures
            r == self.spec_sub(other),
            -field().modulus <= self.raw() - other.raw() < field().modulus ==> r.is_reduced()
                && r@ == (self@ - other@) % (field().modulus as int),
    {
        proof {
            lemma_constants();
        }
        let l = sub_mod(&self.0.l, &other.0.l, &FQ_MODULUS, Ghost(field()));
        let r = Fq(pasta_fq { l });
        proof {
            r.lemma_of_raw();
            if -field().modulus <= self.raw() - other.raw() < field().modulus {
                Fq::lemma_sub_value(*self, *other);
            }
        }
        r
    }

    /// Field multiplication: the 512-bit product of the two Montgomery forms,
    /// then Montgomery reduction. The result stands for the product modulo `q`,
    /// and it is reduced as long as one operand's limbs hold no more than `q`.
    #[verifier::when_used_as_spec(spec_mul)]
    pub fn mul(&self, other: &Fq) -> (r: Fq)
        ensures
            r == self.spec_mul(other),
            r@ == (self@ * other@) % field().modulus,
            self.raw() <= field().modulus || other.raw() <= field().modulus ==> r.is_reduced(),
    {
        proof {
            lemma_constants();
        }
        let l = mul_mod(&self.0.l, &other.0.l, &FQ_MODULUS, FQ_INV, Ghost(field()));
        let r = Fq(pasta_fq { l });
        proof {
            r.lemma_of_raw();
            Fq::lemma_mul_value(*self, *other);
        }
        r
    }

    /// Field squaring: the same element as `self.mul(self)`, from a product
    /// that computes each mixed limb product once.
    #[verifier::when_used_as_spec(spec_square)]
    pub fn square(&self) -> (r: Fq)
        ensures
            r == self.spec_square(),
            r == self.spec_mul(self),
            r@ == (self@ * self@) % field().modulus,
            self.raw() <= field().modulus ==> r.is_reduced(),
    {
        proof {
            lemma_constants();
        }
        let l = square_mod(&self.0.l, &FQ_MODULUS, FQ_INV, Ghost(field()));
        let r = Fq(pasta_fq { l });
        proof {
            r.lemma_of_raw();
            Fq::lemma_mul_value(*self, *self);
        }
        r
    }

    /// The prime `q` itself in the limbs, as it is written and not in
    /// Montgomery form. The result is not reduced; it stands for zero.
    #[verifier::when_used_as_spec(spec_modulus)]
    pub fn modulus() -> (r: Fq)
        ensures
            r == Fq::spec_modulus(),
            r.raw() == field().modulus,
            r@ == 0,
    {
        let r = Fq(pasta_fq { l: FQ_MODULUS });
        proof {
            lemma_constants();
            r.lemma_of_raw();
            lemma_fundamental_div_mod_converse(
                (field().modulus * field().radix_inv) as int,
                field().modulus as int,
                field().radix_inv as int,
                0,
            );
        }
        r
    }
}

impl From<pasta_fq> for Fq {
    /// Wraps the limbs as they are. The element is reduced only if they hold
    /// an integer below `q`.
    fn from(fq: pasta_fq) -> (r: Fq) {
        Fq(fq)
    }
}

impl FromSpecImpl<pasta_fq> for Fq {
    open spec fn obeys_from_spec() -> bool {
        true
    }

    open spec fn from_spec(fq: pasta_fq) -> Fq {
        Fq(fq)
    }
}

impl From<Fq> for pasta_fq {
    /// The limbs of the element's Montgomery form.
    fn from(fq: Fq) -> (r: pasta_fq) {
        fq.0
    }
}

impl FromSpecImpl<Fq> for pasta_fq {
    open spec fn obeys_from_spec() -> bool {
        true
    }

    open spec fn from_spec(fq: Fq) -> pasta_fq {
        fq.0
    }
}

impl From<u64> for Fq {
    /// The element for an integer that fits one limb.
    fn from(limb: u64) -> (r: Fq)
        ensures
            r.is_reduced(),
            r@ == limb,
    {
        proof {
            lemma_small_mod(limb as nat, field().modulus);
        }
        Fq::from_le_u64s_nonmont([limb, 0, 0, 0])
    }
}

impl FromSpecImpl<u64> for Fq {
    open spec fn obeys_from_spec() -> bool {
        true
    }

    open spec fn from_spec(limb: u64) -> Fq {
        Fq::spec_from_le_u64s_nonmont([limb, 0u64, 0u64, 0u64])
    }
}

impl Fq {
    /// Leaving Montgomery form after entering it gives back the integer modulo
    /// `q`, for every 256-bit integer.
    pub proof fn lemma_round_trip(le_u64s: [u64; 4])
        ensures
            Fq::from_le_u64s_nonmont(le_u64s).is_reduced(),
            value4(Fq::from_le_u64s_nonmont(le_u64s).to_le_u64s_nonmont()) == value4(
                le_u64s,
            ) % field().modulus,
    {
        let x = value4(le_u64s);
        lemma_constants();
        lemma_mod_bound((x * pow2_256()) as int, field().modulus as int);
        lemma_mod_bound(x as int, field().modulus as int);
        Fq::lemma_raw_of_raw(field().to_montgomery(x));
        lemma_from_to_montgomery(field(), x);
        lemma_value_of_limbs(x % field().modulus);
    }

    /// Adding zero changes nothing.
    pub proof fn lemma_add_zero(a: Fq)
        requires
            a.is_reduced(),
        ensures
            a.add(&Fq::zero()) == a,
    {
        Fq::lemma_raw_of_raw(0);
        lemma_add_zero(field(), a.raw());
        a.lemma_of_raw();
    }

    /// `0 - a` is the additive inverse of `a`, whatever the limbs of `a` hold.
    pub proof fn lemma_add_negation(a: Fq)
        ensures
            a.add(&Fq::zero().sub(&a)) == Fq::zero(),
    {
        lemma_constants();
        lemma_value4_bound(a.0.l);
        Fq::lemma_raw_of_raw(0);
        lemma_add_negation(field(), a.raw());
        Fq::lemma_raw_of_raw(field().sub(0, a.raw()));
    }

    /// Multiplying by one changes nothing.
    pub proof fn lemma_mul_one(a: Fq)
        requires
            a.is_reduced(),
        ensures
            a.mul(&Fq::one()) == a,
    {
        lemma_constants();
        lemma_mod_bound((1 * pow2_256()) as int, field().modulus as int);
        Fq::lemma_raw_of_raw(field().to_montgomery(1));
        lemma_mul_one(field(), a.raw());
        a.lemma_of_raw();
    }

    /// Addition commutes.
    pub proof fn lemma_add_commutes(a: Fq, b: Fq)
        ensures
            a.add(&b) == b.add(&a),
    {
        lemma_add_commutes(field(), a.raw(), b.raw());
    }

    /// Multiplication commutes.
    pub proof fn lemma_mul_commutes(a: Fq, b: Fq)
        ensures
            a.mul(&b) == b.mul(&a),
    {
        lemma_mul_commutes(field(), a.raw(), b.raw());
    }

    /// Addition associates.
    pub proof fn lemma_add_associates(a: Fq, b: Fq, c: Fq)
        requires
            a.is_reduced(),
            b.is_reduced(),
            c.is_reduced(),
        ensures
            a.add(&b).add(&c) == a.add(&b.add(&c)),
    {
        lemma_constants();
        Fq::lemma_add_value(a, b);
        Fq::lemma_add_value(b, c);
        Fq::lemma_raw_of_raw(field().add(a.raw(), b.raw()));
        Fq::lemma_raw_of_raw(field().add(b.raw(), c.raw()));
        lemma_add_associates(field(), a.raw(), b.raw(), c.raw());
    }

    /// Multiplication associates.
    pub proof fn lemma_mul_associates(a: Fq, b: Fq, c: Fq)
        requires
            a.is_reduced(),
            b.is_reduced(),
            c.is_reduced(),
        ensures
            a.mul(&b).mul(&c) == a.mul(&b.mul(&c)),
    {
        lemma_constants();
        Fq::lemma_mul_value(a, b);
        Fq::lemma_mul_value(b, c);
        Fq::lemma_raw_of_raw(field().mul(a.raw(), b.raw()));
        Fq::lemma_raw_of_raw(field().mul(b.raw(), c.raw()));
        lemma_mul_associates(field(), a.raw(), b.raw(), c.raw());
    }

    /// Multiplication distributes over addition.
    pub proof fn lemma_mul_distributes(a: Fq, b: Fq, c: Fq)
        requires
            a.is_reduced(),
            b.is_reduced(),
            c.is_reduced(),
        ensures
            a.mul(&b.add(&c)) == a.mul(&b).add(&a.mul(&c)),
    {
        lemma_constants();
        Fq::lemma_add_value(b, c);
        Fq::lemma_mul_value(a, b);
        Fq::lemma_mul_value(a, c);
        Fq::lemma_raw_of_raw(field().add(b.raw(), c.raw()));
        Fq::lemma_raw_of_raw(field().mul(a.raw(), b.raw()));
        Fq::lemma_raw_of_raw(field().mul(a.raw(), c.raw()));
        lemma_mul_distributes(field(), a.raw(), b.raw(), c.raw());
    }

    /// Squaring is multiplication of an element by itself.
    pub proof fn lemma_square_is_mul(a: Fq)
        ensures
            a.square() == a.mul(&a),
    {
    }

    /// The modulus enters Montgomery form as zero.
    pub proof fn lemma_modulus_is_zero()
        ensures
            Fq::from_le_u64s_nonmont(FQ_MODULUS) == Fq::zero(),
    {
        lemma_constants();
        lemma_modulus_is_zero(field());
    }

    /// Reduced elements are equal exactly when they stand for the same field
    /// element: on them the Montgomery form is one-to-one.
    pub proof fn lemma_equal_by_value(a: Fq, b: Fq)
        requires
            a.is_reduced(),
            b.is_reduced(),
        ensures
            a@ == b@ <==> a == b,
    {
        lemma_constants();
        if a@ == b@ {
            lemma_from_montgomery_injective(field(), a.raw(), b.raw());
            lemma_value4_injective(a.0.l, b.0.l);
        }
    }
}

} // verus!
