use sloth_pasta::{pasta_fq, Fq, FQ_MODULUS, FQ_R};

const FQ_A: [u64; 4] = [
    0x8796a5b4c3d2e1f0,
    0x0f1e2d3c4b5a6978,
    0xfedcba9876543210,
    0x123456789abcdef0,
];

const FQ_B: [u64; 4] = [
    0x0123456789abcdef,
    0x99aabbccddeeff00,
    0x1122334455667788,
    0x0fedcba987654321,
];

const FQ_ALL_ONES: [u64; 4] = [u64::MAX, u64::MAX, u64::MAX, u64::MAX];

fn fq_samples() -> Vec<Fq> {
    vec![
        Fq::zero(),
        Fq::one(),
        Fq::neg_one(),
        Fq::from(2),
        Fq::from(u64::MAX),
        Fq::from_le_u64s_nonmont(FQ_A),
        Fq::from_le_u64s_nonmont(FQ_B),
        Fq::from_le_u64s_nonmont(FQ_ALL_ONES),
    ]
}

#[test]
fn test_from_le_u64s_nonmont_vesta() {
    assert_eq!(Fq::from_le_u64s_nonmont(FQ_MODULUS), Fq::zero());
    assert_eq!(Fq::from_le_u64s_nonmont(FQ_MODULUS).add(&Fq::one()), Fq::one());
    assert_eq!(Fq::from_le_u64s_nonmont(FQ_MODULUS).sub(&Fq::one()), Fq::neg_one());
}

#[test]
fn test_add_vesta() {
    assert_eq!(Fq::one().add(&Fq::from(3)), Fq::from(4));
}

#[test]
fn test_sub_vesta() {
    assert_eq!(Fq::from(4).sub(&Fq::from(4)), Fq::zero());
    assert_eq!(Fq::from(4).sub(&Fq::one()), Fq::from(3));
}

#[test]
fn test_mul_vesta() {
    assert_eq!(Fq::modulus().mul(&Fq::one()), Fq::zero());
    assert_eq!(Fq::one().mul(&Fq::neg_one()), Fq::neg_one());
    assert_eq!(Fq::from(3).mul(&Fq::neg_one()), Fq::modulus().sub(&Fq::from(3)));
    assert_eq!(Fq::from(4).mul(&Fq::from(3)), Fq::from(12));
}

#[test]
fn test_square_vesta() {
    assert_eq!(Fq::one().square(), Fq::one());
    assert_eq!(Fq::neg_one().square(), Fq::one());
    assert_eq!(Fq::from(2).square(), Fq::from(4));
    assert_eq!(Fq::modulus().square(), Fq::zero());
}

#[test]
fn fq_constants_have_their_limbs() {
    assert_eq!(Fq::zero().0.l, [0, 0, 0, 0]);
    assert_eq!(Fq::one().0.l, FQ_R);
    assert_eq!(Fq::modulus().0.l, FQ_MODULUS);
    assert_eq!(Fq::neg_one().0.l, [0x311bac8400000004, 0x891a63f02652a376, 0x0000000000000000, 0x0000000000000000]);
    assert_eq!(Fq::default(), Fq::zero());
    assert_eq!(pasta_fq::default().l, [0, 0, 0, 0]);
}

#[test]
fn fq_from_small_integers_is_montgomery_form() {
    assert_eq!(Fq::from(0), Fq::zero());
    assert_eq!(Fq::from(1), Fq::one());
    assert_eq!(Fq::from(3).0.l, [0xf8f3e594fffffff5, 0x86f76d2b969cbe7a, 0xfffffffffffffffe, 0x3fffffffffffffff]);
    assert_eq!(Fq::from(12).0.l, [0x3efad4f0ffffffd1, 0xb509e9ba3db4ff53, 0xfffffffffffffff9, 0x3fffffffffffffff]);
    assert_eq!(Fq::from(7), Fq::from_le_u64s_nonmont([7, 0, 0, 0]));
}

#[test]
fn fq_from_canonical_reduces_first() {
    assert_eq!(Fq::from_le_u64s_nonmont(FQ_A).0.l, [0x4b2b06f75e232269, 0xfd9250eb89649050, 0xfa18383eeedd309b, 0x1210070ab4ea7e6e]);
    assert_eq!(Fq::from_le_u64s_nonmont(FQ_ALL_ONES).0.l, [0x2db2258300000013, 0xf0d5a72daf6cba5a, 0x7fae231004ccf590, 0x096d41af7ccfdaa9]);
    let mut above = FQ_MODULUS;
    above[0] += 5;
    assert_eq!(Fq::from_le_u64s_nonmont(above), Fq::from(5));
}

#[test]
fn fq_round_trip_is_the_integer_modulo_the_prime() {
    assert_eq!(Fq::from_le_u64s_nonmont(FQ_A).to_le_u64s_nonmont(), FQ_A);
    assert_eq!(Fq::from_le_u64s_nonmont(FQ_B).to_le_u64s_nonmont(), FQ_B);
    assert_eq!(Fq::from_le_u64s_nonmont([0, 0, 0, 0]).to_le_u64s_nonmont(), [0, 0, 0, 0]);
    assert_eq!(Fq::from_le_u64s_nonmont(FQ_MODULUS).to_le_u64s_nonmont(), [0, 0, 0, 0]);
    assert_eq!(Fq::from_le_u64s_nonmont(FQ_ALL_ONES).to_le_u64s_nonmont(), [0x5b2b3e9cfffffffc, 0x992c350be3420567, 0xffffffffffffffff, 0x3fffffffffffffff]);
    assert_eq!(Fq::neg_one().to_le_u64s_nonmont(), [0x8c46eb2100000000, 0x224698fc0994a8dd, 0x0000000000000000, 0x4000000000000000]);
    assert_eq!(Fq::from(u64::MAX).to_le_u64s_nonmont(), [u64::MAX, 0, 0, 0]);
}

#[test]
fn fq_to_canonical_takes_any_limbs() {
    assert_eq!(Fq::one().to_le_u64s_nonmont(), [1, 0, 0, 0]);
    assert_eq!(Fq::modulus().to_le_u64s_nonmont(), [0, 0, 0, 0]);
    assert_eq!(Fq(pasta_fq { l: FQ_ALL_ONES }).to_le_u64s_nonmont(), [0x2b2d474371e59083, 0x5bb8b7d46bcea6f2, 0xa86f41a73faf20ec, 0x20857622e89b86ac]);
}

#[test]
fn fq_operations_give_the_exact_residue() {
    let a = Fq::from_le_u64s_nonmont(FQ_A);
    let b = Fq::from_le_u64s_nonmont(FQ_B);
    assert_eq!(a.add(&b).to_le_u64s_nonmont(), [0x88b9eb1c4d7eafdf, 0xa8c8e90929496878, 0x0ffeeddccbbaa998, 0x2222222222222212]);
    assert_eq!(a.sub(&b).to_le_u64s_nonmont(), [0x8673604d3a271401, 0x7573716f6d6b6a78, 0xedba875420edba87, 0x02468acf13579bcf]);
    assert_eq!(b.sub(&a).to_le_u64s_nonmont(), [0x05d38ad3c5d8ec00, 0xacd3278c9c293e65, 0x124578abdf124578, 0x3db97530eca86430]);
    assert_eq!(a.mul(&b).to_le_u64s_nonmont(), [0xff0950920d8a4895, 0xea19f17565603d79, 0x4ee7b6630b1c7eec, 0x1c17a63da72d2d04]);
    assert_eq!(a.square().to_le_u64s_nonmont(), [0x8f765c8ac612c8c6, 0x7f2e9e245ef8bf28, 0xa386e02c4e7c9fc8, 0x1c964efa89a61d6e]);
    let half = Fq::from_le_u64s_nonmont([0xc623759080000001, 0x11234c7e04ca546e, 0x0000000000000000, 0x2000000000000000]);
    assert_eq!(half.add(&half), Fq::one());
    assert_eq!(half.mul(&Fq::from(2)), Fq::one());
}

#[test]
fn fq_results_stay_below_the_prime() {
    let below = |e: &Fq| {
        let (l, m) = (e.0.l, FQ_MODULUS);
        (l[3], l[2], l[1], l[0]) < (m[3], m[2], m[1], m[0])
    };
    for a in fq_samples() {
        assert!(below(&a));
        for b in fq_samples() {
            assert!(below(&a.add(&b)));
            assert!(below(&a.sub(&b)));
            assert!(below(&a.mul(&b)));
        }
        assert!(below(&a.square()));
        assert!(below(&Fq::modulus().mul(&a)));
    }
}

#[test]
fn fq_additive_identity_and_inverse() {
    for a in fq_samples() {
        assert_eq!(a.add(&Fq::zero()), a);
        assert_eq!(Fq::zero().add(&a), a);
        assert_eq!(a.sub(&Fq::zero()), a);
        assert_eq!(a.add(&Fq::zero().sub(&a)), Fq::zero());
        assert_eq!(a.sub(&a), Fq::zero());
    }
    for l in [FQ_ALL_ONES, FQ_MODULUS, [0, 0, 0, 1 << 63]] {
        let a = Fq(pasta_fq { l });
        assert_eq!(a.add(&Fq::zero().sub(&a)), Fq::zero());
        assert_ne!(a.add(&Fq::zero()), a);
    }
}

#[test]
fn fq_multiplicative_identity() {
    for a in fq_samples() {
        assert_eq!(a.mul(&Fq::one()), a);
        assert_eq!(Fq::one().mul(&a), a);
        assert_eq!(a.mul(&Fq::zero()), Fq::zero());
    }
}

#[test]
fn fq_commutativity_and_associativity() {
    for a in fq_samples() {
        for b in fq_samples() {
            assert_eq!(a.add(&b), b.add(&a));
            assert_eq!(a.mul(&b), b.mul(&a));
            for c in fq_samples() {
                assert_eq!(a.add(&b).add(&c), a.add(&b.add(&c)));
                assert_eq!(a.mul(&b).mul(&c), a.mul(&b.mul(&c)));
            }
        }
    }
}

#[test]
fn fq_distributivity() {
    for a in fq_samples() {
        for b in fq_samples() {
            for c in fq_samples() {
                assert_eq!(a.mul(&b.add(&c)), a.mul(&b).add(&a.mul(&c)));
                assert_eq!(a.mul(&b.sub(&c)), a.mul(&b).sub(&a.mul(&c)));
            }
        }
    }
}

#[test]
fn fq_square_is_mul_by_itself() {
    for a in fq_samples() {
        assert_eq!(a.square(), a.mul(&a));
    }
    let unreduced = Fq(pasta_fq { l: FQ_ALL_ONES });
    assert_eq!(unreduced.square(), unreduced.mul(&unreduced));
    assert_eq!(Fq::modulus().square(), Fq::modulus().mul(&Fq::modulus()));
}

#[test]
fn fq_modulus_wraps_to_zero() {
    assert_eq!(Fq::from_le_u64s_nonmont(FQ_MODULUS), Fq::zero());
    assert_eq!(Fq::from_le_u64s_nonmont([0x8c46eb2100000000, 0x224698fc0994a8dd, 0x0000000000000000, 0x4000000000000000]), Fq::neg_one());
    assert_eq!(Fq::modulus().mul(&Fq::from_le_u64s_nonmont(FQ_A)), Fq::zero());
    assert_eq!(Fq::modulus().add(&Fq::zero()), Fq::zero());
}

#[test]
fn fq_single_correction_on_limbs_beyond_the_prime() {
    let ones = Fq(pasta_fq { l: FQ_ALL_ONES });
    assert_eq!(ones.add(&ones).0.l, [0x73b914defffffffd, 0xddb96703f66b5722, 0xffffffffffffffff, 0xbfffffffffffffff]);
    assert_eq!(Fq::zero().sub(&ones).0.l, [0x8c46eb2100000002, 0x224698fc0994a8dd, 0x0000000000000000, 0x4000000000000000]);
    assert_eq!(ones.mul(&ones).0.l, [0xd4d2b8bc8e1a6f7c, 0xa447482b9431590d, 0x5790be58c050df13, 0xdf7a89dd17647953]);
    assert_eq!(Fq::modulus().add(&Fq::modulus()).0.l, FQ_MODULUS);
    assert_eq!(Fq::modulus().sub(&Fq::zero()).0.l, FQ_MODULUS);
}

#[test]
fn fq_product_of_any_limbs_stands_for_the_product() {
    let ones = Fq(pasta_fq { l: FQ_ALL_ONES });
    assert_eq!(ones.to_le_u64s_nonmont(), [0x2b2d474371e59083, 0x5bb8b7d46bcea6f2, 0xa86f41a73faf20ec, 0x20857622e89b86ac]);
    assert_eq!(ones.mul(&ones).to_le_u64s_nonmont(), [0xa8f6781575ce8688, 0xbf4fae8eaa206c1e, 0x1749520d68ebe07f, 0x243dc2b422da7c0c]);
    assert_eq!(ones.square().to_le_u64s_nonmont(), [0xa8f6781575ce8688, 0xbf4fae8eaa206c1e, 0x1749520d68ebe07f, 0x243dc2b422da7c0c]);
    let a = Fq::from_le_u64s_nonmont(FQ_A);
    assert_eq!(ones.mul(&a).to_le_u64s_nonmont(), [0xb8d8815ad6781bad, 0xab2bf3a6c91cd396, 0x5830a4d175b23113, 0x28edb6afaf7ee963]);
    assert_eq!(a.mul(&ones).to_le_u64s_nonmont(), [0xb8d8815ad6781bad, 0xab2bf3a6c91cd396, 0x5830a4d175b23113, 0x28edb6afaf7ee963]);
}

#[test]
fn fq_equality_is_equality_of_limbs() {
    assert_eq!(Fq::from(9), Fq::from(9));
    assert_ne!(Fq::from(9), Fq::from(10));
    assert_ne!(Fq::modulus(), Fq::zero());
    let mut l = FQ_R;
    for i in 0..4 {
        l[i] ^= 1 << 63;
        assert_ne!(Fq(pasta_fq { l }), Fq::one());
        assert_ne!(pasta_fq { l }, pasta_fq { l: FQ_R });
        l[i] ^= 1 << 63;
    }
    assert_eq!(Fq(pasta_fq { l }), Fq::one());
    assert_eq!(pasta_fq { l }, pasta_fq { l: FQ_R });
}

#[test]
fn fq_conversions_to_and_from_raw_limbs() {
    let raw = pasta_fq { l: FQ_A };
    let wrapped = Fq::from(raw);
    assert_eq!(wrapped.0.l, FQ_A);
    assert_eq!(pasta_fq::from(wrapped), raw);
    assert_eq!(pasta_fq::from(Fq::one()).l, FQ_R);
}
