use sloth_pasta::{Fp, Fq, FP_MODULUS, FP_R, FQ_MODULUS, FQ_R};

#[test]
fn the_two_fields_have_their_own_constants() {
    assert_ne!(FP_MODULUS, FQ_MODULUS);
    assert_ne!(FP_R, FQ_R);
    assert_ne!(Fp::one().0.l, Fq::one().0.l);
    assert_ne!(Fp::neg_one().0.l, Fq::neg_one().0.l);
    assert_ne!(Fp::from(3).0.l, Fq::from(3).0.l);
}

#[test]
fn the_same_integer_reads_back_from_either_field() {
    let x = [0x1234, 0x5678, 0x9abc, 0x0def];
    assert_eq!(Fp::from_le_u64s_nonmont(x).to_le_u64s_nonmont(), x);
    assert_eq!(Fq::from_le_u64s_nonmont(x).to_le_u64s_nonmont(), x);
    assert_ne!(Fp::from_le_u64s_nonmont(x).0.l, Fq::from_le_u64s_nonmont(x).0.l);
}

#[test]
fn each_prime_is_zero_only_in_its_own_field() {
    assert_eq!(Fp::from_le_u64s_nonmont(FP_MODULUS), Fp::zero());
    assert_eq!(Fq::from_le_u64s_nonmont(FQ_MODULUS), Fq::zero());
    assert_ne!(Fp::from_le_u64s_nonmont(FQ_MODULUS), Fp::zero());
    assert_ne!(Fq::from_le_u64s_nonmont(FP_MODULUS), Fq::zero());
    // q - p = 0x47afc1_f319ba3400000000
    assert_eq!(
        Fp::from_le_u64s_nonmont(FQ_MODULUS).to_le_u64s_nonmont(),
        [0xf319ba3400000000, 0x000000000047afc1, 0, 0]
    );
}
