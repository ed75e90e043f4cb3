use sloth_pasta::{pasta_fp, pasta_fq, Fp, Fq, FP_MODULUS, FQ_MODULUS};

// Plain arithmetic modulo `m` on integers below `m`, one bit at a time: slow,
// and with nothing in common with Montgomery form.

fn less(a: &[u64; 4], b: &[u64; 4]) -> bool {
    (a[3], a[2], a[1], a[0]) < (b[3], b[2], b[1], b[0])
}

fn plain_add(a: &[u64; 4], b: &[u64; 4]) -> [u64; 4] {
    let mut r = [0u64; 4];
    let mut carry = 0u128;
    for i in 0..4 {
        let t = a[i] as u128 + b[i] as u128 + carry;
        r[i] = t as u64;
        carry = t >> 64;
    }
    assert_eq!(carry, 0);
    r
}

fn plain_sub(a: &[u64; 4], b: &[u64; 4]) -> [u64; 4] {
    let mut r = [0u64; 4];
    let mut borrow = 0u64;
    for i in 0..4 {
        let (d, b1) = a[i].overflowing_sub(b[i]);
        let (d, b2) = d.overflowing_sub(borrow);
        r[i] = d;
        borrow = (b1 | b2) as u64;
    }
    assert_eq!(borrow, 0);
    r
}

fn add_modulo(a: &[u64; 4], b: &[u64; 4], m: &[u64; 4]) -> [u64; 4] {
    let s = plain_add(a, b);
    if less(&s, m) {
        s
    } else {
        plain_sub(&s, m)
    }
}

fn sub_modulo(a: &[u64; 4], b: &[u64; 4], m: &[u64; 4]) -> [u64; 4] {
    if less(a, b) {
        plain_sub(&plain_add(a, m), b)
    } else {
        plain_sub(a, b)
    }
}

fn mul_modulo(a: &[u64; 4], b: &[u64; 4], m: &[u64; 4]) -> [u64; 4] {
    let mut acc = [0u64; 4];
    for bit in (0..256).rev() {
        acc = add_modulo(&acc, &acc, m);
        if (b[bit / 64] >> (bit % 64)) & 1 == 1 {
            acc = add_modulo(&acc, a, m);
        }
    }
    acc
}

struct Stream(u64);

impl Stream {
    fn next(&mut self) -> u64 {
        self.0 ^= self.0 >> 12;
        self.0 ^= self.0 << 25;
        self.0 ^= self.0 >> 27;
        self.0.wrapping_mul(0x2545f4914f6cdd1d)
    }

    // An integer below 2^254, hence below either prime.
    fn below_the_primes(&mut self) -> [u64; 4] {
        [self.next(), self.next(), self.next(), self.next() >> 2]
    }

    fn any_limbs(&mut self) -> [u64; 4] {
        [self.next(), self.next(), self.next(), self.next()]
    }
}

#[test]
fn fp_agrees_with_plain_modular_arithmetic() {
    let mut stream = Stream(0x9e3779b97f4a7c15);
    for _ in 0..200 {
        let (a, b) = (stream.below_the_primes(), stream.below_the_primes());
        let (x, y) = (Fp::from_le_u64s_nonmont(a), Fp::from_le_u64s_nonmont(b));
        assert_eq!(x.to_le_u64s_nonmont(), a);
        assert_eq!(x.add(&y).to_le_u64s_nonmont(), add_modulo(&a, &b, &FP_MODULUS));
        assert_eq!(x.sub(&y).to_le_u64s_nonmont(), sub_modulo(&a, &b, &FP_MODULUS));
        assert_eq!(x.mul(&y).to_le_u64s_nonmont(), mul_modulo(&a, &b, &FP_MODULUS));
        assert_eq!(x.square().to_le_u64s_nonmont(), mul_modulo(&a, &a, &FP_MODULUS));
    }
}

#[test]
fn fq_agrees_with_plain_modular_arithmetic() {
    let mut stream = Stream(0xd1b54a32d192ed03);
    for _ in 0..200 {
        let (a, b) = (stream.below_the_primes(), stream.below_the_primes());
        let (x, y) = (Fq::from_le_u64s_nonmont(a), Fq::from_le_u64s_nonmont(b));
        assert_eq!(x.to_le_u64s_nonmont(), a);
        assert_eq!(x.add(&y).to_le_u64s_nonmont(), add_modulo(&a, &b, &FQ_MODULUS));
        assert_eq!(x.sub(&y).to_le_u64s_nonmont(), sub_modulo(&a, &b, &FQ_MODULUS));
        assert_eq!(x.mul(&y).to_le_u64s_nonmont(), mul_modulo(&a, &b, &FQ_MODULUS));
        assert_eq!(x.square().to_le_u64s_nonmont(), mul_modulo(&a, &a, &FQ_MODULUS));
    }
}

#[test]
fn fp_takes_any_256_bit_integer_modulo_the_prime() {
    let mut stream = Stream(0x0123456789abcdef);
    for _ in 0..200 {
        let a = stream.any_limbs();
        // 2^256 < 4p, so at most three subtractions bring `a` below `p`.
        let mut reduced = a;
        for _ in 0..3 {
            if !less(&reduced, &FP_MODULUS) {
                reduced = plain_sub(&reduced, &FP_MODULUS);
            }
        }
        let x = Fp::from_le_u64s_nonmont(a);
        assert!(less(&x.0.l, &FP_MODULUS));
        assert_eq!(x.to_le_u64s_nonmont(), reduced);
        assert_eq!(x, Fp::from_le_u64s_nonmont(reduced));
    }
}

#[test]
fn fq_takes_any_256_bit_integer_modulo_the_prime() {
    let mut stream = Stream(0xfedcba9876543210);
    for _ in 0..200 {
        let a = stream.any_limbs();
        let mut reduced = a;
        for _ in 0..3 {
            if !less(&reduced, &FQ_MODULUS) {
                reduced = plain_sub(&reduced, &FQ_MODULUS);
            }
        }
        let x = Fq::from_le_u64s_nonmont(a);
        assert!(less(&x.0.l, &FQ_MODULUS));
        assert_eq!(x.to_le_u64s_nonmont(), reduced);
        assert_eq!(x, Fq::from_le_u64s_nonmont(reduced));
    }
}

#[test]
fn products_of_any_limbs_stand_for_the_product() {
    let mut stream = Stream(0x243f6a8885a308d3);
    for _ in 0..100 {
        let (a, b) = (stream.any_limbs(), stream.any_limbs());
        let (x, y) = (Fp(pasta_fp { l: a }), Fp(pasta_fp { l: b }));
        assert_eq!(
            x.mul(&y).to_le_u64s_nonmont(),
            mul_modulo(&x.to_le_u64s_nonmont(), &y.to_le_u64s_nonmont(), &FP_MODULUS)
        );
        assert_eq!(x.square(), x.mul(&x));
        let (x, y) = (Fq(pasta_fq { l: a }), Fq(pasta_fq { l: b }));
        assert_eq!(
            x.mul(&y).to_le_u64s_nonmont(),
            mul_modulo(&x.to_le_u64s_nonmont(), &y.to_le_u64s_nonmont(), &FQ_MODULUS)
        );
        assert_eq!(x.square(), x.mul(&x));
    }
}
