use zkvm::fp::{Fp, P};
use zkvm::fp4::Fp4;

#[test]
fn fp_basic_arithmetic() {
    let a = Fp::new(5);
    let b = Fp::new(7);
    assert_eq!(a.add(b).as_u32(), 12);
    assert_eq!(a.sub(b).as_u32(), P - 2);
    assert_eq!(a.mul(b).as_u32(), 35);
    assert_eq!(a.neg().as_u32(), P - 5);
    assert_eq!(Fp::new(P).as_u32(), 0);
    assert_eq!(Fp::from_u64((P as u64) * 3 + 11).as_u32(), 11);
}

#[test]
fn fp_mul_commutes() {
    let samples = [0u32, 1, 2, 12345, P - 1, 0x12345678, P / 2];
    for &x in samples.iter() {
        for &y in samples.iter() {
            let a = Fp::new(x);
            let b = Fp::new(y);
            assert_eq!(a.mul(b), b.mul(a));
        }
    }
}

#[test]
fn fp_pow_and_inverse() {
    let a = Fp::new(3);
    assert_eq!(a.pow(0).as_u32(), 1);
    assert_eq!(a.pow(1).as_u32(), 3);
    assert_eq!(a.pow(5).as_u32(), 243);
    // a * (1/a) == 1 for a != 0.
    let samples = [1u32, 2, 3, 12345, P - 1, 0x12345678, P / 2, 31337];
    for &x in samples.iter() {
        let a = Fp::new(x);
        assert_eq!(a.mul(a.inv()).as_u32(), 1);
    }
    // The inverse of zero maps to zero under the a^(P-2) convention.
    assert_eq!(Fp::zero().inv().as_u32(), 0);
}

#[test]
fn fp4_mul_matches_schoolbook() {
    // Multiply two extension elements and check against the coefficient
    // convolution reduced by X^4 = 11, computed here by hand.
    let a = [3u64, 1, 4, 1];
    let b = [2u64, 7, 1, 8];
    let x = Fp4::new(
        Fp::new(a[0] as u32),
        Fp::new(a[1] as u32),
        Fp::new(a[2] as u32),
        Fp::new(a[3] as u32),
    );
    let y = Fp4::new(
        Fp::new(b[0] as u32),
        Fp::new(b[1] as u32),
        Fp::new(b[2] as u32),
        Fp::new(b[3] as u32),
    );
    let mut conv = [0u64; 7];
    for i in 0..4 {
        for j in 0..4 {
            conv[i + j] += a[i] * b[j];
        }
    }
    let mut expect = [0u64; 4];
    for k in 0..4 {
        let high = if k + 4 < 7 { conv[k + 4] } else { 0 };
        expect[k] = (conv[k] + 11 * high) % (P as u64);
    }
    let z = x.mul(y);
    for k in 0..4 {
        assert_eq!(z.elems[k].as_u32() as u64, expect[k]);
    }
}

#[test]
fn fp4_inverse() {
    let samples = [
        [1u32, 0, 0, 0],
        [0, 1, 0, 0],
        [5, 4, 3, 2],
        [P - 1, 17, 0, 99],
        [123456, 654321, 42, 7],
    ];
    for s in samples.iter() {
        let x = Fp4::new(Fp::new(s[0]), Fp::new(s[1]), Fp::new(s[2]), Fp::new(s[3]));
        let y = x.inv();
        assert_eq!(x.mul(y), Fp4::one());
    }
}

#[test]
fn fp4_add_sub_roundtrip() {
    let x = Fp4::new(Fp::new(1), Fp::new(2), Fp::new(3), Fp::new(4));
    let y = Fp4::new(Fp::new(9), Fp::new(8), Fp::new(7), Fp::new(6));
    assert_eq!(x.add(y).sub(y), x);
    assert_eq!(x.sub(x), Fp4::zero());
    assert_eq!(x.mul(Fp4::one()), x);
}
