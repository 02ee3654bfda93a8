use zkvm::fp::Fp;
use zkvm::fp4::Fp4;
use zkvm::poly::{poly_eval, poly_divide, poly_interpolate};

fn fp4(v: u32) -> Fp4 {
    Fp4::from_u32(v)
}

fn fp4_full(a: u32, b: u32, c: u32, d: u32) -> Fp4 {
    Fp4::new(Fp::new(a), Fp::new(b), Fp::new(c), Fp::new(d))
}

#[test]
fn eval_constant_and_linear() {
    // p(x) = 7
    let p = vec![fp4(7)];
    assert_eq!(poly_eval(p.as_slice(), fp4(123)), fp4(7));
    // p(x) = 3 + 2x at x = 10 is 23.
    let p = vec![fp4(3), fp4(2)];
    assert_eq!(poly_eval(p.as_slice(), fp4(10)), fp4(23));
}

#[test]
fn divide_returns_remainder_and_quotient() {
    // p(x) = 6 + 5x + x^2 = (x + 2)(x + 3); divide by (x - z) with z = -2.
    let z = fp4(2).neg();
    let mut p = vec![fp4(6), fp4(5), fp4(1)];
    let orig = p.clone();
    let rem = poly_divide(&mut p, z);
    // The remainder is p(z) = 0 for a root.
    assert_eq!(rem, Fp4::zero());
    // The quotient is x + 3, with the top coefficient cleared.
    assert_eq!(p[0], fp4(3));
    assert_eq!(p[1], fp4(1));
    assert_eq!(p[2], Fp4::zero());
    // Re-multiplying by (x - z) and adding the remainder gives p back:
    // check at a few points.
    for v in [0u32, 1, 5, 77].iter() {
        let x = fp4(*v);
        let q_at = poly_eval(p.as_slice(), x);
        let recombined = q_at.mul(x.sub(z)).add(rem);
        assert_eq!(recombined, poly_eval(orig.as_slice(), x));
    }
}

#[test]
fn divide_nonroot_remainder_is_evaluation() {
    let z = fp4(4);
    let mut p = vec![fp4_full(1, 2, 3, 4), fp4(9), fp4_full(0, 0, 5, 0), fp4(8)];
    let orig = p.clone();
    let expected = poly_eval(orig.as_slice(), z);
    let rem = poly_divide(&mut p, z);
    assert_eq!(rem, expected);
    for v in [0u32, 3, 11].iter() {
        let x = fp4(*v);
        let q_at = poly_eval(p.as_slice(), x);
        let recombined = q_at.mul(x.sub(z)).add(rem);
        assert_eq!(recombined, poly_eval(orig.as_slice(), x));
    }
}

#[test]
fn interpolate_round_trip() {
    // For coefficients c and distinct sample points xs,
    // interpolating the evaluations gives back c.
    for size in [1usize, 2, 3, 5, 8].iter() {
        let size = *size;
        let coeffs: Vec<Fp4> = (0..size).map(|i| fp4_full(
            (i as u32) * 17 + 1,
            (i as u32) * 5,
            (i as u32).wrapping_mul(0x9e3779b9) % 1000,
            3,
        )).collect();
        let xs: Vec<Fp4> = (0..size).map(|i| fp4((i as u32) * 7 + 2)).collect();
        let fx: Vec<Fp4> = xs.iter().map(|x| poly_eval(coeffs.as_slice(), *x)).collect();
        let mut out: Vec<Fp4> = vec![Fp4::zero(); size];
        poly_interpolate(&mut out, xs.as_slice(), fx.as_slice(), size);
        assert_eq!(out, coeffs);
    }
}

#[test]
fn interpolate_matches_samples() {
    // The interpolated polynomial takes the requested values.
    let xs = vec![fp4(1), fp4(2), fp4(3), fp4(4)];
    let fx = vec![fp4(10), fp4(20), fp4(17), fp4_full(0, 1, 2, 3)];
    let mut out: Vec<Fp4> = vec![Fp4::zero(); 4];
    poly_interpolate(&mut out, xs.as_slice(), fx.as_slice(), 4);
    for i in 0..4 {
        assert_eq!(poly_eval(out.as_slice(), xs[i]), fx[i]);
    }
}
