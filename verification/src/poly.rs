//! Polynomial utilities over the extension field: Horner evaluation,
//! synthetic division by a linear factor, and Lagrange interpolation.

use vstd::prelude::*;
use crate::fp4::{Fp4, fp4_add, fp4_sub, fp4_mul, fp4_zero, fp4_one, fp4_inv_spec, fp4_reduced,
    views, lemma_fp4_cancel};

verus! {

/// Horner evaluation: a polynomial given by its coordinate views, at a point.
pub open spec fn poly_eval_spec(c: Seq<Seq<int>>, x: Seq<int>) -> Seq<int>
    decreases c.len(),
{
    if c.len() == 0 {
        fp4_zero()
    } else {
        fp4_add(c[0], fp4_mul(x, poly_eval_spec(c.subrange(1, c.len() as int), x)))
    }
}

/// The i-th quotient coefficient of division by (X - z): the evaluation at z
/// of the polynomial formed by the coefficients above i.
pub open spec fn poly_quot_coeff(c: Seq<Seq<int>>, z: Seq<int>, i: int) -> Seq<int> {
    poly_eval_spec(c.subrange(i + 1, c.len() as int), z)
}

/// A coefficient sequence, extended with zero beyond its ends.
pub open spec fn coeff_or_zero(c: Seq<Seq<int>>, k: int) -> Seq<int> {
    if 0 <= k < c.len() {
        c[k]
    } else {
        fp4_zero()
    }
}

/// The coefficients of c(X) * (X - z).
pub open spec fn poly_mul_linear(c: Seq<Seq<int>>, z: Seq<int>) -> Seq<Seq<int>> {
    Seq::new(c.len() + 1, |k: int| fp4_sub(coeff_or_zero(c, k - 1), fp4_mul(z, coeff_or_zero(c, k))))
}

/// The coefficients of the product of (X - x_i) over all sample points.
pub open spec fn prod_linear(xs: Seq<Seq<int>>) -> Seq<Seq<int>>
    decreases xs.len(),
{
    if xs.len() == 0 {
        seq![fp4_one()]
    } else {
        poly_mul_linear(prod_linear(xs.drop_last()), xs.last())
    }
}

/// The scale of the i-th Lagrange basis polynomial: the goal value divided
/// by the basis polynomial's own value at its sample point.
pub open spec fn lagrange_scale(ft: Seq<Seq<int>>, xs: Seq<Seq<int>>, fxs: Seq<Seq<int>>, i: int)
    -> Seq<int> {
    fp4_mul(
        fxs[i],
        fp4_inv_spec(
            poly_eval_spec(Seq::new(ft.len(), |j: int| poly_quot_coeff(ft, xs[i], j)), xs[i]),
        ),
    )
}

/// The j-th output coefficient of interpolation, accumulated over the first
/// i sample points.
pub open spec fn interp_sum(
    ft: Seq<Seq<int>>,
    xs: Seq<Seq<int>>,
    fxs: Seq<Seq<int>>,
    i: int,
    j: int,
) -> Seq<int>
    decreases i,
{
    if i <= 0 {
        fp4_zero()
    } else {
        fp4_add(
            interp_sum(ft, xs, fxs, i - 1, j),
            fp4_mul(lagrange_scale(ft, xs, fxs, i - 1), poly_quot_coeff(ft, xs[i - 1], j)),
        )
    }
}

/// Evaluate a polynomial whose coefficients are in the extension field at a
/// point, by Horner's rule.
pub fn poly_eval(coeffs: &[Fp4], x: Fp4) -> (r: Fp4)
    ensures
        r@ == poly_eval_spec(views(coeffs@), x@),
{
    let n = coeffs.len();
    let mut tot = Fp4::zero();
    let mut i: usize = n;
    while i > 0
        invariant
            i <= n,
            n == coeffs@.len(),
            tot@ == poly_eval_spec(views(coeffs@).subrange(i as int, n as int), x@),
        decreases i,
    {
        i = i - 1;
        tot = coeffs[i].add(x.mul(tot));
        proof {
            let v = views(coeffs@);
            assert(v.subrange(i as int, n as int).subrange(1, (n - i) as int) =~= v.subrange(
                i + 1,
                n as int,
            ));
            assert(v.subrange(i as int, n as int)[0] == coeffs@[i as int]@);
        }
    }
    proof {
        assert(views(coeffs@).subrange(0, n as int) =~= views(coeffs@));
    }
    tot
}

/// In-place synthetic division by (X - z). Afterwards coefficient i holds
/// the i-th quotient coefficient (the top one is zero), and the returned
/// remainder is the evaluation of the original polynomial at z.
pub fn poly_divide(p: &mut Vec<Fp4>, z: Fp4) -> (r: Fp4)
    ensures
        final(p)@.len() == old(p)@.len(),
        r@ == poly_eval_spec(views(old(p)@), z@),
        forall|i: int|
            0 <= i < old(p)@.len() ==> final(p)@[i]@ == poly_quot_coeff(views(old(p)@), z@, i),
{
    let n = p.len();
    let mut cur = Fp4::zero();
    let mut i: usize = n;
    while i > 0
        invariant
            i <= n,
            n == old(p)@.len(),
            p@.len() == n,
            cur@ == poly_eval_spec(views(old(p)@).subrange(i as int, n as int), z@),
            forall|j: int| 0 <= j < i ==> p@[j] == old(p)@[j],
            forall|j: int|
                i <= j < n ==> p@[j]@ == poly_quot_coeff(views(old(p)@), z@, j),
        decreases i,
    {
        i = i - 1;
        let next = p[i].add(z.mul(cur));
        p[i] = cur;
        cur = next;
        proof {
            let v = views(old(p)@);
            assert(v.subrange(i as int, n as int).subrange(1, (n - i) as int) =~= v.subrange(
                i + 1,
                n as int,
            ));
            assert(v.subrange(i as int, n as int)[0] == old(p)@[i as int]@);
        }
    }
    proof {
        assert(views(old(p)@).subrange(0, n as int) =~= views(old(p)@));
    }
    cur
}

/// Multiply a polynomial by the linear factor (X - z).
fn mul_linear(c: &Vec<Fp4>, z: Fp4) -> (r: Vec<Fp4>)
    requires
        c@.len() < usize::MAX,
    ensures
        views(r@) =~= poly_mul_linear(views(c@), z@),
{
    let n = c.len();
    let mut out: Vec<Fp4> = Vec::new();
    let mut k: usize = 0;
    while k < n + 1
        invariant
            k <= n + 1,
            n == c@.len(),
            n < usize::MAX,
            out@.len() == k,
            forall|j: int| 0 <= j < k ==> out@[j]@ == poly_mul_linear(views(c@), z@)[j],
        decreases n + 1 - k,
    {
        let low = if k >= 1 && k - 1 < n {
            c[k - 1]
        } else {
            Fp4::zero()
        };
        let high = if k < n {
            c[k]
        } else {
            Fp4::zero()
        };
        out.push(low.sub(z.mul(high)));
        k = k + 1;
    }
    proof {
        assert forall|j: int| 0 <= j < views(out@).len() implies views(out@)[j] == poly_mul_linear(
            views(c@),
            z@,
        )[j] by {
            assert(views(out@)[j] == out@[j]@);
        }
    }
    out
}

/// General purpose Lagrange interpolation: compute the coefficients of the
/// polynomial that takes value fx[i] at each sample point x[i], as the sum
/// of the scaled basis polynomials prod(X - x_j)/(X - x_i), each divided by
/// its own value at its sample point. The sample points must be pairwise
/// distinct. The contract pins the output to that combination exactly;
/// that the combination evaluates to fx[i] at x[i] rests on the base
/// field's multiplicative-inverse law, which this crate does not prove.
#[verifier::rlimit(50)]
pub fn poly_interpolate(out: &mut Vec<Fp4>, x: &[Fp4], fx: &[Fp4], size: usize) -> (r: ())
    requires
        old(out)@.len() == size,
        size < usize::MAX,
        x@.len() == size,
        fx@.len() == size,
        size >= 1,
        forall|i: int, j: int| 0 <= i < j < size ==> x@[i]@ != x@[j]@,
    ensures
        final(out)@.len() == size,
        size == 1 ==> final(out)@[0] == fx@[0],
        size == 2 ==> final(out)@[1]@ == fp4_mul(
            fp4_sub(fx@[1]@, fx@[0]@),
            fp4_inv_spec(fp4_sub(x@[1]@, x@[0]@)),
        ) && final(out)@[0]@ == fp4_sub(fx@[0]@, fp4_mul(final(out)@[1]@, x@[0]@)),
        size > 2 ==> forall|j: int|
            0 <= j < size ==> final(out)@[j]@ == interp_sum(
                prod_linear(views(x@)),
                views(x@),
                views(fx@),
                size as int,
                j,
            ),
{
    // Special case the very easy ones.
    if size == 1 {
        out[0] = fx[0];
        return ;
    }
    if size == 2 {
        let c1 = fx[1].sub(fx[0]).mul(x[1].sub(x[0]).inv());
        out[1] = c1;
        out[0] = fx[0].sub(c1.mul(x[0]));
        return ;
    }
    // Compute ft = the product of (X - x_i) over all i.
    let mut ft: Vec<Fp4> = Vec::new();
    ft.push(Fp4::one());
    proof {
        assert(views(ft@) =~= seq![fp4_one()]);
        assert(views(x@.subrange(0, 0)) =~= Seq::<Seq<int>>::empty());
        assert(prod_linear(views(x@.subrange(0, 0))) =~= seq![fp4_one()]);
    }
    let mut i: usize = 0;
    while i < size
        invariant
            i <= size,
            size < usize::MAX,
            size == x@.len(),
            ft@.len() == i + 1,
            views(ft@) =~= prod_linear(views(x@.subrange(0, i as int))),
        decreases size - i,
    {
        let next = mul_linear(&ft, x[i]);
        proof {
            let xv = views(x@.subrange(0, i + 1));
            assert(xv.drop_last() =~= views(x@.subrange(0, i as int)));
            assert(xv.last() == x@[i as int]@);
        }
        ft = next;
        i = i + 1;
    }
    proof {
        assert(x@.subrange(0, size as int) =~= x@);
    }
    // Clear the output, then add each scaled Lagrange basis polynomial.
    let mut j: usize = 0;
    while j < size
        invariant
            j <= size,
            out@.len() == size,
            forall|k: int| 0 <= k < j ==> out@[k]@ == fp4_zero(),
        decreases size - j,
    {
        out[j] = Fp4::zero();
        j = j + 1;
    }
    let ghost ftv = views(ft@);
    let ghost xv = views(x@);
    let ghost fxv = views(fx@);
    let mut i: usize = 0;
    while i < size
        invariant
            i <= size,
            size == x@.len(),
            size == fx@.len(),
            out@.len() == size,
            ft@.len() == size + 1,
            ftv == views(ft@),
            xv == views(x@),
            fxv == views(fx@),
            ftv == prod_linear(xv),
            forall|k: int| 0 <= k < size ==> out@[k]@ == interp_sum(ftv, xv, fxv, i as int, k),
        decreases size - i,
    {
        // fr = ft / (X - x_i), the i-th basis polynomial.
        let mut fr: Vec<Fp4> = ft.clone();
        assert(views(fr@) == ftv);
        let _rem = poly_divide(&mut fr, x[i]);
        proof {
            assert forall|k: int| 0 <= k < fr@.len() implies fr@[k]@ == poly_quot_coeff(
                ftv,
                xv[i as int],
                k,
            ) by {
            }
        }
        // Evaluate the basis polynomial at its own sample point.
        let fr_xi = poly_eval(fr.as_slice(), x[i]);
        proof {
            assert(views(fr@) =~= Seq::new(ftv.len(), |j: int| poly_quot_coeff(ftv, xv[i as int], j)));
        }
        // The scale factor fx[i] / fr(x_i).
        let scale = fx[i].mul(fr_xi.inv());
        assert(scale@ == lagrange_scale(ftv, xv, fxv, i as int));
        // Accumulate the scaled basis polynomial into the output.
        let mut j: usize = 0;
        while j < size
            invariant
                j <= size,
                size == x@.len(),
                size == fx@.len(),
                out@.len() == size,
                fr@.len() == size + 1,
                scale@ == lagrange_scale(ftv, xv, fxv, i as int),
                i < size,
                forall|k: int|
                    0 <= k < fr@.len() ==> fr@[k]@ == poly_quot_coeff(ftv, xv[i as int], k),
                forall|k: int|
                    j <= k < size ==> out@[k]@ == interp_sum(ftv, xv, fxv, i as int, k),
                forall|k: int|
                    0 <= k < j ==> out@[k]@ == interp_sum(ftv, xv, fxv, i + 1, k),
            decreases size - j,
        {
            out[j] = out[j].add(scale.mul(fr[j]));
            proof {
                assert(interp_sum(ftv, xv, fxv, i + 1, j as int) == fp4_add(
                    interp_sum(ftv, xv, fxv, i as int, j as int),
                    fp4_mul(
                        lagrange_scale(ftv, xv, fxv, i as int),
                        poly_quot_coeff(ftv, xv[i as int], j as int),
                    ),
                ));
            }
            j = j + 1;
        }
        i = i + 1;
    }
}

/// Polynomial division laws: dividing by (X - z) returns the evaluation at z
/// as remainder, and the quotient re-multiplied by (X - z), plus the
/// remainder in degree zero, gives back the original coefficients.
pub proof fn lemma_poly_divide_recompose(c: Seq<Fp4>, z: Seq<int>)
    requires
        z.len() == 4,
        forall|i: int| 0 <= i < c.len() ==> (#[trigger] c[i]@).len() == 4,
        forall|i: int| 0 <= i < c.len() ==> fp4_reduced(#[trigger] c[i]@),
    ensures
        forall|i: int|
            1 <= i < c.len() ==> c[i]@ == fp4_sub(
                poly_quot_coeff(views(c), z, i - 1),
                fp4_mul(z, poly_quot_coeff(views(c), z, i)),
            ),
        c.len() > 0 ==> c[0]@ == fp4_sub(
            poly_eval_spec(views(c), z),
            fp4_mul(z, poly_quot_coeff(views(c), z, 0)),
        ),
{
    let v = views(c);
    let n = c.len() as int;
    assert forall|i: int| 0 <= i < n implies poly_eval_spec(v.subrange(i, n), z) == fp4_add(
        c[i]@,
        fp4_mul(z, poly_quot_coeff(v, z, i)),
    ) by {
        assert(v.subrange(i, n).subrange(1, n - i) =~= v.subrange(i + 1, n));
        assert(v.subrange(i, n)[0] == c[i]@);
    }
    assert forall|i: int| 1 <= i < n implies c[i]@ == fp4_sub(
        poly_quot_coeff(v, z, i - 1),
        fp4_mul(z, poly_quot_coeff(v, z, i)),
    ) by {
        assert(fp4_reduced(fp4_mul(z, poly_quot_coeff(v, z, i))));
        lemma_fp4_cancel(c[i]@, fp4_mul(z, poly_quot_coeff(v, z, i)));
        assert(poly_quot_coeff(v, z, i - 1) == poly_eval_spec(v.subrange(i, n), z));
    }
    if n > 0 {
        assert(fp4_reduced(fp4_mul(z, poly_quot_coeff(v, z, 0))));
        lemma_fp4_cancel(c[0]@, fp4_mul(z, poly_quot_coeff(v, z, 0)));
        assert(v.subrange(0, n) =~= v);
    }
}

} // verus!
