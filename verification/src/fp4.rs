//! The degree-4 extension of the Baby Bear field: Fp[X] / (X^4 - BETA).
//!
//! An element is four base-field coordinates; all randomness and challenges
//! of the proof system are drawn from this field. The view of an element is
//! the length-4 sequence of its coordinates' representatives.

use vstd::prelude::*;
use crate::fp::{Fp, P, fp_add, fp_sub, fp_neg, fp_mul, fp_inv, lemma_in_field, lemma_fp_add_noop,
    lemma_fp_mul_noop};

verus! {

/// The non-residue defining the extension: X^4 = BETA.
pub const BETA: u32 = 11;

/// The degree of the extension.
pub const EXT_SIZE: usize = 4;

/// Componentwise addition.
pub open spec fn fp4_add(a: Seq<int>, b: Seq<int>) -> Seq<int> {
    Seq::new(4, |i: int| fp_add(a[i], b[i]))
}

/// Componentwise subtraction.
pub open spec fn fp4_sub(a: Seq<int>, b: Seq<int>) -> Seq<int> {
    Seq::new(4, |i: int| fp_sub(a[i], b[i]))
}

/// Componentwise negation.
pub open spec fn fp4_neg(a: Seq<int>) -> Seq<int> {
    Seq::new(4, |i: int| fp_neg(a[i]))
}

/// The seven unreduced coefficients of the product of two degree-3 polynomials.
pub open spec fn poly_mul4(a: Seq<int>, b: Seq<int>) -> Seq<int> {
    seq![
        a[0] * b[0],
        a[0] * b[1] + a[1] * b[0],
        a[0] * b[2] + a[1] * b[1] + a[2] * b[0],
        a[0] * b[3] + a[1] * b[2] + a[2] * b[1] + a[3] * b[0],
        a[1] * b[3] + a[2] * b[2] + a[3] * b[1],
        a[2] * b[3] + a[3] * b[2],
        a[3] * b[3],
    ]
}

/// Reduce a length-7 coefficient sequence modulo X^4 - BETA, coordinatewise mod P.
pub open spec fn reduce_mod_x4_beta(c: Seq<int>) -> Seq<int> {
    Seq::new(4, |k: int| (c[k] + (BETA as int) * (if k + 4 < 7 { c[k + 4] } else { 0int })) % (
    P as int))
}

/// Multiplication in the extension field.
pub open spec fn fp4_mul(a: Seq<int>, b: Seq<int>) -> Seq<int> {
    reduce_mod_x4_beta(poly_mul4(a, b))
}

/// The zero element's coordinates.
pub open spec fn fp4_zero() -> Seq<int> {
    seq![0int, 0int, 0int, 0int]
}

/// The one element's coordinates.
pub open spec fn fp4_one() -> Seq<int> {
    seq![1int, 0int, 0int, 0int]
}

/// The coordinate views of a sequence of extension field elements.
pub open spec fn views(s: Seq<Fp4>) -> Seq<Seq<int>> {
    s.map_values(|e: Fp4| e@)
}

/// All four coordinates are reduced.
pub open spec fn fp4_reduced(a: Seq<int>) -> bool {
    forall|k: int| 0 <= k < 4 ==> 0 <= #[trigger] a[k] < P as int
}

/// Adding and then subtracting the same element gives back a reduced element.
pub proof fn lemma_fp4_cancel(a: Seq<int>, b: Seq<int>)
    requires
        a.len() == 4,
        b.len() == 4,
        fp4_reduced(a),
        fp4_reduced(b),
    ensures
        fp4_sub(fp4_add(a, b), b) =~= a,
{
    assert forall|k: int| 0 <= k < 4 implies fp4_sub(fp4_add(a, b), b)[k] == a[k] by {
        vstd::arithmetic::div_mod::lemma_sub_mod_noop(a[k] + b[k], b[k], P as int);
        assert(b[k] % (P as int) == b[k]);
        assert((a[k] + b[k] - b[k]) % (P as int) == a[k]);
    }
}

/// An element of the degree-4 extension field.
#[derive(Clone, Copy, Debug)]
pub struct Fp4 {
    pub elems: [Fp; 4],
}

impl PartialEq for Fp4 {
    fn eq(&self, other: &Fp4) -> (r: bool) {
        let r = self.elems[0] == other.elems[0] && self.elems[1] == other.elems[1]
            && self.elems[2] == other.elems[2] && self.elems[3] == other.elems[3];
        proof {
            if r {
                assert(self.elems@ =~= other.elems@);
            }
        }
        r
    }
}

impl vstd::std_specs::cmp::PartialEqSpecImpl for Fp4 {
    open spec fn obeys_eq_spec() -> bool {
        true
    }

    open spec fn eq_spec(&self, other: &Fp4) -> bool {
        self.elems@ == other.elems@
    }
}

impl Eq for Fp4 {

}

impl View for Fp4 {
    type V = Seq<int>;

    open spec fn view(&self) -> Seq<int> {
        Seq::new(4, |i: int| self.elems@[i]@)
    }
}

impl Fp4 {
    pub fn zero() -> (r: Fp4)
        ensures
            r@ =~= seq![0int, 0int, 0int, 0int],
    {
        Fp4 { elems: [Fp::zero(), Fp::zero(), Fp::zero(), Fp::zero()] }
    }

    pub fn one() -> (r: Fp4)
        ensures
            r@ =~= seq![1int, 0int, 0int, 0int],
    {
        Fp4 { elems: [Fp::one(), Fp::zero(), Fp::zero(), Fp::zero()] }
    }

    pub fn new(a0: Fp, a1: Fp, a2: Fp, a3: Fp) -> (r: Fp4)
        ensures
            r@ =~= seq![a0@, a1@, a2@, a3@],
    {
        Fp4 { elems: [a0, a1, a2, a3] }
    }

    /// Embed a base field element as the constant coordinate.
    pub fn from_fp(a: Fp) -> (r: Fp4)
        ensures
            r@ =~= seq![a@, 0int, 0int, 0int],
    {
        Fp4 { elems: [a, Fp::zero(), Fp::zero(), Fp::zero()] }
    }

    /// Embed a machine word, reduced into the base field.
    pub fn from_u32(value: u32) -> (r: Fp4)
        ensures
            r@ =~= seq![value as int % P as int, 0int, 0int, 0int],
    {
        Fp4::from_fp(Fp::new(value))
    }

    /// Build an element from four words, each reduced into the base field.
    pub fn from_u32_words(words: &[u32]) -> (r: Fp4)
        requires
            words@.len() == 4,
        ensures
            r@ =~= Seq::new(4, |i: int| words@[i] as int % P as int),
    {
        Fp4 {
            elems: [
                Fp::new(words[0]),
                Fp::new(words[1]),
                Fp::new(words[2]),
                Fp::new(words[3]),
            ],
        }
    }

    /// The four coordinates of the element.
    pub fn to_fps(&self) -> (r: [Fp; 4])
        ensures
            r@.map_values(|f: Fp| f@) =~= self@,
    {
        self.elems
    }

    pub fn add(self, rhs: Fp4) -> (r: Fp4)
        ensures
            r@ =~= fp4_add(self@, rhs@),
    {
        let a = &self.elems;
        let b = &rhs.elems;
        Fp4 {
            elems: [a[0].add(b[0]), a[1].add(b[1]), a[2].add(b[2]), a[3].add(b[3])],
        }
    }

    pub fn sub(self, rhs: Fp4) -> (r: Fp4)
        ensures
            r@ =~= fp4_sub(self@, rhs@),
    {
        let a = &self.elems;
        let b = &rhs.elems;
        Fp4 {
            elems: [a[0].sub(b[0]), a[1].sub(b[1]), a[2].sub(b[2]), a[3].sub(b[3])],
        }
    }

    pub fn neg(self) -> (r: Fp4)
        ensures
            r@ =~= fp4_neg(self@),
    {
        let a = &self.elems;
        Fp4 { elems: [a[0].neg(), a[1].neg(), a[2].neg(), a[3].neg()] }
    }

    /// Multiply by a base field element, coordinatewise.
    pub fn scale(self, rhs: Fp) -> (r: Fp4)
        ensures
            r@ =~= Seq::new(4, |i: int| fp_mul(self@[i], rhs@)),
    {
        let a = &self.elems;
        Fp4 {
            elems: [a[0].mul(rhs), a[1].mul(rhs), a[2].mul(rhs), a[3].mul(rhs)],
        }
    }

    pub fn mul(self, rhs: Fp4) -> (r: Fp4)
        ensures
            r@ =~= fp4_mul(self@, rhs@),
    {
        let a0 = self.elems[0];
        let a1 = self.elems[1];
        let a2 = self.elems[2];
        let a3 = self.elems[3];
        let b0 = rhs.elems[0];
        let b1 = rhs.elems[1];
        let b2 = rhs.elems[2];
        let b3 = rhs.elems[3];
        proof {
            use_type_invariant(&a0);
            use_type_invariant(&a1);
            use_type_invariant(&a2);
            use_type_invariant(&a3);
            use_type_invariant(&b0);
            use_type_invariant(&b1);
            use_type_invariant(&b2);
            use_type_invariant(&b3);
            lemma_in_field(a0);
            lemma_in_field(a1);
            lemma_in_field(a2);
            lemma_in_field(a3);
            lemma_in_field(b0);
            lemma_in_field(b1);
            lemma_in_field(b2);
            lemma_in_field(b3);
            lemma_fp4_mul_parts(self@, rhs@);
        }
        let beta = Fp::new(BETA);
        let r0 = a0.mul(b0).add(beta.mul(a1.mul(b3).add(a2.mul(b2)).add(a3.mul(b1))));
        let r1 = a0.mul(b1).add(a1.mul(b0)).add(beta.mul(a2.mul(b3).add(a3.mul(b2))));
        let r2 = a0.mul(b2).add(a1.mul(b1)).add(a2.mul(b0)).add(beta.mul(a3.mul(b3)));
        let r3 = a0.mul(b3).add(a1.mul(b2)).add(a2.mul(b1)).add(a3.mul(b0));
        Fp4 { elems: [r0, r1, r2, r3] }
    }

    /// The multiplicative inverse, computed through the two conjugations
    /// X -> -X and X^2 -> -X^2, which reduce the problem to a base field
    /// inverse. The inverse of zero is zero.
    pub fn inv(self) -> (r: Fp4)
        ensures
            r@ =~= fp4_inv_spec(self@),
    {
        let a = &self.elems;
        let beta = Fp::new(BETA);
        // z = x * conj(x) has only even coordinates b0 + b2 X^2.
        let b0 = a[0].mul(a[0]).add(beta.mul(a[2].mul(a[2]).sub(a[1].mul(a[3]).add(a[1].mul(a[3])))));
        let b2 = a[0].mul(a[2]).add(a[0].mul(a[2])).sub(a[1].mul(a[1])).sub(
            beta.mul(a[3].mul(a[3])));
        // n = z * conj'(z) is in the base field.
        let n = b0.mul(b0).sub(beta.mul(b2.mul(b2)));
        let ninv = n.inv();
        // x^-1 = conj(x) * conj'(z) / n.
        let c0 = a[0].mul(b0).sub(beta.mul(a[2].mul(b2)));
        let c1 = a[1].mul(b0).neg().add(beta.mul(a[3].mul(b2)));
        let c2 = a[2].mul(b0).sub(a[0].mul(b2));
        let c3 = a[3].mul(b0).neg().add(a[1].mul(b2));
        proof {
            let v = self@;
            let bi = BETA as int;
            assert(v[0] == a[0]@ && v[1] == a[1]@ && v[2] == a[2]@ && v[3] == a[3]@);
            let b0s = fp_add(fp_mul(v[0], v[0]), fp_mul(bi, fp_sub(fp_mul(v[2], v[2]), fp_add(
                fp_mul(v[1], v[3]), fp_mul(v[1], v[3])))));
            let b2s = fp_sub(fp_sub(fp_add(fp_mul(v[0], v[2]), fp_mul(v[0], v[2])), fp_mul(
                v[1], v[1])), fp_mul(bi, fp_mul(v[3], v[3])));
            assert(b0@ == b0s);
            assert(b2@ == b2s);
            let ns = fp_sub(fp_mul(b0s, b0s), fp_mul(bi, fp_mul(b2s, b2s)));
            assert(n@ == ns);
            assert(ninv@ == fp_inv(ns));
            assert(c0@ == fp_sub(fp_mul(v[0], b0s), fp_mul(bi, fp_mul(v[2], b2s))));
            assert(c1@ == fp_add(fp_neg(fp_mul(v[1], b0s)), fp_mul(bi, fp_mul(v[3], b2s))));
            assert(c2@ == fp_sub(fp_mul(v[2], b0s), fp_mul(v[0], b2s)));
            assert(c3@ == fp_add(fp_neg(fp_mul(v[3], b0s)), fp_mul(v[1], b2s)));
        }
        Fp4 { elems: [c0.mul(ninv), c1.mul(ninv), c2.mul(ninv), c3.mul(ninv)] }
    }
}

/// The inverse formula, stated over the coordinates.
pub open spec fn fp4_inv_spec(a: Seq<int>) -> Seq<int> {
    let bi = BETA as int;
    let b0 = fp_add(fp_mul(a[0], a[0]), fp_mul(bi, fp_sub(fp_mul(a[2], a[2]), fp_add(
        fp_mul(a[1], a[3]), fp_mul(a[1], a[3])))));
    let b2 = fp_sub(fp_sub(fp_add(fp_mul(a[0], a[2]), fp_mul(a[0], a[2])), fp_mul(a[1], a[1])),
        fp_mul(bi, fp_mul(a[3], a[3])));
    let n = fp_sub(fp_mul(b0, b0), fp_mul(bi, fp_mul(b2, b2)));
    let ninv = fp_inv(n);
    let c0 = fp_sub(fp_mul(a[0], b0), fp_mul(bi, fp_mul(a[2], b2)));
    let c1 = fp_add(fp_neg(fp_mul(a[1], b0)), fp_mul(bi, fp_mul(a[3], b2)));
    let c2 = fp_sub(fp_mul(a[2], b0), fp_mul(a[0], b2));
    let c3 = fp_add(fp_neg(fp_mul(a[3], b0)), fp_mul(a[1], b2));
    seq![fp_mul(c0, ninv), fp_mul(c1, ninv), fp_mul(c2, ninv), fp_mul(c3, ninv)]
}

/// Each coordinate computed with reduced intermediate steps equals the
/// single reduction of the unreduced convolution coefficient.
proof fn lemma_fp4_mul_parts(a: Seq<int>, b: Seq<int>)
    requires
        a.len() == 4,
        b.len() == 4,
        forall|i: int| 0 <= i < 4 ==> 0 <= #[trigger] a[i] < P as int,
        forall|i: int| 0 <= i < 4 ==> 0 <= #[trigger] b[i] < P as int,
    ensures
        fp_add(fp_mul(a[0], b[0]), fp_mul(BETA as int, fp_add(fp_add(fp_mul(a[1], b[3]),
            fp_mul(a[2], b[2])), fp_mul(a[3], b[1]))))
            == (a[0] * b[0] + (BETA as int) * (a[1] * b[3] + a[2] * b[2] + a[3] * b[1])) % (P as int),
        fp_add(fp_add(fp_mul(a[0], b[1]), fp_mul(a[1], b[0])), fp_mul(BETA as int,
            fp_add(fp_mul(a[2], b[3]), fp_mul(a[3], b[2]))))
            == (a[0] * b[1] + a[1] * b[0] + (BETA as int) * (a[2] * b[3] + a[3] * b[2])) % (P as int),
        fp_add(fp_add(fp_add(fp_mul(a[0], b[2]), fp_mul(a[1], b[1])), fp_mul(a[2], b[0])),
            fp_mul(BETA as int, fp_mul(a[3], b[3])))
            == (a[0] * b[2] + a[1] * b[1] + a[2] * b[0] + (BETA as int) * (a[3] * b[3])) % (P as int),
        fp_add(fp_add(fp_add(fp_mul(a[0], b[3]), fp_mul(a[1], b[2])), fp_mul(a[2], b[1])),
            fp_mul(a[3], b[0]))
            == (a[0] * b[3] + a[1] * b[2] + a[2] * b[1] + a[3] * b[0]) % (P as int),
{
    let p = P as int;
    let bi = BETA as int;
    // Coordinate 0.
    lemma_fp_add_noop(a[1] * b[3], a[2] * b[2]);
    lemma_fp_add_noop(a[1] * b[3] + a[2] * b[2], a[3] * b[1]);
    lemma_fp_mul_noop(bi, a[1] * b[3] + a[2] * b[2] + a[3] * b[1]);
    assert(bi % p == bi);
    lemma_fp_add_noop(a[0] * b[0], bi * (a[1] * b[3] + a[2] * b[2] + a[3] * b[1]));
    // Coordinate 1.
    lemma_fp_add_noop(a[0] * b[1], a[1] * b[0]);
    lemma_fp_add_noop(a[2] * b[3], a[3] * b[2]);
    lemma_fp_mul_noop(bi, a[2] * b[3] + a[3] * b[2]);
    lemma_fp_add_noop(a[0] * b[1] + a[1] * b[0], bi * (a[2] * b[3] + a[3] * b[2]));
    // Coordinate 2.
    lemma_fp_add_noop(a[0] * b[2], a[1] * b[1]);
    lemma_fp_add_noop(a[0] * b[2] + a[1] * b[1], a[2] * b[0]);
    lemma_fp_mul_noop(bi, a[3] * b[3]);
    lemma_fp_add_noop(a[0] * b[2] + a[1] * b[1] + a[2] * b[0], bi * (a[3] * b[3]));
    // Coordinate 3.
    lemma_fp_add_noop(a[0] * b[3], a[1] * b[2]);
    lemma_fp_add_noop(a[0] * b[3] + a[1] * b[2], a[2] * b[1]);
    lemma_fp_add_noop(a[0] * b[3] + a[1] * b[2] + a[2] * b[1], a[3] * b[0]);
}

/// Field laws: extension multiplication agrees with polynomial
/// multiplication followed by reduction modulo X^4 - BETA.
pub proof fn lemma_fp4_mul_is_poly_mul(a: Fp4, b: Fp4)
    ensures
        fp4_mul(a@, b@) == reduce_mod_x4_beta(poly_mul4(a@, b@)),
{
}

/// Group words into extension field elements, four words each, reducing
/// every coordinate.
pub fn fp4s_from_words(words: &[u32]) -> (r: Vec<Fp4>)
    requires
        words@.len() % 4 == 0,
    ensures
        r@.len() == words@.len() / 4,
        forall|i: int|
            0 <= i < r@.len() ==> (#[trigger] r@[i])@ == Seq::new(
                4,
                |k: int| words@[4 * i + k] as int % P as int,
            ),
{
    let n = words.len() / 4;
    proof {
        vstd::arithmetic::div_mod::lemma_fundamental_div_mod(words@.len() as int, 4);
    }
    let mut out: Vec<Fp4> = Vec::new();
    let mut i: usize = 0;
    while i < n
        invariant
            i <= n,
            4 * n == words@.len(),
            words@.len() <= usize::MAX,
            out@.len() == i,
            forall|j: int|
                0 <= j < i ==> (#[trigger] out@[j])@ == Seq::new(
                    4,
                    |k: int| words@[4 * j + k] as int % P as int,
                ),
        decreases n - i,
    {
        let e = Fp4::new(
            Fp::new(words[4 * i]),
            Fp::new(words[4 * i + 1]),
            Fp::new(words[4 * i + 2]),
            Fp::new(words[4 * i + 3]),
        );
        proof {
            assert(e@ =~= Seq::new(4, |k: int| words@[4 * i + k] as int % P as int));
        }
        out.push(e);
        i = i + 1;
    }
    out
}

/// Serialise extension field elements into words, four each.
pub fn fp4s_to_words(s: &[Fp4]) -> (r: Vec<u32>)
    ensures
        r@.len() == 4 * s@.len(),
        forall|j: int| 0 <= j < 4 * s@.len() ==> (#[trigger] r@[j]) as int == s@[j / 4]@[j % 4],
{
    let mut out: Vec<u32> = Vec::new();
    let mut i: usize = 0;
    while i < s.len()
        invariant
            i <= s@.len(),
            out@.len() == 4 * i,
            forall|j: int| 0 <= j < 4 * i ==> (#[trigger] out@[j]) as int == s@[j / 4]@[j % 4],
        decreases s@.len() - i,
    {
        let e = s[i].to_fps();
        out.push(e[0].as_u32());
        out.push(e[1].as_u32());
        out.push(e[2].as_u32());
        out.push(e[3].as_u32());
        proof {
            assert forall|j: int| 0 <= j < 4 * (i + 1) implies (#[trigger] out@[j]) as int == s@[j
                / 4]@[j % 4] by {
                if 4 * i <= j {
                    assert(j / 4 == i && j % 4 == j - 4 * i);
                    assert(e@.map_values(|f: Fp| f@)[j - 4 * i] == s@[i as int]@[j - 4 * i]);
                }
            }
        }
        i = i + 1;
    }
    out
}

} // verus!
