//! The Baby Bear prime field: integers modulo P = 15 * 2^27 + 1.
//!
//! Every element is kept reduced, so the mathematical value of an element is
//! its single `u32` representative. All contracts are stated over the
//! modular arithmetic spec functions below.

use vstd::prelude::*;
use vstd::arithmetic::div_mod::{lemma_mod_add_multiples_vanish, lemma_mul_mod_noop_general};
use vstd::arithmetic::mul::{lemma_mul_is_associative, lemma_mul_inequality, lemma_mul_nonnegative};

verus! {

/// The Baby Bear prime, 15 * 2^27 + 1.
pub const P: u32 = 2013265921;

/// Field addition on mathematical representatives.
pub open spec fn fp_add(a: int, b: int) -> int {
    (a + b) % (P as int)
}

/// Field subtraction on mathematical representatives.
pub open spec fn fp_sub(a: int, b: int) -> int {
    (a - b) % (P as int)
}

/// Field negation on mathematical representatives.
pub open spec fn fp_neg(a: int) -> int {
    (0 - a) % (P as int)
}

/// Field multiplication on mathematical representatives.
pub open spec fn fp_mul(a: int, b: int) -> int {
    (a * b) % (P as int)
}

/// Field exponentiation on mathematical representatives.
pub open spec fn fp_pow(a: int, e: nat) -> int
    decreases e,
{
    if e == 0 {
        1int % (P as int)
    } else {
        fp_mul(a, fp_pow(a, (e - 1) as nat))
    }
}

/// The multiplicative inverse, computed as a^(P-2).
pub open spec fn fp_inv(a: int) -> int {
    fp_pow(a, (P - 2) as nat)
}

/// An element of the Baby Bear field, kept reduced below `P`.
#[derive(Clone, Copy, PartialEq, Eq, Structural, Debug, Hash)]
pub struct Fp {
    value: u32,
}

impl View for Fp {
    type V = int;

    closed spec fn view(&self) -> int {
        self.value as int
    }
}

impl Fp {
    /// Elements are always kept reduced.
    #[verifier::type_invariant]
    pub closed spec fn in_field(self) -> bool {
        self.value < P
    }

    /// The additive identity.
    pub fn zero() -> (r: Fp)
        ensures
            r@ == 0,
    {
        Fp { value: 0 }
    }

    /// The multiplicative identity.
    pub fn one() -> (r: Fp)
        ensures
            r@ == 1,
    {
        Fp { value: 1 }
    }

    /// Build an element from a `u32`, reducing modulo `P`.
    pub fn new(value: u32) -> (r: Fp)
        ensures
            r@ == value as int % P as int,
    {
        Fp { value: value % P }
    }

    /// Build an element from a `u64`, reducing modulo `P`.
    pub fn from_u64(value: u64) -> (r: Fp)
        ensures
            r@ == value as int % P as int,
    {
        Fp { value: (value % (P as u64)) as u32 }
    }

    /// The reduced representative as a machine word.
    pub fn as_u32(self) -> (r: u32)
        ensures
            r as int == self@,
    {
        self.value
    }

    pub fn add(self, rhs: Fp) -> (r: Fp)
        ensures
            r@ == fp_add(self@, rhs@),
    {
        proof {
            use_type_invariant(self);
            use_type_invariant(rhs);
        }
        let sum: u32 = self.value + rhs.value;
        Fp { value: sum % P }
    }

    pub fn sub(self, rhs: Fp) -> (r: Fp)
        ensures
            r@ == fp_sub(self@, rhs@),
    {
        proof {
            use_type_invariant(self);
            use_type_invariant(rhs);
            lemma_mod_add_multiples_vanish(self@ - rhs@, P as int);
        }
        let diff: u32 = self.value + P - rhs.value;
        Fp { value: diff % P }
    }

    pub fn neg(self) -> (r: Fp)
        ensures
            r@ == fp_neg(self@),
    {
        proof {
            use_type_invariant(self);
            lemma_mod_add_multiples_vanish(0 - self@, P as int);
        }
        let diff: u32 = P - self.value;
        Fp { value: diff % P }
    }

    pub fn mul(self, rhs: Fp) -> (r: Fp)
        ensures
            r@ == fp_mul(self@, rhs@),
    {
        proof {
            use_type_invariant(self);
            use_type_invariant(rhs);
            lemma_mul_nonnegative(self@, rhs@);
            lemma_mul_inequality(self@, P as int - 1, rhs@);
            lemma_mul_inequality(rhs@, P as int - 1, P as int - 1);
        }
        let prod: u64 = (self.value as u64) * (rhs.value as u64);
        Fp { value: (prod % (P as u64)) as u32 }
    }

    /// Exponentiation by squaring.
    pub fn pow(self, exp: usize) -> (r: Fp)
        ensures
            r@ == fp_pow(self@, exp as nat),
    {
        let mut result = Fp::one();
        let mut base = self;
        let mut e: usize = exp;
        proof {
            use_type_invariant(self);
            lemma_fp_pow_in_field(self@, exp as nat);
        }
        while e > 0
            invariant
                fp_mul(result@, fp_pow(base@, e as nat)) == fp_pow(self@, exp as nat),
            decreases e,
        {
            proof {
                use_type_invariant(result);
                use_type_invariant(base);
                lemma_fp_pow_step(result@, base@, e as nat);
            }
            if e % 2 == 1 {
                result = result.mul(base);
            }
            base = base.mul(base);
            e = e / 2;
        }
        proof {
            use_type_invariant(result);
            lemma_fp_pow_in_field(base@, 0);
            lemma_fp_mul_one_right(result@);
        }
        result
    }

    /// The multiplicative inverse, as a^(P-2); the inverse of zero is zero.
    pub fn inv(self) -> (r: Fp)
        ensures
            r@ == fp_inv(self@),
    {
        self.pow((P - 2) as usize)
    }
}

/// The type invariant means exactly that the representative is reduced.
/// Obtain `a.in_field()` with `use_type_invariant` and turn it into bounds
/// with this lemma.
pub proof fn lemma_in_field(a: Fp)
    ensures
        a.in_field() <==> 0 <= a@ < P as int,
{
}

/// Reducing both summands first does not change a field addition.
pub proof fn lemma_fp_add_noop(x: int, y: int)
    ensures
        fp_add(x % (P as int), y % (P as int)) == fp_add(x, y),
{
    vstd::arithmetic::div_mod::lemma_add_mod_noop(x, y, P as int);
}

/// Reducing both factors first does not change a field multiplication.
pub proof fn lemma_fp_mul_noop(x: int, y: int)
    ensures
        fp_mul(x % (P as int), y % (P as int)) == fp_mul(x, y),
{
    lemma_mul_mod_noop_general(x, y, P as int);
}

/// The proof-stream words of a sequence of field elements: one reduced
/// representative each.
pub open spec fn words_of_fps(s: Seq<Fp>) -> Seq<u32> {
    Seq::new(s.len(), |i: int| s[i]@ as u32)
}

/// Serialise field elements into proof-stream words.
pub fn fps_to_words(s: &[Fp]) -> (r: Vec<u32>)
    ensures
        r@ == words_of_fps(s@),
{
    let mut out: Vec<u32> = Vec::new();
    let mut i: usize = 0;
    while i < s.len()
        invariant
            i <= s@.len(),
            out@.len() == i,
            forall|j: int| 0 <= j < i ==> out@[j] == words_of_fps(s@)[j],
        decreases s@.len() - i,
    {
        out.push(s[i].as_u32());
        i = i + 1;
    }
    proof {
        assert(out@ =~= words_of_fps(s@));
    }
    out
}

/// The result of `fp_pow` is always reduced.
pub proof fn lemma_fp_pow_in_field(a: int, e: nat)
    ensures
        0 <= fp_pow(a, e) < P as int,
    decreases e,
{
    if e == 0 {
    } else {
        lemma_fp_pow_in_field(a, (e - 1) as nat);
    }
}

/// Multiplying a reduced value by one is the identity.
proof fn lemma_fp_mul_one_right(a: int)
    requires
        0 <= a < P as int,
    ensures
        fp_mul(a, 1) == a,
{
}

/// Field laws: multiplication is commutative.
pub proof fn lemma_fp_mul_comm(a: Fp, b: Fp)
    ensures
        fp_mul(a@, b@) == fp_mul(b@, a@),
{
}

/// Field multiplication is associative.
pub proof fn lemma_fp_mul_assoc(a: int, b: int, c: int)
    requires
        0 <= a < P as int,
        0 <= b < P as int,
        0 <= c < P as int,
    ensures
        fp_mul(fp_mul(a, b), c) == fp_mul(a, fp_mul(b, c)),
{
    lemma_mul_mod_noop_general(a * b, c, P as int);
    lemma_mul_mod_noop_general(a, b * c, P as int);
    lemma_mul_is_associative(a, b, c);
}

/// a^(e1+e2) == a^e1 * a^e2 on reduced bases.
pub proof fn lemma_fp_pow_adds(a: int, e1: nat, e2: nat)
    requires
        0 <= a < P as int,
    ensures
        fp_pow(a, e1 + e2) == fp_mul(fp_pow(a, e1), fp_pow(a, e2)),
    decreases e1,
{
    lemma_fp_pow_in_field(a, e2);
    if e1 == 0 {
        lemma_fp_pow_in_field(a, e2);
        assert(fp_pow(a, 0) == 1int);
        lemma_mul_mod_noop_general(1, fp_pow(a, e2), P as int);
    } else {
        lemma_fp_pow_adds(a, (e1 - 1) as nat, e2);
        lemma_fp_pow_in_field(a, (e1 - 1) as nat);
        // a^(e1+e2) = a * a^(e1-1+e2) = a * (a^(e1-1) * a^e2)
        //           = (a * a^(e1-1)) * a^e2 = a^e1 * a^e2
        lemma_fp_mul_assoc(a % P as int, fp_pow(a, (e1 - 1) as nat), fp_pow(a, e2));
        lemma_mul_mod_noop_general(a, fp_pow(a, (e1 - 1) as nat), P as int);
        lemma_mul_mod_noop_general(a % P as int, fp_pow(a, (e1 - 1) as nat), P as int);
        lemma_mul_mod_noop_general(a % P as int * fp_pow(a, (e1 - 1) as nat), fp_pow(a, e2), P as int);
        lemma_mul_mod_noop_general(a, fp_pow(a, (e1 - 1) as nat) * fp_pow(a, e2), P as int);
    }
}

/// (a*a)^k == a^(2k) on reduced bases.
pub proof fn lemma_fp_pow_square(a: int, k: nat)
    requires
        0 <= a < P as int,
    ensures
        fp_pow(fp_mul(a, a), k) == fp_pow(a, 2 * k),
    decreases k,
{
    if k == 0 {
    } else {
        lemma_fp_pow_square(a, (k - 1) as nat);
        lemma_fp_pow_in_field(fp_mul(a, a), (k - 1) as nat);
        lemma_fp_pow_in_field(a, (2 * k - 2) as nat);
        lemma_fp_pow_in_field(a, (2 * k - 1) as nat);
        // (a*a)^k = (a*a) * (a*a)^(k-1) = (a*a) * a^(2k-2)
        // a^(2k) = a * a^(2k-1) = a * (a * a^(2k-2))
        lemma_mul_mod_noop_general(a * a, fp_pow(a, (2 * k - 2) as nat), P as int);
        lemma_mul_is_associative(a, a, fp_pow(a, (2 * k - 2) as nat));
        lemma_mul_mod_noop_general(a, a * fp_pow(a, (2 * k - 2) as nat), P as int);
        assert(fp_pow(a, (2 * k - 1) as nat) == fp_mul(a, fp_pow(a, (2 * k - 2) as nat)));
        lemma_mul_mod_noop_general(a, fp_pow(a, (2 * k - 1) as nat), P as int);
    }
}

/// One step of exponentiation by squaring preserves the running product.
proof fn lemma_fp_pow_step(r: int, b: int, e: nat)
    requires
        0 <= r < P as int,
        0 <= b < P as int,
        e > 0,
    ensures
        e % 2 == 1 ==> fp_mul(fp_mul(r, b), fp_pow(fp_mul(b, b), (e / 2) as nat))
            == fp_mul(r, fp_pow(b, e)),
        e % 2 == 0 ==> fp_mul(r, fp_pow(fp_mul(b, b), (e / 2) as nat))
            == fp_mul(r, fp_pow(b, e)),
{
    let h = (e / 2) as nat;
    lemma_fp_pow_square(b, h);
    lemma_fp_pow_in_field(b, 2 * h);
    lemma_fp_pow_in_field(fp_mul(b, b), h);
    if e % 2 == 1 {
        assert(e == 2 * h + 1);
        assert(fp_pow(b, e) == fp_mul(b, fp_pow(b, 2 * h)));
        // r * b^e = r * (b * b^(2h)) = (r * b) * b^(2h)
        lemma_fp_mul_assoc(r, b, fp_pow(b, 2 * h));
        lemma_mul_mod_noop_general(r * b, fp_pow(b, 2 * h), P as int);
        lemma_mul_mod_noop_general(r, b * fp_pow(b, 2 * h), P as int);
        lemma_mul_mod_noop_general(r, fp_mul(b, fp_pow(b, 2 * h)), P as int);
    } else {
        assert(e == 2 * h);
    }
}

} // verus!
