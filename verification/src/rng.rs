//! The Fiat-Shamir transcript RNG: two digest pools seeded from fixed
//! strings, refreshed by hashing, mixed with committed digests, and read
//! out word by word. Prover and verifier executing the same sequence of
//! `mix` and draw operations obtain the same values, because every
//! operation is a function of the state alone.

use vstd::prelude::*;
use crate::fp::{Fp, P};
use crate::fp4::Fp4;
use crate::sha::{Digest, Sha, digest_of_bytes, digest_of_pair};

verus! {

/// The bytes of the pool-a seed string, "Hello".
pub open spec fn seed_a_bytes() -> Seq<u8> {
    seq![72u8, 101u8, 108u8, 108u8, 111u8]
}

/// The bytes of the pool-b seed string, "World".
pub open spec fn seed_b_bytes() -> Seq<u8> {
    seq![87u8, 111u8, 114u8, 108u8, 100u8]
}

/// The refreshed pool: the hash of both pools concatenated.
pub open spec fn rng_refresh(a: Seq<u32>, b: Seq<u32>) -> Seq<u32> {
    digest_of_pair(a, b)
}

/// One word drawn from state (a, b, used): the word, the pool-a words
/// afterwards, and the cursor afterwards.
pub open spec fn rng_step_word(a: Seq<u32>, b: Seq<u32>, used: nat) -> (u32, Seq<u32>, nat) {
    if used == 8 {
        (rng_refresh(a, b)[0], rng_refresh(a, b), 1nat)
    } else {
        (a[used as int], a, (used + 1) as nat)
    }
}

/// One base field element drawn from the state: two words reduced modulo P.
pub open spec fn rng_step_fp(a: Seq<u32>, b: Seq<u32>, used: nat) -> (int, Seq<u32>, nat) {
    let (w1, a1, u1) = rng_step_word(a, b, used);
    let (w2, a2, u2) = rng_step_word(a1, b, u1);
    (((w1 as int) * 0x100000000 + w2 as int) % (P as int), a2, u2)
}

/// One extension field element drawn from the state: four base draws.
pub open spec fn rng_step_fp4(a: Seq<u32>, b: Seq<u32>, used: nat) -> (Seq<int>, Seq<u32>, nat) {
    let (x0, a1, u1) = rng_step_fp(a, b, used);
    let (x1, a2, u2) = rng_step_fp(a1, b, u1);
    let (x2, a3, u3) = rng_step_fp(a2, b, u2);
    let (x3, a4, u4) = rng_step_fp(a3, b, u3);
    (seq![x0, x1, x2, x3], a4, u4)
}

/// A run of draws of base field elements: the values drawn, the pool-a
/// words afterwards, and the cursor afterwards.
pub open spec fn rng_draw_fps(a: Seq<u32>, b: Seq<u32>, used: nat, k: nat) -> (
    Seq<int>,
    Seq<u32>,
    nat,
)
    decreases k,
{
    if k == 0 {
        (Seq::empty(), a, used)
    } else {
        let (x, a1, u1) = rng_step_fp(a, b, used);
        let (rest, a2, u2) = rng_draw_fps(a1, b, u1, (k - 1) as nat);
        (seq![x] + rest, a2, u2)
    }
}

/// A run of draws extends from the back: k+1 draws are k draws followed by
/// one more from the state they leave.
pub proof fn lemma_rng_draw_fps_snoc(a: Seq<u32>, b: Seq<u32>, used: nat, k: nat)
    ensures
        ({
            let (vs, a1, u1) = rng_draw_fps(a, b, used, k);
            let (x, a2, u2) = rng_step_fp(a1, b, u1);
            rng_draw_fps(a, b, used, k + 1) == (vs + seq![x], a2, u2)
        }),
    decreases k,
{
    let (x0, a1, u1) = rng_step_fp(a, b, used);
    if k == 0 {
        assert(rng_draw_fps(a1, b, u1, 0) == (Seq::<int>::empty(), a1, u1));
        assert(rng_draw_fps(a, b, used, 0) == (Seq::<int>::empty(), a, used));
        assert(rng_draw_fps(a, b, used, 1).0 =~= Seq::<int>::empty() + seq![x0]);
    } else {
        lemma_rng_draw_fps_snoc(a1, b, u1, (k - 1) as nat);
        let (vs1, ak, uk) = rng_draw_fps(a1, b, u1, (k - 1) as nat);
        let (x, a2, u2) = rng_step_fp(ak, b, uk);
        // k+1 draws unfold to the first draw followed by k from its state.
        assert(rng_draw_fps(a, b, used, k + 1) == (
            seq![x0] + rng_draw_fps(a1, b, u1, k).0,
            rng_draw_fps(a1, b, u1, k).1,
            rng_draw_fps(a1, b, u1, k).2,
        ));
        assert(rng_draw_fps(a1, b, u1, k).0 == vs1 + seq![x]);
        assert(rng_draw_fps(a, b, used, k).0 == seq![x0] + vs1);
        assert(seq![x0] + (vs1 + seq![x]) =~= (seq![x0] + vs1) + seq![x]);
    }
}

/// The transcript RNG state: two digest pools and a word cursor.
pub struct ShaRng {
    pool_a: Digest,
    pool_b: Digest,
    used: usize,
}

impl ShaRng {
    #[verifier::type_invariant]
    spec fn cursor_in_range(self) -> bool {
        self.used <= 8
    }

    /// The words of the pool that draws are served from.
    pub closed spec fn pool_a(self) -> Seq<u32> {
        self.pool_a@
    }

    /// The words of the second pool, consumed only on refresh.
    pub closed spec fn pool_b(self) -> Seq<u32> {
        self.pool_b@
    }

    /// How many words of pool-a have been served since the last refresh.
    pub closed spec fn used(self) -> nat {
        self.used as nat
    }

    /// A fresh transcript, seeded from two fixed distinct strings.
    pub fn new(sha: &Sha) -> (r: ShaRng)
        ensures
            r.pool_a() == digest_of_bytes(seed_a_bytes()),
            r.pool_b() == digest_of_bytes(seed_b_bytes()),
            r.used() == 0,
    {
        let hello: Vec<u8> = vec![72u8, 101u8, 108u8, 108u8, 111u8];
        let world: Vec<u8> = vec![87u8, 111u8, 114u8, 108u8, 100u8];
        proof {
            assert(hello@ =~= seed_a_bytes());
            assert(world@ =~= seed_b_bytes());
        }
        ShaRng {
            pool_a: sha.hash_bytes(hello.as_slice()),
            pool_b: sha.hash_bytes(world.as_slice()),
            used: 0,
        }
    }

    /// Mix a digest into both pools and reset the cursor.
    pub fn mix(&mut self, d: &Digest)
        ensures
            final(self).pool_a() == digest_of_pair(old(self).pool_a(), d@),
            final(self).pool_b() == digest_of_pair(old(self).pool_b(), d@),
            final(self).used() == 0,
    {
        proof {
            use_type_invariant(&*self);
        }
        self.pool_a = crate::sha::hash_pair(&self.pool_a, d);
        self.pool_b = crate::sha::hash_pair(&self.pool_b, d);
        self.used = 0;
    }

    /// Draw one word, refreshing pool-a when it is exhausted.
    pub fn next_u32(&mut self) -> (r: u32)
        ensures
            ({
                let (w, a, u) = rng_step_word(old(self).pool_a(), old(self).pool_b(), old(
                self).used());
                r == w && final(self).pool_a() == a && final(self).used() == u && final(
                self).pool_b() == old(self).pool_b()
            }),
    {
        proof {
            use_type_invariant(&*self);
        }
        if self.used == 8 {
            self.pool_a = crate::sha::hash_pair(&self.pool_a, &self.pool_b);
            self.used = 0;
        }
        let r = self.pool_a.words[self.used];
        self.used = self.used + 1;
        r
    }

    /// Draw a 64-bit value from two words, high word first.
    pub fn next_u64(&mut self) -> (r: u64)
        ensures
            ({
                let (w1, a1, u1) = rng_step_word(old(self).pool_a(), old(self).pool_b(), old(
                self).used());
                let (w2, a2, u2) = rng_step_word(a1, old(self).pool_b(), u1);
                r == (w1 as int) * 0x100000000 + w2 as int && final(self).pool_a() == a2 && final(
                self).used() == u2 && final(self).pool_b() == old(self).pool_b()
            }),
    {
        let w1 = self.next_u32();
        let w2 = self.next_u32();
        (w1 as u64) * 0x100000000u64 + (w2 as u64)
    }

    /// Draw a base field element: two words reduced modulo P.
    pub fn next_fp(&mut self) -> (r: Fp)
        ensures
            ({
                let (x, a, u) = rng_step_fp(old(self).pool_a(), old(self).pool_b(), old(
                self).used());
                r@ == x && final(self).pool_a() == a && final(self).used() == u && final(
                self).pool_b() == old(self).pool_b()
            }),
    {
        let v = self.next_u64();
        Fp::from_u64(v)
    }

    /// Draw an extension field element: four base field draws.
    pub fn next_fp4(&mut self) -> (r: Fp4)
        ensures
            ({
                let (x, a, u) = rng_step_fp4(old(self).pool_a(), old(self).pool_b(), old(
                self).used());
                r@ == x && final(self).pool_a() == a && final(self).used() == u && final(
                self).pool_b() == old(self).pool_b()
            }),
    {
        let x0 = self.next_fp();
        let x1 = self.next_fp();
        let x2 = self.next_fp();
        let x3 = self.next_fp();
        let r = Fp4::new(x0, x1, x2, x3);
        proof {
            let (x, a, u) = rng_step_fp4(old(self).pool_a(), old(self).pool_b(), old(self).used());
            assert(r@ =~= x);
        }
        r
    }
}

} // verus!
