//! The verifier's transcript: a borrowed word stream read behind a cursor,
//! plus the same Fiat-Shamir RNG as the prover. The verifier commits each
//! digest it reconstructs, so that an honest pair draws identical
//! challenges.

use vstd::prelude::*;
use crate::errors::VerificationError;
use crate::fp::{Fp, P};
use crate::fp4::Fp4;
use crate::rng::{ShaRng, seed_a_bytes, seed_b_bytes, rng_step_word, rng_step_fp, rng_step_fp4};
use crate::sha::{Digest, Sha, digest_of_bytes, digest_of_pair};

verus! {

/// The verifier's read-mode transcript.
pub struct ReadIOP<'a> {
    sha: Sha,
    stream: &'a [u32],
    pos: usize,
    rng: ShaRng,
}

impl<'a> ReadIOP<'a> {
    /// The cursor never passes the end of the stream; every constructor
    /// and reader maintains this.
    pub open spec fn wf(self) -> bool {
        self.pos() <= self.stream().len()
    }

    /// The Fiat-Shamir RNG state that redraws every challenge.
    pub closed spec fn rng(self) -> ShaRng {
        self.rng
    }

    /// The whole proof stream being consumed.
    pub closed spec fn stream(self) -> Seq<u32> {
        self.stream@
    }

    /// How many words have been consumed.
    pub closed spec fn pos(self) -> nat {
        self.pos as nat
    }

    pub fn new(sha: &Sha, stream: &'a [u32]) -> (r: ReadIOP<'a>)
        ensures
            r.wf(),
            r.stream() == stream@,
            r.pos() == 0,
            r.rng().pool_a() == digest_of_bytes(seed_a_bytes()),
            r.rng().pool_b() == digest_of_bytes(seed_b_bytes()),
            r.rng().used() == 0,
    {
        ReadIOP { sha: *sha, stream, pos: 0, rng: ShaRng::new(sha) }
    }

    pub fn get_sha(&self) -> (r: &Sha) {
        &self.sha
    }

    /// How many words are left to read.
    pub fn remaining(&self) -> (r: usize)
        requires
            self.wf(),
        ensures
            r == self.stream().len() - self.pos(),
    {
        self.stream.len() - self.pos
    }

    /// Read the next `n` raw words.
    pub fn read_u32s(&mut self, n: usize) -> (r: &'a [u32])
        requires
            old(self).pos() + n <= old(self).stream().len(),
        ensures
            r@ == old(self).stream().subrange(old(self).pos() as int, old(self).pos() + n),
            final(self).stream() == old(self).stream(),
            final(self).pos() == old(self).pos() + n,
            final(self).rng() == old(self).rng(),
    {
        let stream_len = self.stream.len();
        proof {
            assert(self.pos + n <= stream_len);
        }
        let r = vstd::slice::slice_subrange(self.stream, self.pos, self.pos + n);
        self.pos = self.pos + n;
        r
    }

    /// Read `n` field elements, one word each, reduced modulo P; the raw
    /// words are also returned for hashing, since the stream is untrusted.
    pub fn read_fps(&mut self, n: usize) -> (r: (Vec<Fp>, &'a [u32]))
        requires
            old(self).pos() + n <= old(self).stream().len(),
        ensures
            r.1@ == old(self).stream().subrange(old(self).pos() as int, old(self).pos() + n),
            r.0@.len() == n,
            forall|i: int| 0 <= i < n ==> r.0@[i]@ == r.1@[i] as int % P as int,
            final(self).stream() == old(self).stream(),
            final(self).pos() == old(self).pos() + n,
            final(self).rng() == old(self).rng(),
    {
        let words = self.read_u32s(n);
        let mut fps: Vec<Fp> = Vec::new();
        let mut i: usize = 0;
        while i < n
            invariant
                i <= n,
                n == words@.len(),
                fps@.len() == i,
                forall|j: int| 0 <= j < i ==> fps@[j]@ == words@[j] as int % P as int,
            decreases n - i,
        {
            fps.push(Fp::new(words[i]));
            i = i + 1;
        }
        (fps, words)
    }

    /// Read `n` digests, eight words each.
    pub fn read_digests(&mut self, n: usize) -> (r: Vec<Digest>)
        requires
            old(self).pos() + 8 * n <= old(self).stream().len(),
        ensures
            r@.len() == n,
            forall|i: int|
                0 <= i < n ==> r@[i]@ == old(self).stream().subrange(
                    old(self).pos() + 8 * i,
                    old(self).pos() + 8 * i + 8,
                ),
            final(self).stream() == old(self).stream(),
            final(self).pos() == old(self).pos() + 8 * n,
            final(self).rng() == old(self).rng(),
    {
        let mut out: Vec<Digest> = Vec::new();
        let mut i: usize = 0;
        while i < n
            invariant
                i <= n,
                old(self).pos() + 8 * n <= old(self).stream().len(),
                out@.len() == i,
                forall|j: int|
                    0 <= j < i ==> out@[j]@ == old(self).stream().subrange(
                        old(self).pos() + 8 * j,
                        old(self).pos() + 8 * j + 8,
                    ),
                self.stream() == old(self).stream(),
                self.pos() == old(self).pos() + 8 * i,
                self.rng() == old(self).rng(),
            decreases n - i,
        {
            let words = self.read_u32s(8);
            out.push(Digest::from_words(words));
            i = i + 1;
        }
        out
    }

    /// Read `n` extension field elements, four words each, reduced modulo P.
    pub fn read_fp4s(&mut self, n: usize) -> (r: Vec<Fp4>)
        requires
            old(self).pos() + 4 * n <= old(self).stream().len(),
        ensures
            r@.len() == n,
            forall|i: int, k: int|
                0 <= i < n && 0 <= k < 4 ==> r@[i]@[k] == old(self).stream()[old(self).pos() + 4 * i
                    + k] as int % P as int,
            final(self).stream() == old(self).stream(),
            final(self).pos() == old(self).pos() + 4 * n,
            final(self).rng() == old(self).rng(),
    {
        let mut out: Vec<Fp4> = Vec::new();
        let mut i: usize = 0;
        while i < n
            invariant
                i <= n,
                old(self).pos() + 4 * n <= old(self).stream().len(),
                out@.len() == i,
                forall|j: int, k: int|
                    0 <= j < i && 0 <= k < 4 ==> out@[j]@[k] == old(self).stream()[old(self).pos()
                        + 4 * j + k] as int % P as int,
                self.stream() == old(self).stream(),
                self.pos() == old(self).pos() + 4 * i,
                self.rng() == old(self).rng(),
            decreases n - i,
        {
            let words = self.read_u32s(4);
            out.push(Fp4::from_u32_words(words));
            i = i + 1;
        }
        out
    }

    /// Commit the digest the verifier has just reconstructed.
    pub fn commit(&mut self, digest: &Digest)
        ensures
            final(self).stream() == old(self).stream(),
            final(self).pos() == old(self).pos(),
            final(self).rng().pool_a() == digest_of_pair(old(self).rng().pool_a(), digest@),
            final(self).rng().pool_b() == digest_of_pair(old(self).rng().pool_b(), digest@),
            final(self).rng().used() == 0,
    {
        self.rng.mix(digest);
    }

    /// The proof stream must be fully consumed.
    pub fn verify_complete(&self) -> (r: Result<(), VerificationError>)
        requires
            self.wf(),
        ensures
            r is Ok <==> self.pos() == self.stream().len(),
            r is Err ==> r == Result::<(), VerificationError>::Err(
                VerificationError::MalformedProof,
            ),
    {
        if self.pos == self.stream.len() {
            Ok(())
        } else {
            Err(VerificationError::MalformedProof)
        }
    }

    /// Draw one word from the transcript RNG.
    pub fn next_u32(&mut self) -> (r: u32)
        ensures
            ({
                let (w, a, u) = rng_step_word(old(self).rng().pool_a(), old(self).rng().pool_b(), old(
                self).rng().used());
                r == w && final(self).rng().pool_a() == a && final(self).rng().used() == u && final(
                self).rng().pool_b() == old(self).rng().pool_b()
            }),
            final(self).stream() == old(self).stream(),
            final(self).pos() == old(self).pos(),
    {
        self.rng.next_u32()
    }

    /// Draw a base field element from the transcript RNG.
    pub fn next_fp(&mut self) -> (r: Fp)
        ensures
            ({
                let (x, a, u) = rng_step_fp(old(self).rng().pool_a(), old(self).rng().pool_b(), old(
                self).rng().used());
                r@ == x && final(self).rng().pool_a() == a && final(self).rng().used() == u && final(
                self).rng().pool_b() == old(self).rng().pool_b()
            }),
            final(self).stream() == old(self).stream(),
            final(self).pos() == old(self).pos(),
    {
        self.rng.next_fp()
    }

    /// Draw an extension field element from the transcript RNG.
    pub fn next_fp4(&mut self) -> (r: Fp4)
        ensures
            ({
                let (x, a, u) = rng_step_fp4(old(self).rng().pool_a(), old(self).rng().pool_b(), old(
                self).rng().used());
                r@ == x && final(self).rng().pool_a() == a && final(self).rng().used() == u && final(
                self).rng().pool_b() == old(self).rng().pool_b()
            }),
            final(self).stream() == old(self).stream(),
            final(self).pos() == old(self).pos(),
    {
        self.rng.next_fp4()
    }
}

} // verus!
