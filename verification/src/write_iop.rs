//! The prover's transcript: an append-only word stream plus the
//! Fiat-Shamir RNG. Written data is not self-certifying; it is bound by a
//! later `commit` of a digest that covers it.

use vstd::prelude::*;
use crate::fp::{Fp, words_of_fps, fps_to_words};
use crate::fp4::Fp4;
use crate::rng::ShaRng;
use crate::sha::{Digest, Sha, digest_of_bytes, digest_of_pair};
use crate::rng::{seed_a_bytes, seed_b_bytes};

verus! {

/// The proof-stream words of a sequence of extension field elements:
/// four words each, lowest coordinate first.
pub open spec fn words_of_fp4s(s: Seq<Fp4>) -> Seq<u32> {
    Seq::new(4 * s.len(), |i: int| s[i / 4]@[i % 4] as u32)
}

/// The proof-stream words of a sequence of digests: eight words each.
pub open spec fn words_of_digests(s: Seq<Digest>) -> Seq<u32> {
    Seq::new(8 * s.len(), |i: int| s[i / 8]@[i % 8])
}

/// The prover's write-mode transcript.
pub struct WriteIOP {
    pub sha: Sha,
    /// The proof stream written so far; it becomes the seal.
    pub stream: Vec<u32>,
    /// The Fiat-Shamir RNG that draws every challenge.
    pub rng: ShaRng,
}

impl WriteIOP {
    /// Create a new empty proof.
    pub fn new(sha: &Sha) -> (r: WriteIOP)
        ensures
            r.stream@ == Seq::<u32>::empty(),
            r.rng.pool_a() == digest_of_bytes(seed_a_bytes()),
            r.rng.pool_b() == digest_of_bytes(seed_b_bytes()),
            r.rng.used() == 0,
    {
        let r = WriteIOP { sha: *sha, stream: Vec::new(), rng: ShaRng::new(sha) };
        proof {
            assert(r.stream@ =~= Seq::<u32>::empty());
        }
        r
    }

    pub fn get_sha(&self) -> (r: &Sha) {
        &self.sha
    }

    /// Append raw words to the proof stream.
    pub fn write_u32_slice(&mut self, slice: &[u32])
        ensures
            final(self).stream@ == old(self).stream@ + slice@,
            final(self).rng == old(self).rng,
    {
        let mut i: usize = 0;
        while i < slice.len()
            invariant
                i <= slice@.len(),
                self.stream@ == old(self).stream@ + slice@.subrange(0, i as int),
                self.rng == old(self).rng,
            decreases slice@.len() - i,
        {
            self.stream.push(slice[i]);
            proof {
                assert(self.stream@ =~= old(self).stream@ + slice@.subrange(0, i + 1));
            }
            i = i + 1;
        }
        proof {
            assert(slice@.subrange(0, slice@.len() as int) =~= slice@);
        }
    }

    /// Append field elements to the proof stream, one word each.
    pub fn write_fp_slice(&mut self, slice: &[Fp])
        ensures
            final(self).stream@ == old(self).stream@ + words_of_fps(slice@),
            final(self).rng == old(self).rng,
    {
        let words = fps_to_words(slice);
        self.write_u32_slice(words.as_slice());
    }

    /// Append extension field elements to the proof stream, four words each.
    pub fn write_fp4_slice(&mut self, slice: &[Fp4])
        ensures
            final(self).stream@ == old(self).stream@ + words_of_fp4s(slice@),
            final(self).rng == old(self).rng,
    {
        let mut words: Vec<u32> = Vec::new();
        let mut i: usize = 0;
        while i < slice.len()
            invariant
                i <= slice@.len(),
                words@.len() == 4 * i,
                forall|j: int| 0 <= j < 4 * i ==> words@[j] == words_of_fp4s(slice@)[j],
            decreases slice@.len() - i,
        {
            let e = slice[i].to_fps();
            words.push(e[0].as_u32());
            words.push(e[1].as_u32());
            words.push(e[2].as_u32());
            words.push(e[3].as_u32());
            i = i + 1;
        }
        proof {
            assert(words@ =~= words_of_fp4s(slice@));
        }
        self.write_u32_slice(words.as_slice());
    }

    /// Append digests to the proof stream, eight words each.
    pub fn write_digest_slice(&mut self, slice: &[Digest])
        ensures
            final(self).stream@ == old(self).stream@ + words_of_digests(slice@),
            final(self).rng == old(self).rng,
    {
        let mut words: Vec<u32> = Vec::new();
        let mut i: usize = 0;
        while i < slice.len()
            invariant
                i <= slice@.len(),
                words@.len() == 8 * i,
                forall|j: int| 0 <= j < 8 * i ==> words@[j] == words_of_digests(slice@)[j],
            decreases slice@.len() - i,
        {
            let d = &slice[i];
            let mut k: usize = 0;
            while k < 8
                invariant
                    k <= 8,
                    i < slice@.len(),
                    d@ == slice@[i as int]@,
                    words@.len() == 8 * i + k,
                    forall|j: int| 0 <= j < 8 * i ==> words@[j] == words_of_digests(slice@)[j],
                    forall|j: int| 0 <= j < k ==> words@[8 * i + j] == d@[j],
                decreases 8 - k,
            {
                words.push(d.words[k]);
                k = k + 1;
            }
            proof {
                assert forall|j: int| 0 <= j < 8 * (i + 1) implies words@[j] == words_of_digests(
                    slice@)[j] by {
                    if 8 * i <= j {
                        assert(words@[j] == slice@[i as int]@[j - 8 * i]);
                        assert(j / 8 == i && j % 8 == j - 8 * i);
                    }
                }
            }
            i = i + 1;
        }
        proof {
            assert(words@ =~= words_of_digests(slice@));
        }
        self.write_u32_slice(words.as_slice());
    }

    /// Commit to a digest: mix it into the RNG without appending it.
    pub fn commit(&mut self, message: &Digest)
        ensures
            final(self).stream@ == old(self).stream@,
            final(self).rng.pool_a() == digest_of_pair(old(self).rng.pool_a(), message@),
            final(self).rng.pool_b() == digest_of_pair(old(self).rng.pool_b(), message@),
            final(self).rng.used() == 0,
    {
        self.rng.mix(message);
    }
}

} // verus!
