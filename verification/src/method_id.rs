//! The method id: an ordered table of code-commitment digests, one per
//! supported trace size, binding an ELF to a proof. The verifier selects
//! the entry matching the prover's announced trace size.

use vstd::prelude::*;
use crate::sha::{Digest, le_bytes_of_words, words_of_le_bytes, words_to_le_bytes,
    words_from_le_bytes};
use crate::write_iop::words_of_digests;

verus! {

/// The default digest count when generating a method id.
pub const DEFAULT_METHOD_ID_LIMIT: u32 = 16;

/// One entry per power of two from the smallest to the largest supported
/// trace size.
pub const MAX_CODE_DIGEST_COUNT: u32 = 15;

/// A table of code-commitment digests, one per supported trace size.
#[derive(Clone, Debug, PartialEq, Eq)]
pub struct MethodId {
    pub table: Vec<Digest>,
}

impl MethodId {
    /// Build a table from whole digests' worth of words; a trailing
    /// fragment is dropped.
    pub fn from_words(words: &[u32]) -> (r: MethodId)
        ensures
            r.table@.len() == words@.len() / 8,
            forall|i: int|
                0 <= i < r.table@.len() ==> (#[trigger] r.table@[i])@ == words@.subrange(
                    8 * i,
                    8 * i + 8,
                ),
    {
        let n = words.len() / 8;
        proof {
            vstd::arithmetic::div_mod::lemma_fundamental_div_mod(words@.len() as int, 8);
        }
        let mut table: Vec<Digest> = Vec::new();
        let mut i: usize = 0;
        while i < n
            invariant
                i <= n,
                8 * n <= words@.len(),
                words@.len() <= usize::MAX,
                table@.len() == i,
                forall|j: int|
                    0 <= j < i ==> (#[trigger] table@[j])@ == words@.subrange(8 * j, 8 * j + 8),
            decreases n - i,
        {
            let d = Digest::from_words(vstd::slice::slice_subrange(words, 8 * i, 8 * i + 8));
            table.push(d);
            i = i + 1;
        }
        MethodId { table }
    }

    /// Parse a table from bytes: 32 bytes per digest, little-endian per
    /// word; a trailing fragment is dropped.
    pub fn from_slice(bytes: &[u8]) -> (r: MethodId)
        ensures
            r.table@.len() == bytes@.len() / 32,
            forall|i: int|
                0 <= i < r.table@.len() ==> (#[trigger] r.table@[i])@ == words_of_le_bytes(
                    bytes@.subrange(32 * i, 32 * i + 32),
                ),
    {
        let n = bytes.len() / 32;
        proof {
            vstd::arithmetic::div_mod::lemma_fundamental_div_mod(bytes@.len() as int, 32);
        }
        let mut table: Vec<Digest> = Vec::new();
        let mut i: usize = 0;
        while i < n
            invariant
                i <= n,
                32 * n <= bytes@.len(),
                bytes@.len() <= usize::MAX,
                table@.len() == i,
                forall|j: int|
                    0 <= j < i ==> (#[trigger] table@[j])@ == words_of_le_bytes(
                        bytes@.subrange(32 * j, 32 * j + 32),
                    ),
            decreases n - i,
        {
            let chunk = vstd::slice::slice_subrange(bytes, 32 * i, 32 * i + 32);
            let words = words_from_le_bytes(chunk);
            let d = Digest::from_words(words.as_slice());
            table.push(d);
            i = i + 1;
        }
        MethodId { table }
    }

    /// Serialise the table: 32 bytes per digest, little-endian per word.
    pub fn as_slice(&self) -> (r: Vec<u8>)
        ensures
            r@ == le_bytes_of_words(words_of_digests(self.table@)),
    {
        let mut words: Vec<u32> = Vec::new();
        let mut i: usize = 0;
        while i < self.table.len()
            invariant
                i <= self.table@.len(),
                words@.len() == 8 * i,
                forall|j: int| 0 <= j < 8 * i ==> words@[j] == words_of_digests(self.table@)[j],
            decreases self.table@.len() - i,
        {
            let d = &self.table[i];
            let mut k: usize = 0;
            while k < 8
                invariant
                    k <= 8,
                    i < self.table@.len(),
                    d@ == self.table@[i as int]@,
                    words@.len() == 8 * i + k,
                    forall|j: int|
                        0 <= j < 8 * i ==> words@[j] == words_of_digests(self.table@)[j],
                    forall|j: int| 0 <= j < k ==> words@[8 * i + j] == d@[j],
                decreases 8 - k,
            {
                words.push(d.words[k]);
                k = k + 1;
            }
            proof {
                assert forall|j: int| 0 <= j < 8 * (i + 1) implies words@[j] == words_of_digests(
                    self.table@,
                )[j] by {
                    if 8 * i <= j {
                        assert(words@[j] == self.table@[i as int]@[j - 8 * i]);
                        assert(j / 8 == i && j % 8 == j - 8 * i);
                    }
                }
            }
            i = i + 1;
        }
        proof {
            assert(words@ =~= words_of_digests(self.table@));
        }
        words_to_le_bytes(words.as_slice())
    }
}

} // verus!
