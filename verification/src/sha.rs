//! SHA-256 digests, the vector-commitment and transcript primitive.
//!
//! The hash itself is an outside primitive: the single trusted wrapper
//! `sha256_hash` names its 32 result bytes `sha_bytes(input)`. Everything
//! else here - packing bytes into digest words, hashing word sequences and
//! digest pairs - is verified against that name.

use vstd::prelude::*;

verus! {

/// Number of 32-bit words in a digest.
pub const DIGEST_WORDS: usize = 8;

/// Number of bytes in a digest word.
pub const DIGEST_WORD_SIZE: usize = 4;

/// The 32 bytes that SHA-256 assigns to a byte string; a function of the
/// input alone, named here and fixed by the trusted wrapper below.
pub uninterp spec fn sha_bytes(input: Seq<u8>) -> Seq<u8>;

/// Relies on sha2::Sha256 (FIPS 180-4 SHA-256): the digest is 32 bytes and
/// depends on the input bytes alone.
#[verifier::external_body]
fn sha256_hash(input: &[u8]) -> (r: Vec<u8>)
    ensures
        r@ == sha_bytes(input@),
        r@.len() == 32,
{
    <sha2::Sha256 as sha2::Digest>::digest(input).to_vec()
}

/// Big-endian packing of bytes into 32-bit words.
pub open spec fn words_of_be_bytes(b: Seq<u8>) -> Seq<u32> {
    Seq::new(
        b.len() / 4,
        |i: int| (b[4 * i] * 0x1000000 + b[4 * i + 1] * 0x10000 + b[4 * i + 2] * 0x100 + b[4 * i
            + 3]) as u32,
    )
}

/// Little-endian serialisation of 32-bit words into bytes, the byte layout
/// of the proof stream.
pub open spec fn le_bytes_of_words(w: Seq<u32>) -> Seq<u8> {
    Seq::new(
        4 * w.len(),
        |i: int|
            {
                let k = i % 4;
                let d = if k == 0 {
                    1int
                } else if k == 1 {
                    0x100int
                } else if k == 2 {
                    0x10000int
                } else {
                    0x1000000int
                };
                ((w[i / 4] as int / d) % 0x100) as u8
            },
    )
}

/// Little-endian packing of bytes into 32-bit words.
pub open spec fn words_of_le_bytes(b: Seq<u8>) -> Seq<u32> {
    Seq::new(
        b.len() / 4,
        |i: int| (b[4 * i] + b[4 * i + 1] * 0x100 + b[4 * i + 2] * 0x10000 + b[4 * i + 3]
            * 0x1000000) as u32,
    )
}

/// Little-endian round trip law: serialising the words packed from a
/// word-aligned byte string gives back the bytes.
pub proof fn lemma_le_words_bytes_roundtrip(b: Seq<u8>)
    requires
        b.len() % 4 == 0,
    ensures
        le_bytes_of_words(words_of_le_bytes(b)) == b,
{
    let w = words_of_le_bytes(b);
    vstd::arithmetic::div_mod::lemma_fundamental_div_mod(b.len() as int, 4);
    assert forall|i: int| 0 <= i < b.len() implies le_bytes_of_words(w)[i] == b[i] by {
        let j = i / 4;
        let k = i % 4;
        vstd::arithmetic::div_mod::lemma_fundamental_div_mod(i, 4);
        let b0 = b[4 * j] as int;
        let b1 = b[4 * j + 1] as int;
        let b2 = b[4 * j + 2] as int;
        let b3 = b[4 * j + 3] as int;
        let x = b0 + b1 * 0x100 + b2 * 0x10000 + b3 * 0x1000000;
        assert(w[j] as int == x);
        if k == 0 {
            vstd::arithmetic::div_mod::lemma_fundamental_div_mod_converse(
                x,
                0x100,
                b1 + b2 * 0x100 + b3 * 0x10000,
                b0,
            );
            vstd::arithmetic::div_mod::lemma_small_mod(b0 as nat, 0x100);
            assert(x / 1 == x);
        } else if k == 1 {
            vstd::arithmetic::div_mod::lemma_fundamental_div_mod_converse(
                x,
                0x100,
                b1 + b2 * 0x100 + b3 * 0x10000,
                b0,
            );
            vstd::arithmetic::div_mod::lemma_fundamental_div_mod_converse(
                b1 + b2 * 0x100 + b3 * 0x10000,
                0x100,
                b2 + b3 * 0x100,
                b1,
            );
        } else if k == 2 {
            vstd::arithmetic::div_mod::lemma_fundamental_div_mod_converse(
                x,
                0x10000,
                b2 + b3 * 0x100,
                b0 + b1 * 0x100,
            );
            vstd::arithmetic::div_mod::lemma_fundamental_div_mod_converse(
                b2 + b3 * 0x100,
                0x100,
                b3,
                b2,
            );
        } else {
            vstd::arithmetic::div_mod::lemma_fundamental_div_mod_converse(
                x,
                0x1000000,
                b3,
                b0 + b1 * 0x100 + b2 * 0x10000,
            );
            vstd::arithmetic::div_mod::lemma_small_mod(b3 as nat, 0x100);
        }
    }
    assert(le_bytes_of_words(w) =~= b);
}

/// Little-endian round trip law, the other direction: packing the bytes
/// serialised from words gives back the words.
pub proof fn lemma_le_bytes_words_roundtrip(w: Seq<u32>)
    ensures
        words_of_le_bytes(le_bytes_of_words(w)) == w,
{
    let b = le_bytes_of_words(w);
    vstd::arithmetic::div_mod::lemma_mod_multiples_basic(w.len() as int, 4);
    assert forall|j: int| 0 <= j < w.len() implies words_of_le_bytes(b)[j] == w[j] by {
        let x = w[j] as int;
        assert(b[4 * j] as int == x % 0x100);
        assert(b[4 * j + 1] as int == (x / 0x100) % 0x100);
        assert(b[4 * j + 2] as int == (x / 0x10000) % 0x100);
        assert(b[4 * j + 3] as int == (x / 0x1000000) % 0x100);
        vstd::arithmetic::div_mod::lemma_fundamental_div_mod(x, 0x100);
        vstd::arithmetic::div_mod::lemma_fundamental_div_mod(x / 0x100, 0x100);
        vstd::arithmetic::div_mod::lemma_fundamental_div_mod(x / 0x10000, 0x100);
        vstd::arithmetic::div_mod::lemma_div_denominator(x, 0x100, 0x100);
        vstd::arithmetic::div_mod::lemma_div_denominator(x, 0x10000, 0x100);
        vstd::arithmetic::div_mod::lemma_mod_division_less_than_divisor(x, 0x100);
        vstd::arithmetic::div_mod::lemma_mod_division_less_than_divisor(x / 0x100, 0x100);
        vstd::arithmetic::div_mod::lemma_mod_division_less_than_divisor(x / 0x10000, 0x100);
        assert(x / 0x1000000 < 0x100);
        vstd::arithmetic::div_mod::lemma_small_mod((x / 0x1000000) as nat, 0x100);
    }
    assert(words_of_le_bytes(b) =~= w);
}

/// The digest of a byte string, as eight big-endian words.
#[verifier::opaque]
pub open spec fn digest_of_bytes(b: Seq<u8>) -> Seq<u32> {
    words_of_be_bytes(sha_bytes(b))
}

/// The digest of a word sequence, hashed in its little-endian byte layout.
#[verifier::opaque]
pub open spec fn digest_of_words(w: Seq<u32>) -> Seq<u32> {
    digest_of_bytes(le_bytes_of_words(w))
}

/// The digest of two concatenated digests, the Merkle node combiner.
#[verifier::opaque]
pub open spec fn digest_of_pair(a: Seq<u32>, b: Seq<u32>) -> Seq<u32> {
    digest_of_words(a + b)
}

/// A fixed 32-byte SHA-256 output, viewed as 8 words.
#[derive(Clone, Copy, Debug)]
pub struct Digest {
    pub words: [u32; 8],
}

impl View for Digest {
    type V = Seq<u32>;

    open spec fn view(&self) -> Seq<u32> {
        self.words@
    }
}

impl PartialEq for Digest {
    fn eq(&self, other: &Digest) -> (r: bool) {
        let r = self.words[0] == other.words[0] && self.words[1] == other.words[1]
            && self.words[2] == other.words[2] && self.words[3] == other.words[3]
            && self.words[4] == other.words[4] && self.words[5] == other.words[5]
            && self.words[6] == other.words[6] && self.words[7] == other.words[7];
        proof {
            if r {
                assert(self.words@ =~= other.words@);
            }
        }
        r
    }
}

impl vstd::std_specs::cmp::PartialEqSpecImpl for Digest {
    open spec fn obeys_eq_spec() -> bool {
        true
    }

    open spec fn eq_spec(&self, other: &Digest) -> bool {
        self.words@ == other.words@
    }
}

impl Eq for Digest {

}

impl Digest {
    /// The all-zero digest, the method id entry for an unreachable trace size.
    pub fn zero() -> (r: Digest)
        ensures
            r@ =~= Seq::new(8, |i: int| 0u32),
    {
        Digest { words: [0, 0, 0, 0, 0, 0, 0, 0] }
    }

    pub fn new(words: [u32; 8]) -> (r: Digest)
        ensures
            r@ == words@,
    {
        Digest { words }
    }

    /// Build a digest from a slice of exactly eight words.
    pub fn from_words(words: &[u32]) -> (r: Digest)
        requires
            words@.len() == 8,
        ensures
            r@ == words@,
    {
        let r = Digest {
            words: [
                words[0],
                words[1],
                words[2],
                words[3],
                words[4],
                words[5],
                words[6],
                words[7],
            ],
        };
        proof {
            assert(r.words@ =~= words@);
        }
        r
    }
}

/// Pack a byte string whose length is a multiple of four into big-endian words.
fn words_from_be_bytes(bytes: &[u8]) -> (r: Vec<u32>)
    requires
        bytes@.len() % 4 == 0,
    ensures
        r@ == words_of_be_bytes(bytes@),
{
    let n = bytes.len() / 4;
    proof {
        vstd::arithmetic::div_mod::lemma_fundamental_div_mod(bytes@.len() as int, 4);
    }
    let mut out: Vec<u32> = Vec::new();
    let mut i: usize = 0;
    while i < n
        invariant
            i <= n,
            n == bytes@.len() / 4,
            4 * n == bytes@.len(),
            bytes@.len() <= usize::MAX,
            out@.len() == i,
            forall|j: int| 0 <= j < i ==> out@[j] == words_of_be_bytes(bytes@)[j],
        decreases n - i,
    {
        let w: u32 = (bytes[4 * i] as u32) * 0x1000000 + (bytes[4 * i + 1] as u32) * 0x10000 + (
        bytes[4 * i + 2] as u32) * 0x100 + (bytes[4 * i + 3] as u32);
        out.push(w);
        i = i + 1;
    }
    proof {
        assert(out@ =~= words_of_be_bytes(bytes@));
    }
    out
}

/// Serialise words into their little-endian byte layout.
pub fn words_to_le_bytes(words: &[u32]) -> (r: Vec<u8>)
    ensures
        r@ == le_bytes_of_words(words@),
{
    let n = words.len();
    let mut out: Vec<u8> = Vec::new();
    let mut i: usize = 0;
    while i < n
        invariant
            i <= n,
            n == words@.len(),
            out@.len() == 4 * i,
            forall|j: int| 0 <= j < 4 * i ==> out@[j] == le_bytes_of_words(words@)[j],
        decreases n - i,
    {
        let x = words[i];
        out.push((x % 0x100) as u8);
        out.push(((x / 0x100) % 0x100) as u8);
        out.push(((x / 0x10000) % 0x100) as u8);
        out.push(((x / 0x1000000) % 0x100) as u8);
        i = i + 1;
    }
    proof {
        assert(out@ =~= le_bytes_of_words(words@));
    }
    out
}

/// Pack a byte string whose length is a multiple of four into
/// little-endian words.
pub fn words_from_le_bytes(bytes: &[u8]) -> (r: Vec<u32>)
    requires
        bytes@.len() % 4 == 0,
    ensures
        r@ == words_of_le_bytes(bytes@),
{
    let n = bytes.len() / 4;
    proof {
        vstd::arithmetic::div_mod::lemma_fundamental_div_mod(bytes@.len() as int, 4);
    }
    let mut out: Vec<u32> = Vec::new();
    let mut i: usize = 0;
    while i < n
        invariant
            i <= n,
            n == bytes@.len() / 4,
            4 * n == bytes@.len(),
            bytes@.len() <= usize::MAX,
            out@.len() == i,
            forall|j: int| 0 <= j < i ==> out@[j] == words_of_le_bytes(bytes@)[j],
        decreases n - i,
    {
        let w: u32 = (bytes[4 * i] as u32) + (bytes[4 * i + 1] as u32) * 0x100 + (bytes[4 * i
            + 2] as u32) * 0x10000 + (bytes[4 * i + 3] as u32) * 0x1000000;
        out.push(w);
        i = i + 1;
    }
    proof {
        assert(out@ =~= words_of_le_bytes(bytes@));
    }
    out
}

/// Hash a byte string.
pub fn hash_bytes(input: &[u8]) -> (r: Digest)
    ensures
        r@ == digest_of_bytes(input@),
{
    proof {
        reveal(digest_of_bytes);
    }
    let raw = sha256_hash(input);
    let words = words_from_be_bytes(raw.as_slice());
    Digest::from_words(words.as_slice())
}

/// Hash a word sequence in its little-endian byte layout.
pub fn hash_raw_words(words: &[u32]) -> (r: Digest)
    ensures
        r@ == digest_of_words(words@),
{
    proof {
        reveal(digest_of_words);
    }
    let bytes = words_to_le_bytes(words);
    hash_bytes(bytes.as_slice())
}

/// Hash the concatenation of two digests, the Merkle node combiner.
pub fn hash_pair(a: &Digest, b: &Digest) -> (r: Digest)
    ensures
        r@ == digest_of_pair(a@, b@),
{
    let mut words: Vec<u32> = Vec::new();
    let mut i: usize = 0;
    while i < 8
        invariant
            i <= 8,
            words@.len() == i,
            forall|j: int| 0 <= j < i ==> words@[j] == a@[j],
        decreases 8 - i,
    {
        words.push(a.words[i]);
        i = i + 1;
    }
    let mut k: usize = 0;
    while k < 8
        invariant
            k <= 8,
            words@.len() == 8 + k,
            forall|j: int| 0 <= j < 8 ==> words@[j] == a@[j],
            forall|j: int| 0 <= j < k ==> words@[8 + j] == b@[j],
        decreases 8 - k,
    {
        words.push(b.words[k]);
        k = k + 1;
    }
    proof {
        reveal(digest_of_pair);
        assert(words@ =~= a@ + b@);
    }
    hash_raw_words(words.as_slice())
}

/// The SHA-256 capability handed to transcripts and Merkle builders.
#[derive(Clone, Copy, Debug)]
pub struct Sha;

impl Sha {
    pub fn new() -> (r: Sha) {
        Sha
    }

    pub fn hash_bytes(&self, input: &[u8]) -> (r: Digest)
        ensures
            r@ == digest_of_bytes(input@),
    {
        hash_bytes(input)
    }

    pub fn hash_raw_words(&self, words: &[u32]) -> (r: Digest)
        ensures
            r@ == digest_of_words(words@),
    {
        hash_raw_words(words)
    }

    pub fn hash_pair(&self, a: &Digest, b: &Digest) -> (r: Digest)
        ensures
            r@ == digest_of_pair(a@, b@),
    {
        hash_pair(a, b)
    }
}

} // verus!
