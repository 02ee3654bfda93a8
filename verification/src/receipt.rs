//! Receipts and the prover front: a receipt carries the guest's public
//! journal and the cryptographic seal; the prover front stages the inputs
//! a proving backend consumes.

use vstd::prelude::*;
use crate::errors::ExecError;
use crate::sha::words_of_le_bytes;

verus! {

/// Reinterpret bytes as little-endian words; the length must be a whole
/// number of words.
pub fn into_words(slice: &[u8]) -> (r: Result<Vec<u32>, ExecError>)
    ensures
        r is Ok <==> slice@.len() % 4 == 0,
        r matches Ok(v) ==> v@ == words_of_le_bytes(slice@),
        r is Err ==> r == Result::<Vec<u32>, ExecError>::Err(ExecError::HostIO),
{
    if slice.len() % 4 != 0 {
        return Err(ExecError::HostIO);
    }
    Ok(crate::sha::words_from_le_bytes(slice))
}

/// A record attesting to the correct execution of a method: the journal is
/// the public output the method committed to, and the seal is the
/// cryptographic proof stream.
#[derive(Clone, Debug, PartialEq, Eq)]
pub struct Receipt {
    pub journal: Vec<u8>,
    pub seal: Vec<u32>,
}

impl Receipt {
    pub fn new(journal: Vec<u8>, seal: Vec<u32>) -> (r: Receipt)
        ensures
            r.journal == journal,
            r.seal == seal,
    {
        Receipt { journal, seal }
    }

    /// The seal of the receipt.
    pub fn get_seal(&self) -> (r: &[u32])
        ensures
            r@ == self.seal@,
    {
        self.seal.as_slice()
    }

    /// The journal of the receipt.
    pub fn get_journal(&self) -> (r: &[u8])
        ensures
            r@ == self.journal@,
    {
        self.journal.as_slice()
    }

    /// The journal as words; the journal must be word-aligned.
    pub fn get_journal_vec(&self) -> (r: Result<Vec<u32>, ExecError>)
        ensures
            r is Ok <==> self.journal@.len() % 4 == 0,
            r matches Ok(v) ==> v@ == words_of_le_bytes(self.journal@),
    {
        into_words(self.journal.as_slice())
    }
}

/// The prover front: holds the method (an ELF image), its method id, the
/// staged input words, and the private output a run produces.
pub struct Prover {
    elf: Vec<u8>,
    method_id: Vec<u8>,
    input: Vec<u32>,
    output: Vec<u8>,
}

impl Prover {
    pub closed spec fn elf(self) -> Seq<u8> {
        self.elf@
    }

    pub closed spec fn method_id(self) -> Seq<u8> {
        self.method_id@
    }

    pub closed spec fn input(self) -> Seq<u32> {
        self.input@
    }

    pub closed spec fn output(self) -> Seq<u8> {
        self.output@
    }

    /// A prover for the given method and its method id.
    pub fn new(elf_contents: &[u8], method_id: &[u8]) -> (r: Prover)
        ensures
            r.elf() == elf_contents@,
            r.method_id() == method_id@,
            r.input() == Seq::<u32>::empty(),
            r.output() == Seq::<u8>::empty(),
    {
        Prover {
            elf: vstd::slice::slice_to_vec(elf_contents),
            method_id: vstd::slice::slice_to_vec(method_id),
            input: Vec::new(),
            output: Vec::new(),
        }
    }

    /// Stage private input words for the guest to read.
    pub fn add_input(&mut self, slice: &[u32])
        ensures
            final(self).input() == old(self).input() + slice@,
            final(self).elf() == old(self).elf(),
            final(self).method_id() == old(self).method_id(),
            final(self).output() == old(self).output(),
    {
        let mut i: usize = 0;
        while i < slice.len()
            invariant
                i <= slice@.len(),
                self.input@ == old(self).input@ + slice@.subrange(0, i as int),
                self.elf == old(self).elf,
                self.method_id == old(self).method_id,
                self.output == old(self).output,
            decreases slice@.len() - i,
        {
            self.input.push(slice[i]);
            proof {
                assert(self.input@ =~= old(self).input@ + slice@.subrange(0, i + 1));
            }
            i = i + 1;
        }
        proof {
            assert(slice@.subrange(0, slice@.len() as int) =~= slice@);
        }
    }

    /// The private output written by the guest.
    pub fn get_output(&self) -> (r: &[u8])
        ensures
            r@ == self.output(),
    {
        self.output.as_slice()
    }

    /// The private output as words; it must be word-aligned.
    pub fn get_output_vec(&self) -> (r: Result<Vec<u32>, ExecError>)
        ensures
            r is Ok <==> self.output().len() % 4 == 0,
            r matches Ok(v) ==> v@ == words_of_le_bytes(self.output()),
    {
        into_words(self.output.as_slice())
    }

    /// The staged input words.
    pub fn get_input(&self) -> (r: &[u32])
        ensures
            r@ == self.input(),
    {
        self.input.as_slice()
    }
}

} // verus!
