//! The verifier's adapter around the opaque constraint system: it reads the
//! public outputs and the announced trace size from the proof stream, and
//! draws the accumulation mix from the transcript.

use vstd::prelude::*;
use crate::consts::MAX_CYCLES_PO2;
use crate::errors::VerificationError;
use crate::fp::{Fp, P};
use crate::read_iop::ReadIOP;
use crate::rng::{rng_draw_fps, lemma_rng_draw_fps_snoc};
use vstd::arithmetic::power2::pow2;

verus! {

/// The three register groups of the trace, in commit order.
#[derive(Clone, Copy, Debug, PartialEq, Eq, Structural)]
pub enum RegisterGroup {
    Accum,
    Code,
    Data,
}

/// One tap: the constraint system evaluates polynomial `offset` of `group`
/// at the challenge point backed off by `back` steps.
#[derive(Clone, Copy, Debug, PartialEq, Eq, Structural)]
pub struct Tap {
    pub group: RegisterGroup,
    pub offset: u32,
    pub back: u32,
    pub combo_id: u32,
}

/// The tap set the constraint system declares: the taps, and how many
/// combos (shared denominators) they fall into.
#[derive(Clone, Debug)]
pub struct TapSet {
    pub taps: Vec<Tap>,
    pub combo_count: usize,
}

/// The sizes the constraint system declares. The spec-level sizes are an
/// abstract model; an implementation may refine them.
pub trait CircuitInfo {
    /// The declared number of public output elements.
    open spec fn output_size_spec(&self) -> nat {
        vstd::pervasive::arbitrary()
    }

    /// The declared number of accumulation-mix elements.
    open spec fn mix_size_spec(&self) -> nat {
        vstd::pervasive::arbitrary()
    }

    /// How many public output elements the proof stream starts with.
    fn output_size(&self) -> (r: usize)
        ensures
            r as nat == self.output_size_spec(),
    ;

    /// How many accumulation-mix elements are drawn.
    fn mix_size(&self) -> (r: usize)
        ensures
            r as nat == self.mix_size_spec(),
    ;
}

/// The tap set the constraint system declares.
pub trait TapsProvider {
    fn get_taps(&self) -> TapSet;
}

/// The verifier-side adapter of a circuit.
pub struct VerifyAdapter<'a, C: CircuitInfo + TapsProvider> {
    pub circuit: &'a C,
    pub po2: u32,
    pub steps: usize,
    pub out: Option<Vec<Fp>>,
    pub mix: Vec<Fp>,
}

impl<'a, C: CircuitInfo + TapsProvider> VerifyAdapter<'a, C> {
    pub fn new(circuit: &'a C) -> (r: VerifyAdapter<'a, C>)
        ensures
            r.po2 == 0,
            r.steps == 0,
            r.out is None,
            r.mix@ == Seq::<Fp>::empty(),
    {
        VerifyAdapter { circuit, po2: 0, steps: 0, out: None, mix: Vec::new() }
    }

    /// The circuit's tap set.
    pub fn taps(&self) -> (r: TapSet) {
        self.circuit.get_taps()
    }

    /// Read the public outputs and the announced trace size.
    pub fn execute(&mut self, iop: &mut ReadIOP) -> (r: Result<(), VerificationError>)
        requires
            old(iop).wf(),
        ensures
            final(iop).wf(),
            final(iop).stream() == old(iop).stream(),
            final(iop).rng() == old(iop).rng(),
            final(self).circuit == old(self).circuit,
            r is Err ==> r == Result::<(), VerificationError>::Err(
                VerificationError::MalformedProof,
            ) && (final(iop).pos() == old(iop).pos() || final(iop).pos() == old(iop).pos() + old(
            self).circuit.output_size_spec() + 1),
            ({
                let n = old(self).circuit.output_size_spec() as int;
                r is Ok <==> old(iop).pos() + n + 1 <= old(iop).stream().len() && old(
                iop).stream()[old(iop).pos() + n] <= MAX_CYCLES_PO2
            }),
            r is Ok ==> ({
                let v = final(self).out.unwrap();
                let n = v@.len() as int;
                &&& final(self).out is Some
                &&& v@.len() == old(self).circuit.output_size_spec()
                &&& final(iop).pos() == old(iop).pos() + n + 1
                &&& forall|i: int|
                    0 <= i < n ==> (#[trigger] v@[i])@ == old(iop).stream()[old(iop).pos() + i]
                         as int % P as int
                &&& final(self).po2 as int == old(iop).stream()[old(iop).pos() + n]
                &&& final(self).po2 <= MAX_CYCLES_PO2
                &&& final(self).steps as nat == pow2(final(self).po2 as nat)
                &&& final(self).mix == old(self).mix
            }),
    {
        let n = self.circuit.output_size();
        let rem = iop.remaining();
        if rem < n {
            return Err(VerificationError::MalformedProof);
        }
        if rem - n < 1 {
            return Err(VerificationError::MalformedProof);
        }
        let (fps, _raw) = iop.read_fps(n);
        let po2_words = iop.read_u32s(1);
        let po2 = po2_words[0];
        if po2 > MAX_CYCLES_PO2 as u32 {
            return Err(VerificationError::MalformedProof);
        }
        self.po2 = po2;
        // steps = 2^po2.
        let mut steps: usize = 1;
        let mut l: u32 = 0;
        proof {
            vstd::arithmetic::power2::lemma2_to64();
        }
        while l < po2
            invariant
                l <= po2,
                po2 <= 24,
                steps as nat == pow2(l as nat),
                steps <= 0x100_0000,
            decreases po2 - l,
        {
            proof {
                vstd::arithmetic::power2::lemma_pow2_unfold(l as nat + 1);
                if (l as nat) + 1 < 24 {
                    vstd::arithmetic::power2::lemma_pow2_strictly_increases(l as nat + 1, 24);
                }
                vstd::arithmetic::power2::lemma2_to64();
            }
            steps = steps * 2;
            l = l + 1;
        }
        self.steps = steps;
        self.out = Some(fps);
        Ok(())
    }

    /// Draw the accumulation mix from the transcript.
    pub fn accumulate(&mut self, iop: &mut ReadIOP)
        ensures
            final(iop).stream() == old(iop).stream(),
            final(iop).pos() == old(iop).pos(),
            final(self).circuit == old(self).circuit,
            final(self).po2 == old(self).po2,
            final(self).steps == old(self).steps,
            final(self).out == old(self).out,
            final(self).mix@.len() == old(self).circuit.mix_size_spec(),
            ({
                let k = final(self).mix@.len() as nat;
                let (vals, a2, u2) = rng_draw_fps(
                    old(iop).rng().pool_a(),
                    old(iop).rng().pool_b(),
                    old(iop).rng().used(),
                    k,
                );
                &&& Seq::new(k, |i: int| final(self).mix@[i]@) == vals
                &&& final(iop).rng().pool_a() == a2
                &&& final(iop).rng().pool_b() == old(iop).rng().pool_b()
                &&& final(iop).rng().used() == u2
            }),
    {
        let n = self.circuit.mix_size();
        let mut mix: Vec<Fp> = Vec::new();
        let mut i: usize = 0;
        let ghost a0 = iop.rng().pool_a();
        let ghost b0 = iop.rng().pool_b();
        let ghost u0 = iop.rng().used();
        while i < n
            invariant
                i <= n,
                mix@.len() == i,
                a0 == old(iop).rng().pool_a(),
                b0 == old(iop).rng().pool_b(),
                u0 == old(iop).rng().used(),
                iop.stream() == old(iop).stream(),
                iop.pos() == old(iop).pos(),
                ({
                    let (vals, a2, u2) = rng_draw_fps(a0, b0, u0, i as nat);
                    &&& Seq::new(i as nat, |j: int| mix@[j]@) == vals
                    &&& iop.rng().pool_a() == a2
                    &&& iop.rng().pool_b() == b0
                    &&& iop.rng().used() == u2
                }),
            decreases n - i,
        {
            let x = iop.next_fp();
            let ghost pre = mix@;
            mix.push(x);
            proof {
                lemma_rng_draw_fps_snoc(a0, b0, u0, i as nat);
                let (vals, a2, u2) = rng_draw_fps(a0, b0, u0, i as nat);
                assert(Seq::new((i + 1) as nat, |j: int| mix@[j]@) =~= vals + seq![x@]);
            }
            i = i + 1;
        }
        self.mix = mix;
    }

    /// The announced log2 trace size.
    pub fn po2(&self) -> (r: u32)
        ensures
            r == self.po2,
    {
        self.po2
    }
}

} // verus!
