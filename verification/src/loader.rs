//! The control-cycle loader: emits the algebraic `code` rows that surround
//! and drive the guest body - an init cycle, one load cycle per image word,
//! a reset carrying the entry address, body cycles interleaving the
//! three-phase instruction rotator with the 72-phase SHA-256 co-processor
//! schedule, and a fini cycle.

use vstd::prelude::*;
use crate::errors::ExecError;
use crate::fp::{Fp, P};
use crate::platform::ROM_START_WORD;

verus! {

/// Number of code registers per cycle.
pub const CODE_SIZE: usize = 16;

/// Register indices within a code row.
pub const IDX_CYCLE: usize = 0;

pub const IDX_TYPE_NORMAL: usize = 1;

pub const IDX_TYPE_FINAL: usize = 2;

pub const IDX_TYPE_INIT: usize = 3;

pub const IDX_TYPE_LOAD: usize = 4;

pub const IDX_TYPE_RESET: usize = 5;

pub const IDX_TYPE_FINI: usize = 6;

pub const IDX_SHA_CTRL: usize = 7;

pub const IDX_SHA_LOAD: usize = 8;

pub const IDX_SHA_MIX: usize = 9;

pub const IDX_P1: usize = 10;

pub const IDX_P2: usize = 11;

pub const IDX_DATA1_LO: usize = 12;

pub const IDX_DATA1_HI: usize = 13;

pub const IDX_DATA2_LO: usize = 14;

pub const IDX_DATA2_HI: usize = 15;

/// The SHA-256 round constant fed to the co-processor at each schedule step.
pub open spec fn sha_round_spec(i: int) -> u32 {
    if i == 0 {
        0x428a2f98u32
    } else if i == 1 {
        0x71374491u32
    } else if i == 2 {
        0xb5c0fbcfu32
    } else if i == 3 {
        0xe9b5dba5u32
    } else if i == 4 {
        0x3956c25bu32
    } else if i == 5 {
        0x59f111f1u32
    } else if i == 6 {
        0x923f82a4u32
    } else if i == 7 {
        0xab1c5ed5u32
    } else if i == 8 {
        0xd807aa98u32
    } else if i == 9 {
        0x12835b01u32
    } else if i == 10 {
        0x243185beu32
    } else if i == 11 {
        0x550c7dc3u32
    } else if i == 12 {
        0x72be5d74u32
    } else if i == 13 {
        0x80deb1feu32
    } else if i == 14 {
        0x9bdc06a7u32
    } else if i == 15 {
        0xc19bf174u32
    } else if i == 16 {
        0xe49b69c1u32
    } else if i == 17 {
        0xefbe4786u32
    } else if i == 18 {
        0x0fc19dc6u32
    } else if i == 19 {
        0x240ca1ccu32
    } else if i == 20 {
        0x2de92c6fu32
    } else if i == 21 {
        0x4a7484aau32
    } else if i == 22 {
        0x5cb0a9dcu32
    } else if i == 23 {
        0x76f988dau32
    } else if i == 24 {
        0x983e5152u32
    } else if i == 25 {
        0xa831c66du32
    } else if i == 26 {
        0xb00327c8u32
    } else if i == 27 {
        0xbf597fc7u32
    } else if i == 28 {
        0xc6e00bf3u32
    } else if i == 29 {
        0xd5a79147u32
    } else if i == 30 {
        0x06ca6351u32
    } else if i == 31 {
        0x14292967u32
    } else if i == 32 {
        0x27b70a85u32
    } else if i == 33 {
        0x2e1b2138u32
    } else if i == 34 {
        0x4d2c6dfcu32
    } else if i == 35 {
        0x53380d13u32
    } else if i == 36 {
        0x650a7354u32
    } else if i == 37 {
        0x766a0abbu32
    } else if i == 38 {
        0x81c2c92eu32
    } else if i == 39 {
        0x92722c85u32
    } else if i == 40 {
        0xa2bfe8a1u32
    } else if i == 41 {
        0xa81a664bu32
    } else if i == 42 {
        0xc24b8b70u32
    } else if i == 43 {
        0xc76c51a3u32
    } else if i == 44 {
        0xd192e819u32
    } else if i == 45 {
        0xd6990624u32
    } else if i == 46 {
        0xf40e3585u32
    } else if i == 47 {
        0x106aa070u32
    } else if i == 48 {
        0x19a4c116u32
    } else if i == 49 {
        0x1e376c08u32
    } else if i == 50 {
        0x2748774cu32
    } else if i == 51 {
        0x34b0bcb5u32
    } else if i == 52 {
        0x391c0cb3u32
    } else if i == 53 {
        0x4ed8aa4au32
    } else if i == 54 {
        0x5b9cca4fu32
    } else if i == 55 {
        0x682e6ff3u32
    } else if i == 56 {
        0x748f82eeu32
    } else if i == 57 {
        0x78a5636fu32
    } else if i == 58 {
        0x84c87814u32
    } else if i == 59 {
        0x8cc70208u32
    } else if i == 60 {
        0x90befffau32
    } else if i == 61 {
        0xa4506cebu32
    } else if i == 62 {
        0xbef9a3f7u32
    } else {
        0xc67178f2u32
    }
}

/// The SHA-256 round constants, as executable lookups.
pub fn sha_round(i: usize) -> (r: u32)
    requires
        i < 64,
    ensures
        r == sha_round_spec(i as int),
{
    if i == 0 {
        0x428a2f98u32
    } else if i == 1 {
        0x71374491u32
    } else if i == 2 {
        0xb5c0fbcfu32
    } else if i == 3 {
        0xe9b5dba5u32
    } else if i == 4 {
        0x3956c25bu32
    } else if i == 5 {
        0x59f111f1u32
    } else if i == 6 {
        0x923f82a4u32
    } else if i == 7 {
        0xab1c5ed5u32
    } else if i == 8 {
        0xd807aa98u32
    } else if i == 9 {
        0x12835b01u32
    } else if i == 10 {
        0x243185beu32
    } else if i == 11 {
        0x550c7dc3u32
    } else if i == 12 {
        0x72be5d74u32
    } else if i == 13 {
        0x80deb1feu32
    } else if i == 14 {
        0x9bdc06a7u32
    } else if i == 15 {
        0xc19bf174u32
    } else if i == 16 {
        0xe49b69c1u32
    } else if i == 17 {
        0xefbe4786u32
    } else if i == 18 {
        0x0fc19dc6u32
    } else if i == 19 {
        0x240ca1ccu32
    } else if i == 20 {
        0x2de92c6fu32
    } else if i == 21 {
        0x4a7484aau32
    } else if i == 22 {
        0x5cb0a9dcu32
    } else if i == 23 {
        0x76f988dau32
    } else if i == 24 {
        0x983e5152u32
    } else if i == 25 {
        0xa831c66du32
    } else if i == 26 {
        0xb00327c8u32
    } else if i == 27 {
        0xbf597fc7u32
    } else if i == 28 {
        0xc6e00bf3u32
    } else if i == 29 {
        0xd5a79147u32
    } else if i == 30 {
        0x06ca6351u32
    } else if i == 31 {
        0x14292967u32
    } else if i == 32 {
        0x27b70a85u32
    } else if i == 33 {
        0x2e1b2138u32
    } else if i == 34 {
        0x4d2c6dfcu32
    } else if i == 35 {
        0x53380d13u32
    } else if i == 36 {
        0x650a7354u32
    } else if i == 37 {
        0x766a0abbu32
    } else if i == 38 {
        0x81c2c92eu32
    } else if i == 39 {
        0x92722c85u32
    } else if i == 40 {
        0xa2bfe8a1u32
    } else if i == 41 {
        0xa81a664bu32
    } else if i == 42 {
        0xc24b8b70u32
    } else if i == 43 {
        0xc76c51a3u32
    } else if i == 44 {
        0xd192e819u32
    } else if i == 45 {
        0xd6990624u32
    } else if i == 46 {
        0xf40e3585u32
    } else if i == 47 {
        0x106aa070u32
    } else if i == 48 {
        0x19a4c116u32
    } else if i == 49 {
        0x1e376c08u32
    } else if i == 50 {
        0x2748774cu32
    } else if i == 51 {
        0x34b0bcb5u32
    } else if i == 52 {
        0x391c0cb3u32
    } else if i == 53 {
        0x4ed8aa4au32
    } else if i == 54 {
        0x5b9cca4fu32
    } else if i == 55 {
        0x682e6ff3u32
    } else if i == 56 {
        0x748f82eeu32
    } else if i == 57 {
        0x78a5636fu32
    } else if i == 58 {
        0x84c87814u32
    } else if i == 59 {
        0x8cc70208u32
    } else if i == 60 {
        0x90befffau32
    } else if i == 61 {
        0xa4506cebu32
    } else if i == 62 {
        0xbef9a3f7u32
    } else {
        0xc67178f2u32
    }
}

/// The SHA-256 initial state words.
pub open spec fn sha_init_spec(i: int) -> u32 {
    if i == 0 {
        0x6a09e667u32
    } else if i == 1 {
        0xbb67ae85u32
    } else if i == 2 {
        0x3c6ef372u32
    } else if i == 3 {
        0xa54ff53au32
    } else if i == 4 {
        0x510e527fu32
    } else if i == 5 {
        0x9b05688cu32
    } else if i == 6 {
        0x1f83d9abu32
    } else {
        0x5be0cd19u32
    }
}

/// The SHA-256 initial state words, as executable lookups.
pub fn sha_init(i: usize) -> (r: u32)
    requires
        i < 8,
    ensures
        r == sha_init_spec(i as int),
{
    if i == 0 {
        0x6a09e667u32
    } else if i == 1 {
        0xbb67ae85u32
    } else if i == 2 {
        0x3c6ef372u32
    } else if i == 3 {
        0xa54ff53au32
    } else if i == 4 {
        0x510e527fu32
    } else if i == 5 {
        0x9b05688cu32
    } else if i == 6 {
        0x1f83d9abu32
    } else {
        0x5be0cd19u32
    }
}

/// A row with only the cycle register set.
pub open spec fn base_row(cycle: int) -> Seq<int> {
    Seq::new(16, |i: int| if i == IDX_CYCLE as int { cycle } else { 0int })
}

/// The init control row.
pub open spec fn row_init(cycle: int) -> Seq<int> {
    base_row(cycle).update(IDX_TYPE_INIT as int, 1)
}

/// The load control row for one image word.
pub open spec fn row_load(cycle: int, addr: u32, data: u32) -> Seq<int> {
    base_row(cycle).update(IDX_TYPE_LOAD as int, 1).update(IDX_P1 as int, addr as int / 4).update(
        IDX_P2 as int,
        if addr as int / 4 >= ROM_START_WORD as int {
            1int
        } else {
            0int
        },
    ).update(IDX_DATA1_LO as int, data as int % 0x10000).update(
        IDX_DATA1_HI as int,
        data as int / 0x10000,
    )
}

/// The reset control row carrying the entry address.
pub open spec fn row_reset(cycle: int, entry: u32) -> Seq<int> {
    base_row(cycle).update(IDX_TYPE_RESET as int, 1).update(IDX_P1 as int, entry as int % P as int)
}

/// The fini control row.
pub open spec fn row_fini(cycle: int) -> Seq<int> {
    base_row(cycle).update(IDX_TYPE_FINI as int, 1)
}

/// The body row at a cycle: the instruction rotator type plus the SHA
/// co-processor control signals for the cycle's schedule phase.
pub open spec fn row_body(cycle: int, base_cycle: int) -> Seq<int> {
    let inst_phase = (cycle - base_cycle) % 3;
    let sha_phase = (cycle - base_cycle) % 72;
    let typed = if inst_phase == 2 {
        base_row(cycle).update(IDX_TYPE_FINAL as int, 1)
    } else {
        base_row(cycle).update(IDX_TYPE_NORMAL as int, 1)
    };
    if sha_phase < 4 {
        let init1 = sha_init_spec(3 - sha_phase);
        let init2 = sha_init_spec(7 - sha_phase);
        typed.update(IDX_SHA_CTRL as int, 1).update(IDX_P1 as int, sha_phase).update(
            IDX_P2 as int,
            if sha_phase == 0 {
                1int
            } else {
                0int
            },
        ).update(IDX_DATA1_LO as int, init1 as int % 0x10000).update(
            IDX_DATA1_HI as int,
            init1 as int / 0x10000,
        ).update(IDX_DATA2_LO as int, init2 as int % 0x10000).update(
            IDX_DATA2_HI as int,
            init2 as int / 0x10000,
        )
    } else if sha_phase < 20 {
        let round = sha_round_spec(sha_phase - 4);
        typed.update(IDX_SHA_LOAD as int, 1).update(IDX_DATA1_LO as int, round as int % 0x10000)
            .update(IDX_DATA1_HI as int, round as int / 0x10000)
    } else if sha_phase < 68 {
        let round = sha_round_spec(sha_phase - 4);
        typed.update(IDX_SHA_MIX as int, 1).update(
            IDX_P1 as int,
            if sha_phase >= 64 {
                1int
            } else {
                0int
            },
        ).update(
            IDX_P2 as int,
            if sha_phase == 67 {
                1int
            } else {
                0int
            },
        ).update(IDX_DATA1_LO as int, round as int % 0x10000).update(
            IDX_DATA1_HI as int,
            round as int / 0x10000,
        )
    } else {
        typed.update(IDX_SHA_CTRL as int, 1).update(IDX_P1 as int, sha_phase - 68 + 4)
    }
}

/// The consumer of code rows: the constraint-system executor. Returning
/// `Ok(false)` ends the body.
pub trait StepHandler {
    fn step(&mut self, code: &[Fp], fini: usize) -> Result<bool, ExecError>;
}

/// Builds the control rows one cycle at a time and hands each to the step
/// handler.
pub struct CodeLoader<S: StepHandler> {
    cycle: u32,
    code: Vec<Fp>,
    step: S,
    /// The rows handed to the step handler so far, in order.
    rows: Ghost<Seq<Seq<int>>>,
}

impl<S: StepHandler> CodeLoader<S> {
    pub closed spec fn cycle(self) -> int {
        self.cycle as int
    }

    /// The rows handed to the step handler so far, in order.
    pub closed spec fn rows(self) -> Seq<Seq<int>> {
        self.rows@
    }

    pub closed spec fn handler(self) -> S {
        self.step
    }

    pub closed spec fn code_view(self) -> Seq<int> {
        Seq::new(self.code@.len() as nat, |i: int| self.code@[i]@)
    }

    pub open spec fn wf(self) -> bool {
        &&& self.code_view().len() == 16
        &&& 0 <= self.cycle() < P as int
    }

    pub fn new(step: S) -> (r: CodeLoader<S>)
        ensures
            r.wf(),
            r.cycle() == 0,
            r.rows() == Seq::<Seq<int>>::empty(),
    {
        let mut code: Vec<Fp> = Vec::new();
        let mut i: usize = 0;
        while i < CODE_SIZE
            invariant
                i <= 16,
                code@.len() == i,
            decreases 16 - i,
        {
            code.push(Fp::zero());
            i = i + 1;
        }
        CodeLoader { cycle: 0, code, step, rows: Ghost(Seq::empty()) }
    }

    /// The wrapped step handler, for reading back what it accumulated.
    pub fn into_handler(self) -> (r: S)
        ensures
            r == self.handler(),
    {
        self.step
    }

    /// Clear the row and stamp the current cycle.
    fn start(&mut self)
        requires
            old(self).wf(),
        ensures
            final(self).wf(),
            final(self).cycle() == old(self).cycle(),
            final(self).rows() == old(self).rows(),
            final(self).code_view() == base_row(old(self).cycle()),
    {
        let mut i: usize = 0;
        while i < CODE_SIZE
            invariant
                i <= 16,
                self.code@.len() == 16,
                self.cycle == old(self).cycle,
                self.rows == old(self).rows,
                forall|j: int| 0 <= j < i ==> self.code@[j]@ == 0,
            decreases 16 - i,
        {
            self.code[i] = Fp::zero();
            i = i + 1;
        }
        self.code[IDX_CYCLE] = Fp::new(self.cycle);
        proof {
            assert(self.code_view() =~= base_row(old(self).cycle()));
        }
    }

    /// Advance one mandatory cycle; the handler must keep going.
    fn next(&mut self) -> (r: Result<(), ExecError>)
        requires
            old(self).wf(),
        ensures
            final(self).wf(),
            final(self).code_view() == old(self).code_view(),
            old(self).cycle() <= final(self).cycle() <= old(self).cycle() + 1,
            r is Ok ==> final(self).cycle() == old(self).cycle() + 1,
            r is Ok ==> final(self).rows() == old(self).rows().push(old(self).code_view()),
            final(self).rows() == old(self).rows() || final(self).rows() == old(
            self).rows().push(old(self).code_view()),
    {
        if self.cycle >= P - 1 {
            return Err(ExecError::Internal);
        }
        self.cycle = self.cycle + 1;
        self.rows = Ghost(self.rows@.push(self.code_view()));
        match self.step.step(self.code.as_slice(), 0) {
            Ok(true) => Ok(()),
            Ok(false) => Err(ExecError::Internal),
            Err(e) => Err(e),
        }
    }

    /// Advance one body cycle; the handler says whether to keep going.
    fn next_fini(&mut self, fini: usize) -> (r: Result<bool, ExecError>)
        requires
            old(self).wf(),
        ensures
            final(self).wf(),
            final(self).code_view() == old(self).code_view(),
            old(self).cycle() <= final(self).cycle() <= old(self).cycle() + 1,
            r is Ok ==> final(self).cycle() == old(self).cycle() + 1,
            r is Ok ==> final(self).rows() == old(self).rows().push(old(self).code_view()),
            final(self).rows() == old(self).rows() || final(self).rows() == old(
            self).rows().push(old(self).code_view()),
    {
        if self.cycle >= P - 1 {
            return Err(ExecError::Internal);
        }
        self.cycle = self.cycle + 1;
        self.rows = Ghost(self.rows@.push(self.code_view()));
        self.step.step(self.code.as_slice(), fini)
    }

    /// Emit the init cycle.
    pub fn init(&mut self) -> (r: Result<(), ExecError>)
        requires
            old(self).wf(),
        ensures
            final(self).wf(),
            final(self).code_view() == row_init(old(self).cycle()),
            r is Ok ==> final(self).cycle() == old(self).cycle() + 1,
            r is Ok ==> final(self).rows() == old(self).rows().push(row_init(old(self).cycle())),
    {
        self.start();
        self.code[IDX_TYPE_INIT] = Fp::one();
        proof {
            assert(self.code_view() =~= row_init(old(self).cycle()));
        }
        self.next()
    }

    /// Emit one image-word load cycle.
    pub fn load(&mut self, addr: u32, data: u32) -> (r: Result<(), ExecError>)
        requires
            old(self).wf(),
        ensures
            final(self).wf(),
            final(self).code_view() == row_load(old(self).cycle(), addr, data),
            r is Ok ==> final(self).cycle() == old(self).cycle() + 1,
            r is Ok ==> final(self).rows() == old(self).rows().push(row_load(old(self).cycle(), addr, data)),
    {
        let (lo, hi) = crate::machine::split_word(data);
        self.start();
        self.code[IDX_TYPE_LOAD] = Fp::one();
        self.code[IDX_P1] = Fp::new(addr / 4);
        self.code[IDX_P2] = if addr / 4 >= ROM_START_WORD {
            Fp::one()
        } else {
            Fp::zero()
        };
        self.code[IDX_DATA1_LO] = lo;
        self.code[IDX_DATA1_HI] = hi;
        proof {
            assert(addr as int / 4 < P as int);
            assert(self.code_view() =~= row_load(old(self).cycle(), addr, data));
        }
        self.next()
    }

    /// Emit the reset cycle carrying the entry address.
    pub fn reset(&mut self, entry: u32) -> (r: Result<(), ExecError>)
        requires
            old(self).wf(),
        ensures
            final(self).wf(),
            final(self).code_view() == row_reset(old(self).cycle(), entry),
            r is Ok ==> final(self).cycle() == old(self).cycle() + 1,
            r is Ok ==> final(self).rows() == old(self).rows().push(row_reset(old(self).cycle(), entry)),
    {
        self.start();
        self.code[IDX_TYPE_RESET] = Fp::one();
        self.code[IDX_P1] = Fp::new(entry);
        proof {
            assert(self.code_view() =~= row_reset(old(self).cycle(), entry));
        }
        self.next()
    }

    /// Emit the fini cycle.
    pub fn fini(&mut self) -> (r: Result<(), ExecError>)
        requires
            old(self).wf(),
        ensures
            final(self).wf(),
            final(self).code_view() == row_fini(old(self).cycle()),
            r is Ok ==> final(self).cycle() == old(self).cycle() + 1,
            r is Ok ==> final(self).rows() == old(self).rows().push(row_fini(old(self).cycle())),
    {
        self.start();
        self.code[IDX_TYPE_FINI] = Fp::one();
        proof {
            assert(self.code_view() =~= row_fini(old(self).cycle()));
        }
        self.next()
    }

    /// Emit body cycles until the handler stops: each carries its
    /// instruction-rotator type and the SHA schedule signals of its phase.
    pub fn body(&mut self) -> (r: Result<(), ExecError>)
        requires
            old(self).wf(),
        ensures
            final(self).wf(),
            old(self).rows().len() <= final(self).rows().len(),
            forall|j: int|
                0 <= j < old(self).rows().len() ==> final(self).rows()[j] == old(self).rows()[j],
            r is Ok ==> ({
                let base = old(self).cycle();
                let oldn = old(self).rows().len() as int;
                let k = final(self).rows().len() - oldn;
                &&& k >= 1
                &&& final(self).cycle() == base + k
                &&& forall|j: int|
                    oldn <= j < final(self).rows().len() ==> #[trigger] final(self).rows()[j]
                        == row_body(base + (j - oldn), base)
            }),
    {
        let base_cycle = self.cycle;
        loop
            invariant
                self.wf(),
                base_cycle as int == old(self).cycle(),
                base_cycle <= self.cycle(),
                self.rows().len() == old(self).rows().len() + (self.cycle() - base_cycle as int),
                forall|j: int|
                    0 <= j < old(self).rows().len() ==> self.rows()[j] == old(self).rows()[j],
                forall|j: int|
                    old(self).rows().len() <= j < self.rows().len() ==> #[trigger] self.rows()[j]
                        == row_body(
                        base_cycle as int + (j - old(self).rows().len()),
                        base_cycle as int,
                    ),
            ensures
                self.wf(),
                base_cycle as int == old(self).cycle(),
                base_cycle < self.cycle(),
                self.rows().len() == old(self).rows().len() + (self.cycle() - base_cycle as int),
                forall|j: int|
                    0 <= j < old(self).rows().len() ==> self.rows()[j] == old(self).rows()[j],
                forall|j: int|
                    old(self).rows().len() <= j < self.rows().len() ==> #[trigger] self.rows()[j]
                        == row_body(
                        base_cycle as int + (j - old(self).rows().len()),
                        base_cycle as int,
                    ),
            decreases P as int - self.cycle(),
        {
            let ghost pre = self.cycle();
            self.start();

            let inst_phase = (self.cycle - base_cycle) % 3;
            if inst_phase == 2 {
                self.code[IDX_TYPE_FINAL] = Fp::one();
            } else {
                self.code[IDX_TYPE_NORMAL] = Fp::one();
            }

            let sha_phase = (self.cycle - base_cycle) % 72;
            if sha_phase < 4 {
                let init1 = crate::machine::split_word(sha_init((3 - sha_phase) as usize));
                let init2 = crate::machine::split_word(sha_init((7 - sha_phase) as usize));
                self.code[IDX_SHA_CTRL] = Fp::one();
                self.code[IDX_P1] = Fp::new(sha_phase);
                self.code[IDX_P2] = if sha_phase == 0 {
                    Fp::one()
                } else {
                    Fp::zero()
                };
                self.code[IDX_DATA1_LO] = init1.0;
                self.code[IDX_DATA1_HI] = init1.1;
                self.code[IDX_DATA2_LO] = init2.0;
                self.code[IDX_DATA2_HI] = init2.1;
            } else if sha_phase < 20 {
                let round = crate::machine::split_word(sha_round((sha_phase - 4) as usize));
                self.code[IDX_SHA_LOAD] = Fp::one();
                self.code[IDX_DATA1_LO] = round.0;
                self.code[IDX_DATA1_HI] = round.1;
            } else if sha_phase < 68 {
                let round = crate::machine::split_word(sha_round((sha_phase - 4) as usize));
                self.code[IDX_SHA_MIX] = Fp::one();
                self.code[IDX_P1] = if sha_phase >= 64 {
                    Fp::one()
                } else {
                    Fp::zero()
                };
                self.code[IDX_P2] = if sha_phase == 67 {
                    Fp::one()
                } else {
                    Fp::zero()
                };
                self.code[IDX_DATA1_LO] = round.0;
                self.code[IDX_DATA1_HI] = round.1;
            } else {
                self.code[IDX_SHA_CTRL] = Fp::one();
                self.code[IDX_P1] = Fp::new(sha_phase - 68 + 4);
            }
            proof {
                assert(self.code_view() =~= row_body(pre, base_cycle as int));
            }

            let keep_going = match self.next_fini(1) {
                Ok(b) => b,
                Err(e) => {
                    return Err(e);
                },
            };
            if !keep_going {
                break;
            }
        }
        Ok(())
    }
}

/// Drive a full load: the init cycle, one load cycle per image word in
/// address order, the reset cycle at the entry address, body cycles on the
/// schedule until the handler stops, and the fini cycle, with consecutive
/// cycle numbers from zero. Returns the handler with whatever it
/// accumulated, and the emitted row log.
pub fn load_code<S: StepHandler>(entry: u32, image: &Vec<(u32, u32)>, step: S) -> (r: Result<
    (S, Ghost<Seq<Seq<int>>>),
    ExecError,
>)
    ensures
        r matches Ok(p) ==> ({
            let log = p.1@;
            let n = image@.len() as int;
            &&& log.len() >= n + 4
            &&& log[0] == row_init(0)
            &&& forall|i: int|
                1 <= i <= n ==> #[trigger] log[i] == row_load(i, image@[i - 1].0, image@[i - 1].1)
            &&& log[n + 1] == row_reset(n + 1, entry)
            &&& forall|k: int|
                n + 2 <= k < log.len() - 1 ==> #[trigger] log[k] == row_body(k, n + 2)
            &&& log[log.len() - 1] == row_fini(log.len() - 1)
        }),
{
    let mut loader = CodeLoader::new(step);
    match loader.init() {
        Ok(()) => {},
        Err(e) => {
            return Err(e);
        },
    }
    let n = image.len();
    let mut i: usize = 0;
    while i < n
        invariant
            i <= n,
            loader.wf(),
            n == image@.len(),
            loader.cycle() == 1 + i,
            loader.rows().len() == 1 + i,
            loader.rows()[0] == row_init(0),
            forall|j: int|
                1 <= j <= i ==> #[trigger] loader.rows()[j] == row_load(
                    j,
                    image@[j - 1].0,
                    image@[j - 1].1,
                ),
        decreases n - i,
    {
        let (addr, data) = image[i];
        match loader.load(addr, data) {
            Ok(()) => {},
            Err(e) => {
                return Err(e);
            },
        }
        i = i + 1;
    }
    let ghost log_loads = loader.rows();
    match loader.reset(entry) {
        Ok(()) => {},
        Err(e) => {
            return Err(e);
        },
    }
    let ghost log_reset = loader.rows();
    match loader.body() {
        Ok(()) => {},
        Err(e) => {
            return Err(e);
        },
    }
    let ghost log_body = loader.rows();
    match loader.fini() {
        Ok(()) => {},
        Err(e) => {
            return Err(e);
        },
    }
    let ghost log = loader.rows();
    proof {
        let ni = image@.len() as int;
        assert(log_reset == log_loads.push(row_reset(ni + 1, entry)));
        assert(log == log_body.push(row_fini(log.len() - 1)));
        assert(log[0] == row_init(0));
        assert(log[ni + 1] == row_reset(ni + 1, entry));
        assert forall|i2: int| 1 <= i2 <= ni implies #[trigger] log[i2] == row_load(
            i2,
            image@[i2 - 1].0,
            image@[i2 - 1].1,
        ) by {
            assert(log_loads[i2] == row_load(i2, image@[i2 - 1].0, image@[i2 - 1].1));
            assert(log_reset[i2] == log_loads[i2]);
            assert(log_body[i2] == log_reset[i2]);
        }
        assert forall|k: int| ni + 2 <= k < log.len() - 1 implies #[trigger] log[k] == row_body(
            k,
            ni + 2,
        ) by {
            assert(log_body[k] == row_body(ni + 2 + (k - (ni + 2)), ni + 2));
        }
    }
    Ok((loader.into_handler(), Ghost(log)))
}

} // verus!
