//! The machine context that the constraint system drives while tracing the
//! guest: memory reads and writes with the event bookkeeping, the popped
//! memory-consistency events, 32-bit division, guest logging, and the
//! host callbacks behind the memory-mapped I/O ports.

use vstd::prelude::*;
use crate::errors::ExecError;
use crate::fmtstr::{format_c_style, fmt_spec};
use crate::fp::{Fp, P, words_of_fps};
use crate::fp4::{Fp4, fp4s_from_words, fp4s_to_words};
use crate::memory::{MemoryEvent, MemoryState, spec_record, history_touches};
use crate::platform::{ROM_START_WORD, INPUT_START, INPUT_END, GPIO_COMMIT, GPIO_FAULT, GPIO_LOG,
    GPIO_GETKEY, GPIO_SENDRECV_CHANNEL, GPIO_SENDRECV_SIZE, GPIO_SENDRECV_ADDR, GPIO_SHA,
    GPIO_CYCLECOUNT, GPIO_INSECURESHACOMPRESS, GPIO_INSECURESHAHASH, GPIO_COMPUTE_POLY,
    GPIO_POLY_EVAL, GPIO_FFPU, align_up};
use crate::poly::poly_eval;
use crate::sha::{hash_raw_words, words_to_le_bytes};

verus! {

/// A pointer-and-length pair describing a guest memory region.
#[derive(Clone, Copy, Debug, PartialEq, Eq, Structural)]
pub struct SliceDescriptor {
    pub size: u32,
    pub addr: u32,
}

/// The descriptor handed to the SHA port: a packed type-and-count word, a
/// request index, the source region, and the digest destination.
#[derive(Clone, Copy, Debug, PartialEq, Eq, Structural)]
pub struct SHADescriptor {
    pub type_count: u32,
    pub idx: u32,
    pub source: u32,
    pub digest: u32,
}

/// The host side of guest I/O: callbacks triggered by the I/O ports.
/// String-carrying callbacks receive the raw UTF-8 bytes. Each handler
/// carries an abstract model of what it has received, so that callers can
/// state exactly what the ports hand over.
pub trait IoHandler {
    /// The words committed to the receipt journal so far.
    open spec fn journal(&self) -> Seq<u32> {
        vstd::pervasive::arbitrary()
    }

    /// The fault messages received so far.
    open spec fn fault_msgs(&self) -> Seq<Seq<u8>> {
        vstd::pervasive::arbitrary()
    }

    /// The log lines received so far.
    open spec fn log_lines(&self) -> Seq<Seq<u8>> {
        vstd::pervasive::arbitrary()
    }

    /// The (channel, request) pairs sent to the host so far.
    open spec fn sent(&self) -> Seq<(u32, Seq<u8>)> {
        vstd::pervasive::arbitrary()
    }

    /// Append a committed slice to the receipt journal.
    fn on_commit(&mut self, buf: &[u32]) -> (r: Result<(), ExecError>)
        ensures
            r is Ok ==> final(self).journal() == old(self).journal() + buf@,
    ;

    /// The guest raised a fault with a message.
    fn on_fault(&mut self, msg: &[u8]) -> (r: Result<(), ExecError>)
        ensures
            final(self).fault_msgs() == old(self).fault_msgs() + seq![msg@],
    ;

    /// Duplex channel: the guest sends bytes, the host replies.
    fn on_txrx(&mut self, channel: u32, buf: &[u8]) -> (r: Result<Vec<u8>, ExecError>)
        ensures
            final(self).sent() == old(self).sent() + seq![(channel, buf@)],
    ;

    /// Forward a guest log line.
    fn on_log(&mut self, msg: &[u8])
        ensures
            final(self).log_lines() == old(self).log_lines() + seq![msg@],
    ;

    /// Evaluate the constraint polynomial through the circuit.
    fn on_compute_poly(&mut self, eval_u: &[Fp4], poly_mix: Fp4, out_vals: &[Fp], mix: &[Fp])
        -> Result<Fp4, ExecError>;

    /// Run a guest-supplied field program over argument buffers.
    fn on_ffpu(&mut self, code: &[u32], args: Vec<Vec<Fp4>>) -> Result<Vec<Vec<Fp4>>, ExecError>;
}

/// A step request from the constraint system, dispatched as a tagged
/// variant.
#[derive(Clone, Copy, Debug, PartialEq, Eq, Structural)]
pub enum StepOp {
    Divide32,
    Log,
    MemCheck,
    MemRead,
    MemWrite,
}

/// Split a word into its 16-bit halves, as field elements.
pub fn split_word(value: u32) -> (r: (Fp, Fp))
    ensures
        r.0@ == value as int % 0x10000,
        r.1@ == value as int / 0x10000,
{
    let lo = Fp::new(value % 0x10000);
    let hi = Fp::new(value / 0x10000);
    proof {
        assert(value as int % 0x10000 < P as int);
        assert(value as int / 0x10000 < P as int);
    }
    (lo, hi)
}

/// Merge two 16-bit halves back into a word.
pub fn merge_word(lo: Fp, hi: Fp) -> (r: u32)
    requires
        lo@ < 0x10000,
        hi@ < 0x10000,
    ensures
        r as int == lo@ + hi@ * 0x10000,
{
    lo.as_u32() + hi.as_u32() * 0x10000
}

/// The input-region staging step: where `bytes` land, zero-extended to the
/// next word boundary, and how far the staging offset advances. The third
/// component says whether the staging fits and stores cleanly.
pub open spec fn staged(m: Map<u32, u32>, h: Seq<crate::memory::MemoryEvent>, off: int, bytes: Seq<
    u8,
>) -> (Map<u32, u32>, int, bool) {
    let nwords = ((bytes.len() + 3) / 4) * 4;
    let fits = bytes.len() < INPUT_END && off + nwords < INPUT_END;
    let st = crate::memory::spec_store_region(m, h, off, bytes);
    if !fits {
        (m, off, false)
    } else {
        (st.0, if st.1 {
            off + nwords
        } else {
            off
        }, st.1)
    }
}

/// The bytes of a mapped region, zero where a byte is unmapped.
pub open spec fn region_bytes(m: Map<u32, u32>, a: int, n: int) -> Seq<u8> {
    Seq::new(
        n as nat,
        |i: int|
            match crate::memory::spec_load_byte(m, a + i) {
                Option::Some(b) => b,
                Option::None => 0u8,
            },
    )
}

/// Whether a whole byte region is mapped.
pub open spec fn region_readable(m: Map<u32, u32>, a: int, n: int) -> bool {
    &&& a + n <= 0x1_0000_0000
    &&& forall|i: int| a <= i < a + n ==> crate::memory::spec_load_byte(m, i) is Some
}

/// The (size, addr) descriptor stored at a guest address, if readable.
pub open spec fn desc_at(m: Map<u32, u32>, a: u32) -> Option<SliceDescriptor> {
    if a <= 0xFFFF_FFF8 && crate::memory::spec_load_u32(m, a) is Some
        && crate::memory::spec_load_u32(m, (a + 4) as u32) is Some {
        Some(
            SliceDescriptor {
                size: crate::memory::spec_load_u32(m, a).unwrap(),
                addr: crate::memory::spec_load_u32(m, (a + 4) as u32).unwrap(),
            },
        )
    } else {
        None
    }
}

/// The words a commit-port write designates: a descriptor at the written
/// value, then the word region it points at.
pub open spec fn commit_words(m: Map<u32, u32>, data: u32) -> Option<Seq<u32>> {
    match desc_at(m, data) {
        Option::None => None,
        Option::Some(d) => crate::memory::spec_load_words(
            m,
            d.addr as int,
            (d.size as int + 3) / 4,
        ),
    }
}

/// The zero-terminated byte string at a guest address, if readable.
pub open spec fn cstring_at(m: Map<u32, u32>, a: u32) -> Option<Seq<u8>> {
    match crate::memory::spec_strlen(m, a as int) {
        Option::None => None,
        Option::Some(n) => Some(region_bytes(m, a as int, n)),
    }
}

/// The (channel, request bytes) a send-receive-port write designates.
pub open spec fn sendrecv_req(m: Map<u32, u32>, data: u32) -> Option<(u32, Seq<u8>)> {
    if crate::memory::spec_load_u32(m, GPIO_SENDRECV_CHANNEL) is Some && crate::memory::spec_load_u32(
        m,
        GPIO_SENDRECV_SIZE,
    ) is Some {
        let ch = crate::memory::spec_load_u32(m, GPIO_SENDRECV_CHANNEL).unwrap();
        let sz = crate::memory::spec_load_u32(m, GPIO_SENDRECV_SIZE).unwrap();
        if region_readable(m, data as int, sz as int) {
            Some((ch, region_bytes(m, data as int, sz as int)))
        } else {
            None
        }
    } else {
        None
    }
}

/// The four-word SHA descriptor stored at a guest address, if readable.
pub open spec fn sha_desc_at(m: Map<u32, u32>, a: u32) -> Option<SHADescriptor> {
    if a <= 0xFFFF_FFF0 && crate::memory::spec_load_u32(m, a) is Some
        && crate::memory::spec_load_u32(m, (a + 4) as u32) is Some
        && crate::memory::spec_load_u32(m, (a + 8) as u32) is Some
        && crate::memory::spec_load_u32(m, (a + 12) as u32) is Some {
        Some(
            SHADescriptor {
                type_count: crate::memory::spec_load_u32(m, a).unwrap(),
                idx: crate::memory::spec_load_u32(m, (a + 4) as u32).unwrap(),
                source: crate::memory::spec_load_u32(m, (a + 8) as u32).unwrap(),
                digest: crate::memory::spec_load_u32(m, (a + 12) as u32).unwrap(),
            },
        )
    } else {
        None
    }
}

/// The SHA port's effect on memory: hash the designated word region and
/// store the digest word-wise at the destination. The flag says whether
/// the region loads, the destination is aligned and in range, and the
/// store is clean.
pub open spec fn sha_effect(
    m: Map<u32, u32>,
    h: Seq<crate::memory::MemoryEvent>,
    desc: SHADescriptor,
) -> (Map<u32, u32>, bool) {
    let count = (desc.type_count % 0x10000) as int;
    match crate::memory::spec_load_words(m, desc.source as int, (count * 64 + 3) / 4) {
        Option::None => (m, false),
        Option::Some(ws) => {
            if desc.digest > 0xFFFF_FFD0 || desc.digest as int % 4 != 0 {
                (m, false)
            } else {
                crate::memory::spec_store_words(
                    m,
                    h,
                    desc.digest as int,
                    crate::sha::digest_of_words(ws),
                )
            }
        },
    }
}

/// Whether a word address is one of the I/O ports.
pub open spec fn is_gpio_word(key: u32) -> bool {
    ||| key == GPIO_COMMIT as int / 4
    ||| key == GPIO_FAULT as int / 4
    ||| key == GPIO_LOG as int / 4
    ||| key == GPIO_GETKEY as int / 4
    ||| key == GPIO_SENDRECV_ADDR as int / 4
    ||| key == GPIO_SHA as int / 4
    ||| key == GPIO_CYCLECOUNT as int / 4
    ||| key == GPIO_INSECURESHACOMPRESS as int / 4
    ||| key == GPIO_INSECURESHAHASH as int / 4
    ||| key == GPIO_COMPUTE_POLY as int / 4
    ||| key == GPIO_POLY_EVAL as int / 4
    ||| key == GPIO_FFPU as int / 4
}

/// The executor's machine: guest memory plus the host's I/O handler.
pub struct MachineContext<H: IoHandler> {
    memory: MemoryState,
    io: H,
    cur_host_to_guest_offset: usize,
}

impl<H: IoHandler> MachineContext<H> {
    pub closed spec fn memory(self) -> MemoryState {
        self.memory
    }

    pub closed spec fn io(self) -> H {
        self.io
    }

    /// Where the next host-to-guest bytes will be staged.
    pub closed spec fn input_offset(self) -> int {
        self.cur_host_to_guest_offset as int
    }

    pub open spec fn wf(self) -> bool {
        &&& self.memory().wf()
        &&& INPUT_START as int <= self.input_offset() <= INPUT_END as int
    }

    pub fn new(io: H) -> (r: MachineContext<H>)
        ensures
            r.wf(),
            r.memory().memory() == Map::<u32, u32>::empty(),
            r.memory().history() == Seq::<MemoryEvent>::empty(),
            r.io() == io,
            r.input_offset() == INPUT_START as int,
    {
        MachineContext {
            memory: MemoryState::new(),
            io,
            cur_host_to_guest_offset: INPUT_START as usize,
        }
    }

    /// The I/O handler, for reading back what the guest produced.
    pub fn io_ref(&self) -> (r: &H)
        ensures
            r == self.io(),
    {
        &self.io
    }

    /// The guest memory, for staging and inspection.
    pub fn memory_ref(&self) -> (r: &MemoryState)
        ensures
            r == self.memory(),
    {
        &self.memory
    }

    /// Host-side staging access to guest memory.
    pub fn memory_mut(&mut self) -> (r: &mut MemoryState)
        ensures
            *r == old(self).memory(),
            final(self).memory() == *final(r),
            final(self).io() == old(self).io(),
            final(self).input_offset() == old(self).input_offset(),
    {
        &mut self.memory
    }

    /// 32-bit division with the RISC-V convention for zero divisors.
    pub fn divide32(&self, numer: (Fp, Fp), denom: (Fp, Fp)) -> (r: ((Fp, Fp), (Fp, Fp)))
        requires
            numer.0@ < 0x10000,
            numer.1@ < 0x10000,
            denom.0@ < 0x10000,
            denom.1@ < 0x10000,
        ensures
            ({
                let n = numer.0@ + numer.1@ * 0x10000;
                let d = denom.0@ + denom.1@ * 0x10000;
                let quot = if d == 0 {
                    0xffffffffint
                } else {
                    n / d
                };
                let rem = if d == 0 {
                    n
                } else {
                    n % d
                };
                &&& r.0.0@ == quot % 0x10000
                &&& r.0.1@ == quot / 0x10000
                &&& r.1.0@ == rem % 0x10000
                &&& r.1.1@ == rem / 0x10000
            }),
    {
        let n = merge_word(numer.0, numer.1);
        let d = merge_word(denom.0, denom.1);
        let (quot, rem) = if d == 0 {
            (0xffffffffu32, n)
        } else {
            (n / d, n % d)
        };
        (split_word(quot), split_word(rem))
    }

    /// Pop the least remaining memory event for the consistency argument:
    /// cycle, word address, write flag, and the data halves.
    pub fn mem_check(&mut self) -> (r: Result<(Fp, Fp, Fp, Fp, Fp), ExecError>)
        requires
            old(self).wf(),
        ensures
            final(self).wf(),
            final(self).io() == old(self).io(),
            final(self).input_offset() == old(self).input_offset(),
            final(self).memory().memory() == old(self).memory().memory(),
            old(self).memory().history().len() == 0 ==> r == Result::<
                (Fp, Fp, Fp, Fp, Fp),
                ExecError,
            >::Err(ExecError::Internal) && final(self).memory().history() == old(
            self).memory().history(),
            old(self).memory().history().len() > 0 ==> ({
                let e = old(self).memory().history()[0];
                &&& final(self).memory().history() == old(self).memory().history().subrange(
                    1,
                    old(self).memory().history().len() as int,
                )
                &&& r matches Ok(v) && v.0@ == e.cycle as int % P as int && v.1@ == e.addr as int
                    % P as int && v.2@ == (if e.is_write {
                    1int
                } else {
                    0int
                }) && v.3@ == e.data as int % 0x10000 && v.4@ == e.data as int / 0x10000
            }),
    {
        if self.memory.history_len() == 0 {
            return Err(ExecError::Internal);
        }
        let e = self.memory.pop_history();
        let (lo, hi) = split_word(e.data);
        let flag = if e.is_write {
            Fp::one()
        } else {
            Fp::zero()
        };
        Ok((Fp::new(e.cycle), Fp::new(e.addr), flag, lo, hi))
    }

    /// Read a word for the guest: an untouched word reads as zero and
    /// becomes mapped; the access is recorded.
    pub fn mem_read(&mut self, cycle: Fp, addr: Fp) -> (r: (Fp, Fp))
        requires
            old(self).wf(),
        ensures
            final(self).wf(),
            final(self).io() == old(self).io(),
            final(self).input_offset() == old(self).input_offset(),
            ({
                let key = addr@ as u32;
                let data = if old(self).memory().memory().contains_key(key) {
                    old(self).memory().memory()[key]
                } else {
                    0u32
                };
                let e = MemoryEvent {
                    cycle: cycle@ as u32,
                    addr: key,
                    data,
                    is_write: false,
                };
                &&& final(self).memory().memory() == old(self).memory().memory().insert(key, data)
                &&& final(self).memory().history() == spec_record(old(self).memory().history(), e)
                &&& r.0@ == data as int % 0x10000
                &&& r.1@ == data as int / 0x10000
            }),
    {
        proof {
            use_type_invariant(&addr);
            crate::fp::lemma_in_field(addr);
            use_type_invariant(&cycle);
            crate::fp::lemma_in_field(cycle);
        }
        let key = addr.as_u32();
        let data = match self.memory.get_word(key) {
            Some(w) => w,
            None => 0,
        };
        self.memory.set_word(key, data);
        self.memory.record(
            MemoryEvent { cycle: cycle.as_u32(), addr: key, data, is_write: false },
        );
        split_word(data)
    }

    /// Write a word for the guest. The access is recorded first; a second
    /// store of a different value into write-once memory is a fault, and
    /// a store to an I/O port triggers the host callback.
    pub fn mem_write(&mut self, cycle: Fp, addr: Fp, value: (Fp, Fp)) -> (r: Result<
        (),
        ExecError,
    >)
        requires
            old(self).wf(),
            value.0@ < 0x10000,
            value.1@ < 0x10000,
        ensures
            final(self).wf(),
            ({
                let key = addr@ as u32;
                let data = (value.0@ + value.1@ * 0x10000) as u32;
                let e = MemoryEvent {
                    cycle: cycle@ as u32,
                    addr: key,
                    data,
                    is_write: key < ROM_START_WORD,
                };
                let conflict = key >= ROM_START_WORD && old(self).memory().memory().contains_key(
                    key,
                ) && old(self).memory().memory()[key] != data;
                &&& conflict ==> r == Result::<(), ExecError>::Err(ExecError::GuestFault) && final(
                self).memory().memory() == old(self).memory().memory() && final(
                self).io() == old(self).io()
                &&& (!conflict && !is_gpio_word(key)) ==> r is Ok && final(self).memory().memory()
                    == old(self).memory().memory().insert(key, data) && final(
                self).io() == old(self).io() && final(self).input_offset() == old(
                self).input_offset()
                &&& final(self).memory().history() == spec_record(old(self).memory().history(), e)
                &&& !conflict ==> final(self).memory().memory().contains_key(key) && final(
                self).memory().memory()[key] == data
            }),
    {
        proof {
            use_type_invariant(&addr);
            crate::fp::lemma_in_field(addr);
            use_type_invariant(&cycle);
            crate::fp::lemma_in_field(cycle);
        }
        let key = addr.as_u32();
        let data = merge_word(value.0, value.1);
        let is_write = key < ROM_START_WORD;
        self.memory.record(MemoryEvent { cycle: cycle.as_u32(), addr: key, data, is_write });
        match self.memory.get_word(key) {
            Some(old_data) => {
                if old_data != data && !is_write {
                    return Err(ExecError::GuestFault);
                }
            },
            None => {},
        }
        self.memory.set_word(key, data);
        proof {
            crate::memory::lemma_record_touches(old(self).memory().history(), MemoryEvent {
                cycle: cycle@ as u32,
                addr: key,
                data,
                is_write: key < ROM_START_WORD,
            });
        }
        self.on_write(cycle.as_u32(), key, data)
    }

    /// Stage bytes into the guest's input region at the current offset,
    /// advancing the offset by the word-aligned length; overflow of the
    /// region is fatal.
    fn send_to_guest(&mut self, bytes: &[u8]) -> (r: Result<(), ExecError>)
        requires
            old(self).wf(),
        ensures
            final(self).wf(),
            final(self).io() == old(self).io(),
            final(self).memory().history() == old(self).memory().history(),
            old(self).input_offset() <= final(self).input_offset(),
            ({
                let eff = staged(
                    old(self).memory().memory(),
                    old(self).memory().history(),
                    old(self).input_offset(),
                    bytes@,
                );
                &&& final(self).memory().memory() == eff.0
                &&& final(self).input_offset() == eff.1
                &&& r is Ok <==> eff.2
            }),
            r is Err ==> r == Result::<(), ExecError>::Err(ExecError::GuestFault) || r
                == Result::<(), ExecError>::Err(ExecError::HostIO),
            forall|k: u32|
                history_touches(old(self).memory().history(), k) && old(
                self).memory().memory().contains_key(k) ==> final(self).memory().memory().contains_key(
                    k,
                ) && final(self).memory().memory()[k] == old(self).memory().memory()[k],
    {
        if bytes.len() >= (INPUT_END as usize) {
            return Err(ExecError::HostIO);
        }
        let nwords = align_up(bytes.len(), 4);
        if self.cur_host_to_guest_offset + nwords >= INPUT_END as usize {
            return Err(ExecError::HostIO);
        }
        proof {
            assert forall|k: u32|
                history_touches(old(self).memory().history(), k) && old(
                self).memory().memory().contains_key(k) implies crate::memory::spec_store_region(
                old(self).memory().memory(),
                old(self).memory().history(),
                old(self).input_offset(),
                bytes@,
            ).0.contains_key(k) && crate::memory::spec_store_region(
                old(self).memory().memory(),
                old(self).memory().history(),
                old(self).input_offset(),
                bytes@,
            ).0[k] == old(self).memory().memory()[k] by {
                crate::memory::lemma_store_region_preserves_touched(
                    old(self).memory().memory(),
                    old(self).memory().history(),
                    old(self).input_offset(),
                    bytes@,
                    k,
                );
            }
        }
        match self.memory.store_region(self.cur_host_to_guest_offset as u32, bytes) {
            Ok(()) => {},
            Err(e) => {
                return Err(e);
            },
        }
        self.cur_host_to_guest_offset = self.cur_host_to_guest_offset + nwords;
        Ok(())
    }

    /// Read a two-word (pointer, length) descriptor.
    fn read_slice_descriptor(&self, addr: u32) -> (r: Result<SliceDescriptor, ExecError>)
        ensures
            r is Ok <==> desc_at(self.memory().memory(), addr) is Some,
            r matches Ok(d) ==> desc_at(self.memory().memory(), addr) == Some(d),
            r is Err ==> r == Result::<SliceDescriptor, ExecError>::Err(ExecError::GuestFault),
    {
        if addr > 0xFFFF_FFF8u32 {
            return Err(ExecError::GuestFault);
        }
        let size = match self.memory.load_u32(addr) {
            Ok(w) => w,
            Err(e) => {
                return Err(e);
            },
        };
        let a = match self.memory.load_u32(addr + 4) {
            Ok(w) => w,
            Err(e) => {
                return Err(e);
            },
        };
        Ok(SliceDescriptor { size, addr: a })
    }

    /// Load a descriptor-designated region as extension field elements.
    fn load_fp4_region(&self, desc: &SliceDescriptor) -> (r: Result<Vec<Fp4>, ExecError>)
        ensures
            r is Err ==> r == Result::<Vec<Fp4>, ExecError>::Err(ExecError::GuestFault),
    {
        let words = match self.memory.load_region_u32(desc.addr, desc.size) {
            Ok(w) => w,
            Err(e) => {
                return Err(e);
            },
        };
        if words.len() % 4 != 0 {
            return Err(ExecError::GuestFault);
        }
        Ok(fp4s_from_words(words.as_slice()))
    }

    /// Load a descriptor-designated region as base field elements.
    fn load_fp_region(&self, desc: &SliceDescriptor) -> (r: Result<Vec<Fp>, ExecError>)
        ensures
            r is Err ==> r == Result::<Vec<Fp>, ExecError>::Err(ExecError::GuestFault),
    {
        let words = match self.memory.load_region_u32(desc.addr, desc.size) {
            Ok(w) => w,
            Err(e) => {
                return Err(e);
            },
        };
        let mut out: Vec<Fp> = Vec::new();
        let mut i: usize = 0;
        while i < words.len()
            invariant
                i <= words@.len(),
            decreases words@.len() - i,
        {
            out.push(Fp::new(words[i]));
            i = i + 1;
        }
        Ok(out)
    }

    /// Dispatch a completed store to the I/O ports. A store to a plain
    /// address does nothing.
    #[verifier::rlimit(100)]
    #[verifier::spinoff_prover]
    fn on_write(&mut self, cycle: u32, key: u32, data: u32) -> (r: Result<(), ExecError>)
        requires
            old(self).wf(),
        ensures
            final(self).wf(),
            final(self).memory().history() == old(self).memory().history(),
            old(self).input_offset() <= final(self).input_offset(),
            !is_gpio_word(key) ==> r is Ok && *final(self) == *old(self),
            forall|k: u32|
                history_touches(old(self).memory().history(), k) && old(
                self).memory().memory().contains_key(k) ==> final(self).memory().memory().contains_key(
                    k,
                ) && final(self).memory().memory()[k] == old(self).memory().memory()[k],
            key == GPIO_COMMIT / 4 ==> ({
                let ws = commit_words(old(self).memory().memory(), data);
                &&& final(self).memory().memory() == old(self).memory().memory()
                &&& final(self).input_offset() == old(self).input_offset()
                &&& (ws is None ==> r == Result::<(), ExecError>::Err(ExecError::GuestFault)
                    && final(self).io() == old(self).io())
                &&& (ws is Some && r is Ok ==> final(self).io().journal() == old(
                self).io().journal() + ws.unwrap())
            }),
            key == GPIO_FAULT / 4 ==> ({
                let msg = cstring_at(old(self).memory().memory(), data);
                &&& final(self).memory().memory() == old(self).memory().memory()
                &&& final(self).input_offset() == old(self).input_offset()
                &&& (msg is None ==> r == Result::<(), ExecError>::Err(ExecError::GuestFault)
                    && final(self).io() == old(self).io())
                &&& (msg is Some ==> final(self).io().fault_msgs() == old(self).io().fault_msgs()
                    + seq![msg.unwrap()])
            }),
            key == GPIO_LOG / 4 ==> ({
                let msg = cstring_at(old(self).memory().memory(), data);
                &&& final(self).memory().memory() == old(self).memory().memory()
                &&& final(self).input_offset() == old(self).input_offset()
                &&& (msg is None ==> r == Result::<(), ExecError>::Err(ExecError::GuestFault)
                    && final(self).io() == old(self).io())
                &&& (msg is Some ==> r is Ok && final(self).io().log_lines() == old(
                self).io().log_lines() + seq![msg.unwrap()])
            }),
            key == GPIO_SENDRECV_ADDR / 4 ==> ({
                let req = sendrecv_req(old(self).memory().memory(), data);
                &&& (req is None ==> r == Result::<(), ExecError>::Err(ExecError::GuestFault)
                    && *final(self) == *old(self))
                &&& (req is Some ==> final(self).io().sent() == old(self).io().sent() + seq![
                    req.unwrap(),
                ])
            }),
            key == GPIO_SHA / 4 ==> ({
                let sd = sha_desc_at(old(self).memory().memory(), data);
                &&& final(self).input_offset() == old(self).input_offset()
                &&& final(self).io() == old(self).io()
                &&& (sd is None ==> r == Result::<(), ExecError>::Err(ExecError::GuestFault)
                    && final(self).memory().memory() == old(self).memory().memory())
                &&& (sd matches Some(d) ==> final(self).memory().memory() == sha_effect(
                    old(self).memory().memory(),
                    old(self).memory().history(),
                    d,
                ).0 && (r is Ok <==> sha_effect(
                    old(self).memory().memory(),
                    old(self).memory().history(),
                    d,
                ).1))
            }),
            key == GPIO_CYCLECOUNT / 4 ==> ({
                let eff = staged(
                    old(self).memory().memory(),
                    old(self).memory().history(),
                    old(self).input_offset(),
                    crate::sha::le_bytes_of_words(seq![cycle]),
                );
                &&& final(self).io() == old(self).io()
                &&& (data != 0 ==> r == Result::<(), ExecError>::Err(ExecError::GuestFault)
                    && *final(self) == *old(self))
                &&& (data == 0 ==> final(self).memory().memory() == eff.0 && final(
                self).input_offset() == eff.1 && (r is Ok <==> eff.2))
            }),
            key == GPIO_GETKEY / 4 ==> r == Result::<(), ExecError>::Err(ExecError::Unsupported)
                && *final(self) == *old(self),
    {
        if key == GPIO_COMMIT / 4 {
            // The value is a pointer to a (size, addr) descriptor for the
            // region being committed to the journal.
            let desc = match self.read_slice_descriptor(data) {
                Ok(d) => d,
                Err(e) => {
                    return Err(e);
                },
            };
            let buf = match self.memory.load_region_u32(desc.addr, desc.size) {
                Ok(b) => b,
                Err(e) => {
                    return Err(e);
                },
            };
            self.io.on_commit(buf.as_slice())
        } else if key == GPIO_FAULT / 4 {
            let len = match self.memory.strlen(data) {
                Ok(n) => n,
                Err(e) => {
                    return Err(e);
                },
            };
            proof {
                crate::memory::lemma_strlen_bytes(self.memory().memory(), data as int, len as int);
            }
            let buf = match self.memory.load_region(data, len as u32) {
                Ok(b) => b,
                Err(e) => {
                    return Err(e);
                },
            };
            proof {
                assert(buf@ =~= region_bytes(self.memory().memory(), data as int, len as int));
            }
            self.io.on_fault(buf.as_slice())
        } else if key == GPIO_LOG / 4 {
            let len = match self.memory.strlen(data) {
                Ok(n) => n,
                Err(e) => {
                    return Err(e);
                },
            };
            proof {
                crate::memory::lemma_strlen_bytes(self.memory().memory(), data as int, len as int);
            }
            let buf = match self.memory.load_region(data, len as u32) {
                Ok(b) => b,
                Err(e) => {
                    return Err(e);
                },
            };
            proof {
                assert(buf@ =~= region_bytes(self.memory().memory(), data as int, len as int));
            }
            self.io.on_log(buf.as_slice());
            Ok(())
        } else if key == GPIO_SENDRECV_ADDR / 4 {
            let channel = match self.memory.load_u32(GPIO_SENDRECV_CHANNEL) {
                Ok(w) => w,
                Err(e) => {
                    return Err(e);
                },
            };
            let size = match self.memory.load_u32(GPIO_SENDRECV_SIZE) {
                Ok(w) => w,
                Err(e) => {
                    return Err(e);
                },
            };
            let region = match self.memory.load_region(data, size) {
                Ok(b) => b,
                Err(e) => {
                    return Err(e);
                },
            };
            proof {
                assert(region@ =~= region_bytes(self.memory().memory(), data as int, size as int));
            }
            let result = match self.io.on_txrx(channel, region.as_slice()) {
                Ok(v) => v,
                Err(e) => {
                    return Err(e);
                },
            };
            if result.len() > u32::MAX as usize {
                return Err(ExecError::HostIO);
            }
            let len_words: Vec<u32> = vec![result.len() as u32];
            let len_bytes = words_to_le_bytes(len_words.as_slice());
            match self.send_to_guest(len_bytes.as_slice()) {
                Ok(()) => {},
                Err(e) => {
                    return Err(e);
                },
            }
            self.send_to_guest(result.as_slice())
        } else if key == GPIO_SHA / 4 {
            // The value points at a SHA descriptor.
            if data > 0xFFFF_FFF0u32 {
                return Err(ExecError::GuestFault);
            }
            let type_count = match self.memory.load_u32(data) {
                Ok(w) => w,
                Err(e) => {
                    return Err(e);
                },
            };
            let idx = match self.memory.load_u32(data + 4) {
                Ok(w) => w,
                Err(e) => {
                    return Err(e);
                },
            };
            let source = match self.memory.load_u32(data + 8) {
                Ok(w) => w,
                Err(e) => {
                    return Err(e);
                },
            };
            let digest = match self.memory.load_u32(data + 12) {
                Ok(w) => w,
                Err(e) => {
                    return Err(e);
                },
            };
            let desc = SHADescriptor { type_count, idx, source, digest };
            self.process_sha(&desc)
        } else if key == GPIO_CYCLECOUNT / 4 {
            if data != 0 {
                return Err(ExecError::GuestFault);
            }
            let words: Vec<u32> = vec![cycle];
            proof {
                assert(words@ =~= seq![cycle]);
            }
            let bytes = words_to_le_bytes(words.as_slice());
            self.send_to_guest(bytes.as_slice())
        } else if key == GPIO_INSECURESHACOMPRESS / 4 {
            // A cheaper hash for benchmarking only; no particular function
            // is pinned for it, so state and both block halves are hashed
            // together as one word run rather than chained through a raw
            // compression.
            if data > 0xFFFF_FFF4u32 {
                return Err(ExecError::GuestFault);
            }
            let state = match self.memory.load_u32(data) {
                Ok(w) => w,
                Err(e) => {
                    return Err(e);
                },
            };
            let half1 = match self.memory.load_u32(data + 4) {
                Ok(w) => w,
                Err(e) => {
                    return Err(e);
                },
            };
            let half2 = match self.memory.load_u32(data + 8) {
                Ok(w) => w,
                Err(e) => {
                    return Err(e);
                },
            };
            let mut words: Vec<u32> = Vec::new();
            match self.memory.load_region_u32(state, 32) {
                Ok(w) => {
                    words = w;
                },
                Err(e) => {
                    return Err(e);
                },
            }
            let mut rest: Vec<u32> = Vec::new();
            match self.memory.load_region_u32(half1, 32) {
                Ok(w) => {
                    rest = w;
                },
                Err(e) => {
                    return Err(e);
                },
            }
            words.append(&mut rest);
            let mut rest2: Vec<u32> = Vec::new();
            match self.memory.load_region_u32(half2, 32) {
                Ok(w) => {
                    rest2 = w;
                },
                Err(e) => {
                    return Err(e);
                },
            }
            words.append(&mut rest2);
            let digest = hash_raw_words(words.as_slice());
            let out_words: Vec<u32> = digest_words_vec(&digest);
            let bytes = words_to_le_bytes(out_words.as_slice());
            self.send_to_guest(bytes.as_slice())
        } else if key == GPIO_INSECURESHAHASH / 4 {
            if data > 0xFFFF_FFF4u32 {
                return Err(ExecError::GuestFault);
            }
            let state = match self.memory.load_u32(data) {
                Ok(w) => w,
                Err(e) => {
                    return Err(e);
                },
            };
            let start = match self.memory.load_u32(data + 4) {
                Ok(w) => w,
                Err(e) => {
                    return Err(e);
                },
            };
            let len = match self.memory.load_u32(data + 8) {
                Ok(w) => w,
                Err(e) => {
                    return Err(e);
                },
            };
            let state_words = match self.memory.load_region_u32(state, 32) {
                Ok(w) => w,
                Err(e) => {
                    return Err(e);
                },
            };
            let body = match self.memory.load_region(start, len) {
                Ok(b) => b,
                Err(e) => {
                    return Err(e);
                },
            };
            let mut bytes = words_to_le_bytes(state_words.as_slice());
            let mut body = body;
            bytes.append(&mut body);
            let digest = crate::sha::hash_bytes(bytes.as_slice());
            let out_words: Vec<u32> = digest_words_vec(&digest);
            let out_bytes = words_to_le_bytes(out_words.as_slice());
            self.send_to_guest(out_bytes.as_slice())
        } else if key == GPIO_COMPUTE_POLY / 4 {
            if data > 0xFFFF_FFE0u32 {
                return Err(ExecError::GuestFault);
            }
            let eval_u_desc = match self.read_slice_descriptor(data) {
                Ok(d) => d,
                Err(e) => {
                    return Err(e);
                },
            };
            let poly_mix_ptr = match self.memory.load_u32(data + 8) {
                Ok(w) => w,
                Err(e) => {
                    return Err(e);
                },
            };
            let out_desc = match self.read_slice_descriptor(data + 12) {
                Ok(d) => d,
                Err(e) => {
                    return Err(e);
                },
            };
            let mix_desc = match self.read_slice_descriptor(data + 20) {
                Ok(d) => d,
                Err(e) => {
                    return Err(e);
                },
            };
            let eval_u = match self.load_fp4_region(&eval_u_desc) {
                Ok(v) => v,
                Err(e) => {
                    return Err(e);
                },
            };
            let poly_mix_words = match self.memory.load_region_u32(poly_mix_ptr, 16) {
                Ok(w) => w,
                Err(e) => {
                    return Err(e);
                },
            };
            if poly_mix_words.len() != 4 {
                return Err(ExecError::GuestFault);
            }
            let poly_mix = Fp4::from_u32_words(poly_mix_words.as_slice());
            let out_vals = match self.load_fp_region(&out_desc) {
                Ok(v) => v,
                Err(e) => {
                    return Err(e);
                },
            };
            let mix = match self.load_fp_region(&mix_desc) {
                Ok(v) => v,
                Err(e) => {
                    return Err(e);
                },
            };
            let result = match self.io.on_compute_poly(
                eval_u.as_slice(),
                poly_mix,
                out_vals.as_slice(),
                mix.as_slice(),
            ) {
                Ok(v) => v,
                Err(e) => {
                    return Err(e);
                },
            };
            let single: Vec<Fp4> = vec![result];
            let words = fp4s_to_words(single.as_slice());
            let bytes = words_to_le_bytes(words.as_slice());
            self.send_to_guest(bytes.as_slice())
        } else if key == GPIO_POLY_EVAL / 4 {
            if data > 0xFFFF_FFE0u32 {
                return Err(ExecError::GuestFault);
            }
            let coeffs_desc = match self.read_slice_descriptor(data) {
                Ok(d) => d,
                Err(e) => {
                    return Err(e);
                },
            };
            let x_ptr = match self.memory.load_u32(data + 8) {
                Ok(w) => w,
                Err(e) => {
                    return Err(e);
                },
            };
            let y_ptr = match self.memory.load_u32(data + 12) {
                Ok(w) => w,
                Err(e) => {
                    return Err(e);
                },
            };
            let coeffs = match self.load_fp4_region(&coeffs_desc) {
                Ok(v) => v,
                Err(e) => {
                    return Err(e);
                },
            };
            let x_words = match self.memory.load_region_u32(x_ptr, 16) {
                Ok(w) => w,
                Err(e) => {
                    return Err(e);
                },
            };
            if x_words.len() != 4 {
                return Err(ExecError::GuestFault);
            }
            let x = Fp4::from_u32_words(x_words.as_slice());
            let y_word = match self.memory.load_u32(y_ptr) {
                Ok(w) => w,
                Err(e) => {
                    return Err(e);
                },
            };
            let y = Fp::new(y_word);
            // sum coeffs[i] * y^i * x^i, a polynomial in the product x*y.
            let xy = x.mul(Fp4::from_fp(y));
            let tot = poly_eval(coeffs.as_slice(), xy);
            let single: Vec<Fp4> = vec![tot];
            let words = fp4s_to_words(single.as_slice());
            let bytes = words_to_le_bytes(words.as_slice());
            self.send_to_guest(bytes.as_slice())
        } else if key == GPIO_FFPU / 4 {
            if data > 0xFFFF_FFF0u32 {
                return Err(ExecError::GuestFault);
            }
            let code_desc = match self.read_slice_descriptor(data) {
                Ok(d) => d,
                Err(e) => {
                    return Err(e);
                },
            };
            let args_desc = match self.read_slice_descriptor(data + 8) {
                Ok(d) => d,
                Err(e) => {
                    return Err(e);
                },
            };
            let code = match self.memory.load_region_u32(code_desc.addr, code_desc.size) {
                Ok(w) => w,
                Err(e) => {
                    return Err(e);
                },
            };
            let arg_words = match self.memory.load_region_u32(args_desc.addr, args_desc.size) {
                Ok(w) => w,
                Err(e) => {
                    return Err(e);
                },
            };
            if arg_words.len() % 2 != 0 {
                return Err(ExecError::GuestFault);
            }
            let mut args: Vec<Vec<Fp4>> = Vec::new();
            let npairs = arg_words.len() / 2;
            let mut j: usize = 0;
            while j < npairs
                invariant
                    j <= npairs,
                    npairs == arg_words@.len() / 2,
                    arg_words@.len() % 2 == 0,
                    arg_words@.len() <= usize::MAX,
                    self.wf(),
                    self.memory().history() == old(self).memory().history(),
                    key == GPIO_FFPU / 4,
                decreases npairs - j,
            {
                proof {
                    vstd::arithmetic::div_mod::lemma_fundamental_div_mod(
                        arg_words@.len() as int,
                        2,
                    );
                }
                let d = SliceDescriptor { size: arg_words[2 * j], addr: arg_words[2 * j + 1] };
                let buf = match self.load_fp4_region(&d) {
                    Ok(v) => v,
                    Err(e) => {
                        return Err(e);
                    },
                };
                args.push(buf);
                j = j + 1;
            }
            let results = match self.io.on_ffpu(code.as_slice(), args) {
                Ok(v) => v,
                Err(e) => {
                    return Err(e);
                },
            };
            if results.len() < 5 {
                return Err(ExecError::HostIO);
            }
            let words = fp4s_to_words(results[4].as_slice());
            let bytes = words_to_le_bytes(words.as_slice());
            self.send_to_guest(bytes.as_slice())
        } else if key == GPIO_GETKEY / 4 {
            Err(ExecError::Unsupported)
        } else {
            Ok(())
        }
    }

    /// Host-assisted SHA-256 of a guest region into a guest address: hash
    /// the designated word region and store the digest at the destination.
    fn process_sha(&mut self, desc: &SHADescriptor) -> (r: Result<(), ExecError>)
        requires
            old(self).wf(),
        ensures
            final(self).wf(),
            final(self).io() == old(self).io(),
            final(self).memory().history() == old(self).memory().history(),
            final(self).input_offset() == old(self).input_offset(),
            ({
                let eff = sha_effect(old(self).memory().memory(), old(self).memory().history(),
                    *desc);
                &&& final(self).memory().memory() == eff.0
                &&& r is Ok <==> eff.1
            }),
            r is Err ==> r == Result::<(), ExecError>::Err(ExecError::GuestFault),
            forall|k: u32|
                history_touches(old(self).memory().history(), k) && old(
                self).memory().memory().contains_key(k) ==> final(self).memory().memory().contains_key(
                    k,
                ) && final(self).memory().memory()[k] == old(self).memory().memory()[k],
    {
        let count = desc.type_count % 0x10000;
        let words = match self.memory.load_region_u32(desc.source, count * 64) {
            Ok(w) => w,
            Err(e) => {
                return Err(e);
            },
        };
        let digest = hash_raw_words(words.as_slice());
        if desc.digest > 0xFFFF_FFD0u32 || desc.digest % 4 != 0 {
            return Err(ExecError::GuestFault);
        }
        let out_words: Vec<u32> = digest_words_vec(&digest);
        proof {
            assert forall|k: u32|
                history_touches(self.memory().history(), k)
                    && self.memory().memory().contains_key(k) implies crate::memory::spec_store_words(
                self.memory().memory(),
                self.memory().history(),
                desc.digest as int,
                out_words@,
            ).0.contains_key(k) && crate::memory::spec_store_words(
                self.memory().memory(),
                self.memory().history(),
                desc.digest as int,
                out_words@,
            ).0[k] == self.memory().memory()[k] by {
                crate::memory::lemma_store_words_preserves_touched(
                    self.memory().memory(),
                    self.memory().history(),
                    desc.digest as int,
                    out_words@,
                    k,
                );
            }
        }
        match self.memory.store_region_u32(desc.digest, out_words.as_slice()) {
            Ok(()) => Ok(()),
            Err(e) => Err(e),
        }
    }

    /// One step request from the constraint evaluator, dispatched by tag.
    /// `extra` carries the log template for `Log`.
    pub fn call(
        &mut self,
        op: StepOp,
        extra: &[u8],
        args: &[Fp],
        outs: &mut Vec<Fp>,
    ) -> (r: Result<(), ExecError>)
        requires
            old(self).wf(),
        ensures
            final(self).wf(),
            final(outs)@.len() == old(outs)@.len(),
            op == StepOp::Divide32 && r is Ok ==> *final(self) == *old(self) && ({
                let n = args[0]@ + args[1]@ * 0x10000;
                let d = args[2]@ + args[3]@ * 0x10000;
                let quot = if d == 0 {
                    0xffffffffint
                } else {
                    n / d
                };
                let rem = if d == 0 {
                    n
                } else {
                    n % d
                };
                &&& final(outs)@[0]@ == quot % 0x10000
                &&& final(outs)@[1]@ == quot / 0x10000
                &&& final(outs)@[2]@ == rem % 0x10000
                &&& final(outs)@[3]@ == rem / 0x10000
            }),
            op == StepOp::MemCheck && r is Ok ==> old(self).memory().history().len() > 0 && ({
                let e = old(self).memory().history()[0];
                &&& final(self).memory().history() == old(self).memory().history().subrange(
                    1,
                    old(self).memory().history().len() as int,
                )
                &&& final(self).memory().memory() == old(self).memory().memory()
                &&& final(outs)@[0]@ == e.cycle as int % P as int
                &&& final(outs)@[1]@ == e.addr as int % P as int
                &&& final(outs)@[2]@ == (if e.is_write {
                    1int
                } else {
                    0int
                })
                &&& final(outs)@[3]@ == e.data as int % 0x10000
                &&& final(outs)@[4]@ == e.data as int / 0x10000
            }),
            op == StepOp::MemRead && r is Ok ==> ({
                let key = args[1]@ as u32;
                let data = if old(self).memory().memory().contains_key(key) {
                    old(self).memory().memory()[key]
                } else {
                    0u32
                };
                &&& final(self).memory().memory() == old(self).memory().memory().insert(key, data)
                &&& final(outs)@[0]@ == data as int % 0x10000
                &&& final(outs)@[1]@ == data as int / 0x10000
            }),
            op == StepOp::Log ==> final(self).memory() == old(self).memory() && final(
            self).input_offset() == old(self).input_offset() && (r is Ok <==> fmt_spec(
                extra@,
                words_of_fps(args@),
            ) is Some) && (r is Ok ==> final(self).io().log_lines() == old(self).io().log_lines()
                + seq![fmt_spec(extra@, words_of_fps(args@)).unwrap()]),
            op == StepOp::Divide32 ==> (r is Ok <==> args@.len() >= 4 && old(outs)@.len() >= 4
                && args@[0]@ < 0x10000 && args@[1]@ < 0x10000 && args@[2]@ < 0x10000 && args@[3]@
                < 0x10000),
            op == StepOp::MemCheck ==> (r is Ok <==> old(outs)@.len() >= 5 && old(
            self).memory().history().len() > 0),
            op == StepOp::MemRead ==> (r is Ok <==> args@.len() >= 2 && old(outs)@.len() >= 2),
            op == StepOp::MemWrite && (args@.len() < 4 || args@[2]@ >= 0x10000 || args@[3]@
                >= 0x10000) ==> r == Result::<(), ExecError>::Err(ExecError::Internal) && *final(
            self) == *old(self),
            op == StepOp::MemWrite && args@.len() >= 4 && args@[2]@ < 0x10000 && args@[3]@
                < 0x10000 ==> ({
                let key = args@[1]@ as u32;
                let data = (args@[2]@ + args@[3]@ * 0x10000) as u32;
                let e = MemoryEvent {
                    cycle: args@[0]@ as u32,
                    addr: key,
                    data,
                    is_write: key < ROM_START_WORD,
                };
                let conflict = key >= ROM_START_WORD && old(self).memory().memory().contains_key(
                    key,
                ) && old(self).memory().memory()[key] != data;
                &&& final(self).memory().history() == spec_record(old(self).memory().history(), e)
                &&& (conflict ==> r == Result::<(), ExecError>::Err(ExecError::GuestFault)
                    && final(self).memory().memory() == old(self).memory().memory())
                &&& (!conflict ==> final(self).memory().memory().contains_key(key) && final(
                self).memory().memory()[key] == data)
                &&& ((!conflict && !is_gpio_word(key)) ==> r is Ok && final(
                self).memory().memory() == old(self).memory().memory().insert(key, data))
            }),
    {
        match op {
            StepOp::Divide32 => {
                if args.len() < 4 || outs.len() < 4 {
                    return Err(ExecError::Internal);
                }
                let a0 = args[0];
                let a1 = args[1];
                let a2 = args[2];
                let a3 = args[3];
                if a0.as_u32() >= 0x10000 || a1.as_u32() >= 0x10000 || a2.as_u32() >= 0x10000
                    || a3.as_u32() >= 0x10000 {
                    return Err(ExecError::Internal);
                }
                let (quot, rem) = self.divide32((a0, a1), (a2, a3));
                outs[0] = quot.0;
                outs[1] = quot.1;
                outs[2] = rem.0;
                outs[3] = rem.1;
                Ok(())
            },
            StepOp::Log => {
                let words = crate::fp::fps_to_words(args);
                let msg = match format_c_style(extra, words.as_slice()) {
                    Ok(m) => m,
                    Err(e) => {
                        return Err(e);
                    },
                };
                self.io.on_log(msg.as_slice());
                Ok(())
            },
            StepOp::MemCheck => {
                if outs.len() < 5 {
                    return Err(ExecError::Internal);
                }
                let (c, a, w, lo, hi) = match self.mem_check() {
                    Ok(v) => v,
                    Err(e) => {
                        return Err(e);
                    },
                };
                outs[0] = c;
                outs[1] = a;
                outs[2] = w;
                outs[3] = lo;
                outs[4] = hi;
                Ok(())
            },
            StepOp::MemRead => {
                if args.len() < 2 || outs.len() < 2 {
                    return Err(ExecError::Internal);
                }
                let (lo, hi) = self.mem_read(args[0], args[1]);
                outs[0] = lo;
                outs[1] = hi;
                Ok(())
            },
            StepOp::MemWrite => {
                if args.len() < 4 {
                    return Err(ExecError::Internal);
                }
                let v0 = args[2];
                let v1 = args[3];
                if v0.as_u32() >= 0x10000 || v1.as_u32() >= 0x10000 {
                    return Err(ExecError::Internal);
                }
                self.mem_write(args[0], args[1], (v0, v1))
            },
        }
    }
}

/// The words of a digest as a vector.
fn digest_words_vec(d: &crate::sha::Digest) -> (r: Vec<u32>)
    ensures
        r@ == d@,
{
    let mut out: Vec<u32> = Vec::new();
    let mut i: usize = 0;
    while i < 8
        invariant
            i <= 8,
            out@.len() == i,
            forall|j: int| 0 <= j < i ==> out@[j] == d@[j],
        decreases 8 - i,
    {
        out.push(d.words[i]);
        i = i + 1;
    }
    proof {
        assert(out@ =~= d@);
    }
    out
}

} // verus!
