//! The executor's word-addressed guest memory, with the ordered history of
//! memory events that feeds the memory-consistency argument, and the
//! write-once discipline of the upper half of the address space.

use vstd::prelude::*;
use std::collections::BTreeMap;
use crate::errors::ExecError;
use crate::platform::ROM_START_WORD;

verus! {

broadcast use vstd::std_specs::btree::group_btree_axioms, vstd::laws_cmp::group_laws_cmp;

/// One memory access: which cycle touched which word, with what data.
/// `is_write` is false for reads and for stores into write-once memory.
#[derive(Clone, Copy, Debug, PartialEq, Eq, Structural)]
pub struct MemoryEvent {
    pub cycle: u32,
    pub addr: u32,
    pub data: u32,
    pub is_write: bool,
}

/// Strict order on events by (address, cycle).
pub open spec fn event_key_lt(a: MemoryEvent, b: MemoryEvent) -> bool {
    a.addr < b.addr || (a.addr == b.addr && a.cycle < b.cycle)
}

/// Same (address, cycle) key.
pub open spec fn event_key_eq(a: MemoryEvent, b: MemoryEvent) -> bool {
    a.addr == b.addr && a.cycle == b.cycle
}

/// Sorted strictly by (address, cycle); in particular, keys are unique.
pub open spec fn history_sorted(h: Seq<MemoryEvent>) -> bool {
    forall|i: int, j: int| 0 <= i < j < h.len() ==> event_key_lt(#[trigger] h[i], #[trigger] h[j])
}

/// Where a new event would be inserted: after every event below it.
pub open spec fn insert_pos(h: Seq<MemoryEvent>, e: MemoryEvent) -> int
    decreases h.len(),
{
    if h.len() == 0 {
        0
    } else if event_key_lt(h[0], e) {
        1 + insert_pos(h.subrange(1, h.len() as int), e)
    } else {
        0
    }
}

/// Whether the history already has an event with this (address, cycle) key.
pub open spec fn has_event_key(h: Seq<MemoryEvent>, e: MemoryEvent) -> bool {
    exists|i: int| 0 <= i < h.len() && event_key_eq(#[trigger] h[i], e)
}

/// Whether any event touches the given word address.
pub open spec fn history_touches(h: Seq<MemoryEvent>, key: u32) -> bool {
    exists|i: int| 0 <= i < h.len() && (#[trigger] h[i]).addr == key
}

/// The history after recording an event: inserted in (address, cycle)
/// order, unless an event with the same key is already present.
pub open spec fn spec_record(h: Seq<MemoryEvent>, e: MemoryEvent) -> Seq<MemoryEvent> {
    if has_event_key(h, e) {
        h
    } else {
        let p = insert_pos(h, e);
        h.subrange(0, p) + seq![e] + h.subrange(p, h.len() as int)
    }
}

/// A store of `data` to word `key` is forbidden: the word is in write-once
/// memory, is already set, and holds a different value.
pub open spec fn write_conflicts(m: Map<u32, u32>, key: u32, data: u32) -> bool {
    key >= ROM_START_WORD && m.contains_key(key) && m[key] != data
}

/// Memory write-once law: after any store into write-once memory, a second
/// store of a distinct value to the same word conflicts.
pub proof fn lemma_memory_write_once(m: Map<u32, u32>, key: u32, d1: u32, d2: u32)
    requires
        key >= ROM_START_WORD,
        d1 != d2,
    ensures
        write_conflicts(m.insert(key, d1), key, d2),
{
}

/// The scale of the byte at a given offset inside a little-endian word.
pub open spec fn byte_mult(offset: int) -> int {
    if offset == 0 {
        1int
    } else if offset == 1 {
        0x100int
    } else if offset == 2 {
        0x10000int
    } else {
        0x1000000int
    }
}

/// The byte at a given offset of a word.
pub open spec fn byte_of_word(word: u32, offset: int) -> u8 {
    ((word as int / byte_mult(offset)) % 0x100) as u8
}

/// The word after replacing the byte at a given offset.
pub open spec fn set_byte(word: u32, offset: int, b: u8) -> u32 {
    let m = byte_mult(offset);
    ((word as int / (m * 0x100)) * (m * 0x100) + (b as int) * m + (word as int % m)) as u32
}

/// The aligned word load: `None` is a fault, an unaligned or unmapped access.
pub open spec fn spec_load_u32(m: Map<u32, u32>, addr: u32) -> Option<u32> {
    if addr as int % 4 == 0 && m.contains_key((addr / 4) as u32) {
        Some(m[(addr / 4) as u32])
    } else {
        None
    }
}

/// The byte load at any address inside the 32-bit space.
pub open spec fn spec_load_byte(m: Map<u32, u32>, a: int) -> Option<u8> {
    if 0 <= a <= u32::MAX && m.contains_key((a / 4) as u32) {
        Some(byte_of_word(m[(a / 4) as u32], a % 4))
    } else {
        None
    }
}

/// The aligned in-bounds word load at an integer address.
pub open spec fn spec_load_word(m: Map<u32, u32>, a: int) -> Option<u32> {
    if 0 <= a && a + 4 <= 0x1_0000_0000 && a % 4 == 0 && m.contains_key((a / 4) as u32) {
        Some(m[(a / 4) as u32])
    } else {
        None
    }
}

/// The run of `n` words starting at `a`, or `None` if any load faults.
pub open spec fn spec_load_words(m: Map<u32, u32>, a: int, n: int) -> Option<Seq<u32>>
    decreases n,
{
    if n <= 0 {
        Some(Seq::empty())
    } else {
        match spec_load_word(m, a) {
            None => None,
            Some(w) => match spec_load_words(m, a + 4, n - 1) {
                None => None,
                Some(t) => Some(seq![w] + t),
            },
        }
    }
}

/// The executor's memory: a word-addressed map plus the event history.
pub struct MemoryState {
    memory: BTreeMap<u32, u32>,
    history: Vec<MemoryEvent>,
}

impl MemoryState {
    /// The mapped words.
    pub closed spec fn memory(self) -> Map<u32, u32> {
        self.memory@
    }

    /// The recorded events, sorted by (address, cycle).
    pub closed spec fn history(self) -> Seq<MemoryEvent> {
        self.history@
    }

    pub open spec fn wf(self) -> bool {
        history_sorted(self.history())
    }

    pub fn new() -> (r: MemoryState)
        ensures
            r.wf(),
            r.memory() == Map::<u32, u32>::empty(),
            r.history() == Seq::<MemoryEvent>::empty(),
    {
        MemoryState { memory: BTreeMap::new(), history: Vec::new() }
    }

    /// How many events are recorded.
    pub fn history_len(&self) -> (r: usize)
        ensures
            r == self.history().len(),
    {
        self.history.len()
    }

    /// The mapped value of a word, if any.
    pub fn get_word(&self, key: u32) -> (r: Option<u32>)
        ensures
            r == if self.memory().contains_key(key) {
                Some(self.memory()[key])
            } else {
                Option::<u32>::None
            },
    {
        match self.memory.get(&key) {
            Some(w) => Some(*w),
            None => None,
        }
    }

    /// Map a word unconditionally.
    pub fn set_word(&mut self, key: u32, value: u32)
        requires
            old(self).wf(),
        ensures
            final(self).wf(),
            final(self).history() == old(self).history(),
            final(self).memory() == old(self).memory().insert(key, value),
    {
        self.memory.insert(key, value);
    }

    /// Load an aligned word; unaligned or unmapped accesses fault.
    pub fn load_u32(&self, addr: u32) -> (r: Result<u32, ExecError>)
        ensures
            r matches Ok(w) ==> spec_load_u32(self.memory(), addr) == Some(w),
            r is Err <==> spec_load_u32(self.memory(), addr) is None,
            r is Err ==> r == Result::<u32, ExecError>::Err(ExecError::GuestFault),
    {
        if addr % 4 != 0 {
            return Err(ExecError::GuestFault);
        }
        match self.memory.get(&(addr / 4)) {
            Some(w) => Ok(*w),
            None => Err(ExecError::GuestFault),
        }
    }

    /// Load one byte out of the containing word.
    pub fn load_u8(&self, addr: u32) -> (r: Result<u8, ExecError>)
        ensures
            r matches Ok(b) ==> spec_load_byte(self.memory(), addr as int) == Some(b),
            r is Err <==> spec_load_byte(self.memory(), addr as int) is None,
            r is Err ==> r == Result::<u8, ExecError>::Err(ExecError::GuestFault),
    {
        let aligned = addr / 4 * 4;
        let offset = addr % 4;
        let word = match self.load_u32(aligned) {
            Ok(w) => w,
            Err(e) => {
                return Err(e);
            },
        };
        let b: u32 = if offset == 0 {
            word % 0x100
        } else if offset == 1 {
            (word / 0x100) % 0x100
        } else if offset == 2 {
            (word / 0x10000) % 0x100
        } else {
            (word / 0x1000000) % 0x100
        };
        Ok(b as u8)
    }

    /// Load a byte region; faults if any byte is unmapped or the end of the
    /// address space is passed.
    pub fn load_region(&self, addr: u32, size: u32) -> (r: Result<Vec<u8>, ExecError>)
        ensures
            r is Ok <==> addr + size <= 0x1_0000_0000 && (forall|a: int|
                addr <= a < addr + size ==> spec_load_byte(self.memory(), a) is Some),
            r matches Ok(v) ==> v@.len() == size && (forall|i: int|
                0 <= i < size ==> Some(#[trigger] v@[i]) == spec_load_byte(
                    self.memory(),
                    addr + i,
                )),
            r is Err ==> r == Result::<Vec<u8>, ExecError>::Err(ExecError::GuestFault),
    {
        if size > 0 && addr as u64 + size as u64 > 0x1_0000_0000u64 {
            return Err(ExecError::GuestFault);
        }
        let mut out: Vec<u8> = Vec::new();
        let mut i: u32 = 0;
        while i < size
            invariant
                i <= size,
                addr + size <= 0x1_0000_0000,
                out@.len() == i,
                forall|j: int|
                    0 <= j < i ==> Some(#[trigger] out@[j]) == spec_load_byte(
                        self.memory(),
                        addr + j,
                    ),
                forall|a: int| addr <= a < addr + i ==> spec_load_byte(self.memory(), a) is Some,
            decreases size - i,
        {
            match self.load_u8(((addr as u64 + i as u64) % 0x1_0000_0000u64) as u32) {
                Ok(b) => {
                    out.push(b);
                },
                Err(e) => {
                    return Err(e);
                },
            }
            i = i + 1;
        }
        Ok(out)
    }

    /// Load a word region of `size` bytes, one word per word step.
    pub fn load_region_u32(&self, start: u32, size: u32) -> (r: Result<Vec<u32>, ExecError>)
        ensures
            ({
                let n = (size as int + 3) / 4;
                &&& r is Ok <==> spec_load_words(self.memory(), start as int, n) is Some
                &&& r matches Ok(v) ==> Some(v@) == spec_load_words(self.memory(), start as int, n)
                &&& r is Err ==> r == Result::<Vec<u32>, ExecError>::Err(ExecError::GuestFault)
            }),
    {
        let n: u64 = (size as u64 + 3) / 4;
        let mut out: Vec<u32> = Vec::new();
        let mut i: u64 = 0;
        while i < n
            invariant
                i <= n,
                n == (size as int + 3) / 4,
                out@.len() == i,
                ({
                    let whole = spec_load_words(self.memory(), start as int, n as int);
                    let rest = spec_load_words(
                        self.memory(),
                        start as int + 4 * i,
                        n as int - i,
                    );
                    whole == (match rest {
                        Option::None => Option::<Seq<u32>>::None,
                        Option::Some(t) => Option::<Seq<u32>>::Some(out@ + t),
                    })
                }),
            decreases n - i,
        {
            let a = start as u64 + 4 * i;
            if a + 4 > 0x1_0000_0000u64 {
                return Err(ExecError::GuestFault);
            }
            match self.load_u32(a as u32) {
                Ok(w) => {
                    let ghost out0 = out@;
                    out.push(w);
                    proof {
                        let rest1 = spec_load_words(
                            self.memory(),
                            start as int + 4 * (i + 1),
                            n as int - i - 1,
                        );
                        if rest1 is Some {
                            assert(out@ + rest1.unwrap() =~= out0 + (seq![w]
                                + rest1.unwrap()));
                        }
                    }
                },
                Err(e) => {
                    return Err(e);
                },
            }
            i = i + 1;
        }
        proof {
            if spec_load_words(self.memory(), start as int + 4 * n as int, 0) is Some {
                assert(out@ + Seq::<u32>::empty() =~= out@);
            }
        }
        Ok(out)
    }

    /// Whether any recorded event touches this word.
    fn touches(&self, key: u32) -> (r: bool)
        ensures
            r == history_touches(self.history(), key),
    {
        let mut i: usize = 0;
        let n = self.history.len();
        while i < n
            invariant
                i <= n,
                n == self.history().len(),
                forall|j: int| 0 <= j < i ==> (#[trigger] self.history()[j]).addr != key,
            decreases n - i,
        {
            if self.history[i].addr == key {
                return true;
            }
            i = i + 1;
        }
        false
    }

    /// Host-side store of an aligned word. Once the guest has touched a
    /// word, the host may not change its value.
    pub fn store_u32(&mut self, addr: u32, value: u32) -> (r: Result<(), ExecError>)
        requires
            old(self).wf(),
        ensures
            final(self).wf(),
            final(self).history() == old(self).history(),
            r is Err <==> addr as int % 4 != 0 || (old(self).memory().contains_key(
                (addr / 4) as u32,
            ) && history_touches(old(self).history(), (addr / 4) as u32) && old(self).memory()[
                (addr / 4) as u32] != value),
            r is Err ==> r == Result::<(), ExecError>::Err(ExecError::GuestFault) && final(
            self).memory() == old(self).memory(),
            r is Ok ==> final(self).memory() == old(self).memory().insert((addr / 4) as u32, value),
    {
        if addr % 4 != 0 {
            return Err(ExecError::GuestFault);
        }
        let key = addr / 4;
        let existing = match self.memory.get(&key) {
            Some(w) => Some(*w),
            None => None,
        };
        if let Some(w) = existing {
            if w != value && self.touches(key) {
                return Err(ExecError::GuestFault);
            }
        }
        self.memory.insert(key, value);
        Ok(())
    }

    /// Host-side store of one byte, read-modify-write on the containing
    /// word; an untouched word reads as zero.
    pub fn store_u8(&mut self, addr: u32, value: u8) -> (r: Result<(), ExecError>)
        requires
            old(self).wf(),
        ensures
            final(self).wf(),
            final(self).history() == old(self).history(),
            ({
                let key = (addr / 4) as u32;
                let word = if old(self).memory().contains_key(key) {
                    old(self).memory()[key]
                } else {
                    0u32
                };
                let updated = set_byte(word, addr as int % 4, value);
                &&& r is Err <==> (old(self).memory().contains_key(key) && history_touches(
                    old(self).history(),
                    key,
                ) && old(self).memory()[key] != updated)
                &&& r is Err ==> r == Result::<(), ExecError>::Err(ExecError::GuestFault) && final(
                self).memory() == old(self).memory()
                &&& r is Ok ==> final(self).memory() == old(self).memory().insert(key, updated)
            }),
    {
        let aligned = addr / 4 * 4;
        let offset = addr % 4;
        let key = addr / 4;
        let word = match self.memory.get(&key) {
            Some(w) => *w,
            None => 0,
        };
        let updated: u32 = if offset == 0 {
            word - word % 0x100 + value as u32
        } else if offset == 1 {
            word - word % 0x10000 + (value as u32) * 0x100 + word % 0x100
        } else if offset == 2 {
            word - word % 0x1000000 + (value as u32) * 0x10000 + word % 0x10000
        } else {
            (value as u32) * 0x1000000 + word % 0x1000000
        };
        proof {
            vstd::arithmetic::div_mod::lemma_fundamental_div_mod(word as int, 0x100);
            vstd::arithmetic::div_mod::lemma_fundamental_div_mod(word as int, 0x10000);
            vstd::arithmetic::div_mod::lemma_fundamental_div_mod(word as int, 0x1000000);
            if offset == 3 {
                assert(word as int / 0x100000000int == 0) by {
                    assert(word < 0x100000000);
                };
            }
            assert(word as int % 1 == 0) by {
                vstd::arithmetic::div_mod::lemma_mod_self_0(1);
                vstd::arithmetic::div_mod::lemma_small_mod(0, 1);
                vstd::arithmetic::div_mod::lemma_mod_multiples_basic(word as int, 1);
            }
            let wi = word as int;
            let bi = value as int;
            if offset == 0 {
                assert(set_byte(word, 0, value) == ((wi / 0x100) * 0x100 + bi + wi % 1) as u32);
                assert(updated == set_byte(word, addr as int % 4, value));
            } else if offset == 1 {
                assert(set_byte(word, 1, value) == ((wi / 0x10000) * 0x10000 + bi * 0x100 + wi
                    % 0x100) as u32);
                assert(updated == set_byte(word, addr as int % 4, value));
            } else if offset == 2 {
                assert(set_byte(word, 2, value) == ((wi / 0x1000000) * 0x1000000 + bi * 0x10000
                    + wi % 0x10000) as u32);
                assert(updated == set_byte(word, addr as int % 4, value));
            } else {
                assert(set_byte(word, 3, value) == ((wi / 0x100000000) * 0x100000000 + bi
                    * 0x1000000 + wi % 0x1000000) as u32);
                assert(updated == set_byte(word, addr as int % 4, value));
            }
            assert(updated == set_byte(word, addr as int % 4, value));
        }
        let r = self.store_u32(aligned, updated);
        proof {
            assert(aligned / 4 == key);
            assert(aligned as int % 4 == 0);
        }
        r
    }

    /// Store a byte region, stopping at the first conflicting byte.
    pub fn store_region(&mut self, addr: u32, slice: &[u8]) -> (r: Result<(), ExecError>)
        requires
            old(self).wf(),
            addr + slice@.len() <= 0x1_0000_0000,
        ensures
            final(self).wf(),
            final(self).history() == old(self).history(),
            r is Err ==> r == Result::<(), ExecError>::Err(ExecError::GuestFault),
            final(self).memory() == spec_store_region(
                old(self).memory(),
                old(self).history(),
                addr as int,
                slice@,
            ).0,
            r is Ok <==> spec_store_region(
                old(self).memory(),
                old(self).history(),
                addr as int,
                slice@,
            ).1,
    {
        let mut i: usize = 0;
        let n = slice.len();
        proof {
            assert(slice@.subrange(0, n as int) =~= slice@);
        }
        while i < n
            invariant
                i <= n,
                n == slice@.len(),
                addr + n <= 0x1_0000_0000,
                self.wf(),
                self.history() == old(self).history(),
                spec_store_region(old(self).memory(), old(self).history(), addr as int, slice@)
                    == spec_store_region(self.memory(), self.history(), addr as int + i, slice@.subrange(
                    i as int,
                    n as int,
                )),
            decreases n - i,
        {
            let ghost pre = self.memory();
            let b = slice[i];
            match self.store_u8(((addr as u64 + i as u64) % 0x1_0000_0000u64) as u32, b) {
                Ok(()) => {},
                Err(e) => {
                    proof {
                        let rest = slice@.subrange(i as int, n as int);
                        assert(rest[0] == slice@[i as int]);
                        assert(rest.subrange(1, rest.len() as int) =~= slice@.subrange(
                            i + 1,
                            n as int,
                        ));
                    }
                    return Err(e);
                },
            }
            proof {
                let rest = slice@.subrange(i as int, n as int);
                assert(rest[0] == slice@[i as int]);
                assert(rest.subrange(1, rest.len() as int) =~= slice@.subrange(i + 1, n as int));
            }
            i = i + 1;
        }
        proof {
            assert(slice@.subrange(n as int, n as int) =~= Seq::<u8>::empty());
        }
        Ok(())
    }

    /// Store a word region of aligned words.
    pub fn store_region_u32(&mut self, addr: u32, slice: &[u32]) -> (r: Result<(), ExecError>)
        requires
            old(self).wf(),
            addr as int % 4 == 0,
            addr + 4 * slice@.len() <= 0x1_0000_0000,
        ensures
            final(self).wf(),
            final(self).history() == old(self).history(),
            r is Err ==> r == Result::<(), ExecError>::Err(ExecError::GuestFault),
            final(self).memory() == spec_store_words(
                old(self).memory(),
                old(self).history(),
                addr as int,
                slice@,
            ).0,
            r is Ok <==> spec_store_words(
                old(self).memory(),
                old(self).history(),
                addr as int,
                slice@,
            ).1,
    {
        let mut i: usize = 0;
        let n = slice.len();
        proof {
            assert(slice@.subrange(0, n as int) =~= slice@);
        }
        while i < n
            invariant
                i <= n,
                n == slice@.len(),
                addr as int % 4 == 0,
                addr + 4 * n <= 0x1_0000_0000,
                self.wf(),
                self.history() == old(self).history(),
                spec_store_words(old(self).memory(), old(self).history(), addr as int, slice@)
                    == spec_store_words(self.memory(), self.history(), addr as int + 4 * i, slice@.subrange(
                    i as int,
                    n as int,
                )),
            decreases n - i,
        {
            let w = slice[i];
            let ghost rest = slice@.subrange(i as int, n as int);
            proof {
                assert(rest[0] == slice@[i as int]);
                assert(rest.subrange(1, rest.len() as int) =~= slice@.subrange(i + 1, n as int));
                vstd::arithmetic::div_mod::lemma_add_mod_noop(addr as int, 4 * i, 4);
                assert((addr + 4 * i) as int % 4 == 0);
            }
            match self.store_u32(addr + 4 * (i as u32), w) {
                Ok(()) => {},
                Err(e) => {
                    return Err(e);
                },
            }
            i = i + 1;
        }
        proof {
            assert(slice@.subrange(n as int, n as int) =~= Seq::<u32>::empty());
        }
        Ok(())
    }

    /// The length of the zero-terminated byte string at `addr`.
    pub fn strlen(&self, addr: u32) -> (r: Result<usize, ExecError>)
        ensures
            r matches Ok(n) ==> spec_strlen(self.memory(), addr as int) == Some(n as int),
            r is Err <==> spec_strlen(self.memory(), addr as int) is None,
            r is Err ==> r == Result::<usize, ExecError>::Err(ExecError::GuestFault),
    {
        let mut a: u32 = addr;
        let mut len: usize = 0;
        loop
            invariant
                addr <= a,
                a - addr == len,
                spec_strlen(self.memory(), addr as int) matches Some(n) ==> spec_strlen(
                    self.memory(),
                    a as int,
                ) matches Some(k) && n == len + k,
                spec_strlen(self.memory(), addr as int) is None <==> spec_strlen(
                    self.memory(),
                    a as int,
                ) is None,
            decreases 0x1_0000_0000 - a,
        {
            match self.load_u8(a) {
                Ok(0) => {
                    return Ok(len);
                },
                Ok(_) => {},
                Err(e) => {
                    return Err(e);
                },
            }
            if a == 0xFFFF_FFFFu32 {
                proof {
                    assert(spec_strlen(self.memory(), a as int + 1) is None);
                    assert(spec_strlen(self.memory(), a as int) is None);
                }
                return Err(ExecError::GuestFault);
            }
            a = a + 1;
            len = len + 1;
        }
    }

    /// Record an event in (address, cycle) order; an event with the same
    /// key as an already recorded one is dropped.
    pub fn record(&mut self, e: MemoryEvent)
        requires
            old(self).wf(),
        ensures
            final(self).wf(),
            final(self).memory() == old(self).memory(),
            final(self).history() == spec_record(old(self).history(), e),
    {
        let n = self.history.len();
        let mut i: usize = 0;
        proof {
            assert(self.history().subrange(0, n as int) =~= self.history());
        }
        while i < n
            invariant
                i <= n,
                n == self.history().len(),
                self.wf(),
                self.history() == old(self).history(),
                self.memory() == old(self).memory(),
                forall|j: int| 0 <= j < i ==> event_key_lt(#[trigger] self.history()[j], e),
                insert_pos(self.history(), e) == i + insert_pos(
                    self.history().subrange(i as int, n as int),
                    e,
                ),
                !has_event_key(self.history().subrange(0, i as int), e),
            decreases n - i,
        {
            let ghost rest = self.history().subrange(i as int, n as int);
            proof {
                assert(rest[0] == self.history()[i as int]);
                assert(rest.subrange(1, rest.len() as int) =~= self.history().subrange(
                    i + 1,
                    n as int,
                ));
            }
            let cur = self.history[i];
            if cur.addr == e.addr && cur.cycle == e.cycle {
                proof {
                    assert(has_event_key(self.history(), e));
                }
                return ;
            }
            if !(cur.addr < e.addr || (cur.addr == e.addr && cur.cycle < e.cycle)) {
                // Insert here: everything before is below e, this one is above.
                proof {
                    assert(!event_key_lt(cur, e));
                    assert(insert_pos(rest, e) == 0);
                    lemma_no_key_after(self.history(), e, i as int);
                }
                self.history.insert(i, e);
                proof {
                    assert(self.history@ =~= old(self).history().subrange(0, i as int) + seq![e]
                        + old(self).history().subrange(i as int, n as int));
                    lemma_insert_sorted(old(self).history(), e, i as int);
                }
                return ;
            }
            i = i + 1;
        }
        proof {
            assert(self.history().subrange(0, n as int) =~= self.history());
            assert(insert_pos(self.history().subrange(n as int, n as int), e) == 0);
            lemma_no_key_after(self.history(), e, n as int);
        }
        self.history.push(e);
        proof {
            assert(self.history@ =~= old(self).history().subrange(0, n as int) + seq![e] + old(
            self).history().subrange(n as int, n as int));
            lemma_insert_sorted(old(self).history(), e, n as int);
        }
    }

    /// Pop the least remaining event in (address, cycle) order.
    pub fn pop_history(&mut self) -> (r: MemoryEvent)
        requires
            old(self).wf(),
            old(self).history().len() > 0,
        ensures
            final(self).wf(),
            final(self).memory() == old(self).memory(),
            r == old(self).history()[0],
            final(self).history() == old(self).history().subrange(
                1,
                old(self).history().len() as int,
            ),
            forall|j: int|
                0 <= j < final(self).history().len() ==> event_key_lt(
                    r,
                    #[trigger] final(self).history()[j],
                ),
    {
        let e = self.history.remove(0);
        proof {
            assert(self.history@ =~= old(self).history().subrange(
                1,
                old(self).history().len() as int,
            ));
        }
        e
    }
}

/// Everything before position p is strictly below e, and p is the insert
/// position, so no event at or after p shares e's key implies the whole
/// history is free of e's key exactly when the tail is.
proof fn lemma_no_key_after(h: Seq<MemoryEvent>, e: MemoryEvent, p: int)
    requires
        history_sorted(h),
        0 <= p <= h.len(),
        forall|j: int| 0 <= j < p ==> event_key_lt(#[trigger] h[j], e),
        p < h.len() ==> !event_key_lt(h[p], e) && !event_key_eq(h[p], e),
        !has_event_key(h.subrange(0, p), e),
    ensures
        !has_event_key(h, e),
{
    assert forall|i: int| 0 <= i < h.len() implies !event_key_eq(#[trigger] h[i], e) by {
        if i < p {
            assert(h.subrange(0, p)[i] == h[i]);
        } else if i == p {
        } else {
            assert(event_key_lt(h[p], h[i]));
        }
    }
}

/// Inserting at the first position whose event is not below e keeps the
/// history sorted, provided e is not already present.
proof fn lemma_insert_sorted(h: Seq<MemoryEvent>, e: MemoryEvent, p: int)
    requires
        history_sorted(h),
        0 <= p <= h.len(),
        forall|j: int| 0 <= j < p ==> event_key_lt(#[trigger] h[j], e),
        p < h.len() ==> !event_key_lt(h[p], e) && !event_key_eq(h[p], e),
    ensures
        history_sorted(h.subrange(0, p) + seq![e] + h.subrange(p, h.len() as int)),
{
    let g = h.subrange(0, p) + seq![e] + h.subrange(p, h.len() as int);
    assert forall|i: int, j: int| 0 <= i < j < g.len() implies event_key_lt(
        #[trigger] g[i],
        #[trigger] g[j],
    ) by {
        if j < p {
        } else if i < p && j == p {
            assert(g[i] == h[i]);
        } else if i < p && j > p {
            assert(g[i] == h[i] && g[j] == h[j - 1]);
            if p <= j - 1 && p < h.len() {
                if p < j - 1 {
                    assert(event_key_lt(h[p], h[j - 1]));
                }
            }
        } else if i == p && j > p {
            assert(g[j] == h[j - 1]);
            assert(!event_key_lt(h[p], e) && !event_key_eq(h[p], e));
            if p < j - 1 {
                assert(event_key_lt(h[p], h[j - 1]));
            }
        } else {
            assert(g[i] == h[i - 1] && g[j] == h[j - 1]);
        }
    }
}

/// The memory after storing one byte, with a flag for success.
pub open spec fn spec_store_byte(m: Map<u32, u32>, h: Seq<MemoryEvent>, a: int, b: u8) -> (
    Map<u32, u32>,
    bool,
) {
    let key = (a / 4) as u32;
    let word = if m.contains_key(key) {
        m[key]
    } else {
        0u32
    };
    let updated = set_byte(word, a % 4, b);
    if m.contains_key(key) && history_touches(h, key) && m[key] != updated {
        (m, false)
    } else {
        (m.insert(key, updated), true)
    }
}

/// The memory after storing a byte region, stopping at the first conflict.
pub open spec fn spec_store_region(m: Map<u32, u32>, h: Seq<MemoryEvent>, a: int, bytes: Seq<u8>)
    -> (Map<u32, u32>, bool)
    decreases bytes.len(),
{
    if bytes.len() == 0 {
        (m, true)
    } else {
        let (m1, ok) = spec_store_byte(m, h, a, bytes[0]);
        if !ok {
            (m, false)
        } else {
            spec_store_region(m1, h, a + 1, bytes.subrange(1, bytes.len() as int))
        }
    }
}

/// The memory after storing one aligned word, with a flag for success.
pub open spec fn spec_store_word(m: Map<u32, u32>, h: Seq<MemoryEvent>, a: int, w: u32) -> (
    Map<u32, u32>,
    bool,
) {
    let key = (a / 4) as u32;
    if m.contains_key(key) && history_touches(h, key) && m[key] != w {
        (m, false)
    } else {
        (m.insert(key, w), true)
    }
}

/// The memory after storing a run of aligned words.
pub open spec fn spec_store_words(m: Map<u32, u32>, h: Seq<MemoryEvent>, a: int, ws: Seq<u32>) -> (
    Map<u32, u32>,
    bool,
)
    decreases ws.len(),
{
    if ws.len() == 0 {
        (m, true)
    } else {
        let (m1, ok) = spec_store_word(m, h, a, ws[0]);
        if !ok {
            (m, false)
        } else {
            spec_store_words(m1, h, a + 4, ws.subrange(1, ws.len() as int))
        }
    }
}

/// A recorded event's address is always touched afterwards.
pub proof fn lemma_record_touches(h: Seq<MemoryEvent>, e: MemoryEvent)
    ensures
        history_touches(spec_record(h, e), e.addr),
{
    if has_event_key(h, e) {
        let i = choose|i: int| 0 <= i < h.len() && event_key_eq(#[trigger] h[i], e);
        assert(spec_record(h, e)[i].addr == e.addr);
    } else {
        let p = insert_pos(h, e);
        lemma_insert_pos_in_range(h, e);
        assert(spec_record(h, e)[p] == e);
    }
}

/// The insert position lies inside the history.
proof fn lemma_insert_pos_in_range(h: Seq<MemoryEvent>, e: MemoryEvent)
    ensures
        0 <= insert_pos(h, e) <= h.len(),
    decreases h.len(),
{
    if h.len() > 0 && event_key_lt(h[0], e) {
        lemma_insert_pos_in_range(h.subrange(1, h.len() as int), e);
    }
}

/// A measured string is readable: every byte up to and including the
/// terminator is mapped, the terminator is zero, and the body is not.
pub proof fn lemma_strlen_bytes(m: Map<u32, u32>, a: int, n: int)
    requires
        0 <= a,
        a <= 0x1_0000_0000,
        spec_strlen(m, a) == Some(n),
    ensures
        0 <= n,
        a + n <= u32::MAX,
        forall|i: int| a <= i <= a + n ==> spec_load_byte(m, i) is Some,
        forall|i: int| a <= i < a + n ==> spec_load_byte(m, i).unwrap() != 0,
        spec_load_byte(m, a + n).unwrap() == 0,
    decreases 0x1_0000_0000 - a,
{
    if a > u32::MAX {
    } else {
        match spec_load_byte(m, a) {
            None => {},
            Some(b) => {
                if b == 0 {
                } else {
                    lemma_strlen_bytes(m, a + 1, n - 1);
                }
            },
        }
    }
}

/// Host stores never change a word the guest has touched: a byte store run
/// leaves every touched, mapped word with its old value, stored or not.
pub proof fn lemma_store_region_preserves_touched(
    m: Map<u32, u32>,
    h: Seq<MemoryEvent>,
    a: int,
    bytes: Seq<u8>,
    k: u32,
)
    requires
        history_touches(h, k),
        m.contains_key(k),
    ensures
        spec_store_region(m, h, a, bytes).0.contains_key(k),
        spec_store_region(m, h, a, bytes).0[k] == m[k],
    decreases bytes.len(),
{
    if bytes.len() == 0 {
    } else {
        let (m1, ok) = spec_store_byte(m, h, a, bytes[0]);
        if ok {
            lemma_store_region_preserves_touched(
                m1,
                h,
                a + 1,
                bytes.subrange(1, bytes.len() as int),
                k,
            );
        }
    }
}

/// The same preservation for a word store run.
pub proof fn lemma_store_words_preserves_touched(
    m: Map<u32, u32>,
    h: Seq<MemoryEvent>,
    a: int,
    ws: Seq<u32>,
    k: u32,
)
    requires
        history_touches(h, k),
        m.contains_key(k),
    ensures
        spec_store_words(m, h, a, ws).0.contains_key(k),
        spec_store_words(m, h, a, ws).0[k] == m[k],
    decreases ws.len(),
{
    if ws.len() == 0 {
    } else {
        let (m1, ok) = spec_store_word(m, h, a, ws[0]);
        if ok {
            lemma_store_words_preserves_touched(m1, h, a + 4, ws.subrange(1, ws.len() as int), k);
        }
    }
}

/// The distance to the first zero byte, or `None` if memory runs out first.
pub open spec fn spec_strlen(m: Map<u32, u32>, a: int) -> Option<int>
    decreases 0x1_0000_0000 - a,
    when a <= 0x1_0000_0000
{
    if a > u32::MAX {
        None
    } else {
        match spec_load_byte(m, a) {
            None => None,
            Some(b) => if b == 0 {
                Some(0int)
            } else {
                match spec_strlen(m, a + 1) {
                    None => None,
                    Some(k) => Some(1 + k),
                }
            },
        }
    }
}

} // verus!
