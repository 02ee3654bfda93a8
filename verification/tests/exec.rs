use zkvm::errors::ExecError;
use zkvm::fmtstr::format_c_style;
use zkvm::fp::Fp;
use zkvm::fp4::Fp4;
use zkvm::loader::{load_code, StepHandler, IDX_CYCLE, IDX_TYPE_INIT, IDX_TYPE_LOAD,
    IDX_TYPE_RESET, IDX_TYPE_FINI, IDX_SHA_CTRL, IDX_SHA_LOAD, IDX_P1, IDX_P2, IDX_DATA1_LO,
    IDX_DATA1_HI, IDX_DATA2_LO, IDX_DATA2_HI};
use zkvm::machine::{IoHandler, MachineContext, split_word, merge_word, StepOp};
use zkvm::memory::MemoryState;
use zkvm::platform::{align_up, COMMIT_START, HEAP_START, GPIO_COMMIT, GPIO_SHA, GPIO_LOG,
    GPIO_FAULT, GPIO_SENDRECV_CHANNEL, GPIO_SENDRECV_SIZE, GPIO_SENDRECV_ADDR, GPIO_CYCLECOUNT,
    INPUT_START};
use zkvm::sha::hash_bytes;

struct TestIo {
    journal: Vec<u32>,
    logs: Vec<Vec<u8>>,
    faults: Vec<Vec<u8>>,
    reply: Vec<u8>,
}

impl TestIo {
    fn new() -> TestIo {
        TestIo { journal: Vec::new(), logs: Vec::new(), faults: Vec::new(), reply: Vec::new() }
    }
}

impl IoHandler for TestIo {
    fn on_commit(&mut self, buf: &[u32]) -> Result<(), ExecError> {
        self.journal.extend_from_slice(buf);
        Ok(())
    }

    fn on_fault(&mut self, msg: &[u8]) -> Result<(), ExecError> {
        self.faults.push(msg.to_vec());
        Err(ExecError::GuestFault)
    }

    fn on_txrx(&mut self, _channel: u32, _buf: &[u8]) -> Result<Vec<u8>, ExecError> {
        Ok(self.reply.clone())
    }

    fn on_log(&mut self, msg: &[u8]) {
        self.logs.push(msg.to_vec());
    }

    fn on_compute_poly(
        &mut self,
        _eval_u: &[Fp4],
        poly_mix: Fp4,
        _out_vals: &[Fp],
        _mix: &[Fp],
    ) -> Result<Fp4, ExecError> {
        Ok(poly_mix)
    }

    fn on_ffpu(&mut self, _code: &[u32], args: Vec<Vec<Fp4>>) -> Result<Vec<Vec<Fp4>>, ExecError> {
        Ok(args)
    }
}

fn word_fp(byte_addr: u32) -> Fp {
    Fp::new(byte_addr / 4)
}

fn write(ctx: &mut MachineContext<TestIo>, cycle: u32, byte_addr: u32, value: u32)
    -> Result<(), ExecError> {
    ctx.mem_write(Fp::new(cycle), word_fp(byte_addr), split_word(value))
}

#[test]
fn memory_write_once_same_value_ok() {
    // Two stores of the same value to a write-once address succeed.
    let mut ctx = MachineContext::new(TestIo::new());
    assert!(write(&mut ctx, 0, COMMIT_START, 1).is_ok());
    assert!(write(&mut ctx, 1, COMMIT_START, 1).is_ok());
}

#[test]
fn memory_write_once_conflict_faults() {
    // Two stores of distinct values to the same write-once address fault.
    let mut ctx = MachineContext::new(TestIo::new());
    assert!(write(&mut ctx, 0, COMMIT_START, 1).is_ok());
    assert_eq!(write(&mut ctx, 1, COMMIT_START, 2), Err(ExecError::GuestFault));
    // But distinct addresses are fine.
    assert!(write(&mut ctx, 2, COMMIT_START + 4, 2).is_ok());
}

#[test]
fn memory_heap_rewrite_ok() {
    // The lower half of the address space is freely rewritable.
    let mut ctx = MachineContext::new(TestIo::new());
    assert!(write(&mut ctx, 0, HEAP_START, 1).is_ok());
    assert!(write(&mut ctx, 1, HEAP_START, 2).is_ok());
}

#[test]
fn memory_unaligned_access_faults() {
    let mut m = MemoryState::new();
    assert!(m.store_u32(HEAP_START, 1).is_ok());
    assert_eq!(m.store_u32(HEAP_START + 1, 1), Err(ExecError::GuestFault));
    assert_eq!(m.load_u32(HEAP_START), Ok(1));
    assert_eq!(m.load_u32(HEAP_START + 1), Err(ExecError::GuestFault));
    // A read of an unmapped word is also a fault.
    assert_eq!(m.load_u32(HEAP_START + 4), Err(ExecError::GuestFault));
}

#[test]
fn memory_bytes_and_strlen() {
    let mut m = MemoryState::new();
    m.store_region(HEAP_START, b"hello\0").unwrap();
    assert_eq!(m.strlen(HEAP_START), Ok(5));
    assert_eq!(m.load_u8(HEAP_START + 1), Ok(b'e'));
    assert_eq!(m.load_region(HEAP_START, 5).unwrap(), b"hello".to_vec());
    // Little-endian byte order within each word.
    assert_eq!(m.load_u32(HEAP_START), Ok(u32::from_le_bytes(*b"hell")));
}

#[test]
fn host_cannot_mutate_guest_touched_memory() {
    let mut ctx = MachineContext::new(TestIo::new());
    // The host may freely restage an untouched word.
    ctx.memory_mut().store_u32(HEAP_START, 1).unwrap();
    ctx.memory_mut().store_u32(HEAP_START, 2).unwrap();
    // Once the guest has read it, the host may only rewrite the same value.
    ctx.mem_read(Fp::new(0), word_fp(HEAP_START));
    assert!(ctx.memory_mut().store_u32(HEAP_START, 2).is_ok());
    assert_eq!(ctx.memory_mut().store_u32(HEAP_START, 3), Err(ExecError::GuestFault));
}

#[test]
fn split_and_merge_words_round_trip() {
    for v in [0u32, 1, 0xffff, 0x10000, 0xdead_beef, u32::MAX].iter() {
        let (lo, hi) = split_word(*v);
        assert_eq!(merge_word(lo, hi), *v);
    }
}

#[test]
fn mem_read_returns_stored_halves() {
    let mut ctx = MachineContext::new(TestIo::new());
    write(&mut ctx, 0, HEAP_START, 0xdead_beef).unwrap();
    let (lo, hi) = ctx.mem_read(Fp::new(1), word_fp(HEAP_START));
    assert_eq!(lo.as_u32(), 0xbeef);
    assert_eq!(hi.as_u32(), 0xdead);
    // Untouched words read as zero.
    let (lo, hi) = ctx.mem_read(Fp::new(2), word_fp(HEAP_START + 8));
    assert_eq!((lo.as_u32(), hi.as_u32()), (0, 0));
}

#[test]
fn mem_check_pops_in_address_cycle_order() {
    let mut ctx = MachineContext::new(TestIo::new());
    write(&mut ctx, 5, HEAP_START + 8, 1).unwrap();
    write(&mut ctx, 3, HEAP_START, 2).unwrap();
    ctx.mem_read(Fp::new(7), word_fp(HEAP_START));
    // Events pop sorted by (address, cycle): (HEAP/4, 3), (HEAP/4, 7),
    // (HEAP/4+2, 5).
    let (c, a, w, lo, _hi) = ctx.mem_check().unwrap();
    assert_eq!((c.as_u32(), a.as_u32(), w.as_u32(), lo.as_u32()), (3, HEAP_START / 4, 1, 2));
    let (c, _a, w, _lo, _hi) = ctx.mem_check().unwrap();
    assert_eq!((c.as_u32(), w.as_u32()), (7, 0));
    let (c, a, _w, _lo, _hi) = ctx.mem_check().unwrap();
    assert_eq!((c.as_u32(), a.as_u32()), (5, HEAP_START / 4 + 2));
    // An empty history is a prover bug.
    assert_eq!(ctx.mem_check().err(), Some(ExecError::Internal));
}

#[test]
fn divide32_quotient_and_remainder() {
    let ctx: MachineContext<TestIo> = MachineContext::new(TestIo::new());
    let n = split_word(7);
    let d = split_word(2);
    let (q, r) = ctx.divide32(n, d);
    assert_eq!(merge_word(q.0, q.1), 3);
    assert_eq!(merge_word(r.0, r.1), 1);
    // A large numerator exercises both halves.
    let n = split_word(0xffff_fff0);
    let d = split_word(0x1_0001);
    let (q, r) = ctx.divide32(n, d);
    assert_eq!(merge_word(q.0, q.1), 0xffff_fff0 / 0x1_0001);
    assert_eq!(merge_word(r.0, r.1), 0xffff_fff0 % 0x1_0001);
    // Division by zero returns all-ones and the numerator.
    let (q, r) = ctx.divide32(split_word(1234), split_word(0));
    assert_eq!(merge_word(q.0, q.1), 0xffff_ffff);
    assert_eq!(merge_word(r.0, r.1), 1234);
}

#[test]
fn gpio_commit_appends_journal() {
    let mut ctx = MachineContext::new(TestIo::new());
    // The committed region.
    write(&mut ctx, 0, COMMIT_START, 0x11).unwrap();
    write(&mut ctx, 1, COMMIT_START + 4, 0x22).unwrap();
    // The (size, addr) descriptor, in bytes.
    let desc = HEAP_START;
    write(&mut ctx, 2, desc, 8).unwrap();
    write(&mut ctx, 3, desc + 4, COMMIT_START).unwrap();
    // Trigger the commit port with the descriptor pointer.
    write(&mut ctx, 4, GPIO_COMMIT, desc).unwrap();
    assert_eq!(ctx.io_ref().journal, vec![0x11, 0x22]);
    // Committing the same values twice is fine and extends the journal.
    write(&mut ctx, 5, GPIO_COMMIT, desc).unwrap();
    assert_eq!(ctx.io_ref().journal, vec![0x11, 0x22, 0x11, 0x22]);
}

#[test]
fn gpio_sha_hashes_guest_region() {
    let mut ctx = MachineContext::new(TestIo::new());
    // One 64-byte block: "abc" padded in the standard SHA-256 layout.
    let mut block = [0u8; 64];
    block[0..3].copy_from_slice(b"abc");
    block[3] = 0x80;
    block[63] = 24;
    let src = HEAP_START + 0x100;
    ctx.memory_mut().store_region(src, &block).unwrap();
    // Descriptor: type_count (count = 1 block), idx, source, digest.
    let dst = HEAP_START + 0x200;
    let desc = HEAP_START;
    ctx.memory_mut().store_u32(desc, 1).unwrap();
    ctx.memory_mut().store_u32(desc + 4, 0).unwrap();
    ctx.memory_mut().store_u32(desc + 8, src).unwrap();
    ctx.memory_mut().store_u32(desc + 12, dst).unwrap();
    write(&mut ctx, 0, GPIO_SHA, desc).unwrap();
    // The digest written back is the hash of the block bytes.
    let got = ctx.memory_ref().load_region_u32(dst, 32).unwrap();
    let expect = hash_bytes(&block);
    assert_eq!(got.as_slice(), &expect.words);
    // Committing the digest region puts it into the journal.
    let desc2 = HEAP_START + 0x40;
    ctx.memory_mut().store_u32(desc2, 32).unwrap();
    ctx.memory_mut().store_u32(desc2 + 4, dst).unwrap();
    write(&mut ctx, 1, GPIO_COMMIT, desc2).unwrap();
    assert_eq!(ctx.io_ref().journal.as_slice(), &expect.words);
}

#[test]
fn gpio_log_and_cyclecount() {
    let mut ctx = MachineContext::new(TestIo::new());
    ctx.memory_mut().store_region(HEAP_START, b"hi there\0").unwrap();
    write(&mut ctx, 0, GPIO_LOG, HEAP_START).unwrap();
    assert_eq!(ctx.io_ref().logs, vec![b"hi there".to_vec()]);
    // The cycle count request stages the current cycle into the input
    // region.
    write(&mut ctx, 42, GPIO_CYCLECOUNT, 0).unwrap();
    assert_eq!(ctx.memory_ref().load_u32(INPUT_START), Ok(42));
    // A nonzero request value is a fault.
    assert_eq!(write(&mut ctx, 43, GPIO_CYCLECOUNT, 1), Err(ExecError::GuestFault));
}

#[test]
fn call_dispatches_log_formatting() {
    let mut ctx = MachineContext::new(TestIo::new());
    let args = vec![Fp::new(42), Fp::new(0x1234), Fp::new(7)];
    let mut outs: Vec<Fp> = Vec::new();
    ctx.call(StepOp::Log, b"cycle %u: pc=%8x, delta=%d", args.as_slice(), &mut outs).unwrap();
    assert_eq!(ctx.io_ref().logs, vec![b"cycle 42: pc=00001234, delta=7".to_vec()]);
}

#[test]
fn format_c_style_rules() {
    assert_eq!(format_c_style(b"plain", &[]).unwrap(), b"plain".to_vec());
    assert_eq!(format_c_style(b"%u", &[0]).unwrap(), b"0".to_vec());
    assert_eq!(format_c_style(b"%5u!", &[123]).unwrap(), b"  123!".to_vec());
    assert_eq!(format_c_style(b"%x", &[0xdeadbeef]).unwrap(), b"deadbeef".to_vec());
    assert_eq!(format_c_style(b"%08x", &[0x2a]).unwrap(), b"0000002a".to_vec());
    // A signed conversion renders a two's-complement negative.
    assert_eq!(format_c_style(b"%d", &[0xffff_fffe]).unwrap(), b"-2".to_vec());
    assert_eq!(format_c_style(b"%4d", &[0xffff_fffe]).unwrap(), b"  -2".to_vec());
    // Missing or leftover arguments, or an unknown conversion, fail.
    assert!(format_c_style(b"%u %u", &[1]).is_err());
    assert!(format_c_style(b"done", &[1]).is_err());
    assert!(format_c_style(b"%q", &[1]).is_err());
}

#[test]
fn gpio_fault_hands_over_the_message() {
    let mut ctx = MachineContext::new(TestIo::new());
    ctx.memory_mut().store_region(HEAP_START, b"boom\0").unwrap();
    // The handler receives the message and its error propagates.
    assert_eq!(write(&mut ctx, 0, GPIO_FAULT, HEAP_START), Err(ExecError::GuestFault));
    assert_eq!(ctx.io_ref().faults, vec![b"boom".to_vec()]);
    // An unterminated or unmapped message is itself a fault, without
    // reaching the handler.
    let mut ctx = MachineContext::new(TestIo::new());
    assert_eq!(write(&mut ctx, 0, GPIO_FAULT, HEAP_START), Err(ExecError::GuestFault));
    assert!(ctx.io_ref().faults.is_empty());
}

#[test]
fn gpio_sendrecv_stages_the_reply() {
    let mut io = TestIo::new();
    io.reply = vec![0xaa, 0xbb, 0xcc];
    let mut ctx = MachineContext::new(io);
    // The request: channel and size words, then the request bytes.
    write(&mut ctx, 0, GPIO_SENDRECV_CHANNEL, 7).unwrap();
    write(&mut ctx, 1, GPIO_SENDRECV_SIZE, 2).unwrap();
    ctx.memory_mut().store_region(HEAP_START, b"hi").unwrap();
    write(&mut ctx, 2, GPIO_SENDRECV_ADDR, HEAP_START).unwrap();
    // The reply's length word, then its bytes zero-padded to a word.
    assert_eq!(ctx.memory_ref().load_u32(INPUT_START), Ok(3));
    assert_eq!(ctx.memory_ref().load_u32(INPUT_START + 4), Ok(0x00ccbbaa));
}

#[test]
fn align_up_rounds_to_alignment() {
    assert_eq!(align_up(0, 4), 0);
    assert_eq!(align_up(1, 4), 4);
    assert_eq!(align_up(4, 4), 4);
    assert_eq!(align_up(5, 8), 8);
    assert_eq!(align_up(17, 16), 32);
}

struct Recorder {
    rows: Vec<Vec<u32>>,
    body_cycles: usize,
}

impl StepHandler for Recorder {
    fn step(&mut self, code: &[Fp], fini: usize) -> Result<bool, ExecError> {
        self.rows.push(code.iter().map(|f| f.as_u32()).collect());
        if fini == 1 {
            self.body_cycles -= 1;
            Ok(self.body_cycles > 0)
        } else {
            Ok(true)
        }
    }
}

#[test]
fn loader_emits_control_rows() {
    let image = vec![(0x400u32, 0x1234_5678u32), (0x2000_0000u32, 0x9abc_def0u32)];
    let entry = 0x400u32;
    let rec = Recorder { rows: Vec::new(), body_cycles: 80 };
    let (rec, _) = load_code(entry, &image, rec).unwrap();
    let rows = &rec.rows;
    // init, two loads, reset, 80 body cycles, fini.
    assert_eq!(rows.len(), 1 + 2 + 1 + 80 + 1);
    assert_eq!(rows[0][IDX_TYPE_INIT], 1);
    assert_eq!(rows[0][IDX_CYCLE], 0);
    // The first load carries the word address, the write-once flag, and
    // the data halves.
    assert_eq!(rows[1][IDX_TYPE_LOAD], 1);
    assert_eq!(rows[1][IDX_P1], 0x400 / 4);
    assert_eq!(rows[1][IDX_P2], 0);
    assert_eq!(rows[1][IDX_DATA1_LO], 0x5678);
    assert_eq!(rows[1][IDX_DATA1_HI], 0x1234);
    // The second load sits in the write-once half.
    assert_eq!(rows[2][IDX_P2], 1);
    // Reset carries the entry address.
    assert_eq!(rows[3][IDX_TYPE_RESET], 1);
    assert_eq!(rows[3][IDX_P1], entry);
    // Body: the first cycle starts the SHA schedule with the last initial
    // state words.
    let body = &rows[4];
    assert_eq!(body[IDX_SHA_CTRL], 1);
    assert_eq!(body[IDX_P1], 0);
    assert_eq!(body[IDX_P2], 1);
    assert_eq!(body[IDX_DATA1_LO], 0xa54f_f53a & 0xffff);
    assert_eq!(body[IDX_DATA1_HI], 0xa54f_f53a >> 16);
    assert_eq!(body[IDX_DATA2_LO], 0x5be0_cd19 & 0xffff);
    assert_eq!(body[IDX_DATA2_HI], 0x5be0_cd19 >> 16);
    // Schedule phase 4 loads the first round constant.
    let body = &rows[8];
    assert_eq!(body[IDX_SHA_LOAD], 1);
    assert_eq!(body[IDX_DATA1_LO], 0x428a_2f98 & 0xffff);
    assert_eq!(body[IDX_DATA1_HI], 0x428a_2f98 >> 16);
    // The last row is the fini cycle.
    assert_eq!(rows[rows.len() - 1][IDX_TYPE_FINI], 1);
}
