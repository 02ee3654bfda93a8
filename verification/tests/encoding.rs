use zkvm::adapter::{CircuitInfo, TapsProvider, TapSet, VerifyAdapter};
use zkvm::errors::VerificationError;
use zkvm::fp::{Fp, P};
use zkvm::method_id::MethodId;
use zkvm::read_iop::ReadIOP;
use zkvm::receipt::{Receipt, Prover, into_words};
use zkvm::sha::Sha;

#[test]
fn into_words_is_little_endian() {
    let r = into_words(&[1, 0, 0, 0, 2, 0, 0, 0]).unwrap();
    assert_eq!(r, vec![1, 2]);
    let r = into_words(&[0x78, 0x56, 0x34, 0x12]).unwrap();
    assert_eq!(r, vec![0x12345678]);
    assert!(into_words(&[1, 2, 3]).is_err());
}

#[test]
fn receipt_accessors() {
    let receipt = Receipt::new(vec![0xad, 0xde, 0, 0], vec![7, 8, 9]);
    assert_eq!(receipt.get_seal(), &[7, 8, 9]);
    assert_eq!(receipt.get_journal(), &[0xad, 0xde, 0, 0]);
    assert_eq!(receipt.get_journal_vec().unwrap(), vec![0xdead]);
    let odd = Receipt::new(vec![1, 2, 3], vec![]);
    assert!(odd.get_journal_vec().is_err());
}

#[test]
fn prover_stages_input() {
    let mut p = Prover::new(b"not a real elf", b"not a real id");
    p.add_input(&[1, 2]);
    p.add_input(&[3]);
    assert_eq!(p.get_input(), &[1, 2, 3]);
    assert_eq!(p.get_output(), b"");
    assert_eq!(p.get_output_vec().unwrap(), Vec::<u32>::new());
}

#[test]
fn method_id_round_trip() {
    let mut bytes = Vec::new();
    for i in 0..64u32 {
        bytes.push(i as u8);
    }
    let id = MethodId::from_slice(bytes.as_slice());
    assert_eq!(id.table.len(), 2);
    // Words are read little-endian: the first word is 03020100.
    assert_eq!(id.table[0].words[0], 0x03020100);
    assert_eq!(id.as_slice(), bytes);
    // A trailing fragment is dropped.
    bytes.push(0xff);
    let id2 = MethodId::from_slice(bytes.as_slice());
    assert_eq!(id2, id);
}

#[test]
fn method_id_from_words() {
    let words: Vec<u32> = (0..16).collect();
    let id = MethodId::from_words(words.as_slice());
    assert_eq!(id.table.len(), 2);
    assert_eq!(id.table[1].words, [8, 9, 10, 11, 12, 13, 14, 15]);
}

struct TestCircuit;

impl CircuitInfo for TestCircuit {
    fn output_size(&self) -> usize {
        2
    }

    fn mix_size(&self) -> usize {
        3
    }
}

impl TapsProvider for TestCircuit {
    fn get_taps(&self) -> TapSet {
        TapSet { taps: Vec::new(), combo_count: 0 }
    }
}

#[test]
fn adapter_reads_outputs_and_size() {
    let sha = Sha::new();
    let circuit = TestCircuit;
    let mut adapter = VerifyAdapter::new(&circuit);
    let stream = [5u32, P + 6, 10];
    let mut iop = ReadIOP::new(&sha, &stream);
    adapter.execute(&mut iop).unwrap();
    let out = adapter.out.clone().unwrap();
    assert_eq!(out, vec![Fp::new(5), Fp::new(6)]);
    assert_eq!(adapter.po2(), 10);
    assert_eq!(adapter.steps, 1024);
    assert!(iop.verify_complete().is_ok());
}

#[test]
fn adapter_rejects_bad_streams() {
    let sha = Sha::new();
    let circuit = TestCircuit;
    // Too short for the outputs and the size word.
    let mut adapter = VerifyAdapter::new(&circuit);
    let mut iop = ReadIOP::new(&sha, &[1, 2]);
    assert_eq!(adapter.execute(&mut iop), Err(VerificationError::MalformedProof));
    // An oversized trace size is rejected.
    let mut adapter = VerifyAdapter::new(&circuit);
    let stream = [0u32, 0, 25];
    let mut iop = ReadIOP::new(&sha, &stream);
    assert_eq!(adapter.execute(&mut iop), Err(VerificationError::MalformedProof));
}

#[test]
fn adapter_accumulate_is_deterministic() {
    let sha = Sha::new();
    let circuit = TestCircuit;
    let stream = [1u32, 2, 10];

    let mut a1 = VerifyAdapter::new(&circuit);
    let mut iop1 = ReadIOP::new(&sha, &stream);
    a1.execute(&mut iop1).unwrap();
    a1.accumulate(&mut iop1);

    let mut a2 = VerifyAdapter::new(&circuit);
    let mut iop2 = ReadIOP::new(&sha, &stream);
    a2.execute(&mut iop2).unwrap();
    a2.accumulate(&mut iop2);

    assert_eq!(a1.mix.len(), 3);
    assert_eq!(a1.mix, a2.mix);
}
