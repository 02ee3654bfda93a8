use zkvm::fp::Fp;
use zkvm::rng::ShaRng;
use zkvm::sha::{Sha, Digest, hash_bytes, hash_pair};
use zkvm::read_iop::ReadIOP;
use zkvm::write_iop::WriteIOP;

#[test]
fn sha_known_answers() {
    // The committed journal of a guest hashing "abc" decodes to this digest.
    let d = hash_bytes(b"abc");
    assert_eq!(
        d.words,
        [0xba7816bf, 0x8f01cfea, 0x414140de, 0x5dae2223, 0xb00361a3, 0x96177a9c, 0xb410ff61,
            0xf20015ad],
    );
    // The empty string.
    let d = hash_bytes(b"");
    assert_eq!(
        d.words,
        [0xe3b0c442, 0x98fc1c14, 0x9afbf4c8, 0x996fb924, 0x27ae41e4, 0x649b934c, 0xa495991b,
            0x7852b855],
    );
}

#[test]
fn sha_pair_differs_by_order() {
    let a = hash_bytes(b"left");
    let b = hash_bytes(b"right");
    assert_ne!(hash_pair(&a, &b), hash_pair(&b, &a));
}

#[test]
fn rng_is_deterministic() {
    // Two transcripts that mix the same digests draw the same values.
    let sha = Sha::new();
    let mut r1 = ShaRng::new(&sha);
    let mut r2 = ShaRng::new(&sha);
    let d = hash_bytes(b"commitment");
    r1.mix(&d);
    r2.mix(&d);
    for _ in 0..20 {
        assert_eq!(r1.next_u32(), r2.next_u32());
    }
    assert_eq!(r1.next_fp(), r2.next_fp());
    assert_eq!(r1.next_fp4(), r2.next_fp4());
}

#[test]
fn rng_mix_changes_the_stream() {
    let sha = Sha::new();
    let mut r1 = ShaRng::new(&sha);
    let mut r2 = ShaRng::new(&sha);
    r1.mix(&hash_bytes(b"one"));
    r2.mix(&hash_bytes(b"two"));
    assert_ne!(r1.next_u32(), r2.next_u32());
}

#[test]
fn write_read_round_trip() {
    let sha = Sha::new();
    let mut w = WriteIOP::new(&sha);
    w.write_u32_slice(&[1, 2, 3]);
    let fps = vec![Fp::new(10), Fp::new(20)];
    w.write_fp_slice(fps.as_slice());
    let ds = vec![hash_bytes(b"node")];
    w.write_digest_slice(ds.as_slice());
    w.commit(&hash_bytes(b"root"));
    let c1 = w.rng.next_u32();

    let stream = w.stream.clone();
    assert_eq!(stream.len(), 3 + 2 + 8);
    let mut r = ReadIOP::new(&sha, stream.as_slice());
    let head = r.read_u32s(3);
    assert_eq!(head, &[1, 2, 3]);
    let (got_fps, raw) = r.read_fps(2);
    assert_eq!(got_fps, fps);
    assert_eq!(raw, &[10, 20]);
    let got_ds = r.read_digests(1);
    assert_eq!(got_ds[0], ds[0]);
    r.commit(&hash_bytes(b"root"));
    // The verifier, having mirrored the transcript, draws the same
    // challenge as the prover.
    assert_eq!(r.next_u32(), c1);
    assert!(r.verify_complete().is_ok());
}

#[test]
fn verify_complete_rejects_leftover_words() {
    let sha = Sha::new();
    let mut r = ReadIOP::new(&sha, &[5, 6, 7]);
    let _ = r.read_u32s(2);
    assert!(r.verify_complete().is_err());
    let _ = r.read_u32s(1);
    assert!(r.verify_complete().is_ok());
}

#[test]
fn read_fps_reduces_modulo_p() {
    let sha = Sha::new();
    let stream = [zkvm::fp::P + 5];
    let mut r = ReadIOP::new(&sha, &stream);
    let (fps, raw) = r.read_fps(1);
    assert_eq!(fps[0].as_u32(), 5);
    assert_eq!(raw[0], zkvm::fp::P + 5);
}

#[test]
fn digest_equality_is_by_words() {
    let a = Digest::new([1, 2, 3, 4, 5, 6, 7, 8]);
    let b = Digest::new([1, 2, 3, 4, 5, 6, 7, 8]);
    let c = Digest::new([1, 2, 3, 4, 5, 6, 7, 9]);
    assert_eq!(a, b);
    assert_ne!(a, c);
    assert_eq!(Digest::zero().words, [0u32; 8]);
}
