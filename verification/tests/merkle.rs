use rand::RngExt;
use zkvm::errors::VerificationError;
use zkvm::fp::Fp;
use zkvm::merkle::{MerkleTreeProver, MerkleTreeVerifier};
use zkvm::read_iop::ReadIOP;
use zkvm::sha::Sha;
use zkvm::write_iop::WriteIOP;

fn init_prover(rows: usize, cols: usize, queries: usize) -> MerkleTreeProver {
    // Initialize a prover with leaves u32::MAX/2, u32::MAX/2 - 1, ...
    let size: u32 = (rows * cols) as u32;
    let mut data = Vec::new();
    for val in 0..size {
        data.push(Fp::from_u64((u32::MAX / 2) as u64 - val as u64));
    }
    MerkleTreeProver::new(&data, rows, cols, queries)
}

fn possibly_bad_verify(rows: usize, cols: usize, queries: usize, bad_query: usize) {
    let sha = Sha::new();
    let prover = init_prover(rows, cols, queries);

    let mut iop = WriteIOP::new(&sha);
    prover.commit(&mut iop);
    for _query in 0..queries {
        let r_idx = (iop.rng.next_u32() as usize) % rows;
        let col = prover.prove(&mut iop, r_idx);
        for c_idx in 0..cols {
            assert_eq!(
                col[c_idx],
                Fp::from_u64((u32::MAX / 2) as u64 - ((r_idx + c_idx * rows) as u64)),
            );
        }
    }
    {
        let mut r_iop = ReadIOP::new(&sha, iop.stream.as_slice());
        let verifier = MerkleTreeVerifier::new(&mut r_iop, rows, cols, queries).unwrap();
        assert_eq!(verifier.root(), prover.root());
        let mut err = false;
        for query in 0..queries {
            let r_idx = (r_iop.next_u32() as usize) % rows;
            if query == bad_query {
                assert!(rows > 1, "cannot test a bad query with a single row");
                let r_idx = (r_idx + 1) % rows;
                match verifier.verify(&mut r_iop, r_idx) {
                    Ok(_) => panic!("wrongly passed verify on the wrong row"),
                    Err(VerificationError::InvalidProof) => {}
                    Err(_) => panic!("failed validation for an unexpected reason"),
                }
                err = true;
                break;
            }
            let col = verifier.verify(&mut r_iop, r_idx).unwrap();
            for c_idx in 0..cols {
                assert_eq!(
                    col[c_idx],
                    Fp::new((u32::MAX / 2) - ((r_idx + c_idx * rows) as u32)),
                );
            }
        }
        if !err {
            r_iop.verify_complete().unwrap();
        }
    }
}

fn randomize_sizes() -> (usize, usize, usize) {
    // Chooses random values of rows, cols and queries such that rows is a
    // power of 2 and cols and queries tend to take small values.
    let mut rng = rand::rng();
    let rows = 1usize << (rng.random::<u8>() % 10);
    let cols = ((rng.random::<u64>() as usize) % (1 << (rng.random::<u8>() % 10))) + 1;
    let queries = ((rng.random::<u64>() as usize) % (1 << (rng.random::<u8>() % 10))) + 1;
    (rows, cols, queries)
}

#[test]
fn merkle_cpu_1_1_1_verify() {
    // A complete verification with no bad queries (bad_query out of range).
    possibly_bad_verify(1, 1, 1, 4);
}

#[test]
fn merkle_cpu_4_4_2_verify() {
    // A complete verification with no bad queries (bad_query out of range).
    possibly_bad_verify(4, 4, 2, 4);
}

#[test]
fn merkle_cpu_randomized_verify() {
    for _rep in 0..100 {
        let (rows, cols, queries) = randomize_sizes();
        // A complete verification with no bad queries.
        possibly_bad_verify(rows, cols, queries, queries + 1);
    }
}

#[test]
fn merkle_cpu_2_1_1_bad_query() {
    // Bad queries are tested by incrementing the row, so rows >= 2.
    possibly_bad_verify(2, 1, 1, 0);
}

#[test]
fn merkle_cpu_4_4_2_bad_query() {
    let mut rng = rand::rng();
    let queries = 2;
    let bad_query = (rng.random::<u64>() as usize) % queries;
    possibly_bad_verify(4, 4, queries, bad_query);
}

#[test]
fn merkle_cpu_randomized_bad_query() {
    let mut rng = rand::rng();
    let (rows, cols, queries) = randomize_sizes();
    // At least two rows are required to test querying an incorrect row.
    let rows = if rows == 1 { 2 } else { rows };
    let bad_query = (rng.random::<u64>() as usize) % queries;
    possibly_bad_verify(rows, cols, queries, bad_query);
}

/// Run the whole verification against a (possibly corrupted) stream and say
/// whether it all checked out.
fn full_verify(stream: &[u32], prover: &MerkleTreeProver, rows: usize, cols: usize, queries: usize)
    -> bool {
    let sha = Sha::new();
    let mut r_iop = ReadIOP::new(&sha, stream);
    let verifier = match MerkleTreeVerifier::new(&mut r_iop, rows, cols, queries) {
        Ok(v) => v,
        Err(_) => return false,
    };
    if verifier.root() != prover.root() {
        return false;
    }
    for _query in 0..queries {
        let r_idx = (r_iop.next_u32() as usize) % rows;
        let col = match verifier.verify(&mut r_iop, r_idx) {
            Ok(c) => c,
            Err(_) => return false,
        };
        for c_idx in 0..cols {
            if col[c_idx] != Fp::new((u32::MAX / 2) - ((r_idx + c_idx * rows) as u32)) {
                return false;
            }
        }
    }
    r_iop.verify_complete().is_ok()
}

#[test]
fn merkle_verifier_returns_true_column() {
    // Build (rows=4, cols=4, queries=2); open row 2; verification returns
    // the true column; claiming the wrong row fails with InvalidProof.
    let sha = Sha::new();
    let prover = init_prover(4, 4, 2);
    let mut iop = WriteIOP::new(&sha);
    prover.commit(&mut iop);
    let col = prover.prove(&mut iop, 2);
    assert_eq!(col.len(), 4);

    let mut r_iop = ReadIOP::new(&sha, iop.stream.as_slice());
    let verifier = MerkleTreeVerifier::new(&mut r_iop, 4, 4, 2).unwrap();
    let got = verifier.verify(&mut r_iop, 2).unwrap();
    for c_idx in 0..4 {
        assert_eq!(got[c_idx], Fp::new((u32::MAX / 2) - ((2 + c_idx * 4) as u32)));
    }
    assert!(r_iop.verify_complete().is_ok());

    // The same stream claimed at a different row is rejected.
    let mut r_iop = ReadIOP::new(&sha, iop.stream.as_slice());
    let verifier = MerkleTreeVerifier::new(&mut r_iop, 4, 4, 2).unwrap();
    assert_eq!(verifier.verify(&mut r_iop, 3), Err(VerificationError::InvalidProof));
}

#[test]
fn merkle_any_single_bit_flip_fails() {
    // For a valid build, flipping any single bit of the emitted stream
    // makes verification fail.
    let (rows, cols, queries) = (4usize, 4usize, 2usize);
    let sha = Sha::new();
    let prover = init_prover(rows, cols, queries);
    let mut iop = WriteIOP::new(&sha);
    prover.commit(&mut iop);
    for _query in 0..queries {
        let r_idx = (iop.rng.next_u32() as usize) % rows;
        prover.prove(&mut iop, r_idx);
    }
    let stream = iop.stream.clone();
    assert!(full_verify(stream.as_slice(), &prover, rows, cols, queries));
    for word in 0..stream.len() {
        for bit in 0..32 {
            let mut bad = stream.clone();
            bad[word] ^= 1u32 << bit;
            assert!(
                !full_verify(bad.as_slice(), &prover, rows, cols, queries),
                "flip of word {} bit {} was not caught",
                word,
                bit,
            );
        }
    }
}

#[test]
fn merkle_truncated_stream_is_malformed() {
    let sha = Sha::new();
    let prover = init_prover(4, 4, 2);
    let mut iop = WriteIOP::new(&sha);
    prover.commit(&mut iop);
    prover.prove(&mut iop, 1);
    let stream = iop.stream.clone();
    // Too short for even the committed top layer.
    let mut r_iop = ReadIOP::new(&sha, &stream[0..8]);
    assert_eq!(
        MerkleTreeVerifier::new(&mut r_iop, 4, 4, 2).err(),
        Some(VerificationError::MalformedProof),
    );
    // Too short for the opened column and path.
    let mut r_iop = ReadIOP::new(&sha, &stream[0..stream.len() - 1]);
    let verifier = MerkleTreeVerifier::new(&mut r_iop, 4, 4, 2).unwrap();
    assert_eq!(
        verifier.verify(&mut r_iop, 1).err(),
        Some(VerificationError::MalformedProof),
    );
}
