//! Merkle tree commitment over a row-major matrix of field elements.
//!
//! The prover hashes each of `rows` columns into a leaf, pairwise-hashes
//! layers up to the root, commits by writing the whole top layer and mixing
//! the root, and opens single columns with the sibling path up to the top
//! layer. The verifier reads the top layer, recomputes the root, and checks
//! each opened column against it.

use vstd::prelude::*;
use vstd::arithmetic::power2::pow2;
use crate::errors::VerificationError;
use crate::fp::{Fp, P, words_of_fps, fps_to_words};
use crate::sha::{Digest, digest_of_words, digest_of_pair, hash_raw_words, hash_pair};
use crate::write_iop::{WriteIOP, words_of_digests};
use crate::read_iop::ReadIOP;

verus! {

/// The base-2 logarithm of a power of two.
pub open spec fn log2_of(n: nat) -> nat
    decreases n,
{
    if n <= 1 {
        0
    } else {
        1 + log2_of(n / 2)
    }
}

/// The smallest layer l with `lo <= l <= layers` whose size covers the
/// query count, or `layers` if none does.
pub open spec fn top_layer_from(lo: nat, layers: nat, queries: nat) -> nat
    decreases layers - lo,
{
    if lo >= layers || pow2(lo) >= queries {
        lo
    } else {
        top_layer_from(lo + 1, layers, queries)
    }
}

/// The top layer of a tree with `layers` layers and `queries` queries.
pub open spec fn top_layer_of(layers: nat, queries: nat) -> nat {
    top_layer_from(0, layers, queries)
}

proof fn lemma_log2_pow2(l: nat)
    ensures
        log2_of(pow2(l)) == l,
    decreases l,
{
    vstd::arithmetic::power2::lemma_pow2_pos(l);
    if l == 0 {
        assert(pow2(0) == 1) by {
            vstd::arithmetic::power2::lemma2_to64();
        }
    } else {
        lemma_log2_pow2((l - 1) as nat);
        assert(pow2(l) == 2 * pow2((l - 1) as nat)) by {
            vstd::arithmetic::power2::lemma_pow2_unfold(l);
        }
        vstd::arithmetic::power2::lemma_pow2_pos((l - 1) as nat);
    }
}

/// Size parameters of a Merkle tree.
#[derive(Clone, Copy, Debug, PartialEq, Eq, Structural)]
pub struct MerkleTreeParams {
    /// Number of rows; the number of leaves, a power of two.
    pub row_size: usize,
    /// Number of columns; the values revealed per query.
    pub col_size: usize,
    /// Expected number of queries.
    pub queries: usize,
    /// log2 of `row_size`.
    pub layers: usize,
    /// The layer that is committed in full.
    pub top_layer: usize,
    /// The size of that layer, `2^top_layer`.
    pub top_size: usize,
}

impl MerkleTreeParams {
    /// The fields are mutually consistent.
    pub open spec fn wf(self) -> bool {
        &&& self.row_size as nat == pow2(self.layers as nat)
        &&& self.layers == log2_of(self.row_size as nat)
        &&& self.top_layer == top_layer_of(self.layers as nat, self.queries as nat)
        &&& self.top_size as nat == pow2(self.top_layer as nat)
        &&& self.top_layer <= self.layers
        &&& self.row_size >= 1
        &&& self.col_size >= 1
        &&& self.queries >= 1
        &&& self.top_size <= self.row_size
    }

    /// Compute the derived sizes from rows, columns and query count.
    pub fn new(row_size: usize, col_size: usize, queries: usize) -> (r: MerkleTreeParams)
        requires
            exists|l: nat| row_size as nat == pow2(l),
            row_size >= 1,
            col_size >= 1,
            queries >= 1,
        ensures
            r.wf(),
            r.row_size == row_size,
            r.col_size == col_size,
            r.queries == queries,
    {
        let ghost l0 = choose|l: nat| row_size as nat == pow2(l);
        let mut layers: usize = 0;
        let mut size: usize = 1;
        proof {
            vstd::arithmetic::power2::lemma2_to64();
        }
        while size < row_size
            invariant
                1 <= size,
                size as nat == pow2(layers as nat),
                size <= row_size,
                row_size as nat == pow2(l0),
                layers <= l0,
            decreases row_size - size,
        {
            proof {
                vstd::arithmetic::power2::lemma2_to64();
                if layers as nat == 64 {
                    assert(false);
                }
                if layers as nat > 64 {
                    vstd::arithmetic::power2::lemma_pow2_strictly_increases(64, layers as nat);
                    assert(false);
                }
                if layers as nat > l0 {
                    vstd::arithmetic::power2::lemma_pow2_strictly_increases(l0, layers as nat);
                }
                assert(layers < l0);
                if layers as nat + 1 < l0 {
                    vstd::arithmetic::power2::lemma_pow2_strictly_increases(layers as nat + 1, l0);
                }
                vstd::arithmetic::power2::lemma_pow2_unfold(layers as nat + 1);
            }
            size = size * 2;
            layers = layers + 1;
        }
        proof {
            if (layers as nat) < l0 {
                vstd::arithmetic::power2::lemma_pow2_strictly_increases(layers as nat, l0);
            }
            assert(layers == l0);
            lemma_log2_pow2(l0);
        }
        let mut top_layer: usize = 0;
        let mut top_size: usize = 1;
        while top_layer < layers && top_size < queries
            invariant
                1 <= top_size,
                top_size as nat == pow2(top_layer as nat),
                top_layer <= layers,
                size as nat == pow2(layers as nat),
                size <= row_size,
                row_size as nat == pow2(layers as nat),
                top_layer_of(layers as nat, queries as nat) == top_layer_from(
                    top_layer as nat,
                    layers as nat,
                    queries as nat,
                ),
            decreases layers - top_layer,
        {
            proof {
                vstd::arithmetic::power2::lemma_pow2_unfold(top_layer as nat + 1);
                if top_layer as nat + 1 < layers as nat {
                    vstd::arithmetic::power2::lemma_pow2_strictly_increases(
                        top_layer as nat + 1,
                        layers as nat,
                    );
                }
            }
            top_size = top_size * 2;
            top_layer = top_layer + 1;
        }
        proof {
            if (top_layer as nat) < (layers as nat) {
                vstd::arithmetic::power2::lemma_pow2_strictly_increases(
                    top_layer as nat,
                    layers as nat,
                );
            }
        }
        MerkleTreeParams { row_size, col_size, queries, layers, top_layer, top_size }
    }
}

/// The column of a row-major matrix at row index `idx`.
pub open spec fn column(m: Seq<Fp>, rows: int, cols: int, idx: int) -> Seq<Fp> {
    Seq::new(cols as nat, |c: int| m[idx + c * rows])
}

/// The digest stored at heap position i of the tree over a matrix: leaves
/// hold column hashes, inner nodes hash their two children.
pub open spec fn node_digest(m: Seq<Fp>, rows: int, cols: int, i: int) -> Seq<u32>
    decreases 2 * rows - i,
    when 1 <= i && i < 2 * rows && rows >= 1
{
    if i >= rows {
        digest_of_words(words_of_fps(column(m, rows, cols, i - rows)))
    } else {
        digest_of_pair(
            node_digest(m, rows, cols, 2 * i),
            node_digest(m, rows, cols, 2 * i + 1),
        )
    }
}

/// The sibling digests emitted when opening heap index i, bottom up,
/// stopping at the committed top layer.
pub open spec fn path_digest_words(
    m: Seq<Fp>,
    rows: int,
    cols: int,
    i: int,
    top_size: int,
) -> Seq<u32>
    decreases i,
    when 1 <= i && i < 2 * rows && rows >= 1 && top_size >= 1
{
    if i < 2 * top_size {
        Seq::empty()
    } else {
        let other = if i % 2 == 0 {
            i + 1
        } else {
            i - 1
        };
        node_digest(m, rows, cols, other) + path_digest_words(m, rows, cols, i / 2, top_size)
    }
}

/// Merkle agreement law: a verifier heap whose committed layer holds the
/// honest node digests reconstructs the honest digest at every position
/// above it; in particular its root equals the prover's root.
pub proof fn lemma_verifier_heap_reconstructs_nodes(
    v: MerkleTreeVerifier,
    m: Seq<Fp>,
    rows: int,
    cols: int,
    j: int,
)
    requires
        v.wf(),
        rows >= 1,
        v.params().top_size <= rows,
        forall|k: int|
            v.params().top_size <= k < 2 * v.params().top_size ==> (#[trigger] v.top()[k])@
                == node_digest(m, rows, cols, k),
        1 <= j < 2 * v.params().top_size,
    ensures
        v.top()[j]@ == node_digest(m, rows, cols, j),
    decreases 2 * v.params().top_size - j,
{
    let ts = v.params().top_size as int;
    if j >= ts {
    } else {
        lemma_verifier_heap_reconstructs_nodes(v, m, rows, cols, 2 * j);
        lemma_verifier_heap_reconstructs_nodes(v, m, rows, cols, 2 * j + 1);
        assert(v.top()[j]@ == digest_of_pair(v.top()[2 * j]@, v.top()[2 * j + 1]@));
        assert(node_digest(m, rows, cols, j) == digest_of_pair(
            node_digest(m, rows, cols, 2 * j),
            node_digest(m, rows, cols, 2 * j + 1),
        ));
    }
}

/// The sibling digests of the climb from heap index i to the committed top
/// layer, as a sequence of digests.
pub open spec fn path_siblings(m: Seq<Fp>, rows: int, cols: int, i: int, top_size: int) -> Seq<
    Seq<u32>,
>
    decreases i,
    when 1 <= i && i < 2 * rows && rows >= 1 && top_size >= 1
{
    if i < 2 * top_size {
        Seq::empty()
    } else {
        let other = if i % 2 == 0 {
            i + 1
        } else {
            i - 1
        };
        seq![node_digest(m, rows, cols, other)] + path_siblings(m, rows, cols, i / 2, top_size)
    }
}

/// Merkle completeness law: folding a node's digest up through its honest
/// sibling digests reconstructs exactly the digest of the committed-layer
/// ancestor that the verifier compares against. An honestly opened column
/// therefore always verifies.
pub proof fn lemma_honest_path_folds_to_ancestor(
    m: Seq<Fp>,
    rows: int,
    cols: int,
    i: int,
    top_size: int,
)
    requires
        rows >= 1,
        top_size >= 1,
        1 <= i < 2 * rows,
        top_size <= rows,
    ensures
        path_fold(
            node_digest(m, rows, cols, i),
            path_siblings(m, rows, cols, i, top_size),
            i as nat,
        ) == node_digest(m, rows, cols, path_end(i as nat, top_size as nat) as int),
    decreases i,
{
    if i < 2 * top_size {
        assert(path_siblings(m, rows, cols, i, top_size) =~= Seq::<Seq<u32>>::empty());
    } else {
        let other = if i % 2 == 0 {
            i + 1
        } else {
            i - 1
        };
        let sibs = path_siblings(m, rows, cols, i, top_size);
        assert(sibs[0] == node_digest(m, rows, cols, other));
        assert(sibs.subrange(1, sibs.len() as int) =~= path_siblings(
            m,
            rows,
            cols,
            i / 2,
            top_size,
        ));
        // Combining a node with its sibling, in index order, is exactly the
        // parent's digest.
        let parent = i / 2;
        if i % 2 == 0 {
            assert(node_digest(m, rows, cols, parent) == digest_of_pair(
                node_digest(m, rows, cols, 2 * parent),
                node_digest(m, rows, cols, 2 * parent + 1),
            ));
            assert(2 * parent == i && 2 * parent + 1 == other);
        } else {
            assert(node_digest(m, rows, cols, parent) == digest_of_pair(
                node_digest(m, rows, cols, 2 * parent),
                node_digest(m, rows, cols, 2 * parent + 1),
            ));
            assert(2 * parent == other && 2 * parent + 1 == i);
        }
        lemma_honest_path_folds_to_ancestor(m, rows, cols, i / 2, top_size);
        assert((i / 2) as nat == (i as nat) / 2);
    }
}

/// Every node digest of a built tree is eight words: the prover's heap
/// stores them as digests.
pub proof fn lemma_node_digest_len(p: MerkleTreeProver, i: int)
    requires
        p.wf(),
        1 <= i < 2 * p.params().row_size,
    ensures
        node_digest(p.matrix(), p.params().row_size as int, p.params().col_size as int, i).len()
            == 8,
{
    assert(p.nodes()[i]@ == node_digest(
        p.matrix(),
        p.params().row_size as int,
        p.params().col_size as int,
        i,
    ));
}

/// Every sibling digest along a climb of a built tree is eight words.
pub proof fn lemma_path_siblings_len(p: MerkleTreeProver, i: int)
    requires
        p.wf(),
        1 <= i < 2 * p.params().row_size,
    ensures
        forall|k: int|
            0 <= k < path_siblings(
                p.matrix(),
                p.params().row_size as int,
                p.params().col_size as int,
                i,
                p.params().top_size as int,
            ).len() ==> (#[trigger] path_siblings(
                p.matrix(),
                p.params().row_size as int,
                p.params().col_size as int,
                i,
                p.params().top_size as int,
            )[k]).len() == 8,
    decreases i,
{
    let m = p.matrix();
    let rows = p.params().row_size as int;
    let cols = p.params().col_size as int;
    let ts = p.params().top_size as int;
    vstd::arithmetic::power2::lemma_pow2_pos(p.params().top_layer as nat);
    if i < 2 * ts {
    } else {
        let other = if i % 2 == 0 {
            i + 1
        } else {
            i - 1
        };
        if i % 2 == 0 {
            assert((2 * rows - 1) % 2 == 1) by (nonlinear_arith)
                requires
                    rows >= 1,
            ;
            assert(i != 2 * rows - 1);
        }
        lemma_node_digest_len(p, other);
        lemma_path_siblings_len(p, i / 2);
        let sibs = path_siblings(m, rows, cols, i, ts);
        let rest = path_siblings(m, rows, cols, i / 2, ts);
        assert forall|k: int| 0 <= k < sibs.len() implies (#[trigger] sibs[k]).len() == 8 by {
            if k >= 1 {
                assert(sibs[k] == rest[k - 1]);
            }
        }
    }
}

/// The flat path words that an opening emits are exactly the sibling
/// digests, eight words each, in climb order.
pub proof fn lemma_path_words_flatten(m: Seq<Fp>, rows: int, cols: int, i: int, top_size: int)
    requires
        rows >= 1,
        top_size >= 1,
        1 <= i < 2 * rows,
        forall|k: int|
            0 <= k < path_siblings(m, rows, cols, i, top_size).len() ==> (#[trigger] path_siblings(
                m,
                rows,
                cols,
                i,
                top_size,
            )[k]).len() == 8,
    ensures
        ({
            let words = path_digest_words(m, rows, cols, i, top_size);
            let sibs = path_siblings(m, rows, cols, i, top_size);
            &&& words.len() == 8 * sibs.len()
            &&& forall|k: int|
                0 <= k < sibs.len() ==> words.subrange(8 * k, 8 * k + 8) == #[trigger] sibs[k]
        }),
    decreases i,
{
    let words = path_digest_words(m, rows, cols, i, top_size);
    let sibs = path_siblings(m, rows, cols, i, top_size);
    if i < 2 * top_size {
    } else {
        let other = if i % 2 == 0 {
            i + 1
        } else {
            i - 1
        };
        let head = node_digest(m, rows, cols, other);
        let rest_sibs = path_siblings(m, rows, cols, i / 2, top_size);
        assert(head == sibs[0]);
        assert forall|k: int| 0 <= k < rest_sibs.len() implies (#[trigger] rest_sibs[k]).len()
            == 8 by {
            assert(rest_sibs[k] == sibs[k + 1]);
        }
        lemma_path_words_flatten(m, rows, cols, i / 2, top_size);
        let rest_words = path_digest_words(m, rows, cols, i / 2, top_size);
        assert forall|k: int| 0 <= k < sibs.len() implies words.subrange(8 * k, 8 * k + 8)
            == #[trigger] sibs[k] by {
            if k == 0 {
                assert(words.subrange(0, 8) =~= head);
            } else {
                assert(words.subrange(8 * k, 8 * k + 8) =~= rest_words.subrange(
                    8 * (k - 1),
                    8 * (k - 1) + 8,
                ));
                assert(sibs[k] == rest_sibs[k - 1]);
            }
        }
    }
}

/// The climb from a leaf ends inside the committed top layer.
pub proof fn lemma_path_end_in_top(i: nat, top_size: nat)
    requires
        top_size >= 1,
        i >= top_size,
    ensures
        top_size <= path_end(i, top_size) < 2 * top_size,
    decreases i,
{
    if i < 2 * top_size {
    } else {
        lemma_path_end_in_top(i / 2, top_size);
    }
}

/// Merkle completeness law: for an honestly opened column, the verifier's
/// climb - the column hash folded through the honest sibling digests -
/// reproduces exactly the digest that a verifier holding the honest top
/// layer compares against. An honest opening therefore always verifies.
pub proof fn lemma_honest_open_verifies(
    v: MerkleTreeVerifier,
    m: Seq<Fp>,
    rows: int,
    cols: int,
    idx: int,
)
    requires
        v.wf(),
        rows >= 1,
        0 <= idx < rows,
        v.params().top_size <= rows,
        2 * rows <= usize::MAX,
        forall|k: int|
            v.params().top_size <= k < 2 * v.params().top_size ==> (#[trigger] v.top()[k])@
                == node_digest(m, rows, cols, k),
    ensures
        ({
            let ts = v.params().top_size as int;
            let start = idx + rows;
            path_fold(
                digest_of_words(words_of_fps(column(m, rows, cols, idx))),
                path_siblings(m, rows, cols, start, ts),
                start as nat,
            ) == v.top()[path_end(start as nat, ts as nat) as int]@
        }),
{
    let ts = v.params().top_size as int;
    let start = idx + rows;
    // The leaf digest is the node digest at the leaf's heap position.
    assert(node_digest(m, rows, cols, start) == digest_of_words(
        words_of_fps(column(m, rows, cols, idx)),
    ));
    // Folding through the honest siblings reproduces the ancestor's digest.
    lemma_honest_path_folds_to_ancestor(m, rows, cols, start, ts);
    // That ancestor sits in the committed layer, where the verifier's heap
    // holds the honest digests.
    lemma_path_end_in_top(start as nat, ts as nat);
    lemma_verifier_heap_reconstructs_nodes(
        v,
        m,
        rows,
        cols,
        path_end(start as nat, ts as nat) as int,
    );
}

/// The Merkle commitment of a matrix: all interior digests, retained with
/// the matrix so that single columns can be opened later.
pub struct MerkleTreeProver {
    params: MerkleTreeParams,
    /// The retained matrix of values, row-major.
    matrix: Vec<Fp>,
    /// A heap-style array: node i has children 2i and 2i+1; index 0 unused;
    /// leaves sit at `[row_size, 2*row_size)`.
    nodes: Vec<Digest>,
}

impl MerkleTreeProver {
    pub closed spec fn params(self) -> MerkleTreeParams {
        self.params
    }

    pub closed spec fn matrix(self) -> Seq<Fp> {
        self.matrix@
    }

    pub closed spec fn nodes(self) -> Seq<Digest> {
        self.nodes@
    }

    /// The tree is fully built and consistent with the matrix.
    pub open spec fn wf(self) -> bool {
        &&& self.params().wf()
        &&& self.matrix().len() == self.params().row_size * self.params().col_size
        &&& self.nodes().len() == 2 * self.params().row_size
        &&& self.params().row_size < usize::MAX / 2
        &&& forall|i: int|
            1 <= i < 2 * self.params().row_size ==> (#[trigger] self.nodes()[i])@ == node_digest(
                self.matrix(),
                self.params().row_size as int,
                self.params().col_size as int,
                i,
            )
    }

    /// Generate a Merkle tree from a matrix of values.
    ///
    /// The proofs will prove a single column of values at a certain row.
    /// Layout is presumed to be packed row-major. The number of queries
    /// determines the size of the top layer; the verifier must be
    /// constructed with identical size parameters.
    pub fn new(matrix: &Vec<Fp>, rows: usize, cols: usize, queries: usize) -> (r: MerkleTreeProver)
        requires
            matrix@.len() == rows * cols,
            exists|l: nat| rows as nat == pow2(l),
            rows >= 1,
            rows < usize::MAX / 2,
            cols >= 1,
            queries >= 1,
        ensures
            r.wf(),
            r.matrix() == matrix@,
            r.params().row_size == rows,
            r.params().col_size == cols,
            r.params().queries == queries,
    {
        let params = MerkleTreeParams::new(rows, cols, queries);
        let mlen = matrix.len();
        let mut nodes: Vec<Digest> = Vec::new();
        let mut i: usize = 0;
        // Fill the lower half of the heap with zero digests; position 0 stays unused.
        while i < 2 * rows
            invariant
                i <= 2 * rows,
                rows < usize::MAX / 2,
                nodes@.len() == i,
            decreases 2 * rows - i,
        {
            nodes.push(Digest::zero());
            i = i + 1;
        }
        // Hash each column into its leaf.
        let mut idx: usize = 0;
        while idx < rows
            invariant
                idx <= rows,
                rows < usize::MAX / 2,
                cols >= 1,
                matrix@.len() == rows * cols,
                mlen == matrix@.len(),
                nodes@.len() == 2 * rows,
                forall|j: int|
                    rows <= j < rows + idx ==> (#[trigger] nodes@[j])@ == node_digest(
                        matrix@,
                        rows as int,
                        cols as int,
                        j,
                    ),
            decreases rows - idx,
        {
            let mut col: Vec<Fp> = Vec::new();
            let mut c: usize = 0;
            while c < cols
                invariant
                    c <= cols,
                    idx < rows,
                    cols >= 1,
                    matrix@.len() == rows * cols,
                    mlen == matrix@.len(),
                    col@.len() == c,
                    forall|k: int| 0 <= k < c ==> col@[k] == matrix@[idx + k * rows],
                decreases cols - c,
            {
                proof {
                    assert(idx + c * rows < rows * cols) by (nonlinear_arith)
                        requires
                            idx < rows,
                            c < cols,
                            rows >= 1,
                    ;
                }
                col.push(matrix[idx + c * rows]);
                c = c + 1;
            }
            proof {
                assert(col@ =~= column(matrix@, rows as int, cols as int, idx as int));
            }
            let words = fps_to_words(col.as_slice());
            let leaf = hash_raw_words(words.as_slice());
            nodes[rows + idx] = leaf;
            idx = idx + 1;
        }
        // Hash each layer up into its parent layer.
        let mut i: usize = rows;
        while i > 1
            invariant
                1 <= i <= rows,
                rows < usize::MAX / 2,
                cols >= 1,
                matrix@.len() == rows * cols,
                nodes@.len() == 2 * rows,
                forall|j: int|
                    i <= j < 2 * rows ==> (#[trigger] nodes@[j])@ == node_digest(
                        matrix@,
                        rows as int,
                        cols as int,
                        j,
                    ),
            decreases i,
        {
            i = i - 1;
            let parent = hash_pair(&nodes[2 * i], &nodes[2 * i + 1]);
            nodes[i] = parent;
        }
        MerkleTreeProver { params, matrix: matrix.clone(), nodes }
    }

    /// The root digest of the tree.
    pub fn root(&self) -> (r: Digest)
        requires
            self.wf(),
        ensures
            r@ == node_digest(
                self.matrix(),
                self.params().row_size as int,
                self.params().col_size as int,
                1,
            ),
    {
        self.nodes[1]
    }

    /// Write the top of the tree to the proof stream and commit to the root.
    pub fn commit(&self, iop: &mut WriteIOP)
        requires
            self.wf(),
        ensures
            final(iop).stream@ == old(iop).stream@ + words_of_digests(
                self.nodes().subrange(
                    self.params().top_size as int,
                    2 * self.params().top_size as int,
                ),
            ),
            final(iop).rng.pool_a() == digest_of_pair(
                old(iop).rng.pool_a(),
                self.nodes()[1]@,
            ),
            final(iop).rng.pool_b() == digest_of_pair(
                old(iop).rng.pool_b(),
                self.nodes()[1]@,
            ),
            final(iop).rng.used() == 0,
    {
        let top_size = self.params.top_size;
        let mut top: Vec<Digest> = Vec::new();
        let mut k: usize = 0;
        while k < top_size
            invariant
                k <= top_size,
                self.wf(),
                top_size == self.params().top_size,
                top@.len() == k,
                forall|j: int| 0 <= j < k ==> top@[j] == self.nodes()[top_size + j],
            decreases top_size - k,
        {
            top.push(self.nodes[top_size + k]);
            k = k + 1;
        }
        proof {
            assert(top@ =~= self.nodes().subrange(
                self.params().top_size as int,
                2 * self.params().top_size as int,
            ));
        }
        iop.write_digest_slice(top.as_slice());
        let root = self.root();
        iop.commit(&root);
    }

    /// Open the column at `idx`: write the column itself and the sibling
    /// digests up to the committed top layer, and return the column.
    ///
    /// The verifier is given the row index by other parts of the protocol;
    /// verification fails if the wrong row is claimed.
    pub fn prove(&self, iop: &mut WriteIOP, idx: usize) -> (r: Vec<Fp>)
        requires
            self.wf(),
            idx < self.params().row_size,
        ensures
            r@ == column(
                self.matrix(),
                self.params().row_size as int,
                self.params().col_size as int,
                idx as int,
            ),
            final(iop).stream@ == old(iop).stream@ + words_of_fps(r@) + path_digest_words(
                self.matrix(),
                self.params().row_size as int,
                self.params().col_size as int,
                idx + self.params().row_size,
                self.params().top_size as int,
            ),
            final(iop).rng == old(iop).rng,
    {
        let rows = self.params.row_size;
        let cols = self.params.col_size;
        let top_size = self.params.top_size;
        let mlen = self.matrix.len();
        proof {
            vstd::arithmetic::power2::lemma_pow2_pos(self.params().top_layer as nat);
        }
        let ghost m = self.matrix();
        let mut out: Vec<Fp> = Vec::new();
        let mut c: usize = 0;
        while c < cols
            invariant
                c <= cols,
                self.wf(),
                rows == self.params().row_size,
                cols == self.params().col_size,
                mlen == self.matrix().len(),
                idx < rows,
                out@.len() == c,
                forall|k: int| 0 <= k < c ==> out@[k] == self.matrix()[idx + k * rows],
            decreases cols - c,
        {
            proof {
                assert(idx + c * rows < rows * cols) by (nonlinear_arith)
                    requires
                        idx < rows,
                        c < cols,
                        rows >= 1,
                ;
            }
            out.push(self.matrix[idx + c * rows]);
            c = c + 1;
        }
        proof {
            assert(out@ =~= column(m, rows as int, cols as int, idx as int));
        }
        iop.write_fp_slice(out.as_slice());
        // Collect the sibling digests from the leaf up to the top layer.
        let mut path: Vec<Digest> = Vec::new();
        let mut i: usize = idx + rows;
        proof {
            assert(words_of_digests(path@) =~= Seq::empty());
            assert(words_of_digests(path@) + path_digest_words(
                m,
                rows as int,
                cols as int,
                i as int,
                top_size as int,
            ) =~= path_digest_words(m, rows as int, cols as int, i as int, top_size as int));
        }
        while i >= 2 * top_size
            invariant
                1 <= i < 2 * rows,
                self.wf(),
                rows == self.params().row_size,
                cols == self.params().col_size,
                top_size == self.params().top_size,
                top_size >= 1,
                m == self.matrix(),
                path_digest_words(m, rows as int, cols as int, (idx + rows) as int, top_size as int)
                    =~= words_of_digests(path@) + path_digest_words(
                    m,
                    rows as int,
                    cols as int,
                    i as int,
                    top_size as int,
                ),
            decreases i,
        {
            let other = if i % 2 == 0 {
                i + 1
            } else {
                i - 1
            };
            let ghost path0 = path@;
            path.push(self.nodes[other]);
            proof {
                assert(path_digest_words(m, rows as int, cols as int, i as int, top_size as int)
                    =~= node_digest(m, rows as int, cols as int, other as int)
                    + path_digest_words(m, rows as int, cols as int, i as int / 2, top_size as int));
                assert(words_of_digests(path@) =~= words_of_digests(path0) + self.nodes()[
                    other as int
                ]@);
            }
            i = i / 2;
        }
        proof {
            assert(path_digest_words(m, rows as int, cols as int, i as int, top_size as int)
                =~= Seq::empty());
            assert(words_of_digests(path@) + Seq::empty() =~= words_of_digests(path@));
        }
        iop.write_digest_slice(path.as_slice());
        out
    }
}

/// The size of the committed top layer for a tree with the given number of
/// rows and queries.
pub open spec fn spec_top_size(rows: nat, queries: nat) -> nat {
    pow2(top_layer_of(log2_of(rows), queries))
}

/// How many sibling digests are read when verifying heap index i.
pub open spec fn path_len(i: nat, top_size: nat) -> nat
    decreases i,
    when i >= 1 && top_size >= 1
{
    if i < 2 * top_size {
        0
    } else {
        1 + path_len(i / 2, top_size)
    }
}

/// The heap index at which the climb reaches the committed top layer.
pub open spec fn path_end(i: nat, top_size: nat) -> nat
    decreases i,
    when i >= 1 && top_size >= 1
{
    if i < 2 * top_size {
        i
    } else {
        path_end(i / 2, top_size)
    }
}

/// Fold a digest up the path: combine with each sibling, ordered by the
/// parity of the climbing index.
pub open spec fn path_fold(cur: Seq<u32>, sibs: Seq<Seq<u32>>, i: nat) -> Seq<u32>
    decreases sibs.len(),
{
    if sibs.len() == 0 {
        cur
    } else {
        let combined = if i % 2 == 0 {
            digest_of_pair(cur, sibs[0])
        } else {
            digest_of_pair(sibs[0], cur)
        };
        path_fold(combined, sibs.subrange(1, sibs.len() as int), i / 2)
    }
}

/// Fold the read top layer up to the root: each parent is the hash of its
/// two children.
#[verifier::rlimit(100)]
#[verifier::spinoff_prover]
fn fold_top_heap(heap: &mut Vec<Digest>, top_size: usize)
    requires
        1 <= top_size,
        top_size < usize::MAX / 2,
        old(heap)@.len() == 2 * top_size,
    ensures
        final(heap)@.len() == 2 * top_size,
        forall|j: int| top_size <= j < 2 * top_size ==> final(heap)@[j] == old(heap)@[j],
        forall|j: int|
            1 <= j < top_size ==> (#[trigger] final(heap)@[j])@ == digest_of_pair(
                final(heap)@[2 * j]@,
                final(heap)@[2 * j + 1]@,
            ),
{
    let mut i: usize = top_size;
    while i > 1
        invariant
            1 <= i <= top_size,
            top_size < usize::MAX / 2,
            heap@.len() == 2 * top_size,
            forall|j: int| top_size <= j < 2 * top_size ==> heap@[j] == old(heap)@[j],
            forall|j: int|
                i <= j < top_size ==> (#[trigger] heap@[j])@ == digest_of_pair(
                    heap@[2 * j]@,
                    heap@[2 * j + 1]@,
                ),
        decreases i,
    {
        i = i - 1;
        let parent = hash_pair(&heap[2 * i], &heap[2 * i + 1]);
        heap[i] = parent;
        proof {
            assert forall|j: int|
                i <= j < top_size implies (#[trigger] heap@[j])@ == digest_of_pair(
                heap@[2 * j]@,
                heap@[2 * j + 1]@,
            ) by {
                assert(2 * j > j);
            }
        }
    }
}

/// The verifier's side of a Merkle commitment: the top layer read from the
/// proof stream, folded up to the root that was committed.
pub struct MerkleTreeVerifier {
    params: MerkleTreeParams,
    /// A heap-style array of size `2 * top_size`: positions
    /// `[top_size, 2*top_size)` hold the top layer read from the stream,
    /// positions `[1, top_size)` hold the recomputed layers above it.
    top: Vec<Digest>,
}

impl MerkleTreeVerifier {
    pub closed spec fn params(self) -> MerkleTreeParams {
        self.params
    }

    pub closed spec fn top(self) -> Seq<Digest> {
        self.top@
    }

    pub open spec fn wf(self) -> bool {
        &&& self.params().wf()
        &&& self.params().row_size < usize::MAX / 2
        &&& 1 <= self.params().top_size
        &&& self.top().len() == 2 * self.params().top_size
        &&& forall|j: int|
            1 <= j < self.params().top_size ==> (#[trigger] self.top()[j])@ == digest_of_pair(
                self.top()[2 * j]@,
                self.top()[2 * j + 1]@,
            )
    }

    /// Read the top layer from the proof stream, recompute the root from it,
    /// and commit the root. Fails if the stream is too short.
    #[verifier::rlimit(100)]
    pub fn new(iop: &mut ReadIOP, row_size: usize, col_size: usize, queries: usize) -> (r: Result<
        MerkleTreeVerifier,
        VerificationError,
    >)
        requires
            old(iop).wf(),
            exists|l: nat| row_size as nat == pow2(l),
            row_size >= 1,
            row_size < usize::MAX / 2,
            col_size >= 1,
            queries >= 1,
        ensures
            final(iop).wf(),
            final(iop).stream() == old(iop).stream(),
            r is Ok <==> old(iop).pos() + 8 * spec_top_size(row_size as nat, queries as nat) <= old(
            iop).stream().len(),
            r is Err ==> r == Result::<MerkleTreeVerifier, VerificationError>::Err(
                VerificationError::MalformedProof,
            ) && *final(iop) == *old(iop),
            r matches Ok(v) ==> {
                let ts = spec_top_size(row_size as nat, queries as nat) as int;
                &&& v.wf()
                &&& v.params().row_size == row_size
                &&& v.params().col_size == col_size
                &&& v.params().queries == queries
                &&& v.params().top_size == ts
                &&& forall|k: int|
                    ts <= k < 2 * ts ==> (#[trigger] v.top()[k])@ == old(iop).stream().subrange(
                        old(iop).pos() + 8 * (k - ts),
                        old(iop).pos() + 8 * (k - ts) + 8,
                    )
                &&& final(iop).pos() == old(iop).pos() + 8 * ts
                &&& final(iop).rng().pool_a() == digest_of_pair(
                    old(iop).rng().pool_a(),
                    v.top()[1]@,
                )
                &&& final(iop).rng().pool_b() == digest_of_pair(
                    old(iop).rng().pool_b(),
                    v.top()[1]@,
                )
                &&& final(iop).rng().used() == 0
            },
    {
        let params = MerkleTreeParams::new(row_size, col_size, queries);
        let top_size = params.top_size;
        proof {
            vstd::arithmetic::power2::lemma_pow2_pos(params.top_layer as nat);
        }
        let rem = iop.remaining();
        proof {
            vstd::arithmetic::div_mod::lemma_fundamental_div_mod(rem as int, 8);
        }
        if rem / 8 < top_size {
            return Err(VerificationError::MalformedProof);
        }
        let tops = iop.read_digests(top_size);
        // Build the heap: the read layer at the bottom, parents above it.
        let mut heap: Vec<Digest> = Vec::new();
        let mut i: usize = 0;
        while i < top_size
            invariant
                i <= top_size,
                top_size < usize::MAX / 2,
                heap@.len() == i,
            decreases top_size - i,
        {
            heap.push(Digest::zero());
            i = i + 1;
        }
        let mut k: usize = 0;
        while k < top_size
            invariant
                k <= top_size,
                top_size < usize::MAX / 2,
                tops@.len() == top_size,
                heap@.len() == top_size + k,
                forall|j: int| top_size <= j < top_size + k ==> heap@[j] == tops@[j - top_size],
            decreases top_size - k,
        {
            heap.push(tops[k]);
            k = k + 1;
        }
        fold_top_heap(&mut heap, top_size);
        let root = heap[if top_size > 1 {
            1
        } else {
            top_size
        }];
        iop.commit(&root);
        let v = MerkleTreeVerifier { params, top: heap };
        proof {
            assert(v.top()[1] == root);
        }
        Ok(v)
    }

    /// The root digest recomputed from the committed top layer.
    pub fn root(&self) -> (r: Digest)
        requires
            self.wf(),
        ensures
            r@ == self.top()[1]@,
    {
        self.top[1]
    }

    /// Verify one opened column at row `idx` against the committed top
    /// layer, and return the column on success.
    pub fn verify(&self, iop: &mut ReadIOP, idx: usize) -> (r: Result<Vec<Fp>, VerificationError>)
        requires
            self.wf(),
            old(iop).wf(),
            idx < self.params().row_size,
        ensures
            final(iop).wf(),
            final(iop).stream() == old(iop).stream(),
            final(iop).rng() == old(iop).rng(),
            ({
                let rows = self.params().row_size as int;
                let cols = self.params().col_size as int;
                let ts = self.params().top_size as nat;
                let start = (idx + rows) as nat;
                let needed = cols + 8 * path_len(start, ts);
                let colwords = old(iop).stream().subrange(
                    old(iop).pos() as int,
                    old(iop).pos() + cols,
                );
                let sibs = Seq::new(
                    path_len(start, ts),
                    |k: int|
                        old(iop).stream().subrange(
                            old(iop).pos() + cols + 8 * k,
                            old(iop).pos() + cols + 8 * k + 8,
                        ),
                );
                if old(iop).pos() + needed > old(iop).stream().len() {
                    r == Result::<Vec<Fp>, VerificationError>::Err(
                        VerificationError::MalformedProof,
                    ) && *final(iop) == *old(iop)
                } else {
                    &&& final(iop).pos() == old(iop).pos() + needed
                    &&& (r is Ok <==> path_fold(digest_of_words(colwords), sibs, start)
                        == self.top()[path_end(start, ts) as int]@)
                    &&& (r matches Ok(col) ==> col@.len() == cols && (forall|c: int|
                        0 <= c < cols ==> (#[trigger] col@[c])@ == colwords[c] as int % P as int))
                    &&& (r is Err ==> r == Result::<Vec<Fp>, VerificationError>::Err(
                        VerificationError::InvalidProof,
                    ))
                }
            }),
    {
        let rows = self.params.row_size;
        let cols = self.params.col_size;
        let top_size = self.params.top_size;
        let ghost ts = top_size as nat;
        let ghost start = (idx + rows) as nat;
        proof {
            vstd::arithmetic::power2::lemma_pow2_pos(self.params().top_layer as nat);
        }
        // Count the path length first, so a short stream is rejected before
        // anything is consumed.
        let mut count: usize = 0;
        let mut i: usize = idx + rows;
        proof {
            vstd::arithmetic::power2::lemma2_to64();
        }
        while i >= 2 * top_size
            invariant
                1 <= i < 2 * self.params().row_size,
                self.wf(),
                top_size == self.params().top_size,
                1 <= top_size,
                ts == top_size as nat,
                start <= usize::MAX,
                (i as nat) * pow2(count as nat) <= start,
                path_len(start, ts) == count + path_len(i as nat, ts),
                path_end(start, ts) == path_end(i as nat, ts),
            decreases i,
        {
            proof {
                let p = pow2(count as nat);
                vstd::arithmetic::power2::lemma2_to64();
                assert(p <= (i as nat) * p) by (nonlinear_arith)
                    requires
                        i >= 1,
                        p >= 0,
                ;
                if count as nat > 64 {
                    vstd::arithmetic::power2::lemma_pow2_strictly_increases(64, count as nat);
                }
                assert((count as nat) < 64);
                vstd::arithmetic::power2::lemma_pow2_unfold(count as nat + 1);
                assert(((i / 2) as nat) * (2 * p) <= (i as nat) * p) by (nonlinear_arith)
                    requires
                        2 * ((i / 2) as nat) <= i as nat,
                        p >= 0,
                ;
            }
            count = count + 1;
            i = i / 2;
        }
        proof {
            assert(path_len(start, ts) == count);
            assert(path_end(start, ts) == i as nat);
        }
        let rem = iop.remaining();
        if rem < cols {
            return Err(VerificationError::MalformedProof);
        }
        proof {
            vstd::arithmetic::div_mod::lemma_fundamental_div_mod((rem - cols) as int, 8);
        }
        if (rem - cols) / 8 < count {
            return Err(VerificationError::MalformedProof);
        }
        // Read the column and hash it into the leaf digest, over the raw
        // words as they stand in the stream.
        let ghost pos0 = old(iop).pos() as int;
        let (col, raw) = iop.read_fps(cols);
        let mut cur = hash_raw_words(raw);
        let ghost sibs = Seq::new(
            path_len(start, ts),
            |k: int|
                old(iop).stream().subrange(pos0 + cols + 8 * k, pos0 + cols + 8 * k + 8),
        );
        // Climb to the top layer, combining with each read sibling.
        let mut i: usize = idx + rows;
        let mut k: usize = 0;
        proof {
            assert(sibs.subrange(0, count as int) =~= sibs);
        }
        while i >= 2 * top_size
            invariant
                1 <= i < 2 * self.params().row_size,
                self.wf(),
                old(iop).wf(),
                rows == self.params().row_size,
                cols == self.params().col_size,
                top_size == self.params().top_size,
                1 <= top_size,
                ts == top_size as nat,
                k <= count,
                count == path_len(start, ts),
                path_len(i as nat, ts) == count - k,
                path_end(i as nat, ts) == path_end(start, ts),
                sibs.len() == count,
                pos0 + cols + 8 * count <= old(iop).stream().len(),
                sibs == Seq::new(
                    path_len(start, ts),
                    |j: int|
                        old(iop).stream().subrange(pos0 + cols + 8 * j, pos0 + cols + 8 * j + 8),
                ),
                iop.wf(),
                iop.stream() == old(iop).stream(),
                iop.rng() == old(iop).rng(),
                iop.pos() == pos0 + cols + 8 * k,
                path_fold(digest_of_words(old(iop).stream().subrange(pos0, pos0 + cols)), sibs,
                    start) == path_fold(cur@, sibs.subrange(k as int, count as int), i as nat),
            decreases i,
        {
            proof {
                assert(path_len(i as nat, ts) == 1 + path_len((i / 2) as nat, ts));
            }
            let sib_words = iop.read_u32s(8);
            let sib = Digest::from_words(sib_words);
            let ghost cur0 = cur@;
            if i % 2 == 0 {
                cur = hash_pair(&cur, &sib);
            } else {
                cur = hash_pair(&sib, &cur);
            }
            proof {
                let rest = sibs.subrange(k as int, count as int);
                assert(rest[0] == sibs[k as int]);
                assert(sib@ == sibs[k as int]);
                assert(rest.subrange(1, rest.len() as int) =~= sibs.subrange(
                    k + 1,
                    count as int,
                ));
                assert(path_fold(cur0, rest, i as nat) == path_fold(
                    cur@,
                    sibs.subrange(k + 1, count as int),
                    (i / 2) as nat,
                ));
            }
            k = k + 1;
            i = i / 2;
        }
        proof {
            assert(k == count);
            assert(sibs.subrange(count as int, count as int) =~= Seq::<Seq<u32>>::empty());
            assert(path_fold(cur@, sibs.subrange(k as int, count as int), i as nat) == cur@);
        }
        if cur == self.top[i] {
            Ok(col)
        } else {
            Err(VerificationError::InvalidProof)
        }
    }
}

} // verus!
