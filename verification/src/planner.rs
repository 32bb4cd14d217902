//! Piece planning: the block layout inside a piece, per-piece provider sets
//! scanned from peer bitfields, and the rarest-first piece order.
use vstd::prelude::*;

use crate::peer::spec_has_piece;
use crate::peer::Bitfield;
use crate::BLOCK_MAX;

verus! {

/// Number of blocks of a piece of `len` bytes: `len / BLOCK_MAX` rounded up.
pub open spec fn spec_nblocks(len: int) -> int {
    (len + BLOCK_MAX - 1) / (BLOCK_MAX as int)
}

/// Offset of block `b` inside its piece.
pub open spec fn spec_block_begin(b: int) -> int {
    b * BLOCK_MAX
}

/// The block that offset `x` of a piece falls into.
pub open spec fn spec_block_of(x: int) -> int {
    x / (BLOCK_MAX as int)
}

/// Size of block `b` of a piece of `len` bytes: `BLOCK_MAX` for every block
/// but the last, which takes what remains.
pub open spec fn spec_block_size(len: int, b: int) -> int {
    if b == spec_nblocks(len) - 1 {
        len - b * BLOCK_MAX
    } else {
        BLOCK_MAX as int
    }
}

/// Sum of the sizes of blocks `0..k`.
pub open spec fn spec_sum_block_sizes(len: int, k: int) -> int
    decreases k,
{
    if k <= 0 {
        0
    } else {
        spec_sum_block_sizes(len, k - 1) + spec_block_size(len, k - 1)
    }
}

/// `spec_nblocks` is the ceiling of `len / BLOCK_MAX`.
pub proof fn lemma_nblocks_bounds(len: int)
    requires
        0 < len,
    ensures
        1 <= spec_nblocks(len),
        (spec_nblocks(len) - 1) * BLOCK_MAX < len,
        len <= spec_nblocks(len) * BLOCK_MAX,
{
    let n = spec_nblocks(len);
    assert(1 <= n && (n - 1) * 16384 < len && len <= n * 16384) by (nonlinear_arith)
        requires
            n == (len + 16384 - 1) / 16384,
            0 < len,
    ;
}

/// Last-block sizing: every block before the last has size `BLOCK_MAX`, and
/// the last block takes `len - (nblocks - 1) * BLOCK_MAX`, which equals
/// `len % BLOCK_MAX` when that is non-zero and `BLOCK_MAX` otherwise.
pub proof fn lemma_last_block_size(len: int)
    requires
        0 < len,
    ensures
        forall|b: int|
            0 <= b < spec_nblocks(len) - 1 ==> #[trigger] spec_block_size(len, b) == BLOCK_MAX,
        spec_block_size(len, spec_nblocks(len) - 1) == len - (spec_nblocks(len) - 1) * BLOCK_MAX,
        spec_block_size(len, spec_nblocks(len) - 1) == (if len % (BLOCK_MAX as int) == 0 {
            BLOCK_MAX as int
        } else {
            len % (BLOCK_MAX as int)
        }),
        0 < spec_block_size(len, spec_nblocks(len) - 1) <= BLOCK_MAX,
{
    let n = spec_nblocks(len);
    lemma_nblocks_bounds(len);
    assert(len - (n - 1) * 16384 == (if len % 16384 == 0 {
        16384int
    } else {
        len % 16384
    })) by (nonlinear_arith)
        requires
            n == (len + 16384 - 1) / 16384,
            0 < len,
            (n - 1) * 16384 < len,
            len <= n * 16384,
    ;
}

/// Block coverage: the blocks of a piece are disjoint, lie inside the
/// piece, cover every offset (offset `x` falls in block `x / BLOCK_MAX`
/// alone), and their sizes sum to the piece length.
pub proof fn lemma_block_coverage(len: int)
    requires
        0 < len,
    ensures
        forall|b: int|
            0 <= b < spec_nblocks(len) ==> 0 < #[trigger] spec_block_size(len, b) <= BLOCK_MAX,
        forall|b: int|
            0 <= b < spec_nblocks(len) ==> #[trigger] spec_block_begin(b) + spec_block_size(len, b)
                <= len,
        forall|b1: int, b2: int|
            0 <= b1 < b2 < spec_nblocks(len) ==> #[trigger] spec_block_begin(b1)
                + spec_block_size(len, b1) <= #[trigger] spec_block_begin(b2),
        forall|x: int|
            0 <= x < len ==> {
                let b = #[trigger] spec_block_of(x);
                0 <= b < spec_nblocks(len) && spec_block_begin(b) <= x < spec_block_begin(b)
                    + spec_block_size(len, b)
            },
        spec_sum_block_sizes(len, spec_nblocks(len)) == len,
{
    let n = spec_nblocks(len);
    lemma_nblocks_bounds(len);
    lemma_last_block_size(len);
    assert forall|b: int| 0 <= b < n implies 0 < #[trigger] spec_block_size(len, b)
        <= BLOCK_MAX by {
        if b < n - 1 {
        }
    }
    assert forall|b: int| 0 <= b < n implies #[trigger] spec_block_begin(b) + spec_block_size(
        len,
        b,
    ) <= len by {
        if b < n - 1 {
            assert((b + 1) * 16384 <= (n - 1) * 16384) by (nonlinear_arith)
                requires
                    b + 1 <= n - 1,
            ;
            assert(spec_block_begin(b) + 16384 == (b + 1) * 16384) by (nonlinear_arith);
        }
    }
    assert forall|b1: int, b2: int| 0 <= b1 < b2 < n implies #[trigger] spec_block_begin(b1)
        + spec_block_size(len, b1) <= #[trigger] spec_block_begin(b2) by {
        assert(b1 * 16384 + 16384 <= b2 * 16384) by (nonlinear_arith)
            requires
                b1 + 1 <= b2,
        ;
    }
    assert forall|x: int| 0 <= x < len implies {
        let b = #[trigger] spec_block_of(x);
        0 <= b < n && spec_block_begin(b) <= x < spec_block_begin(b) + spec_block_size(len, b)
    } by {
        let b = spec_block_of(x);
        assert(0 <= b && b * 16384 <= x < b * 16384 + 16384) by (nonlinear_arith)
            requires
                b == x / 16384,
                0 <= x,
        ;
        assert(b < n) by (nonlinear_arith)
            requires
                b * 16384 <= x,
                x < len,
                len <= n * 16384,
        ;
        if b == n - 1 {
            assert(spec_block_begin(b) + spec_block_size(len, b) == len);
        }
    }
    lemma_sum_block_sizes(len, n);
}

/// The sizes of blocks `0..k` sum to `k * BLOCK_MAX`, capped at `len`.
proof fn lemma_sum_block_sizes(len: int, k: int)
    requires
        0 < len,
        0 <= k <= spec_nblocks(len),
    ensures
        spec_sum_block_sizes(len, k) == if k < spec_nblocks(len) {
            k * BLOCK_MAX
        } else {
            len
        },
    decreases k,
{
    let n = spec_nblocks(len);
    lemma_nblocks_bounds(len);
    lemma_last_block_size(len);
    if k == 0 {
        assert(0 * 16384 == 0) by (nonlinear_arith);
    } else {
        lemma_sum_block_sizes(len, k - 1);
        if k < n {
            assert((k - 1) * 16384 + 16384 == k * 16384) by (nonlinear_arith);
        } else {
            assert(spec_block_size(len, k - 1) == len - (n - 1) * BLOCK_MAX);
        }
    }
}

/// `nblocks` rounds up, so that the last, possibly short block is counted.
pub fn nblocks(piece_size: usize) -> (r: usize)
    requires
        piece_size <= usize::MAX - (BLOCK_MAX - 1),
    ensures
        r == spec_nblocks(piece_size as int),
{
    (piece_size + (BLOCK_MAX - 1)) / BLOCK_MAX
}

/// Offset of block `block_i` inside its piece.
pub fn block_begin(block_i: usize) -> (r: usize)
    requires
        block_i <= usize::MAX / BLOCK_MAX,
    ensures
        r == spec_block_begin(block_i as int),
{
    block_i * BLOCK_MAX
}

/// Size of block `block_i` of a piece of `piece_size` bytes.
pub fn block_size(piece_size: usize, block_i: usize) -> (r: usize)
    requires
        0 < piece_size,
        piece_size <= usize::MAX - (BLOCK_MAX - 1),
        (block_i as int) < spec_nblocks(piece_size as int),
    ensures
        r == spec_block_size(piece_size as int, block_i as int),
        0 < r <= BLOCK_MAX,
{
    proof {
        lemma_nblocks_bounds(piece_size as int);
        lemma_last_block_size(piece_size as int);
    }
    let n = nblocks(piece_size);
    if block_i == n - 1 {
        let md = piece_size % BLOCK_MAX;
        if md == 0 {
            BLOCK_MAX
        } else {
            md
        }
    } else {
        BLOCK_MAX
    }
}

/// One piece the engine must fetch: its index, exact length, expected
/// digest, and the indices of the peers whose bitfield advertises it.
pub struct PieceDescriptor {
    index: usize,
    length: usize,
    hash: [u8; 20],
    providers: Vec<usize>,
}

/// The ascending list of indices below `n` of peers that advertise `piece`.
pub open spec fn spec_provider_list(peers: Seq<Bitfield>, piece: int, n: int) -> Seq<usize>
    decreases n,
{
    if n <= 0 {
        Seq::empty()
    } else {
        let prefix = spec_provider_list(peers, piece, n - 1);
        if spec_has_piece(peers[n - 1]@, piece) {
            prefix.push((n - 1) as usize)
        } else {
            prefix
        }
    }
}

/// The provider list is strictly ascending, holds only advertising peers,
/// and holds every advertising peer below `n`.
pub proof fn lemma_provider_list_props(peers: Seq<Bitfield>, piece: int, n: int)
    requires
        n <= usize::MAX,
    ensures
        forall|a: int, b: int|
            0 <= a < b < spec_provider_list(peers, piece, n).len() ==> spec_provider_list(
                peers,
                piece,
                n,
            )[a] < spec_provider_list(peers, piece, n)[b],
        forall|k: int|
            0 <= k < spec_provider_list(peers, piece, n).len() ==> 0 <= #[trigger] spec_provider_list(
                peers,
                piece,
                n,
            )[k] < n && spec_has_piece(peers[spec_provider_list(peers, piece, n)[k] as int]@, piece),
        forall|p: int|
            0 <= p < n && spec_has_piece(peers[p]@, piece) ==> spec_provider_list(
                peers,
                piece,
                n,
            ).contains(p as usize),
    decreases n,
{
    if n <= 0 {
    } else {
        lemma_provider_list_props(peers, piece, n - 1);
        let prefix = spec_provider_list(peers, piece, n - 1);
        let full = spec_provider_list(peers, piece, n);
        if spec_has_piece(peers[n - 1]@, piece) {
            assert(full == prefix.push((n - 1) as usize));
            assert forall|a: int, b: int| 0 <= a < b < full.len() implies full[a] < full[b] by {
                if b == full.len() - 1 {
                    assert(full[a] == prefix[a]);
                    assert(prefix[a] < n - 1);
                } else {
                    assert(full[a] == prefix[a] && full[b] == prefix[b]);
                }
            }
            assert forall|p: int| 0 <= p < n && spec_has_piece(peers[p]@, piece) implies
                full.contains(p as usize) by {
                if p == n - 1 {
                    assert(full[full.len() - 1] == (n - 1) as usize);
                } else {
                    assert(prefix.contains(p as usize));
                    let k = choose|k: int| 0 <= k < prefix.len() && prefix[k] == p as usize;
                    assert(full[k] == p as usize);
                }
            }
        } else {
            assert forall|p: int| 0 <= p < n && spec_has_piece(peers[p]@, piece) implies
                full.contains(p as usize) by {
                assert(prefix.contains(p as usize));
            }
        }
    }
}

impl PieceDescriptor {
    pub closed spec fn spec_index(self) -> int {
        self.index as int
    }

    pub closed spec fn spec_length(self) -> int {
        self.length as int
    }

    pub closed spec fn spec_hash(self) -> Seq<u8> {
        self.hash@
    }

    pub closed spec fn spec_providers(self) -> Seq<usize> {
        self.providers@
    }

    /// Builds the descriptor for piece `index`, scanning every peer's
    /// bitfield for providers.
    pub fn new(index: usize, length: usize, hash: [u8; 20], peers: &Vec<Bitfield>) -> (r:
        PieceDescriptor)
        ensures
            r.spec_index() == index,
            r.spec_length() == length,
            r.spec_hash() == hash@,
            r.spec_providers() == spec_provider_list(peers@, index as int, peers@.len() as int),
    {
        let mut providers: Vec<usize> = Vec::new();
        let mut p: usize = 0;
        while p < peers.len()
            invariant
                p <= peers@.len(),
                providers@ == spec_provider_list(peers@, index as int, p as int),
            decreases peers@.len() - p,
        {
            if peers[p].has_piece(index) {
                providers.push(p);
            }
            p = p + 1;
        }
        PieceDescriptor { index, length, hash, providers }
    }

    pub fn index(&self) -> (r: usize)
        ensures
            r == self.spec_index(),
    {
        self.index
    }

    pub fn length(&self) -> (r: usize)
        ensures
            r == self.spec_length(),
    {
        self.length
    }

    pub fn hash(&self) -> (r: &[u8; 20])
        ensures
            r@ == self.spec_hash(),
    {
        &self.hash
    }

    pub fn providers(&self) -> (r: &Vec<usize>)
        ensures
            r@ == self.spec_providers(),
    {
        &self.providers
    }

    /// True when no connected peer advertises this piece.
    pub fn is_unserved(&self) -> (r: bool)
        ensures
            r == (self.spec_providers().len() == 0),
    {
        self.providers.len() == 0
    }
}

/// Rarest first: fewer providers come first, ties broken by ascending piece
/// index.
pub open spec fn spec_piece_le(a: PieceDescriptor, b: PieceDescriptor) -> bool {
    a.spec_providers().len() < b.spec_providers().len() || (a.spec_providers().len()
        == b.spec_providers().len() && a.spec_index() <= b.spec_index())
}

fn piece_le(a: &PieceDescriptor, b: &PieceDescriptor) -> (r: bool)
    ensures
        r == spec_piece_le(*a, *b),
{
    a.providers.len() < b.providers.len() || (a.providers.len() == b.providers.len() && a.index
        <= b.index)
}

/// Orders the pieces rarest-first: the result is a permutation of the input
/// sorted by ascending provider count, ties by ascending index.
pub fn plan_order(pieces: Vec<PieceDescriptor>) -> (r: Vec<PieceDescriptor>)
    ensures
        r@.to_multiset() == pieces@.to_multiset(),
        forall|i: int, j: int|
            0 <= i < j < r@.len() ==> spec_piece_le(#[trigger] r@[i], #[trigger] r@[j]),
{
    let mut src = pieces;
    let mut r: Vec<PieceDescriptor> = Vec::new();
    proof {
        broadcast use vstd::seq_lib::group_to_multiset_ensures;

    }
    while src.len() > 0
        invariant
            r@.to_multiset().add(src@.to_multiset()) == pieces@.to_multiset(),
            forall|i: int, j: int|
                0 <= i < j < r@.len() ==> spec_piece_le(#[trigger] r@[i], #[trigger] r@[j]),
        decreases src@.len(),
    {
        proof {
            broadcast use vstd::seq_lib::group_to_multiset_ensures;

        }
        let ghost old_src = src@;
        let ghost old_r = r@;
        let x = src.pop().unwrap();
        proof {
            assert(old_src =~= src@.push(x));
            assert(old_src.to_multiset() == src@.to_multiset().insert(x));
        }
        let mut lo: usize = 0;
        while lo < r.len() && piece_le(&r[lo], &x)
            invariant
                lo <= r@.len(),
                forall|i: int| 0 <= i < lo ==> spec_piece_le(#[trigger] r@[i], x),
            decreases r@.len() - lo,
        {
            lo = lo + 1;
        }
        proof {
            vstd::seq_lib::to_multiset_insert(r@, lo as int, x);
            assert forall|i: int| lo <= i < r@.len() implies spec_piece_le(
                x,
                #[trigger] r@[i],
            ) by {
                assert(lo < r@.len());
                assert(!spec_piece_le(r@[lo as int], x));
                if i > lo {
                    assert(spec_piece_le(r@[lo as int], r@[i]));
                }
            }
            let r_new = r@.insert(lo as int, x);
            assert forall|i: int, j: int| 0 <= i < j < r_new.len() implies spec_piece_le(
                #[trigger] r_new[i],
                #[trigger] r_new[j],
            ) by {
                if i < lo && j < lo {
                    assert(r_new[i] == r@[i] && r_new[j] == r@[j]);
                } else if i < lo && j == lo {
                    assert(r_new[i] == r@[i] && r_new[j] == x);
                } else if i < lo && j > lo {
                    assert(r_new[i] == r@[i] && r_new[j] == r@[j - 1]);
                } else if i == lo {
                    assert(r_new[i] == x && r_new[j] == r@[j - 1]);
                } else {
                    assert(r_new[i] == r@[i - 1] && r_new[j] == r@[j - 1]);
                }
            }
        }
        r.insert(lo, x);
    }
    r
}

} // verus!
