//! Piece assembly and the downloaded artifact: blocks gather into a piece
//! buffer, verified pieces commit into the output buffer, and the finished
//! bytes slice back into the torrent's file list.
use vstd::prelude::*;

use crate::digest::bytes_match_digest;
use crate::digest::sha1_of;
use crate::planner::lemma_block_coverage;
use crate::planner::spec_block_of;
use crate::planner::spec_block_size;
use crate::planner::spec_nblocks;
use crate::planner::spec_sum_block_sizes;
use crate::torrent::spec_files_total;
use crate::torrent::spec_npieces;
use crate::torrent::File;
use crate::torrent::Hashes;
use crate::torrent::Info;
use crate::torrent::Keys;
use crate::BLOCK_MAX;
use vstd::slice::slice_subrange;

verus! {

/// Bytes delivered so far for one piece: the sizes of the blocks, among the
/// first `k`, that are already in.
pub open spec fn spec_done_bytes(done: Seq<bool>, len: int, k: int) -> int
    decreases k,
{
    if k <= 0 {
        0
    } else {
        spec_done_bytes(done, len, k - 1) + if done[k - 1] {
            spec_block_size(len, k - 1)
        } else {
            0
        }
    }
}

/// The delivered bytes never exceed the size of the first `k` blocks, and
/// reach it exactly when every one of those blocks is in.
proof fn lemma_done_bytes_le(done: Seq<bool>, len: int, k: int)
    requires
        0 < len,
        0 <= k <= spec_nblocks(len),
    ensures
        0 <= spec_done_bytes(done, len, k) <= spec_sum_block_sizes(len, k),
        (spec_done_bytes(done, len, k) == spec_sum_block_sizes(len, k)) <==> (forall|b: int|
            0 <= b < k ==> done[b]),
    decreases k,
{
    lemma_block_coverage(len);
    if k > 0 {
        lemma_done_bytes_le(done, len, k - 1);
        assert(0 < spec_block_size(len, k - 1));
        if !done[k - 1] {
            assert(!(forall|b: int| 0 <= b < k ==> done[b]));
        }
    }
}

/// Marking one missing block as delivered adds exactly its size.
proof fn lemma_done_bytes_update(done: Seq<bool>, len: int, b: int, k: int)
    requires
        0 <= b < done.len(),
        0 <= k <= done.len(),
    ensures
        spec_done_bytes(done.update(b, true), len, k) == spec_done_bytes(done, len, k) + if b < k
            && !done[b] {
            spec_block_size(len, b)
        } else {
            0
        },
    decreases k,
{
    if k > 0 {
        lemma_done_bytes_update(done, len, b, k - 1);
    }
}

/// No blocks in, no bytes in.
proof fn lemma_done_bytes_zero(done: Seq<bool>, len: int, k: int)
    requires
        forall|b: int| 0 <= b < k ==> !done[b],
    ensures
        spec_done_bytes(done, len, k) == 0,
    decreases k,
{
    if k > 0 {
        lemma_done_bytes_zero(done, len, k - 1);
    }
}

/// Collects the blocks of one piece as participants deliver them. Tracks
/// which blocks are in and how many bytes they carried; a piece is complete
/// exactly when the byte count reaches the piece size.
pub struct PieceAssembler {
    buf: Vec<u8>,
    done: Vec<bool>,
    received: usize,
}

impl PieceAssembler {
    /// The piece buffer as filled so far.
    pub closed spec fn spec_bytes(self) -> Seq<u8> {
        self.buf@
    }

    /// Which blocks have been delivered.
    pub closed spec fn spec_done(self) -> Seq<bool> {
        self.done@
    }

    /// Bytes delivered so far.
    pub closed spec fn spec_received(self) -> int {
        self.received as int
    }

    /// The piece size this assembler was built for.
    pub open spec fn spec_size(self) -> int {
        self.spec_bytes().len() as int
    }

    /// The assembler's invariant: one `done` flag per block, and the byte
    /// counter equal to the sizes of the delivered blocks.
    pub open spec fn spec_wf(self) -> bool {
        &&& 0 < self.spec_size()
        &&& self.spec_size() <= usize::MAX - (BLOCK_MAX - 1)
        &&& self.spec_done().len() == spec_nblocks(self.spec_size())
        &&& self.spec_received() == spec_done_bytes(
            self.spec_done(),
            self.spec_size(),
            spec_nblocks(self.spec_size()),
        )
    }

    /// A delivered block is accepted only at a `BLOCK_MAX`-aligned offset
    /// of a block not yet in, with exactly that block's size.
    pub open spec fn spec_accepts(self, begin: int, data: Seq<u8>) -> bool {
        &&& 0 <= begin
        &&& begin % (BLOCK_MAX as int) == 0
        &&& spec_block_of(begin) < spec_nblocks(self.spec_size())
        &&& !self.spec_done()[spec_block_of(begin)]
        &&& data.len() == spec_block_size(self.spec_size(), spec_block_of(begin))
    }

    /// A fresh, empty assembler for a piece of `piece_size` bytes.
    pub fn new(piece_size: usize) -> (r: PieceAssembler)
        requires
            0 < piece_size,
            piece_size <= usize::MAX - (BLOCK_MAX - 1),
        ensures
            r.spec_wf(),
            r.spec_size() == piece_size,
            r.spec_received() == 0,
            forall|b: int| 0 <= b < spec_nblocks(piece_size as int) ==> !r.spec_done()[b],
            forall|j: int| 0 <= j < piece_size ==> r.spec_bytes()[j] == 0,
    {
        let mut buf: Vec<u8> = Vec::new();
        while buf.len() < piece_size
            invariant
                buf@.len() <= piece_size,
                forall|j: int| 0 <= j < buf@.len() ==> buf@[j] == 0,
            decreases piece_size - buf@.len(),
        {
            buf.push(0);
        }
        let n = crate::planner::nblocks(piece_size);
        let mut done: Vec<bool> = Vec::new();
        while done.len() < n
            invariant
                done@.len() <= n,
                forall|b: int| 0 <= b < done@.len() ==> !done@[b],
            decreases n - done@.len(),
        {
            done.push(false);
        }
        let r = PieceAssembler { buf, done, received: 0 };
        proof {
            lemma_done_bytes_zero(r.spec_done(), r.spec_size(), spec_nblocks(r.spec_size()));
        }
        r
    }

    /// Splices one delivered block into the piece buffer. Returns whether
    /// the block was accepted; a rejected block changes nothing.
    pub fn add_block(&mut self, begin: usize, data: &Vec<u8>) -> (r: bool)
        requires
            old(self).spec_wf(),
        ensures
            final(self).spec_wf(),
            r == old(self).spec_accepts(begin as int, data@),
            final(self).spec_size() == old(self).spec_size(),
            r ==> final(self).spec_bytes() == old(self).spec_bytes().subrange(0, begin as int)
                + data@ + old(self).spec_bytes().subrange(
                begin as int + data@.len(),
                old(self).spec_size(),
            ),
            r ==> final(self).spec_done() == old(self).spec_done().update(
                spec_block_of(begin as int),
                true,
            ),
            r ==> final(self).spec_received() == old(self).spec_received() + data@.len(),
            !r ==> *final(self) == *old(self),
    {
        proof {
            lemma_block_coverage(old(self).spec_size());
        }
        if begin % BLOCK_MAX != 0 {
            return false;
        }
        let b = begin / BLOCK_MAX;
        if b >= self.done.len() {
            return false;
        }
        if self.done[b] {
            return false;
        }
        let expected = crate::planner::block_size(self.buf.len(), b);
        if data.len() != expected {
            return false;
        }
        proof {
            assert(spec_block_of(begin as int) == b as int);
            assert((b as int) * (BLOCK_MAX as int) == begin as int) by (nonlinear_arith)
                requires
                    b as int == (begin as int) / (BLOCK_MAX as int),
                    (begin as int) % (BLOCK_MAX as int) == 0,
                    0 <= begin as int,
            ;
            assert(crate::planner::spec_block_begin(b as int) + spec_block_size(
                old(self).spec_size(),
                b as int,
            ) <= old(self).spec_size());
        }
        // Binding the exec length pins `buf@.len() <= usize::MAX` for the
        // index arithmetic below.
        let _cap: usize = self.buf.len();
        let mut j: usize = 0;
        while j < data.len()
            invariant
                j <= data@.len(),
                begin + data@.len() <= self.buf@.len(),
                self.buf@.len() <= usize::MAX,
                self.buf@.len() == old(self).spec_bytes().len(),
                self.done@ == old(self).spec_done(),
                self.received == old(self).spec_received(),
                forall|k: int| 0 <= k < begin ==> self.buf@[k] == old(self).spec_bytes()[k],
                forall|k: int|
                    begin <= k < begin + j ==> self.buf@[k] == data@[k - begin as int],
                forall|k: int|
                    begin + j <= k < self.buf@.len() ==> self.buf@[k] == old(self).spec_bytes()[k],
            decreases data@.len() - j,
        {
            self.buf[begin + j] = data[j];
            j = j + 1;
        }
        self.done[b] = true;
        proof {
            lemma_done_bytes_update(
                old(self).spec_done(),
                old(self).spec_size(),
                b as int,
                spec_nblocks(old(self).spec_size()),
            );
            lemma_done_bytes_le(
                old(self).spec_done().update(b as int, true),
                old(self).spec_size(),
                spec_nblocks(old(self).spec_size()),
            );
        }
        self.received = self.received + data.len();
        proof {
            assert(final(self).spec_bytes() =~= old(self).spec_bytes().subrange(0, begin as int)
                + data@ + old(self).spec_bytes().subrange(
                begin as int + data@.len(),
                old(self).spec_size(),
            ));
        }
        true
    }

    /// Bytes delivered so far.
    pub fn received(&self) -> (r: usize)
        ensures
            r == self.spec_received(),
    {
        self.received
    }

    /// The piece is complete exactly when every byte of it has arrived.
    pub fn is_complete(&self) -> (r: bool)
        requires
            self.spec_wf(),
        ensures
            r == (self.spec_received() == self.spec_size()),
    {
        self.received == self.buf.len()
    }

    /// Hands the assembled piece buffer out.
    pub fn into_bytes(self) -> (r: Vec<u8>)
        ensures
            r@ == self.spec_bytes(),
    {
        self.buf
    }
}

/// A complete byte count means every block was delivered: the scheduler's
/// `(begin, length)` pairs cover the piece without overlap, so their sizes
/// only sum to the piece length when each block is in.
pub proof fn lemma_complete_has_all_blocks(a: PieceAssembler)
    requires
        a.spec_wf(),
        a.spec_received() == a.spec_size(),
    ensures
        forall|b: int| 0 <= b < spec_nblocks(a.spec_size()) ==> a.spec_done()[b],
{
    lemma_block_coverage(a.spec_size());
    lemma_done_bytes_le(a.spec_done(), a.spec_size(), spec_nblocks(a.spec_size()));
}

/// Size of piece `i` when `total` bytes split into `np` pieces of `plen`
/// bytes, the last piece taking what remains.
pub open spec fn spec_piece_span(total: int, plen: int, np: int, i: int) -> int {
    if i == np - 1 {
        total - i * plen
    } else {
        plen
    }
}

/// The bytes of piece `i` inside the whole download.
pub open spec fn spec_piece_region(bytes: Seq<u8>, plen: int, np: int, i: int) -> Seq<u8> {
    bytes.subrange(
        i * plen,
        i * plen + spec_piece_span(bytes.len() as int, plen, np, i),
    )
}

/// Piece regions are non-empty, lie inside the download, and are disjoint.
pub proof fn lemma_piece_spans(total: int, plen: int)
    requires
        0 < total,
        0 < plen,
    ensures
        forall|i: int|
            0 <= i < spec_npieces(total, plen) ==> 0 < #[trigger] spec_piece_span(
                total,
                plen,
                spec_npieces(total, plen),
                i,
            ) <= plen,
        forall|i: int|
            0 <= i < spec_npieces(total, plen) ==> #[trigger] (i * plen) + spec_piece_span(
                total,
                plen,
                spec_npieces(total, plen),
                i,
            ) <= total,
        forall|i: int, j: int|
            0 <= i < j < spec_npieces(total, plen) ==> #[trigger] (i * plen) + spec_piece_span(
                total,
                plen,
                spec_npieces(total, plen),
                i,
            ) <= #[trigger] (j * plen),
{
    let np = spec_npieces(total, plen);
    crate::torrent::lemma_piece_geometry(total, plen);
    assert forall|i: int| 0 <= i < np implies 0 < #[trigger] spec_piece_span(total, plen, np, i)
        <= plen && (i * plen) + spec_piece_span(total, plen, np, i) <= total by {
        if i < np - 1 {
            assert((i + 1) * plen <= (np - 1) * plen) by (nonlinear_arith)
                requires
                    i + 1 <= np - 1,
                    0 < plen,
            ;
            assert((i + 1) * plen == i * plen + plen) by (nonlinear_arith);
        } else {
            assert(i * plen == (np - 1) * plen);
        }
    }
    assert forall|i: int, j: int| 0 <= i < j < np implies #[trigger] (i * plen) + spec_piece_span(
        total,
        plen,
        np,
        i,
    ) <= #[trigger] (j * plen) by {
        assert((i + 1) * plen <= j * plen) by (nonlinear_arith)
            requires
                i + 1 <= j,
                0 < plen,
        ;
        assert((i + 1) * plen == i * plen + plen) by (nonlinear_arith);
    }
}

/// The whole download as it assembles: piece `i` occupies
/// `[i * plength, i * plength + span(i))`, and a piece's bytes are written
/// there only after its SHA-1 digest matched the expected one.
pub struct DownloadedBuffer {
    bytes: Vec<u8>,
    plength: usize,
    hashes: Hashes,
    committed: Vec<bool>,
}

impl DownloadedBuffer {
    /// The download's bytes as committed so far.
    pub closed spec fn spec_bytes(self) -> Seq<u8> {
        self.bytes@
    }

    /// The common piece size.
    pub closed spec fn spec_plength(self) -> int {
        self.plength as int
    }

    /// The number of pieces.
    pub closed spec fn spec_piece_count(self) -> int {
        self.hashes.0@.len() as int
    }

    /// The expected digest of piece `i`.
    pub closed spec fn spec_hash(self, i: int) -> Seq<u8> {
        self.hashes.0@[i]@
    }

    /// Which pieces have been verified and committed.
    pub closed spec fn spec_committed(self) -> Seq<bool> {
        self.committed@
    }

    /// Hash integrity as an invariant: a committed piece's region hashes
    /// to its expected digest.
    pub open spec fn spec_wf(self) -> bool {
        &&& 0 < self.spec_plength()
        &&& 0 < self.spec_bytes().len()
        &&& self.spec_piece_count() == spec_npieces(
            self.spec_bytes().len() as int,
            self.spec_plength(),
        )
        &&& self.spec_committed().len() == self.spec_piece_count()
        &&& forall|i: int|
            0 <= i < self.spec_piece_count() && self.spec_committed()[i] ==> sha1_of(
                spec_piece_region(
                    self.spec_bytes(),
                    self.spec_plength(),
                    self.spec_piece_count(),
                    i,
                ),
            ) == self.spec_hash(i)
    }

    /// A zeroed buffer with nothing committed.
    pub fn new(total: usize, plength: usize, hashes: Hashes) -> (r: DownloadedBuffer)
        requires
            0 < plength,
            0 < total,
            hashes.0@.len() == spec_npieces(total as int, plength as int),
        ensures
            r.spec_wf(),
            r.spec_bytes().len() == total,
            r.spec_plength() == plength,
            r.spec_piece_count() == hashes.0@.len(),
            forall|i: int| 0 <= i < r.spec_piece_count() ==> r.spec_hash(i) == hashes.0@[i]@,
            forall|i: int| 0 <= i < r.spec_piece_count() ==> !r.spec_committed()[i],
    {
        let mut bytes: Vec<u8> = Vec::new();
        while bytes.len() < total
            invariant
                bytes@.len() <= total,
            decreases total - bytes@.len(),
        {
            bytes.push(0);
        }
        let count = hashes.0.len();
        let mut committed: Vec<bool> = Vec::new();
        while committed.len() < count
            invariant
                committed@.len() <= count,
                forall|i: int| 0 <= i < committed@.len() ==> !committed@[i],
            decreases count - committed@.len(),
        {
            committed.push(false);
        }
        DownloadedBuffer { bytes, plength, hashes, committed }
    }

    /// Verifies an assembled piece against its expected digest and, only
    /// on a match, copies it into its region. Returns whether it matched.
    pub fn commit_piece(&mut self, piece_i: usize, data: &Vec<u8>) -> (r: bool)
        requires
            old(self).spec_wf(),
            (piece_i as int) < old(self).spec_piece_count(),
            data@.len() == spec_piece_span(
                old(self).spec_bytes().len() as int,
                old(self).spec_plength(),
                old(self).spec_piece_count(),
                piece_i as int,
            ),
        ensures
            final(self).spec_wf(),
            r == (sha1_of(data@) == old(self).spec_hash(piece_i as int)),
            final(self).spec_plength() == old(self).spec_plength(),
            final(self).spec_piece_count() == old(self).spec_piece_count(),
            forall|i: int|
                0 <= i < final(self).spec_piece_count() ==> final(self).spec_hash(i) == old(
                    self,
                ).spec_hash(i),
            r ==> final(self).spec_committed() == old(self).spec_committed().update(
                piece_i as int,
                true,
            ),
            r ==> final(self).spec_bytes() == old(self).spec_bytes().subrange(
                0,
                piece_i as int * old(self).spec_plength(),
            ) + data@ + old(self).spec_bytes().subrange(
                piece_i as int * old(self).spec_plength() + data@.len(),
                old(self).spec_bytes().len() as int,
            ),
            !r ==> *final(self) == *old(self),
    {
        proof {
            lemma_piece_spans(old(self).spec_bytes().len() as int, old(self).spec_plength());
        }
        let expected: [u8; 20] = self.hashes.0[piece_i];
        if !bytes_match_digest(data.as_slice(), &expected) {
            return false;
        }
        // Binding the exec length pins `bytes@.len() <= usize::MAX` for the
        // splice bounds below.
        let _total: usize = self.bytes.len();
        proof {
            let total = old(self).spec_bytes().len() as int;
            let plen = old(self).spec_plength();
            let np = old(self).spec_piece_count();
            let pi = piece_i as int;
            assert(0 < spec_piece_span(total, plen, np, pi) <= plen);
            assert(pi * plen + spec_piece_span(total, plen, np, pi) <= total);
        }
        let begin = piece_i * self.plength;
        let mut j: usize = 0;
        while j < data.len()
            invariant
                j <= data@.len(),
                begin == piece_i as int * old(self).spec_plength(),
                begin + data@.len() <= self.bytes@.len(),
                self.bytes@.len() <= usize::MAX,
                self.bytes@.len() == old(self).spec_bytes().len(),
                self.plength == old(self).plength,
                self.hashes.0@ == old(self).hashes.0@,
                self.committed@ == old(self).spec_committed(),
                forall|k: int| 0 <= k < begin ==> self.bytes@[k] == old(self).spec_bytes()[k],
                forall|k: int|
                    begin <= k < begin + j ==> self.bytes@[k] == data@[k - begin as int],
                forall|k: int|
                    begin + j <= k < self.bytes@.len() ==> self.bytes@[k] == old(
                        self,
                    ).spec_bytes()[k],
            decreases data@.len() - j,
        {
            self.bytes[begin + j] = data[j];
            j = j + 1;
        }
        self.committed[piece_i] = true;
        proof {
            let total = old(self).spec_bytes().len() as int;
            let plen = old(self).spec_plength();
            let np = old(self).spec_piece_count();
            let pi = piece_i as int;
            assert(final(self).spec_bytes() =~= old(self).spec_bytes().subrange(0, pi * plen)
                + data@ + old(self).spec_bytes().subrange(pi * plen + data@.len(), total));
            assert(final(self).spec_committed() =~= old(self).spec_committed().update(pi, true));
            assert(self.hashes.0@ == old(self).hashes.0@);
            assert forall|i: int|
                0 <= i < np && final(self).spec_committed()[i] implies sha1_of(
                spec_piece_region(final(self).spec_bytes(), plen, np, i),
            ) == final(self).spec_hash(i) by {
                assert(final(self).spec_hash(i) == old(self).spec_hash(i));
                if i == pi {
                    assert(spec_piece_region(final(self).spec_bytes(), plen, np, i) =~= data@);
                    assert(sha1_of(data@) == old(self).spec_hash(pi));
                } else {
                    assert(old(self).spec_committed()[i]);
                    if i < pi {
                        assert(i * plen + spec_piece_span(total, plen, np, i) <= pi * plen);
                    } else {
                        assert(pi * plen + spec_piece_span(total, plen, np, pi) <= i * plen);
                    }
                    assert forall|k: int|
                        i * plen <= k < i * plen + spec_piece_span(total, plen, np, i) implies
                        final(self).spec_bytes()[k] == old(self).spec_bytes()[k] by {
                        assert(k < pi * plen || k >= pi * plen + data@.len());
                    }
                    assert(spec_piece_region(final(self).spec_bytes(), plen, np, i)
                        =~= spec_piece_region(old(self).spec_bytes(), plen, np, i));
                }
            }
        }
        true
    }

    /// True exactly when every piece has been verified and committed.
    pub fn is_complete(&self) -> (r: bool)
        requires
            self.spec_wf(),
        ensures
            r == (forall|i: int| 0 <= i < self.spec_piece_count() ==> self.spec_committed()[i]),
    {
        let mut i: usize = 0;
        while i < self.committed.len()
            invariant
                i <= self.spec_committed().len(),
                self.spec_committed().len() == self.spec_piece_count(),
                forall|k: int| 0 <= k < i ==> self.spec_committed()[k],
            decreases self.spec_committed().len() - i,
        {
            if !self.committed[i] {
                return false;
            }
            i = i + 1;
        }
        true
    }

    /// Hands the assembled download out, sliced later by the file list.
    /// The buffer leaves this type only once every piece has committed.
    pub fn into_downloaded(self, files: Vec<File>) -> (r: Downloaded)
        requires
            self.spec_wf(),
            forall|i: int| 0 <= i < self.spec_piece_count() ==> self.spec_committed()[i],
            spec_files_total(files@, files@.len() as int) == self.spec_bytes().len(),
        ensures
            r.spec_wf(),
            r.spec_bytes() == self.spec_bytes(),
            r.spec_files() == files@,
    {
        Downloaded { bytes: self.bytes, files }
    }
}

/// Hash integrity: every piece committed to the buffer hashes to the
/// digest the metainfo names for it.
pub proof fn lemma_hash_integrity(buf: DownloadedBuffer, i: int)
    requires
        buf.spec_wf(),
        0 <= i < buf.spec_piece_count(),
        buf.spec_committed()[i],
    ensures
        sha1_of(
            spec_piece_region(buf.spec_bytes(), buf.spec_plength(), buf.spec_piece_count(), i),
        ) == buf.spec_hash(i),
{
}

/// The finished download: the raw concatenation of all piece bytes, and
/// the file list that slices it.
#[derive(Debug)]
pub struct Downloaded {
    bytes: Vec<u8>,
    files: Vec<File>,
}

impl Downloaded {
    /// The downloaded bytes, every piece at its offset.
    pub closed spec fn spec_bytes(self) -> Seq<u8> {
        self.bytes@
    }

    /// The file list the bytes slice into.
    pub closed spec fn spec_files(self) -> Seq<File> {
        self.files@
    }

    /// The file lengths account for every downloaded byte.
    pub open spec fn spec_wf(self) -> bool {
        spec_files_total(self.spec_files(), self.spec_files().len() as int)
            == self.spec_bytes().len()
    }

    /// Pairs the bytes with their file list.
    pub fn new(bytes: Vec<u8>, files: Vec<File>) -> (r: Downloaded)
        requires
            spec_files_total(files@, files@.len() as int) == bytes@.len(),
        ensures
            r.spec_wf(),
            r.spec_bytes() == bytes@,
            r.spec_files() == files@,
    {
        Downloaded { bytes, files }
    }
}

/// Walks the downloaded bytes file by file: each file takes its `length`
/// bytes where the previous one stopped.
pub struct DownloadedIter<'d> {
    downloaded: &'d Downloaded,
    file_i: usize,
    offset: usize,
}

impl<'d> DownloadedIter<'d> {
    /// The download being walked.
    pub closed spec fn spec_source(self) -> Downloaded {
        *self.downloaded
    }

    /// How many files have been yielded.
    pub closed spec fn spec_pos(self) -> int {
        self.file_i as int
    }

    /// The iterator sits at the byte offset where its next file starts.
    pub open spec fn spec_wf(self) -> bool {
        &&& self.spec_source().spec_wf()
        &&& 0 <= self.spec_pos() <= self.spec_source().spec_files().len()
        &&& self.spec_offset() == spec_files_total(self.spec_source().spec_files(), self.spec_pos())
    }

    /// The byte offset where the next file starts.
    pub closed spec fn spec_offset(self) -> int {
        self.offset as int
    }

    /// Starts at the first file, offset zero.
    pub fn new(d: &'d Downloaded) -> (r: DownloadedIter<'d>)
        requires
            d.spec_wf(),
        ensures
            r.spec_wf(),
            r.spec_source() == *d,
            r.spec_pos() == 0,
    {
        DownloadedIter { downloaded: d, file_i: 0, offset: 0 }
    }

    /// Yields the next file and the slice of the download it owns.
    pub fn next(&mut self) -> (r: Option<DownloadedFile<'d>>)
        requires
            old(self).spec_wf(),
        ensures
            final(self).spec_wf(),
            final(self).spec_source() == old(self).spec_source(),
            old(self).spec_pos() == old(self).spec_source().spec_files().len() ==> (r matches None
                && final(self).spec_pos() == old(self).spec_pos()),
            old(self).spec_pos() < old(self).spec_source().spec_files().len() ==> (r matches Some(
                f,
            ) && final(self).spec_pos() == old(self).spec_pos() + 1 && *f.file == old(
                self,
            ).spec_source().spec_files()[old(self).spec_pos()] && f.spec_bytes() == old(
                self,
            ).spec_source().spec_bytes().subrange(
                old(self).spec_offset(),
                old(self).spec_offset() + old(self).spec_source().spec_files()[old(
                    self,
                ).spec_pos()].length,
            )),
    {
        if self.file_i >= self.downloaded.files.len() {
            return None;
        }
        // Binding the exec length pins `bytes@.len() <= usize::MAX` for the
        // offset arithmetic below.
        let _total: usize = self.downloaded.bytes.len();
        proof {
            lemma_files_total_bounds(
                self.downloaded.spec_files(),
                self.file_i as int + 1,
                self.downloaded.spec_files().len() as int,
            );
            assert(spec_files_total(self.downloaded.spec_files(), self.file_i as int + 1)
                == self.spec_offset() + self.downloaded.spec_files()[self.file_i as int].length);
        }
        let file = &self.downloaded.files[self.file_i];
        let bytes = slice_subrange(
            self.downloaded.bytes.as_slice(),
            self.offset,
            self.offset + file.length,
        );
        self.file_i = self.file_i + 1;
        self.offset = self.offset + file.length;
        Some(DownloadedFile { file, bytes })
    }
}

/// The first `k` summands only depend on the first `k` entries.
proof fn lemma_files_total_prefix(a: Seq<File>, b: Seq<File>, k: int)
    requires
        forall|i: int| 0 <= i < k ==> a[i].length == b[i].length,
    ensures
        spec_files_total(a, k) == spec_files_total(b, k),
    decreases k,
{
    if k > 0 {
        lemma_files_total_prefix(a, b, k - 1);
    }
}

/// Prefix sums of file lengths are monotone and bounded by the total.
proof fn lemma_files_total_bounds(files: Seq<File>, k1: int, k2: int)
    requires
        0 <= k1 <= k2,
    ensures
        spec_files_total(files, k1) <= spec_files_total(files, k2),
    decreases k2 - k1,
{
    if k1 < k2 {
        lemma_files_total_bounds(files, k1, k2 - 1);
    }
}

/// One file of the finished download: its metainfo entry and its bytes.
pub struct DownloadedFile<'d> {
    /// The metainfo entry this slice belongs to.
    pub file: &'d File,
    /// The slice of the download this file owns.
    pub bytes: &'d [u8],
}

impl<'d> DownloadedFile<'d> {
    /// The bytes this file owns.
    pub open spec fn spec_bytes(self) -> Seq<u8> {
        self.bytes@
    }

    /// Subdirectory names, the last of which is the file name.
    pub fn path(&self) -> (r: &'d [String])
        ensures
            r@ == self.file.path@,
    {
        self.file.path.as_slice()
    }

    /// The bytes this file owns.
    pub fn bytes(&self) -> (r: &'d [u8])
        ensures
            r@ == self.spec_bytes(),
    {
        self.bytes
    }
}

/// The file list the output slices into: the single file under the
/// torrent's name, or the metainfo's file list as it stands.
pub fn output_files(info: &Info) -> (r: Vec<File>)
    ensures
        spec_files_total(r@, r@.len() as int) == crate::torrent::spec_total_length(*info),
        match info.keys {
            Keys::SingleFile { length } => r@.len() == 1 && r@[0].length == length
                && r@[0].path@.len() == 1 && r@[0].path@[0]@ == info.name@,
            Keys::MultiFile { files } => r@.len() == files@.len() && forall|i: int|
                0 <= i < files@.len() ==> (#[trigger] r@[i]).length == files@[i].length
                    && r@[i].path@.len() == files@[i].path@.len() && forall|j: int|
                    0 <= j < files@[i].path@.len() ==> r@[i].path@[j]@ == files@[i].path@[j]@,
        },
{
    match &info.keys {
        Keys::SingleFile { length } => {
            let mut path: Vec<String> = Vec::new();
            path.push(info.name.clone());
            let mut r: Vec<File> = Vec::new();
            r.push(File { length: *length, path });
            proof {
                assert(spec_files_total(r@, 1) == spec_files_total(r@, 0) + r@[0].length);
            }
            r
        },
        Keys::MultiFile { files } => {
            let mut r: Vec<File> = Vec::new();
            let mut i: usize = 0;
            while i < files.len()
                invariant
                    i <= files@.len(),
                    r@.len() == i,
                    spec_files_total(r@, i as int) == spec_files_total(files@, i as int),
                    forall|k: int|
                        0 <= k < i ==> (#[trigger] r@[k]).length == files@[k].length
                            && r@[k].path@.len() == files@[k].path@.len() && forall|j: int|
                            0 <= j < files@[k].path@.len() ==> r@[k].path@[j]@
                                == files@[k].path@[j]@,
                decreases files@.len() - i,
            {
                let src = &files[i];
                let mut path: Vec<String> = Vec::new();
                let mut j: usize = 0;
                while j < src.path.len()
                    invariant
                        j <= src.path@.len(),
                        path@.len() == j,
                        forall|k: int| 0 <= k < j ==> path@[k]@ == src.path@[k]@,
                    decreases src.path@.len() - j,
                {
                    path.push(src.path[j].clone());
                    j = j + 1;
                }
                let ghost r_before = r@;
                r.push(File { length: src.length, path });
                proof {
                    lemma_files_total_prefix(r_before, r@, i as int);
                    assert(spec_files_total(r@, i as int + 1) == spec_files_total(r@, i as int)
                        + files@[i as int].length);
                }
                i = i + 1;
            }
            r
        },
    }
}

} // verus!
