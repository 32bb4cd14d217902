//! Metainfo model: the `.torrent` data the engine works from, the canonical
//! bencoding of the info dictionary, and the info hash derived from it.
use vstd::prelude::*;

use crate::digest::sha1_digest;
use crate::digest::sha1_of;
use crate::wire::push_bytes;
use crate::wire::push_dec;
use crate::wire::read_array;
use crate::wire::spec_dec_bytes;
use vstd::utf8::encode_utf8;

verus! {

/// A metainfo file (also known as a `.torrent` file).
#[derive(Debug)]
pub struct Torrent {
    /// The URL of the tracker.
    pub announce: String,
    pub info: Info,
}

/// The info dictionary: name, piece length, piece digests and file layout.
#[derive(Debug)]
pub struct Info {
    /// Suggested name to save the file or directory as; purely advisory.
    pub name: String,
    /// Number of bytes of each piece but possibly the last.
    pub plength: usize,
    /// The SHA-1 digest of each piece, in index order.
    pub pieces: Hashes,
    pub keys: Keys,
}

/// Exactly one of `length` and `files` appears in a metainfo file.
#[derive(Debug)]
pub enum Keys {
    /// The download is a single file of this many bytes.
    SingleFile { length: usize },
    /// The download is a directory; the files concatenate in list order.
    MultiFile { files: Vec<File> },
}

/// One entry of a multi-file torrent.
#[derive(Debug)]
pub struct File {
    /// The length of the file, in bytes.
    pub length: usize,
    /// Subdirectory names, the last of which is the file name.
    pub path: Vec<String>,
}

/// The per-piece SHA-1 digests, split out of the `pieces` byte string.
#[derive(Debug)]
pub struct Hashes(pub Vec<[u8; 20]>);

/// The concatenation of the first `k` digests.
pub open spec fn spec_hashes_concat(hashes: Seq<[u8; 20]>, k: int) -> Seq<u8>
    decreases k,
{
    if k <= 0 {
        Seq::empty()
    } else {
        spec_hashes_concat(hashes, k - 1) + hashes[k - 1]@
    }
}

impl Hashes {
    /// The `pieces` byte string these digests came from.
    pub open spec fn spec_bytes(self) -> Seq<u8> {
        spec_hashes_concat(self.0@, self.0@.len() as int)
    }

    /// Splits the `pieces` byte string into 20-byte digests; any length
    /// that is not a multiple of 20 is rejected.
    pub fn from_bytes(v: &[u8]) -> (r: Option<Hashes>)
        ensures
            v@.len() % 20 == 0 ==> (r matches Some(h) && h.0@.len() == v@.len() / 20 && forall|
                i: int,
            |
                0 <= i < h.0@.len() ==> #[trigger] h.0@[i]@ == v@.subrange(20 * i, 20 * i + 20)),
            v@.len() % 20 != 0 ==> r matches None,
    {
        if v.len() % 20 != 0 {
            return None;
        }
        let count = v.len() / 20;
        let mut out: Vec<[u8; 20]> = Vec::new();
        let mut i: usize = 0;
        while i < count
            invariant
                i <= count,
                count == v@.len() / 20,
                v@.len() % 20 == 0,
                v@.len() <= usize::MAX,
                out@.len() == i,
                forall|j: int| 0 <= j < i ==> #[trigger] out@[j]@ == v@.subrange(20 * j, 20 * j + 20),
            decreases count - i,
        {
            proof {
                assert(20 * (i as int) + 20 <= 20 * (count as int));
                assert(20 * (count as int) == v@.len());
            }
            let h: [u8; 20] = read_array::<20>(v, 20 * i);
            out.push(h);
            i = i + 1;
        }
        Some(Hashes(out))
    }

    /// The digests laid end to end again.
    pub fn concat(&self) -> (r: Vec<u8>)
        ensures
            r@ == self.spec_bytes(),
    {
        let mut out: Vec<u8> = Vec::new();
        let mut i: usize = 0;
        while i < self.0.len()
            invariant
                i <= self.0@.len(),
                out@ == spec_hashes_concat(self.0@, i as int),
            decreases self.0@.len() - i,
        {
            push_bytes(&mut out, self.0[i].as_slice());
            i = i + 1;
        }
        out
    }
}

/// Sum of the lengths of the first `k` files.
pub open spec fn spec_files_total(files: Seq<File>, k: int) -> int
    decreases k,
{
    if k <= 0 {
        0
    } else {
        spec_files_total(files, k - 1) + files[k - 1].length
    }
}

/// Total number of bytes the torrent describes.
pub open spec fn spec_total_length(info: Info) -> int {
    match info.keys {
        Keys::SingleFile { length } => length as int,
        Keys::MultiFile { files } => spec_files_total(files@, files@.len() as int),
    }
}

/// Number of pieces a download of `total` bytes has with piece size `plen`:
/// `total / plen` rounded up.
pub open spec fn spec_npieces(total: int, plen: int) -> int {
    (total + plen - 1) / plen
}

/// Size of piece `i`: `plength` for every piece but the last, which takes
/// what remains of the total length.
pub open spec fn spec_piece_size(info: Info, i: int) -> int {
    if i == info.pieces.0@.len() - 1 {
        spec_total_length(info) - i * (info.plength as int)
    } else {
        info.plength as int
    }
}

/// A well-formed info dictionary: positive piece size, something to fetch,
/// a total that the machine can address, and one digest per piece.
pub open spec fn spec_info_wf(info: Info) -> bool {
    &&& 0 < info.plength
    &&& 0 < spec_total_length(info)
    &&& spec_total_length(info) <= usize::MAX
    &&& info.pieces.0@.len() == spec_npieces(spec_total_length(info), info.plength as int)
}

/// Ceiling-division geometry: with `P = spec_npieces(total, plen)` pieces,
/// the first `P - 1` pieces leave a final piece of size in `(0, plen]`.
pub proof fn lemma_piece_geometry(total: int, plen: int)
    requires
        0 < total,
        0 < plen,
    ensures
        1 <= spec_npieces(total, plen),
        (spec_npieces(total, plen) - 1) * plen < total,
        total <= spec_npieces(total, plen) * plen,
        total - (spec_npieces(total, plen) - 1) * plen == (if total % plen == 0 {
            plen
        } else {
            total % plen
        }),
{
    let d = total / plen;
    let m = total % plen;
    vstd::arithmetic::div_mod::lemma_fundamental_div_mod(total, plen);
    assert(total == plen * d + m);
    if m == 0 {
        assert(d * plen + (plen - 1) == total + plen - 1) by (nonlinear_arith)
            requires
                total == plen * d,
        ;
        vstd::arithmetic::div_mod::lemma_fundamental_div_mod_converse(
            total + plen - 1,
            plen,
            d,
            plen - 1,
        );
        assert(spec_npieces(total, plen) == d);
        assert((d - 1) * plen == plen * d - plen) by (nonlinear_arith);
        assert(d * plen == plen * d) by (nonlinear_arith);
        assert(1 <= d) by (nonlinear_arith)
            requires
                total == plen * d,
                0 < total,
                0 < plen,
        ;
    } else {
        assert((d + 1) * plen + (m - 1) == total + plen - 1) by (nonlinear_arith)
            requires
                total == plen * d + m,
        ;
        vstd::arithmetic::div_mod::lemma_fundamental_div_mod_converse(
            total + plen - 1,
            plen,
            d + 1,
            m - 1,
        );
        assert(spec_npieces(total, plen) == d + 1);
        assert(d * plen == plen * d) by (nonlinear_arith);
        assert((d + 1) * plen == plen * d + plen) by (nonlinear_arith);
        assert(0 <= d) by (nonlinear_arith)
            requires
                total == plen * d + m,
                0 < total,
                0 < plen,
                0 <= m < plen,
        ;
    }
}

impl Info {
    /// Total number of bytes the torrent describes.
    pub fn total_length(&self) -> (r: usize)
        requires
            spec_total_length(*self) <= usize::MAX,
        ensures
            r == spec_total_length(*self),
    {
        match &self.keys {
            Keys::SingleFile { length } => *length,
            Keys::MultiFile { files } => {
                let mut sum: usize = 0;
                let mut i: usize = 0;
                while i < files.len()
                    invariant
                        i <= files@.len(),
                        sum == spec_files_total(files@, i as int),
                        spec_files_total(files@, files@.len() as int) <= usize::MAX,
                    decreases files@.len() - i,
                {
                    proof {
                        lemma_files_total_monotonic(files@, i as int + 1, files@.len() as int);
                    }
                    sum = sum + files[i].length;
                    i = i + 1;
                }
                sum
            },
        }
    }

    /// Size of piece `piece_i`, the last piece taking what remains.
    pub fn piece_size(&self, piece_i: usize) -> (r: usize)
        requires
            spec_info_wf(*self),
            (piece_i as int) < self.pieces.0@.len(),
        ensures
            r == spec_piece_size(*self, piece_i as int),
            0 < r <= self.plength,
    {
        proof {
            lemma_piece_geometry(spec_total_length(*self), self.plength as int);
        }
        let total = self.total_length();
        if piece_i == self.pieces.0.len() - 1 {
            let md = total % self.plength;
            if md == 0 {
                self.plength
            } else {
                md
            }
        } else {
            self.plength
        }
    }
}

/// Partial file-length sums grow with `k`.
proof fn lemma_files_total_monotonic(files: Seq<File>, k1: int, k2: int)
    requires
        0 <= k1 <= k2,
    ensures
        spec_files_total(files, k1) <= spec_files_total(files, k2),
    decreases k2 - k1,
{
    if k1 < k2 {
        lemma_files_total_monotonic(files, k1, k2 - 1);
    }
}

// Bencode fragments: `i<n>e` for integers, `<len>:<bytes>` for strings.
/// The bencoding of a non-negative integer.
pub open spec fn spec_bint(n: int) -> Seq<u8> {
    seq![105u8] + spec_dec_bytes(n) + seq![101u8]
}

/// The bencoding of a byte string.
pub open spec fn spec_bstr(s: Seq<u8>) -> Seq<u8> {
    spec_dec_bytes(s.len() as int) + seq![58u8] + s
}

/// The bytes of the dictionary key `"length"`.
pub open spec fn spec_key_length() -> Seq<u8> {
    seq![108u8, 101u8, 110u8, 103u8, 116u8, 104u8]
}

/// The bytes of the dictionary key `"name"`.
pub open spec fn spec_key_name() -> Seq<u8> {
    seq![110u8, 97u8, 109u8, 101u8]
}

/// The bytes of the dictionary key `"piece length"`.
pub open spec fn spec_key_piece_length() -> Seq<u8> {
    seq![112u8, 105u8, 101u8, 99u8, 101u8, 32u8, 108u8, 101u8, 110u8, 103u8, 116u8, 104u8]
}

/// The bytes of the dictionary key `"pieces"`.
pub open spec fn spec_key_pieces() -> Seq<u8> {
    seq![112u8, 105u8, 101u8, 99u8, 101u8, 115u8]
}

/// The bytes of the dictionary key `"files"`.
pub open spec fn spec_key_files() -> Seq<u8> {
    seq![102u8, 105u8, 108u8, 101u8, 115u8]
}

/// The bytes of the dictionary key `"path"`.
pub open spec fn spec_key_path() -> Seq<u8> {
    seq![112u8, 97u8, 116u8, 104u8]
}

/// The bencoded list of the first `k` path components.
pub open spec fn spec_path_bencoding(path: Seq<String>, k: int) -> Seq<u8>
    decreases k,
{
    if k <= 0 {
        Seq::empty()
    } else {
        spec_path_bencoding(path, k - 1) + spec_bstr(encode_utf8(path[k - 1]@))
    }
}

/// The bencoded dictionary of one file entry: its length and path list,
/// keys in canonical order.
pub open spec fn spec_file_bencoding(f: File) -> Seq<u8> {
    seq![100u8] + spec_bstr(spec_key_length()) + spec_bint(f.length as int) + spec_bstr(
        spec_key_path(),
    ) + seq![108u8] + spec_path_bencoding(f.path@, f.path@.len() as int) + seq![101u8] + seq![101u8]
}

/// The bencoded list of the first `k` file entries.
pub open spec fn spec_files_bencoding(files: Seq<File>, k: int) -> Seq<u8>
    decreases k,
{
    if k <= 0 {
        Seq::empty()
    } else {
        spec_files_bencoding(files, k - 1) + spec_file_bencoding(files[k - 1])
    }
}

/// The canonical bencoding of the info dictionary, keys in sorted order:
/// `files`/`length`, then `name`, `piece length`, `pieces`.
pub open spec fn spec_info_bencoding(info: Info) -> Seq<u8> {
    seq![100u8] + (match info.keys {
        Keys::SingleFile { length } => spec_bstr(spec_key_length()) + spec_bint(length as int),
        Keys::MultiFile { files } => spec_bstr(spec_key_files()) + seq![108u8]
            + spec_files_bencoding(files@, files@.len() as int) + seq![101u8],
    }) + spec_bstr(spec_key_name()) + spec_bstr(encode_utf8(info.name@)) + spec_bstr(
        spec_key_piece_length(),
    ) + spec_bint(info.plength as int) + spec_bstr(spec_key_pieces()) + spec_bstr(
        info.pieces.spec_bytes(),
    ) + seq![101u8]
}

/// Appends `i<n>e` to `dst`.
fn push_bint(dst: &mut Vec<u8>, n: u64)
    ensures
        final(dst)@ == old(dst)@ + spec_bint(n as int),
{
    dst.push(105);
    push_dec(dst, n);
    dst.push(101);
    proof {
        assert(final(dst)@ =~= old(dst)@ + spec_bint(n as int));
    }
}

/// Appends `<len>:<bytes>` to `dst`.
fn push_bstr(dst: &mut Vec<u8>, s: &[u8])
    ensures
        final(dst)@ == old(dst)@ + spec_bstr(s@),
{
    push_dec(dst, s.len() as u64);
    dst.push(58);
    push_bytes(dst, s);
    proof {
        assert(final(dst)@ =~= old(dst)@ + spec_bstr(s@));
    }
}

/// Serializes the info dictionary into its canonical bencoding.
pub fn encode_info(info: &Info) -> (r: Vec<u8>)
    ensures
        r@ == spec_info_bencoding(*info),
{
    let mut out: Vec<u8> = Vec::new();
    out.push(100);
    match &info.keys {
        Keys::SingleFile { length } => {
            let k: [u8; 6] = [108, 101, 110, 103, 116, 104];
            proof {
                assert(k@ =~= spec_key_length());
            }
            push_bstr(&mut out, k.as_slice());
            push_bint(&mut out, *length as u64);
        },
        Keys::MultiFile { files } => {
            let k: [u8; 5] = [102, 105, 108, 101, 115];
            proof {
                assert(k@ =~= spec_key_files());
            }
            push_bstr(&mut out, k.as_slice());
            out.push(108);
            let ghost mark = out@;
            let mut i: usize = 0;
            while i < files.len()
                invariant
                    i <= files@.len(),
                    out@ == mark + spec_files_bencoding(files@, i as int),
                decreases files@.len() - i,
            {
                push_file(&mut out, &files[i]);
                i = i + 1;
            }
            out.push(101);
        },
    }
    let kn: [u8; 4] = [110, 97, 109, 101];
    proof {
        assert(kn@ =~= spec_key_name());
    }
    push_bstr(&mut out, kn.as_slice());
    push_bstr(&mut out, info.name.as_str().as_bytes());
    let kp: [u8; 12] = [112, 105, 101, 99, 101, 32, 108, 101, 110, 103, 116, 104];
    proof {
        assert(kp@ =~= spec_key_piece_length());
    }
    push_bstr(&mut out, kp.as_slice());
    push_bint(&mut out, info.plength as u64);
    let kh: [u8; 6] = [112, 105, 101, 99, 101, 115];
    proof {
        assert(kh@ =~= spec_key_pieces());
    }
    push_bstr(&mut out, kh.as_slice());
    let hashes = info.pieces.concat();
    push_bstr(&mut out, hashes.as_slice());
    out.push(101);
    proof {
        assert(out@ =~= spec_info_bencoding(*info));
    }
    out
}

/// Appends the bencoded dictionary of one file entry to `dst`.
fn push_file(dst: &mut Vec<u8>, f: &File)
    ensures
        final(dst)@ == old(dst)@ + spec_file_bencoding(*f),
{
    dst.push(100);
    let k: [u8; 6] = [108, 101, 110, 103, 116, 104];
    proof {
        assert(k@ =~= spec_key_length());
    }
    push_bstr(dst, k.as_slice());
    push_bint(dst, f.length as u64);
    let kp: [u8; 4] = [112, 97, 116, 104];
    proof {
        assert(kp@ =~= spec_key_path());
    }
    push_bstr(dst, kp.as_slice());
    dst.push(108);
    let ghost mark = dst@;
    let mut i: usize = 0;
    while i < f.path.len()
        invariant
            i <= f.path@.len(),
            dst@ == mark + spec_path_bencoding(f.path@, i as int),
        decreases f.path@.len() - i,
    {
        push_bstr(dst, f.path[i].as_str().as_bytes());
        i = i + 1;
    }
    dst.push(101);
    dst.push(101);
    proof {
        assert(final(dst)@ =~= old(dst)@ + spec_file_bencoding(*f));
    }
}

impl Torrent {
    /// The torrent's identifier: the SHA-1 digest of the canonical
    /// bencoding of its info dictionary.
    pub fn info_hash(&self) -> (r: [u8; 20])
        ensures
            r@ == sha1_of(spec_info_bencoding(self.info)),
    {
        let encoded = encode_info(&self.info);
        sha1_digest(encoded.as_slice())
    }
}

} // verus!
