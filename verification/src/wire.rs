//! Byte-level encodings shared by the codecs: big-endian integers, decimal
//! digits and percent-encoding of raw bytes.
use vstd::prelude::*;

verus! {

/// Value of four big-endian bytes.
pub open spec fn be32_val(b: Seq<u8>) -> int
    recommends
        b.len() == 4,
{
    b[0] * 0x1000000 + b[1] * 0x10000 + b[2] * 0x100 + b[3]
}

/// The four big-endian bytes of a value below 2^32.
pub open spec fn be32_bytes(n: int) -> Seq<u8> {
    seq![
        ((n / 0x1000000) % 0x100) as u8,
        ((n / 0x10000) % 0x100) as u8,
        ((n / 0x100) % 0x100) as u8,
        (n % 0x100) as u8,
    ]
}

/// Value of two big-endian bytes.
pub open spec fn be16_val(b: Seq<u8>) -> int
    recommends
        b.len() == 2,
{
    b[0] * 0x100 + b[1]
}

pub proof fn lemma_be32_roundtrip(n: int)
    requires
        0 <= n < 0x100000000,
    ensures
        be32_val(be32_bytes(n)) == n,
{
    let b = be32_bytes(n);
    assert(b[0] == ((n / 0x1000000) % 0x100) as u8);
    assert(n / 0x1000000 < 0x100);
    assert((n / 0x1000000) % 0x100 == n / 0x1000000);
    assert(b[0] * 0x1000000 + b[1] * 0x10000 + b[2] * 0x100 + b[3] == n) by (nonlinear_arith)
        requires
            b[0] == n / 0x1000000,
            b[1] == (n / 0x10000) % 0x100,
            b[2] == (n / 0x100) % 0x100,
            b[3] == n % 0x100,
            0 <= n < 0x100000000,
    ;
}

pub fn u32_from_be(b0: u8, b1: u8, b2: u8, b3: u8) -> (r: u32)
    ensures
        r as int == be32_val(seq![b0, b1, b2, b3]),
{
    let r = (b0 as u32) * 0x1000000 + (b1 as u32) * 0x10000 + (b2 as u32) * 0x100 + (b3 as u32);
    proof {
        assert(seq![b0, b1, b2, b3][0] == b0);
        assert(seq![b0, b1, b2, b3][1] == b1);
        assert(seq![b0, b1, b2, b3][2] == b2);
        assert(seq![b0, b1, b2, b3][3] == b3);
    }
    r
}

pub fn u16_from_be(b0: u8, b1: u8) -> (r: u16)
    ensures
        r as int == be16_val(seq![b0, b1]),
{
    let r = (b0 as u16) * 0x100 + (b1 as u16);
    proof {
        assert(seq![b0, b1][0] == b0);
        assert(seq![b0, b1][1] == b1);
    }
    r
}

/// Appends the four big-endian bytes of `x` to `dst`.
pub fn push_u32_be(dst: &mut Vec<u8>, x: u32)
    ensures
        final(dst)@ == old(dst)@ + be32_bytes(x as int),
{
    dst.push((x / 0x1000000) as u8);
    dst.push(((x / 0x10000) % 0x100) as u8);
    dst.push(((x / 0x100) % 0x100) as u8);
    dst.push((x % 0x100) as u8);
    proof {
        assert(final(dst)@ =~= old(dst)@ + be32_bytes(x as int));
    }
}

/// The four big-endian bytes of `x`, as an array.
pub fn u32_be_array(x: u32) -> (r: [u8; 4])
    ensures
        r@ == be32_bytes(x as int),
{
    let r: [u8; 4] = [
        (x / 0x1000000) as u8,
        ((x / 0x10000) % 0x100) as u8,
        ((x / 0x100) % 0x100) as u8,
        (x % 0x100) as u8,
    ];
    proof {
        assert(r@ =~= be32_bytes(x as int));
    }
    r
}

/// Copies `N` bytes of `data`, starting at `at`, into a fresh array.
pub fn read_array<const N: usize>(data: &[u8], at: usize) -> (r: [u8; N])
    requires
        at + N <= data@.len(),
        at + N <= usize::MAX,
    ensures
        r@ == data@.subrange(at as int, at as int + N),
{
    let mut r: [u8; N] = vstd::array::array_fill_for_copy_types::<u8, N>(0);
    let mut i: usize = 0;
    while i < N
        invariant
            i <= N,
            at + N <= data@.len(),
            at + N <= usize::MAX,
            r@.len() == N,
            forall|j: int| 0 <= j < i ==> r@[j] == data@[at + j],
        decreases N - i,
    {
        r[i] = data[at + i];
        i = i + 1;
    }
    proof {
        assert(r@ =~= data@.subrange(at as int, at as int + N));
    }
    r
}

/// Appends a copy of `src` to `dst`.
pub fn push_bytes(dst: &mut Vec<u8>, src: &[u8])
    ensures
        final(dst)@ == old(dst)@ + src@,
{
    let mut i: usize = 0;
    while i < src.len()
        invariant
            i <= src@.len(),
            dst@ == old(dst)@ + src@.take(i as int),
        decreases src@.len() - i,
    {
        dst.push(src[i]);
        proof {
            assert(old(dst)@ + src@.take(i as int) + seq![src@[i as int]] =~= old(dst)@ + src@.take(
                i as int + 1,
            ));
        }
        i = i + 1;
    }
    proof {
        assert(src@.take(src@.len() as int) =~= src@);
    }
}

/// Decimal digits of a non-negative value, most significant first.
pub open spec fn spec_dec_bytes(n: int) -> Seq<u8>
    recommends
        0 <= n,
    decreases n,
{
    if n < 10 {
        seq![(48 + n) as u8]
    } else {
        spec_dec_bytes(n / 10).push((48 + n % 10) as u8)
    }
}

/// Renders `n` in decimal ASCII.
pub fn u64_to_dec(n: u64) -> (r: Vec<u8>)
    ensures
        r@ == spec_dec_bytes(n as int),
    decreases n,
{
    if n < 10 {
        let mut v: Vec<u8> = Vec::new();
        v.push(48 + n as u8);
        proof {
            assert(v@ =~= spec_dec_bytes(n as int));
        }
        v
    } else {
        let mut v = u64_to_dec(n / 10);
        v.push(48 + (n % 10) as u8);
        v
    }
}

/// Appends the decimal ASCII form of `n` to `dst`.
pub fn push_dec(dst: &mut Vec<u8>, n: u64)
    ensures
        final(dst)@ == old(dst)@ + spec_dec_bytes(n as int),
{
    let d = u64_to_dec(n);
    push_bytes(dst, d.as_slice());
}

/// Lowercase hex digit of a value below 16.
pub open spec fn spec_hex_digit(d: int) -> u8 {
    if d < 10 {
        (48 + d) as u8
    } else {
        (87 + d) as u8
    }
}

/// Percent-encoding of raw bytes: every byte becomes `%xx`, lowercase hex,
/// with no byte exempted.
pub open spec fn spec_percent_bytes(b: Seq<u8>) -> Seq<u8>
    decreases b.len(),
{
    if b.len() == 0 {
        Seq::empty()
    } else {
        spec_percent_bytes(b.drop_last()) + seq![
            37u8,
            spec_hex_digit(b.last() as int / 16),
            spec_hex_digit(b.last() as int % 16),
        ]
    }
}

/// Appends the percent-encoded form of `src` to `dst`.
pub fn push_percent(dst: &mut Vec<u8>, src: &[u8])
    ensures
        final(dst)@ == old(dst)@ + spec_percent_bytes(src@),
{
    let mut i: usize = 0;
    while i < src.len()
        invariant
            i <= src@.len(),
            dst@ == old(dst)@ + spec_percent_bytes(src@.take(i as int)),
        decreases src@.len() - i,
    {
        let byte = src[i];
        dst.push(37);
        let hi = byte / 16;
        dst.push(
            if hi < 10 {
                48 + hi
            } else {
                87 + hi
            },
        );
        let lo = byte % 16;
        dst.push(
            if lo < 10 {
                48 + lo
            } else {
                87 + lo
            },
        );
        proof {
            assert(src@.take(i as int + 1).drop_last() =~= src@.take(i as int));
            assert(src@.take(i as int + 1).last() == src@[i as int]);
            assert(dst@ =~= old(dst)@ + spec_percent_bytes(src@.take(i as int + 1)));
        }
        i = i + 1;
    }
    proof {
        assert(src@.take(src@.len() as int) =~= src@);
    }
}

} // verus!
