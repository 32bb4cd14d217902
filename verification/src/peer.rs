//! Peer wire protocol codec: message tags, the length-prefixed message
//! framer, and the fixed-layout handshake, request and piece records.
use vstd::prelude::*;

use crate::wire::be32_bytes;
use crate::wire::be32_val;
use crate::wire::push_bytes;
use crate::wire::push_u32_be;
use crate::wire::u32_from_be;
use crate::MAX_FRAME;

verus! {

/// Tag byte of a peer wire message, BEP-3 numbering starting at `Choke = 0`.
#[derive(Clone, Copy, Debug, PartialEq, Eq, Structural)]
pub enum MessageTag {
    Choke,
    Unchoke,
    Interested,
    NotInterested,
    Have,
    Bitfield,
    Request,
    Piece,
    Cancel,
}

pub open spec fn spec_tag_byte(t: MessageTag) -> u8 {
    match t {
        MessageTag::Choke => 0,
        MessageTag::Unchoke => 1,
        MessageTag::Interested => 2,
        MessageTag::NotInterested => 3,
        MessageTag::Have => 4,
        MessageTag::Bitfield => 5,
        MessageTag::Request => 6,
        MessageTag::Piece => 7,
        MessageTag::Cancel => 8,
    }
}

#[verifier::when_used_as_spec(spec_tag_byte)]
pub fn tag_byte(t: MessageTag) -> (r: u8)
    ensures
        r == spec_tag_byte(t),
{
    match t {
        MessageTag::Choke => 0,
        MessageTag::Unchoke => 1,
        MessageTag::Interested => 2,
        MessageTag::NotInterested => 3,
        MessageTag::Have => 4,
        MessageTag::Bitfield => 5,
        MessageTag::Request => 6,
        MessageTag::Piece => 7,
        MessageTag::Cancel => 8,
    }
}

pub open spec fn spec_tag_from_byte(b: u8) -> Option<MessageTag> {
    if b == 0 {
        Some(MessageTag::Choke)
    } else if b == 1 {
        Some(MessageTag::Unchoke)
    } else if b == 2 {
        Some(MessageTag::Interested)
    } else if b == 3 {
        Some(MessageTag::NotInterested)
    } else if b == 4 {
        Some(MessageTag::Have)
    } else if b == 5 {
        Some(MessageTag::Bitfield)
    } else if b == 6 {
        Some(MessageTag::Request)
    } else if b == 7 {
        Some(MessageTag::Piece)
    } else if b == 8 {
        Some(MessageTag::Cancel)
    } else {
        None
    }
}

#[verifier::when_used_as_spec(spec_tag_from_byte)]
pub fn tag_from_byte(b: u8) -> (r: Option<MessageTag>)
    ensures
        r == spec_tag_from_byte(b),
{
    if b == 0 {
        Some(MessageTag::Choke)
    } else if b == 1 {
        Some(MessageTag::Unchoke)
    } else if b == 2 {
        Some(MessageTag::Interested)
    } else if b == 3 {
        Some(MessageTag::NotInterested)
    } else if b == 4 {
        Some(MessageTag::Have)
    } else if b == 5 {
        Some(MessageTag::Bitfield)
    } else if b == 6 {
        Some(MessageTag::Request)
    } else if b == 7 {
        Some(MessageTag::Piece)
    } else if b == 8 {
        Some(MessageTag::Cancel)
    } else {
        None
    }
}

/// A decoded peer wire message: tag plus raw payload.
#[derive(Clone, Debug)]
pub struct Message {
    pub tag: MessageTag,
    pub payload: Vec<u8>,
}

/// Fatal framing errors.
#[derive(Clone, Copy, Debug, PartialEq, Eq, Structural)]
pub enum FrameError {
    /// The length prefix exceeds `MAX_FRAME`.
    InvalidFrameTooLarge,
    /// The tag byte names no known message.
    UnknownTag,
}

/// What decoding a buffer yields: more bytes are needed, a fatal framing
/// error, or one message. `rest` is the buffer left behind in each case;
/// keep-alive frames (length 0) are consumed silently on the way.
pub enum SpecDecoded {
    NeedMore { rest: Seq<u8> },
    Fail { kind: FrameError, rest: Seq<u8> },
    Got { tag: MessageTag, payload: Seq<u8>, rest: Seq<u8> },
}

/// The meaning of the length-prefixed framing: `{ length: u32 BE, tag: u8,
/// payload: [u8; length - 1] }`, with keep-alives skipped.
pub open spec fn spec_decode(src: Seq<u8>) -> SpecDecoded
    decreases src.len(),
{
    if src.len() < 4 {
        SpecDecoded::NeedMore { rest: src }
    } else {
        let flen = src[0] * 0x1000000 + src[1] * 0x10000 + src[2] * 0x100 + src[3];
        if flen == 0 {
            spec_decode(src.skip(4))
        } else if src.len() < 5 {
            SpecDecoded::NeedMore { rest: src }
        } else if flen > MAX_FRAME {
            SpecDecoded::Fail { kind: FrameError::InvalidFrameTooLarge, rest: src }
        } else if src.len() < 4 + flen {
            SpecDecoded::NeedMore { rest: src }
        } else {
            match spec_tag_from_byte(src[4]) {
                None => SpecDecoded::Fail { kind: FrameError::UnknownTag, rest: src },
                Some(tag) => SpecDecoded::Got {
                    tag,
                    payload: src.subrange(5, 4 + flen),
                    rest: src.skip(4 + flen),
                },
            }
        }
    }
}

/// The bytes of one encoded frame.
pub open spec fn spec_encode_frame(tag: MessageTag, payload: Seq<u8>) -> Seq<u8> {
    be32_bytes(payload.len() + 1 as int) + seq![spec_tag_byte(tag)] + payload
}

/// Length-prefixed encoder/decoder for peer wire messages.
pub struct MessageFramer;

impl MessageFramer {
    /// Decodes one message from the front of `src`, consuming what it
    /// decoded (including any leading keep-alives). Returns `Ok(None)` when
    /// more bytes are needed, consuming nothing further.
    pub fn decode(&mut self, src: &mut Vec<u8>) -> (r: Result<Option<Message>, FrameError>)
        ensures
            match spec_decode(old(src)@) {
                SpecDecoded::NeedMore { rest } => r matches Ok(m) && m matches None && final(src)@
                    == rest,
                SpecDecoded::Fail { kind, rest } => r matches Err(k) && k == kind && final(src)@
                    == rest,
                SpecDecoded::Got { tag, payload, rest } => r matches Ok(m) && m matches Some(msg)
                    && msg.tag == tag && msg.payload@ == payload && final(src)@ == rest,
            },
    {
        loop
            invariant
                spec_decode(src@) == spec_decode(old(src)@),
            decreases src@.len(),
        {
            if src.len() < 4 {
                return Ok(None);
            }
            let flen = u32_from_be(src[0], src[1], src[2], src[3]);
            proof {
                assert(flen as int == be32_val(seq![src@[0], src@[1], src@[2], src@[3]]));
                assert(seq![src@[0], src@[1], src@[2], src@[3]][0] == src@[0]);
                assert(seq![src@[0], src@[1], src@[2], src@[3]][1] == src@[1]);
                assert(seq![src@[0], src@[1], src@[2], src@[3]][2] == src@[2]);
                assert(seq![src@[0], src@[1], src@[2], src@[3]][3] == src@[3]);
            }
            if flen == 0 {
                let tail = src.split_off(4);
                *src = tail;
                continue ;
            }
            if src.len() < 5 {
                return Ok(None);
            }
            if flen > MAX_FRAME as u32 {
                return Err(FrameError::InvalidFrameTooLarge);
            }
            let flen_us = flen as usize;
            if src.len() < 4 + flen_us {
                return Ok(None);
            }
            let tag = match tag_from_byte(src[4]) {
                None => {
                    return Err(FrameError::UnknownTag);
                },
                Some(t) => t,
            };
            let mut payload: Vec<u8> = Vec::new();
            let mut i: usize = 5;
            while i < 4 + flen_us
                invariant
                    flen_us <= MAX_FRAME,
                    5 <= i <= 4 + flen_us,
                    4 + flen_us <= src@.len(),
                    payload@ == src@.subrange(5, i as int),
                decreases 4 + flen_us - i,
            {
                payload.push(src[i]);
                proof {
                    assert(src@.subrange(5, i as int).push(src@[i as int]) =~= src@.subrange(
                        5,
                        i as int + 1,
                    ));
                }
                i = i + 1;
            }
            let tail = src.split_off(4 + flen_us);
            *src = tail;
            return Ok(Some(Message { tag, payload }));
        }
    }

    /// Encodes `item` onto the end of `dst`: length prefix, tag byte,
    /// payload. Oversized payloads are refused and `dst` is left unchanged.
    pub fn encode(&mut self, item: Message, dst: &mut Vec<u8>) -> (r: Result<(), FrameError>)
        ensures
            item.payload@.len() + 1 <= MAX_FRAME ==> (r matches Ok(u) && final(dst)@ == old(dst)@
                + spec_encode_frame(item.tag, item.payload@)),
            item.payload@.len() + 1 > MAX_FRAME ==> (r matches Err(k) && k
                == FrameError::InvalidFrameTooLarge && final(dst)@ == old(dst)@),
    {
        if item.payload.len() >= MAX_FRAME {
            return Err(FrameError::InvalidFrameTooLarge);
        }
        push_u32_be(dst, (item.payload.len() + 1) as u32);
        dst.push(tag_byte(item.tag));
        push_bytes(dst, item.payload.as_slice());
        proof {
            assert(final(dst)@ =~= old(dst)@ + spec_encode_frame(item.tag, item.payload@));
        }
        Ok(())
    }
}

/// Framer round trip: an encoded in-range message decodes back to itself,
/// whatever bytes follow it in the buffer.
pub proof fn lemma_frame_round_trip(tag: MessageTag, payload: Seq<u8>, rest: Seq<u8>)
    requires
        payload.len() + 1 <= MAX_FRAME,
    ensures
        spec_decode(spec_encode_frame(tag, payload) + rest) == (SpecDecoded::Got {
            tag,
            payload,
            rest,
        }),
{
    let flen = payload.len() + 1;
    let s = spec_encode_frame(tag, payload) + rest;
    crate::wire::lemma_be32_roundtrip(flen as int);
    assert(s[0] == be32_bytes(flen as int)[0]);
    assert(s[1] == be32_bytes(flen as int)[1]);
    assert(s[2] == be32_bytes(flen as int)[2]);
    assert(s[3] == be32_bytes(flen as int)[3]);
    assert(s[0] * 0x1000000 + s[1] * 0x10000 + s[2] * 0x100 + s[3] == flen) by {
        assert(be32_val(be32_bytes(flen as int)) == flen);
    }
    assert(s.len() == 4 + flen + rest.len());
    assert(s[4] == spec_tag_byte(tag));
    assert(spec_tag_from_byte(spec_tag_byte(tag)) == Some(tag));
    assert(s.subrange(5, 4 + flen as int) =~= payload);
    assert(s.skip(4 + flen as int) =~= rest);
}

/// Keep-alive frames are silently consumed: decoding a buffer that starts
/// with a zero length prefix decodes the remainder.
pub proof fn lemma_keep_alive_consumed(rest: Seq<u8>)
    ensures
        spec_decode(seq![0u8, 0u8, 0u8, 0u8] + rest) == spec_decode(rest),
{
    let s = seq![0u8, 0u8, 0u8, 0u8] + rest;
    assert(s[0] == 0 && s[1] == 0 && s[2] == 0 && s[3] == 0);
    assert(s.skip(4) =~= rest);
}

/// A peer's piece bitmap: the bit for piece `i` is the `(i % 8)`-th most
/// significant bit of byte `i / 8`.
pub struct Bitfield {
    payload: Vec<u8>,
}

impl View for Bitfield {
    type V = Seq<u8>;

    closed spec fn view(&self) -> Seq<u8> {
        self.payload@
    }
}

pub open spec fn spec_has_piece(bits: Seq<u8>, i: int) -> bool {
    0 <= i && i / 8 < bits.len() && (bits[i / 8] >> ((7 - (i % 8)) as u8)) & 1 == 1
}

/// The ascending list of piece indices below `n` whose bit is set.
pub open spec fn spec_piece_list(bits: Seq<u8>, n: int) -> Seq<usize>
    decreases n,
{
    if n <= 0 {
        Seq::empty()
    } else {
        let prefix = spec_piece_list(bits, n - 1);
        if spec_has_piece(bits, n - 1) {
            prefix.push((n - 1) as usize)
        } else {
            prefix
        }
    }
}

/// Bitfield bit order: the piece list is strictly ascending, holds only set
/// bits, and holds every set bit below `n`.
pub proof fn lemma_piece_list_props(bits: Seq<u8>, n: int)
    requires
        n <= usize::MAX,
    ensures
        forall|a: int, b: int|
            0 <= a < b < spec_piece_list(bits, n).len() ==> spec_piece_list(bits, n)[a]
                < spec_piece_list(bits, n)[b],
        forall|k: int|
            0 <= k < spec_piece_list(bits, n).len() ==> 0 <= #[trigger] spec_piece_list(bits, n)[k]
                < n && spec_has_piece(bits, spec_piece_list(bits, n)[k] as int),
        forall|i: int|
            0 <= i < n && spec_has_piece(bits, i) ==> spec_piece_list(bits, n).contains(i as usize),
    decreases n,
{
    if n <= 0 {
    } else {
        lemma_piece_list_props(bits, n - 1);
        let prefix = spec_piece_list(bits, n - 1);
        let full = spec_piece_list(bits, n);
        if spec_has_piece(bits, n - 1) {
            assert(full == prefix.push((n - 1) as usize));
            assert forall|a: int, b: int| 0 <= a < b < full.len() implies full[a] < full[b] by {
                if b == full.len() - 1 {
                    assert(full[a] == prefix[a]);
                    assert(prefix[a] < n - 1);
                } else {
                    assert(full[a] == prefix[a] && full[b] == prefix[b]);
                }
            }
            assert forall|i: int| 0 <= i < n && spec_has_piece(bits, i) implies full.contains(
                i as usize,
            ) by {
                if i == n - 1 {
                    assert(full[full.len() - 1] == (n - 1) as usize);
                } else {
                    assert(prefix.contains(i as usize));
                    let k = choose|k: int| 0 <= k < prefix.len() && prefix[k] == i as usize;
                    assert(full[k] == i as usize);
                }
            }
        } else {
            assert forall|i: int| 0 <= i < n && spec_has_piece(bits, i) implies full.contains(
                i as usize,
            ) by {
                assert(prefix.contains(i as usize));
            }
        }
    }
}

impl Bitfield {
    pub fn from_payload(payload: Vec<u8>) -> (r: Bitfield)
        ensures
            r@ == payload@,
    {
        Bitfield { payload }
    }

    /// True when the bitmap advertises piece `piece_i`; indices past the
    /// payload read as false.
    pub fn has_piece(&self, piece_i: usize) -> (r: bool)
        ensures
            r == spec_has_piece(self@, piece_i as int),
    {
        let byte_i = piece_i / 8;
        if byte_i >= self.payload.len() {
            return false;
        }
        let byte = self.payload[byte_i];
        let shift: u8 = (7 - (piece_i % 8)) as u8;
        ((byte >> shift) & 1) == 1
    }

    /// All advertised piece indices, in ascending order.
    pub fn pieces(&self) -> (r: Vec<usize>)
        requires
            8 * self@.len() <= usize::MAX,
        ensures
            r@ == spec_piece_list(self@, 8 * self@.len() as int),
    {
        let count: usize = 8 * self.payload.len();
        let mut r: Vec<usize> = Vec::new();
        let mut i: usize = 0;
        while i < count
            invariant
                count == 8 * self@.len(),
                i <= count,
                r@ == spec_piece_list(self@, i as int),
            decreases count - i,
        {
            if self.has_piece(i) {
                r.push(i);
            }
            i = i + 1;
        }
        r
    }
}

/// The 19 bytes of the literal protocol string `"BitTorrent protocol"`.
pub open spec fn spec_protocol_bytes() -> Seq<u8> {
    seq![
        66u8,
        105u8,
        116u8,
        84u8,
        111u8,
        114u8,
        114u8,
        101u8,
        110u8,
        116u8,
        32u8,
        112u8,
        114u8,
        111u8,
        116u8,
        111u8,
        99u8,
        111u8,
        108u8,
    ]
}

/// The protocol string as an array.
pub fn protocol_bytes() -> (r: [u8; 19])
    ensures
        r@ == spec_protocol_bytes(),
{
    let r: [u8; 19] = [
        66,
        105,
        116,
        84,
        111,
        114,
        114,
        101,
        110,
        116,
        32,
        112,
        114,
        111,
        116,
        111,
        99,
        111,
        108,
    ];
    proof {
        assert(r@ =~= spec_protocol_bytes());
    }
    r
}

/// The 68-byte fixed handshake record.
pub struct Handshake {
    pub length: u8,
    pub protocol: [u8; 19],
    pub reserved: [u8; 8],
    pub info_hash: [u8; 20],
    pub peer_id: [u8; 20],
}

/// A handshake reply is acceptable only with length 19 and the literal
/// protocol string.
pub open spec fn spec_handshake_ok(h: Handshake) -> bool {
    h.length == 19 && h.protocol@ == spec_protocol_bytes()
}

impl Handshake {
    /// The 68-byte wire form.
    pub open spec fn spec_bytes(self) -> Seq<u8> {
        seq![self.length] + self.protocol@ + self.reserved@ + self.info_hash@ + self.peer_id@
    }

    pub fn new(info_hash: [u8; 20], peer_id: [u8; 20]) -> (r: Handshake)
        ensures
            r.length == 19,
            r.protocol@ == spec_protocol_bytes(),
            r.reserved@ == seq![0u8, 0u8, 0u8, 0u8, 0u8, 0u8, 0u8, 0u8],
            r.info_hash == info_hash,
            r.peer_id == peer_id,
            spec_handshake_ok(r),
    {
        let reserved: [u8; 8] = [0, 0, 0, 0, 0, 0, 0, 0];
        proof {
            assert(reserved@ =~= seq![0u8, 0u8, 0u8, 0u8, 0u8, 0u8, 0u8, 0u8]);
        }
        Handshake { length: 19, protocol: protocol_bytes(), reserved, info_hash, peer_id }
    }

    /// Serializes the record into its 68-byte wire form.
    pub fn to_bytes(&self) -> (r: Vec<u8>)
        ensures
            r@ == self.spec_bytes(),
            r@.len() == 68,
    {
        let mut v: Vec<u8> = Vec::new();
        v.push(self.length);
        push_bytes(&mut v, self.protocol.as_slice());
        push_bytes(&mut v, self.reserved.as_slice());
        push_bytes(&mut v, self.info_hash.as_slice());
        push_bytes(&mut v, self.peer_id.as_slice());
        proof {
            assert(v@ =~= self.spec_bytes());
        }
        v
    }

    /// Reads a handshake back out of its 68-byte wire form.
    pub fn parse(data: &[u8]) -> (r: Handshake)
        requires
            data@.len() == 68,
        ensures
            r.length == data@[0],
            r.protocol@ == data@.subrange(1, 20),
            r.reserved@ == data@.subrange(20, 28),
            r.info_hash@ == data@.subrange(28, 48),
            r.peer_id@ == data@.subrange(48, 68),
    {
        let length = data[0];
        let protocol: [u8; 19] = crate::wire::read_array::<19>(data, 1);
        let reserved: [u8; 8] = crate::wire::read_array::<8>(data, 20);
        let info_hash: [u8; 20] = crate::wire::read_array::<20>(data, 28);
        let peer_id: [u8; 20] = crate::wire::read_array::<20>(data, 48);
        Handshake { length, protocol, reserved, info_hash, peer_id }
    }

    /// Handshake round trip: the 68-byte wire form holds the record's
    /// fields at fixed offsets, so writing and re-reading it changes
    /// nothing.
    pub proof fn lemma_wire_round_trip(self)
        ensures
            self.spec_bytes().len() == 68,
            self.spec_bytes()[0] == self.length,
            self.spec_bytes().subrange(1, 20) == self.protocol@,
            self.spec_bytes().subrange(20, 28) == self.reserved@,
            self.spec_bytes().subrange(28, 48) == self.info_hash@,
            self.spec_bytes().subrange(48, 68) == self.peer_id@,
    {
        assert(self.spec_bytes().subrange(1, 20) =~= self.protocol@);
        assert(self.spec_bytes().subrange(20, 28) =~= self.reserved@);
        assert(self.spec_bytes().subrange(28, 48) =~= self.info_hash@);
        assert(self.spec_bytes().subrange(48, 68) =~= self.peer_id@);
    }

    /// True exactly when this reply passes handshake validation.
    pub fn is_valid(&self) -> (r: bool)
        ensures
            r == spec_handshake_ok(*self),
    {
        if self.length != 19 {
            return false;
        }
        let expected = protocol_bytes();
        let mut i: usize = 0;
        while i < 19
            invariant
                i <= 19,
                expected@ == spec_protocol_bytes(),
                forall|j: int| 0 <= j < i ==> self.protocol@[j] == expected@[j],
            decreases 19 - i,
        {
            if self.protocol[i] != expected[i] {
                return false;
            }
            i = i + 1;
        }
        proof {
            assert(self.protocol@ =~= spec_protocol_bytes());
        }
        true
    }
}

/// The 12-byte payload of a `Request` message: three big-endian `u32`s.
pub struct Request {
    index: [u8; 4],
    begin: [u8; 4],
    length: [u8; 4],
}

impl Request {
    pub closed spec fn spec_index(self) -> int {
        be32_val(self.index@)
    }

    pub closed spec fn spec_begin(self) -> int {
        be32_val(self.begin@)
    }

    pub closed spec fn spec_length(self) -> int {
        be32_val(self.length@)
    }

    /// The 12-byte wire form: the three fields as big-endian `u32`s.
    pub closed spec fn spec_wire(self) -> Seq<u8> {
        self.index@ + self.begin@ + self.length@
    }

    pub fn new(index: u32, begin: u32, length: u32) -> (r: Request)
        ensures
            r.spec_index() == index,
            r.spec_begin() == begin,
            r.spec_length() == length,
            r.spec_wire() == be32_bytes(index as int) + be32_bytes(begin as int) + be32_bytes(
                length as int,
            ),
    {
        let r = Request {
            index: crate::wire::u32_be_array(index),
            begin: crate::wire::u32_be_array(begin),
            length: crate::wire::u32_be_array(length),
        };
        proof {
            crate::wire::lemma_be32_roundtrip(index as int);
            crate::wire::lemma_be32_roundtrip(begin as int);
            crate::wire::lemma_be32_roundtrip(length as int);
        }
        r
    }

    pub fn index(&self) -> (r: u32)
        ensures
            r as int == self.spec_index(),
    {
        u32_from_be(self.index[0], self.index[1], self.index[2], self.index[3])
    }

    pub fn begin(&self) -> (r: u32)
        ensures
            r as int == self.spec_begin(),
    {
        u32_from_be(self.begin[0], self.begin[1], self.begin[2], self.begin[3])
    }

    pub fn length(&self) -> (r: u32)
        ensures
            r as int == self.spec_length(),
    {
        u32_from_be(self.length[0], self.length[1], self.length[2], self.length[3])
    }

    /// The 12-byte payload for the enclosing `Request` frame.
    pub fn to_bytes(&self) -> (r: Vec<u8>)
        ensures
            r@ == self.spec_wire(),
            r@.len() == 12,
    {
        let mut v: Vec<u8> = Vec::new();
        push_bytes(&mut v, self.index.as_slice());
        push_bytes(&mut v, self.begin.as_slice());
        push_bytes(&mut v, self.length.as_slice());
        v
    }
}

/// A decoded `Piece` message payload: two big-endian `u32`s and the block
/// bytes that fill out the rest of the frame.
pub struct Piece {
    index: [u8; 4],
    begin: [u8; 4],
    block: Vec<u8>,
}

impl Piece {
    pub closed spec fn spec_index(self) -> int {
        be32_val(self.index@)
    }

    pub closed spec fn spec_begin(self) -> int {
        be32_val(self.begin@)
    }

    pub closed spec fn spec_block(self) -> Seq<u8> {
        self.block@
    }

    pub fn index(&self) -> (r: u32)
        ensures
            r as int == self.spec_index(),
    {
        u32_from_be(self.index[0], self.index[1], self.index[2], self.index[3])
    }

    pub fn begin(&self) -> (r: u32)
        ensures
            r as int == self.spec_begin(),
    {
        u32_from_be(self.begin[0], self.begin[1], self.begin[2], self.begin[3])
    }

    pub fn block(&self) -> (r: &Vec<u8>)
        ensures
            r@ == self.spec_block(),
    {
        &self.block
    }

    /// Splits a `Piece` frame payload into its header fields and block;
    /// payloads shorter than the 8-byte header are rejected.
    pub fn from_bytes(data: &[u8]) -> (r: Option<Piece>)
        ensures
            data@.len() >= 8 ==> (r matches Some(p) && p.spec_index() == be32_val(
                data@.subrange(0, 4),
            ) && p.spec_begin() == be32_val(data@.subrange(4, 8)) && p.spec_block() == data@.skip(
                8,
            )),
            data@.len() < 8 ==> r matches None,
    {
        if data.len() < 8 {
            return None;
        }
        let index: [u8; 4] = crate::wire::read_array::<4>(data, 0);
        let begin: [u8; 4] = crate::wire::read_array::<4>(data, 4);
        let mut block: Vec<u8> = Vec::new();
        let mut i: usize = 8;
        while i < data.len()
            invariant
                8 <= i <= data@.len(),
                block@ == data@.subrange(8, i as int),
            decreases data@.len() - i,
        {
            block.push(data[i]);
            proof {
                assert(data@.subrange(8, i as int).push(data@[i as int]) =~= data@.subrange(
                    8,
                    i as int + 1,
                ));
            }
            i = i + 1;
        }
        proof {
            assert(data@.subrange(8, data@.len() as int) =~= data@.skip(8));
        }
        Some(Piece { index, begin, block })
    }
}

} // verus!
