//! Tracker announce: the request parameters, the exact query string that
//! the announce URL carries, and parsing of the compact peer list.
use vstd::prelude::*;

use crate::wire::be16_val;
use crate::wire::push_bytes;
use crate::wire::push_dec;
use crate::wire::push_percent;
use crate::wire::read_array;
use crate::wire::spec_dec_bytes;
use crate::wire::spec_percent_bytes;
use crate::wire::u16_from_be;

verus! {

/// The parameters of one announce request.
#[derive(Debug)]
pub struct Tracker {
    /// The info hash of the torrent.
    pub info_hash: [u8; 20],
    /// A 20-byte identifier this client picked for itself.
    pub peer_id: [u8; 20],
    /// The port the client listens on.
    pub port: u16,
    /// Total bytes uploaded so far.
    pub uploaded: usize,
    /// Total bytes downloaded so far.
    pub downloaded: usize,
    /// Bytes left to download.
    pub left: usize,
    /// Whether the peer list should use the compact representation.
    pub compact: u8,
}

/// Errors of the tracker phase that the library can decide.
#[derive(Clone, Copy, Debug, PartialEq, Eq, Structural)]
pub enum TrackerError {
    /// The response body was not the expected bencoded shape.
    TrackerDecode,
    /// The tracker answered with a failure reason.
    TrackerReject,
}

/// Bytes that the form encoding leaves as they are: ASCII alphanumerics
/// and `-`, `.`, `_`, `~`.
pub open spec fn spec_is_unreserved(b: u8) -> bool {
    (48 <= b <= 57) || (65 <= b <= 90) || (97 <= b <= 122) || b == 45 || b == 46 || b == 95 || b
        == 126
}

/// The bytes of the literal `"peer_id="`.
pub open spec fn spec_lit_peer_id() -> Seq<u8> {
    seq![112u8, 101u8, 101u8, 114u8, 95u8, 105u8, 100u8, 61u8]
}

/// The bytes of the literal `"&port="`.
pub open spec fn spec_lit_port() -> Seq<u8> {
    seq![38u8, 112u8, 111u8, 114u8, 116u8, 61u8]
}

/// The bytes of the literal `"&uploaded="`.
pub open spec fn spec_lit_uploaded() -> Seq<u8> {
    seq![38u8, 117u8, 112u8, 108u8, 111u8, 97u8, 100u8, 101u8, 100u8, 61u8]
}

/// The bytes of the literal `"&downloaded="`.
pub open spec fn spec_lit_downloaded() -> Seq<u8> {
    seq![38u8, 100u8, 111u8, 119u8, 110u8, 108u8, 111u8, 97u8, 100u8, 101u8, 100u8, 61u8]
}

/// The bytes of the literal `"&left="`.
pub open spec fn spec_lit_left() -> Seq<u8> {
    seq![38u8, 108u8, 101u8, 102u8, 116u8, 61u8]
}

/// The bytes of the literal `"&compact="`.
pub open spec fn spec_lit_compact() -> Seq<u8> {
    seq![38u8, 99u8, 111u8, 109u8, 112u8, 97u8, 99u8, 116u8, 61u8]
}

/// The bytes of the literal `"&info_hash="`.
pub open spec fn spec_lit_info_hash() -> Seq<u8> {
    seq![38u8, 105u8, 110u8, 102u8, 111u8, 95u8, 104u8, 97u8, 115u8, 104u8, 61u8]
}

/// The full query string of the announce URL. The unreserved peer id goes
/// through the form encoding unchanged; the info hash is percent-encoded
/// byte by byte, every byte rendered as `%xx`.
pub open spec fn spec_query_bytes(t: Tracker) -> Seq<u8> {
    spec_lit_peer_id() + t.peer_id@ + spec_lit_port() + spec_dec_bytes(t.port as int)
        + spec_lit_uploaded() + spec_dec_bytes(t.uploaded as int) + spec_lit_downloaded()
        + spec_dec_bytes(t.downloaded as int) + spec_lit_left() + spec_dec_bytes(t.left as int)
        + spec_lit_compact() + spec_dec_bytes(t.compact as int) + spec_lit_info_hash()
        + spec_percent_bytes(t.info_hash@)
}

impl Tracker {
    /// Renders the query string appended after `announce + "?"`. The peer
    /// id must hold unreserved bytes only, so that the form encoding is
    /// the identity on it.
    pub fn query_bytes(&self) -> (r: Vec<u8>)
        requires
            forall|i: int| 0 <= i < 20 ==> spec_is_unreserved(#[trigger] self.peer_id@[i]),
        ensures
            r@ == spec_query_bytes(*self),
    {
        let mut out: Vec<u8> = Vec::new();
        let l0: [u8; 8] = [112, 101, 101, 114, 95, 105, 100, 61];
        proof {
            assert(l0@ =~= spec_lit_peer_id());
        }
        push_bytes(&mut out, l0.as_slice());
        push_bytes(&mut out, self.peer_id.as_slice());
        let l1: [u8; 6] = [38, 112, 111, 114, 116, 61];
        proof {
            assert(l1@ =~= spec_lit_port());
        }
        push_bytes(&mut out, l1.as_slice());
        push_dec(&mut out, self.port as u64);
        let l2: [u8; 10] = [38, 117, 112, 108, 111, 97, 100, 101, 100, 61];
        proof {
            assert(l2@ =~= spec_lit_uploaded());
        }
        push_bytes(&mut out, l2.as_slice());
        push_dec(&mut out, self.uploaded as u64);
        let l3: [u8; 12] = [38, 100, 111, 119, 110, 108, 111, 97, 100, 101, 100, 61];
        proof {
            assert(l3@ =~= spec_lit_downloaded());
        }
        push_bytes(&mut out, l3.as_slice());
        push_dec(&mut out, self.downloaded as u64);
        let l4: [u8; 6] = [38, 108, 101, 102, 116, 61];
        proof {
            assert(l4@ =~= spec_lit_left());
        }
        push_bytes(&mut out, l4.as_slice());
        push_dec(&mut out, self.left as u64);
        let l5: [u8; 9] = [38, 99, 111, 109, 112, 97, 99, 116, 61];
        proof {
            assert(l5@ =~= spec_lit_compact());
        }
        push_bytes(&mut out, l5.as_slice());
        push_dec(&mut out, self.compact as u64);
        let l6: [u8; 11] = [38, 105, 110, 102, 111, 95, 104, 97, 115, 104, 61];
        proof {
            assert(l6@ =~= spec_lit_info_hash());
        }
        push_bytes(&mut out, l6.as_slice());
        push_percent(&mut out, self.info_hash.as_slice());
        proof {
            assert(out@ =~= spec_query_bytes(*self));
        }
        out
    }
}

/// One peer endpoint from the compact tracker response.
#[derive(Clone, Copy, Debug, PartialEq, Eq)]
pub struct PeerAddr {
    /// The four IPv4 address bytes, in network order.
    pub ip: [u8; 4],
    /// The TCP port, read big-endian.
    pub port: u16,
}

/// Parses the compact peer list: six bytes per peer, four of IPv4 address
/// then a big-endian port. Any length that is not a multiple of six is a
/// `TrackerDecode` error.
pub fn parse_peers(bytes: &[u8]) -> (r: Result<Vec<PeerAddr>, TrackerError>)
    ensures
        bytes@.len() % 6 == 0 ==> (r matches Ok(v) && v@.len() == bytes@.len() / 6 && forall|k: int|
            0 <= k < v@.len() ==> (#[trigger] v@[k]).ip@ == bytes@.subrange(6 * k, 6 * k + 4)
                && v@[k].port as int == be16_val(bytes@.subrange(6 * k + 4, 6 * k + 6))),
        bytes@.len() % 6 != 0 ==> (r matches Err(e) && e == TrackerError::TrackerDecode),
{
    if bytes.len() % 6 != 0 {
        return Err(TrackerError::TrackerDecode);
    }
    let count = bytes.len() / 6;
    let mut out: Vec<PeerAddr> = Vec::new();
    let mut i: usize = 0;
    while i < count
        invariant
            i <= count,
            count == bytes@.len() / 6,
            bytes@.len() % 6 == 0,
            bytes@.len() <= usize::MAX,
            out@.len() == i,
            forall|k: int|
                0 <= k < i ==> (#[trigger] out@[k]).ip@ == bytes@.subrange(6 * k, 6 * k + 4)
                    && out@[k].port as int == be16_val(bytes@.subrange(6 * k + 4, 6 * k + 6)),
        decreases count - i,
    {
        proof {
            assert(6 * (i as int) + 6 <= 6 * (count as int));
            assert(6 * (count as int) == bytes@.len());
        }
        let ip: [u8; 4] = read_array::<4>(bytes, 6 * i);
        let port = u16_from_be(bytes[6 * i + 4], bytes[6 * i + 5]);
        proof {
            let k = i as int;
            assert(seq![bytes@[6 * k + 4], bytes@[6 * k + 5]] =~= bytes@.subrange(
                6 * k + 4,
                6 * k + 6,
            ));
        }
        out.push(PeerAddr { ip, port });
        i = i + 1;
    }
    Ok(out)
}

/// The decoded announce response: the poll interval and the peer list.
#[derive(Debug)]
pub struct TrackerResponse {
    /// Seconds the tracker asks the client to wait between announces.
    pub interval: u64,
    /// The peer endpoints offered.
    pub peers: Vec<PeerAddr>,
}

/// Decides what a tracker reply means: a present failure reason rejects
/// the response, otherwise the compact peer string is parsed.
pub fn interpret_tracker_reply(has_failure_reason: bool, interval: u64, peers_bytes: &[u8]) -> (r:
    Result<TrackerResponse, TrackerError>)
    ensures
        has_failure_reason ==> (r matches Err(e) && e == TrackerError::TrackerReject),
        !has_failure_reason && peers_bytes@.len() % 6 != 0 ==> (r matches Err(e) && e
            == TrackerError::TrackerDecode),
        !has_failure_reason && peers_bytes@.len() % 6 == 0 ==> (r matches Ok(resp) && resp.interval
            == interval && resp.peers@.len() == peers_bytes@.len() / 6 && forall|k: int|
            0 <= k < resp.peers@.len() ==> (#[trigger] resp.peers@[k]).ip@ == peers_bytes@.subrange(
                6 * k,
                6 * k + 4,
            ) && resp.peers@[k].port as int == be16_val(
                peers_bytes@.subrange(6 * k + 4, 6 * k + 6),
            )),
{
    if has_failure_reason {
        return Err(TrackerError::TrackerReject);
    }
    let peers = parse_peers(peers_bytes)?;
    Ok(TrackerResponse { interval, peers })
}

} // verus!
