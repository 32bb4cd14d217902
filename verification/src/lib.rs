//! Core of a BitTorrent v1 leecher: wire codecs, tracker encoding, piece
//! planning, block scheduling and verified piece assembly.
//!
//! Network and file I/O live outside this crate; everything here is pure
//! logic over plain values, stated in contracts and checked by Verus.
use vstd::prelude::*;

pub mod digest;
pub mod download;
pub mod peer;
pub mod planner;
pub mod session;
pub mod torrent;
pub mod tracker;
pub mod wire;

verus! {

/// Largest block transferred in one peer-wire `Request`, in bytes.
pub const BLOCK_MAX: usize = 16384;

/// Largest frame (tag byte plus payload) the message framer accepts.
pub const MAX_FRAME: usize = 65536;

} // verus!
