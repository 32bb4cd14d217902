//! Peer session lifecycle: connection states, the transition function the
//! I/O driver feeds with events, and validation of the `Piece` frame a
//! participant receives in reply to each block request.
use vstd::prelude::*;

use crate::digest::digests_equal;
use crate::peer::spec_handshake_ok;
use crate::peer::Handshake;
use crate::peer::Message;
use crate::peer::MessageTag;
use crate::peer::Piece;
use crate::wire::be32_val;

verus! {

/// Lifecycle of one peer connection.
#[derive(Clone, Copy, Debug, PartialEq, Eq, Structural)]
pub enum SessionState {
    Dialing,
    Handshaking,
    AwaitingBitfield,
    ExchangingInterest,
    Active,
    Closed,
}

/// Connection-level events the I/O driver hands to the state machine.
pub enum SessionEvent {
    /// The TCP connect finished.
    Connected,
    /// A 68-byte handshake reply was read.
    HandshakeReply(Handshake),
    /// One framed message was decoded.
    Frame(Message),
    /// The transport failed.
    IoError,
    /// The engine is done with this session.
    Shutdown,
}

/// What the I/O driver must do after a transition.
pub enum SessionAction {
    /// Write our 68-byte handshake.
    SendHandshake,
    /// Record this bitmap and send `Interested`.
    AcceptBitfield(Vec<u8>),
    /// The peer unchoked us: block requests may start.
    BeginRequests,
    /// Tear the connection down.
    Close,
    /// Nothing to do.
    Nothing,
}

/// Errors that close a session while it participates in a piece.
#[derive(Clone, Copy, Debug, PartialEq, Eq, Structural)]
pub enum SessionError {
    /// A frame arrived that the protocol does not allow here.
    UnexpectedFrame,
}

/// One step of the session lifecycle of spec `Dialing -> Handshaking ->
/// AwaitingBitfield -> ExchangingInterest -> Active`, with any failure or
/// unexpected event leading to `Closed`.
///
/// A handshake reply leaves `Handshaking` only if its length byte is 19,
/// its protocol string is the literal `"BitTorrent protocol"`, and its info
/// hash equals `info_hash`; the first frame must be `Bitfield`; the frame
/// after `Interested` must be an empty-payload `Unchoke`.
pub fn session_step(state: SessionState, event: SessionEvent, info_hash: &[u8; 20]) -> (r: (
    SessionState,
    SessionAction,
))
    ensures
        ({
            let (s2, act) = r;
            match (state, event) {
                (SessionState::Dialing, SessionEvent::Connected) => s2 == SessionState::Handshaking
                    && act == SessionAction::SendHandshake,
                (SessionState::Handshaking, SessionEvent::HandshakeReply(h)) => if spec_handshake_ok(
                    h,
                ) && h.info_hash@ == info_hash@ {
                    s2 == SessionState::AwaitingBitfield && act == SessionAction::Nothing
                } else {
                    s2 == SessionState::Closed && act == SessionAction::Close
                },
                (SessionState::AwaitingBitfield, SessionEvent::Frame(m)) => if m.tag
                    == MessageTag::Bitfield {
                    s2 == SessionState::ExchangingInterest && (act matches
                        SessionAction::AcceptBitfield(p) && p@ == m.payload@)
                } else {
                    s2 == SessionState::Closed && act == SessionAction::Close
                },
                (SessionState::ExchangingInterest, SessionEvent::Frame(m)) => if m.tag
                    == MessageTag::Unchoke && m.payload@.len() == 0 {
                    s2 == SessionState::Active && act == SessionAction::BeginRequests
                } else {
                    s2 == SessionState::Closed && act == SessionAction::Close
                },
                _ => s2 == SessionState::Closed && act == SessionAction::Close,
            }
        }),
{
    match (state, event) {
        (SessionState::Dialing, SessionEvent::Connected) => (
            SessionState::Handshaking,
            SessionAction::SendHandshake,
        ),
        (SessionState::Handshaking, SessionEvent::HandshakeReply(h)) => {
            if h.is_valid() && digests_equal(&h.info_hash, info_hash) {
                (SessionState::AwaitingBitfield, SessionAction::Nothing)
            } else {
                (SessionState::Closed, SessionAction::Close)
            }
        },
        (SessionState::AwaitingBitfield, SessionEvent::Frame(m)) => {
            if m.tag == MessageTag::Bitfield {
                (SessionState::ExchangingInterest, SessionAction::AcceptBitfield(m.payload))
            } else {
                (SessionState::Closed, SessionAction::Close)
            }
        },
        (SessionState::ExchangingInterest, SessionEvent::Frame(m)) => {
            if m.tag == MessageTag::Unchoke && m.payload.len() == 0 {
                (SessionState::Active, SessionAction::BeginRequests)
            } else {
                (SessionState::Closed, SessionAction::Close)
            }
        },
        _ => (SessionState::Closed, SessionAction::Close),
    }
}

/// The reply to a block request is acceptable only as a `Piece` frame whose
/// header matches the request and whose block has the requested length.
pub open spec fn spec_block_reply_ok(
    tag: MessageTag,
    payload: Seq<u8>,
    piece_i: int,
    begin: int,
    length: int,
) -> bool {
    &&& tag == MessageTag::Piece
    &&& payload.len() >= 8
    &&& be32_val(payload.subrange(0, 4)) == piece_i
    &&& be32_val(payload.subrange(4, 8)) == begin
    &&& payload.len() - 8 == length
}

/// Validates the frame received in reply to a `Request` for block
/// `(piece_i, begin, length)`; anything but the matching `Piece` frame is an
/// `UnexpectedFrame` error that ends the session's participation.
pub fn check_block_reply(msg: &Message, piece_i: u32, begin: u32, length: u32) -> (r: Result<
    Piece,
    SessionError,
>)
    ensures
        spec_block_reply_ok(msg.tag, msg.payload@, piece_i as int, begin as int, length as int)
            ==> (r matches Ok(p) && p.spec_index() == piece_i && p.spec_begin() == begin
            && p.spec_block() == msg.payload@.skip(8)),
        !spec_block_reply_ok(msg.tag, msg.payload@, piece_i as int, begin as int, length as int)
            ==> (r matches Err(e) && e == SessionError::UnexpectedFrame),
{
    if !(msg.tag == MessageTag::Piece) {
        return Err(SessionError::UnexpectedFrame);
    }
    let parsed = Piece::from_bytes(msg.payload.as_slice());
    match parsed {
        None => Err(SessionError::UnexpectedFrame),
        Some(p) => {
            if p.index() == piece_i && p.begin() == begin && p.block().len() == length as usize {
                proof {
                    assert(msg.payload@.skip(8).len() == msg.payload@.len() - 8);
                }
                Ok(p)
            } else {
                Err(SessionError::UnexpectedFrame)
            }
        },
    }
}

} // verus!
