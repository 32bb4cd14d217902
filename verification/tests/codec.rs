use bittorrent::peer::Handshake;
use bittorrent::peer::Message;
use bittorrent::peer::MessageTag;
use bittorrent::peer::Piece;
use bittorrent::peer::Request;
use bittorrent::session::check_block_reply;
use bittorrent::session::session_step;
use bittorrent::session::SessionAction;
use bittorrent::session::SessionError;
use bittorrent::session::SessionEvent;
use bittorrent::session::SessionState;

#[test]
fn handshake_is_68_bytes_and_parses_back() {
    let info_hash = [7u8; 20];
    let peer_id = *b"00112233445566778899";
    let h = Handshake::new(info_hash, peer_id);
    let bytes = h.to_bytes();
    assert_eq!(bytes.len(), 68);
    assert_eq!(bytes[0], 19);
    assert_eq!(&bytes[1..20], b"BitTorrent protocol");
    assert_eq!(&bytes[20..28], &[0u8; 8]);
    assert_eq!(&bytes[28..48], &info_hash);
    assert_eq!(&bytes[48..68], &peer_id);

    let parsed = Handshake::parse(&bytes);
    assert!(parsed.is_valid());
    assert_eq!(parsed.info_hash, info_hash);
    assert_eq!(parsed.peer_id, peer_id);
}

#[test]
fn handshake_rejection_closes_the_session() {
    let info_hash = [7u8; 20];
    let peer_id = [1u8; 20];

    // Wrong length byte.
    let mut h = Handshake::new(info_hash, peer_id);
    h.length = 18;
    assert!(!h.is_valid());
    let (state, act) = session_step(
        SessionState::Handshaking,
        SessionEvent::HandshakeReply(h),
        &info_hash,
    );
    assert_eq!(state, SessionState::Closed);
    assert!(matches!(act, SessionAction::Close));

    // Wrong protocol string.
    let mut h = Handshake::new(info_hash, peer_id);
    h.protocol[0] = b'X';
    assert!(!h.is_valid());
    let (state, _) = session_step(
        SessionState::Handshaking,
        SessionEvent::HandshakeReply(h),
        &info_hash,
    );
    assert_eq!(state, SessionState::Closed);

    // Wrong info hash.
    let h = Handshake::new([8u8; 20], peer_id);
    let (state, _) = session_step(
        SessionState::Handshaking,
        SessionEvent::HandshakeReply(h),
        &info_hash,
    );
    assert_eq!(state, SessionState::Closed);

    // A matching reply moves on.
    let h = Handshake::new(info_hash, peer_id);
    let (state, act) = session_step(
        SessionState::Handshaking,
        SessionEvent::HandshakeReply(h),
        &info_hash,
    );
    assert_eq!(state, SessionState::AwaitingBitfield);
    assert!(matches!(act, SessionAction::Nothing));
}

#[test]
fn session_walks_through_its_states() {
    let info_hash = [7u8; 20];
    let (state, act) = session_step(SessionState::Dialing, SessionEvent::Connected, &info_hash);
    assert_eq!(state, SessionState::Handshaking);
    assert!(matches!(act, SessionAction::SendHandshake));

    let bitfield = Message { tag: MessageTag::Bitfield, payload: vec![0b10000000] };
    let (state, act) = session_step(
        SessionState::AwaitingBitfield,
        SessionEvent::Frame(bitfield),
        &info_hash,
    );
    assert_eq!(state, SessionState::ExchangingInterest);
    assert!(matches!(act, SessionAction::AcceptBitfield(p) if p == vec![0b10000000]));

    // The first frame must be a bitfield; anything else is fatal.
    let choke = Message { tag: MessageTag::Choke, payload: vec![] };
    let (state, _) = session_step(
        SessionState::AwaitingBitfield,
        SessionEvent::Frame(choke),
        &info_hash,
    );
    assert_eq!(state, SessionState::Closed);

    let unchoke = Message { tag: MessageTag::Unchoke, payload: vec![] };
    let (state, act) = session_step(
        SessionState::ExchangingInterest,
        SessionEvent::Frame(unchoke),
        &info_hash,
    );
    assert_eq!(state, SessionState::Active);
    assert!(matches!(act, SessionAction::BeginRequests));

    // An unchoke with payload is fatal.
    let bad = Message { tag: MessageTag::Unchoke, payload: vec![1] };
    let (state, _) = session_step(
        SessionState::ExchangingInterest,
        SessionEvent::Frame(bad),
        &info_hash,
    );
    assert_eq!(state, SessionState::Closed);

    let (state, _) = session_step(SessionState::Active, SessionEvent::IoError, &info_hash);
    assert_eq!(state, SessionState::Closed);
}

#[test]
fn request_fields_and_wire_form() {
    let r = Request::new(1, 16384, 300);
    assert_eq!(r.index(), 1);
    assert_eq!(r.begin(), 16384);
    assert_eq!(r.length(), 300);
    assert_eq!(
        r.to_bytes(),
        vec![0, 0, 0, 1, 0, 0, 0x40, 0, 0, 0, 0x01, 0x2c]
    );
}

#[test]
fn piece_payload_splits_header_and_block() {
    let payload = vec![0, 0, 0, 7, 0, 0, 0x40, 0, 1, 2, 3];
    let p = Piece::from_bytes(&payload).unwrap();
    assert_eq!(p.index(), 7);
    assert_eq!(p.begin(), 16384);
    assert_eq!(p.block(), &vec![1, 2, 3]);

    // Shorter than the 8-byte header: rejected.
    assert!(Piece::from_bytes(&payload[..7]).is_none());
}

#[test]
fn mismatched_piece_frame_is_unexpected() {
    // The engine requested (index 0, begin 0, length 3) but the peer
    // answered with begin 16384.
    let payload = vec![0, 0, 0, 0, 0, 0, 0x40, 0, 1, 2, 3];
    let msg = Message { tag: MessageTag::Piece, payload };
    let r = check_block_reply(&msg, 0, 0, 3);
    assert_eq!(r.err(), Some(SessionError::UnexpectedFrame));

    // The matching reply is accepted.
    let payload = vec![0, 0, 0, 0, 0, 0, 0x40, 0, 1, 2, 3];
    let msg = Message { tag: MessageTag::Piece, payload };
    let p = check_block_reply(&msg, 0, 16384, 3).unwrap();
    assert_eq!(p.begin(), 16384);
    assert_eq!(p.block(), &vec![1, 2, 3]);

    // A non-Piece frame is never accepted.
    let msg = Message { tag: MessageTag::Have, payload: vec![0, 0, 0, 1] };
    assert!(check_block_reply(&msg, 0, 0, 0).is_err());
}
