use bittorrent::peer::FrameError;
use bittorrent::peer::Message;
use bittorrent::peer::MessageFramer;
use bittorrent::peer::MessageTag;

#[test]
fn keep_alive_then_have_decodes_to_one_message() {
    // A keep-alive (length 0) followed by `Have(7)`.
    let mut src = vec![
        0x00, 0x00, 0x00, 0x00, 0x00, 0x00, 0x00, 0x05, 0x04, 0x00, 0x00, 0x00, 0x07,
    ];
    let mut framer = MessageFramer;
    let got = framer.decode(&mut src).unwrap().unwrap();
    assert_eq!(got.tag, MessageTag::Have);
    assert_eq!(got.payload, vec![0, 0, 0, 7]);
    assert!(src.is_empty());
}

#[test]
fn encode_then_decode_round_trips() {
    let mut framer = MessageFramer;
    let mut wire: Vec<u8> = Vec::new();
    framer
        .encode(Message { tag: MessageTag::Have, payload: vec![0, 0, 0, 7] }, &mut wire)
        .unwrap();
    assert_eq!(wire, vec![0x00, 0x00, 0x00, 0x05, 0x04, 0x00, 0x00, 0x00, 0x07]);

    let got = framer.decode(&mut wire).unwrap().unwrap();
    assert_eq!(got.tag, MessageTag::Have);
    assert_eq!(got.payload, vec![0, 0, 0, 7]);
    assert!(wire.is_empty());
}

#[test]
fn short_reads_consume_nothing() {
    let mut framer = MessageFramer;

    let mut src = vec![0x00, 0x00, 0x00];
    assert!(matches!(framer.decode(&mut src), Ok(None)));
    assert_eq!(src.len(), 3);

    let mut src = vec![0x00, 0x00, 0x00, 0x05, 0x04, 0x00];
    assert!(matches!(framer.decode(&mut src), Ok(None)));
    assert_eq!(src.len(), 6);
}

#[test]
fn oversized_frame_is_fatal() {
    // Length prefix 65537 = MAX_FRAME + 1.
    let mut src = vec![0x00, 0x01, 0x00, 0x01, 0x00];
    let mut framer = MessageFramer;
    assert!(matches!(framer.decode(&mut src), Err(FrameError::InvalidFrameTooLarge)));
}

#[test]
fn oversized_payload_is_not_encoded() {
    let mut framer = MessageFramer;
    let mut wire: Vec<u8> = Vec::new();
    let r = framer.encode(
        Message { tag: MessageTag::Piece, payload: vec![0u8; 65536] },
        &mut wire,
    );
    assert_eq!(r, Err(FrameError::InvalidFrameTooLarge));
    assert!(wire.is_empty());

    // One byte less fits exactly.
    let r = framer.encode(
        Message { tag: MessageTag::Piece, payload: vec![0u8; 65535] },
        &mut wire,
    );
    assert!(r.is_ok());
    assert_eq!(wire.len(), 4 + 1 + 65535);
}

#[test]
fn unknown_tag_is_fatal() {
    let mut src = vec![0x00, 0x00, 0x00, 0x01, 0x09];
    let mut framer = MessageFramer;
    assert!(matches!(framer.decode(&mut src), Err(FrameError::UnknownTag)));
}

#[test]
fn every_tag_round_trips() {
    let tags = [
        MessageTag::Choke,
        MessageTag::Unchoke,
        MessageTag::Interested,
        MessageTag::NotInterested,
        MessageTag::Have,
        MessageTag::Bitfield,
        MessageTag::Request,
        MessageTag::Piece,
        MessageTag::Cancel,
    ];
    let mut framer = MessageFramer;
    for tag in tags {
        let mut wire: Vec<u8> = Vec::new();
        framer.encode(Message { tag, payload: vec![1, 2, 3] }, &mut wire).unwrap();
        let got = framer.decode(&mut wire).unwrap().unwrap();
        assert_eq!(got.tag, tag);
        assert_eq!(got.payload, vec![1, 2, 3]);
    }
}
