use bittorrent::peer::Bitfield;

#[test]
fn bitfield_has() {
    let bf = Bitfield::from_payload(vec![0b10101010, 0b01010101]);

    assert!(bf.has_piece(0));
    assert!(!bf.has_piece(1));
    assert!(!bf.has_piece(7));
    assert!(!bf.has_piece(8));
    assert!(bf.has_piece(15));
}

#[test]
fn bitfield_iter() {
    let bf = Bitfield::from_payload(vec![0b10101010, 0b01010101]);
    let mut pieces = bf.pieces().into_iter();

    assert_eq!(pieces.next(), Some(0)); // 0
    assert_eq!(pieces.next(), Some(2));
    assert_eq!(pieces.next(), Some(4));
    assert_eq!(pieces.next(), Some(6));
    assert_eq!(pieces.next(), Some(9));
    assert_eq!(pieces.next(), Some(11));
    assert_eq!(pieces.next(), Some(13));
    assert_eq!(pieces.next(), Some(15));
    assert_eq!(pieces.next(), None);
}

#[test]
fn bitfield_out_of_range_reads_false() {
    let bf = Bitfield::from_payload(vec![0xff]);
    assert!(bf.has_piece(7));
    assert!(!bf.has_piece(8));
    assert!(!bf.has_piece(1000));
}
