use bittorrent::peer::Bitfield;
use bittorrent::planner::block_begin;
use bittorrent::planner::block_size;
use bittorrent::planner::nblocks;
use bittorrent::planner::plan_order;
use bittorrent::planner::PieceDescriptor;

#[test]
fn block_layout_of_a_short_piece() {
    // 40 KiB total, 32 KiB piece length: piece 0 has two full blocks,
    // piece 1 is a single 8192-byte block.
    assert_eq!(nblocks(32768), 2);
    assert_eq!(block_size(32768, 0), 16384);
    assert_eq!(block_size(32768, 1), 16384);

    assert_eq!(40960 - 32768, 8192);
    assert_eq!(nblocks(8192), 1);
    assert_eq!(block_size(8192, 0), 8192);

    assert_eq!(block_begin(0), 0);
    assert_eq!(block_begin(1), 16384);
    assert_eq!(block_begin(2), 32768);
}

#[test]
fn last_block_takes_the_remainder() {
    // 16385 bytes: one full block and one single-byte block.
    assert_eq!(nblocks(16385), 2);
    assert_eq!(block_size(16385, 0), 16384);
    assert_eq!(block_size(16385, 1), 1);

    // An exact multiple has only full blocks.
    assert_eq!(nblocks(49152), 3);
    assert_eq!(block_size(49152, 2), 16384);
}

#[test]
fn providers_come_from_the_bitfields() {
    // One peer has only piece 0, the other only piece 1.
    let peers = vec![
        Bitfield::from_payload(vec![0b10000000]),
        Bitfield::from_payload(vec![0b01000000]),
    ];
    let d0 = PieceDescriptor::new(0, 16384, [0; 20], &peers);
    let d1 = PieceDescriptor::new(1, 16384, [0; 20], &peers);
    assert_eq!(d0.providers(), &vec![0]);
    assert_eq!(d1.providers(), &vec![1]);
    assert!(!d0.is_unserved());

    let d9 = PieceDescriptor::new(2, 16384, [0; 20], &peers);
    assert!(d9.is_unserved());
}

#[test]
fn plan_is_rarest_first_with_index_ties() {
    let peers = vec![
        Bitfield::from_payload(vec![0b11100000]),
        Bitfield::from_payload(vec![0b10100000]),
        Bitfield::from_payload(vec![0b10000000]),
    ];
    // Piece 0: 3 providers, piece 1: 1, piece 2: 2.
    let pieces = vec![
        PieceDescriptor::new(0, 16384, [0; 20], &peers),
        PieceDescriptor::new(1, 16384, [1; 20], &peers),
        PieceDescriptor::new(2, 16384, [2; 20], &peers),
    ];
    let ordered = plan_order(pieces);
    let idx: Vec<usize> = ordered.iter().map(|p| p.index()).collect();
    assert_eq!(idx, vec![1, 2, 0]);

    // A tie in provider count breaks by ascending index.
    let peers = vec![Bitfield::from_payload(vec![0b11000000])];
    let pieces = vec![
        PieceDescriptor::new(1, 16384, [1; 20], &peers),
        PieceDescriptor::new(0, 16384, [0; 20], &peers),
    ];
    let ordered = plan_order(pieces);
    let idx: Vec<usize> = ordered.iter().map(|p| p.index()).collect();
    assert_eq!(idx, vec![0, 1]);
}
