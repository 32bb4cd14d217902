use bittorrent::digest::bytes_match_digest;
use bittorrent::download::output_files;
use bittorrent::download::Downloaded;
use bittorrent::download::DownloadedBuffer;
use bittorrent::download::DownloadedIter;
use bittorrent::download::PieceAssembler;
use bittorrent::torrent::File;
use bittorrent::torrent::Hashes;
use bittorrent::torrent::Info;
use bittorrent::torrent::Keys;
use bittorrent::torrent::Torrent;
use sha1::Digest;
use sha1::Sha1;

fn sha1(data: &[u8]) -> [u8; 20] {
    Sha1::digest(data).into()
}

#[test]
fn known_sha1_vector_matches() {
    // SHA1("abc") = a9993e364706816aba3e25717850c26c9cd0d89d
    let expected: [u8; 20] = [
        0xa9, 0x99, 0x3e, 0x36, 0x47, 0x06, 0x81, 0x6a, 0xba, 0x3e, 0x25, 0x71, 0x78, 0x50, 0xc2,
        0x6c, 0x9c, 0xd0, 0xd8, 0x9d,
    ];
    assert!(bytes_match_digest(b"abc", &expected));
    // A digest that echoes its input is wrong.
    let mut echoed = [0u8; 20];
    echoed[..3].copy_from_slice(b"abc");
    assert!(!bytes_match_digest(b"abc", &echoed));
}

#[test]
fn assembler_gathers_blocks_in_any_order() {
    // A 32 KiB + 100 byte piece: three blocks, delivered out of order.
    let piece_size = 16384 * 2 + 100;
    let source: Vec<u8> = (0..piece_size).map(|i| (i % 251) as u8).collect();
    let mut gatherer = PieceAssembler::new(piece_size);

    assert!(!gatherer.is_complete());
    assert!(gatherer.add_block(16384, &source[16384..32768].to_vec()));
    assert!(gatherer.add_block(32768, &source[32768..].to_vec()));
    assert!(!gatherer.is_complete());
    assert!(gatherer.add_block(0, &source[..16384].to_vec()));
    assert!(gatherer.is_complete());
    assert_eq!(gatherer.received(), piece_size);
    assert_eq!(gatherer.into_bytes(), source);
}

#[test]
fn assembler_rejects_misfits() {
    let mut gatherer = PieceAssembler::new(16384 + 10);
    // Unaligned offset.
    assert!(!gatherer.add_block(1, &vec![0u8; 10]));
    // Wrong length for the block at that offset.
    assert!(!gatherer.add_block(0, &vec![0u8; 10]));
    assert!(!gatherer.add_block(16384, &vec![0u8; 16384]));
    // Offset past the piece.
    assert!(!gatherer.add_block(32768, &vec![0u8; 10]));
    // The fitting blocks land; a duplicate is refused.
    assert!(gatherer.add_block(0, &vec![1u8; 16384]));
    assert!(!gatherer.add_block(0, &vec![2u8; 16384]));
    assert!(gatherer.add_block(16384, &vec![3u8; 10]));
    assert!(gatherer.is_complete());
}

#[test]
fn verified_pieces_commit_into_the_download() {
    // Single file, 32 KiB, two 16 KiB pieces.
    let source: Vec<u8> = (0..32768).map(|i| (i % 241) as u8).collect();
    let hashes = Hashes(vec![sha1(&source[..16384]), sha1(&source[16384..])]);
    let mut buf = DownloadedBuffer::new(32768, 16384, hashes);

    assert!(!buf.is_complete());
    assert!(buf.commit_piece(0, &source[..16384].to_vec()));
    // A corrupted piece is refused.
    let mut bad = source[16384..].to_vec();
    bad[0] ^= 0xff;
    assert!(!buf.commit_piece(1, &bad));
    assert!(!buf.is_complete());
    assert!(buf.commit_piece(1, &source[16384..].to_vec()));
    assert!(buf.is_complete());

    let files = vec![File { length: 32768, path: vec![String::from("blob.bin")] }];
    let d = buf.into_downloaded(files);
    let mut iter = DownloadedIter::new(&d);
    let f = iter.next().unwrap();
    assert_eq!(f.path(), &[String::from("blob.bin")]);
    assert_eq!(f.bytes(), &source[..]);
    assert!(iter.next().is_none());
}

#[test]
fn output_slices_by_the_file_list() {
    // Files [(10, "a"), (5, "b/c")] over 15 downloaded bytes.
    let bytes: Vec<u8> = (0u8..15).collect();
    let files = vec![
        File { length: 10, path: vec![String::from("a")] },
        File { length: 5, path: vec![String::from("b"), String::from("c")] },
    ];
    let d = Downloaded::new(bytes.clone(), files);
    let mut iter = DownloadedIter::new(&d);

    let first = iter.next().unwrap();
    assert_eq!(first.path(), &[String::from("a")]);
    assert_eq!(first.bytes(), &bytes[0..10]);

    let second = iter.next().unwrap();
    assert_eq!(second.path(), &[String::from("b"), String::from("c")]);
    assert_eq!(second.bytes(), &bytes[10..15]);

    assert!(iter.next().is_none());
}

#[test]
fn output_files_wraps_a_single_file_under_its_name() {
    let info = Info {
        name: String::from("blob.bin"),
        plength: 16384,
        pieces: Hashes(vec![[0; 20]]),
        keys: Keys::SingleFile { length: 123 },
    };
    let files = output_files(&info);
    assert_eq!(files.len(), 1);
    assert_eq!(files[0].length, 123);
    assert_eq!(files[0].path, vec![String::from("blob.bin")]);
}

#[test]
fn info_hash_is_sha1_of_the_canonical_bencoding() {
    let source: Vec<u8> = (0..32768).map(|i| (i % 241) as u8).collect();
    let h0 = sha1(&source[..16384]);
    let h1 = sha1(&source[16384..]);
    let t = Torrent {
        announce: String::from("http://tracker.example/announce"),
        info: Info {
            name: String::from("foo"),
            plength: 16384,
            pieces: Hashes(vec![h0, h1]),
            keys: Keys::SingleFile { length: 32768 },
        },
    };

    let mut expected_encoding: Vec<u8> = Vec::new();
    expected_encoding.extend_from_slice(b"d6:lengthi32768e4:name3:foo12:piece lengthi16384e6:pieces40:");
    expected_encoding.extend_from_slice(&h0);
    expected_encoding.extend_from_slice(&h1);
    expected_encoding.extend_from_slice(b"e");
    assert_eq!(bittorrent::torrent::encode_info(&t.info), expected_encoding);

    assert_eq!(t.info_hash(), sha1(&expected_encoding));
}

#[test]
fn multi_file_info_encodes_its_file_list() {
    let info = Info {
        name: String::from("dir"),
        plength: 16384,
        pieces: Hashes(vec![[0xab; 20]]),
        keys: Keys::MultiFile {
            files: vec![
                File { length: 10, path: vec![String::from("a")] },
                File { length: 5, path: vec![String::from("b"), String::from("c")] },
            ],
        },
    };
    let mut expected: Vec<u8> = Vec::new();
    expected.extend_from_slice(b"d5:filesl");
    expected.extend_from_slice(b"d6:lengthi10e4:pathl1:aee");
    expected.extend_from_slice(b"d6:lengthi5e4:pathl1:b1:cee");
    expected.extend_from_slice(b"e4:name3:dir12:piece lengthi16384e6:pieces20:");
    expected.extend_from_slice(&[0xab; 20]);
    expected.extend_from_slice(b"e");
    assert_eq!(bittorrent::torrent::encode_info(&info), expected);
}

#[test]
fn piece_sizes_split_the_total() {
    // 40 KiB in two pieces of 32 KiB piece length: 32768 then 8192.
    let info = Info {
        name: String::from("x"),
        plength: 32768,
        pieces: Hashes(vec![[0; 20], [1; 20]]),
        keys: Keys::SingleFile { length: 40960 },
    };
    assert_eq!(info.total_length(), 40960);
    assert_eq!(info.piece_size(0), 32768);
    assert_eq!(info.piece_size(1), 8192);

    let hashes_bytes = info.pieces.concat();
    assert_eq!(hashes_bytes.len(), 40);
    let parsed = Hashes::from_bytes(&hashes_bytes).unwrap();
    assert_eq!(parsed.0.len(), 2);
    assert_eq!(parsed.0[0], [0; 20]);
    assert_eq!(parsed.0[1], [1; 20]);
    assert!(Hashes::from_bytes(&hashes_bytes[..39]).is_none());
}
