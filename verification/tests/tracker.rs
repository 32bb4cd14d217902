use bittorrent::tracker::interpret_tracker_reply;
use bittorrent::tracker::parse_peers;
use bittorrent::tracker::Tracker;
use bittorrent::tracker::TrackerError;

#[test]
fn twelve_peer_bytes_give_two_endpoints() {
    let bytes = [
        127, 0, 0, 1, 0x1a, 0xe1, // 127.0.0.1:6881
        10, 0, 0, 2, 0x00, 0x50, // 10.0.0.2:80
    ];
    let peers = parse_peers(&bytes).unwrap();
    assert_eq!(peers.len(), 2);
    assert_eq!(peers[0].ip, [127, 0, 0, 1]);
    assert_eq!(peers[0].port, 6881);
    assert_eq!(peers[1].ip, [10, 0, 0, 2]);
    assert_eq!(peers[1].port, 80);
}

#[test]
fn thirteen_peer_bytes_are_rejected() {
    let bytes = [0u8; 13];
    assert_eq!(parse_peers(&bytes), Err(TrackerError::TrackerDecode));
}

#[test]
fn failure_reason_rejects_the_response() {
    let r = interpret_tracker_reply(true, 900, &[0u8; 12]);
    assert_eq!(r.err(), Some(TrackerError::TrackerReject));

    let resp = interpret_tracker_reply(false, 900, &[127, 0, 0, 1, 0x1a, 0xe1]).unwrap();
    assert_eq!(resp.interval, 900);
    assert_eq!(resp.peers.len(), 1);
    assert_eq!(resp.peers[0].port, 6881);
}

#[test]
fn announce_query_percent_encodes_every_info_hash_byte() {
    let t = Tracker {
        info_hash: [0xff; 20],
        peer_id: *b"00112233445566778899",
        port: 6881,
        uploaded: 0,
        downloaded: 0,
        left: 100,
        compact: 1,
    };
    let q = String::from_utf8(t.query_bytes()).unwrap();
    let mut expected = String::from(
        "peer_id=00112233445566778899&port=6881&uploaded=0&downloaded=0&left=100&compact=1&info_hash=",
    );
    for _ in 0..20 {
        expected.push_str("%ff");
    }
    assert_eq!(q, expected);
}

#[test]
fn announce_query_hex_uses_both_digits() {
    let mut info_hash = [0u8; 20];
    info_hash[0] = 0x0a;
    info_hash[1] = 0xa0;
    info_hash[2] = 0x12;
    let t = Tracker {
        info_hash,
        peer_id: *b"00112233445566778899",
        port: 1,
        uploaded: 2,
        downloaded: 3,
        left: 4,
        compact: 1,
    };
    let q = String::from_utf8(t.query_bytes()).unwrap();
    let tail = q.split("info_hash=").nth(1).unwrap();
    assert!(tail.starts_with("%0a%a0%12%00"));
}
