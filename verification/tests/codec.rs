use afterburner::headers::udp_payload;
use afterburner::headers::NetConfig;
use afterburner::headers::HEADER_LEN;

fn test_cfg() -> NetConfig {
    NetConfig {
        src_mac: [2, 0, 0, 0, 0, 1],
        dst_mac: [2, 0, 0, 0, 0, 2],
        src_ip: [10, 0, 0, 10],
        dst_ip: [10, 0, 0, 11],
    }
}

#[test]
fn header_bytes_exact() {
    let h = test_cfg().write_headers(100, 8000, 8004);
    let expected: Vec<u8> = vec![
        2, 0, 0, 0, 0, 2, // destination MAC
        2, 0, 0, 0, 0, 1, // source MAC
        0x08, 0x00, // EtherType IPv4
        0x45, 0x00, // version/IHL, TOS
        0x00, 0x80, // total length 20 + 8 + 100
        0x00, 0x00, // identification
        0x00, 0x00, // flags/fragment
        64, 17, // TTL, protocol UDP
        0x66, 0x59, // header checksum
        10, 0, 0, 10, // source IP
        10, 0, 0, 11, // destination IP
        0x1F, 0x40, // source port 8000
        0x1F, 0x44, // destination port 8004
        0x00, 0x6C, // UDP length 8 + 100
        0x00, 0x00, // UDP checksum zero
    ];
    assert_eq!(h, expected);
}

#[test]
fn checksum_exact() {
    assert_eq!(test_cfg().ipv4_checksum(100), 0x6659);
}

#[test]
fn checksum_validates_on_receive() {
    // A receiver folds all ten header words, checksum included, to 0xFFFF.
    let h = test_cfg().write_headers(1200, 4242, 8004);
    let mut sum: u32 = 0;
    for w in 0..10 {
        sum += ((h[14 + 2 * w] as u32) << 8) | h[15 + 2 * w] as u32;
    }
    let f1 = (sum & 0xFFFF) + (sum >> 16);
    let f2 = (f1 & 0xFFFF) + (f1 >> 16);
    assert_eq!(f2, 0xFFFF);
}

#[test]
fn parse_splits_after_prefix() {
    let mut frame = vec![0u8; 42];
    assert!(udp_payload(&frame).is_none());
    assert!(udp_payload(&[]).is_none());
    frame.push(0xAB);
    frame.push(0xCD);
    let p = udp_payload(&frame).expect("payload");
    assert_eq!(p, &[0xAB, 0xCD]);
}

#[test]
fn header_len_fixed() {
    assert_eq!(HEADER_LEN, 42);
    let h = test_cfg().write_headers(0, 1, 2);
    assert_eq!(h.len(), 42);
    // Zero-length payload: total length 28, UDP length 8.
    assert_eq!((h[16], h[17]), (0, 28));
    assert_eq!((h[38], h[39]), (0, 8));
}
