use afterburner::ring::ring_map_len;
use afterburner::ring::Ring;
use afterburner::ring::RingDesc;

#[test]
fn ring_map_len_exact() {
    // FILL and COMPLETION carry 8-byte descriptors, RX and TX 16-byte ones.
    assert_eq!(ring_map_len(128, 2048, 8), 128 + 2048 * 8);
    assert_eq!(ring_map_len(128, 2048, 16), 128 + 2048 * 16);
}

#[test]
fn ring_fills_to_capacity() {
    let mut r = Ring::new(2);
    assert!(r.is_empty());
    assert!(!r.is_full());
    r.enqueue(RingDesc { addr: 1, len: 0, options: 0 });
    r.enqueue(RingDesc { addr: 2, len: 0, options: 0 });
    assert!(r.is_full());
    assert_eq!(r.occupancy_count(), 2);
    assert_eq!(r.dequeue().addr, 1);
    assert_eq!(r.dequeue().addr, 2);
    assert!(r.is_empty());
}

#[test]
fn ring_indices_wrap_at_u32_max() {
    // Indices are monotonically increasing 32-bit values; occupancy and
    // slot selection must survive the wrap at 2^32.
    let mut r = Ring {
        producer: u32::MAX,
        consumer: u32::MAX - 2,
        slots: vec![RingDesc { addr: 0, len: 0, options: 0 }; 8],
    };
    r.slots[((u32::MAX - 2) % 8) as usize] = RingDesc { addr: 11, len: 1, options: 0 };
    r.slots[((u32::MAX - 1) % 8) as usize] = RingDesc { addr: 22, len: 2, options: 0 };
    assert_eq!(r.occupancy_count(), 2);
    assert!(!r.is_full());
    r.enqueue(RingDesc { addr: 33, len: 3, options: 0 });
    assert_eq!(r.producer, 0);
    assert_eq!(r.occupancy_count(), 3);
    assert_eq!(r.dequeue().addr, 11);
    assert_eq!(r.dequeue().addr, 22);
    assert_eq!(r.dequeue().addr, 33);
    assert!(r.is_empty());
    assert_eq!(r.consumer, 0);
    assert_eq!(r.producer, 0);
}
