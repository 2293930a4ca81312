use afterburner::ring::Ring;
use afterburner::ring::RingDesc;
use afterburner::xsk::XdpSocket;

fn zero_desc() -> RingDesc {
    RingDesc { addr: 0, len: 0, options: 0 }
}

/// The published, not yet consumed offsets of a ring, oldest first.
fn ring_pending_addrs(r: &Ring) -> Vec<u64> {
    let cap = r.slots.len() as u32;
    let occ = r.producer.wrapping_sub(r.consumer);
    (0..occ).map(|k| r.slots[(r.consumer.wrapping_add(k) % cap) as usize].addr).collect()
}

#[test]
fn cold_start_no_traffic() {
    let mut s = XdpSocket::new(8, 2048, 16);
    assert_eq!(s.fill.occupancy_count(), 8);
    for k in 0..8usize {
        assert_eq!(s.fill.slots[k].addr, (k as u64) * 2048);
    }
    assert_eq!(s.tx_free_frames.len(), 8);
    for k in 0..8usize {
        assert_eq!(s.tx_free_frames[k], 16384 + (k as u64) * 2048);
    }
    assert!(s.poll_rx().is_none());
    let got = s.get_tx_frame();
    assert_eq!(got, Some(30720));
    assert_eq!(s.pending_tx_addr, Some(30720));
    s.cancel_tx();
    assert_eq!(s.tx_free_frames.len(), 8);
}

#[test]
fn single_rx() {
    let mut s = XdpSocket::new(8, 2048, 16);
    let delivered = s.kernel_rx_deliver(64);
    assert_eq!(delivered, 0);
    let fill_prod_before = s.fill.producer;
    let r = s.poll_rx();
    assert_eq!(r, Some((0, 64)));
    assert_eq!(s.rx.consumer, 1);
    assert_eq!(s.fill.producer, fill_prod_before + 1);
    let slot = (fill_prod_before % 8) as usize;
    assert_eq!(s.fill.slots[slot].addr, 0);
}

#[test]
fn tx_round_trip() {
    let mut s = XdpSocket::new(8, 2048, 16);
    let mut umem = afterburner::umem::Umem::new(2048, 16);
    let x = s.get_tx_frame().expect("frame");
    umem.frame_write(x, &vec![0xABu8; 100]);
    assert_eq!(umem.frame_read(x, 100), vec![0xABu8; 100]);
    s.tx_submit(100);
    assert_eq!(s.tx.producer, 1);
    assert_eq!(s.tx.slots[0].addr, x);
    assert_eq!(s.tx.slots[0].len, 100);
    assert_eq!(s.tx.slots[0].options, 0);
    assert!(s.pending_tx_addr.is_none());
    let completed = s.kernel_tx_complete();
    assert_eq!(completed, x);
    let y = s.get_tx_frame().expect("frame after completion");
    assert_eq!(y, x);
}

#[test]
fn tx_backpressure() {
    let mut s = XdpSocket {
        fill: Ring {
            producer: 2,
            consumer: 0,
            slots: vec![
                RingDesc { addr: 0, len: 0, options: 0 },
                RingDesc { addr: 2048, len: 0, options: 0 },
            ],
        },
        comp: Ring { producer: 0, consumer: 0, slots: vec![zero_desc(), zero_desc()] },
        rx: Ring { producer: 0, consumer: 0, slots: vec![zero_desc(), zero_desc()] },
        tx: Ring {
            producer: 2,
            consumer: 0,
            slots: vec![
                RingDesc { addr: 8192, len: 100, options: 0 },
                RingDesc { addr: 10240, len: 100, options: 0 },
            ],
        },
        tx_free_frames: vec![4096],
        pending_tx_addr: None,
        frame_size: 2048,
        num_frames: 6,
    };
    // TX ring full: no frame handed out even though the free-list is
    // non-empty.
    assert_eq!(s.get_tx_frame(), None);
    assert_eq!(s.tx_free_frames, vec![4096]);
    // One simulated completion frees a TX slot and returns an offset.
    let c = s.kernel_tx_complete();
    assert_eq!(c, 8192);
    assert_eq!(s.get_tx_frame(), Some(8192));
}

#[test]
fn fill_overflow_tolerated() {
    // FILL already full while a packet sits on RX: the recycle is dropped.
    let mut s = XdpSocket {
        fill: Ring {
            producer: 4,
            consumer: 0,
            slots: vec![
                RingDesc { addr: 0, len: 0, options: 0 },
                RingDesc { addr: 2048, len: 0, options: 0 },
                RingDesc { addr: 4096, len: 0, options: 0 },
                RingDesc { addr: 6144, len: 0, options: 0 },
            ],
        },
        comp: Ring {
            producer: 0,
            consumer: 0,
            slots: vec![zero_desc(), zero_desc(), zero_desc(), zero_desc()],
        },
        rx: Ring {
            producer: 1,
            consumer: 0,
            slots: vec![RingDesc { addr: 8192, len: 64, options: 0 }, zero_desc(), zero_desc(),
                zero_desc()],
        },
        tx: Ring {
            producer: 0,
            consumer: 0,
            slots: vec![zero_desc(), zero_desc(), zero_desc(), zero_desc()],
        },
        tx_free_frames: vec![10240],
        pending_tx_addr: None,
        frame_size: 2048,
        num_frames: 8,
    };
    let fill_prod = s.fill.producer;
    let r = s.poll_rx();
    assert_eq!(r, Some((8192, 64)));
    assert_eq!(s.fill.producer, fill_prod);
    assert_eq!(s.rx.consumer, 1);
    assert!(s.poll_rx().is_none());
}

#[test]
fn graceful_shutdown() {
    let mut s = XdpSocket::new(8, 2048, 16);
    // The engine has one connection-close packet of 47 bytes left, then
    // nothing; the bounded drain submits it and exits on the first empty
    // egress.
    let mut pending_egress: Vec<u32> = vec![47];
    let mut sent = 0;
    let mut exited_cleanly = false;
    for _ in 0..16 {
        match s.get_tx_frame() {
            Some(_) => {
                let quic_len: Option<u32> = pending_egress.pop();
                if s.tx_egress_step(quic_len) {
                    sent += 1;
                } else {
                    exited_cleanly = true;
                    break;
                }
            },
            None => {
                exited_cleanly = true;
                break;
            },
        }
    }
    assert!(exited_cleanly);
    assert_eq!(sent, 1);
    assert_eq!(s.tx.occupancy_count(), 1);
    assert_eq!(s.tx.slots[0].len, 42 + 47);
    assert_eq!(s.tx_free_frames.len(), 7);
}

#[test]
fn cancel_restores_free_list_over_a_loop() {
    let mut s = XdpSocket::new(8, 2048, 16);
    let initial = s.tx_free_frames.clone();
    for _ in 0..5 {
        let _ = s.get_tx_frame().expect("frame");
        s.cancel_tx();
    }
    assert_eq!(s.tx_free_frames, initial);
}

#[test]
fn recycles_conserve_kernel_buffers() {
    let mut s = XdpSocket::new(8, 2048, 16);
    let initial = s.fill.occupancy_count() + s.rx.occupancy_count();
    for i in 0..4 {
        let _ = s.kernel_rx_deliver(64 + i);
    }
    for _ in 0..4 {
        assert!(s.poll_rx().is_some());
    }
    assert_eq!(s.fill.occupancy_count() + s.rx.occupancy_count(), initial);
    assert_eq!(s.fill.occupancy_count(), 8);
}

#[test]
fn submitted_offset_returns_exactly_once() {
    let mut s = XdpSocket::new(8, 2048, 16);
    let x = s.get_tx_frame().expect("frame");
    s.tx_submit(1500);
    let c = s.kernel_tx_complete();
    assert_eq!(c, x);
    let y = s.get_tx_frame().expect("frame");
    assert_eq!(y, x);
    s.cancel_tx();
    assert_eq!(s.tx_free_frames.iter().filter(|&&a| a == x).count(), 1);
}

#[test]
fn partition_holds_at_rest() {
    let mut s = XdpSocket::new(8, 2048, 16);
    // Drive a mixed workload across both sides of the lifecycle.
    let _ = s.kernel_rx_deliver(64);
    let _ = s.poll_rx();
    let _ = s.get_tx_frame().expect("frame");
    s.tx_submit(200);
    let _ = s.kernel_tx_complete();
    let _ = s.get_tx_frame().expect("frame");
    s.cancel_tx();
    // Every frame offset is in exactly one place.
    let mut seen: Vec<u64> = Vec::new();
    seen.extend(ring_pending_addrs(&s.fill));
    seen.extend(ring_pending_addrs(&s.rx));
    seen.extend(ring_pending_addrs(&s.tx));
    seen.extend(ring_pending_addrs(&s.comp));
    seen.extend(s.tx_free_frames.iter().copied());
    if let Some(a) = s.pending_tx_addr {
        seen.push(a);
    }
    seen.sort_unstable();
    let expected: Vec<u64> = (0..16).map(|i| i * 2048).collect();
    assert_eq!(seen, expected);
}

#[test]
fn free_list_exhaustion() {
    let mut s = XdpSocket::new(8, 2048, 4);
    let a = s.get_tx_frame().expect("first frame");
    s.tx_submit(60);
    let b = s.get_tx_frame().expect("second frame");
    s.tx_submit(60);
    assert_ne!(a, b);
    // Every user-side frame is now in flight; none can be handed out.
    assert_eq!(s.get_tx_frame(), None);
    // A completion brings the oldest one back.
    let c = s.kernel_tx_complete();
    assert_eq!(c, a);
    assert_eq!(s.get_tx_frame(), Some(a));
}

#[test]
fn zero_length_egress_is_cancelled() {
    let mut s = XdpSocket::new(8, 2048, 16);
    let _ = s.get_tx_frame().expect("frame");
    assert!(!s.tx_egress_step(Some(0)));
    assert_eq!(s.tx_free_frames.len(), 8);
    assert_eq!(s.tx.occupancy_count(), 0);
    let _ = s.get_tx_frame().expect("frame");
    assert!(s.tx_egress_step(Some(58)));
    assert_eq!(s.tx.slots[0].len, 100);
}
