use afterburner::umem::Umem;

#[test]
fn umem_starts_zeroed() {
    let u = Umem::new(2048, 16);
    assert_eq!(u.bytes.len(), 32768);
    let frame = u.frame_read(0, 2048);
    assert_eq!(frame.len(), 2048);
    assert!(frame.iter().all(|&b| b == 0));
}

#[test]
fn frame_write_stays_in_frame() {
    let mut u = Umem::new(2048, 16);
    let data: Vec<u8> = vec![0xCA, 0xFE, 0xBA, 0xBE];
    u.frame_write(2048, &data);
    assert_eq!(u.frame_read(2048, 4), data);
    // The neighbouring frames are untouched.
    assert!(u.frame_read(0, 2048).iter().all(|&b| b == 0));
    assert!(u.frame_read(4096, 2048).iter().all(|&b| b == 0));
    // The rest of the written frame is untouched.
    assert!(u.frame_read(2048, 2048)[4..].iter().all(|&b| b == 0));
}
