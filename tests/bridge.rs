use snjs_core::bridge::TransportBuffer;

#[test]
fn buffer_growth_sequence() {
    let mut b = TransportBuffer::new();
    assert_eq!(b.capacity_now(), 0);
    let mut caps = vec![];
    let mut flags = vec![];
    for sz in [10usize, 100, 1000, 100000] {
        flags.push(b.ensure_capacity(sz));
        assert!(b.capacity_now() >= sz);
        caps.push(b.capacity_now());
    }
    assert_eq!(flags, vec![true, false, true, true]);
    assert_eq!(caps, vec![128, 128, 1024, 100096]);
    assert!(caps.windows(2).all(|w| w[0] <= w[1]));
}

#[test]
fn growth_below_ceiling_doubles() {
    let mut b = TransportBuffer::new();
    b.ensure_capacity(128);
    assert_eq!(b.capacity_now(), 128);
    assert!(b.ensure_capacity(129));
    assert_eq!(b.capacity_now(), 256);
    assert!(!b.ensure_capacity(256));
    assert!(b.ensure_capacity(0x8001));
    assert_eq!(b.capacity_now(), 33280);
}

#[test]
fn zero_request_allocates_the_floor() {
    let mut b = TransportBuffer::new();
    assert!(b.ensure_capacity(0));
    assert_eq!(b.capacity_now(), 128);
}

#[test]
fn deliver_writes_header_and_payload() {
    let mut b = TransportBuffer::new();
    let payload = [1u8, 2, 3, 4, 5];
    let fresh = b.deliver(-2, 7, 0x01020304, &payload, 0x1122334455667788);
    assert!(fresh);
    let bytes = b.as_slice();
    assert_eq!(bytes.len(), 128);
    assert_eq!(&bytes[0..4], &(-2i32).to_le_bytes());
    assert_eq!(&bytes[4..8], &[7, 0, 0, 0]);
    assert_eq!(&bytes[8..12], &[4, 3, 2, 1]);
    assert_eq!(&bytes[12..16], &[5, 0, 0, 0]);
    assert_eq!(&bytes[16..24], &[0x88, 0x77, 0x66, 0x55, 0x44, 0x33, 0x22, 0x11]);
    assert_eq!(&bytes[64..69], &payload);
    let again = b.deliver(1, 1, 1, &[9u8; 64], 0);
    assert!(!again);
    assert_eq!(b.as_slice()[64..128], [9u8; 64]);
    assert!(b.deliver(1, 1, 1, &[0u8; 65], 0));
    assert_eq!(b.capacity_now(), 256);
}
