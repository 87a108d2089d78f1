use snjs_core::bridge::TransportBuffer;
use snjs_core::skynet::{encode_socket_message, merge_bufs, send_type, SocketBody, PTYPE_TAG_DONTCOPY};

#[test]
fn merge_joins_buffers_in_order() {
    let bufs = vec![vec![1u8, 2], vec![], vec![3u8, 4, 5]];
    assert_eq!(merge_bufs(&bufs), vec![1, 2, 3, 4, 5]);
    assert_eq!(merge_bufs(&vec![]), Vec::<u8>::new());
}

#[test]
fn sends_are_not_copied() {
    assert_eq!(send_type(1), 1 | PTYPE_TAG_DONTCOPY);
    assert_eq!(send_type(0x10000), 0x10000);
}

#[test]
fn data_frame_layout() {
    let frame = encode_socket_message(1, 9, 3, &SocketBody::Data(vec![0xaa, 0xbb, 0xcc]), None);
    assert_eq!(frame, vec![1, 0, 0, 0, 9, 0, 0, 0, 3, 0, 0, 0, 0xaa, 0xbb, 0xcc]);
}

#[test]
fn error_frame_layout() {
    let frame = encode_socket_message(5, -1, 0, &SocketBody::Error(b"bad".to_vec()), None);
    assert_eq!(frame, vec![5, 0, 0, 0, 0xff, 0xff, 0xff, 0xff, 0, 0, 0, 0, 3, 0, b'b', b'a', b'd']);
    let bare = encode_socket_message(3, 2, 0, &SocketBody::Error(vec![]), None);
    assert_eq!(bare, vec![3, 0, 0, 0, 2, 0, 0, 0, 0, 0, 0, 0, 0, 0]);
}

#[test]
fn udp_frame_carries_the_address() {
    let addr = [7u8, 8];
    let frame = encode_socket_message(6, 1, 1, &SocketBody::Data(vec![0x42]), Some(&addr));
    assert_eq!(frame, vec![6, 0, 0, 0, 1, 0, 0, 0, 1, 0, 0, 0, 0x42, 2, 0, 7, 8]);
    let no_addr = encode_socket_message(6, 1, 0, &SocketBody::Data(vec![]), None);
    assert_eq!(no_addr, vec![6, 0, 0, 0, 1, 0, 0, 0, 0, 0, 0, 0, 0, 0]);
    let not_udp = encode_socket_message(1, 1, 0, &SocketBody::Data(vec![]), Some(&addr));
    assert_eq!(not_udp.len(), 12);
}

#[test]
fn frame_goes_into_the_bridge_buffer() {
    let mut b = TransportBuffer::new();
    let frame = encode_socket_message(1, 2, 1, &SocketBody::Data(vec![5]), None);
    assert!(b.load_frame(&frame));
    assert_eq!(&b.as_slice()[..frame.len()], &frame[..]);
    assert!(!b.load_frame(&frame));
}
