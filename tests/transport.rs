use fusion_hawking::transport::{someip_message_len, FrameBuffer};

fn wrap_someip(payload: &[u8]) -> Vec<u8> {
    let mut msg = vec![0u8; 16];
    let length = (8 + payload.len()) as u32;
    msg[4..8].copy_from_slice(&length.to_be_bytes());
    msg.extend_from_slice(payload);
    msg
}

#[test]
fn message_length_needs_the_whole_message() {
    let msg = wrap_someip(b"Hello Server");
    assert_eq!(someip_message_len(&msg[..7]), None);
    assert_eq!(someip_message_len(&msg[..20]), None);
    assert_eq!(someip_message_len(&msg), Some(28));
    let mut two = msg.clone();
    two.extend_from_slice(&msg);
    assert_eq!(someip_message_len(&two), Some(28));
}

#[test]
fn frame_buffer_splits_a_stream_into_messages() {
    let a = wrap_someip(b"first");
    let b = wrap_someip(b"second message");
    let mut stream = a.clone();
    stream.extend_from_slice(&b);

    let mut buf = FrameBuffer::new();
    buf.append(&stream[..10]);
    assert_eq!(buf.next_message(), None);
    buf.append(&stream[10..30]);
    assert_eq!(buf.next_message(), Some(a.clone()));
    assert_eq!(buf.next_message(), None);
    buf.append(&stream[30..]);
    assert_eq!(buf.check(), Some(b.len()));
    assert_eq!(buf.next_message(), Some(b));
    assert!(buf.data.is_empty());
}
