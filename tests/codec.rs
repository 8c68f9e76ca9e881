use bytes::BytesMut;
use tunnel::codec::{Codec, Message};

fn encoded(port: u16, payload: &[u8]) -> BytesMut {
    let mut codec = Codec::new();
    let mut dst = BytesMut::new();
    codec.encode(Message::new(port, payload), &mut dst);
    dst
}

#[test]
fn message_new_copies_payload() {
    let m = Message::new(3, b"abc");
    assert_eq!(m.port, 3);
    assert_eq!(m.size, 3);
    assert_eq!(&m.payload[..], b"abc");
}

#[test]
fn encode_layout() {
    let dst = encoded(8080, b"hello");
    let mut expected = vec![0x90, 0x1f, 5, 0, 0, 0, 0, 0, 0, 0];
    expected.extend_from_slice(b"hello");
    assert_eq!(&dst[..], &expected[..]);
}

#[test]
fn encode_appends_to_pending_bytes() {
    let mut codec = Codec::new();
    let mut dst = BytesMut::from(&b"xy"[..]);
    codec.encode(Message::new(1, b"z"), &mut dst);
    assert_eq!(&dst[..], &[b'x', b'y', 1, 0, 1, 0, 0, 0, 0, 0, 0, 0, b'z'][..]);
}

#[test]
fn frame_round_trip() {
    let payload: Vec<u8> = (0..1024u32).map(|i| (i % 251) as u8).collect();
    let mut src = encoded(4242, &payload);
    let mut codec = Codec::new();
    let m = codec.decode(&mut src).unwrap();
    assert_eq!(m.port, 4242);
    assert_eq!(m.size, 1024);
    assert_eq!(&m.payload[..], &payload[..]);
    assert!(src.is_empty());
}

#[test]
fn frame_empty_payload() {
    let mut src = encoded(7, b"");
    assert_eq!(src.len(), 10);
    let mut codec = Codec::new();
    let m = codec.decode(&mut src).unwrap();
    assert_eq!((m.port, m.size, m.payload.len()), (7, 0, 0));
    assert!(codec.decode(&mut src).is_none());
}

#[test]
fn frame_bytewise_feeding() {
    let whole = encoded(9001, b"ping");
    let mut codec = Codec::new();
    let mut src = BytesMut::new();
    let mut got = Vec::new();
    for (i, b) in whole.iter().enumerate() {
        src.extend_from_slice(&[*b]);
        match codec.decode(&mut src) {
            Some(m) => got.push((i, m)),
            None => {}
        }
    }
    assert_eq!(got.len(), 1);
    let (i, m) = &got[0];
    assert_eq!(*i, whole.len() - 1);
    assert_eq!((m.port, m.size), (9001, 4));
    assert_eq!(&m.payload[..], b"ping");
    assert!(src.is_empty());
}

#[test]
fn short_header_waits() {
    let mut codec = Codec::new();
    let mut src = BytesMut::from(&[1u8, 0, 3][..]);
    assert!(codec.decode(&mut src).is_none());
    assert_eq!(&src[..], &[1, 0, 3]);
}

#[test]
fn short_payload_keeps_header_pending() {
    let whole = encoded(5, b"abcdef");
    let mut codec = Codec::new();
    let mut src = BytesMut::from(&whole[..12]);
    assert!(codec.decode(&mut src).is_none());
    assert_eq!(&src[..], b"ab");
    src.extend_from_slice(&whole[12..]);
    let m = codec.decode(&mut src).unwrap();
    assert_eq!((m.port, m.size), (5, 6));
    assert_eq!(&m.payload[..], b"abcdef");
}

#[test]
fn two_frames_in_one_buffer() {
    let mut src = encoded(1, b"one");
    src.extend_from_slice(&encoded(2, b"two!")[..]);
    let mut codec = Codec::new();
    let a = codec.decode(&mut src).unwrap();
    let b = codec.decode(&mut src).unwrap();
    assert_eq!((a.port, &a.payload[..]), (1, &b"one"[..]));
    assert_eq!((b.port, &b.payload[..]), (2, &b"two!"[..]));
    assert!(codec.decode(&mut src).is_none());
}

#[test]
fn frame_stream_bytewise_feeding() {
    let mut whole = encoded(1, b"a");
    whole.extend_from_slice(&encoded(1, b"")[..]);
    whole.extend_from_slice(&encoded(1, b"xyz")[..]);
    let mut codec = Codec::new();
    let mut src = BytesMut::new();
    let mut got = Vec::new();
    for b in whole.iter() {
        src.extend_from_slice(&[*b]);
        if let Some(m) = codec.decode(&mut src) {
            got.push(m.payload.to_vec());
        }
    }
    assert_eq!(got, vec![b"a".to_vec(), Vec::new(), b"xyz".to_vec()]);
    assert!(src.is_empty());
}
