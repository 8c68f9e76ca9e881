use bytes::BytesMut;
use tunnel::codec::{Codec, Message};
use tunnel::proto::{read_header, write_header, Header};
use tunnel::relay::{bridge_step, BridgeAction, BridgeEvent};
use tunnel::rule::parse_rule;
use tunnel::util::{localhost, Addr};

#[test]
fn rule_to_handshake() {
    let (src, dst) = parse_rule("9000:9001").unwrap();
    assert_eq!(src, 9000);
    assert_eq!(dst, "127.0.0.1:9001");
    let bytes = write_header(&Header::new(localhost(9001))).unwrap();
    assert_eq!(bytes, vec![127, 0, 0, 1, 0x29, 0x23]);
    let h = read_header(&bytes).unwrap();
    assert_eq!(h.addr, Addr::V4 { ip: [127, 0, 0, 1], port: 9001 });
}

#[test]
fn framed_chunks_arrive_in_order() {
    let chunks: Vec<&[u8]> = vec![b"ping", b"", b"pong pong", &[0u8; 1024]];
    let mut codec = Codec::new();
    let mut wire = BytesMut::new();
    for c in &chunks {
        codec.encode(Message::new(9001, c), &mut wire);
    }
    let mut far = Codec::new();
    let mut got: Vec<u8> = Vec::new();
    let mut n = 0;
    while let Some(m) = far.decode(&mut wire) {
        assert_eq!(m.port, 9001);
        assert_eq!(&m.payload[..], chunks[n]);
        match bridge_step(7, BridgeEvent::Frame(m)) {
            BridgeAction::WriteRaw(b) => got.extend_from_slice(&b),
            other => panic!("unexpected {:?}", other),
        }
        n += 1;
    }
    assert_eq!(n, chunks.len());
    assert_eq!(got, chunks.concat());
    assert!(wire.is_empty());
}
