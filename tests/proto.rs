use tunnel::proto::{
    read_header, read_str_header, str_header_body_len, write_header, write_str_header, Header,
    ProtoError,
};
use tunnel::util::{localhost, Addr};

#[test]
fn fixed_header_bytes() {
    let h = Header::new(Addr::V4 { ip: [10, 0, 0, 1], port: 9090 });
    let b = write_header(&h).unwrap();
    assert_eq!(b, vec![10, 0, 0, 1, 0x82, 0x23]);
}

#[test]
fn fixed_header_round_trip() {
    for (ip, port) in [([127, 0, 0, 1], 9001u16), ([0, 0, 0, 0], 0), ([255, 255, 255, 255], 65535)] {
        let h = Header::new(Addr::V4 { ip, port });
        let b = write_header(&h).unwrap();
        assert_eq!(b.len(), 6);
        assert_eq!(read_header(&b), Ok(h));
    }
}

#[test]
fn fixed_header_reads_first_six_bytes() {
    let b = [192, 168, 1, 2, 0x50, 0x00, 0xaa, 0xbb];
    let h = read_header(&b).unwrap();
    assert_eq!(h.addr, Addr::V4 { ip: [192, 168, 1, 2], port: 80 });
}

#[test]
fn fixed_header_refuses_ipv6() {
    let h = Header::new(Addr::V6 { segments: [0, 0, 0, 0, 0, 0, 0, 1], port: 80 });
    assert_eq!(write_header(&h), Err(ProtoError::Ipv6Unsupported));
}

#[test]
fn fixed_header_short_input() {
    assert_eq!(read_header(&[1, 2, 3, 4, 5]), Err(ProtoError::Truncated));
    assert_eq!(read_header(&[]), Err(ProtoError::Truncated));
}

#[test]
fn localhost_is_loopback() {
    assert_eq!(localhost(7000), Addr::V4 { ip: [127, 0, 0, 1], port: 7000 });
}

#[test]
fn str_header_bytes() {
    let b = write_str_header("127.0.0.1:9001").unwrap();
    let mut expected = vec![14u8, 0];
    expected.extend_from_slice(b"127.0.0.1:9001");
    assert_eq!(b, expected);
}

#[test]
fn str_header_round_trip() {
    for s in ["", "example.org:443", "héllo wörld:1", "日本:80"] {
        let b = write_str_header(s).unwrap();
        assert_eq!(read_str_header(&b), Ok(s.to_string()));
    }
}

#[test]
fn str_header_longest_text() {
    let s = "a".repeat(65535);
    let b = write_str_header(&s).unwrap();
    assert_eq!(&b[..2], &[0xff, 0xff]);
    assert_eq!(read_str_header(&b), Ok(s));
}

#[test]
fn str_header_too_long() {
    let s = "a".repeat(65536);
    assert_eq!(write_str_header(&s), Err(ProtoError::TooLong));
}

#[test]
fn str_header_invalid_utf8() {
    assert_eq!(read_str_header(&[2, 0, 0xff, 0xfe]), Err(ProtoError::InvalidUtf8));
}

#[test]
fn str_header_truncated() {
    assert_eq!(read_str_header(&[1]), Err(ProtoError::Truncated));
    assert_eq!(read_str_header(&[5, 0, b'a', b'b']), Err(ProtoError::Truncated));
}

#[test]
fn str_header_ignores_trailing_bytes() {
    assert_eq!(read_str_header(&[2, 0, b'o', b'k', b'x']), Ok("ok".to_string()));
}

#[test]
fn str_header_length_prefix() {
    assert_eq!(str_header_body_len(&[0x34, 0x12]), Some(0x1234));
    assert_eq!(str_header_body_len(&[7]), None);
}
