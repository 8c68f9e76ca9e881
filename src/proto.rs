//! The handshake header that announces a connection's destination.
//!
//! Fixed encoding: four IPv4 octets, then the port as a little-endian `u16`.
//! String encoding: the address text's byte length as a little-endian `u16`,
//! then its UTF-8 bytes.

use vstd::prelude::*;
use vstd::utf8::*;
use crate::util::Addr;
use crate::wire::{
    le_bytes, le_value, lemma_le_bytes_len, lemma_le_round_trip, lemma_le_value_bound,
    lemma_pow256_small, read_le, write_le,
};

verus! {

/// Bytes in a fixed-encoding header.
pub const HEADER_LEN: usize = 6;

/// Longest address text that the string encoding can carry, in bytes.
pub const MAX_STR_ADDR: usize = 65535;

/// The destination that a tunnel connection is opened for.
#[derive(Debug, PartialEq, Eq)]
pub struct Header {
    pub addr: Addr,
}

#[derive(Clone, Copy, Debug, PartialEq, Eq)]
pub enum ProtoError {
    /// The input ended before the header did.
    Truncated,
    /// The fixed encoding has no room for an IPv6 address.
    Ipv6Unsupported,
    /// The address text of a string header is not UTF-8.
    InvalidUtf8,
    /// The address text is longer than its length field can say.
    TooLong,
}

impl Header {
    pub fn new(addr: Addr) -> (r: Self)
        ensures
            r.addr == addr,
    {
        Header { addr }
    }
}

/// The fixed encoding of `a`; none for an IPv6 address.
pub open spec fn header_bytes(a: Addr) -> Option<Seq<u8>> {
    match a {
        Addr::V4 { ip, port } => Some(ip@ + le_bytes(port as nat, 2)),
        Addr::V6 { .. } => None,
    }
}

/// The address held by the first six bytes of `b`.
pub open spec fn header_addr(b: Seq<u8>) -> Addr {
    Addr::V4 { ip: [b[0], b[1], b[2], b[3]], port: le_value(b.subrange(4, 6)) as u16 }
}

/// Decodes a fixed-encoding header from the start of `buf`.
pub fn read_header(buf: &[u8]) -> (r: Result<Header, ProtoError>)
    ensures
        buf@.len() < HEADER_LEN ==> r == Err::<Header, ProtoError>(ProtoError::Truncated),
        buf@.len() >= HEADER_LEN ==> r == Ok::<Header, ProtoError>(
            Header { addr: header_addr(buf@) },
        ),
{
    if buf.len() < HEADER_LEN {
        return Err(ProtoError::Truncated);
    }
    let port = read_le(buf, 4, 2);
    proof {
        lemma_le_value_bound(buf@.subrange(4, 6));
        lemma_pow256_small();
    }
    let addr = Addr::V4 { ip: [buf[0], buf[1], buf[2], buf[3]], port: port as u16 };
    Ok(Header::new(addr))
}

/// Encodes `header` in the fixed encoding; an IPv6 address is refused.
pub fn write_header(header: &Header) -> (r: Result<Vec<u8>, ProtoError>)
    ensures
        match r {
            Ok(v) => header_bytes(header.addr) == Some(v@),
            Err(e) => header_bytes(header.addr) is None && e == ProtoError::Ipv6Unsupported,
        },
{
    match header.addr {
        Addr::V4 { ip, port } => {
            let mut v: Vec<u8> = Vec::new();
            v.push(ip[0]);
            v.push(ip[1]);
            v.push(ip[2]);
            v.push(ip[3]);
            proof {
                lemma_pow256_small();
                assert(v@ =~= ip@);
            }
            write_le(&mut v, port as u64, 2);
            Ok(v)
        },
        Addr::V6 { .. } => Err(ProtoError::Ipv6Unsupported),
    }
}

/// The fixed encoding reads back every IPv4 address exactly.
pub proof fn lemma_header_round_trip(a: Addr)
    requires
        a is V4,
    ensures
        header_bytes(a) is Some,
        header_addr(header_bytes(a).unwrap()) == a,
{
    if let Addr::V4 { ip, port } = a {
        let b = header_bytes(a).unwrap();
        lemma_le_bytes_len(port as nat, 2);
        lemma_pow256_small();
        assert(b.subrange(4, 6) =~= le_bytes(port as nat, 2));
        lemma_le_round_trip(port as nat, 2);
        assert([b[0], b[1], b[2], b[3]] =~= ip);
    }
}

/// The string encoding of the address text `s`.
pub open spec fn str_header_bytes(s: Seq<char>) -> Seq<u8> {
    le_bytes(encode_utf8(s).len(), 2) + encode_utf8(s)
}

/// What a string header at the start of `b` decodes to.
pub open spec fn str_header_of(b: Seq<u8>) -> Result<Seq<char>, ProtoError> {
    if b.len() < 2 {
        Err(ProtoError::Truncated)
    } else {
        let n = le_value(b.take(2)) as int;
        if b.len() < 2 + n {
            Err(ProtoError::Truncated)
        } else if valid_utf8(b.subrange(2, 2 + n)) {
            Ok(decode_utf8(b.subrange(2, 2 + n)))
        } else {
            Err(ProtoError::InvalidUtf8)
        }
    }
}

/// Relies on `String::from_utf8`: it accepts exactly the valid UTF-8 byte
/// strings, and the text it returns is what those bytes spell.
#[verifier::external_body]
fn string_from_utf8(v: Vec<u8>) -> (r: Option<String>)
    ensures
        r is Some <==> valid_utf8(v@),
        r matches Some(s) ==> s@ == decode_utf8(v@),
{
    String::from_utf8(v).ok()
}

/// Encodes the address text `addr` in the string encoding.
pub fn write_str_header(addr: &str) -> (r: Result<Vec<u8>, ProtoError>)
    ensures
        match r {
            Ok(v) => encode_utf8(addr@).len() <= MAX_STR_ADDR && v@ == str_header_bytes(addr@),
            Err(e) => encode_utf8(addr@).len() > MAX_STR_ADDR && e == ProtoError::TooLong,
        },
{
    let bytes = addr.as_bytes();
    let n = bytes.len();
    if n > MAX_STR_ADDR {
        return Err(ProtoError::TooLong);
    }
    let mut v: Vec<u8> = Vec::new();
    proof {
        lemma_pow256_small();
    }
    write_le(&mut v, n as u64, 2);
    let ghost prefix = v@;
    let mut i: usize = 0;
    while i < n
        invariant
            i <= n,
            n == bytes@.len(),
            v@ == prefix + bytes@.take(i as int),
        decreases n - i,
    {
        v.push(bytes[i]);
        i = i + 1;
        proof {
            assert(v@ =~= prefix + bytes@.take(i as int));
        }
    }
    proof {
        assert(bytes@.take(n as int) =~= bytes@);
    }
    Ok(v)
}

/// The byte length of the address text that follows a string header's
/// length field, read from the first two bytes of `prefix`.
pub fn str_header_body_len(prefix: &[u8]) -> (r: Option<usize>)
    ensures
        prefix@.len() < 2 ==> r is None,
        prefix@.len() >= 2 ==> r == Some(le_value(prefix@.take(2)) as usize),
{
    if prefix.len() < 2 {
        return None;
    }
    let n = read_le(prefix, 0, 2);
    proof {
        assert(prefix@.subrange(0, 2) =~= prefix@.take(2));
    }
    Some(n as usize)
}

/// Decodes a string header from the start of `buf`.
pub fn read_str_header(buf: &[u8]) -> (r: Result<String, ProtoError>)
    ensures
        match r {
            Ok(s) => str_header_of(buf@) == Ok::<Seq<char>, ProtoError>(s@),
            Err(e) => str_header_of(buf@) == Err::<Seq<char>, ProtoError>(e),
        },
{
    if buf.len() < 2 {
        return Err(ProtoError::Truncated);
    }
    let n64 = read_le(buf, 0, 2);
    proof {
        assert(buf@.subrange(0, 2) =~= buf@.take(2));
        lemma_le_value_bound(buf@.take(2));
        lemma_pow256_small();
    }
    let n = n64 as usize;
    let len = buf.len();
    if len - 2 < n {
        return Err(ProtoError::Truncated);
    }
    let mut body: Vec<u8> = Vec::new();
    let mut i: usize = 0;
    while i < n
        invariant
            i <= n,
            2 + n <= buf@.len(),
            len == buf@.len(),
            body@ == buf@.subrange(2, 2 + i),
        decreases n - i,
    {
        body.push(buf[2 + i]);
        i = i + 1;
        proof {
            assert(body@ =~= buf@.subrange(2, 2 + i));
        }
    }
    match string_from_utf8(body) {
        Some(s) => Ok(s),
        None => Err(ProtoError::InvalidUtf8),
    }
}

/// The string encoding reads back every address text that fits its length
/// field exactly.
pub proof fn lemma_str_header_round_trip(s: Seq<char>)
    requires
        encode_utf8(s).len() <= MAX_STR_ADDR,
    ensures
        str_header_of(str_header_bytes(s)) == Ok::<Seq<char>, ProtoError>(s),
{
    let e = encode_utf8(s);
    let b = str_header_bytes(s);
    lemma_pow256_small();
    lemma_le_bytes_len(e.len(), 2);
    assert(b.take(2) =~= le_bytes(e.len(), 2));
    lemma_le_round_trip(e.len(), 2);
    assert(b.subrange(2, 2 + e.len() as int) =~= e);
    encode_utf8_valid_utf8(s);
    encode_utf8_decode_utf8(s);
}

} // verus!
