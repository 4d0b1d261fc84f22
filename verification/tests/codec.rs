use rudy::http::{Body, Header, Request, Response, Version};
use rudy::num;
use rudy::parser::{self, ParseError};

fn header(name: &[u8], value: &[u8]) -> Header {
    Header { name: name.to_vec(), value: value.to_vec() }
}

fn assert_headers_eq(a: &[Header], b: &[(&[u8], &[u8])]) {
    assert_eq!(a.len(), b.len());
    for (h, (n, v)) in a.iter().zip(b.iter()) {
        assert_eq!(h.name.as_slice(), *n);
        assert_eq!(h.value.as_slice(), *v);
    }
}

#[test]
fn serialize_simple_get() {
    let req = Request {
        method: b"GET".to_vec(),
        target: b"/".to_vec(),
        version: Version::Http11,
        headers: vec![header(b"Host", b"example.com")],
        body: Body::Empty,
    };
    let bytes = rudy::http::serialize_request(&req);
    assert_eq!(bytes.as_slice(), b"GET / HTTP/1.1\r\nHost: example.com\r\n\r\n".as_slice());
}

#[test]
fn round_trip_empty_body() {
    let req = Request {
        method: b"GET".to_vec(),
        target: b"/index.html".to_vec(),
        version: Version::Http11,
        headers: vec![header(b"Host", b"example.com"), header(b"Accept", b"*/*")],
        body: Body::Empty,
    };
    let bytes = rudy::http::serialize_request(&req);
    let (back, used) = parser::parse_request(bytes.as_slice()).expect("must parse");
    assert_eq!(used, bytes.len());
    assert_eq!(back.method.as_slice(), b"GET".as_slice());
    assert_eq!(back.target.as_slice(), b"/index.html".as_slice());
    assert!(matches!(back.version, Version::Http11));
    assert_headers_eq(&back.headers, &[(b"Host", b"example.com"), (b"Accept", b"*/*")]);
    assert!(matches!(back.body, Body::Empty));
}

#[test]
fn round_trip_sized_body() {
    let req = Request {
        method: b"POST".to_vec(),
        target: b"/submit".to_vec(),
        version: Version::Http11,
        headers: vec![header(b"Host", b"example.com")],
        body: Body::Sized(b"hello world".to_vec()),
    };
    let bytes = rudy::http::serialize_request(&req);
    let expected = b"POST /submit HTTP/1.1\r\nHost: example.com\r\nContent-Length: 11\r\n\r\nhello world";
    assert_eq!(bytes.as_slice(), expected.as_slice());
    let (back, used) = parser::parse_request(bytes.as_slice()).expect("must parse");
    assert_eq!(used, bytes.len());
    match back.body {
        Body::Sized(data) => assert_eq!(data.as_slice(), b"hello world".as_slice()),
        _ => panic!("wrong framing"),
    }
    assert_headers_eq(&back.headers, &[(b"Host", b"example.com")]);
}

#[test]
fn round_trip_chunked_body() {
    let req = Request {
        method: b"POST".to_vec(),
        target: b"/up".to_vec(),
        version: Version::Http11,
        headers: vec![header(b"Host", b"x")],
        body: Body::Chunked(vec![b"hello".to_vec(), b" world".to_vec()]),
    };
    let bytes = rudy::http::serialize_request(&req);
    let expected =
        b"POST /up HTTP/1.1\r\nHost: x\r\nTransfer-Encoding: chunked\r\n\r\n5\r\nhello\r\n6\r\n world\r\n0\r\n\r\n";
    assert_eq!(bytes.as_slice(), expected.as_slice());
    let (back, used) = parser::parse_request(bytes.as_slice()).expect("must parse");
    assert_eq!(used, bytes.len());
    match back.body {
        Body::Chunked(chunks) => {
            assert_eq!(chunks.len(), 2);
            assert_eq!(chunks[0].as_slice(), b"hello".as_slice());
            assert_eq!(chunks[1].as_slice(), b" world".as_slice());
        },
        _ => panic!("wrong framing"),
    }
}

#[test]
fn parse_rejects_bad_request_line() {
    let r = parser::parse_request(b"NOT A REQUEST LINE\r\n\r\n");
    assert_eq!(r.unwrap_err(), ParseError::Malformed);
}

#[test]
fn parse_rejects_folded_header() {
    // An obsolete continuation line starts with a space; its "name" is not
    // a token, so the message is refused.
    let r = parser::parse_request(b"GET / HTTP/1.1\r\nHost: a\r\n more: x\r\n\r\n");
    assert_eq!(r.unwrap_err(), ParseError::Malformed);
}

#[test]
fn parse_incomplete_head() {
    let r = parser::parse_request(b"GET / HTTP/1.1\r\nHost: exam");
    assert_eq!(r.unwrap_err(), ParseError::Incomplete);
}

#[test]
fn parse_incomplete_body() {
    let r = parser::parse_request(b"POST / HTTP/1.1\r\nContent-Length: 10\r\n\r\nabc");
    assert_eq!(r.unwrap_err(), ParseError::Incomplete);
}

#[test]
fn parse_rejects_oversized_head() {
    let mut buf = Vec::new();
    buf.extend_from_slice(b"GET / HTTP/1.1\r\n");
    while buf.len() < 70000 {
        buf.extend_from_slice(b"X-Filler: yyyyyyyyyyyyyyyyyyyyyyyyyyyyyyyyyyyy\r\n");
    }
    buf.extend_from_slice(b"\r\n");
    let r = parser::parse_request(&buf);
    assert_eq!(r.unwrap_err(), ParseError::Malformed);
}

#[test]
fn parse_rejects_bad_chunk_framing() {
    let r = parser::parse_request(
        b"POST / HTTP/1.1\r\nTransfer-Encoding: chunked\r\n\r\n3\r\nabcX\r\n0\r\n\r\n",
    );
    assert_eq!(r.unwrap_err(), ParseError::Malformed);
}

#[test]
fn parse_response_with_length() {
    let bytes = b"HTTP/1.1 200 OK\r\nContent-Length: 2\r\n\r\nhi";
    let (resp, used) = parser::parse_response(bytes, false).expect("must parse");
    assert_eq!(used, bytes.len());
    assert_eq!(resp.status, 200);
    assert_eq!(resp.reason.as_slice(), b"OK".as_slice());
    match resp.body {
        Body::Sized(data) => assert_eq!(data.as_slice(), b"hi".as_slice()),
        _ => panic!("wrong framing"),
    }
}

#[test]
fn parse_response_reads_to_eof_on_close() {
    let bytes = b"HTTP/1.1 200 OK\r\nConnection: close\r\n\r\neverything until eof";
    let r = parser::parse_response(bytes, false);
    assert_eq!(r.unwrap_err(), ParseError::Incomplete);
    let (resp, used) = parser::parse_response(bytes, true).expect("must parse at eof");
    assert_eq!(used, bytes.len());
    match resp.body {
        Body::Sized(data) => assert_eq!(data.as_slice(), b"everything until eof".as_slice()),
        _ => panic!("wrong framing"),
    }
}

#[test]
fn parse_response_without_framing_is_empty() {
    let bytes = b"HTTP/1.1 204 No Content\r\n\r\n";
    let (resp, used) = parser::parse_response(bytes, false).expect("must parse");
    assert_eq!(used, bytes.len());
    assert_eq!(resp.status, 204);
    assert!(matches!(resp.body, Body::Empty));
}

#[test]
fn serialize_response_sets_framing() {
    let resp = Response {
        version: Version::Http11,
        status: 200,
        reason: b"OK".to_vec(),
        headers: vec![header(b"Server", b"rudy")],
        body: Body::Sized(b"abc".to_vec()),
    };
    let bytes = rudy::http::serialize_response(&resp);
    assert_eq!(
        bytes.as_slice(),
        b"HTTP/1.1 200 OK\r\nServer: rudy\r\nContent-Length: 3\r\n\r\nabc".as_slice()
    );
}

#[test]
fn decimal_codec() {
    assert_eq!(num::u64_to_dec(0).as_slice(), b"0".as_slice());
    assert_eq!(num::u64_to_dec(65536).as_slice(), b"65536".as_slice());
    assert_eq!(num::parse_dec(b"123"), Some(123));
    assert_eq!(num::parse_dec(b"007"), Some(7));
    assert_eq!(num::parse_dec(b""), None);
    assert_eq!(num::parse_dec(b"12a"), None);
    assert_eq!(num::parse_dec(b"18446744073709551615"), Some(u64::MAX));
    assert_eq!(num::parse_dec(b"18446744073709551616"), None);
}

#[test]
fn hex_codec() {
    assert_eq!(num::u64_to_hex(0).as_slice(), b"0".as_slice());
    assert_eq!(num::u64_to_hex(255).as_slice(), b"ff".as_slice());
    assert_eq!(num::u64_to_hex(4096).as_slice(), b"1000".as_slice());
    assert_eq!(num::parse_hex(b"ff"), Some(255));
    assert_eq!(num::parse_hex(b"FF"), Some(255));
    assert_eq!(num::parse_hex(b"10"), Some(16));
    assert_eq!(num::parse_hex(b"g"), None);
    assert_eq!(num::parse_hex(b""), None);
}

#[test]
fn usize_to_string_renders_decimal() {
    assert_eq!(num::usize_to_string(0), "0");
    assert_eq!(num::usize_to_string(418), "418");
}

#[test]
fn format_req_renders_request() {
    let req = Request {
        method: b"GET".to_vec(),
        target: b"/".to_vec(),
        version: Version::Http11,
        headers: vec![header(b"Host", b"example.com")],
        body: Body::Empty,
    };
    let text = rudy::inspect::format_req(&req);
    assert_eq!(
        text.as_slice(),
        b"----------\nGET / HTTP/1.1\nHost: example.com\n".as_slice()
    );
}

#[test]
fn format_req_includes_body() {
    let req = Request {
        method: b"POST".to_vec(),
        target: b"/x".to_vec(),
        version: Version::Http10,
        headers: vec![],
        body: Body::Sized(b"payload".to_vec()),
    };
    let text = rudy::inspect::format_req(&req);
    assert_eq!(
        text.as_slice(),
        b"----------\nPOST /x HTTP/1.0\nbody:\npayload".as_slice()
    );
}
