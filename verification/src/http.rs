//! HTTP/1.1 message model and codec.
//!
//! Messages are modelled as a request or status line, an insertion-ordered
//! header list, and a body that is empty, counted (`Content-Length`) or
//! chunked (`Transfer-Encoding: chunked`). The two framing headers are never
//! kept in the header list: the serialiser re-emits them from the body
//! framing it actually produces, and the parser folds them into the body.

use vstd::prelude::*;

use crate::num::{dec_bytes, hex_bytes};

verus! {

/// One header: a field name and its value, both raw bytes.
#[derive(Debug)]
pub struct Header {
    pub name: Vec<u8>,
    pub value: Vec<u8>,
}

/// Spec-level header.
pub struct HeaderModel {
    pub name: Seq<u8>,
    pub value: Seq<u8>,
}

impl View for Header {
    type V = HeaderModel;

    open spec fn view(&self) -> HeaderModel {
        (HeaderModel { name: self.name@, value: self.value@ })
    }
}

/// The two HTTP versions the proxy speaks.
#[derive(Clone, Copy, Debug, PartialEq, Eq, Structural)]
pub enum Version {
    Http10,
    Http11,
}

/// A message body together with its framing.
#[derive(Debug)]
pub enum Body {
    /// No body and no framing header.
    Empty,
    /// A counted body, framed by `Content-Length`.
    Sized(Vec<u8>),
    /// A chunked body, framed by `Transfer-Encoding: chunked`; each chunk is
    /// non-empty, the terminating empty chunk is implicit.
    Chunked(Vec<Vec<u8>>),
}

/// Spec-level body.
pub enum BodyModel {
    Empty,
    Sized(Seq<u8>),
    Chunked(Seq<Seq<u8>>),
}

impl View for Body {
    type V = BodyModel;

    open spec fn view(&self) -> BodyModel {
        match self {
            Body::Empty => BodyModel::Empty,
            Body::Sized(data) => BodyModel::Sized(data@),
            Body::Chunked(chunks) => BodyModel::Chunked(
                chunks@.map_values(|c: Vec<u8>| c@),
            ),
        }
    }
}

/// An HTTP request.
#[derive(Debug)]
pub struct Request {
    pub method: Vec<u8>,
    pub target: Vec<u8>,
    pub version: Version,
    pub headers: Vec<Header>,
    pub body: Body,
}

/// Spec-level request.
pub struct RequestModel {
    pub method: Seq<u8>,
    pub target: Seq<u8>,
    pub version: Version,
    pub headers: Seq<HeaderModel>,
    pub body: BodyModel,
}

impl View for Request {
    type V = RequestModel;

    open spec fn view(&self) -> RequestModel {
        (RequestModel {
            method: self.method@,
            target: self.target@,
            version: self.version,
            headers: self.headers@.map_values(|h: Header| h@),
            body: self.body@,
        })
    }
}

/// An HTTP response.
#[derive(Debug)]
pub struct Response {
    pub version: Version,
    pub status: u16,
    pub reason: Vec<u8>,
    pub headers: Vec<Header>,
    pub body: Body,
}

/// Spec-level response.
pub struct ResponseModel {
    pub version: Version,
    pub status: u16,
    pub reason: Seq<u8>,
    pub headers: Seq<HeaderModel>,
    pub body: BodyModel,
}

impl View for Response {
    type V = ResponseModel;

    open spec fn view(&self) -> ResponseModel {
        (ResponseModel {
            version: self.version,
            status: self.status,
            reason: self.reason@,
            headers: self.headers@.map_values(|h: Header| h@),
            body: self.body@,
        })
    }
}

// ---------------------------------------------------------------------------
// Well-formedness
// ---------------------------------------------------------------------------

/// ASCII lowercase of one byte.
pub open spec fn lower_byte(b: u8) -> u8 {
    if 65 <= b <= 90 {
        (b + 32) as u8
    } else {
        b
    }
}

/// Case-insensitive equality of two byte runs (ASCII folding).
pub open spec fn ci_eq(a: Seq<u8>, b: Seq<u8>) -> bool {
    a.len() == b.len() && forall|i: int|
        0 <= i < a.len() ==> lower_byte(#[trigger] a[i]) == lower_byte(b[i])
}

/// The bytes of `Content-Length`, lowercased.
pub open spec fn content_length_name() -> Seq<u8> {
    seq![99u8, 111u8, 110u8, 116u8, 101u8, 110u8, 116u8, 45u8, 108u8, 101u8, 110u8, 103u8, 116u8, 104u8]
}

/// The bytes of `Transfer-Encoding`, lowercased.
pub open spec fn transfer_encoding_name() -> Seq<u8> {
    seq![116u8, 114u8, 97u8, 110u8, 115u8, 102u8, 101u8, 114u8, 45u8, 101u8, 110u8, 99u8, 111u8, 100u8, 105u8, 110u8, 103u8]
}

/// Header names that carry body framing; the header list never holds them.
pub open spec fn is_framing_name(s: Seq<u8>) -> bool {
    ci_eq(s, content_length_name()) || ci_eq(s, transfer_encoding_name())
}

/// A header field name: non-empty printable ASCII without colon.
pub open spec fn wf_name(s: Seq<u8>) -> bool {
    s.len() > 0 && forall|i: int| 0 <= i < s.len() ==> 32 < #[trigger] s[i] < 127 && s[i] != 58
}

/// A header value: free of carriage return and line feed.
pub open spec fn wf_value(s: Seq<u8>) -> bool {
    forall|i: int| 0 <= i < s.len() ==> #[trigger] s[i] != 13 && s[i] != 10
}

/// A request method or target token: non-empty, no space, no control bytes.
pub open spec fn wf_token(s: Seq<u8>) -> bool {
    s.len() > 0 && forall|i: int| 0 <= i < s.len() ==> 32 < #[trigger] s[i] < 127
}

/// A reason phrase: printable ASCII and spaces, possibly empty.
pub open spec fn wf_reason(s: Seq<u8>) -> bool {
    forall|i: int| 0 <= i < s.len() ==> 32 <= #[trigger] s[i] < 127
}

/// A header list the codec can frame: well-formed fields, none of them a
/// framing header.
pub open spec fn wf_headers(hs: Seq<HeaderModel>) -> bool {
    forall|i: int| 0 <= i < hs.len() ==> wf_name(#[trigger] hs[i].name) && wf_value(hs[i].value)
        && !is_framing_name(hs[i].name)
}

/// A body the codec can frame: every chunk of a chunked body is non-empty.
pub open spec fn wf_body(b: BodyModel) -> bool {
    match b {
        BodyModel::Empty => true,
        BodyModel::Sized(_) => true,
        BodyModel::Chunked(cs) => forall|i: int| 0 <= i < cs.len() ==> #[trigger] cs[i].len() > 0,
    }
}

/// A request the codec can serialise and read back.
pub open spec fn wf_request(m: RequestModel) -> bool {
    wf_token(m.method) && wf_token(m.target) && wf_headers(m.headers) && wf_body(m.body)
}

/// A response the codec can serialise and read back.
pub open spec fn wf_response(m: ResponseModel) -> bool {
    100 <= m.status <= 999 && wf_reason(m.reason) && wf_headers(m.headers) && wf_body(m.body)
}

// ---------------------------------------------------------------------------
// Spec-level serialisation
// ---------------------------------------------------------------------------

/// The line terminator.
pub open spec fn crlf() -> Seq<u8> {
    seq![13u8, 10u8]
}

/// The bytes of one version token.
pub open spec fn version_bytes(v: Version) -> Seq<u8> {
    match v {
        Version::Http10 => seq![72u8, 84u8, 84u8, 80u8, 47u8, 49u8, 46u8, 48u8],
        Version::Http11 => seq![72u8, 84u8, 84u8, 80u8, 47u8, 49u8, 46u8, 49u8],
    }
}

/// One serialised header line: `name: value` and the terminator.
pub open spec fn ser_header(h: HeaderModel) -> Seq<u8> {
    h.name + seq![58u8, 32u8] + h.value + crlf()
}

/// The serialised header lines, in order.
pub open spec fn ser_headers(hs: Seq<HeaderModel>) -> Seq<u8>
    decreases hs.len(),
{
    if hs.len() == 0 {
        Seq::empty()
    } else {
        ser_headers(hs.drop_last()) + ser_header(hs.last())
    }
}

/// The framing header the serialiser emits for a body, if any.
pub open spec fn ser_framing(b: BodyModel) -> Seq<u8> {
    match b {
        BodyModel::Empty => Seq::empty(),
        BodyModel::Sized(data) => ser_header(
            (HeaderModel {
                name: seq![67u8, 111u8, 110u8, 116u8, 101u8, 110u8, 116u8, 45u8, 76u8, 101u8, 110u8, 103u8, 116u8, 104u8],
                value: dec_bytes(data.len()),
            }),
        ),
        BodyModel::Chunked(_) => ser_header(
            (HeaderModel {
                name: seq![84u8, 114u8, 97u8, 110u8, 115u8, 102u8, 101u8, 114u8, 45u8, 69u8, 110u8, 99u8, 111u8, 100u8, 105u8, 110u8, 103u8],
                value: seq![99u8, 104u8, 117u8, 110u8, 107u8, 101u8, 100u8],
            }),
        ),
    }
}

/// One serialised chunk: hexadecimal size line, the bytes, a terminator.
pub open spec fn ser_chunk(c: Seq<u8>) -> Seq<u8> {
    hex_bytes(c.len()) + crlf() + c + crlf()
}

/// The serialised chunks, in order.
pub open spec fn ser_chunks(cs: Seq<Seq<u8>>) -> Seq<u8>
    decreases cs.len(),
{
    if cs.len() == 0 {
        Seq::empty()
    } else {
        ser_chunks(cs.drop_last()) + ser_chunk(cs.last())
    }
}

/// The serialised body bytes that follow the head.
pub open spec fn ser_body(b: BodyModel) -> Seq<u8> {
    match b {
        BodyModel::Empty => Seq::empty(),
        BodyModel::Sized(data) => data,
        BodyModel::Chunked(cs) => ser_chunks(cs) + seq![48u8] + crlf() + crlf(),
    }
}

/// The head of a serialised request: everything before the body bytes.
pub open spec fn ser_req_head(m: RequestModel) -> Seq<u8> {
    m.method + seq![32u8] + m.target + seq![32u8] + version_bytes(m.version) + crlf()
        + ser_headers(m.headers) + ser_framing(m.body) + crlf()
}

/// The full serialisation of a request.
pub open spec fn ser_request(m: RequestModel) -> Seq<u8> {
    ser_req_head(m) + ser_body(m.body)
}

/// The serialised status line of a response.
pub open spec fn ser_status_line(m: ResponseModel) -> Seq<u8> {
    version_bytes(m.version) + seq![32u8] + dec_bytes(m.status as nat) + seq![32u8] + m.reason
        + crlf()
}

/// The head of a serialised response: everything before the body bytes.
pub open spec fn ser_resp_head(m: ResponseModel) -> Seq<u8> {
    ser_status_line(m) + ser_headers(m.headers) + ser_framing(m.body) + crlf()
}

/// The full serialisation of a response.
pub open spec fn ser_response(m: ResponseModel) -> Seq<u8> {
    ser_resp_head(m) + ser_body(m.body)
}

// ---------------------------------------------------------------------------
// Executable serialisation
// ---------------------------------------------------------------------------

/// Appends `src` to `out`.
pub(crate) fn extend_bytes(out: &mut Vec<u8>, src: &[u8])
    ensures
        final(out)@ == old(out)@ + src@,
{
    let mut i: usize = 0;
    while i < src.len()
        invariant
            0 <= i <= src@.len(),
            out@ == old(out)@ + src@.subrange(0, i as int),
        decreases src@.len() - i,
    {
        out.push(src[i]);
        proof {
            assert(old(out)@ + src@.subrange(0, i + 1) =~= (old(out)@ + src@.subrange(
                0,
                i as int,
            )).push(src@[i as int]));
        }
        i = i + 1;
    }
    proof {
        assert(src@.subrange(0, src@.len() as int) =~= src@);
    }
}

/// Appends the line terminator to `out`.
fn push_crlf(out: &mut Vec<u8>)
    ensures
        final(out)@ == old(out)@ + crlf(),
{
    out.push(13);
    out.push(10);
    proof {
        assert(out@ =~= old(out)@ + crlf());
    }
}

/// Appends one serialised header line to `out`.
fn push_header(out: &mut Vec<u8>, name: &[u8], value: &[u8])
    ensures
        final(out)@ == old(out)@ + ser_header((HeaderModel { name: name@, value: value@ })),
{
    extend_bytes(out, name);
    out.push(58);
    out.push(32);
    extend_bytes(out, value);
    push_crlf(out);
    proof {
        assert(out@ =~= old(out)@ + ser_header((HeaderModel { name: name@, value: value@ })));
    }
}

/// Appends every header line of `hs` to `out`, in order.
fn push_headers(out: &mut Vec<u8>, hs: &Vec<Header>)
    ensures
        final(out)@ == old(out)@ + ser_headers(hs@.map_values(|h: Header| h@)),
{
    let ghost hm = hs@.map_values(|h: Header| h@);
    let mut i: usize = 0;
    while i < hs.len()
        invariant
            0 <= i <= hs@.len(),
            hm == hs@.map_values(|h: Header| h@),
            out@ == old(out)@ + ser_headers(hm.subrange(0, i as int)),
        decreases hs@.len() - i,
    {
        let h = &hs[i];
        push_header(out, h.name.as_slice(), h.value.as_slice());
        proof {
            let pre = hm.subrange(0, i as int);
            let post = hm.subrange(0, i + 1);
            assert(post.drop_last() =~= pre);
            assert(post.last() == hm[i as int]);
            assert(ser_headers(post) == ser_headers(pre) + ser_header(hm[i as int]));
            assert(out@ =~= old(out)@ + ser_headers(post));
        }
        i = i + 1;
    }
    proof {
        assert(hm.subrange(0, hm.len() as int) =~= hm);
    }
}

/// Appends the framing header and the body bytes of `b` to `out`.
fn push_framing_and_body(out: &mut Vec<u8>, b: &Body)
    ensures
        final(out)@ == old(out)@ + ser_framing(b@) + crlf() + ser_body(b@),
{
    match b {
        Body::Empty => {
            push_crlf(out);
            proof {
                assert(out@ =~= old(out)@ + ser_framing(b@) + crlf() + ser_body(b@));
            }
        },
        Body::Sized(data) => {
            let len_bytes = crate::num::u64_to_dec(data.len() as u64);
            let name: [u8; 14] = [67, 111, 110, 116, 101, 110, 116, 45, 76, 101, 110, 103, 116, 104];
            push_header(out, name.as_slice(), len_bytes.as_slice());
            push_crlf(out);
            extend_bytes(out, data.as_slice());
            proof {
                assert(name@ =~= seq![67u8, 111u8, 110u8, 116u8, 101u8, 110u8, 116u8, 45u8, 76u8, 101u8, 110u8, 103u8, 116u8, 104u8]);
                assert(out@ =~= old(out)@ + ser_framing(b@) + crlf() + ser_body(b@));
            }
        },
        Body::Chunked(chunks) => {
            let name: [u8; 17] = [84, 114, 97, 110, 115, 102, 101, 114, 45, 69, 110, 99, 111, 100, 105, 110, 103];
            let value: [u8; 7] = [99, 104, 117, 110, 107, 101, 100];
            push_header(out, name.as_slice(), value.as_slice());
            push_crlf(out);
            let ghost cm = chunks@.map_values(|c: Vec<u8>| c@);
            let ghost mark = out@;
            let mut i: usize = 0;
            while i < chunks.len()
                invariant
                    0 <= i <= chunks@.len(),
                    cm == chunks@.map_values(|c: Vec<u8>| c@),
                    out@ == mark + ser_chunks(cm.subrange(0, i as int)),
                decreases chunks@.len() - i,
            {
                let c = &chunks[i];
                let size_bytes = crate::num::u64_to_hex(c.len() as u64);
                extend_bytes(out, size_bytes.as_slice());
                push_crlf(out);
                extend_bytes(out, c.as_slice());
                push_crlf(out);
                proof {
                    let pre = cm.subrange(0, i as int);
                    let post = cm.subrange(0, i + 1);
                    assert(post.drop_last() =~= pre);
                    assert(post.last() == cm[i as int]);
                    assert(ser_chunks(post) == ser_chunks(pre) + ser_chunk(cm[i as int]));
                    assert(out@ =~= mark + ser_chunks(post));
                }
                i = i + 1;
            }
            out.push(48);
            push_crlf(out);
            push_crlf(out);
            proof {
                assert(cm.subrange(0, cm.len() as int) =~= cm);
                assert(name@ =~= seq![84u8, 114u8, 97u8, 110u8, 115u8, 102u8, 101u8, 114u8, 45u8, 69u8, 110u8, 99u8, 111u8, 100u8, 105u8, 110u8, 103u8]);
                assert(value@ =~= seq![99u8, 104u8, 117u8, 110u8, 107u8, 101u8, 100u8]);
                assert(out@ =~= old(out)@ + ser_framing(b@) + crlf() + ser_body(b@));
            }
        },
    }
}

/// Serialises a request exactly as [`ser_request`] describes.
pub fn serialize_request(m: &Request) -> (r: Vec<u8>)
    ensures
        r@ == ser_request(m@),
{
    let mut out: Vec<u8> = Vec::new();
    extend_bytes(&mut out, m.method.as_slice());
    out.push(32);
    extend_bytes(&mut out, m.target.as_slice());
    out.push(32);
    let vb: [u8; 8] = match m.version {
        Version::Http10 => [72, 84, 84, 80, 47, 49, 46, 48],
        Version::Http11 => [72, 84, 84, 80, 47, 49, 46, 49],
    };
    extend_bytes(&mut out, vb.as_slice());
    push_crlf(&mut out);
    proof {
        assert(vb@ =~= version_bytes(m.version));
        assert(out@ =~= m.method@ + seq![32u8] + m.target@ + seq![32u8] + version_bytes(m.version)
            + crlf());
    }
    push_headers(&mut out, &m.headers);
    push_framing_and_body(&mut out, &m.body);
    proof {
        assert(out@ =~= ser_request(m@));
    }
    out
}

/// Serialises a response exactly as [`ser_response`] describes.
pub fn serialize_response(m: &Response) -> (r: Vec<u8>)
    ensures
        r@ == ser_response(m@),
{
    let mut out: Vec<u8> = Vec::new();
    let vb: [u8; 8] = match m.version {
        Version::Http10 => [72, 84, 84, 80, 47, 49, 46, 48],
        Version::Http11 => [72, 84, 84, 80, 47, 49, 46, 49],
    };
    extend_bytes(&mut out, vb.as_slice());
    out.push(32);
    let status_bytes = crate::num::u64_to_dec(m.status as u64);
    extend_bytes(&mut out, status_bytes.as_slice());
    out.push(32);
    extend_bytes(&mut out, m.reason.as_slice());
    push_crlf(&mut out);
    proof {
        assert(vb@ =~= version_bytes(m.version));
        assert(out@ =~= ser_status_line(m@));
    }
    push_headers(&mut out, &m.headers);
    push_framing_and_body(&mut out, &m.body);
    proof {
        assert(out@ =~= ser_response(m@));
    }
    out
}

} // verus!
