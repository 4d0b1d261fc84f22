//! Reading HTTP/1.1 messages back from bytes.
//!
//! The grammar is given by spec-level parsers with three outcomes: the
//! message and how many bytes it used, a request for more input, or a
//! refusal (answered with `400 Bad Request` and a closed connection). The
//! executable parsers return exactly what the spec parsers say, and the
//! codec's round trip law rests on them.

use vstd::prelude::*;

use crate::dispatch::find_byte;
use crate::http::{
    ci_eq, content_length_name, is_framing_name, transfer_encoding_name, version_bytes, wf_name,
    wf_reason, wf_token, wf_value, BodyModel, HeaderModel, RequestModel, ResponseModel, Version,
};
use crate::num::{dec_value, hex_value, is_dec_bytes, is_hex_bytes};

verus! {

/// The largest head (request line or status line through the blank line)
/// the codec accepts, in bytes.
pub const HEAD_LIMIT: usize = 65536;

/// The least position at or after `from` where a line terminator starts.
pub open spec fn find_crlf_at(s: Seq<u8>, from: int) -> Option<int>
    decreases s.len() - from,
{
    if from < 0 || from + 2 > s.len() {
        Option::None
    } else if s[from] == 13 && s[from + 1] == 10 {
        Option::Some(from)
    } else {
        find_crlf_at(s, from + 1)
    }
}

/// A found line terminator lies at or after `from` and fits in `s`.
pub proof fn lemma_find_crlf_bounds(s: Seq<u8>, from: int)
    ensures
        find_crlf_at(s, from) matches Option::Some(j) ==> from <= j && j + 2 <= s.len() && s[j]
            == 13 && s[j + 1] == 10,
    decreases s.len() - from,
{
    if !(from < 0 || from + 2 > s.len()) {
        if !(s[from] == 13 && s[from + 1] == 10) {
            lemma_find_crlf_bounds(s, from + 1);
        }
    }
}

/// The parts of a request line: method, target and version, exactly when
/// the line is `method SP target SP version` with well-formed tokens.
pub open spec fn parse_request_line(line: Seq<u8>) -> Option<(Seq<u8>, Seq<u8>, Version)> {
    match find_byte(line, 0, 32u8) {
        Option::None => Option::None,
        Option::Some(sp1) => match find_byte(line, sp1 + 1, 32u8) {
            Option::None => Option::None,
            Option::Some(sp2) => {
                let method = line.subrange(0, sp1);
                let target = line.subrange(sp1 + 1, sp2);
                let vers = line.subrange(sp2 + 1, line.len() as int);
                if wf_token(method) && wf_token(target) && vers == version_bytes(
                    Version::Http11,
                ) {
                    Option::Some((method, target, Version::Http11))
                } else if wf_token(method) && wf_token(target) && vers == version_bytes(
                    Version::Http10,
                ) {
                    Option::Some((method, target, Version::Http10))
                } else {
                    Option::None
                }
            },
        },
    }
}

/// One parsed header line `name: value`, exactly when the name is
/// well-formed, a single space follows the colon, and the value carries no
/// line break.
pub open spec fn parse_header_line(line: Seq<u8>) -> Option<HeaderModel> {
    match find_byte(line, 0, 58u8) {
        Option::None => Option::None,
        Option::Some(c) => {
            let name = line.subrange(0, c);
            if wf_name(name) && c + 1 < line.len() && line[c + 1] == 32 {
                let value = line.subrange(c + 2, line.len() as int);
                if wf_value(value) {
                    Option::Some((HeaderModel { name, value }))
                } else {
                    Option::None
                }
            } else {
                Option::None
            }
        },
    }
}

/// The outcome of reading the header section.
pub enum HeadParse {
    /// The headers in order, and the position just after the blank line.
    Done { headers: Seq<HeaderModel>, end: int },
    /// The input ends before the blank line.
    More,
    /// A line the grammar refuses.
    Bad,
}

/// Reads header lines from `i` until the blank line.
pub open spec fn parse_headers_spec(s: Seq<u8>, i: int) -> HeadParse
    decreases s.len() - i,
    when 0 <= i <= s.len()
    via parse_headers_spec_dec
{
    match find_crlf_at(s, i) {
        Option::None => HeadParse::More,
        Option::Some(j) => if j == i {
            (HeadParse::Done { headers: Seq::empty(), end: i + 2 })
        } else {
            match parse_header_line(s.subrange(i, j)) {
                Option::None => HeadParse::Bad,
                Option::Some(h) => match parse_headers_spec(s, j + 2) {
                    HeadParse::Done { headers, end } => (HeadParse::Done {
                        headers: seq![h] + headers,
                        end,
                    }),
                    HeadParse::More => HeadParse::More,
                    HeadParse::Bad => HeadParse::Bad,
                },
            }
        },
    }
}

#[via_fn]
proof fn parse_headers_spec_dec(s: Seq<u8>, i: int) {
    lemma_find_crlf_bounds(s, i);
}

/// The outcome of reading a chunked body.
pub enum ChunksParse {
    /// The chunks in order, and the position just after the final
    /// terminator.
    Done { chunks: Seq<Seq<u8>>, end: int },
    More,
    Bad,
}

/// Reads chunks from `i`: a hexadecimal size line, that many bytes, a
/// terminator; a zero size followed by an empty line ends the body.
pub open spec fn parse_chunks_spec(s: Seq<u8>, i: int) -> ChunksParse
    decreases s.len() - i,
    when 0 <= i <= s.len()
    via parse_chunks_spec_dec
{
    match find_crlf_at(s, i) {
        Option::None => ChunksParse::More,
        Option::Some(j) => {
            let size_run = s.subrange(i, j);
            if !is_hex_bytes(size_run) {
                ChunksParse::Bad
            } else {
                let n = hex_value(size_run) as int;
                if n == 0 {
                    if j + 4 <= s.len() {
                        if s[j + 2] == 13 && s[j + 3] == 10 {
                            (ChunksParse::Done { chunks: Seq::empty(), end: j + 4 })
                        } else {
                            ChunksParse::Bad
                        }
                    } else {
                        ChunksParse::More
                    }
                } else {
                    if j + 2 + n + 2 <= s.len() {
                        if s[j + 2 + n] == 13 && s[j + 2 + n + 1] == 10 {
                            match parse_chunks_spec(s, j + 2 + n + 2) {
                                ChunksParse::Done { chunks, end } => (ChunksParse::Done {
                                    chunks: seq![s.subrange(j + 2, j + 2 + n)] + chunks,
                                    end,
                                }),
                                ChunksParse::More => ChunksParse::More,
                                ChunksParse::Bad => ChunksParse::Bad,
                            }
                        } else {
                            ChunksParse::Bad
                        }
                    } else {
                        ChunksParse::More
                    }
                }
            }
        },
    }
}

#[via_fn]
proof fn parse_chunks_spec_dec(s: Seq<u8>, i: int) {
    lemma_find_crlf_bounds(s, i);
}

/// The headers kept on a parsed message: everything but the framing
/// fields, which the body carries instead.
pub open spec fn keep_non_framing(hs: Seq<HeaderModel>) -> Seq<HeaderModel> {
    hs.filter(|h: HeaderModel| !is_framing_name(h.name))
}

/// The first index whose header name matches `name` case-insensitively.
pub open spec fn find_header_index(hs: Seq<HeaderModel>, name: Seq<u8>, i: int) -> Option<int>
    decreases hs.len() - i,
{
    if i < 0 || i >= hs.len() {
        Option::None
    } else if ci_eq(hs[i].name, name) {
        Option::Some(i)
    } else {
        find_header_index(hs, name, i + 1)
    }
}

/// The bytes of `chunked`, lowercased.
pub open spec fn chunked_value() -> Seq<u8> {
    seq![99u8, 104u8, 117u8, 110u8, 107u8, 101u8, 100u8]
}

/// The bytes of `close`, for the response body rule.
pub open spec fn close_value() -> Seq<u8> {
    seq![99u8, 108u8, 111u8, 115u8, 101u8]
}

/// How a message's body is framed, read off the raw header section.
pub enum FramingPlan {
    NoBody,
    Counted(nat),
    ChunkedBody,
    Refused,
}

/// The framing the raw headers call for: a `Transfer-Encoding` header must
/// say `chunked`; otherwise the first `Content-Length` must be a decimal
/// run; otherwise there is no framed body.
pub open spec fn framing_plan(hs: Seq<HeaderModel>) -> FramingPlan {
    match find_header_index(hs, transfer_encoding_name(), 0) {
        Option::Some(t) => if ci_eq(hs[t].value, chunked_value()) {
            FramingPlan::ChunkedBody
        } else {
            FramingPlan::Refused
        },
        Option::None => match find_header_index(hs, content_length_name(), 0) {
            Option::Some(c) => if is_dec_bytes(hs[c].value) {
                FramingPlan::Counted(dec_value(hs[c].value))
            } else {
                FramingPlan::Refused
            },
            Option::None => FramingPlan::NoBody,
        },
    }
}

/// The outcome of reading one request.
pub enum ReqParse {
    Done { m: RequestModel, used: int },
    More,
    Bad,
}

/// Reads one full request from the start of `s`: the request line, the
/// header section (refused beyond [`HEAD_LIMIT`] bytes), then the body the
/// framing headers call for. The framing headers themselves move into the
/// body representation.
pub open spec fn parse_request_spec(s: Seq<u8>) -> ReqParse {
    match find_crlf_at(s, 0) {
        Option::None => if s.len() >= HEAD_LIMIT {
            ReqParse::Bad
        } else {
            ReqParse::More
        },
        Option::Some(j) => match parse_request_line(s.subrange(0, j)) {
            Option::None => ReqParse::Bad,
            Option::Some(rl) => match parse_headers_spec(s, j + 2) {
                HeadParse::More => if s.len() >= HEAD_LIMIT {
                    ReqParse::Bad
                } else {
                    ReqParse::More
                },
                HeadParse::Bad => ReqParse::Bad,
                HeadParse::Done { headers, end } => if end > HEAD_LIMIT {
                    ReqParse::Bad
                } else {
                    match framing_plan(headers) {
                        FramingPlan::Refused => ReqParse::Bad,
                        FramingPlan::NoBody => (ReqParse::Done {
                            m: (RequestModel {
                                method: rl.0,
                                target: rl.1,
                                version: rl.2,
                                headers: keep_non_framing(headers),
                                body: BodyModel::Empty,
                            }),
                            used: end,
                        }),
                        FramingPlan::Counted(n) => if end + n <= s.len() {
                            (ReqParse::Done {
                                m: (RequestModel {
                                    method: rl.0,
                                    target: rl.1,
                                    version: rl.2,
                                    headers: keep_non_framing(headers),
                                    body: BodyModel::Sized(s.subrange(end, end + n)),
                                }),
                                used: end + n,
                            })
                        } else {
                            ReqParse::More
                        },
                        FramingPlan::ChunkedBody => match parse_chunks_spec(s, end) {
                            ChunksParse::More => ReqParse::More,
                            ChunksParse::Bad => ReqParse::Bad,
                            ChunksParse::Done { chunks, end: bend } => (ReqParse::Done {
                                m: (RequestModel {
                                    method: rl.0,
                                    target: rl.1,
                                    version: rl.2,
                                    headers: keep_non_framing(headers),
                                    body: BodyModel::Chunked(chunks),
                                }),
                                used: bend,
                            }),
                        },
                    }
                },
            },
        },
    }
}

/// The parts of a status line: version, status and reason. The status run
/// is decimal with a value between 100 and 999; the reason, separated by
/// one space, may be empty and runs to the end of the line.
pub open spec fn parse_status_line(line: Seq<u8>) -> Option<(Version, u16, Seq<u8>)> {
    match find_byte(line, 0, 32u8) {
        Option::None => Option::None,
        Option::Some(sp1) => {
            let vers = line.subrange(0, sp1);
            let v = if vers == version_bytes(Version::Http11) {
                Option::Some(Version::Http11)
            } else if vers == version_bytes(Version::Http10) {
                Option::Some(Version::Http10)
            } else {
                Option::None
            };
            match v {
                Option::None => Option::None,
                Option::Some(vv) => match find_byte(line, sp1 + 1, 32u8) {
                    Option::Some(sp2) => {
                        let run = line.subrange(sp1 + 1, sp2);
                        let reason = line.subrange(sp2 + 1, line.len() as int);
                        if is_dec_bytes(run) && 100 <= dec_value(run) <= 999 && wf_reason(
                            reason,
                        ) {
                            Option::Some((vv, dec_value(run) as u16, reason))
                        } else {
                            Option::None
                        }
                    },
                    Option::None => {
                        let run = line.subrange(sp1 + 1, line.len() as int);
                        if is_dec_bytes(run) && 100 <= dec_value(run) <= 999 {
                            Option::Some((vv, dec_value(run) as u16, Seq::empty()))
                        } else {
                            Option::None
                        }
                    },
                },
            }
        },
    }
}

/// Whether the raw headers announce `Connection: close`.
pub open spec fn says_connection_close(hs: Seq<HeaderModel>) -> bool {
    match find_header_index(hs, crate::headers::connection_name(), 0) {
        Option::Some(i) => ci_eq(hs[i].value, close_value()),
        Option::None => false,
    }
}

/// The outcome of reading one response.
pub enum RespParse {
    Done { m: ResponseModel, used: int },
    More,
    Bad,
}

/// Reads one full response from the start of `s`. Without framing headers
/// the body runs to the end of input when `Connection: close` was
/// announced and the input is known to be complete (`eof`), and is empty
/// otherwise.
pub open spec fn parse_response_spec(s: Seq<u8>, eof: bool) -> RespParse {
    match find_crlf_at(s, 0) {
        Option::None => if s.len() >= HEAD_LIMIT {
            RespParse::Bad
        } else {
            RespParse::More
        },
        Option::Some(j) => match parse_status_line(s.subrange(0, j)) {
            Option::None => RespParse::Bad,
            Option::Some(sl) => match parse_headers_spec(s, j + 2) {
                HeadParse::More => if s.len() >= HEAD_LIMIT {
                    RespParse::Bad
                } else {
                    RespParse::More
                },
                HeadParse::Bad => RespParse::Bad,
                HeadParse::Done { headers, end } => if end > HEAD_LIMIT {
                    RespParse::Bad
                } else {
                    match framing_plan(headers) {
                        FramingPlan::Refused => RespParse::Bad,
                        FramingPlan::NoBody => if says_connection_close(headers) {
                            if eof {
                                (RespParse::Done {
                                    m: (ResponseModel {
                                        version: sl.0,
                                        status: sl.1,
                                        reason: sl.2,
                                        headers: keep_non_framing(headers),
                                        body: BodyModel::Sized(
                                            s.subrange(end, s.len() as int),
                                        ),
                                    }),
                                    used: s.len() as int,
                                })
                            } else {
                                RespParse::More
                            }
                        } else {
                            (RespParse::Done {
                                m: (ResponseModel {
                                    version: sl.0,
                                    status: sl.1,
                                    reason: sl.2,
                                    headers: keep_non_framing(headers),
                                    body: BodyModel::Empty,
                                }),
                                used: end,
                            })
                        },
                        FramingPlan::Counted(n) => if end + n <= s.len() {
                            (RespParse::Done {
                                m: (ResponseModel {
                                    version: sl.0,
                                    status: sl.1,
                                    reason: sl.2,
                                    headers: keep_non_framing(headers),
                                    body: BodyModel::Sized(s.subrange(end, end + n)),
                                }),
                                used: end + n,
                            })
                        } else {
                            RespParse::More
                        },
                        FramingPlan::ChunkedBody => match parse_chunks_spec(s, end) {
                            ChunksParse::More => RespParse::More,
                            ChunksParse::Bad => RespParse::Bad,
                            ChunksParse::Done { chunks, end: bend } => (RespParse::Done {
                                m: (ResponseModel {
                                    version: sl.0,
                                    status: sl.1,
                                    reason: sl.2,
                                    headers: keep_non_framing(headers),
                                    body: BodyModel::Chunked(chunks),
                                }),
                                used: bend,
                            }),
                        },
                    }
                },
            },
        },
    }
}



// ---------------------------------------------------------------------------
// Executable parsing
// ---------------------------------------------------------------------------

/// Why a buffer does not yet hold one full message.
#[derive(Debug, PartialEq, Eq, Structural)]
pub enum ParseError {
    /// More bytes are needed.
    Incomplete,
    /// The bytes are refused; answer `400` and close.
    Malformed,
}

/// The least position at or after `from` where a line terminator starts,
/// executably.
pub fn find_crlf_exec(s: &[u8], from: usize) -> (r: Option<usize>)
    ensures
        match r {
            Option::Some(j) => find_crlf_at(s@, from as int) == Option::Some(j as int) && from <= j
                && j + 2 <= s@.len(),
            Option::None => find_crlf_at(s@, from as int) is None,
        },
{
    let n = s.len();
    if n < 2 || from > n - 2 {
        return None;
    }
    let mut i: usize = from;
    while i <= n - 2
        invariant
            from <= i <= n,
            n >= 2,
            n == s@.len(),
            find_crlf_at(s@, from as int) == find_crlf_at(s@, i as int),
        decreases n - i,
    {
        if s[i] == 13 && s[i + 1] == 10 {
            return Some(i);
        }
        i = i + 1;
    }
    None
}

/// Whether every byte of `s` is printable and not a space.
pub fn validate_token(s: &[u8]) -> (r: bool)
    ensures
        r == wf_token(s@),
{
    if s.len() == 0 {
        return false;
    }
    let mut i: usize = 0;
    while i < s.len()
        invariant
            0 <= i <= s@.len(),
            forall|j: int| 0 <= j < i ==> 32 < #[trigger] s@[j] < 127,
        decreases s@.len() - i,
    {
        let b = s[i];
        if !(32 < b && b < 127) {
            return false;
        }
        i = i + 1;
    }
    true
}

/// Whether `s` is a well-formed header field name.
pub fn validate_name(s: &[u8]) -> (r: bool)
    ensures
        r == wf_name(s@),
{
    if s.len() == 0 {
        return false;
    }
    let mut i: usize = 0;
    while i < s.len()
        invariant
            0 <= i <= s@.len(),
            forall|j: int| 0 <= j < i ==> 32 < #[trigger] s@[j] < 127 && s@[j] != 58,
        decreases s@.len() - i,
    {
        let b = s[i];
        if !(32 < b && b < 127) || b == 58 {
            return false;
        }
        i = i + 1;
    }
    true
}

/// Whether `s` is free of line breaks.
pub fn validate_value(s: &[u8]) -> (r: bool)
    ensures
        r == wf_value(s@),
{
    let mut i: usize = 0;
    while i < s.len()
        invariant
            0 <= i <= s@.len(),
            forall|j: int| 0 <= j < i ==> #[trigger] s@[j] != 13 && s@[j] != 10,
        decreases s@.len() - i,
    {
        let b = s[i];
        if b == 13 || b == 10 {
            return false;
        }
        i = i + 1;
    }
    true
}

/// Whether `s` is printable ASCII including spaces.
pub fn validate_reason(s: &[u8]) -> (r: bool)
    ensures
        r == wf_reason(s@),
{
    let mut i: usize = 0;
    while i < s.len()
        invariant
            0 <= i <= s@.len(),
            forall|j: int| 0 <= j < i ==> 32 <= #[trigger] s@[j] < 127,
        decreases s@.len() - i,
    {
        let b = s[i];
        if !(32 <= b && b < 127) {
            return false;
        }
        i = i + 1;
    }
    true
}

/// Whether every byte of `s` is a hexadecimal digit and `s` is non-empty.
pub fn validate_hex(s: &[u8]) -> (r: bool)
    ensures
        r == is_hex_bytes(s@),
{
    if s.len() == 0 {
        return false;
    }
    let mut i: usize = 0;
    while i < s.len()
        invariant
            0 <= i <= s@.len(),
            forall|j: int| 0 <= j < i ==> crate::num::is_hex_digit(#[trigger] s@[j]),
        decreases s@.len() - i,
    {
        let b = s[i];
        if !((48 <= b && b <= 57) || (97 <= b && b <= 102) || (65 <= b && b <= 70)) {
            return false;
        }
        i = i + 1;
    }
    true
}

/// Reads the request line apart, exactly as [`parse_request_line`] says.
fn parse_request_line_exec(line: &[u8]) -> (r: Option<(Vec<u8>, Vec<u8>, Version)>)
    ensures
        match r {
            Option::Some(p) => parse_request_line(line@) == Option::Some((p.0@, p.1@, p.2)),
            Option::None => parse_request_line(line@) is None,
        },
{
    let n = line.len();
    let sp1 = match crate::dispatch::find_byte_exec(line, 0, 32) {
        Some(k) => k,
        None => {
            return None;
        },
    };
    let sp2 = match crate::dispatch::find_byte_exec(line, sp1 + 1, 32) {
        Some(k) => k,
        None => {
            return None;
        },
    };
    let method_s = vstd::slice::slice_subrange(line, 0, sp1);
    let target_s = vstd::slice::slice_subrange(line, sp1 + 1, sp2);
    let vers_s = vstd::slice::slice_subrange(line, sp2 + 1, n);
    if !validate_token(method_s) || !validate_token(target_s) {
        return None;
    }
    let v11: [u8; 8] = [72, 84, 84, 80, 47, 49, 46, 49];
    let v10: [u8; 8] = [72, 84, 84, 80, 47, 49, 46, 48];
    proof {
        assert(v11@ =~= version_bytes(Version::Http11));
        assert(v10@ =~= version_bytes(Version::Http10));
    }
    let version = if crate::dispatch::bytes_eq(vers_s, v11.as_slice()) {
        Version::Http11
    } else if crate::dispatch::bytes_eq(vers_s, v10.as_slice()) {
        Version::Http10
    } else {
        return None;
    };
    let method = crate::headers::copy_bytes(method_s);
    let target = crate::headers::copy_bytes(target_s);
    Some((method, target, version))
}

/// Reads one header line apart, exactly as [`parse_header_line`] says.
fn parse_header_line_exec(line: &[u8]) -> (r: Option<crate::http::Header>)
    ensures
        match r {
            Option::Some(h) => parse_header_line(line@) == Option::Some(h@),
            Option::None => parse_header_line(line@) is None,
        },
{
    let c = match crate::dispatch::find_byte_exec(line, 0, 58) {
        Some(k) => k,
        None => {
            return None;
        },
    };
    let n = line.len();
    let name_s = vstd::slice::slice_subrange(line, 0, c);
    if !validate_name(name_s) {
        return None;
    }
    if !(c + 1 < n) {
        return None;
    }
    if line[c + 1] != 32 {
        return None;
    }
    let value_s = vstd::slice::slice_subrange(line, c + 2, n);
    if !validate_value(value_s) {
        return None;
    }
    let name = crate::headers::copy_bytes(name_s);
    let value = crate::headers::copy_bytes(value_s);
    Some(crate::http::Header { name, value })
}

/// A parse outcome with headers accumulated in front.
pub open spec fn head_prepend(acc: Seq<HeaderModel>, hp: HeadParse) -> HeadParse {
    match hp {
        HeadParse::Done { headers, end } => (HeadParse::Done { headers: acc + headers, end }),
        HeadParse::More => HeadParse::More,
        HeadParse::Bad => HeadParse::Bad,
    }
}

/// Reads the header section, exactly as [`parse_headers_spec`] says.
fn parse_headers_exec(s: &[u8], start: usize) -> (r: Result<
    (Vec<crate::http::Header>, usize),
    ParseError,
>)
    requires
        start <= s@.len(),
    ensures
        match r {
            Result::Ok(p) => parse_headers_spec(s@, start as int) == (HeadParse::Done {
                headers: p.0@.map_values(|h: crate::http::Header| h@),
                end: p.1 as int,
            }) && start <= p.1 <= s@.len(),
            Result::Err(e) => match e {
                ParseError::Incomplete => parse_headers_spec(s@, start as int) is More,
                ParseError::Malformed => parse_headers_spec(s@, start as int) is Bad,
            },
        },
{
    let n = s.len();
    let mut acc: Vec<crate::http::Header> = Vec::new();
    let mut i: usize = start;
    proof {
        assert(acc@.map_values(|h: crate::http::Header| h@) =~= Seq::<HeaderModel>::empty());
        assert(head_prepend(
            Seq::<HeaderModel>::empty(),
            parse_headers_spec(s@, start as int),
        ) == parse_headers_spec(s@, start as int)) by {
            match parse_headers_spec(s@, start as int) {
                HeadParse::Done { headers, end } => {
                    assert(Seq::<HeaderModel>::empty() + headers =~= headers);
                },
                _ => {},
            }
        }
    }
    loop
        invariant
            start <= i <= s@.len(),
            n == s@.len(),
            parse_headers_spec(s@, start as int) == head_prepend(
                acc@.map_values(|h: crate::http::Header| h@),
                parse_headers_spec(s@, i as int),
            ),
        decreases s@.len() - i,
    {
        let ghost accm = acc@.map_values(|h: crate::http::Header| h@);
        match find_crlf_exec(s, i) {
            None => {
                return Err(ParseError::Incomplete);
            },
            Some(j) => {
                if j == i {
                    proof {
                        assert(parse_headers_spec(s@, i as int) == (HeadParse::Done {
                            headers: Seq::<HeaderModel>::empty(),
                            end: i + 2,
                        }));
                        assert(accm + Seq::<HeaderModel>::empty() =~= accm);
                    }
                    return Ok((acc, i + 2));
                }
                let line = vstd::slice::slice_subrange(s, i, j);
                match parse_header_line_exec(line) {
                    None => {
                        return Err(ParseError::Malformed);
                    },
                    Some(h) => {
                        proof {
                            let hm = h@;
                            let tail = parse_headers_spec(s@, j + 2);
                            assert(parse_headers_spec(s@, i as int) == head_prepend(
                                seq![hm],
                                tail,
                            ));
                            assert(head_prepend(accm, head_prepend(seq![hm], tail))
                                == head_prepend(accm.push(hm), tail)) by {
                                match tail {
                                    HeadParse::Done { headers, end } => {
                                        assert(accm + (seq![hm] + headers) =~= accm.push(hm)
                                            + headers);
                                    },
                                    _ => {},
                                }
                            }
                        }
                        acc.push(h);
                        proof {
                            assert(acc@.map_values(|h2: crate::http::Header| h2@) =~= accm.push(
                                h@,
                            ));
                        }
                        i = j + 2;
                    },
                }
            },
        }
    }
}

/// A chunk parse outcome with chunks accumulated in front.
pub open spec fn chunks_prepend(acc: Seq<Seq<u8>>, cp: ChunksParse) -> ChunksParse {
    match cp {
        ChunksParse::Done { chunks, end } => (ChunksParse::Done { chunks: acc + chunks, end }),
        ChunksParse::More => ChunksParse::More,
        ChunksParse::Bad => ChunksParse::Bad,
    }
}

/// Reads a chunked body, exactly as [`parse_chunks_spec`] says.
fn parse_chunks_exec(s: &[u8], start: usize) -> (r: Result<(Vec<Vec<u8>>, usize), ParseError>)
    requires
        start <= s@.len(),
    ensures
        match r {
            Result::Ok(p) => parse_chunks_spec(s@, start as int) == (ChunksParse::Done {
                chunks: p.0@.map_values(|c: Vec<u8>| c@),
                end: p.1 as int,
            }) && start <= p.1 <= s@.len(),
            Result::Err(e) => match e {
                ParseError::Incomplete => parse_chunks_spec(s@, start as int) is More,
                ParseError::Malformed => parse_chunks_spec(s@, start as int) is Bad,
            },
        },
{
    let mut acc: Vec<Vec<u8>> = Vec::new();
    let mut i: usize = start;
    proof {
        assert(acc@.map_values(|c: Vec<u8>| c@) =~= Seq::<Seq<u8>>::empty());
        assert(chunks_prepend(
            Seq::<Seq<u8>>::empty(),
            parse_chunks_spec(s@, start as int),
        ) == parse_chunks_spec(s@, start as int)) by {
            match parse_chunks_spec(s@, start as int) {
                ChunksParse::Done { chunks, end } => {
                    assert(Seq::<Seq<u8>>::empty() + chunks =~= chunks);
                },
                _ => {},
            }
        }
    }
    loop
        invariant
            start <= i <= s@.len(),
            parse_chunks_spec(s@, start as int) == chunks_prepend(
                acc@.map_values(|c: Vec<u8>| c@),
                parse_chunks_spec(s@, i as int),
            ),
        decreases s@.len() - i,
    {
        let ghost accm = acc@.map_values(|c: Vec<u8>| c@);
        let n = s.len();
        match find_crlf_exec(s, i) {
            None => {
                return Err(ParseError::Incomplete);
            },
            Some(j) => {
                let size_run = vstd::slice::slice_subrange(s, i, j);
                if !validate_hex(size_run) {
                    return Err(ParseError::Malformed);
                }
                match crate::num::parse_hex(size_run) {
                    None => {
                        // The size run denotes more bytes than any buffer can
                        // hold, so the chunk cannot be complete yet.
                        proof {
                            assert(hex_value(s@.subrange(i as int, j as int)) > u64::MAX);
                            assert(s@.len() <= usize::MAX);
                        }
                        return Err(ParseError::Incomplete);
                    },
                    Some(size) => {
                        if size == 0 {
                            if n - j - 2 >= 2 {
                                if s[j + 2] == 13 && s[j + 3] == 10 {
                                    proof {
                                        assert(parse_chunks_spec(s@, i as int)
                                            == (ChunksParse::Done {
                                            chunks: Seq::<Seq<u8>>::empty(),
                                            end: j + 4,
                                        }));
                                        assert(accm + Seq::<Seq<u8>>::empty() =~= accm);
                                    }
                                    return Ok((acc, j + 4));
                                } else {
                                    return Err(ParseError::Malformed);
                                }
                            } else {
                                return Err(ParseError::Incomplete);
                            }
                        } else {
                            let rem = n - j - 2;
                            if size > rem as u64 {
                                return Err(ParseError::Incomplete);
                            }
                            let csize = size as usize;
                            if rem - csize < 2 {
                                return Err(ParseError::Incomplete);
                            }
                            if !(s[j + 2 + csize] == 13 && s[j + 2 + csize + 1] == 10) {
                                return Err(ParseError::Malformed);
                            }
                            let chunk_s = vstd::slice::slice_subrange(s, j + 2, j + 2 + csize);
                            let chunk = crate::headers::copy_bytes(chunk_s);
                            proof {
                                let cm = chunk@;
                                let tail = parse_chunks_spec(s@, j + 2 + csize + 2);
                                assert(parse_chunks_spec(s@, i as int) == chunks_prepend(
                                    seq![cm],
                                    tail,
                                ));
                                assert(chunks_prepend(accm, chunks_prepend(seq![cm], tail))
                                    == chunks_prepend(accm.push(cm), tail)) by {
                                    match tail {
                                        ChunksParse::Done { chunks, end } => {
                                            assert(accm + (seq![cm] + chunks) =~= accm.push(cm)
                                                + chunks);
                                        },
                                        _ => {},
                                    }
                                }
                            }
                            acc.push(chunk);
                            proof {
                                assert(acc@.map_values(|c: Vec<u8>| c@) =~= accm.push(
                                    s@.subrange(j + 2, j + 2 + csize),
                                ));
                            }
                            i = j + 2 + csize + 2;
                        }
                    },
                }
            },
        }
    }
}

/// Whether every byte of `s` is a decimal digit and `s` is non-empty.
pub fn validate_dec(s: &[u8]) -> (r: bool)
    ensures
        r == is_dec_bytes(s@),
{
    if s.len() == 0 {
        return false;
    }
    let mut i: usize = 0;
    while i < s.len()
        invariant
            0 <= i <= s@.len(),
            forall|j: int| 0 <= j < i ==> 48 <= #[trigger] s@[j] <= 57,
        decreases s@.len() - i,
    {
        let b = s[i];
        if b < 48 || b > 57 {
            return false;
        }
        i = i + 1;
    }
    true
}

/// Whether `name` is a framing header name.
pub fn is_framing_name_exec(name: &[u8]) -> (r: bool)
    ensures
        r == is_framing_name(name@),
{
    let cl: [u8; 14] = [99, 111, 110, 116, 101, 110, 116, 45, 108, 101, 110, 103, 116, 104];
    let te: [u8; 17] = [116, 114, 97, 110, 115, 102, 101, 114, 45, 101, 110, 99, 111, 100, 105, 110, 103];
    proof {
        assert(cl@ =~= content_length_name());
        assert(te@ =~= transfer_encoding_name());
    }
    crate::headers::bytes_ci_eq(name, cl.as_slice()) || crate::headers::bytes_ci_eq(
        name,
        te.as_slice(),
    )
}

/// The first header whose name matches `name` case-insensitively.
fn find_header_exec(hs: &Vec<crate::http::Header>, name: &[u8]) -> (r: Option<usize>)
    ensures
        ({
            let hm = hs@.map_values(|h: crate::http::Header| h@);
            match r {
                Option::Some(k) => find_header_index(hm, name@, 0) == Option::Some(k as int) && k
                    < hs@.len(),
                Option::None => find_header_index(hm, name@, 0) is None,
            }
        }),
{
    let ghost hm = hs@.map_values(|h: crate::http::Header| h@);
    let mut i: usize = 0;
    while i < hs.len()
        invariant
            0 <= i <= hs@.len(),
            hm == hs@.map_values(|h: crate::http::Header| h@),
            find_header_index(hm, name@, 0) == find_header_index(hm, name@, i as int),
        decreases hs@.len() - i,
    {
        proof {
            assert(hm[i as int] == hs@[i as int]@);
        }
        if crate::headers::bytes_ci_eq(hs[i].name.as_slice(), name) {
            return Some(i);
        }
        i = i + 1;
    }
    None
}

/// The framing a header section calls for, as the executable parser reads
/// it.
pub enum FramingOutcome {
    NoBody,
    Counted(u64),
    /// A decimal `Content-Length` too large for any buffer here.
    CountedOverflow,
    ChunkedBody,
    Refused,
}

/// Reads the framing plan off the raw headers, exactly as [`framing_plan`]
/// says; a count beyond `u64` is reported apart.
fn framing_plan_exec(hs: &Vec<crate::http::Header>) -> (r: FramingOutcome)
    ensures
        ({
            let hm = hs@.map_values(|h: crate::http::Header| h@);
            match r {
                FramingOutcome::NoBody => framing_plan(hm) is NoBody,
                FramingOutcome::Counted(v) => framing_plan(hm) == FramingPlan::Counted(v as nat),
                FramingOutcome::CountedOverflow => framing_plan(hm) matches FramingPlan::Counted(x)
                    && x > u64::MAX,
                FramingOutcome::ChunkedBody => framing_plan(hm) is ChunkedBody,
                FramingOutcome::Refused => framing_plan(hm) is Refused,
            }
        }),
{
    let ghost hm = hs@.map_values(|h: crate::http::Header| h@);
    let te: [u8; 17] = [116, 114, 97, 110, 115, 102, 101, 114, 45, 101, 110, 99, 111, 100, 105, 110, 103];
    let cl: [u8; 14] = [99, 111, 110, 116, 101, 110, 116, 45, 108, 101, 110, 103, 116, 104];
    let chunked: [u8; 7] = [99, 104, 117, 110, 107, 101, 100];
    proof {
        assert(te@ =~= transfer_encoding_name());
        assert(cl@ =~= content_length_name());
        assert(chunked@ =~= chunked_value());
    }
    match find_header_exec(hs, te.as_slice()) {
        Some(t) => {
            proof {
                assert(hm[t as int] == hs@[t as int]@);
            }
            if crate::headers::bytes_ci_eq(hs[t].value.as_slice(), chunked.as_slice()) {
                FramingOutcome::ChunkedBody
            } else {
                FramingOutcome::Refused
            }
        },
        None => match find_header_exec(hs, cl.as_slice()) {
            Some(c) => {
                proof {
                    assert(hm[c as int] == hs@[c as int]@);
                }
                if !validate_dec(hs[c].value.as_slice()) {
                    FramingOutcome::Refused
                } else {
                    match crate::num::parse_dec(hs[c].value.as_slice()) {
                        Some(v) => FramingOutcome::Counted(v),
                        None => FramingOutcome::CountedOverflow,
                    }
                }
            },
            None => FramingOutcome::NoBody,
        },
    }
}

/// Keeps every header but the framing fields, in order.
fn keep_non_framing_exec(hs: &Vec<crate::http::Header>) -> (r: Vec<crate::http::Header>)
    ensures
        r@.map_values(|h: crate::http::Header| h@) == keep_non_framing(
            hs@.map_values(|h: crate::http::Header| h@),
        ),
{
    let ghost hm = hs@.map_values(|h: crate::http::Header| h@);
    let mut out: Vec<crate::http::Header> = Vec::new();
    let mut i: usize = 0;
    proof {
        reveal(Seq::filter);
        assert(hm.subrange(0, 0) =~= Seq::<HeaderModel>::empty());
        assert(out@.map_values(|h: crate::http::Header| h@) =~= keep_non_framing(
            hm.subrange(0, 0),
        ));
    }
    while i < hs.len()
        invariant
            0 <= i <= hs@.len(),
            hm == hs@.map_values(|h: crate::http::Header| h@),
            out@.map_values(|h: crate::http::Header| h@) == keep_non_framing(
                hm.subrange(0, i as int),
            ),
        decreases hs@.len() - i,
    {
        let keep = !is_framing_name_exec(hs[i].name.as_slice());
        proof {
            reveal(Seq::filter);
            assert(hm[i as int] == hs@[i as int]@);
            let pre = hm.subrange(0, i as int);
            let post = hm.subrange(0, i + 1);
            assert(post.drop_last() =~= pre);
            assert(post.last() == hm[i as int]);
        }
        if keep {
            let dup = crate::headers::copy_header(&hs[i]);
            out.push(dup);
            proof {
                assert(out@.map_values(|h: crate::http::Header| h@) =~= keep_non_framing(
                    hm.subrange(0, i as int),
                ).push(hm[i as int]));
            }
        }
        i = i + 1;
    }
    proof {
        assert(hm.subrange(0, hm.len() as int) =~= hm);
    }
    out
}

/// Reads one request from the start of `buf`, returning it with the number
/// of bytes it used, exactly as [`parse_request_spec`] says.
pub fn parse_request(buf: &[u8]) -> (r: Result<(crate::http::Request, usize), ParseError>)
    ensures
        match r {
            Result::Ok(p) => parse_request_spec(buf@) == (ReqParse::Done {
                m: p.0@,
                used: p.1 as int,
            }) && p.1 <= buf@.len(),
            Result::Err(e) => match e {
                ParseError::Incomplete => parse_request_spec(buf@) is More,
                ParseError::Malformed => parse_request_spec(buf@) is Bad,
            },
        },
{
    let n = buf.len();
    let j = match find_crlf_exec(buf, 0) {
        Some(j) => j,
        None => {
            if n >= HEAD_LIMIT {
                return Err(ParseError::Malformed);
            } else {
                return Err(ParseError::Incomplete);
            }
        },
    };
    let line = vstd::slice::slice_subrange(buf, 0, j);
    let (method, target, version) = match parse_request_line_exec(line) {
        Some(p) => p,
        None => {
            return Err(ParseError::Malformed);
        },
    };
    let (raw, end) = match parse_headers_exec(buf, j + 2) {
        Ok(p) => p,
        Err(ParseError::Incomplete) => {
            if n >= HEAD_LIMIT {
                return Err(ParseError::Malformed);
            } else {
                return Err(ParseError::Incomplete);
            }
        },
        Err(ParseError::Malformed) => {
            return Err(ParseError::Malformed);
        },
    };
    if end > HEAD_LIMIT {
        return Err(ParseError::Malformed);
    }
    let kept = keep_non_framing_exec(&raw);
    match framing_plan_exec(&raw) {
        FramingOutcome::Refused => Err(ParseError::Malformed),
        FramingOutcome::NoBody => {
            let m = crate::http::Request {
                method,
                target,
                version,
                headers: kept,
                body: crate::http::Body::Empty,
            };
            Ok((m, end))
        },
        FramingOutcome::CountedOverflow => {
            proof {
                assert(buf@.len() <= usize::MAX);
            }
            Err(ParseError::Incomplete)
        },
        FramingOutcome::Counted(v) => {
            let rem = n - end;
            if v > rem as u64 {
                return Err(ParseError::Incomplete);
            }
            let cv = v as usize;
            let body_s = vstd::slice::slice_subrange(buf, end, end + cv);
            let data = crate::headers::copy_bytes(body_s);
            let m = crate::http::Request {
                method,
                target,
                version,
                headers: kept,
                body: crate::http::Body::Sized(data),
            };
            Ok((m, end + cv))
        },
        FramingOutcome::ChunkedBody => {
            match parse_chunks_exec(buf, end) {
                Ok((chunks, bend)) => {
                    let m = crate::http::Request {
                        method,
                        target,
                        version,
                        headers: kept,
                        body: crate::http::Body::Chunked(chunks),
                    };
                    Ok((m, bend))
                },
                Err(e) => Err(e),
            }
        },
    }
}

/// Reads the status line apart, exactly as [`parse_status_line`] says.
fn parse_status_line_exec(line: &[u8]) -> (r: Option<(Version, u16, Vec<u8>)>)
    ensures
        match r {
            Option::Some(p) => parse_status_line(line@) == Option::Some((p.0, p.1, p.2@)),
            Option::None => parse_status_line(line@) is None,
        },
{
    let n = line.len();
    let sp1 = match crate::dispatch::find_byte_exec(line, 0, 32) {
        Some(k) => k,
        None => {
            return None;
        },
    };
    let vers_s = vstd::slice::slice_subrange(line, 0, sp1);
    let v11: [u8; 8] = [72, 84, 84, 80, 47, 49, 46, 49];
    let v10: [u8; 8] = [72, 84, 84, 80, 47, 49, 46, 48];
    proof {
        assert(v11@ =~= version_bytes(Version::Http11));
        assert(v10@ =~= version_bytes(Version::Http10));
    }
    let version = if crate::dispatch::bytes_eq(vers_s, v11.as_slice()) {
        Version::Http11
    } else if crate::dispatch::bytes_eq(vers_s, v10.as_slice()) {
        Version::Http10
    } else {
        return None;
    };
    match crate::dispatch::find_byte_exec(line, sp1 + 1, 32) {
        Some(sp2) => {
            let run = vstd::slice::slice_subrange(line, sp1 + 1, sp2);
            let reason_s = vstd::slice::slice_subrange(line, sp2 + 1, n);
            if !validate_dec(run) {
                return None;
            }
            let v = match crate::num::parse_dec(run) {
                Some(v) => v,
                None => {
                    return None;
                },
            };
            if !(100 <= v && v <= 999) {
                return None;
            }
            if !validate_reason(reason_s) {
                return None;
            }
            let reason = crate::headers::copy_bytes(reason_s);
            Some((version, v as u16, reason))
        },
        None => {
            let run = vstd::slice::slice_subrange(line, sp1 + 1, n);
            if !validate_dec(run) {
                return None;
            }
            let v = match crate::num::parse_dec(run) {
                Some(v) => v,
                None => {
                    return None;
                },
            };
            if !(100 <= v && v <= 999) {
                return None;
            }
            let reason: Vec<u8> = Vec::new();
            proof {
                assert(reason@ =~= Seq::<u8>::empty());
            }
            Some((version, v as u16, reason))
        },
    }
}

/// Whether the headers announce `Connection: close`, executably.
pub fn connection_close_announced(hs: &Vec<crate::http::Header>) -> (r: bool)
    ensures
        r == says_connection_close(hs@.map_values(|h: crate::http::Header| h@)),
{
    let ghost hm = hs@.map_values(|h: crate::http::Header| h@);
    let conn: [u8; 10] = [99, 111, 110, 110, 101, 99, 116, 105, 111, 110];
    let close: [u8; 5] = [99, 108, 111, 115, 101];
    proof {
        assert(conn@ =~= crate::headers::connection_name());
        assert(close@ =~= close_value());
    }
    match find_header_exec(hs, conn.as_slice()) {
        Some(k) => {
            proof {
                assert(hm[k as int] == hs@[k as int]@);
            }
            crate::headers::bytes_ci_eq(hs[k].value.as_slice(), close.as_slice())
        },
        None => false,
    }
}

/// Reads one response from the start of `buf`, exactly as
/// [`parse_response_spec`] says; `eof` says the input is all there will
/// be.
pub fn parse_response(buf: &[u8], eof: bool) -> (r: Result<
    (crate::http::Response, usize),
    ParseError,
>)
    ensures
        match r {
            Result::Ok(p) => parse_response_spec(buf@, eof) == (RespParse::Done {
                m: p.0@,
                used: p.1 as int,
            }) && p.1 <= buf@.len(),
            Result::Err(e) => match e {
                ParseError::Incomplete => parse_response_spec(buf@, eof) is More,
                ParseError::Malformed => parse_response_spec(buf@, eof) is Bad,
            },
        },
{
    let n = buf.len();
    let j = match find_crlf_exec(buf, 0) {
        Some(j) => j,
        None => {
            if n >= HEAD_LIMIT {
                return Err(ParseError::Malformed);
            } else {
                return Err(ParseError::Incomplete);
            }
        },
    };
    let line = vstd::slice::slice_subrange(buf, 0, j);
    let (version, status, reason) = match parse_status_line_exec(line) {
        Some(p) => p,
        None => {
            return Err(ParseError::Malformed);
        },
    };
    let (raw, end) = match parse_headers_exec(buf, j + 2) {
        Ok(p) => p,
        Err(ParseError::Incomplete) => {
            if n >= HEAD_LIMIT {
                return Err(ParseError::Malformed);
            } else {
                return Err(ParseError::Incomplete);
            }
        },
        Err(ParseError::Malformed) => {
            return Err(ParseError::Malformed);
        },
    };
    if end > HEAD_LIMIT {
        return Err(ParseError::Malformed);
    }
    let kept = keep_non_framing_exec(&raw);
    match framing_plan_exec(&raw) {
        FramingOutcome::Refused => Err(ParseError::Malformed),
        FramingOutcome::NoBody => {
            if connection_close_announced(&raw) {
                if eof {
                    let body_s = vstd::slice::slice_subrange(buf, end, n);
                    let data = crate::headers::copy_bytes(body_s);
                    let m = crate::http::Response {
                        version,
                        status,
                        reason,
                        headers: kept,
                        body: crate::http::Body::Sized(data),
                    };
                    Ok((m, n))
                } else {
                    Err(ParseError::Incomplete)
                }
            } else {
                let m = crate::http::Response {
                    version,
                    status,
                    reason,
                    headers: kept,
                    body: crate::http::Body::Empty,
                };
                Ok((m, end))
            }
        },
        FramingOutcome::CountedOverflow => {
            proof {
                assert(buf@.len() <= usize::MAX);
            }
            Err(ParseError::Incomplete)
        },
        FramingOutcome::Counted(v) => {
            let rem = n - end;
            if v > rem as u64 {
                return Err(ParseError::Incomplete);
            }
            let cv = v as usize;
            let body_s = vstd::slice::slice_subrange(buf, end, end + cv);
            let data = crate::headers::copy_bytes(body_s);
            let m = crate::http::Response {
                version,
                status,
                reason,
                headers: kept,
                body: crate::http::Body::Sized(data),
            };
            Ok((m, end + cv))
        },
        FramingOutcome::ChunkedBody => {
            match parse_chunks_exec(buf, end) {
                Ok((chunks, bend)) => {
                    let m = crate::http::Response {
                        version,
                        status,
                        reason,
                        headers: kept,
                        body: crate::http::Body::Chunked(chunks),
                    };
                    Ok((m, bend))
                },
                Err(e) => Err(e),
            }
        },
    }
}


/// Whether a further exchange may follow on this connection: neither the
/// request nor the response announced `Connection: close`.
pub fn should_keep_alive(req: &crate::http::Request, resp: &crate::http::Response) -> (r: bool)
    ensures
        r == (!says_connection_close(req@.headers) && !says_connection_close(resp@.headers)),
{
    !connection_close_announced(&req.headers) && !connection_close_announced(&resp.headers)
}

} // verus!
