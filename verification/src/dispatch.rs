//! Connection dispatcher: classifies the first message of a client
//! connection and parses the authority it targets.
//!
//! A `CONNECT` request starts the MITM tunnel; an absolute-form `http://`
//! target goes down the plain-forward path; anything else is answered with
//! `501 Not Implemented` and the connection is closed.

use vstd::prelude::*;

use crate::http::{lower_byte, wf_response, Body, Request, RequestModel, Response, Version};

verus! {

/// The bytes of `CONNECT`.
pub open spec fn connect_method() -> Seq<u8> {
    seq![67u8, 79u8, 78u8, 78u8, 69u8, 67u8, 84u8]
}

/// The bytes of `http://`.
pub open spec fn http_scheme() -> Seq<u8> {
    seq![104u8, 116u8, 116u8, 112u8, 58u8, 47u8, 47u8]
}

/// ASCII lowercase of a byte run.
pub open spec fn lower_bytes_spec(s: Seq<u8>) -> Seq<u8> {
    s.map_values(|b: u8| lower_byte(b))
}

/// `s` begins with `prefix`.
pub open spec fn starts_with(s: Seq<u8>, prefix: Seq<u8>) -> bool {
    s.len() >= prefix.len() && s.subrange(0, prefix.len() as int) == prefix
}

/// The least index of `b` in `s` at or after `from`.
pub open spec fn find_byte(s: Seq<u8>, from: int, b: u8) -> Option<int>
    decreases s.len() - from,
{
    if from < 0 || from >= s.len() {
        Option::None
    } else if s[from] == b {
        Option::Some(from)
    } else {
        find_byte(s, from + 1, b)
    }
}

/// The greatest index of `b` in `s`, if any.
pub open spec fn rfind_byte(s: Seq<u8>, b: u8) -> Option<int>
    decreases s.len(),
{
    if s.len() == 0 {
        Option::None
    } else if s.last() == b {
        Option::Some(s.len() - 1)
    } else {
        rfind_byte(s.drop_last(), b)
    }
}

/// An authority split into host and port: the part after the last colon is
/// the port if it is a valid decimal port number; with no colon the default
/// port applies. The host must be non-empty.
pub open spec fn authority_spec(s: Seq<u8>, default_port: u16) -> Option<(Seq<u8>, u16)> {
    match rfind_byte(s, 58u8) {
        Option::None => if s.len() > 0 {
            Option::Some((s, default_port))
        } else {
            Option::None
        },
        Option::Some(k) => {
            let port_run = s.subrange(k + 1, s.len() as int);
            if k > 0 && crate::num::is_dec_bytes(port_run) && 0 < crate::num::dec_value(port_run)
                <= 65535 {
                Option::Some((s.subrange(0, k), crate::num::dec_value(port_run) as u16))
            } else {
                Option::None
            }
        },
    }
}

/// How the dispatcher routes a connection, decided by its first request.
pub enum Route {
    /// `CONNECT host:port`: open the MITM tunnel towards this authority.
    Connect { host: Vec<u8>, port: u16 },
    /// An absolute-form `http://` target: the plain-forward path.
    PlainForward,
    /// A `CONNECT` whose target is not a usable authority: answer 400.
    BadConnect,
    /// Anything else: answer `501 Not Implemented` and close.
    NotImplemented,
}

/// Spec-level route.
pub enum RouteModel {
    Connect { host: Seq<u8>, port: u16 },
    PlainForward,
    BadConnect,
    NotImplemented,
}

impl View for Route {
    type V = RouteModel;

    open spec fn view(&self) -> RouteModel {
        match self {
            Route::Connect { host, port } => (RouteModel::Connect { host: host@, port: *port }),
            Route::PlainForward => RouteModel::PlainForward,
            Route::BadConnect => RouteModel::BadConnect,
            Route::NotImplemented => RouteModel::NotImplemented,
        }
    }
}

/// The route [`classify`] owes for a request: `CONNECT` goes to the tunnel
/// with the lowercased authority, an `http://` target goes to plain forward,
/// everything else is not implemented.
pub open spec fn route_spec(m: RequestModel) -> RouteModel {
    if m.method == connect_method() {
        match authority_spec(m.target, 443u16) {
            Option::Some(hp) => (RouteModel::Connect { host: lower_bytes_spec(hp.0), port: hp.1 }),
            Option::None => RouteModel::BadConnect,
        }
    } else if starts_with(m.target, http_scheme()) {
        RouteModel::PlainForward
    } else {
        RouteModel::NotImplemented
    }
}

/// The least index of `b` in `s` at or after `from`, executably.
pub fn find_byte_exec(s: &[u8], from: usize, b: u8) -> (r: Option<usize>)
    ensures
        match r {
            Option::Some(k) => find_byte(s@, from as int, b) == Option::Some(k as int) && from <= k
                < s@.len() && s@[k as int] == b,
            Option::None => find_byte(s@, from as int, b) is None,
        },
{
    let mut i: usize = from;
    if from >= s.len() {
        return None;
    }
    while i < s.len()
        invariant
            from <= i,
            find_byte(s@, from as int, b) == find_byte(s@, i as int, b),
        decreases s@.len() - i,
    {
        if s[i] == b {
            return Some(i);
        }
        i = i + 1;
    }
    None
}

/// The greatest index of `b` in `s`, executably.
pub fn rfind_byte_exec(s: &[u8], b: u8) -> (r: Option<usize>)
    ensures
        match r {
            Option::Some(k) => rfind_byte(s@, b) == Option::Some(k as int) && k < s@.len(),
            Option::None => rfind_byte(s@, b) is None,
        },
{
    let mut i: usize = s.len();
    proof {
        assert(s@.subrange(0, s@.len() as int) =~= s@);
    }
    while i > 0
        invariant
            0 <= i <= s@.len(),
            rfind_byte(s@, b) == rfind_byte(s@.subrange(0, i as int), b),
        decreases i,
    {
        i = i - 1;
        proof {
            assert(s@.subrange(0, i + 1).drop_last() =~= s@.subrange(0, i as int));
            assert(s@.subrange(0, i + 1).last() == s@[i as int]);
        }
        if s[i] == b {
            return Some(i);
        }
    }
    proof {
        assert(s@.subrange(0, 0) =~= Seq::<u8>::empty());
    }
    None
}

/// ASCII lowercase of a byte run, executably.
pub fn lower_bytes(s: &[u8]) -> (r: Vec<u8>)
    ensures
        r@ == lower_bytes_spec(s@),
{
    let mut out: Vec<u8> = Vec::new();
    let mut i: usize = 0;
    while i < s.len()
        invariant
            0 <= i <= s@.len(),
            out@ == lower_bytes_spec(s@.subrange(0, i as int)),
        decreases s@.len() - i,
    {
        let c = s[i];
        let l: u8 = if 65 <= c && c <= 90 {
            c + 32
        } else {
            c
        };
        out.push(l);
        proof {
            assert(out@ =~= lower_bytes_spec(s@.subrange(0, i + 1)));
        }
        i = i + 1;
    }
    proof {
        assert(s@.subrange(0, s@.len() as int) =~= s@);
    }
    out
}

/// Splits an authority into host and port, exactly as [`authority_spec`]
/// describes.
pub fn parse_authority(s: &[u8], default_port: u16) -> (r: Option<(Vec<u8>, u16)>)
    ensures
        match r {
            Option::Some(hp) => authority_spec(s@, default_port) == Option::Some(
                (hp.0@, hp.1),
            ),
            Option::None => authority_spec(s@, default_port) is None,
        },
{
    match rfind_byte_exec(s, 58) {
        None => {
            if s.len() > 0 {
                let host = crate::headers::copy_bytes(s);
                Some((host, default_port))
            } else {
                None
            }
        },
        Some(k) => {
            let n = s.len();
            proof {
                assert(k < n);
            }
            let port_slice = vstd::slice::slice_subrange(s, k + 1, n);
            match crate::num::parse_dec(port_slice) {
                Some(v) if k > 0 && 0 < v && v <= 65535 => {
                    let host_slice = vstd::slice::slice_subrange(s, 0, k);
                    let host = crate::headers::copy_bytes(host_slice);
                    Some((host, v as u16))
                },
                _ => None,
            }
        },
    }
}

/// Routes a request: `CONNECT` to the tunnel, absolute-form `http://` to
/// plain forward, everything else to `501 Not Implemented`.
pub fn classify(m: &Request) -> (r: Route)
    ensures
        r@ == route_spec(m@),
{
    let connect: [u8; 7] = [67, 79, 78, 78, 69, 67, 84];
    proof {
        assert(connect@ =~= connect_method());
    }
    if bytes_eq(m.method.as_slice(), connect.as_slice()) {
        match parse_authority(m.target.as_slice(), 443) {
            Some((host, port)) => {
                let lowered = lower_bytes(host.as_slice());
                Route::Connect { host: lowered, port }
            },
            None => Route::BadConnect,
        }
    } else {
        let scheme: [u8; 7] = [104, 116, 116, 112, 58, 47, 47];
        proof {
            assert(scheme@ =~= http_scheme());
        }
        if m.target.len() >= 7 && bytes_eq(
            vstd::slice::slice_subrange(m.target.as_slice(), 0, 7),
            scheme.as_slice(),
        ) {
            proof {
                assert(m.target@.subrange(0, 7) == http_scheme());
            }
            Route::PlainForward
        } else {
            proof {
                if m.target@.len() >= 7 {
                    assert(m.target@.subrange(0, 7) != http_scheme());
                }
            }
            Route::NotImplemented
        }
    }
}

/// Byte-for-byte equality.
pub fn bytes_eq(a: &[u8], b: &[u8]) -> (r: bool)
    ensures
        r == (a@ == b@),
{
    if a.len() != b.len() {
        proof {
            assert(a@.len() != b@.len());
        }
        return false;
    }
    let mut i: usize = 0;
    while i < a.len()
        invariant
            0 <= i <= a@.len(),
            a@.len() == b@.len(),
            forall|j: int| 0 <= j < i ==> #[trigger] a@[j] == b@[j],
        decreases a@.len() - i,
    {
        if a[i] != b[i] {
            return false;
        }
        i = i + 1;
    }
    proof {
        assert(a@ =~= b@);
    }
    true
}

/// The `501 Not Implemented` answer for a request the dispatcher refuses.
pub fn response_not_implemented() -> (r: Response)
    ensures
        r@.status == 501,
        r@.version == Version::Http11,
        r@.reason =~= seq![78u8, 111u8, 116u8, 32u8, 73u8, 109u8, 112u8, 108u8, 101u8, 109u8, 101u8, 110u8, 116u8, 101u8, 100u8],
        r@.headers.len() == 0,
        r@.body is Empty,
        wf_response(r@),
{
    let reason: [u8; 15] = [78, 111, 116, 32, 73, 109, 112, 108, 101, 109, 101, 110, 116, 101, 100];
    Response {
        version: Version::Http11,
        status: 501,
        reason: crate::headers::copy_bytes(reason.as_slice()),
        headers: Vec::new(),
        body: Body::Empty,
    }
}

/// The `400 Bad Request` answer for a malformed first message.
pub fn response_bad_request() -> (r: Response)
    ensures
        r@.status == 400,
        r@.version == Version::Http11,
        r@.reason =~= seq![66u8, 97u8, 100u8, 32u8, 82u8, 101u8, 113u8, 117u8, 101u8, 115u8, 116u8],
        r@.headers.len() == 0,
        r@.body is Empty,
        wf_response(r@),
{
    let reason: [u8; 11] = [66, 97, 100, 32, 82, 101, 113, 117, 101, 115, 116];
    Response {
        version: Version::Http11,
        status: 400,
        reason: crate::headers::copy_bytes(reason.as_slice()),
        headers: Vec::new(),
        body: Body::Empty,
    }
}

} // verus!
