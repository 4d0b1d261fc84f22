//! The inspection pipeline's data: the context handed to an observer, the
//! verdict it returns, and the flat rendering of a request that the log
//! observer emits onto its event channel.

use vstd::prelude::*;

use crate::http::{version_bytes, BodyModel, HeaderModel, Request, RequestModel, Response};

verus! {

/// What an observer learns about the session around a message.
pub struct InspectionContext {
    /// The authority the session targets, `host:port`.
    pub authority: Vec<u8>,
    /// Whether the session is intercepted TLS.
    pub mitm: bool,
}

/// An observer's answer to a request: forward it, possibly mutated, or
/// answer the client directly without contacting the origin.
pub enum HandlerVerdict {
    Forward(Request),
    ShortCircuit(Response),
}

/// A separator line.
pub open spec fn rule_line() -> Seq<u8> {
    seq![45u8, 45u8, 45u8, 45u8, 45u8, 45u8, 45u8, 45u8, 45u8, 45u8, 10u8]
}

/// The rendered header lines: `name: value`, one per line.
pub open spec fn fmt_headers(hs: Seq<HeaderModel>) -> Seq<u8>
    decreases hs.len(),
{
    if hs.len() == 0 {
        Seq::empty()
    } else {
        fmt_headers(hs.drop_last()) + hs.last().name + seq![58u8, 32u8] + hs.last().value
            + seq![10u8]
    }
}

/// The body bytes of a message, with chunked bodies joined.
pub open spec fn body_bytes(b: BodyModel) -> Seq<u8> {
    match b {
        BodyModel::Empty => Seq::empty(),
        BodyModel::Sized(data) => data,
        BodyModel::Chunked(cs) => join_chunks(cs),
    }
}

/// Chunks joined in order.
pub open spec fn join_chunks(cs: Seq<Seq<u8>>) -> Seq<u8>
    decreases cs.len(),
{
    if cs.len() == 0 {
        Seq::empty()
    } else {
        join_chunks(cs.drop_last()) + cs.last()
    }
}

/// The rendering of one request: a separator, the request line, the
/// headers, then the body under a `body:` marker when there is one.
pub open spec fn format_req_spec(m: RequestModel) -> Seq<u8> {
    rule_line() + m.method + seq![32u8] + m.target + seq![32u8] + version_bytes(m.version)
        + seq![10u8] + fmt_headers(m.headers) + (if m.body is Empty {
        Seq::<u8>::empty()
    } else {
        seq![98u8, 111u8, 100u8, 121u8, 58u8, 10u8] + body_bytes(m.body)
    })
}

/// Renders a request for the inspection log, as [`format_req_spec`] lays
/// it out.
pub fn format_req(m: &Request) -> (r: Vec<u8>)
    ensures
        r@ == format_req_spec(m@),
{
    let mut out: Vec<u8> = Vec::new();
    let rule: [u8; 11] = [45, 45, 45, 45, 45, 45, 45, 45, 45, 45, 10];
    crate::http::extend_bytes(&mut out, rule.as_slice());
    crate::http::extend_bytes(&mut out, m.method.as_slice());
    out.push(32);
    crate::http::extend_bytes(&mut out, m.target.as_slice());
    out.push(32);
    let vb: [u8; 8] = match m.version {
        crate::http::Version::Http10 => [72, 84, 84, 80, 47, 49, 46, 48],
        crate::http::Version::Http11 => [72, 84, 84, 80, 47, 49, 46, 49],
    };
    crate::http::extend_bytes(&mut out, vb.as_slice());
    out.push(10);
    proof {
        assert(rule@ =~= rule_line());
        assert(vb@ =~= version_bytes(m.version));
        assert(out@ =~= rule_line() + m.method@ + seq![32u8] + m.target@ + seq![32u8]
            + version_bytes(m.version) + seq![10u8]);
    }
    let ghost head = out@;
    let ghost hm = m.headers@.map_values(|h: crate::http::Header| h@);
    let mut i: usize = 0;
    proof {
        assert(hm.subrange(0, 0) =~= Seq::<HeaderModel>::empty());
    }
    while i < m.headers.len()
        invariant
            0 <= i <= m.headers@.len(),
            hm == m.headers@.map_values(|h: crate::http::Header| h@),
            out@ == head + fmt_headers(hm.subrange(0, i as int)),
        decreases m.headers@.len() - i,
    {
        crate::http::extend_bytes(&mut out, m.headers[i].name.as_slice());
        out.push(58);
        out.push(32);
        crate::http::extend_bytes(&mut out, m.headers[i].value.as_slice());
        out.push(10);
        proof {
            assert(hm[i as int] == m.headers@[i as int]@);
            let pre = hm.subrange(0, i as int);
            let post = hm.subrange(0, i + 1);
            assert(post.drop_last() =~= pre);
            assert(post.last() == hm[i as int]);
            assert(out@ =~= head + fmt_headers(post));
        }
        i = i + 1;
    }
    proof {
        assert(hm.subrange(0, hm.len() as int) =~= hm);
    }
    match &m.body {
        crate::http::Body::Empty => {},
        crate::http::Body::Sized(data) => {
            let marker: [u8; 6] = [98, 111, 100, 121, 58, 10];
            crate::http::extend_bytes(&mut out, marker.as_slice());
            crate::http::extend_bytes(&mut out, data.as_slice());
            proof {
                assert(marker@ =~= seq![98u8, 111u8, 100u8, 121u8, 58u8, 10u8]);
            }
        },
        crate::http::Body::Chunked(chunks) => {
            let marker: [u8; 6] = [98, 111, 100, 121, 58, 10];
            crate::http::extend_bytes(&mut out, marker.as_slice());
            let ghost cm = chunks@.map_values(|c: Vec<u8>| c@);
            let ghost mark = out@;
            let mut j: usize = 0;
            proof {
                assert(cm.subrange(0, 0) =~= Seq::<Seq<u8>>::empty());
            }
            while j < chunks.len()
                invariant
                    0 <= j <= chunks@.len(),
                    cm == chunks@.map_values(|c: Vec<u8>| c@),
                    out@ == mark + join_chunks(cm.subrange(0, j as int)),
                decreases chunks@.len() - j,
            {
                crate::http::extend_bytes(&mut out, chunks[j].as_slice());
                proof {
                    assert(cm[j as int] == chunks@[j as int]@);
                    let pre = cm.subrange(0, j as int);
                    let post = cm.subrange(0, j + 1);
                    assert(post.drop_last() =~= pre);
                    assert(post.last() == cm[j as int]);
                    assert(out@ =~= mark + join_chunks(post));
                }
                j = j + 1;
            }
            proof {
                assert(cm.subrange(0, cm.len() as int) =~= cm);
                assert(marker@ =~= seq![98u8, 111u8, 100u8, 121u8, 58u8, 10u8]);
            }
        },
    }
    proof {
        assert(out@ =~= format_req_spec(m@));
    }
    out
}

} // verus!
