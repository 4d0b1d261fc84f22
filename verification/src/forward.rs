//! Plain-forward path: rewrites an absolute-form request into origin form,
//! strips the hop-by-hop headers, and records the client behind
//! `X-Forwarded-For`, leaving a plan that names the origin to dial.

use vstd::prelude::*;

use crate::dispatch::{
    authority_spec, find_byte, find_byte_exec, http_scheme, lower_bytes, lower_bytes_spec,
    parse_authority, starts_with,
};
use crate::headers::{append_x_forwarded_for, strip_hop_by_hop, strip_hop_spec, xff_applied};
use crate::http::{Request, RequestModel};

verus! {

/// The authority and the origin-form target of an absolute-form `http://`
/// request target: the bytes after the scheme up to the first slash, and the
/// rest (a bare authority gets target `/`).
pub open spec fn split_absolute(target: Seq<u8>) -> Option<(Seq<u8>, Seq<u8>)> {
    if starts_with(target, http_scheme()) {
        let rest = target.subrange(7, target.len() as int);
        match find_byte(rest, 0, 47u8) {
            Option::Some(k) => if k > 0 {
                Option::Some((rest.subrange(0, k), rest.subrange(k, rest.len() as int)))
            } else {
                Option::None
            },
            Option::None => if rest.len() > 0 {
                Option::Some((rest, seq![47u8]))
            } else {
                Option::None
            },
        }
    } else {
        Option::None
    }
}

/// What the plain-forward path sends and where: the origin's lowercased
/// host, its port, and the rewritten outbound request.
#[derive(Debug)]
pub struct ForwardPlan {
    pub host: Vec<u8>,
    pub port: u16,
    pub outbound: Request,
}

/// Why a request cannot take the plain-forward path.
#[derive(Debug, PartialEq, Eq, Structural)]
pub enum ForwardError {
    /// The target is not an absolute `http://` URI.
    NotAbsolute,
    /// The authority in the target has no usable host and port.
    BadAuthority,
}

/// The rewrite the plain-forward path owes: the plan dials the authority of
/// the absolute-form target (port 80 unless given), and the outbound request
/// carries the origin-form target, the headers without hop-by-hop fields but
/// with the client appended to `X-Forwarded-For`, and the same method,
/// version and body.
pub open spec fn forward_plan_ok(
    m: RequestModel,
    host: Seq<u8>,
    port: u16,
    ob: RequestModel,
    client: Seq<u8>,
) -> bool {
    match split_absolute(m.target) {
        Option::Some(ao) => match authority_spec(ao.0, 80u16) {
            Option::Some(hp) => {
                &&& host == lower_bytes_spec(hp.0)
                &&& port == hp.1
                &&& ob.method == m.method
                &&& ob.target == ao.1
                &&& ob.version == m.version
                &&& xff_applied(strip_hop_spec(m.headers), ob.headers, client)
                &&& ob.body == m.body
            },
            Option::None => false,
        },
        Option::None => false,
    }
}

/// Rewrites an absolute-form request for the plain-forward path.
pub fn rewrite_plain_forward(m: Request, client: &[u8]) -> (r: Result<ForwardPlan, ForwardError>)
    ensures
        match r {
            Result::Ok(plan) => forward_plan_ok(m@, plan.host@, plan.port, plan.outbound@, client@),
            Result::Err(e) => match e {
                ForwardError::NotAbsolute => split_absolute(m@.target) is None,
                ForwardError::BadAuthority => match split_absolute(m@.target) {
                    Option::Some(ao) => authority_spec(ao.0, 80u16) is None,
                    Option::None => false,
                },
            },
        },
{
    let scheme: [u8; 7] = [104, 116, 116, 112, 58, 47, 47];
    proof {
        assert(scheme@ =~= http_scheme());
    }
    let tlen = m.target.len();
    if !(tlen >= 7 && crate::dispatch::bytes_eq(
        vstd::slice::slice_subrange(m.target.as_slice(), 0, 7),
        scheme.as_slice(),
    )) {
        proof {
            if m.target@.len() >= 7 {
                assert(m.target@.subrange(0, 7) != http_scheme());
            }
        }
        return Err(ForwardError::NotAbsolute);
    }
    let rest = vstd::slice::slice_subrange(m.target.as_slice(), 7, tlen);
    let ghost rest_g = m.target@.subrange(7, m.target@.len() as int);
    proof {
        assert(rest@ == rest_g);
        assert(m.target@.subrange(0, 7) == http_scheme());
        assert(starts_with(m.target@, http_scheme()));
    }
    let auth_end: usize;
    let mut origin: Vec<u8> = Vec::new();
    match find_byte_exec(rest, 0, 47) {
        Some(k) => {
            if k == 0 {
                return Err(ForwardError::NotAbsolute);
            }
            auth_end = k;
            let tail = vstd::slice::slice_subrange(rest, k, rest.len());
            origin = crate::headers::copy_bytes(tail);
        },
        None => {
            if rest.len() == 0 {
                return Err(ForwardError::NotAbsolute);
            }
            auth_end = rest.len();
            origin.push(47);
            proof {
                assert(origin@ =~= seq![47u8]);
            }
        },
    }
    let auth = vstd::slice::slice_subrange(rest, 0, auth_end);
    proof {
        if find_byte(rest_g, 0, 47u8) is None {
            assert(rest_g.subrange(0, rest_g.len() as int) =~= rest_g);
        }
    }
    match parse_authority(auth, 80) {
        Some((host_raw, port)) => {
            let host = lower_bytes(host_raw.as_slice());
            let stripped = strip_hop_by_hop(&m.headers);
            let with_xff = append_x_forwarded_for(&stripped, client);
            let Request { method, target: _, version, headers: _, body } = m;
            let outbound = Request { method, target: origin, version, headers: with_xff, body };
            Ok(ForwardPlan { host, port, outbound })
        },
        None => Err(ForwardError::BadAuthority),
    }
}

} // verus!
