//! Header-list operations used when a message is forwarded: case-insensitive
//! lookup, hop-by-hop stripping, and the `X-Forwarded-For` annotation.

use vstd::prelude::*;

use crate::http::{ci_eq, lower_byte, Header, HeaderModel};

verus! {

/// The bytes of `connection`, lowercased.
pub open spec fn connection_name() -> Seq<u8> {
    seq![99u8, 111u8, 110u8, 110u8, 101u8, 99u8, 116u8, 105u8, 111u8, 110u8]
}

/// The bytes of `proxy-connection`, lowercased.
pub open spec fn proxy_connection_name() -> Seq<u8> {
    seq![112u8, 114u8, 111u8, 120u8, 121u8, 45u8, 99u8, 111u8, 110u8, 110u8, 101u8, 99u8, 116u8, 105u8, 111u8, 110u8]
}

/// The bytes of `keep-alive`, lowercased.
pub open spec fn keep_alive_name() -> Seq<u8> {
    seq![107u8, 101u8, 101u8, 112u8, 45u8, 97u8, 108u8, 105u8, 118u8, 101u8]
}

/// The bytes of `te`, lowercased.
pub open spec fn te_name() -> Seq<u8> {
    seq![116u8, 101u8]
}

/// The bytes of `trailer`, lowercased.
pub open spec fn trailer_name() -> Seq<u8> {
    seq![116u8, 114u8, 97u8, 105u8, 108u8, 101u8, 114u8]
}

/// The bytes of `upgrade`, lowercased.
pub open spec fn upgrade_name() -> Seq<u8> {
    seq![117u8, 112u8, 103u8, 114u8, 97u8, 100u8, 101u8]
}

/// The bytes of `x-forwarded-for`, lowercased.
pub open spec fn xff_name() -> Seq<u8> {
    seq![120u8, 45u8, 102u8, 111u8, 114u8, 119u8, 97u8, 114u8, 100u8, 101u8, 100u8, 45u8, 102u8, 111u8, 114u8]
}

/// A hop-by-hop field name: meaningful to one connection only, never
/// forwarded. `Transfer-Encoding` and `Content-Length` are covered by the
/// codec, which keeps framing headers out of the header list altogether.
pub open spec fn is_hop_by_hop(name: Seq<u8>) -> bool {
    ||| ci_eq(name, connection_name())
    ||| ci_eq(name, proxy_connection_name())
    ||| ci_eq(name, keep_alive_name())
    ||| ci_eq(name, te_name())
    ||| ci_eq(name, trailer_name())
    ||| ci_eq(name, upgrade_name())
}

/// The header list holds a field whose name matches `name` case-insensitively.
pub open spec fn has_header(hs: Seq<HeaderModel>, name: Seq<u8>) -> bool {
    exists|i: int| 0 <= i < hs.len() && ci_eq(#[trigger] hs[i].name, name)
}

/// The forwarded form of a header list: the hop-by-hop fields removed, the
/// rest kept in order.
pub open spec fn strip_hop_spec(hs: Seq<HeaderModel>) -> Seq<HeaderModel> {
    hs.filter(|h: HeaderModel| !is_hop_by_hop(h.name))
}

/// Case-insensitive equality of two byte runs.
pub fn bytes_ci_eq(a: &[u8], b: &[u8]) -> (r: bool)
    ensures
        r == ci_eq(a@, b@),
{
    if a.len() != b.len() {
        return false;
    }
    let mut i: usize = 0;
    while i < a.len()
        invariant
            0 <= i <= a@.len(),
            a@.len() == b@.len(),
            forall|j: int| 0 <= j < i ==> lower_byte(#[trigger] a@[j]) == lower_byte(b@[j]),
        decreases a@.len() - i,
    {
        let x = a[i];
        let y = b[i];
        let xl: u8 = if 65 <= x && x <= 90 {
            x + 32
        } else {
            x
        };
        let yl: u8 = if 65 <= y && y <= 90 {
            y + 32
        } else {
            y
        };
        if xl != yl {
            return false;
        }
        i = i + 1;
    }
    true
}

/// Whether `name` is one of the hop-by-hop field names.
pub fn is_hop_by_hop_name(name: &[u8]) -> (r: bool)
    ensures
        r == is_hop_by_hop(name@),
{
    let connection: [u8; 10] = [99, 111, 110, 110, 101, 99, 116, 105, 111, 110];
    let proxy_connection: [u8; 16] = [112, 114, 111, 120, 121, 45, 99, 111, 110, 110, 101, 99, 116, 105, 111, 110];
    let keep_alive: [u8; 10] = [107, 101, 101, 112, 45, 97, 108, 105, 118, 101];
    let te: [u8; 2] = [116, 101];
    let trailer: [u8; 7] = [116, 114, 97, 105, 108, 101, 114];
    let upgrade: [u8; 7] = [117, 112, 103, 114, 97, 100, 101];
    proof {
        assert(connection@ =~= connection_name());
        assert(proxy_connection@ =~= proxy_connection_name());
        assert(keep_alive@ =~= keep_alive_name());
        assert(te@ =~= te_name());
        assert(trailer@ =~= trailer_name());
        assert(upgrade@ =~= upgrade_name());
    }
    bytes_ci_eq(name, connection.as_slice()) || bytes_ci_eq(name, proxy_connection.as_slice())
        || bytes_ci_eq(name, keep_alive.as_slice()) || bytes_ci_eq(name, te.as_slice())
        || bytes_ci_eq(name, trailer.as_slice()) || bytes_ci_eq(name, upgrade.as_slice())
}

/// A copy of a byte run.
pub fn copy_bytes(src: &[u8]) -> (r: Vec<u8>)
    ensures
        r@ == src@,
{
    let mut out: Vec<u8> = Vec::new();
    let mut i: usize = 0;
    while i < src.len()
        invariant
            0 <= i <= src@.len(),
            out@ == src@.subrange(0, i as int),
        decreases src@.len() - i,
    {
        out.push(src[i]);
        proof {
            assert(out@ =~= src@.subrange(0, i + 1));
        }
        i = i + 1;
    }
    proof {
        assert(out@ =~= src@);
    }
    out
}

/// A copy of one header.
pub fn copy_header(h: &Header) -> (r: Header)
    ensures
        r@ == h@,
{
    Header { name: copy_bytes(h.name.as_slice()), value: copy_bytes(h.value.as_slice()) }
}

/// Removes the hop-by-hop fields, keeping the rest in order.
pub fn strip_hop_by_hop(hs: &Vec<Header>) -> (r: Vec<Header>)
    ensures
        r@.map_values(|h: Header| h@) == strip_hop_spec(hs@.map_values(|h: Header| h@)),
{
    let ghost hm = hs@.map_values(|h: Header| h@);
    let mut out: Vec<Header> = Vec::new();
    let mut i: usize = 0;
    proof {
        reveal(Seq::filter);
        assert(hm.subrange(0, 0) =~= Seq::<HeaderModel>::empty());
        assert(out@.map_values(|h: Header| h@) =~= strip_hop_spec(hm.subrange(0, 0)));
    }
    while i < hs.len()
        invariant
            0 <= i <= hs@.len(),
            hm == hs@.map_values(|h: Header| h@),
            out@.map_values(|h: Header| h@) == strip_hop_spec(hm.subrange(0, i as int)),
        decreases hs@.len() - i,
    {
        let keep = !is_hop_by_hop_name(hs[i].name.as_slice());
        proof {
            reveal(Seq::filter);
            let pre = hm.subrange(0, i as int);
            let post = hm.subrange(0, i + 1);
            assert(post.drop_last() =~= pre);
            assert(post.last() == hm[i as int]);
        }
        if keep {
            let dup = copy_header(&hs[i]);
            out.push(dup);
            proof {
                assert(out@.map_values(|h: Header| h@) =~= strip_hop_spec(
                    hm.subrange(0, i as int),
                ).push(hm[i as int]));
            }
        }
        i = i + 1;
    }
    proof {
        assert(hm.subrange(0, hm.len() as int) =~= hm);
    }
    out
}

/// No hop-by-hop field, and in particular no `Connection` field, survives
/// [`strip_hop_by_hop`]; every other field is kept, in order.
pub proof fn lemma_stripped_has_no_hop_by_hop(hs: Seq<HeaderModel>)
    ensures
        forall|i: int| 0 <= i < strip_hop_spec(hs).len() ==> !is_hop_by_hop(
            #[trigger] strip_hop_spec(hs)[i].name,
        ),
        !has_header(strip_hop_spec(hs), connection_name()),
        strip_hop_spec(hs) == hs.filter(|h: HeaderModel| !is_hop_by_hop(h.name)),
{
    let pred = |h: HeaderModel| !is_hop_by_hop(h.name);
    assert forall|i: int| 0 <= i < strip_hop_spec(hs).len() implies !is_hop_by_hop(
        #[trigger] strip_hop_spec(hs)[i].name,
    ) by {
        hs.lemma_filter_pred(pred, i);
    }
    assert forall|i: int| 0 <= i < strip_hop_spec(hs).len() implies !ci_eq(
        #[trigger] strip_hop_spec(hs)[i].name,
        connection_name(),
    ) by {
        hs.lemma_filter_pred(pred, i);
    }
}

/// How a header list with the client address appended relates to the list
/// before: if an `X-Forwarded-For` field exists, `", "` and the address
/// were appended to one of them; otherwise the field was added at the end.
pub open spec fn xff_applied(hm: Seq<HeaderModel>, rm: Seq<HeaderModel>, client: Seq<u8>) -> bool {
    if has_header(hm, xff_name()) {
        exists|i: int|
            {
                &&& 0 <= i < hm.len()
                &&& ci_eq(#[trigger] hm[i].name, xff_name())
                &&& rm == hm.update(
                    i,
                    (HeaderModel {
                        name: hm[i].name,
                        value: hm[i].value + seq![44u8, 32u8] + client,
                    }),
                )
            }
    } else {
        rm == hm.push((HeaderModel { name: xff_canonical(), value: client }))
    }
}

/// Appends the client address to the `X-Forwarded-For` list: if such a field
/// exists, `", "` and the address are appended to the first one; otherwise
/// the field is added at the end.
pub fn append_x_forwarded_for(hs: &Vec<Header>, client: &[u8]) -> (r: Vec<Header>)
    ensures
        xff_applied(hs@.map_values(|h: Header| h@), r@.map_values(|h: Header| h@), client@),
{
    let xff: [u8; 15] = [120, 45, 102, 111, 114, 119, 97, 114, 100, 101, 100, 45, 102, 111, 114];
    proof {
        assert(xff@ =~= xff_name());
    }
    let ghost hm = hs@.map_values(|h: Header| h@);
    let mut out: Vec<Header> = Vec::new();
    let mut i: usize = 0;
    let mut appended: bool = false;
    let ghost mut hit: int = 0int;
    while i < hs.len()
        invariant
            0 <= i <= hs@.len(),
            hm == hs@.map_values(|h: Header| h@),
            xff@ == xff_name(),
            out@.len() == i,
            !appended ==> out@.map_values(|h: Header| h@) == hm.subrange(0, i as int),
            !appended ==> forall|j: int| 0 <= j < i ==> !ci_eq(#[trigger] hm[j].name, xff_name()),
            appended ==> {
                &&& 0 <= hit < i
                &&& ci_eq(hm[hit].name, xff_name())
                &&& out@.map_values(|h: Header| h@) == hm.subrange(0, i as int).update(
                    hit,
                    (HeaderModel {
                        name: hm[hit].name,
                        value: hm[hit].value + seq![44u8, 32u8] + client@,
                    }),
                )
            },
        decreases hs@.len() - i,
    {
        let h = &hs[i];
        proof {
            assert(hm[i as int] == hs@[i as int]@);
        }
        if !appended && bytes_ci_eq(h.name.as_slice(), xff.as_slice()) {
            let mut value = copy_bytes(h.value.as_slice());
            value.push(44);
            value.push(32);
            let mut k: usize = 0;
            let ghost base = value@;
            while k < client.len()
                invariant
                    0 <= k <= client@.len(),
                    value@ == base + client@.subrange(0, k as int),
                decreases client@.len() - k,
            {
                value.push(client[k]);
                proof {
                    assert(value@ =~= base + client@.subrange(0, k + 1));
                }
                k = k + 1;
            }
            proof {
                assert(value@ =~= hm[i as int].value + seq![44u8, 32u8] + client@);
            }
            let name = copy_bytes(h.name.as_slice());
            out.push(Header { name, value });
            proof {
                hit = i as int;
                assert(out@.map_values(|h: Header| h@) =~= hm.subrange(0, i + 1).update(
                    i as int,
                    (HeaderModel {
                        name: hm[i as int].name,
                        value: hm[i as int].value + seq![44u8, 32u8] + client@,
                    }),
                ));
            }
            appended = true;
        } else {
            let dup = copy_header(h);
            out.push(dup);
            proof {
                if appended {
                    let x = (HeaderModel {
                        name: hm[hit].name,
                        value: hm[hit].value + seq![44u8, 32u8] + client@,
                    });
                    assert(out@.map_values(|h: Header| h@) =~= hm.subrange(0, i as int).update(
                        hit,
                        x,
                    ).push(hm[i as int]));
                    assert(hm.subrange(0, i as int).update(hit, x).push(hm[i as int]) =~= hm
                        .subrange(0, i + 1)
                        .update(hit, x));
                } else {
                    assert(out@.map_values(|h: Header| h@) =~= hm.subrange(0, i + 1));
                }
            }
        }
        i = i + 1;
    }
    proof {
        assert(hm.subrange(0, hm.len() as int) =~= hm);
    }
    if !appended {
        let name_canonical: [u8; 15] = [88, 45, 70, 111, 114, 119, 97, 114, 100, 101, 100, 45, 70, 111, 114];
        let name = copy_bytes(name_canonical.as_slice());
        let value = copy_bytes(client);
        out.push(Header { name, value });
        proof {
            assert(name_canonical@ =~= xff_canonical());
            assert(out@.map_values(|h: Header| h@) =~= hm.push(
                (HeaderModel { name: xff_canonical(), value: client@ }),
            ));
            assert(forall|j: int| 0 <= j < hm.len() ==> !ci_eq(#[trigger] hm[j].name, xff_name()));
        }
    }
    out
}

/// The canonical spelling `X-Forwarded-For` used when the field is added.
pub open spec fn xff_canonical() -> Seq<u8> {
    seq![88u8, 45u8, 70u8, 111u8, 114u8, 119u8, 97u8, 114u8, 100u8, 101u8, 100u8, 45u8, 70u8, 111u8, 114u8]
}

/// A byte run `suffix` stands at the end of `s`.
pub open spec fn ends_with(s: Seq<u8>, suffix: Seq<u8>) -> bool {
    s.len() >= suffix.len() && s.subrange(s.len() - suffix.len(), s.len() as int) == suffix
}

/// After [`append_x_forwarded_for`], some `X-Forwarded-For` field ends with
/// the client address.
pub proof fn lemma_xff_present(hm: Seq<HeaderModel>, rm: Seq<HeaderModel>, client: Seq<u8>)
    requires
        xff_applied(hm, rm, client),
    ensures
        exists|i: int|
            0 <= i < rm.len() && ci_eq(#[trigger] rm[i].name, xff_name()) && ends_with(
                rm[i].value,
                client,
            ),
{
    if has_header(hm, xff_name()) {
        let i = choose|i: int|
            0 <= i < hm.len() && ci_eq(#[trigger] hm[i].name, xff_name()) && rm == hm.update(
                i,
                (HeaderModel {
                    name: hm[i].name,
                    value: hm[i].value + seq![44u8, 32u8] + client,
                }),
            );
        assert(rm[i].value =~= hm[i].value + seq![44u8, 32u8] + client);
        assert(rm[i].value.subrange(rm[i].value.len() - client.len(), rm[i].value.len() as int)
            =~= client);
        assert(0 <= i < rm.len() && ci_eq(rm[i].name, xff_name()) && ends_with(
            rm[i].value,
            client,
        ));
    } else {
        let i = rm.len() - 1;
        assert(rm[i].name == xff_canonical());
        assert(ci_eq(rm[i].name, xff_name()));
        assert(rm[i].value =~= client);
        assert(rm[i].value.subrange(rm[i].value.len() - client.len(), rm[i].value.len() as int)
            =~= client);
        assert(0 <= i < rm.len() && ci_eq(rm[i].name, xff_name()) && ends_with(
            rm[i].value,
            client,
        ));
    }
}

} // verus!
