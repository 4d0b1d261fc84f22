//! The codec's round trip: reading a serialised request back yields the
//! same message.

use vstd::prelude::*;

use crate::dispatch::find_byte;
use crate::http::{
    ci_eq, content_length_name, crlf, is_framing_name, ser_body, ser_framing, ser_header,
    ser_headers, ser_req_head, ser_request, transfer_encoding_name, version_bytes, wf_headers,
    wf_name, wf_request, wf_value, BodyModel, HeaderModel, RequestModel, ResponseModel, Version,
};
use crate::num::{dec_bytes, hex_bytes, hex_value, is_hex_bytes};
use crate::parser::{
    chunked_value, find_crlf_at, find_header_index, framing_plan, head_prepend, keep_non_framing,
    parse_chunks_spec, parse_header_line, parse_headers_spec, parse_request_line,
    parse_request_spec, ChunksParse, FramingPlan, HeadParse, ReqParse, HEAD_LIMIT,
};

verus! {

/// The first line terminator after `start` sits just past `len` bytes free
/// of carriage returns.
proof fn lemma_first_crlf(s: Seq<u8>, start: int, len: int)
    requires
        0 <= start,
        0 <= len,
        start + len + 2 <= s.len(),
        forall|i: int| start <= i < start + len ==> #[trigger] s[i] != 13,
        s[start + len] == 13,
        s[start + len + 1] == 10,
    ensures
        find_crlf_at(s, start) == Option::Some(start + len),
    decreases len,
{
    if len > 0 {
        lemma_first_crlf(s, start + 1, len - 1);
    }
}

/// `find_byte` lands on the first occurrence.
proof fn lemma_find_byte_some(s: Seq<u8>, from: int, k: int, b: u8)
    requires
        0 <= from <= k < s.len(),
        s[k] == b,
        forall|i: int| from <= i < k ==> #[trigger] s[i] != b,
    ensures
        find_byte(s, from, b) == Option::Some(k),
    decreases k - from,
{
    if from < k {
        lemma_find_byte_some(s, from + 1, k, b);
    }
}

/// `find_byte` finds nothing where nothing occurs.
proof fn lemma_find_byte_none(s: Seq<u8>, from: int, b: u8)
    requires
        0 <= from,
        forall|i: int| from <= i < s.len() ==> #[trigger] s[i] != b,
    ensures
        find_byte(s, from, b) is None,
    decreases s.len() - from,
{
    if from < s.len() {
        lemma_find_byte_none(s, from + 1, b);
    }
}

/// Serialising a concatenation of header lists concatenates the bytes.
proof fn lemma_ser_headers_concat(a: Seq<HeaderModel>, b: Seq<HeaderModel>)
    ensures
        ser_headers(a + b) == ser_headers(a) + ser_headers(b),
    decreases b.len(),
{
    if b.len() == 0 {
        assert(a + b =~= a);
        assert(ser_headers(a) + ser_headers(b) =~= ser_headers(a));
    } else {
        lemma_ser_headers_concat(a, b.drop_last());
        assert((a + b).drop_last() =~= a + b.drop_last());
        assert((a + b).last() == b.last());
        assert(ser_headers(a) + ser_headers(b.drop_last()) + ser_header(b.last()) =~= ser_headers(
            a,
        ) + (ser_headers(b.drop_last()) + ser_header(b.last())));
    }
}

/// One header list decomposes at its first element.
proof fn lemma_ser_headers_first(hs: Seq<HeaderModel>)
    requires
        hs.len() > 0,
    ensures
        ser_headers(hs) == ser_header(hs[0]) + ser_headers(hs.drop_first()),
    decreases hs.len(),
{
    let single = seq![hs[0]];
    assert(hs =~= single + hs.drop_first());
    lemma_ser_headers_concat(single, hs.drop_first());
    lemma_ser_headers_single(hs[0]);
}

/// Serialising one header is one header line.
proof fn lemma_ser_headers_single(h: HeaderModel)
    ensures
        ser_headers(seq![h]) == ser_header(h),
{
    let single = seq![h];
    assert(single.len() == 1);
    assert(single.drop_last() =~= Seq::<HeaderModel>::empty());
    assert(single.drop_last().len() == 0);
    assert(ser_headers(single.drop_last()) =~= Seq::<u8>::empty());
    assert(single.last() == h);
    assert(ser_headers(single) =~= Seq::<u8>::empty() + ser_header(h));
    assert(Seq::<u8>::empty() + ser_header(h) =~= ser_header(h));
}

/// The framing header the serialiser emits, as a parsed header.
pub open spec fn framing_models(b: BodyModel) -> Seq<HeaderModel> {
    match b {
        BodyModel::Empty => Seq::empty(),
        BodyModel::Sized(data) => seq![
            (HeaderModel {
                name: seq![67u8, 111u8, 110u8, 116u8, 101u8, 110u8, 116u8, 45u8, 76u8, 101u8, 110u8, 103u8, 116u8, 104u8],
                value: dec_bytes(data.len()),
            }),
        ],
        BodyModel::Chunked(_) => seq![
            (HeaderModel {
                name: seq![84u8, 114u8, 97u8, 110u8, 115u8, 102u8, 101u8, 114u8, 45u8, 69u8, 110u8, 99u8, 111u8, 100u8, 105u8, 110u8, 103u8],
                value: seq![99u8, 104u8, 117u8, 110u8, 107u8, 101u8, 100u8],
            }),
        ],
    }
}

/// The serialised framing header is one more header line.
proof fn lemma_ser_framing_as_headers(b: BodyModel)
    ensures
        ser_framing(b) == ser_headers(framing_models(b)),
{
    match b {
        BodyModel::Empty => {
            assert(ser_headers(framing_models(b)) =~= ser_framing(b));
        },
        BodyModel::Sized(data) => {
            let fm = framing_models(b);
            assert(fm =~= seq![fm[0]]);
            lemma_ser_headers_single(fm[0]);
        },
        BodyModel::Chunked(_) => {
            let fm = framing_models(b);
            assert(fm =~= seq![fm[0]]);
            lemma_ser_headers_single(fm[0]);
        },
    }
}

/// Reading back one serialised header line yields the header.
proof fn lemma_parse_header_line_of(h: HeaderModel)
    requires
        wf_name(h.name),
        wf_value(h.value),
    ensures
        parse_header_line(h.name + seq![58u8, 32u8] + h.value) == Option::Some(h),
{
    let line = h.name + seq![58u8, 32u8] + h.value;
    let c = h.name.len() as int;
    assert(line[c] == 58);
    assert(forall|i: int| 0 <= i < c ==> #[trigger] line[i] != 58);
    lemma_find_byte_some(line, 0, c, 58);
    assert(line.subrange(0, c) =~= h.name);
    assert(line[c + 1] == 32);
    assert(line.subrange(c + 2, line.len() as int) =~= h.value);
}

/// Reading the header section of serialised headers prepends them to
/// whatever follows.
proof fn lemma_parse_headers_of_ser(s: Seq<u8>, p: int, hs: Seq<HeaderModel>)
    requires
        forall|i: int| 0 <= i < hs.len() ==> wf_name(#[trigger] hs[i].name) && wf_value(
            hs[i].value,
        ),
        0 <= p,
        p + ser_headers(hs).len() <= s.len(),
        s.subrange(p, p + ser_headers(hs).len() as int) == ser_headers(hs),
    ensures
        parse_headers_spec(s, p) == head_prepend(
            hs,
            parse_headers_spec(s, p + ser_headers(hs).len() as int),
        ),
    decreases hs.len(),
{
    if hs.len() == 0 {
        let tail = parse_headers_spec(s, p);
        match tail {
            HeadParse::Done { headers, end } => {
                assert(hs + headers =~= headers);
            },
            _ => {},
        }
    } else {
        let h0 = hs[0];
        let rest = hs.drop_first();
        lemma_ser_headers_first(hs);
        let line = h0.name + seq![58u8, 32u8] + h0.value;
        let l0 = ser_header(h0).len() as int;
        assert(l0 == line.len() + 2);
        assert(wf_name(h0.name) && wf_value(h0.value));
        // The line region holds no carriage return, and the terminator
        // follows it.
        assert(forall|i: int| 0 <= i < line.len() ==> #[trigger] line[i] != 13);
        assert(s.subrange(p, p + l0) =~= ser_header(h0)) by {
            assert(s.subrange(p, p + ser_headers(hs).len() as int) == ser_headers(hs));
            assert(ser_headers(hs) == ser_header(h0) + ser_headers(rest));
            assert(s.subrange(p, p + l0) =~= s.subrange(p, p + ser_headers(hs).len() as int)
                .subrange(0, l0));
            assert((ser_header(h0) + ser_headers(rest)).subrange(0, l0) =~= ser_header(h0));
        }
        assert(ser_header(h0) =~= line + crlf());
        assert forall|i: int| p <= i < p + line.len() implies #[trigger] s[i] != 13 by {
            assert(s[i] == s.subrange(p, p + l0)[i - p]);
            assert(s.subrange(p, p + l0)[i - p] == line[i - p]);
        }
        assert(s[p + line.len()] == 13) by {
            assert(s[p + line.len()] == s.subrange(p, p + l0)[line.len() as int]);
        }
        assert(s[p + line.len() + 1] == 10) by {
            assert(s[p + line.len() + 1] == s.subrange(p, p + l0)[line.len() as int + 1]);
        }
        lemma_first_crlf(s, p, line.len() as int);
        let j = p + line.len() as int;
        assert(find_crlf_at(s, p) == Option::Some(j));
        assert(j != p) by {
            assert(h0.name.len() > 0);
        }
        assert(s.subrange(p, j) =~= line) by {
            assert forall|i: int| 0 <= i < line.len() implies s.subrange(p, j)[i] == line[i] by {
                assert(s.subrange(p, j)[i] == s[p + i]);
                assert(s[p + i] == s.subrange(p, p + l0)[i]);
            }
        }
        lemma_parse_header_line_of(h0);
        assert(parse_header_line(s.subrange(p, j)) == Option::Some(h0));
        // The rest of the header bytes sit just past this line.
        let p1 = j + 2;
        assert(p1 == p + l0);
        assert(s.subrange(p1, p1 + ser_headers(rest).len() as int) =~= ser_headers(rest)) by {
            assert forall|i: int| 0 <= i < ser_headers(rest).len() implies s.subrange(
                p1,
                p1 + ser_headers(rest).len() as int,
            )[i] == ser_headers(rest)[i] by {
                assert(s.subrange(p1, p1 + ser_headers(rest).len() as int)[i] == s[p1 + i]);
                assert(s[p1 + i] == s.subrange(p, p + ser_headers(hs).len() as int)[l0 + i]);
                assert((ser_header(h0) + ser_headers(rest))[l0 + i] == ser_headers(rest)[i]);
            }
        }
        assert(forall|i: int| 0 <= i < rest.len() ==> wf_name(#[trigger] rest[i].name)
            && wf_value(rest[i].value)) by {
            assert(forall|i: int| 0 <= i < rest.len() ==> rest[i] == hs[i + 1]);
        }
        lemma_parse_headers_of_ser(s, p1, rest);
        let q = p + ser_headers(hs).len() as int;
        assert(p1 + ser_headers(rest).len() as int == q);
        let tail = parse_headers_spec(s, q);
        match tail {
            HeadParse::Done { headers, end } => {
                assert(seq![h0] + (rest + headers) =~= hs + headers);
            },
            _ => {},
        }
    }
}

/// `find_header_index` finds nothing when nothing matches.
proof fn lemma_find_header_none(hs: Seq<HeaderModel>, name: Seq<u8>, i: int)
    requires
        0 <= i,
        forall|j: int| i <= j < hs.len() ==> !ci_eq(#[trigger] hs[j].name, name),
    ensures
        find_header_index(hs, name, i) is None,
    decreases hs.len() - i,
{
    if i < hs.len() {
        lemma_find_header_none(hs, name, i + 1);
    }
}

/// `find_header_index` lands on the first match.
proof fn lemma_find_header_some(hs: Seq<HeaderModel>, name: Seq<u8>, i: int, k: int)
    requires
        0 <= i <= k < hs.len(),
        ci_eq(hs[k].name, name),
        forall|j: int| i <= j < k ==> !ci_eq(#[trigger] hs[j].name, name),
    ensures
        find_header_index(hs, name, i) == Option::Some(k),
    decreases k - i,
{
    if i < k {
        lemma_find_header_some(hs, name, i + 1, k);
    }
}

/// Filtering keeps a list in which every element passes.
proof fn lemma_filter_all_pass(hs: Seq<HeaderModel>)
    requires
        forall|i: int| 0 <= i < hs.len() ==> !is_framing_name(#[trigger] hs[i].name),
    ensures
        keep_non_framing(hs) == hs,
    decreases hs.len(),
{
    reveal(Seq::filter);
    if hs.len() > 0 {
        lemma_filter_all_pass(hs.drop_last());
        assert(keep_non_framing(hs) =~= hs);
    } else {
        assert(keep_non_framing(hs) =~= hs);
    }
}

/// The parsed header list, with the framing field removed, is the
/// serialised message's own header list.
proof fn lemma_keep_non_framing_raw(user: Seq<HeaderModel>, b: BodyModel)
    requires
        wf_headers(user),
    ensures
        keep_non_framing(user + framing_models(b)) == user,
{
    let pred = |h: HeaderModel| !is_framing_name(h.name);
    Seq::filter_distributes_over_add(user, framing_models(b), pred);
    lemma_filter_all_pass(user);
    reveal(Seq::filter);
    match b {
        BodyModel::Empty => {
            assert(framing_models(b).filter(pred) =~= Seq::<HeaderModel>::empty());
        },
        BodyModel::Sized(data) => {
            let fm = framing_models(b);
            assert(ci_eq(fm[0].name, content_length_name()));
            assert(!pred(fm.last()));
            assert(fm.drop_last() =~= Seq::<HeaderModel>::empty());
            assert(fm.drop_last().len() == 0);
            assert(fm.drop_last().filter(pred) =~= Seq::<HeaderModel>::empty());
            assert(fm.filter(pred) =~= Seq::<HeaderModel>::empty());
        },
        BodyModel::Chunked(_) => {
            let fm = framing_models(b);
            assert(ci_eq(fm[0].name, transfer_encoding_name()));
            assert(!pred(fm.last()));
            assert(fm.drop_last() =~= Seq::<HeaderModel>::empty());
            assert(fm.drop_last().len() == 0);
            assert(fm.drop_last().filter(pred) =~= Seq::<HeaderModel>::empty());
            assert(fm.filter(pred) =~= Seq::<HeaderModel>::empty());
        },
    }
    assert(user.filter(pred) + framing_models(b).filter(pred) =~= user);
}


/// Serialising a concatenation of chunk lists concatenates the bytes.
proof fn lemma_ser_chunks_concat(a: Seq<Seq<u8>>, b: Seq<Seq<u8>>)
    ensures
        crate::http::ser_chunks(a + b) == crate::http::ser_chunks(a) + crate::http::ser_chunks(b),
    decreases b.len(),
{
    if b.len() == 0 {
        assert(a + b =~= a);
        assert(crate::http::ser_chunks(a) + crate::http::ser_chunks(b) =~= crate::http::ser_chunks(
            a,
        ));
    } else {
        lemma_ser_chunks_concat(a, b.drop_last());
        assert((a + b).drop_last() =~= a + b.drop_last());
        assert((a + b).last() == b.last());
        assert(crate::http::ser_chunks(a) + crate::http::ser_chunks(b.drop_last())
            + crate::http::ser_chunk(b.last()) =~= crate::http::ser_chunks(a) + (
        crate::http::ser_chunks(b.drop_last()) + crate::http::ser_chunk(b.last())));
    }
}

/// Serialising one chunk is one chunk block.
proof fn lemma_ser_chunks_single(c: Seq<u8>)
    ensures
        crate::http::ser_chunks(seq![c]) == crate::http::ser_chunk(c),
{
    let single = seq![c];
    assert(single.len() == 1);
    assert(single.drop_last() =~= Seq::<Seq<u8>>::empty());
    assert(single.drop_last().len() == 0);
    assert(crate::http::ser_chunks(single.drop_last()) =~= Seq::<u8>::empty());
    assert(single.last() == c);
    assert(crate::http::ser_chunks(single) =~= Seq::<u8>::empty() + crate::http::ser_chunk(c));
    assert(Seq::<u8>::empty() + crate::http::ser_chunk(c) =~= crate::http::ser_chunk(c));
}

/// A chunk list decomposes at its first element.
proof fn lemma_ser_chunks_first(cs: Seq<Seq<u8>>)
    requires
        cs.len() > 0,
    ensures
        crate::http::ser_chunks(cs) == crate::http::ser_chunk(cs[0]) + crate::http::ser_chunks(
            cs.drop_first(),
        ),
{
    let single = seq![cs[0]];
    assert(cs =~= single + cs.drop_first());
    lemma_ser_chunks_concat(single, cs.drop_first());
    lemma_ser_chunks_single(cs[0]);
}

/// The bytes at `p` are `region`, element by element.
proof fn lemma_region(s: Seq<u8>, p: int, region: Seq<u8>)
    requires
        0 <= p,
        p + region.len() <= s.len(),
        s.subrange(p, p + region.len() as int) == region,
    ensures
        forall|i: int| 0 <= i < region.len() ==> s[p + i] == #[trigger] region[i],
{
    assert forall|i: int| 0 <= i < region.len() implies s[p + i] == #[trigger] region[i] by {
        assert(s.subrange(p, p + region.len() as int)[i] == s[p + i]);
    }
}

/// Reading back a serialised chunked body yields the chunks.
proof fn lemma_parse_chunks_of_ser(s: Seq<u8>, p: int, cs: Seq<Seq<u8>>)
    requires
        forall|i: int| 0 <= i < cs.len() ==> #[trigger] cs[i].len() > 0,
        0 <= p,
        p + crate::http::ser_chunks(cs).len() + 5 <= s.len(),
        s.subrange(p, p + crate::http::ser_chunks(cs).len() + 5) == crate::http::ser_chunks(cs)
            + seq![48u8] + crlf() + crlf(),
    ensures
        parse_chunks_spec(s, p) == (ChunksParse::Done {
            chunks: cs,
            end: p + crate::http::ser_chunks(cs).len() + 5,
        }),
    decreases cs.len(),
{
    let region = crate::http::ser_chunks(cs) + seq![48u8] + crlf() + crlf();
    lemma_region(s, p, region);
    if cs.len() == 0 {
        assert(crate::http::ser_chunks(cs).len() == 0);
        assert(region =~= seq![48u8, 13u8, 10u8, 13u8, 10u8]);
        assert(s[p] == 48 && s[p + 1] == 13 && s[p + 2] == 10 && s[p + 3] == 13 && s[p + 4]
            == 10);
        lemma_first_crlf(s, p, 1);
        let run = s.subrange(p, p + 1);
        assert(run =~= seq![48u8]);
        assert(is_hex_bytes(run));
        assert(run.drop_last() =~= Seq::<u8>::empty());
        assert(hex_value(run.drop_last()) == 0);
        assert(hex_value(run) == 0);
        assert(parse_chunks_spec(s, p) == (ChunksParse::Done {
            chunks: Seq::<Seq<u8>>::empty(),
            end: p + 5,
        }));
        assert(Seq::<Seq<u8>>::empty() =~= cs);
    } else {
        let c0 = cs[0];
        let rest = cs.drop_first();
        lemma_ser_chunks_first(cs);
        let h = hex_bytes(c0.len());
        crate::num::lemma_hex_round_trip(c0.len());
        let block = crate::http::ser_chunk(c0);
        assert(block =~= h + crlf() + c0 + crlf());
        let hl = h.len() as int;
        // The size line holds hexadecimal digits, never a carriage return.
        assert(forall|i: int| 0 <= i < hl ==> #[trigger] h[i] != 13) by {
            assert(forall|i: int| 0 <= i < hl ==> crate::num::is_hex_digit(#[trigger] h[i]));
        }
        assert forall|i: int| p <= i < p + hl implies #[trigger] s[i] != 13 by {
            assert(s[i] == region[i - p]);
            assert(region[i - p] == h[i - p]);
        }
        assert(s[p + hl] == 13) by {
            assert(s[p + hl] == region[hl]);
        }
        assert(s[p + hl + 1] == 10) by {
            assert(s[p + hl + 1] == region[hl + 1]);
        }
        lemma_first_crlf(s, p, hl);
        let j = p + hl;
        let run = s.subrange(p, j);
        assert(run =~= h) by {
            assert forall|i: int| 0 <= i < hl implies run[i] == h[i] by {
                assert(run[i] == s[p + i]);
                assert(s[p + i] == region[i]);
            }
        }
        assert(is_hex_bytes(run));
        let n = c0.len() as int;
        assert(hex_value(run) == c0.len());
        assert(n > 0);
        assert(j + 2 + n + 2 <= s.len());
        assert(s[j + 2 + n] == 13) by {
            assert(s[j + 2 + n] == region[hl + 2 + n]);
            assert(region[hl + 2 + n] == block[hl + 2 + n]);
        }
        assert(s[j + 2 + n + 1] == 10) by {
            assert(s[j + 2 + n + 1] == region[hl + 2 + n + 1]);
            assert(region[hl + 2 + n + 1] == block[hl + 2 + n + 1]);
        }
        let chunk = s.subrange(j + 2, j + 2 + n);
        assert(chunk =~= c0) by {
            assert forall|i: int| 0 <= i < n implies chunk[i] == c0[i] by {
                assert(chunk[i] == s[j + 2 + i]);
                assert(s[j + 2 + i] == region[hl + 2 + i]);
                assert(region[hl + 2 + i] == block[hl + 2 + i]);
            }
        }
        let p1 = j + 2 + n + 2;
        assert(p1 == p + block.len());
        let tail_region = crate::http::ser_chunks(rest) + seq![48u8] + crlf() + crlf();
        assert(s.subrange(p1, p1 + crate::http::ser_chunks(rest).len() + 5) =~= tail_region) by {
            assert forall|i: int|
                0 <= i < tail_region.len() implies s.subrange(
                p1,
                p1 + crate::http::ser_chunks(rest).len() + 5,
            )[i] == tail_region[i] by {
                assert(s.subrange(p1, p1 + crate::http::ser_chunks(rest).len() + 5)[i] == s[p1
                    + i]);
                assert(s[p1 + i] == region[block.len() + i]);
                assert(region[block.len() + i] == tail_region[i]);
            }
        }
        assert(forall|i: int| 0 <= i < rest.len() ==> #[trigger] rest[i].len() > 0) by {
            assert(forall|i: int| 0 <= i < rest.len() ==> rest[i] == cs[i + 1]);
        }
        lemma_parse_chunks_of_ser(s, p1, rest);
        assert(seq![c0] + rest =~= cs);
    }
}


/// The request line the serialiser writes.
pub open spec fn req_line_of(m: RequestModel) -> Seq<u8> {
    m.method + seq![32u8] + m.target + seq![32u8] + version_bytes(m.version)
}

/// The raw header list a parser sees on a serialised request: the
/// message's own headers and the framing header.
pub open spec fn raw_headers_of(m: RequestModel) -> Seq<HeaderModel> {
    m.headers + framing_models(m.body)
}

/// The serialised head splits into line, terminator, header bytes and the
/// blank line.
proof fn lemma_head_shape(m: RequestModel)
    ensures
        ser_req_head(m) == req_line_of(m) + crlf() + ser_headers(raw_headers_of(m)) + crlf(),
        ser_request(m) == ser_req_head(m) + ser_body(m.body),
{
    lemma_ser_headers_concat(m.headers, framing_models(m.body));
    lemma_ser_framing_as_headers(m.body);
    assert(ser_req_head(m) =~= req_line_of(m) + crlf() + ser_headers(raw_headers_of(m))
        + crlf());
}

/// The serialiser's request line reads back as its parts.
#[verifier::rlimit(100)]
proof fn lemma_req_line_parses(m: RequestModel)
    requires
        wf_request(m),
    ensures
        find_crlf_at(ser_request(m), 0) == Option::Some(req_line_of(m).len() as int),
        parse_request_line(ser_request(m).subrange(0, req_line_of(m).len() as int))
            == Option::Some((m.method, m.target, m.version)),
{
    let s = ser_request(m);
    let line = req_line_of(m);
    lemma_head_shape(m);
    let head = ser_req_head(m);
    let ln = line.len() as int;
    assert(forall|i: int| 0 <= i < ln ==> #[trigger] line[i] != 13) by {
        match m.version {
            Version::Http10 => {
                assert(version_bytes(m.version) =~= seq![72u8, 84u8, 84u8, 80u8, 47u8, 49u8, 46u8, 48u8]);
            },
            Version::Http11 => {
                assert(version_bytes(m.version) =~= seq![72u8, 84u8, 84u8, 80u8, 47u8, 49u8, 46u8, 49u8]);
            },
        }
    }
    assert forall|i: int| 0 <= i < ln implies #[trigger] s[i] != 13 by {
        assert(s[i] == head[i]);
        assert(head[i] == line[i]);
    }
    assert(s[ln] == 13 && s[ln + 1] == 10) by {
        assert(head[ln] == crlf()[0]);
        assert(head[ln + 1] == crlf()[1]);
        assert(s[ln] == head[ln]);
        assert(s[ln + 1] == head[ln + 1]);
    }
    lemma_first_crlf(s, 0, ln);
    let rl = s.subrange(0, ln);
    assert(rl =~= line) by {
        assert forall|i: int| 0 <= i < ln implies rl[i] == line[i] by {
            assert(rl[i] == s[i]);
            assert(s[i] == head[i]);
        }
    }
    let ml = m.method.len() as int;
    let tl = m.target.len() as int;
    assert(line[ml] == 32);
    assert(forall|i: int| 0 <= i < ml ==> #[trigger] line[i] != 32) by {
        assert(forall|i: int| 0 <= i < ml ==> line[i] == m.method[i]);
    }
    lemma_find_byte_some(line, 0, ml, 32);
    assert(line[ml + 1 + tl] == 32);
    assert(forall|i: int| ml + 1 <= i < ml + 1 + tl ==> #[trigger] line[i] != 32) by {
        assert(forall|i: int| ml + 1 <= i < ml + 1 + tl ==> line[i] == m.target[i - ml - 1]);
    }
    lemma_find_byte_some(line, ml + 1, ml + 1 + tl, 32);
    assert(line.subrange(0, ml) =~= m.method);
    assert(line.subrange(ml + 1, ml + 1 + tl) =~= m.target);
    assert(line.subrange(ml + 1 + tl + 1, line.len() as int) =~= version_bytes(m.version));
    assert(version_bytes(Version::Http10) != version_bytes(Version::Http11)) by {
        assert(version_bytes(Version::Http10)[7] == 48);
        assert(version_bytes(Version::Http11)[7] == 49);
    }
}

/// Every raw header of a serialised request is well-formed.
proof fn lemma_raw_wf(m: RequestModel)
    requires
        wf_request(m),
    ensures
        forall|i: int| 0 <= i < raw_headers_of(m).len() ==> wf_name(
            #[trigger] raw_headers_of(m)[i].name,
        ) && wf_value(raw_headers_of(m)[i].value),
{
    let raw = raw_headers_of(m);
    assert forall|i: int| 0 <= i < raw.len() implies wf_name(#[trigger] raw[i].name) && wf_value(
        raw[i].value,
    ) by {
        if i < m.headers.len() {
            assert(raw[i] == m.headers[i]);
            assert(wf_name(m.headers[i].name) && wf_value(m.headers[i].value));
        } else {
            assert(raw[i] == framing_models(m.body)[i - m.headers.len()]);
            match m.body {
                BodyModel::Empty => {},
                BodyModel::Sized(data) => {
                    crate::num::lemma_dec_round_trip(data.len());
                    let v = dec_bytes(data.len());
                    assert(forall|k: int| 0 <= k < v.len() ==> 48 <= #[trigger] v[k] <= 57);
                    assert(wf_value(v));
                    assert(wf_name(framing_models(m.body)[0].name));
                },
                BodyModel::Chunked(_) => {
                    assert(wf_name(framing_models(m.body)[0].name));
                    assert(wf_value(framing_models(m.body)[0].value));
                },
            }
        }
    }
}

/// The header section of a serialised request reads back as the raw list,
/// ending at the head's end.
proof fn lemma_req_headers_parse(m: RequestModel)
    requires
        wf_request(m),
    ensures
        parse_headers_spec(ser_request(m), req_line_of(m).len() as int + 2) == (HeadParse::Done {
            headers: raw_headers_of(m),
            end: ser_req_head(m).len() as int,
        }),
{
    let s = ser_request(m);
    let line = req_line_of(m);
    let raw = raw_headers_of(m);
    lemma_head_shape(m);
    let head = ser_req_head(m);
    let hb = ser_headers(raw);
    let ln = line.len() as int;
    let p = ln + 2;
    lemma_raw_wf(m);
    assert(s.subrange(p, p + hb.len() as int) =~= hb) by {
        assert forall|i: int| 0 <= i < hb.len() implies s.subrange(p, p + hb.len() as int)[i]
            == hb[i] by {
            assert(s.subrange(p, p + hb.len() as int)[i] == s[p + i]);
            assert(s[p + i] == head[p + i]);
            assert(head[p + i] == hb[i]);
        }
    }
    lemma_parse_headers_of_ser(s, p, raw);
    let q = p + hb.len() as int;
    assert(s[q] == 13 && s[q + 1] == 10) by {
        assert(head[q] == crlf()[0]);
        assert(head[q + 1] == crlf()[1]);
        assert(s[q] == head[q]);
        assert(s[q + 1] == head[q + 1]);
    }
    assert(q + 2 <= s.len());
    assert(find_crlf_at(s, q) == Option::Some(q));
    assert(parse_headers_spec(s, q) == (HeadParse::Done {
        headers: Seq::<HeaderModel>::empty(),
        end: q + 2,
    }));
    assert(raw + Seq::<HeaderModel>::empty() =~= raw);
    assert(q + 2 == head.len());
}

/// The framing plan of a serialised request's raw headers matches its
/// body.
proof fn lemma_req_framing(m: RequestModel)
    requires
        wf_request(m),
    ensures
        framing_plan(raw_headers_of(m)) == match m.body {
            BodyModel::Empty => FramingPlan::NoBody,
            BodyModel::Sized(data) => FramingPlan::Counted(data.len()),
            BodyModel::Chunked(_) => FramingPlan::ChunkedBody,
        },
{
    let raw = raw_headers_of(m);
    let te = transfer_encoding_name();
    let cl = content_length_name();
    assert(forall|j: int| 0 <= j < m.headers.len() ==> !ci_eq(#[trigger] raw[j].name, te)
        && !ci_eq(raw[j].name, cl)) by {
        assert(forall|j: int| 0 <= j < m.headers.len() ==> raw[j] == m.headers[j]);
    }
    match m.body {
        BodyModel::Empty => {
            assert(raw =~= m.headers);
            lemma_find_header_none(raw, te, 0);
            lemma_find_header_none(raw, cl, 0);
        },
        BodyModel::Sized(data) => {
            let u = m.headers.len() as int;
            assert(raw[u] == framing_models(m.body)[0]);
            assert(!ci_eq(raw[u].name, te)) by {
                assert(raw[u].name.len() == 14 && te.len() == 17);
            }
            lemma_find_header_none(raw, te, 0);
            assert(ci_eq(raw[u].name, cl));
            lemma_find_header_some(raw, cl, 0, u);
            crate::num::lemma_dec_round_trip(data.len());
            assert(raw[u].value == dec_bytes(data.len()));
        },
        BodyModel::Chunked(_) => {
            let u = m.headers.len() as int;
            assert(raw[u] == framing_models(m.body)[0]);
            assert(ci_eq(raw[u].name, te));
            lemma_find_header_some(raw, te, 0, u);
            assert(ci_eq(raw[u].value, chunked_value()));
        },
    }
}

/// Reading a serialised request back yields the very same message, having
/// used every byte. The head must fit the codec's size bound.
#[verifier::rlimit(100)]
pub proof fn lemma_request_round_trip(m: RequestModel)
    requires
        wf_request(m),
        ser_req_head(m).len() <= HEAD_LIMIT,
    ensures
        parse_request_spec(ser_request(m)) == (ReqParse::Done {
            m,
            used: ser_request(m).len() as int,
        }),
{
    let s = ser_request(m);
    lemma_head_shape(m);
    let raw = raw_headers_of(m);
    let end = ser_req_head(m).len() as int;
    lemma_req_line_parses(m);
    lemma_req_headers_parse(m);
    lemma_req_framing(m);
    lemma_keep_non_framing_raw(m.headers, m.body);
    match m.body {
        BodyModel::Empty => {
            assert(ser_body(m.body) =~= Seq::<u8>::empty());
            assert(s.len() == end);
            assert(parse_request_spec(s) == (ReqParse::Done { m, used: end }));
        },
        BodyModel::Sized(data) => {
            assert(s.len() == end + data.len());
            assert(s.subrange(end, end + data.len() as int) =~= data) by {
                assert forall|i: int|
                    0 <= i < data.len() implies s.subrange(end, end + data.len() as int)[i]
                    == data[i] by {
                    assert(s.subrange(end, end + data.len() as int)[i] == s[end + i]);
                    assert(s[end + i] == ser_body(m.body)[i]);
                }
            }
            assert(parse_request_spec(s) == (ReqParse::Done { m, used: end + data.len() }));
        },
        BodyModel::Chunked(cs) => {
            let body = ser_body(m.body);
            assert(body == crate::http::ser_chunks(cs) + seq![48u8] + crlf() + crlf());
            assert(s.len() == end + crate::http::ser_chunks(cs).len() + 5);
            assert(s.subrange(end, end + crate::http::ser_chunks(cs).len() + 5) =~= body) by {
                assert forall|i: int|
                    0 <= i < body.len() implies s.subrange(
                    end,
                    end + crate::http::ser_chunks(cs).len() + 5,
                )[i] == body[i] by {
                    assert(s.subrange(end, end + crate::http::ser_chunks(cs).len() + 5)[i] == s[
                        end + i]);
                    assert(s[end + i] == body[i]);
                }
            }
            lemma_parse_chunks_of_ser(s, end, cs);
            assert(parse_request_spec(s) == (ReqParse::Done { m, used: s.len() as int }));
        },
    }
}


/// The status line the serialiser writes, without its terminator.
pub open spec fn status_line_of(m: ResponseModel) -> Seq<u8> {
    version_bytes(m.version) + seq![32u8] + dec_bytes(m.status as nat) + seq![32u8] + m.reason
}

/// The raw header list a parser sees on a serialised response.
pub open spec fn raw_resp_headers_of(m: ResponseModel) -> Seq<HeaderModel> {
    m.headers + framing_models(m.body)
}

/// The serialised response head splits into status line, terminator,
/// header bytes and the blank line.
proof fn lemma_resp_head_shape(m: ResponseModel)
    ensures
        crate::http::ser_resp_head(m) == status_line_of(m) + crlf() + ser_headers(
            raw_resp_headers_of(m),
        ) + crlf(),
        crate::http::ser_response(m) == crate::http::ser_resp_head(m) + ser_body(m.body),
{
    lemma_ser_headers_concat(m.headers, framing_models(m.body));
    lemma_ser_framing_as_headers(m.body);
    assert(crate::http::ser_resp_head(m) =~= status_line_of(m) + crlf() + ser_headers(
        raw_resp_headers_of(m),
    ) + crlf());
}

/// The serialiser's status line reads back as its parts.
#[verifier::rlimit(100)]
proof fn lemma_status_line_parses(m: ResponseModel)
    requires
        crate::http::wf_response(m),
    ensures
        find_crlf_at(crate::http::ser_response(m), 0) == Option::Some(
            status_line_of(m).len() as int,
        ),
        crate::parser::parse_status_line(
            crate::http::ser_response(m).subrange(0, status_line_of(m).len() as int),
        ) == Option::Some((m.version, m.status, m.reason)),
{
    let s = crate::http::ser_response(m);
    let line = status_line_of(m);
    lemma_resp_head_shape(m);
    let head = crate::http::ser_resp_head(m);
    let ln = line.len() as int;
    crate::num::lemma_dec_round_trip(m.status as nat);
    let run = dec_bytes(m.status as nat);
    assert(forall|i: int| 0 <= i < ln ==> #[trigger] line[i] != 13) by {
        match m.version {
            Version::Http10 => {
                assert(version_bytes(m.version) =~= seq![72u8, 84u8, 84u8, 80u8, 47u8, 49u8, 46u8, 48u8]);
            },
            Version::Http11 => {
                assert(version_bytes(m.version) =~= seq![72u8, 84u8, 84u8, 80u8, 47u8, 49u8, 46u8, 49u8]);
            },
        }
        assert(forall|i: int| 0 <= i < run.len() ==> 48 <= #[trigger] run[i] <= 57);
    }
    assert forall|i: int| 0 <= i < ln implies #[trigger] s[i] != 13 by {
        assert(s[i] == head[i]);
        assert(head[i] == line[i]);
    }
    assert(s[ln] == 13 && s[ln + 1] == 10) by {
        assert(head[ln] == crlf()[0]);
        assert(head[ln + 1] == crlf()[1]);
        assert(s[ln] == head[ln]);
        assert(s[ln + 1] == head[ln + 1]);
    }
    lemma_first_crlf(s, 0, ln);
    let sl = s.subrange(0, ln);
    assert(sl =~= line) by {
        assert forall|i: int| 0 <= i < ln implies sl[i] == line[i] by {
            assert(sl[i] == s[i]);
            assert(s[i] == head[i]);
        }
    }
    // The line splits at the space after the version and the space after
    // the status run.
    let vl = version_bytes(m.version).len() as int;
    assert(vl == 8) by {
        match m.version {
            Version::Http10 => {},
            Version::Http11 => {},
        }
    }
    assert(line[vl] == 32);
    assert(forall|i: int| 0 <= i < vl ==> #[trigger] line[i] != 32) by {
        match m.version {
            Version::Http10 => {
                assert(version_bytes(m.version) =~= seq![72u8, 84u8, 84u8, 80u8, 47u8, 49u8, 46u8, 48u8]);
            },
            Version::Http11 => {
                assert(version_bytes(m.version) =~= seq![72u8, 84u8, 84u8, 80u8, 47u8, 49u8, 46u8, 49u8]);
            },
        }
    }
    lemma_find_byte_some(line, 0, vl, 32);
    assert(line.subrange(0, vl) =~= version_bytes(m.version));
    assert(version_bytes(Version::Http10) != version_bytes(Version::Http11)) by {
        assert(version_bytes(Version::Http10)[7] == 48);
        assert(version_bytes(Version::Http11)[7] == 49);
    }
    let rl = run.len() as int;
    assert(line[vl + 1 + rl] == 32);
    assert(forall|i: int| vl + 1 <= i < vl + 1 + rl ==> #[trigger] line[i] != 32) by {
        assert(forall|i: int| vl + 1 <= i < vl + 1 + rl ==> line[i] == run[i - vl - 1]);
        assert(forall|i: int| 0 <= i < run.len() ==> 48 <= #[trigger] run[i] <= 57);
    }
    lemma_find_byte_some(line, vl + 1, vl + 1 + rl, 32);
    assert(line.subrange(vl + 1, vl + 1 + rl) =~= run);
    assert(line.subrange(vl + 1 + rl + 1, line.len() as int) =~= m.reason);
}

/// Every raw header of a serialised response is well-formed.
proof fn lemma_resp_raw_wf(m: ResponseModel)
    requires
        crate::http::wf_response(m),
    ensures
        forall|i: int| 0 <= i < raw_resp_headers_of(m).len() ==> wf_name(
            #[trigger] raw_resp_headers_of(m)[i].name,
        ) && wf_value(raw_resp_headers_of(m)[i].value),
{
    let raw = raw_resp_headers_of(m);
    assert forall|i: int| 0 <= i < raw.len() implies wf_name(#[trigger] raw[i].name) && wf_value(
        raw[i].value,
    ) by {
        if i < m.headers.len() {
            assert(raw[i] == m.headers[i]);
            assert(wf_name(m.headers[i].name) && wf_value(m.headers[i].value));
        } else {
            assert(raw[i] == framing_models(m.body)[i - m.headers.len()]);
            match m.body {
                BodyModel::Empty => {},
                BodyModel::Sized(data) => {
                    crate::num::lemma_dec_round_trip(data.len());
                    let v = dec_bytes(data.len());
                    assert(forall|k: int| 0 <= k < v.len() ==> 48 <= #[trigger] v[k] <= 57);
                    assert(wf_value(v));
                    assert(wf_name(framing_models(m.body)[0].name));
                },
                BodyModel::Chunked(_) => {
                    assert(wf_name(framing_models(m.body)[0].name));
                    assert(wf_value(framing_models(m.body)[0].value));
                },
            }
        }
    }
}

/// The header section of a serialised response reads back as the raw list.
proof fn lemma_resp_headers_parse(m: ResponseModel)
    requires
        crate::http::wf_response(m),
    ensures
        parse_headers_spec(
            crate::http::ser_response(m),
            status_line_of(m).len() as int + 2,
        ) == (HeadParse::Done {
            headers: raw_resp_headers_of(m),
            end: crate::http::ser_resp_head(m).len() as int,
        }),
{
    let s = crate::http::ser_response(m);
    let line = status_line_of(m);
    let raw = raw_resp_headers_of(m);
    lemma_resp_head_shape(m);
    let head = crate::http::ser_resp_head(m);
    let hb = ser_headers(raw);
    let ln = line.len() as int;
    let p = ln + 2;
    lemma_resp_raw_wf(m);
    assert(s.subrange(p, p + hb.len() as int) =~= hb) by {
        assert forall|i: int| 0 <= i < hb.len() implies s.subrange(p, p + hb.len() as int)[i]
            == hb[i] by {
            assert(s.subrange(p, p + hb.len() as int)[i] == s[p + i]);
            assert(s[p + i] == head[p + i]);
            assert(head[p + i] == hb[i]);
        }
    }
    lemma_parse_headers_of_ser(s, p, raw);
    let q = p + hb.len() as int;
    assert(s[q] == 13 && s[q + 1] == 10) by {
        assert(head[q] == crlf()[0]);
        assert(head[q + 1] == crlf()[1]);
        assert(s[q] == head[q]);
        assert(s[q + 1] == head[q + 1]);
    }
    assert(q + 2 <= s.len());
    assert(find_crlf_at(s, q) == Option::Some(q));
    assert(parse_headers_spec(s, q) == (HeadParse::Done {
        headers: Seq::<HeaderModel>::empty(),
        end: q + 2,
    }));
    assert(raw + Seq::<HeaderModel>::empty() =~= raw);
    assert(q + 2 == head.len());
}

/// The framing plan of a serialised response's raw headers matches its
/// body, and the framing header never masquerades as `Connection`.
proof fn lemma_resp_framing(m: ResponseModel)
    requires
        crate::http::wf_response(m),
    ensures
        framing_plan(raw_resp_headers_of(m)) == match m.body {
            BodyModel::Empty => FramingPlan::NoBody,
            BodyModel::Sized(data) => FramingPlan::Counted(data.len()),
            BodyModel::Chunked(_) => FramingPlan::ChunkedBody,
        },
        crate::parser::says_connection_close(raw_resp_headers_of(m))
            == crate::parser::says_connection_close(m.headers),
{
    let raw = raw_resp_headers_of(m);
    let te = transfer_encoding_name();
    let cl = content_length_name();
    let conn = crate::headers::connection_name();
    assert(forall|j: int| 0 <= j < m.headers.len() ==> !ci_eq(#[trigger] raw[j].name, te)
        && !ci_eq(raw[j].name, cl)) by {
        assert(forall|j: int| 0 <= j < m.headers.len() ==> raw[j] == m.headers[j]);
    }
    match m.body {
        BodyModel::Empty => {
            assert(raw =~= m.headers);
            lemma_find_header_none(raw, te, 0);
            lemma_find_header_none(raw, cl, 0);
        },
        BodyModel::Sized(data) => {
            let u = m.headers.len() as int;
            assert(raw[u] == framing_models(m.body)[0]);
            assert(!ci_eq(raw[u].name, te)) by {
                assert(raw[u].name.len() == 14 && te.len() == 17);
            }
            lemma_find_header_none(raw, te, 0);
            assert(ci_eq(raw[u].name, cl));
            lemma_find_header_some(raw, cl, 0, u);
            crate::num::lemma_dec_round_trip(data.len());
            assert(raw[u].value == dec_bytes(data.len()));
        },
        BodyModel::Chunked(_) => {
            let u = m.headers.len() as int;
            assert(raw[u] == framing_models(m.body)[0]);
            assert(ci_eq(raw[u].name, te));
            lemma_find_header_some(raw, te, 0, u);
            assert(ci_eq(raw[u].value, chunked_value()));
        },
    }
    // The connection rule reads the same off the raw list and the message's
    // own list: the framing header has another name length entirely.
    lemma_find_header_concat_connection(m);
}

/// Looking up `Connection` in the raw list is looking it up in the
/// message's own headers: the framing header cannot match it.
proof fn lemma_find_header_concat_connection(m: ResponseModel)
    ensures
        crate::parser::says_connection_close(raw_resp_headers_of(m))
            == crate::parser::says_connection_close(m.headers),
{
    let raw = raw_resp_headers_of(m);
    let conn = crate::headers::connection_name();
    lemma_find_header_prefix(m.headers, framing_models(m.body), conn);
}

/// Searching a concatenation for a name that the second part never carries
/// is searching the first part.
proof fn lemma_find_header_prefix(a: Seq<HeaderModel>, b: Seq<HeaderModel>, name: Seq<u8>)
    requires
        name.len() == 10,
        forall|j: int| 0 <= j < b.len() ==> (#[trigger] b[j].name.len() == 14) || b[j].name.len()
            == 17,
    ensures
        match find_header_index(a + b, name, 0) {
            Option::Some(k) => 0 <= k < a.len() && find_header_index(a, name, 0) == Option::Some(
                k,
            ) && (a + b)[k] == a[k],
            Option::None => find_header_index(a, name, 0) is None,
        },
{
    let raw = a + b;
    assert(forall|j: int| a.len() <= j < raw.len() ==> !ci_eq(#[trigger] raw[j].name, name)) by {
        assert(forall|j: int| a.len() <= j < raw.len() ==> raw[j] == b[j - a.len()]);
    }
    lemma_find_header_agree(a, raw, name, 0);
}

/// Two lists that agree on a prefix, the longer one matching nowhere past
/// it, are searched alike.
proof fn lemma_find_header_agree(a: Seq<HeaderModel>, raw: Seq<HeaderModel>, name: Seq<u8>, i: int)
    requires
        0 <= i <= a.len() <= raw.len(),
        forall|j: int| 0 <= j < a.len() ==> #[trigger] raw[j] == a[j],
        forall|j: int| a.len() <= j < raw.len() ==> !ci_eq(#[trigger] raw[j].name, name),
    ensures
        match find_header_index(raw, name, i) {
            Option::Some(k) => i <= k < a.len() && find_header_index(a, name, i) == Option::Some(
                k,
            ) && raw[k] == a[k],
            Option::None => find_header_index(a, name, i) is None,
        },
    decreases raw.len() - i,
{
    if i < a.len() {
        if !ci_eq(a[i].name, name) {
            lemma_find_header_agree(a, raw, name, i + 1);
        }
    } else {
        lemma_find_header_none(raw, name, i);
        lemma_find_header_none(a, name, i);
    }
}

/// Reading a serialised response back yields the very same message, with
/// any input-completeness flag. The head must fit the codec's size bound,
/// and a message without framed body must not announce `Connection:
/// close`: such a response's body runs to the end of input, which the
/// serialiser cannot re-frame.
#[verifier::rlimit(100)]
pub proof fn lemma_response_round_trip(m: ResponseModel, eof: bool)
    requires
        crate::http::wf_response(m),
        crate::http::ser_resp_head(m).len() <= HEAD_LIMIT,
        m.body is Empty ==> !crate::parser::says_connection_close(m.headers),
    ensures
        crate::parser::parse_response_spec(crate::http::ser_response(m), eof)
            == (crate::parser::RespParse::Done {
            m,
            used: crate::http::ser_response(m).len() as int,
        }),
{
    let s = crate::http::ser_response(m);
    lemma_resp_head_shape(m);
    let raw = raw_resp_headers_of(m);
    let end = crate::http::ser_resp_head(m).len() as int;
    lemma_status_line_parses(m);
    lemma_resp_headers_parse(m);
    lemma_resp_framing(m);
    lemma_keep_non_framing_raw(m.headers, m.body);
    match m.body {
        BodyModel::Empty => {
            assert(!crate::parser::says_connection_close(raw));
            assert(ser_body(m.body) =~= Seq::<u8>::empty());
            assert(s.len() == end);
            assert(crate::parser::parse_response_spec(s, eof)
                == (crate::parser::RespParse::Done { m, used: end }));
        },
        BodyModel::Sized(data) => {
            assert(s.len() == end + data.len());
            assert(s.subrange(end, end + data.len() as int) =~= data) by {
                assert forall|i: int|
                    0 <= i < data.len() implies s.subrange(end, end + data.len() as int)[i]
                    == data[i] by {
                    assert(s.subrange(end, end + data.len() as int)[i] == s[end + i]);
                    assert(s[end + i] == ser_body(m.body)[i]);
                }
            }
            assert(crate::parser::parse_response_spec(s, eof)
                == (crate::parser::RespParse::Done { m, used: end + data.len() }));
        },
        BodyModel::Chunked(cs) => {
            let body = ser_body(m.body);
            assert(body == crate::http::ser_chunks(cs) + seq![48u8] + crlf() + crlf());
            assert(s.len() == end + crate::http::ser_chunks(cs).len() + 5);
            assert(s.subrange(end, end + crate::http::ser_chunks(cs).len() + 5) =~= body) by {
                assert forall|i: int|
                    0 <= i < body.len() implies s.subrange(
                    end,
                    end + crate::http::ser_chunks(cs).len() + 5,
                )[i] == body[i] by {
                    assert(s.subrange(end, end + crate::http::ser_chunks(cs).len() + 5)[i] == s[
                        end + i]);
                    assert(s[end + i] == body[i]);
                }
            }
            lemma_parse_chunks_of_ser(s, end, cs);
            assert(crate::parser::parse_response_spec(s, eof)
                == (crate::parser::RespParse::Done { m, used: s.len() as int }));
        },
    }
}

} // verus!
