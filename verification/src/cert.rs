//! Certificate parameters for the root CA and its minted leaves.
//!
//! A certificate is modelled by the values the proxy decides: serial,
//! subject, issuer, validity window, CA flag, key usage, and the subject
//! alternative name. Minting fixes these parameters; the X.509 encoding and
//! the RSA keys are produced outside the library from exactly this data.

use vstd::prelude::*;

use crate::dispatch::{find_byte, find_byte_exec, lower_bytes_spec};
use crate::num::{dec_value, is_dec_bytes};

verus! {

/// One relative distinguished name entry: a kind such as `CN` and its text.
#[derive(Debug)]
pub struct NamePart {
    pub kind: Vec<u8>,
    pub value: Vec<u8>,
}

/// Spec-level name entry.
pub struct NamePartModel {
    pub kind: Seq<u8>,
    pub value: Seq<u8>,
}

impl View for NamePart {
    type V = NamePartModel;

    open spec fn view(&self) -> NamePartModel {
        (NamePartModel { kind: self.kind@, value: self.value@ })
    }
}

/// The key-usage bits a certificate asserts.
#[derive(Clone, Copy, PartialEq, Eq, Structural)]
pub struct KeyUsageFlags {
    pub key_cert_sign: bool,
    pub crl_sign: bool,
    pub digital_signature: bool,
    pub key_encipherment: bool,
    pub non_repudiation: bool,
}

/// A subject alternative name entry.
pub enum SanEntry {
    Dns(Vec<u8>),
    Ip(Vec<u8>),
}

/// Spec-level subject alternative name.
pub enum SanModel {
    Dns(Seq<u8>),
    Ip(Seq<u8>),
}

impl View for SanEntry {
    type V = SanModel;

    open spec fn view(&self) -> SanModel {
        match self {
            SanEntry::Dns(s) => SanModel::Dns(s@),
            SanEntry::Ip(s) => SanModel::Ip(s@),
        }
    }
}

/// Everything the proxy decides about one certificate.
pub struct CertParams {
    /// Big-endian serial, at most 20 bytes (a 159-bit random draw).
    pub serial: Vec<u8>,
    pub subject: Vec<NamePart>,
    pub issuer: Vec<NamePart>,
    pub is_ca: bool,
    /// Whether the BasicConstraints extension is marked critical.
    pub bc_critical: bool,
    pub key_usage: KeyUsageFlags,
    pub san: Option<SanEntry>,
    /// Start of validity, seconds since the epoch.
    pub not_before: u64,
    /// End of validity, seconds since the epoch.
    pub not_after: u64,
}

/// Spec-level certificate parameters.
pub struct CertParamsModel {
    pub serial: Seq<u8>,
    pub subject: Seq<NamePartModel>,
    pub issuer: Seq<NamePartModel>,
    pub is_ca: bool,
    pub bc_critical: bool,
    pub key_usage: KeyUsageFlags,
    pub san: Option<SanModel>,
    pub not_before: u64,
    pub not_after: u64,
}

impl View for CertParams {
    type V = CertParamsModel;

    open spec fn view(&self) -> CertParamsModel {
        (CertParamsModel {
            serial: self.serial@,
            subject: self.subject@.map_values(|p: NamePart| p@),
            issuer: self.issuer@.map_values(|p: NamePart| p@),
            is_ca: self.is_ca,
            bc_critical: self.bc_critical,
            key_usage: self.key_usage,
            san: match self.san {
                Option::Some(ref s) => Option::Some(s@),
                Option::None => Option::None,
            },
            not_before: self.not_before,
            not_after: self.not_after,
        })
    }
}

/// Seconds in 3650 days, the root CA's validity.
pub open spec fn ca_lifetime() -> u64 {
    315360000u64
}

/// Seconds in 365 days, a leaf's validity.
pub open spec fn leaf_lifetime() -> u64 {
    31536000u64
}

/// The name under which the proxy's own CA signs: C, ST, L, O and CN all
/// read `Rudy`.
pub open spec fn proxy_ca_name() -> Seq<NamePartModel> {
    seq![
        (NamePartModel { kind: seq![67u8], value: seq![82u8, 117u8, 100u8, 121u8] }),
        (NamePartModel { kind: seq![83u8, 84u8], value: seq![82u8, 117u8, 100u8, 121u8] }),
        (NamePartModel { kind: seq![76u8], value: seq![82u8, 117u8, 100u8, 121u8] }),
        (NamePartModel { kind: seq![79u8], value: seq![82u8, 117u8, 100u8, 121u8] }),
        (NamePartModel { kind: seq![67u8, 78u8], value: seq![82u8, 117u8, 100u8, 121u8] }),
    ]
}

/// A single-entry name carrying only a common name.
pub open spec fn cn_only(cn: Seq<u8>) -> Seq<NamePartModel> {
    seq![(NamePartModel { kind: seq![67u8, 78u8], value: cn })]
}

/// One dotted-decimal octet: one to three digits, value at most 255.
pub open spec fn ipv4_octet(s: Seq<u8>) -> bool {
    is_dec_bytes(s) && s.len() <= 3 && dec_value(s) <= 255
}

/// `s` is an IPv4 literal: four dotted-decimal octets.
pub open spec fn is_ipv4_literal(s: Seq<u8>) -> bool {
    match find_byte(s, 0, 46u8) {
        Option::None => false,
        Option::Some(i) => match find_byte(s, i + 1, 46u8) {
            Option::None => false,
            Option::Some(j) => match find_byte(s, j + 1, 46u8) {
                Option::None => false,
                Option::Some(k) => {
                    &&& find_byte(s, k + 1, 46u8) is None
                    &&& ipv4_octet(s.subrange(0, i))
                    &&& ipv4_octet(s.subrange(i + 1, j))
                    &&& ipv4_octet(s.subrange(j + 1, k))
                    &&& ipv4_octet(s.subrange(k + 1, s.len() as int))
                },
            },
        },
    }
}

/// The host with one enclosing bracket pair removed, as an IPv6 authority
/// writes its address.
pub open spec fn strip_brackets(s: Seq<u8>) -> Seq<u8> {
    if s.len() >= 2 && s[0] == 91 && s[s.len() - 1] == 93 {
        s.subrange(1, s.len() - 1)
    } else {
        s
    }
}

/// The subject alternative name a leaf for `host` carries: an IP entry for
/// an IPv4 or IPv6 address literal, a DNS entry otherwise.
pub open spec fn san_for_host(host: Seq<u8>) -> SanModel {
    if crate::ip::is_ip_literal(host) {
        SanModel::Ip(host)
    } else {
        SanModel::Dns(host)
    }
}

/// The parameters of the proxy's root CA, minted at `now`: self-signed
/// under [`proxy_ca_name`], a critical CA BasicConstraints, key usage
/// {keyCertSign, cRLSign}, valid ten years.
pub open spec fn ca_params_spec(now: u64, serial: Seq<u8>) -> CertParamsModel {
    (CertParamsModel {
        serial: serial,
        subject: proxy_ca_name(),
        issuer: proxy_ca_name(),
        is_ca: true,
        bc_critical: true,
        key_usage: (KeyUsageFlags {
            key_cert_sign: true,
            crl_sign: true,
            digital_signature: false,
            key_encipherment: false,
            non_repudiation: false,
        }),
        san: Option::None,
        not_before: now,
        not_after: (now + ca_lifetime()) as u64,
    })
}

/// The parameters of a leaf for `host` minted at `now` under an issuer:
/// subject CN and SAN are the lowercased host, unbracketed, a non-CA
/// BasicConstraints, critical key usage {digitalSignature,
/// keyEncipherment, nonRepudiation}, valid one year.
pub open spec fn leaf_params_spec(
    issuer: Seq<NamePartModel>,
    host: Seq<u8>,
    now: u64,
    serial: Seq<u8>,
) -> CertParamsModel {
    (CertParamsModel {
        serial: serial,
        subject: cn_only(strip_brackets(lower_bytes_spec(host))),
        issuer: issuer,
        is_ca: false,
        bc_critical: false,
        key_usage: (KeyUsageFlags {
            key_cert_sign: false,
            crl_sign: false,
            digital_signature: true,
            key_encipherment: true,
            non_repudiation: true,
        }),
        san: Option::Some(san_for_host(strip_brackets(lower_bytes_spec(host)))),
        not_before: now,
        not_after: (now + leaf_lifetime()) as u64,
    })
}

/// `leaf` chains to `root`: its issuer is `root`'s subject, and `root` is a
/// CA entitled to sign certificates.
pub open spec fn chains_to(leaf: CertParamsModel, root: CertParamsModel) -> bool {
    &&& leaf.issuer == root.subject
    &&& root.is_ca
    &&& root.key_usage.key_cert_sign
}

/// `c` is valid at instant `t`.
pub open spec fn valid_at(c: CertParamsModel, t: u64) -> bool {
    c.not_before <= t <= c.not_after
}

/// Every leaf minted under a root's subject chains to that root and is
/// valid at its minting instant.
pub proof fn lemma_leaf_chains_and_valid(
    ca_now: u64,
    ca_serial: Seq<u8>,
    host: Seq<u8>,
    now: u64,
    serial: Seq<u8>,
)
    requires
        now + leaf_lifetime() <= u64::MAX,
    ensures
        chains_to(
            leaf_params_spec(ca_params_spec(ca_now, ca_serial).subject, host, now, serial),
            ca_params_spec(ca_now, ca_serial),
        ),
        valid_at(
            leaf_params_spec(ca_params_spec(ca_now, ca_serial).subject, host, now, serial),
            now,
        ),
{
}

/// Regenerating the CA keeps its name, so a leaf minted under the new pair
/// still chains to a CA generated at any other time with any other serial:
/// the chain validates under the same root name.
pub proof fn lemma_ca_regeneration_keeps_chain(
    now1: u64,
    serial1: Seq<u8>,
    now2: u64,
    serial2: Seq<u8>,
    host: Seq<u8>,
    now: u64,
    serial: Seq<u8>,
)
    ensures
        ca_params_spec(now1, serial1).subject == ca_params_spec(now2, serial2).subject,
        chains_to(
            leaf_params_spec(ca_params_spec(now1, serial1).subject, host, now, serial),
            ca_params_spec(now2, serial2),
        ),
{
}

/// The root certificate authority as the proxy holds it: its subject name,
/// under which leaves are issued, and the DER encodings of its certificate
/// and private key.
pub struct RootCA {
    pub subject: Vec<NamePart>,
    pub cert_der: Vec<u8>,
    pub key_der: Vec<u8>,
}

/// Spec-level root CA.
pub struct RootCAModel {
    pub subject: Seq<NamePartModel>,
    pub cert_der: Seq<u8>,
    pub key_der: Seq<u8>,
}

impl View for RootCA {
    type V = RootCAModel;

    open spec fn view(&self) -> RootCAModel {
        (RootCAModel {
            subject: self.subject@.map_values(|p: NamePart| p@),
            cert_der: self.cert_der@,
            key_der: self.key_der@,
        })
    }
}

/// Why minting fails: the random serial could not be drawn.
#[derive(Debug, PartialEq, Eq, Structural)]
pub enum CertError {
    Rng,
}

#[verifier::external_type_specification]
#[verifier::external_body]
pub struct ExErrorStack(openssl::error::ErrorStack);

/// Relies on openssl's `BigNum::rand` and `BigNumRef::to_vec`: a fresh
/// 159-bit random number in minimal big-endian bytes, hence at most 20 of
/// them. Nothing else is promised of a random draw.
#[verifier::external_body]
fn random_serial_bytes() -> (r: Result<Vec<u8>, openssl::error::ErrorStack>)
    ensures
        r matches Ok(v) ==> v@.len() <= 20,
{
    let mut bn = openssl::bn::BigNum::new()?;
    bn.rand(159, openssl::bn::MsbOption::MAYBE_ZERO, false)?;
    Ok(bn.to_vec())
}

/// Draws a fresh random serial of at most 20 bytes.
pub fn random_serial() -> (r: Result<Vec<u8>, CertError>)
    ensures
        r matches Ok(v) ==> v@.len() <= 20,
{
    match random_serial_bytes() {
        Ok(v) => Ok(v),
        Err(_) => Err(CertError::Rng),
    }
}

/// Builds a five-entry distinguished name, as the CA generator uses it.
pub fn subject_name(c: &[u8], st: &[u8], l: &[u8], o: &[u8], cn: &[u8]) -> (r: Vec<NamePart>)
    ensures
        r@.map_values(|p: NamePart| p@) =~= seq![
            (NamePartModel { kind: seq![67u8], value: c@ }),
            (NamePartModel { kind: seq![83u8, 84u8], value: st@ }),
            (NamePartModel { kind: seq![76u8], value: l@ }),
            (NamePartModel { kind: seq![79u8], value: o@ }),
            (NamePartModel { kind: seq![67u8, 78u8], value: cn@ }),
        ],
{
    let mut out: Vec<NamePart> = Vec::new();
    let a_c: [u8; 1] = [67];
    let a_st: [u8; 2] = [83, 84];
    let a_l: [u8; 1] = [76];
    let a_o: [u8; 1] = [79];
    let a_cn: [u8; 2] = [67, 78];
    out.push(NamePart { kind: crate::headers::copy_bytes(a_c.as_slice()), value: crate::headers::copy_bytes(c) });
    out.push(NamePart { kind: crate::headers::copy_bytes(a_st.as_slice()), value: crate::headers::copy_bytes(st) });
    out.push(NamePart { kind: crate::headers::copy_bytes(a_l.as_slice()), value: crate::headers::copy_bytes(l) });
    out.push(NamePart { kind: crate::headers::copy_bytes(a_o.as_slice()), value: crate::headers::copy_bytes(o) });
    out.push(NamePart { kind: crate::headers::copy_bytes(a_cn.as_slice()), value: crate::headers::copy_bytes(cn) });
    proof {
        assert(a_c@ =~= seq![67u8]);
        assert(a_st@ =~= seq![83u8, 84u8]);
        assert(a_l@ =~= seq![76u8]);
        assert(a_o@ =~= seq![79u8]);
        assert(a_cn@ =~= seq![67u8, 78u8]);
        assert(out@.len() == 5);
        assert(out@.map_values(|p: NamePart| p@)[0] == out@[0]@);
        assert(out@.map_values(|p: NamePart| p@)[1] == out@[1]@);
        assert(out@.map_values(|p: NamePart| p@)[2] == out@[2]@);
        assert(out@.map_values(|p: NamePart| p@)[3] == out@[3]@);
        assert(out@.map_values(|p: NamePart| p@)[4] == out@[4]@);
    }
    out
}

/// Builds a single-entry name carrying only a common name.
pub fn common_name(cn: &[u8]) -> (r: Vec<NamePart>)
    ensures
        r@.map_values(|p: NamePart| p@) =~= cn_only(cn@),
{
    let mut out: Vec<NamePart> = Vec::new();
    let a_cn: [u8; 2] = [67, 78];
    out.push(NamePart { kind: crate::headers::copy_bytes(a_cn.as_slice()), value: crate::headers::copy_bytes(cn) });
    proof {
        assert(a_cn@ =~= seq![67u8, 78u8]);
        assert(out@.map_values(|p: NamePart| p@)[0] == out@[0]@);
    }
    out
}

/// Whether `s` is an IPv4 literal, exactly as [`is_ipv4_literal`] says.
pub fn is_ipv4_literal_exec(s: &[u8]) -> (r: bool)
    ensures
        r == is_ipv4_literal(s@),
{
    let n = s.len();
    let i = match find_byte_exec(s, 0, 46) {
        Some(i) => i,
        None => {
            return false;
        },
    };
    let j = match find_byte_exec(s, i + 1, 46) {
        Some(j) => j,
        None => {
            return false;
        },
    };
    let k = match find_byte_exec(s, j + 1, 46) {
        Some(k) => k,
        None => {
            return false;
        },
    };
    match find_byte_exec(s, k + 1, 46) {
        Some(_) => false,
        None => {
            let a = octet_ok(vstd::slice::slice_subrange(s, 0, i));
            let b = octet_ok(vstd::slice::slice_subrange(s, i + 1, j));
            let c = octet_ok(vstd::slice::slice_subrange(s, j + 1, k));
            let d = octet_ok(vstd::slice::slice_subrange(s, k + 1, n));
            a && b && c && d
        },
    }
}

/// Whether `t` is one dotted-decimal octet.
fn octet_ok(t: &[u8]) -> (r: bool)
    ensures
        r == ipv4_octet(t@),
{
    if t.len() == 0 || t.len() > 3 {
        return false;
    }
    match crate::num::parse_dec(t) {
        Some(v) => v <= 255,
        None => false,
    }
}

/// The host with one enclosing bracket pair removed, exactly as
/// [`strip_brackets`] says.
pub fn strip_brackets_exec(s: &[u8]) -> (r: Vec<u8>)
    ensures
        r@ == strip_brackets(s@),
{
    let n = s.len();
    if n >= 2 && s[0] == 91 && s[n - 1] == 93 {
        crate::headers::copy_bytes(vstd::slice::slice_subrange(s, 1, n - 1))
    } else {
        crate::headers::copy_bytes(s)
    }
}

/// Generates the proxy's root CA parameters at instant `now`, with a fresh
/// random serial: self-signed, a certificate authority for ten years.
pub fn gen_ca(now: u64) -> (r: Result<CertParams, CertError>)
    requires
        now + ca_lifetime() <= u64::MAX,
    ensures
        match r {
            Result::Ok(p) => p@ == ca_params_spec(now, p@.serial) && p@.serial.len() <= 20,
            Result::Err(e) => e == CertError::Rng,
        },
{
    let serial = match random_serial() {
        Ok(v) => v,
        Err(e) => {
            return Err(e);
        },
    };
    let rudy: [u8; 4] = [82, 117, 100, 121];
    let subject = subject_name(
        rudy.as_slice(),
        rudy.as_slice(),
        rudy.as_slice(),
        rudy.as_slice(),
        rudy.as_slice(),
    );
    let issuer = subject_name(
        rudy.as_slice(),
        rudy.as_slice(),
        rudy.as_slice(),
        rudy.as_slice(),
        rudy.as_slice(),
    );
    let p = CertParams {
        serial,
        subject,
        issuer,
        is_ca: true,
        bc_critical: true,
        key_usage: KeyUsageFlags {
            key_cert_sign: true,
            crl_sign: true,
            digital_signature: false,
            key_encipherment: false,
            non_repudiation: false,
        },
        san: None,
        not_before: now,
        not_after: now + 315360000,
    };
    proof {
        assert(rudy@ =~= seq![82u8, 117u8, 100u8, 121u8]);
        assert(p@.subject =~= proxy_ca_name());
        assert(p@.issuer =~= proxy_ca_name());
        assert(p@ == ca_params_spec(now, p@.serial));
    }
    Ok(p)
}

/// Mints the parameters of a leaf for `common_name` under the issuer name
/// `issuer`, at instant `now`, with a fresh random serial.
pub fn gen_cert(issuer: &Vec<NamePart>, common_name_host: &[u8], now: u64) -> (r: Result<
    CertParams,
    CertError,
>)
    requires
        now + leaf_lifetime() <= u64::MAX,
    ensures
        match r {
            Result::Ok(p) => p@ == leaf_params_spec(
                issuer@.map_values(|q: NamePart| q@),
                common_name_host@,
                now,
                p@.serial,
            ) && p@.serial.len() <= 20,
            Result::Err(e) => e == CertError::Rng,
        },
{
    let serial = match random_serial() {
        Ok(v) => v,
        Err(e) => {
            return Err(e);
        },
    };
    let host = crate::dispatch::lower_bytes(common_name_host);
    let bare = strip_brackets_exec(host.as_slice());
    let subject = common_name(bare.as_slice());
    let san = if crate::ip::is_ip_literal_exec(bare.as_slice()) {
        SanEntry::Ip(crate::headers::copy_bytes(bare.as_slice()))
    } else {
        SanEntry::Dns(crate::headers::copy_bytes(bare.as_slice()))
    };
    let ghost im = issuer@.map_values(|q: NamePart| q@);
    let mut issuer_copy: Vec<NamePart> = Vec::new();
    let mut i: usize = 0;
    while i < issuer.len()
        invariant
            0 <= i <= issuer@.len(),
            im == issuer@.map_values(|q: NamePart| q@),
            issuer_copy@.map_values(|q: NamePart| q@) == im.subrange(0, i as int),
        decreases issuer@.len() - i,
    {
        let part = NamePart {
            kind: crate::headers::copy_bytes(issuer[i].kind.as_slice()),
            value: crate::headers::copy_bytes(issuer[i].value.as_slice()),
        };
        issuer_copy.push(part);
        proof {
            assert(issuer_copy@.last()@ == issuer@[i as int]@);
            assert(im[i as int] == issuer@[i as int]@);
            assert(issuer_copy@.map_values(|q: NamePart| q@) =~= im.subrange(0, i as int).push(
                im[i as int],
            ));
            assert(im.subrange(0, i as int).push(im[i as int]) =~= im.subrange(0, i + 1));
        }
        i = i + 1;
    }
    proof {
        assert(im.subrange(0, im.len() as int) =~= im);
    }
    let p = CertParams {
        serial,
        subject,
        issuer: issuer_copy,
        is_ca: false,
        bc_critical: false,
        key_usage: KeyUsageFlags {
            key_cert_sign: false,
            crl_sign: false,
            digital_signature: true,
            key_encipherment: true,
            non_repudiation: true,
        },
        san: Some(san),
        not_before: now,
        not_after: now + 31536000,
    };
    proof {
        assert(p@.subject =~= cn_only(strip_brackets(lower_bytes_spec(common_name_host@))));
        assert(p@ == leaf_params_spec(
            issuer@.map_values(|q: NamePart| q@),
            common_name_host@,
            now,
            p@.serial,
        ));
    }
    Ok(p)
}

} // verus!
