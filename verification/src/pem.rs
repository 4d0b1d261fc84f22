//! Loading the root CA from its PEM files.
//!
//! The PEM sections are split and decoded by `rustls-pemfile`; the library
//! states what those calls return and decides everything else: which
//! section becomes the certificate, which the key, and which failures
//! refuse to start the proxy.

use vstd::prelude::*;

use crate::cert::{NamePart, RootCA};

verus! {

/// The DER blocks of the CERTIFICATE sections of a PEM byte stream, in
/// order, or nothing when the stream is not well-formed PEM. The result is
/// a function of the bytes alone.
pub uninterp spec fn pem_certs(input: Seq<u8>) -> Option<Seq<Seq<u8>>>;

/// The DER blocks of the PKCS#8 PRIVATE KEY sections of a PEM byte stream,
/// in order, or nothing when the stream is not well-formed PEM. The result
/// is a function of the bytes alone.
pub uninterp spec fn pem_pkcs8_keys(input: Seq<u8>) -> Option<Seq<Seq<u8>>>;

/// Relies on rustls_pemfile::certs: it walks the PEM sections of the input
/// and returns the base64-decoded DER of each CERTIFICATE section, in
/// order, failing only on malformed PEM; the result depends on the bytes
/// alone.
#[verifier::external_body]
fn pem_certs_exec(input: &[u8]) -> (r: Option<Vec<Vec<u8>>>)
    ensures
        r is Some <==> pem_certs(input@) is Some,
        r matches Option::Some(v) ==> pem_certs(input@) matches Option::Some(ds) && v@.map_values(
            |d: Vec<u8>| d@,
        ) == ds,
{
    let mut rd: &[u8] = input;
    rustls_pemfile::certs(&mut rd).ok()
}

/// Relies on rustls_pemfile::pkcs8_private_keys: it walks the PEM sections
/// of the input and returns the base64-decoded DER of each PRIVATE KEY
/// section, in order, failing only on malformed PEM; the result depends on
/// the bytes alone.
#[verifier::external_body]
fn pem_pkcs8_keys_exec(input: &[u8]) -> (r: Option<Vec<Vec<u8>>>)
    ensures
        r is Some <==> pem_pkcs8_keys(input@) is Some,
        r matches Option::Some(v) ==> pem_pkcs8_keys(input@) matches Option::Some(ds)
            && v@.map_values(|d: Vec<u8>| d@) == ds,
{
    let mut rd: &[u8] = input;
    rustls_pemfile::pkcs8_private_keys(&mut rd).ok()
}

/// Why the CA material cannot be loaded; each is fatal at startup.
#[derive(Debug, PartialEq, Eq, Structural)]
pub enum LoadError {
    /// The certificate file is not well-formed PEM.
    CertParse,
    /// The certificate file holds no CERTIFICATE section.
    CertMissing,
    /// The key file is not well-formed PEM.
    KeyParse,
    /// The key file holds no PRIVATE KEY section.
    KeyMissing,
}

/// The root CA's raw material: the DER of its certificate and private key.
#[derive(Debug)]
pub struct CaMaterial {
    pub cert_der: Vec<u8>,
    pub key_der: Vec<u8>,
}

/// Reads the CA certificate and key out of their PEM bytes: the first
/// CERTIFICATE section and the first PRIVATE KEY section. Fails exactly
/// when a file is malformed PEM or lacks its section, certificate trouble
/// reported first.
pub fn load_ca(cert_pem: &[u8], key_pem: &[u8]) -> (r: Result<CaMaterial, LoadError>)
    ensures
        match r {
            Result::Ok(m) => {
                &&& pem_certs(cert_pem@) matches Option::Some(cs) && cs.len() > 0 && m.cert_der@
                    == cs[0]
                &&& pem_pkcs8_keys(key_pem@) matches Option::Some(ks) && ks.len() > 0 && m.key_der@
                    == ks[0]
            },
            Result::Err(e) => match e {
                LoadError::CertParse => pem_certs(cert_pem@) is None,
                LoadError::CertMissing => pem_certs(cert_pem@) matches Option::Some(cs) && cs.len()
                    == 0,
                LoadError::KeyParse => pem_certs(cert_pem@) matches Option::Some(cs) && cs.len()
                    > 0 && pem_pkcs8_keys(key_pem@) is None,
                LoadError::KeyMissing => {
                    &&& pem_certs(cert_pem@) matches Option::Some(cs) && cs.len() > 0
                    &&& pem_pkcs8_keys(key_pem@) matches Option::Some(ks) && ks.len() == 0
                },
            },
        },
{
    let mut certs = match pem_certs_exec(cert_pem) {
        Some(v) => v,
        None => {
            return Err(LoadError::CertParse);
        },
    };
    if certs.len() == 0 {
        return Err(LoadError::CertMissing);
    }
    let mut keys = match pem_pkcs8_keys_exec(key_pem) {
        Some(v) => v,
        None => {
            return Err(LoadError::KeyParse);
        },
    };
    if keys.len() == 0 {
        return Err(LoadError::KeyMissing);
    }
    let cert_der = certs.remove(0);
    let key_der = keys.remove(0);
    Ok(CaMaterial { cert_der, key_der })
}

impl RootCA {
    /// Builds the root CA from its PEM bytes and the subject name under
    /// which it signs, as the caller read it from the certificate.
    pub fn from_pem(cert_pem: &[u8], key_pem: &[u8], subject: Vec<NamePart>) -> (r: Result<
        RootCA,
        LoadError,
    >)
        ensures
            match r {
                Result::Ok(ca) => {
                    &&& pem_certs(cert_pem@) matches Option::Some(cs) && cs.len() > 0
                        && ca.cert_der@ == cs[0]
                    &&& pem_pkcs8_keys(key_pem@) matches Option::Some(ks) && ks.len() > 0
                        && ca.key_der@ == ks[0]
                    &&& ca.subject@ == subject@
                },
                Result::Err(e) => match e {
                    LoadError::CertParse => pem_certs(cert_pem@) is None,
                    LoadError::CertMissing => pem_certs(cert_pem@) matches Option::Some(cs)
                        && cs.len() == 0,
                    LoadError::KeyParse => pem_certs(cert_pem@) matches Option::Some(cs)
                        && cs.len() > 0 && pem_pkcs8_keys(key_pem@) is None,
                    LoadError::KeyMissing => {
                        &&& pem_certs(cert_pem@) matches Option::Some(cs) && cs.len() > 0
                        &&& pem_pkcs8_keys(key_pem@) matches Option::Some(ks) && ks.len() == 0
                    },
                },
            },
    {
        match load_ca(cert_pem, key_pem) {
            Ok(m) => Ok(RootCA { subject, cert_der: m.cert_der, key_der: m.key_der }),
            Err(e) => Err(e),
        }
    }
}

} // verus!
