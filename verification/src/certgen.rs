//! Keys, certificates and signing requests made or read by outside
//! crates.

use vstd::prelude::*;
use vstd::utf8::is_ascii_chars;
use crate::encoding::SHA256_LEN;
use crate::text::{byte_rows, strs};

verus! {

/// What a freshly generated key pair and its signing request hold.
pub struct SigningRequestView {
    pub private_key_der: Seq<u8>,
    pub private_key_pem: Seq<u8>,
    pub csr_der: Seq<u8>,
}

/// A freshly generated key pair and the signing request made with it.
#[derive(Debug, PartialEq, Eq)]
pub struct SigningRequest {
    /// The private key in DER.
    pub private_key_der: Vec<u8>,
    /// The private key in PEM.
    pub private_key_pem: Vec<u8>,
    /// The signing request in DER.
    pub csr_der: Vec<u8>,
}

impl View for SigningRequest {
    type V = SigningRequestView;

    open spec fn view(&self) -> SigningRequestView {
        SigningRequestView {
            private_key_der: self.private_key_der@,
            private_key_pem: self.private_key_pem@,
            csr_der: self.csr_der@,
        }
    }
}

/// Whether every name of a list consists of ASCII characters.
pub open spec fn all_ascii(names: Seq<Seq<char>>) -> bool {
    forall|i: int| 0 <= i < names.len() ==> is_ascii_chars(#[trigger] names[i])
}

/// The DER certificates of the sections of a PEM text that are marked as
/// certificates, in their order, or `None` if the text is malformed.
pub uninterp spec fn pem_certificates(pem: Seq<u8>) -> Option<Seq<Seq<u8>>>;

/// The views of the certificates of an optional chain.
pub open spec fn chain_view(chain: Option<Vec<Vec<u8>>>) -> Option<Seq<Seq<u8>>> {
    match chain {
        Some(c) => Some(byte_rows(c@)),
        None => None,
    }
}

/// Calls `rustls_pemfile::certs` on an in-memory reader. Trusted: the
/// result depends on the bytes of `pem` alone; it is the list of
/// certificates of the text, and `None` stands for the routine's error on
/// a malformed text.
#[verifier::external_body]
pub(crate) fn parse_certificates(pem: &[u8]) -> (chain: Option<Vec<Vec<u8>>>)
    ensures
        chain_view(chain) == pem_certificates(pem@),
{
    let mut reader = pem;
    rustls_pemfile::certs(&mut reader).ok()
}

/// Calls `rcgen::Certificate::from_params` for a fresh ECDSA P-256 key
/// pair and a self-signed certificate for `domain` alone that carries
/// `digest` in the ACME identifier extension, made by
/// `rcgen::CustomExtension::new_acme_identifier`, and serializes it with
/// `serialize_der`. The result is the certificate and its private key,
/// both in DER; `None` stands for an error of the crate. The key is
/// generated anew at every call, so nothing is stated of the result. The
/// crate panics on a digest that is not 32 bytes long and on a name that
/// is not ASCII, so such arguments are excluded.
#[verifier::external_body]
pub(crate) fn generate_challenge_certificate(domain: &str, digest: &[u8]) -> (cert: Option<
    (Vec<u8>, Vec<u8>),
>)
    requires
        is_ascii_chars(domain@),
        digest@.len() == SHA256_LEN,
{
    let mut params = rcgen::CertificateParams::new(vec![domain.to_string()]);
    params.alg = &rcgen::PKCS_ECDSA_P256_SHA256;
    params.custom_extensions = vec![rcgen::CustomExtension::new_acme_identifier(digest)];
    let cert = rcgen::Certificate::from_params(params).ok()?;
    let der = cert.serialize_der().ok()?;
    Some((der, cert.serialize_private_key_der()))
}

/// Calls `rcgen::Certificate::from_params` for a fresh ECDSA P-256 key
/// pair and `serialize_request_der` for a signing request that names
/// exactly `domains`, with an empty distinguished name. `None` stands for
/// an error of the crate. The key is generated anew at every call, so
/// nothing is stated of the result. The crate panics on a name that is
/// not ASCII, so such lists are excluded.
#[verifier::external_body]
pub(crate) fn generate_signing_request(domains: &Vec<String>) -> (request: Option<SigningRequest>)
    requires
        all_ascii(strs(domains@)),
{
    let mut params = rcgen::CertificateParams::new(domains.clone());
    params.distinguished_name = rcgen::DistinguishedName::new();
    params.alg = &rcgen::PKCS_ECDSA_P256_SHA256;
    let cert = rcgen::Certificate::from_params(params).ok()?;
    let csr_der = cert.serialize_request_der().ok()?;
    let private_key_der = cert.serialize_private_key_der();
    let private_key_pem = cert.serialize_private_key_pem().into_bytes();
    Some(SigningRequest { private_key_der, private_key_pem, csr_der })
}

} // verus!
