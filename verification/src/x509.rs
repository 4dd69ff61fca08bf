//! The X.509 operations taken from the `sev` crate.
//!
//! Nothing in this file is proved. Each function hands bytes to the `sev`
//! crate's `Certificate` and gets bytes or a verdict back. Where what comes
//! back depends on the bytes alone it is given a name, and the rest of the
//! library reasons about that name only. The verdict on a signature gets
//! none: it also depends on the cryptographic providers that the process has
//! loaded.

use crate::encoding::pem_readable;
use sev::certs::snp::{Certificate, Verifiable};
use vstd::prelude::*;

verus! {

/// What parsing a buffer as DER and serializing the certificate as DER again
/// gives; `None` where either step fails.
pub uninterp spec fn der_of_der(bytes: Seq<u8>) -> Option<Seq<u8>>;

/// What parsing a buffer as PEM and serializing the certificate as DER gives;
/// `None` where either step fails. It stands for the parser's answer on
/// buffers that can be handed to the PEM reader.
pub uninterp spec fn der_of_pem(bytes: Seq<u8>) -> Option<Seq<u8>>;

/// What parsing a buffer as DER and serializing the certificate as PEM gives;
/// `None` where either step fails.
pub uninterp spec fn pem_of_der(bytes: Seq<u8>) -> Option<Seq<u8>>;

/// Calls `sev::certs::snp::Certificate::from_der` on the buffer and
/// `Certificate::to_der` on the certificate. Trusted: the outcome is a
/// function of the bytes alone, named `der_of_der`.
#[verifier::external_body]
pub(crate) fn reencode_der(bytes: &[u8]) -> (der: Option<Vec<u8>>)
    ensures
        match der {
            Some(d) => der_of_der(bytes@) == Some(d@),
            None => der_of_der(bytes@) is None,
        },
{
    match Certificate::from_der(bytes) {
        Ok(cert) => cert.to_der().ok(),
        Err(_) => None,
    }
}

/// Calls `sev::certs::snp::Certificate::from_pem` on the buffer and
/// `Certificate::to_der` on the certificate. Trusted: the outcome is a
/// function of the bytes alone, named `der_of_pem`. The reader panics on a
/// buffer longer than a signed 32-bit length, and asks the terminal for a
/// pass phrase when a block has an encryption header; both are left out.
#[verifier::external_body]
pub(crate) fn pem_to_der(bytes: &[u8]) -> (der: Option<Vec<u8>>)
    requires
        pem_readable(bytes@),
    ensures
        match der {
            Some(d) => der_of_pem(bytes@) == Some(d@),
            None => der_of_pem(bytes@) is None,
        },
{
    match Certificate::from_pem(bytes) {
        Ok(cert) => cert.to_der().ok(),
        Err(_) => None,
    }
}

/// Calls `sev::certs::snp::Certificate::from_der` on the buffer and
/// `Certificate::to_pem` on the certificate. Trusted: the outcome is a
/// function of the bytes alone, named `pem_of_der`.
#[verifier::external_body]
pub(crate) fn der_to_pem(bytes: &[u8]) -> (pem: Option<Vec<u8>>)
    ensures
        match pem {
            Some(p) => pem_of_der(bytes@) == Some(p@),
            None => pem_of_der(bytes@) is None,
        },
{
    match Certificate::from_der(bytes) {
        Ok(cert) => cert.to_pem().ok(),
        Err(_) => None,
    }
}

/// Calls `sev::certs::snp::Certificate::from_der` on both buffers and
/// `Verifiable::verify` on the pair of certificates, signer first; a buffer
/// that does not parse gives `false`. The answer carries no contract: which
/// algorithms are at hand to check a signature is settled by the
/// configuration of the process, not by the two buffers.
#[verifier::external_body]
pub(crate) fn check_signature(signer: &[u8], subject: &[u8]) -> (ok: bool)
{
    match (Certificate::from_der(signer), Certificate::from_der(subject)) {
        (Ok(key), Ok(cert)) => (&key, &cert).verify().is_ok(),
        _ => false,
    }
}

} // verus!
