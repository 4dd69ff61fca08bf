//! What can go wrong while handling certificates.

use crate::table::CertRole;
use vstd::prelude::*;

verus! {

/// The failures of the certificate chain operations.
#[derive(Clone, Copy, Debug, PartialEq, Eq)]
pub enum CertError {
    /// The binary layout of a certificate table is inconsistent.
    MalformedTable,
    /// Two entries claim the same role of the trust chain.
    DuplicateRole(CertRole),
    /// The bytes do not form a certificate in the encoding they announce.
    /// Carries the role of the entry, where it has one.
    InvalidCertificate(Option<CertRole>),
    /// A certificate that the operation needs was not supplied.
    MissingFile(CertRole),
    /// The distribution service has no certificate for the request.
    NotFound,
    /// The distribution service could not be reached.
    TransportError,
    /// The distribution service answered with something other than a certificate.
    UnexpectedResponse,
}

} // verus!
