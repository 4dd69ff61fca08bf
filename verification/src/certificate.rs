//! The certificate model: a parsed certificate, held by its DER encoding.

use crate::bytes::{copy_bytes, same_bytes};
use crate::encoding::{identify_cert, is_pem, is_pem_readable, pem_readable, EncodingFormat};
use crate::error::CertError;
use crate::table::{role_of, CertTableEntry};
use crate::x509::{
    check_signature, der_of_der, der_of_pem, der_to_pem, pem_of_der, pem_to_der, reencode_der,
};
use vstd::prelude::*;

verus! {

/// A DER encoding is settled when it is not mistaken for PEM and parsing it
/// and serializing it again gives the same bytes.
pub open spec fn settled(der: Seq<u8>) -> bool {
    !is_pem(der) && der_of_der(der) == Some(der)
}

/// The DER encoding that the parser makes of a buffer, read in the encoding
/// that its first bytes announce. A buffer that announces PEM and cannot be
/// handed to the PEM reader holds no certificate.
pub open spec fn first_reading(bytes: Seq<u8>) -> Option<Seq<u8>> {
    if !is_pem(bytes) {
        der_of_der(bytes)
    } else if pem_readable(bytes) {
        der_of_pem(bytes)
    } else {
        None
    }
}

/// The certificate that a buffer holds, by its DER encoding: what the parser
/// makes of the buffer, provided that encoding is settled.
pub open spec fn spec_parse(bytes: Seq<u8>) -> Option<Seq<u8>> {
    match first_reading(bytes) {
        Some(der) => if settled(der) {
            Some(der)
        } else {
            None
        },
        None => None,
    }
}

/// The bytes of a certificate in the target encoding. DER is the certificate's
/// own encoding. PEM is what the serializer writes, provided it opens with
/// the PEM line, can be handed to the PEM reader and reads back as the same
/// certificate.
pub open spec fn spec_to_encoding(der: Seq<u8>, target: EncodingFormat) -> Option<Seq<u8>> {
    match target {
        EncodingFormat::Der => Some(der),
        EncodingFormat::Pem => match pem_of_der(der) {
            Some(pem) => if is_pem(pem) && pem_readable(pem) && der_of_pem(pem) == Some(der) {
                Some(pem)
            } else {
                None
            },
            None => None,
        },
    }
}

/// Re-parsing the output of a conversion gives the certificate that was
/// converted, whatever the target encoding.
pub proof fn lemma_reparse(der: Seq<u8>, target: EncodingFormat, out: Seq<u8>)
    requires
        settled(der),
        spec_to_encoding(der, target) == Some(out),
    ensures
        spec_parse(out) == Some(der),
{
}

/// A parsed certificate is settled.
pub proof fn lemma_parse_settled(bytes: Seq<u8>, der: Seq<u8>)
    requires
        spec_parse(bytes) == Some(der),
    ensures
        settled(der),
{
}

/// From PEM to DER and back to PEM: a certificate parsed from any buffer,
/// written as DER and parsed again, is the same certificate and so has the
/// same PEM encoding; and that PEM encoding, sent through DER and back,
/// comes out byte for byte as it went in.
pub proof fn lemma_pem_der_pem(source: Seq<u8>, cert: Seq<u8>, pem: Seq<u8>)
    requires
        spec_parse(source) == Some(cert),
        spec_to_encoding(cert, EncodingFormat::Pem) == Some(pem),
    ensures
        spec_to_encoding(cert, EncodingFormat::Der) == Some(cert),
        spec_parse(cert) == Some(cert),
        spec_parse(pem) == Some(cert),
        spec_to_encoding(spec_parse(pem).unwrap(), EncodingFormat::Der) == Some(cert),
        spec_to_encoding(spec_parse(cert).unwrap(), EncodingFormat::Pem) == Some(pem),
{
}

/// One parsed certificate. It is never changed after it was made; converting
/// it gives a new buffer.
#[derive(Debug, PartialEq, Eq)]
pub struct Certificate {
    der: Vec<u8>,
}

impl View for Certificate {
    type V = Seq<u8>;

    closed spec fn view(&self) -> Seq<u8> {
        self.der@
    }
}

impl Clone for Certificate {
    fn clone(&self) -> (copy: Certificate)
        ensures
            copy@ == self@,
    {
        proof {
            use_type_invariant(self);
        }
        Certificate { der: copy_bytes(self.der.as_slice()) }
    }
}

impl Certificate {
    #[verifier::type_invariant]
    spec fn inv(&self) -> bool {
        settled(self.der@)
    }

    /// Parses a buffer in the encoding that its first bytes announce.
    /// `None` when the parser rejects the buffer, or when the DER encoding
    /// it arrives at is not settled. A buffer that announces PEM is not
    /// parsed, and gives `None`, when it is longer than a signed 32-bit
    /// length or holds the header words of an encrypted block.
    pub fn from_bytes(bytes: &[u8]) -> (cert: Option<Certificate>)
        ensures
            match cert {
                Some(c) => spec_parse(bytes@) == Some(c@),
                None => spec_parse(bytes@) is None,
            },
    {
        let first = match identify_cert(bytes) {
            EncodingFormat::Pem => {
                if !is_pem_readable(bytes) {
                    return None;
                }
                pem_to_der(bytes)
            },
            EncodingFormat::Der => reencode_der(bytes),
        };
        match first {
            None => None,
            Some(der) => {
                if identify_cert(der.as_slice()) == EncodingFormat::Pem {
                    return None;
                }
                match reencode_der(der.as_slice()) {
                    None => None,
                    Some(again) => {
                        if same_bytes(again.as_slice(), der.as_slice()) {
                            Some(Certificate { der })
                        } else {
                            None
                        }
                    },
                }
            },
        }
    }

    /// Parses the certificate of a table entry. Fails with
    /// `InvalidCertificate`, which carries the entry's role, when the bytes
    /// do not form a certificate in the encoding they announce.
    pub fn parse(entry: &CertTableEntry) -> (res: Result<Certificate, CertError>)
        ensures
            match res {
                Ok(c) => spec_parse(entry@.data) == Some(c@),
                Err(e) => spec_parse(entry@.data) is None && e == CertError::InvalidCertificate(
                    role_of(entry@.guid),
                ),
            },
    {
        match Certificate::from_bytes(entry.data.as_slice()) {
            Some(cert) => Ok(cert),
            None => Err(CertError::InvalidCertificate(entry.role())),
        }
    }

    /// The certificate in the target encoding, as a new buffer. Fails with
    /// `InvalidCertificate` when the serializer gives nothing, or gives
    /// something that would not read back as this certificate.
    pub fn to_encoding(&self, target: EncodingFormat) -> (res: Result<Vec<u8>, CertError>)
        ensures
            settled(self@),
            match res {
                Ok(out) => spec_to_encoding(self@, target) == Some(out@) && spec_parse(out@)
                    == Some(self@),
                Err(e) => spec_to_encoding(self@, target) is None && e
                    == CertError::InvalidCertificate(None),
            },
    {
        proof {
            use_type_invariant(self);
        }
        match target {
            EncodingFormat::Der => Ok(copy_bytes(self.der.as_slice())),
            EncodingFormat::Pem => {
                match der_to_pem(self.der.as_slice()) {
                    None => Err(CertError::InvalidCertificate(None)),
                    Some(pem) => {
                        if identify_cert(pem.as_slice()) != EncodingFormat::Pem
                            || !is_pem_readable(pem.as_slice()) {
                            return Err(CertError::InvalidCertificate(None));
                        }
                        match pem_to_der(pem.as_slice()) {
                            None => Err(CertError::InvalidCertificate(None)),
                            Some(back) => {
                                if same_bytes(back.as_slice(), self.der.as_slice()) {
                                    Ok(pem)
                                } else {
                                    Err(CertError::InvalidCertificate(None))
                                }
                            },
                        }
                    },
                }
            },
        }
    }

    /// The DER encoding of the certificate.
    pub fn der(&self) -> (der: &Vec<u8>)
        ensures
            der@ == self@,
            settled(self@),
    {
        proof {
            use_type_invariant(self);
        }
        &self.der
    }

    /// Whether the public key of this certificate verifies the signature on
    /// `subject`, as the cryptographic library of the process sees it.
    /// Nothing is promised of the answer: it depends on the algorithms that
    /// the process has at hand. The chain verifier takes its check as an
    /// argument and is proved for whatever a check answers.
    pub fn signs(&self, subject: &Certificate) -> (ok: bool)
    {
        check_signature(self.der.as_slice(), subject.der.as_slice())
    }
}

} // verus!
