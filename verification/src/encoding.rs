//! Telling the two standard certificate encodings apart.

use crate::bytes::{contains, occurs};
use vstd::prelude::*;

verus! {

/// The encodings a certificate can be stored in.
#[derive(Clone, Copy, Debug, PartialEq, Eq, Structural)]
pub enum EncodingFormat {
    /// Binary ASN.1 DER.
    Der,
    /// Base64 text between `BEGIN CERTIFICATE` and `END CERTIFICATE` lines.
    Pem,
}

/// The ASCII bytes of `-----BEGIN CERTIFICATE-----`.
pub const PEM_START: [u8; 27] = [
    0x2d, 0x2d, 0x2d, 0x2d, 0x2d, 0x42, 0x45, 0x47, 0x49, 0x4e, 0x20, 0x43, 0x45, 0x52, 0x54, 0x49,
    0x46, 0x49, 0x43, 0x41, 0x54, 0x45, 0x2d, 0x2d, 0x2d, 0x2d, 0x2d,
];

/// The ASCII bytes of `Proc-Type:`, the words that open the header of an
/// encrypted PEM block.
pub const PROC_TYPE: [u8; 10] = [0x50, 0x72, 0x6f, 0x63, 0x2d, 0x54, 0x79, 0x70, 0x65, 0x3a];

/// The longest buffer that is handed to the PEM reader.
pub const PEM_LIMIT: usize = 0x7fff_ffff;

/// A buffer can be handed to the PEM reader when it is no longer than a
/// signed 32-bit length and nowhere holds the words that open the header of
/// an encrypted block. The reader refuses certificates under such a header
/// in any case, but not before it has asked for a pass phrase.
pub open spec fn pem_readable(buf: Seq<u8>) -> bool {
    buf.len() <= 0x7fff_ffff && !occurs(buf, PROC_TYPE@)
}

/// Whether a buffer can be handed to the PEM reader.
pub fn is_pem_readable(buf: &[u8]) -> (readable: bool)
    ensures
        readable == pem_readable(buf@),
{
    buf.len() <= PEM_LIMIT && !contains(buf, PROC_TYPE.as_slice())
}

/// A buffer counts as PEM when it begins with the PEM opening line.
pub open spec fn is_pem(buf: Seq<u8>) -> bool {
    buf.len() >= 27 && buf.subrange(0, 27) == PEM_START@
}

/// The encoding a buffer is taken to be in: PEM by its opening line, DER otherwise.
pub open spec fn spec_identify_cert(buf: Seq<u8>) -> EncodingFormat {
    if is_pem(buf) {
        EncodingFormat::Pem
    } else {
        EncodingFormat::Der
    }
}

/// Classifies a buffer by its first 27 bytes. Anything that does not begin
/// with the PEM opening line, a buffer shorter than the line included, is
/// taken to be DER; whether it really is one is left to the certificate parser.
pub fn identify_cert(buf: &[u8]) -> (fmt: EncodingFormat)
    ensures
        fmt == spec_identify_cert(buf@),
{
    if buf.len() < 27 {
        return EncodingFormat::Der;
    }
    let mut i: usize = 0;
    while i < 27
        invariant
            i <= 27,
            buf@.len() >= 27,
            forall|j: int| 0 <= j < i ==> buf@[j] == PEM_START@[j],
        decreases 27 - i,
    {
        if buf[i] != PEM_START[i] {
            return EncodingFormat::Der;
        }
        i += 1;
    }
    assert(buf@.subrange(0, 27) =~= PEM_START@);
    EncodingFormat::Pem
}

impl EncodingFormat {
    /// The file extension that goes with the encoding.
    pub open spec fn spec_extension(self) -> Seq<char> {
        match self {
            EncodingFormat::Der => "der"@,
            EncodingFormat::Pem => "pem"@,
        }
    }

    /// The file extension that goes with the encoding, `der` or `pem`.
    pub fn extension(&self) -> (ext: &'static str)
        ensures
            ext@ == self.spec_extension(),
    {
        match self {
            EncodingFormat::Der => "der",
            EncodingFormat::Pem => "pem",
        }
    }
}

} // verus!
