//! Retrieving certificates from the key distribution service (KDS).
//!
//! The library says where to ask and what to make of the answer; the caller
//! carries the request over the network.

use crate::bytes::{copy_bytes, copy_range};
use crate::certificate::{settled, spec_parse, Certificate};
use crate::encoding::{identify_cert, is_pem, EncodingFormat, PEM_START};
use crate::error::CertError;
use crate::table::{CertRole, CertTableEntry, EntryView};
use crate::text::{push_hex, push_two_digits, spec_hex, spec_two_digits};
use vstd::prelude::*;
use vstd::string::*;

verus! {

/// The processor generations that the service knows.
#[derive(Clone, Copy, Debug, PartialEq, Eq, Structural)]
pub enum ProcessorModel {
    Milan,
    Genoa,
    Bergamo,
    Siena,
    Turin,
}

impl ProcessorModel {
    /// The product name under which the service files the generation.
    /// Bergamo and Siena are filed under Genoa.
    pub open spec fn spec_product_name(self) -> Seq<char> {
        match self {
            ProcessorModel::Milan => "Milan"@,
            ProcessorModel::Genoa => "Genoa"@,
            ProcessorModel::Bergamo => "Genoa"@,
            ProcessorModel::Siena => "Genoa"@,
            ProcessorModel::Turin => "Turin"@,
        }
    }

    /// The product name under which the service files the generation.
    pub fn product_name(&self) -> (name: &'static str)
        ensures
            name@ == self.spec_product_name(),
    {
        match self {
            ProcessorModel::Milan => "Milan",
            ProcessorModel::Genoa => "Genoa",
            ProcessorModel::Bergamo => "Genoa",
            ProcessorModel::Siena => "Genoa",
            ProcessorModel::Turin => "Turin",
        }
    }
}

/// The versions of the firmware components of the trusted computing base.
#[derive(Clone, Copy, Debug, PartialEq, Eq)]
pub struct TcbVersion {
    /// The version of the FMC firmware, on generations that report one.
    pub fmc: Option<u8>,
    pub bootloader: u8,
    pub tee: u8,
    pub snp: u8,
    pub microcode: u8,
}

/// What identifies a platform to the service.
#[derive(Debug, PartialEq, Eq)]
pub struct PlatformIdentity {
    pub model: ProcessorModel,
    /// The unique identifier of the chip.
    pub chip_id: Vec<u8>,
    pub tcb: TcbVersion,
}

/// The part of the chip identifier that the service is asked by: on Turin
/// its first eight bytes, else all of it.
pub open spec fn spec_hardware_id(model: ProcessorModel, chip_id: Seq<u8>) -> Seq<u8> {
    if model == ProcessorModel::Turin && chip_id.len() > 8 {
        chip_id.take(8)
    } else {
        chip_id
    }
}

/// The query that names the firmware versions.
pub open spec fn spec_tcb_query(tcb: TcbVersion) -> Seq<char> {
    (match tcb.fmc {
        Some(fmc) => "fmcSPL="@ + spec_two_digits(fmc) + "&"@,
        None => Seq::<char>::empty(),
    }) + "blSPL="@ + spec_two_digits(tcb.bootloader) + "&teeSPL="@ + spec_two_digits(tcb.tee)
        + "&snpSPL="@ + spec_two_digits(tcb.snp) + "&ucodeSPL="@ + spec_two_digits(tcb.microcode)
}

/// The address to ask for a role's certificate. The root and the
/// intermediate come together, as the certificate chain of the product; the
/// leaf is filed under the chip and the firmware versions.
pub open spec fn spec_request_target(
    role: CertRole,
    model: ProcessorModel,
    chip_id: Seq<u8>,
    tcb: TcbVersion,
) -> Seq<char> {
    let base = "https://kdsintf.amd.com/vcek/v1/"@ + model.spec_product_name() + "/"@;
    match role {
        CertRole::Leaf => base + spec_hex(spec_hardware_id(model, chip_id)) + "?"@
            + spec_tcb_query(tcb),
        _ => base + "cert_chain"@,
    }
}

/// The address to ask for a role's certificate. It is a function of the role
/// and the identity alone: the same inputs give the same address.
pub fn request_target(role: CertRole, identity: &PlatformIdentity) -> (target: String)
    ensures
        target@ == spec_request_target(role, identity.model, identity.chip_id@, identity.tcb),
{
    let mut target = String::from_str("https://kdsintf.amd.com/vcek/v1/");
    target.append(identity.model.product_name());
    target.append("/");
    match role {
        CertRole::Leaf => {
            let id = identity.chip_id.as_slice();
            if identity.model == ProcessorModel::Turin && id.len() > 8 {
                let head = copy_range(id, 0, 8);
                push_hex(&mut target, head.as_slice());
            } else {
                push_hex(&mut target, id);
            }
            target.append("?");
            match identity.tcb.fmc {
                Some(fmc) => {
                    target.append("fmcSPL=");
                    push_two_digits(&mut target, fmc);
                    target.append("&");
                },
                None => {},
            }
            target.append("blSPL=");
            push_two_digits(&mut target, identity.tcb.bootloader);
            target.append("&teeSPL=");
            push_two_digits(&mut target, identity.tcb.tee);
            target.append("&snpSPL=");
            push_two_digits(&mut target, identity.tcb.snp);
            target.append("&ucodeSPL=");
            push_two_digits(&mut target, identity.tcb.microcode);
        },
        _ => {
            target.append("cert_chain");
        },
    }
    target
}

/// Whether the PEM opening line stands at position `at`.
pub open spec fn marker_at(body: Seq<u8>, at: int) -> bool {
    0 <= at && at + 27 <= body.len() && body.subrange(at, at + 27) == PEM_START@
}

/// The first position from `from` on at which the PEM opening line stands.
pub open spec fn first_marker(body: Seq<u8>, from: int) -> Option<int>
    decreases body.len() - from,
{
    if from < 0 || from + 27 > body.len() {
        None
    } else if marker_at(body, from) {
        Some(from)
    } else {
        first_marker(body, from + 1)
    }
}

/// The PEM block that begins at or after `from`: from its opening line up to
/// the next opening line, or to the end of the body. Gives the block and
/// where it ends.
pub open spec fn block_from(body: Seq<u8>, from: int) -> Option<(Seq<u8>, int)> {
    match first_marker(body, from) {
        Some(start) => {
            let end = match first_marker(body, start + 27) {
                Some(next) => next,
                None => body.len() as int,
            };
            Some((body.subrange(start, end), end))
        },
        None => None,
    }
}

/// The part of an answer that holds the role's certificate. The answer for
/// the leaf is the certificate. The certificate chain holds two PEM blocks:
/// the intermediate first, then the root.
pub open spec fn spec_select(role: CertRole, body: Seq<u8>) -> Option<Seq<u8>> {
    match role {
        CertRole::Leaf => Some(body),
        CertRole::Intermediate => match block_from(body, 0) {
            Some((block, _)) => Some(block),
            None => None,
        },
        CertRole::Root => match block_from(body, 0) {
            Some((_, end)) => match block_from(body, end) {
                Some((block, _)) => Some(block),
                None => None,
            },
            None => None,
        },
    }
}

fn has_marker(body: &[u8], at: usize) -> (found: bool)
    requires
        at + 27 <= body@.len(),
    ensures
        found == marker_at(body@, at as int),
{
    let mut k: usize = 0;
    while k < 27
        invariant
            k <= 27,
            at + 27 <= body.len(),
            forall|j: int| 0 <= j < k ==> body@[at + j] == PEM_START@[j],
        decreases 27 - k,
    {
        if body[at + k] != PEM_START[k] {
            return false;
        }
        k += 1;
    }
    assert(body@.subrange(at as int, at + 27) =~= PEM_START@);
    true
}

/// Finds the first PEM opening line at or after `from`.
pub fn find_marker(body: &[u8], from: usize) -> (at: Option<usize>)
    ensures
        match at {
            Some(i) => first_marker(body@, from as int) == Some(i as int) && from <= i && i + 27
                <= body@.len(),
            None => first_marker(body@, from as int) is None,
        },
{
    let mut i: usize = from;
    while body.len() >= 27 && i <= body.len() - 27
        invariant
            from <= i,
            first_marker(body@, from as int) == first_marker(body@, i as int),
        decreases body@.len() - i,
    {
        if has_marker(body, i) {
            return Some(i);
        }
        i += 1;
    }
    None
}

fn find_block(body: &[u8], from: usize) -> (found: Option<(Vec<u8>, usize)>)
    ensures
        match found {
            Some((block, end)) => block_from(body@, from as int) == Some((block@, end as int))
                && end <= body@.len(),
            None => block_from(body@, from as int) is None,
        },
{
    let len = body.len();
    match find_marker(body, from) {
        None => None,
        Some(start) => {
            let end = match find_marker(body, start + 27) {
                Some(next) => next,
                None => len,
            };
            Some((copy_range(body, start, end), end))
        },
    }
}

/// Cuts the part that holds the role's certificate out of an answer.
pub fn select(role: CertRole, body: &[u8]) -> (part: Option<Vec<u8>>)
    ensures
        match part {
            Some(p) => spec_select(role, body@) == Some(p@),
            None => spec_select(role, body@) is None,
        },
{
    match role {
        CertRole::Leaf => Some(copy_bytes(body)),
        CertRole::Intermediate => match find_block(body, 0) {
            Some((block, _)) => Some(block),
            None => None,
        },
        CertRole::Root => match find_block(body, 0) {
            Some((_, end)) => match find_block(body, end) {
                Some((block, _)) => Some(block),
                None => None,
            },
            None => None,
        },
    }
}

/// What came of carrying a request to the service.
#[derive(Debug, PartialEq, Eq)]
pub enum Response {
    /// The service could not be reached.
    Unreachable,
    /// The service answered, with an HTTP status and a body.
    Answered { status: u32, body: Vec<u8> },
}

/// The certificate, in DER, that the body of a reply holds for the role. A
/// body that is a DER certificate is that certificate, whatever the role.
/// Any other body is read as `spec_select` cuts it: whole for the leaf, as a
/// chain of PEM blocks for the intermediate and the root.
pub open spec fn spec_reply_certificate(role: CertRole, body: Seq<u8>) -> Option<Seq<u8>> {
    if !is_pem(body) && spec_parse(body) is Some {
        spec_parse(body)
    } else {
        match spec_select(role, body) {
            Some(part) => spec_parse(part),
            None => None,
        }
    }
}

/// Reads the certificate that the body of a reply holds for the role.
pub fn reply_certificate(role: CertRole, body: &[u8]) -> (cert: Option<Certificate>)
    ensures
        match cert {
            Some(c) => spec_reply_certificate(role, body@) == Some(c@),
            None => spec_reply_certificate(role, body@) is None,
        },
{
    if role != CertRole::Leaf && identify_cert(body) == EncodingFormat::Der {
        match Certificate::from_bytes(body) {
            Some(cert) => {
                return Some(cert);
            },
            None => {},
        }
    }
    match select(role, body) {
        None => None,
        Some(part) => Certificate::from_bytes(part.as_slice()),
    }
}

/// What an answer, or the lack of one, amounts to for the role that was
/// asked for.
pub open spec fn spec_receive(role: CertRole, reached: bool, status: u32, body: Seq<u8>) -> Result<
    EntryView,
    CertError,
> {
    if !reached {
        Err(CertError::TransportError)
    } else if status == 404 {
        Err(CertError::NotFound)
    } else if status != 200 {
        Err(CertError::UnexpectedResponse)
    } else {
        match spec_reply_certificate(role, body) {
            Some(der) => Ok(EntryView { guid: role.spec_guid(), data: der }),
            None => Err(CertError::UnexpectedResponse),
        }
    }
}

/// A reply with status 200 whose body is a DER certificate gives, for every
/// role, the entry of that role with the body as it came.
pub proof fn lemma_der_reply_is_kept(role: CertRole, body: Seq<u8>)
    requires
        settled(body),
    ensures
        spec_receive(role, true, 200, body) == Ok::<EntryView, CertError>(
            EntryView { guid: role.spec_guid(), data: body },
        ),
{
}

/// What a response amounts to for the role that was asked for, as it came.
pub open spec fn spec_outcome(role: CertRole, response: Response) -> Result<EntryView, CertError> {
    match response {
        Response::Unreachable => spec_receive(role, false, 0, Seq::empty()),
        Response::Answered { status, body } => spec_receive(role, true, status, body@),
    }
}

/// Makes a table entry of the service's response.
///
/// A request that did not get through is a `TransportError`, which the
/// caller may try again. Status 404 is `NotFound`: the service has no
/// certificate for this role and these versions. Any other status but 200,
/// and a body that does not hold a certificate for the role, is an
/// `UnexpectedResponse`. On success the entry holds the certificate in DER:
/// a body that is a DER certificate is kept as it came, for every role; for
/// the intermediate and the root a chain of PEM blocks is accepted too, the
/// intermediate first.
pub fn receive(role: CertRole, response: &Response) -> (res: Result<CertTableEntry, CertError>)
    ensures
        match res {
            Ok(entry) => Ok::<EntryView, CertError>(entry@),
            Err(e) => Err(e),
        } == spec_outcome(role, *response),
{
    match response {
        Response::Unreachable => Err(CertError::TransportError),
        Response::Answered { status, body } => {
            if *status == 404 {
                Err(CertError::NotFound)
            } else if *status != 200 {
                Err(CertError::UnexpectedResponse)
            } else {
                match reply_certificate(role, body.as_slice()) {
                    None => Err(CertError::UnexpectedResponse),
                    Some(cert) => {
                        let der = copy_bytes(cert.der().as_slice());
                        Ok(CertTableEntry::new(role, der))
                    },
                }
            }
        },
    }
}

/// Retrieves a role's certificate through `transport`, which carries one
/// request to the service and brings the response back.
///
/// The transport is called once, with the address that `request_target`
/// gives for the role and the identity, and what it brings back is judged as
/// by `receive`. Nothing is kept between calls.
pub fn fetch<T: FnOnce(&str) -> Response>(
    role: CertRole,
    identity: &PlatformIdentity,
    transport: T,
) -> (res: Result<CertTableEntry, CertError>)
    requires
        forall|target: &str|
            target@ == spec_request_target(role, identity.model, identity.chip_id@, identity.tcb)
                ==> #[trigger] transport.requires((target,)),
    ensures
        exists|target: &str, response: Response|
            target@ == spec_request_target(role, identity.model, identity.chip_id@, identity.tcb)
                && #[trigger] transport.ensures((target,), response) && (match res {
                Ok(entry) => Ok::<EntryView, CertError>(entry@),
                Err(e) => Err(e),
            }) == spec_outcome(role, response),
{
    let target = request_target(role, identity);
    let response = transport(target.as_str());
    receive(role, &response)
}

} // verus!
