//! Importing certificates from per-role files into a firmware table.
//!
//! The caller reads the files of a directory; the library checks that the
//! needed ones are there, parses them and lays the table out.

use crate::bytes::copy_bytes;
use crate::certificate::{spec_parse, Certificate};
use crate::codec::{encode, fits, spec_encode};
use crate::encoding::EncodingFormat;
use crate::error::CertError;
use crate::export::{file_path, spec_file_path};
use crate::table::{CertRole, CertTableEntry, CertificateTable, EntryView};
use vstd::prelude::*;

verus! {

/// What the files of a directory held, role by role: `None` where a role's
/// file was not there.
#[derive(Debug, PartialEq, Eq)]
pub struct RoleFiles {
    pub root: Option<Vec<u8>>,
    pub intermediate: Option<Vec<u8>>,
    pub leaf: Option<Vec<u8>>,
}

/// Which roles the operation at hand cannot do without.
#[derive(Clone, Copy, Debug, PartialEq, Eq)]
pub struct RequiredRoles {
    pub root: bool,
    pub intermediate: bool,
    pub leaf: bool,
}

/// Where a role's certificate may be stored in a directory, in the order
/// in which the places are tried: the PEM file first, then the DER file.
pub fn candidates(dir: &str, role: CertRole) -> (paths: Vec<String>)
    ensures
        paths@.len() == 2,
        paths@[0]@ == spec_file_path(dir@, role, EncodingFormat::Pem),
        paths@[1]@ == spec_file_path(dir@, role, EncodingFormat::Der),
{
    let mut paths: Vec<String> = Vec::new();
    paths.push(file_path(dir, role, EncodingFormat::Pem));
    paths.push(file_path(dir, role, EncodingFormat::Der));
    paths
}

/// The bytes of a file, if it was there.
pub open spec fn file_view(file: Option<Vec<u8>>) -> Option<Seq<u8>> {
    match file {
        Some(bytes) => Some(bytes@),
        None => None,
    }
}

/// The first role, from the root down, that is required and has no file.
pub open spec fn spec_missing(files: RoleFiles, required: RequiredRoles) -> Option<CertRole> {
    if required.root && files.root is None {
        Some(CertRole::Root)
    } else if required.intermediate && files.intermediate is None {
        Some(CertRole::Intermediate)
    } else if required.leaf && files.leaf is None {
        Some(CertRole::Leaf)
    } else {
        None
    }
}

/// The entries that a role's file contributes: none where there is no file,
/// else one entry under the role's GUID that holds the certificate in DER.
pub open spec fn spec_entries_of(role: CertRole, file: Option<Seq<u8>>) -> Result<
    Seq<EntryView>,
    CertError,
> {
    match file {
        None => Ok(Seq::empty()),
        Some(bytes) => match spec_parse(bytes) {
            Some(der) => Ok(seq![EntryView { guid: role.spec_guid(), data: der }]),
            None => Err(CertError::InvalidCertificate(Some(role))),
        },
    }
}

/// The table that the files give: the entries of the root, the intermediate
/// and the leaf, in this order. A missing required file is reported before
/// any file is parsed; then the first file that holds no certificate.
pub open spec fn spec_import(files: RoleFiles, required: RequiredRoles) -> Result<
    Seq<EntryView>,
    CertError,
> {
    match spec_missing(files, required) {
        Some(role) => Err(CertError::MissingFile(role)),
        None => match spec_entries_of(CertRole::Root, file_view(files.root)) {
            Err(e) => Err(e),
            Ok(root) => match spec_entries_of(CertRole::Intermediate, file_view(files.intermediate)) {
                Err(e) => Err(e),
                Ok(intermediate) => match spec_entries_of(CertRole::Leaf, file_view(files.leaf)) {
                    Err(e) => Err(e),
                    Ok(leaf) => Ok(root + intermediate + leaf),
                },
            },
        },
    }
}

/// The first role, from the root down, that is required and has no file.
pub fn missing(files: &RoleFiles, required: &RequiredRoles) -> (role: Option<CertRole>)
    ensures
        role == spec_missing(*files, *required),
{
    if required.root && files.root.is_none() {
        Some(CertRole::Root)
    } else if required.intermediate && files.intermediate.is_none() {
        Some(CertRole::Intermediate)
    } else if required.leaf && files.leaf.is_none() {
        Some(CertRole::Leaf)
    } else {
        None
    }
}

/// Parses a role's file, if there is one, into its table entry.
fn entry_of(role: CertRole, file: &Option<Vec<u8>>) -> (res: Result<Option<CertTableEntry>, CertError>)
    ensures
        match res {
            Ok(Some(entry)) => spec_entries_of(role, file_view(*file)) == Ok::<
                Seq<EntryView>,
                CertError,
            >(seq![entry@]) && entry@.guid == role.spec_guid(),
            Ok(None) => spec_entries_of(role, file_view(*file)) == Ok::<Seq<EntryView>, CertError>(
                Seq::empty(),
            ),
            Err(e) => spec_entries_of(role, file_view(*file)) == Err::<Seq<EntryView>, CertError>(e),
        },
{
    match file {
        None => Ok(None),
        Some(bytes) => match Certificate::from_bytes(bytes.as_slice()) {
            None => Err(CertError::InvalidCertificate(Some(role))),
            Some(cert) => Ok(Some(CertTableEntry::new(role, copy_bytes(cert.der().as_slice())))),
        },
    }
}

/// The result of an import with the table taken by its entries.
pub open spec fn import_result(res: Result<CertificateTable, CertError>) -> Result<
    Seq<EntryView>,
    CertError,
> {
    match res {
        Ok(t) => Ok(t@),
        Err(e) => Err(e),
    }
}

/// Builds a certificate table of the files of a directory.
///
/// Fails with `MissingFile` for the first required role that has no file,
/// before anything is parsed, and with `InvalidCertificate` for the first
/// file that holds no certificate. Each certificate is stored in DER under
/// its role's GUID.
pub fn import(files: &RoleFiles, required: &RequiredRoles) -> (res: Result<
    CertificateTable,
    CertError,
>)
    ensures
        import_result(res) == spec_import(*files, *required),
{
    match missing(files, required) {
        Some(role) => {
            return Err(CertError::MissingFile(role));
        },
        None => {},
    }
    let mut table = CertificateTable::new();
    match entry_of(CertRole::Root, &files.root) {
        Err(e) => {
            return Err(e);
        },
        Ok(None) => {},
        Ok(Some(entry)) => {
            match table.insert(entry) {
                Ok(()) => {},
                Err(e) => {
                    return Err(e);
                },
            }
        },
    }
    let ghost root = spec_entries_of(CertRole::Root, file_view(files.root)).unwrap();
    match entry_of(CertRole::Intermediate, &files.intermediate) {
        Err(e) => {
            return Err(e);
        },
        Ok(None) => {},
        Ok(Some(entry)) => {
            match table.insert(entry) {
                Ok(()) => {},
                Err(e) => {
                    return Err(e);
                },
            }
        },
    }
    let ghost intermediate = spec_entries_of(
        CertRole::Intermediate,
        file_view(files.intermediate),
    ).unwrap();
    match entry_of(CertRole::Leaf, &files.leaf) {
        Err(e) => {
            return Err(e);
        },
        Ok(None) => {},
        Ok(Some(entry)) => {
            match table.insert(entry) {
                Ok(()) => {},
                Err(e) => {
                    return Err(e);
                },
            }
        },
    }
    assert(table@ =~= root + intermediate + spec_entries_of(
        CertRole::Leaf,
        file_view(files.leaf),
    ).unwrap());
    Ok(table)
}

/// What the import command gives: the encoded table, or why there is none.
pub open spec fn spec_cmd(files: RoleFiles, required: RequiredRoles) -> Result<Seq<u8>, CertError> {
    match spec_import(files, required) {
        Err(e) => Err(e),
        Ok(t) => if fits(t) {
            Ok(spec_encode(t))
        } else {
            Err(CertError::MalformedTable)
        },
    }
}

/// The import command on the files read from its directory: builds the
/// table and lays it out for the firmware. On any failure there is no blob.
pub fn cmd(files: &RoleFiles, required: &RequiredRoles) -> (res: Result<Vec<u8>, CertError>)
    ensures
        match res {
            Ok(blob) => Ok::<Seq<u8>, CertError>(blob@),
            Err(e) => Err(e),
        } == spec_cmd(*files, *required),
{
    match import(files, required) {
        Err(e) => Err(e),
        Ok(table) => encode(&table),
    }
}

/// Where a required file is missing, nothing is imported and no blob is
/// made: both fail with `MissingFile` for the first such role.
pub proof fn lemma_missing_file_stops_import(files: RoleFiles, required: RequiredRoles, role: CertRole)
    requires
        spec_missing(files, required) == Some(role),
    ensures
        spec_import(files, required) == Err::<Seq<EntryView>, CertError>(
            CertError::MissingFile(role),
        ),
        spec_cmd(files, required) == Err::<Seq<u8>, CertError>(CertError::MissingFile(role)),
        match role {
            CertRole::Root => required.root && files.root is None,
            CertRole::Intermediate => required.intermediate && files.intermediate is None,
            CertRole::Leaf => required.leaf && files.leaf is None,
        },
{
}

/// A required role without a file always stops the import with
/// `MissingFile`, for that role or one above it.
pub proof fn lemma_required_role_is_missed(files: RoleFiles, required: RequiredRoles)
    requires
        (required.root && files.root is None) || (required.intermediate && files.intermediate
            is None) || (required.leaf && files.leaf is None),
    ensures
        spec_import(files, required) matches Err(CertError::MissingFile(_)),
        required.root && files.root is None ==> spec_import(files, required) == Err::<
            Seq<EntryView>,
            CertError,
        >(CertError::MissingFile(CertRole::Root)),
{
}

} // verus!
