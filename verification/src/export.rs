//! Exporting the certificates of a table as one file per role.
//!
//! The library works out which files to write and what goes into them; the
//! caller reads the table from disk and writes the files.

use crate::certificate::{lemma_reparse, settled, spec_parse, spec_to_encoding, Certificate};
use crate::codec::{decode, spec_decode};
use crate::encoding::EncodingFormat;
use crate::error::CertError;
use crate::table::{
    entries_view, holds_role, lemma_holds_role_push, role_of, valid_table, CertRole,
    CertTableEntry, EntryView,
};
use vstd::prelude::*;
use vstd::string::*;

verus! {

/// The export command: what to export, where to, and in which encoding.
#[derive(Debug, PartialEq, Eq)]
pub struct Export {
    /// The format the certificates will be encoded in (PEM or DER).
    pub encoding_fmt: EncodingFormat,
    /// The directory to write the certificates to.
    pub dir_path: String,
    /// The file where the certificate table is stored.
    pub target_file: String,
}

/// What a file to be written holds.
#[verifier::ext_equal]
pub struct FileView {
    pub path: Seq<char>,
    pub contents: Seq<u8>,
}

/// A file to be written.
#[derive(Debug, PartialEq, Eq)]
pub struct ExportedFile {
    pub path: String,
    pub contents: Vec<u8>,
}

impl View for ExportedFile {
    type V = FileView;

    open spec fn view(&self) -> FileView {
        FileView { path: self.path@, contents: self.contents@ }
    }
}

/// The views of a run of files, in order.
pub open spec fn files_view(files: Seq<ExportedFile>) -> Seq<FileView> {
    Seq::new(files.len(), |i: int| files[i]@)
}

/// The result of an export with the files taken by what they hold.
pub open spec fn files_result(res: Result<Vec<ExportedFile>, CertError>) -> Result<
    Seq<FileView>,
    CertError,
> {
    match res {
        Ok(files) => Ok(files_view(files@)),
        Err(e) => Err(e),
    }
}

/// The path of a role's file: the directory, the role's name, and the
/// encoding as extension.
pub open spec fn spec_file_path(dir: Seq<char>, role: CertRole, fmt: EncodingFormat) -> Seq<char> {
    dir + "/"@ + role.spec_name() + "."@ + fmt.spec_extension()
}

/// The path of a role's file, such as `certs/ark.pem`.
pub fn file_path(dir: &str, role: CertRole, fmt: EncodingFormat) -> (path: String)
    ensures
        path@ == spec_file_path(dir@, role, fmt),
{
    let mut path = String::from_str(dir);
    path.append("/");
    path.append(role.name());
    path.append(".");
    path.append(fmt.extension());
    path
}

/// The bytes of an entry's certificate in the target encoding; `None` where
/// the entry holds no certificate or the conversion fails.
pub open spec fn spec_converted(data: Seq<u8>, fmt: EncodingFormat) -> Option<Seq<u8>> {
    match spec_parse(data) {
        Some(cert) => spec_to_encoding(cert, fmt),
        None => None,
    }
}

/// Parses an entry's certificate and converts it to the target encoding.
pub fn convert(entry: &CertTableEntry, fmt: EncodingFormat) -> (out: Option<Vec<u8>>)
    ensures
        match out {
            Some(bytes) => spec_converted(entry@.data, fmt) == Some(bytes@),
            None => spec_converted(entry@.data, fmt) is None,
        },
{
    match Certificate::parse(entry) {
        Err(_) => None,
        Ok(cert) => match cert.to_encoding(fmt) {
            Ok(bytes) => Some(bytes),
            Err(_) => None,
        },
    }
}

/// The file for a role, given the outcome of converting its certificate.
pub open spec fn spec_exported_file(
    dir: Seq<char>,
    role: CertRole,
    fmt: EncodingFormat,
    converted: Option<Seq<u8>>,
) -> Result<FileView, CertError> {
    match converted {
        Some(bytes) => Ok(FileView { path: spec_file_path(dir, role, fmt), contents: bytes }),
        None => Err(CertError::InvalidCertificate(Some(role))),
    }
}

/// Makes the file for a role of the outcome of converting its certificate:
/// the converted bytes under the role's path, or `InvalidCertificate` for
/// the role where there are none.
pub fn exported_file(dir: &str, role: CertRole, fmt: EncodingFormat, converted: Option<Vec<u8>>)
    -> (res: Result<ExportedFile, CertError>)
    ensures
        match res {
            Ok(file) => Ok::<FileView, CertError>(file@),
            Err(e) => Err(e),
        } == spec_exported_file(
            dir@,
            role,
            fmt,
            match converted {
                Some(bytes) => Some(bytes@),
                None => None,
            },
        ),
{
    match converted {
        Some(contents) => Ok(ExportedFile { path: file_path(dir, role, fmt), contents }),
        None => Err(CertError::InvalidCertificate(Some(role))),
    }
}

/// The files for the entries from `k` on, behind the files `acc` made so
/// far. Opaque entries are passed over. The first entry that repeats a role
/// or holds no certificate decides the error.
pub open spec fn spec_export_from(
    t: Seq<EntryView>,
    k: int,
    dir: Seq<char>,
    fmt: EncodingFormat,
    acc: Seq<FileView>,
) -> Result<Seq<FileView>, CertError>
    decreases t.len() - k,
{
    if k < 0 || k >= t.len() {
        Ok(acc)
    } else {
        match role_of(t[k].guid) {
            None => spec_export_from(t, k + 1, dir, fmt, acc),
            Some(role) => if holds_role(t.take(k), role) {
                Err(CertError::DuplicateRole(role))
            } else {
                match spec_exported_file(dir, role, fmt, spec_converted(t[k].data, fmt)) {
                    Ok(file) => spec_export_from(t, k + 1, dir, fmt, acc.push(file)),
                    Err(e) => Err(e),
                }
            },
        }
    }
}

/// The files that exporting the entries gives.
pub open spec fn spec_export(t: Seq<EntryView>, dir: Seq<char>, fmt: EncodingFormat) -> Result<
    Seq<FileView>,
    CertError,
> {
    spec_export_from(t, 0, dir, fmt, Seq::empty())
}

/// Works out the files of an export: one per entry that has a role, in entry
/// order, named by the role and holding its certificate in the target
/// encoding.
///
/// The roles are checked again for uniqueness, so that no file is ever
/// written twice: a second entry for a role fails with `DuplicateRole`. An
/// entry whose bytes are no certificate, or do not convert, fails with
/// `InvalidCertificate`. Opaque entries are passed over. On any failure no
/// file is handed out.
pub fn export(entries: &Vec<CertTableEntry>, dir: &str, fmt: EncodingFormat) -> (res: Result<
    Vec<ExportedFile>,
    CertError,
>)
    ensures
        files_result(res) == spec_export(entries_view(entries@), dir@, fmt),
{
    let ghost t = entries_view(entries@);
    let mut files: Vec<ExportedFile> = Vec::new();
    let mut ark = false;
    let mut ask = false;
    let mut vcek = false;
    let mut k: usize = 0;
    assert(files_view(files@) =~= Seq::<FileView>::empty());
    while k < entries.len()
        invariant
            k <= entries@.len(),
            t == entries_view(entries@),
            ark == holds_role(t.take(k as int), CertRole::Root),
            ask == holds_role(t.take(k as int), CertRole::Intermediate),
            vcek == holds_role(t.take(k as int), CertRole::Leaf),
            spec_export(t, dir@, fmt) == spec_export_from(
                t,
                k as int,
                dir@,
                fmt,
                files_view(files@),
            ),
        decreases entries@.len() - k,
    {
        let entry = &entries[k];
        proof {
            assert(t.take(k + 1) =~= t.take(k as int).push(t[k as int]));
            lemma_holds_role_push(t.take(k as int), t[k as int], CertRole::Root);
            lemma_holds_role_push(t.take(k as int), t[k as int], CertRole::Intermediate);
            lemma_holds_role_push(t.take(k as int), t[k as int], CertRole::Leaf);
        }
        match entry.role() {
            None => {},
            Some(role) => {
                let seen = match role {
                    CertRole::Root => ark,
                    CertRole::Intermediate => ask,
                    CertRole::Leaf => vcek,
                };
                if seen {
                    return Err(CertError::DuplicateRole(role));
                }
                match role {
                    CertRole::Root => {
                        ark = true;
                    },
                    CertRole::Intermediate => {
                        ask = true;
                    },
                    CertRole::Leaf => {
                        vcek = true;
                    },
                }
                match exported_file(dir, role, fmt, convert(entry, fmt)) {
                    Err(e) => {
                        return Err(e);
                    },
                    Ok(file) => {
                        assert(files_view(files@.push(file)) =~= files_view(files@).push(file@));
                        files.push(file);
                    },
                }
            },
        }
        k += 1;
    }
    Ok(files)
}

/// What the export command gives for the bytes of a table.
pub open spec fn spec_cmd(bytes: Seq<u8>, dir: Seq<char>, fmt: EncodingFormat) -> Result<
    Seq<FileView>,
    CertError,
> {
    match spec_decode(bytes) {
        Ok(t) => spec_export(t, dir, fmt),
        Err(e) => Err(e),
    }
}

/// The export command on the bytes read from its target file: decodes the
/// table and works out the files to write into the directory. The caller
/// creates the directory and writes each file, replacing what is there.
pub fn cmd(export: &Export, cert_bytes: &[u8]) -> (res: Result<Vec<ExportedFile>, CertError>)
    ensures
        files_result(res) == spec_cmd(cert_bytes@, export.dir_path@, export.encoding_fmt),
{
    match decode(cert_bytes) {
        Err(e) => Err(e),
        Ok(table) => self::export(table.entries(), export.dir_path.as_str(), export.encoding_fmt),
    }
}

/// What is exported for an entry reads back as the entry's certificate.
pub proof fn lemma_converted_reparses(data: Seq<u8>, fmt: EncodingFormat, out: Seq<u8>)
    requires
        spec_converted(data, fmt) == Some(out),
    ensures
        spec_parse(out) == spec_parse(data),
{
    lemma_reparse(spec_parse(data).unwrap(), fmt, out);
}

/// The files of the first `k` entries, where each that has a role converts:
/// one file per such entry, in entry order.
pub open spec fn files_of(t: Seq<EntryView>, k: int, dir: Seq<char>, fmt: EncodingFormat) -> Seq<
    FileView,
>
    decreases k,
{
    if k <= 0 {
        Seq::empty()
    } else {
        match role_of(t[k - 1].guid) {
            None => files_of(t, k - 1, dir, fmt),
            Some(role) => files_of(t, k - 1, dir, fmt).push(
                FileView {
                    path: spec_file_path(dir, role, fmt),
                    contents: spec_converted(t[k - 1].data, fmt).unwrap(),
                },
            ),
        }
    }
}

/// Whether every entry that has a role holds a certificate that converts.
pub open spec fn all_convert(t: Seq<EntryView>, fmt: EncodingFormat) -> bool {
    forall|i: int|
        0 <= i < t.len() && role_of((#[trigger] t[i]).guid) is Some ==> spec_converted(
            t[i].data,
            fmt,
        ) is Some
}

proof fn lemma_export_from(
    t: Seq<EntryView>,
    k: int,
    dir: Seq<char>,
    fmt: EncodingFormat,
    files: Seq<FileView>,
)
    requires
        0 <= k <= t.len(),
        all_convert(t.take(k), fmt),
        spec_export_from(t, k, dir, fmt, files_of(t, k, dir, fmt)) == Ok::<Seq<FileView>, CertError>(
            files,
        ),
    ensures
        all_convert(t, fmt),
        files == files_of(t, t.len() as int, dir, fmt),
    decreases t.len() - k,
{
    if k < t.len() {
        assert forall|i: int|
            0 <= i < t.take(k + 1).len() && role_of((#[trigger] t.take(k + 1)[i]).guid) is Some
            implies spec_converted(t.take(k + 1)[i].data, fmt) is Some by {
            if i < k {
                assert(t.take(k)[i] == t[i]);
            }
        }
        lemma_export_from(t, k + 1, dir, fmt, files);
    } else {
        assert(t.take(k) =~= t);
    }
}

/// What an export that succeeds hands out: one file for each entry that has
/// a role, in entry order, under the role's path and holding the entry's
/// certificate in the target encoding.
pub proof fn lemma_export_ok(t: Seq<EntryView>, dir: Seq<char>, fmt: EncodingFormat, files: Seq<FileView>)
    requires
        spec_export(t, dir, fmt) == Ok::<Seq<FileView>, CertError>(files),
    ensures
        all_convert(t, fmt),
        files == files_of(t, t.len() as int, dir, fmt),
{
    lemma_export_from(t, 0, dir, fmt, files);
}

proof fn lemma_no_earlier_role(t: Seq<EntryView>, k: int)
    requires
        valid_table(t),
        0 <= k < t.len(),
        role_of(t[k].guid) is Some,
    ensures
        !holds_role(t.take(k), role_of(t[k].guid).unwrap()),
{
    let role = role_of(t[k].guid).unwrap();
    if holds_role(t.take(k), role) {
        let j = choose|j: int|
            0 <= j < t.take(k).len() && role_of(#[trigger] t.take(k)[j].guid) == Some(role);
        assert(t.take(k)[j] == t[j]);
        assert(false);
    }
}

proof fn lemma_export_from_converting(t: Seq<EntryView>, k: int, dir: Seq<char>, fmt: EncodingFormat)
    requires
        valid_table(t),
        all_convert(t, fmt),
        0 <= k <= t.len(),
    ensures
        spec_export_from(t, k, dir, fmt, files_of(t, k, dir, fmt)) == Ok::<Seq<FileView>, CertError>(
            files_of(t, t.len() as int, dir, fmt),
        ),
    decreases t.len() - k,
{
    if k < t.len() {
        if role_of(t[k].guid) is Some {
            lemma_no_earlier_role(t, k);
        }
        lemma_export_from_converting(t, k + 1, dir, fmt);
    }
}

/// A table in which every entry that has a role holds a certificate that
/// converts is exported whole: the export succeeds, with one file for each
/// such entry.
pub proof fn lemma_export_succeeds(t: Seq<EntryView>, dir: Seq<char>, fmt: EncodingFormat)
    requires
        valid_table(t),
        all_convert(t, fmt),
    ensures
        spec_export(t, dir, fmt) == Ok::<Seq<FileView>, CertError>(
            files_of(t, t.len() as int, dir, fmt),
        ),
{
    lemma_export_from_converting(t, 0, dir, fmt);
}

proof fn lemma_export_from_failing(
    t: Seq<EntryView>,
    k: int,
    j: int,
    dir: Seq<char>,
    fmt: EncodingFormat,
    acc: Seq<FileView>,
)
    requires
        valid_table(t),
        0 <= j <= k < t.len(),
        all_convert(t.take(k), fmt),
        role_of(t[k].guid) is Some,
        spec_converted(t[k].data, fmt) is None,
    ensures
        spec_export_from(t, j, dir, fmt, acc) == Err::<Seq<FileView>, CertError>(
            CertError::InvalidCertificate(role_of(t[k].guid)),
        ),
    decreases k - j,
{
    if role_of(t[j].guid) is Some {
        lemma_no_earlier_role(t, j);
    }
    if j < k {
        assert(t.take(k)[j] == t[j]);
        match role_of(t[j].guid) {
            None => {
                lemma_export_from_failing(t, k, j + 1, dir, fmt, acc);
            },
            Some(role) => {
                let file = spec_exported_file(dir, role, fmt, spec_converted(t[j].data, fmt));
                lemma_export_from_failing(t, k, j + 1, dir, fmt, acc.push(file.unwrap()));
            },
        }
    }
}

/// The first entry with a role whose certificate does not convert stops the
/// export of a table: it fails with `InvalidCertificate` for that role.
pub proof fn lemma_export_fails(t: Seq<EntryView>, k: int, dir: Seq<char>, fmt: EncodingFormat)
    requires
        valid_table(t),
        0 <= k < t.len(),
        all_convert(t.take(k), fmt),
        role_of(t[k].guid) is Some,
        spec_converted(t[k].data, fmt) is None,
    ensures
        spec_export(t, dir, fmt) == Err::<Seq<FileView>, CertError>(
            CertError::InvalidCertificate(role_of(t[k].guid)),
        ),
{
    lemma_export_from_failing(t, k, 0, dir, fmt, Seq::empty());
}

/// Converting to DER loses nothing of a later conversion: what was written
/// in DER holds the same certificate, and converts to any encoding exactly
/// as the bytes it was made of do.
pub proof fn lemma_converted_after_der(data: Seq<u8>, der: Seq<u8>, fmt: EncodingFormat)
    requires
        spec_converted(data, EncodingFormat::Der) == Some(der),
    ensures
        spec_parse(der) == spec_parse(data),
        spec_converted(der, fmt) == spec_converted(data, fmt),
{
    lemma_converted_reparses(data, EncodingFormat::Der, der);
}

/// Whether `u` is `t` after an export in DER: the same entries under the
/// same GUIDs, where each that has a role now holds what the DER export
/// wrote for it.
pub open spec fn exported_in_der(t: Seq<EntryView>, u: Seq<EntryView>) -> bool {
    &&& u.len() == t.len()
    &&& forall|i: int| 0 <= i < t.len() ==> (#[trigger] u[i]).guid == t[i].guid
    &&& forall|i: int|
        0 <= i < t.len() && role_of((#[trigger] t[i]).guid) is Some ==> spec_converted(
            t[i].data,
            EncodingFormat::Der,
        ) == Some(u[i].data)
}

proof fn lemma_same_roles(t: Seq<EntryView>, u: Seq<EntryView>, k: int, role: CertRole)
    requires
        u.len() == t.len(),
        forall|i: int| 0 <= i < t.len() ==> (#[trigger] u[i]).guid == t[i].guid,
        0 <= k <= t.len(),
    ensures
        holds_role(u.take(k), role) == holds_role(t.take(k), role),
{
    if holds_role(t.take(k), role) {
        let j = choose|j: int|
            0 <= j < t.take(k).len() && role_of(#[trigger] t.take(k)[j].guid) == Some(role);
        assert(t.take(k)[j] == t[j]);
        assert(u.take(k)[j] == u[j]);
    }
    if holds_role(u.take(k), role) {
        let j = choose|j: int|
            0 <= j < u.take(k).len() && role_of(#[trigger] u.take(k)[j].guid) == Some(role);
        assert(u.take(k)[j] == u[j]);
        assert(t.take(k)[j] == t[j]);
    }
}

proof fn lemma_export_from_after_der(
    t: Seq<EntryView>,
    u: Seq<EntryView>,
    k: int,
    dir: Seq<char>,
    fmt: EncodingFormat,
    acc: Seq<FileView>,
)
    requires
        exported_in_der(t, u),
        0 <= k,
    ensures
        spec_export_from(u, k, dir, fmt, acc) == spec_export_from(t, k, dir, fmt, acc),
    decreases t.len() - k,
{
    if k < t.len() {
        assert(u[k].guid == t[k].guid);
        match role_of(t[k].guid) {
            None => {
                lemma_export_from_after_der(t, u, k + 1, dir, fmt, acc);
            },
            Some(role) => {
                lemma_same_roles(t, u, k, role);
                lemma_converted_after_der(t[k].data, u[k].data, fmt);
                match spec_exported_file(dir, role, fmt, spec_converted(t[k].data, fmt)) {
                    Ok(file) => {
                        lemma_export_from_after_der(t, u, k + 1, dir, fmt, acc.push(file));
                    },
                    Err(e) => {},
                }
            },
        }
    }
}

/// From PEM to DER and back to PEM, at the export: where the certificates of
/// a table were exported in DER and a table is made of what was written, an
/// export of that table gives, file for file and byte for byte, what an
/// export of the first table in the same encoding gives. In PEM that is the
/// canonical PEM of each certificate, and so the very bytes of an entry
/// that held canonical PEM; it fails only where the direct export fails.
pub proof fn lemma_export_after_der(
    t: Seq<EntryView>,
    u: Seq<EntryView>,
    dir: Seq<char>,
    fmt: EncodingFormat,
)
    requires
        exported_in_der(t, u),
    ensures
        spec_export(u, dir, fmt) == spec_export(t, dir, fmt),
{
    lemma_export_from_after_der(t, u, 0, dir, fmt, Seq::empty());
}

/// An entry that holds the canonical PEM of its certificate is exported in
/// PEM as it is.
pub proof fn lemma_canonical_pem_is_kept(data: Seq<u8>, cert: Seq<u8>)
    requires
        spec_to_encoding(cert, EncodingFormat::Pem) == Some(data),
        settled(cert),
    ensures
        spec_converted(data, EncodingFormat::Pem) == Some(data),
{
    lemma_reparse(cert, EncodingFormat::Pem, data);
}

/// A table has no role twice, so exporting one never fails on a duplicate.
pub proof fn lemma_export_of_table(
    t: Seq<EntryView>,
    k: int,
    dir: Seq<char>,
    fmt: EncodingFormat,
    acc: Seq<FileView>,
    role: CertRole,
)
    requires
        valid_table(t),
        0 <= k,
    ensures
        spec_export_from(t, k, dir, fmt, acc) != Err::<Seq<FileView>, CertError>(
            CertError::DuplicateRole(role),
        ),
    decreases t.len() - k,
{
    if k < t.len() {
        match role_of(t[k].guid) {
            None => {
                lemma_export_of_table(t, k + 1, dir, fmt, acc, role);
            },
            Some(r) => {
                if holds_role(t.take(k), r) {
                    let j = choose|j: int|
                        0 <= j < t.take(k).len() && role_of(#[trigger] t.take(k)[j].guid) == Some(
                            r,
                        );
                    assert(t.take(k)[j] == t[j]);
                    assert(false);
                }
                match spec_exported_file(dir, r, fmt, spec_converted(t[k].data, fmt)) {
                    Ok(file) => {
                        lemma_export_of_table(t, k + 1, dir, fmt, acc.push(file), role);
                    },
                    Err(e) => {},
                }
            },
        }
    }
}

} // verus!
