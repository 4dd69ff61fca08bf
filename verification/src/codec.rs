//! The firmware's binary certificate table.
//!
//! A table opens with a directory of 24-byte headers, one per certificate:
//! the 16 bytes of a GUID, then the offset and the length of the certificate
//! within the table, both as little-endian 32-bit numbers. A header under the
//! all-zero GUID closes the directory. The certificates follow.

use crate::bytes::{
    append_bytes, copy_range, le_u32, lemma_le_u32_roundtrip, push_le_u32, read_le_u32, same_bytes,
    u32_le,
};
use crate::error::CertError;
use crate::table::{
    entries_view, holds_role, lemma_valid_table_push, role_of, valid_table, CertRole,
    CertTableEntry, CertificateTable, EntryView, ZERO_GUID,
};
use vstd::prelude::*;

verus! {

/// The size of one directory header.
pub const HEADER_SIZE: usize = 24;

/// Whether the buffer is long enough to hold header `i`.
pub open spec fn header_present(bytes: Seq<u8>, i: int) -> bool {
    24 * (i + 1) <= bytes.len()
}

/// The GUID of header `i`.
pub open spec fn header_guid(bytes: Seq<u8>, i: int) -> Seq<u8> {
    bytes.subrange(24 * i, 24 * i + 16)
}

/// The offset that header `i` gives for its certificate.
pub open spec fn header_offset(bytes: Seq<u8>, i: int) -> int {
    le_u32(bytes.subrange(24 * i + 16, 24 * i + 20)) as int
}

/// The length that header `i` gives for its certificate.
pub open spec fn header_length(bytes: Seq<u8>, i: int) -> int {
    le_u32(bytes.subrange(24 * i + 20, 24 * i + 24)) as int
}

/// Whether the certificate of header `i` lies within the buffer.
pub open spec fn span_in_bounds(bytes: Seq<u8>, i: int) -> bool {
    header_offset(bytes, i) + header_length(bytes, i) <= bytes.len()
}

/// The entry that header `i` describes.
pub open spec fn entry_at(bytes: Seq<u8>, i: int) -> EntryView {
    EntryView {
        guid: header_guid(bytes, i),
        data: bytes.subrange(
            header_offset(bytes, i),
            header_offset(bytes, i) + header_length(bytes, i),
        ),
    }
}

/// Reads the directory from header `i` on, with `acc` the entries read so
/// far. The first header that is cut short, points outside the buffer or
/// repeats a role decides the error.
pub open spec fn decode_from(bytes: Seq<u8>, i: int, acc: Seq<EntryView>) -> Result<
    Seq<EntryView>,
    CertError,
>
    decreases bytes.len() - 24 * i,
{
    let role = role_of(header_guid(bytes, i));
    if !header_present(bytes, i) {
        Err(CertError::MalformedTable)
    } else if header_guid(bytes, i) == ZERO_GUID@ {
        Ok(acc)
    } else if !span_in_bounds(bytes, i) {
        Err(CertError::MalformedTable)
    } else if role is Some && holds_role(acc, role.unwrap()) {
        Err(CertError::DuplicateRole(role.unwrap()))
    } else {
        decode_from(bytes, i + 1, acc.push(entry_at(bytes, i)))
    }
}

/// What a buffer decodes to.
pub open spec fn spec_decode(bytes: Seq<u8>) -> Result<Seq<EntryView>, CertError> {
    decode_from(bytes, 0, Seq::empty())
}

/// The result of `decode` with the table taken by its entries.
pub open spec fn table_result(res: Result<CertificateTable, CertError>) -> Result<
    Seq<EntryView>,
    CertError,
> {
    match res {
        Ok(t) => Ok(t@),
        Err(e) => Err(e),
    }
}

fn read_guid(buf: &[u8], pos: usize) -> (guid: [u8; 16])
    requires
        pos + 16 <= buf@.len(),
    ensures
        guid@ == buf@.subrange(pos as int, pos + 16),
{
    let mut guid: [u8; 16] = [0u8; 16];
    let mut k: usize = 0;
    while k < 16
        invariant
            k <= 16,
            pos + 16 <= buf.len(),
            forall|j: int| 0 <= j < k ==> guid@[j] == buf@[pos + j],
        decreases 16 - k,
    {
        guid[k] = buf[pos + k];
        k += 1;
    }
    guid
}

/// Parses a firmware certificate table.
///
/// Fails with `MalformedTable` when the directory runs off the end of the
/// buffer before its closing header, or when a header points outside the
/// buffer, and with `DuplicateRole` when a second entry claims a role of the
/// trust chain. Entries under other GUIDs are kept as they are. Nothing after
/// the closing header is read as a header.
pub fn decode(blob: &[u8]) -> (res: Result<CertificateTable, CertError>)
    ensures
        table_result(res) == spec_decode(blob@),
        res matches Ok(t) ==> valid_table(t@),
{
    let mut entries: Vec<CertTableEntry> = Vec::new();
    let mut i: usize = 0;
    let mut pos: usize = 0;
    assert(entries_view(entries@) =~= Seq::<EntryView>::empty());
    loop
        invariant
            pos == 24 * i,
            pos <= blob@.len(),
            valid_table(entries_view(entries@)),
            spec_decode(blob@) == decode_from(blob@, i as int, entries_view(entries@)),
        decreases blob@.len() - pos,
    {
        if blob.len() - pos < HEADER_SIZE {
            return Err(CertError::MalformedTable);
        }
        let guid = read_guid(blob, pos);
        if same_bytes(&guid, &ZERO_GUID) {
            let table = CertificateTable::from_entries(entries);
            return Ok(table);
        }
        let offset = read_le_u32(blob, pos + 16);
        let length = read_le_u32(blob, pos + 20);
        if offset as u64 + length as u64 > blob.len() as u64 {
            return Err(CertError::MalformedTable);
        }
        let entry = CertTableEntry {
            guid,
            data: copy_range(blob, offset as usize, offset as usize + length as usize),
        };
        match entry.role() {
            Some(role) => {
                if holds(&entries, role) {
                    return Err(CertError::DuplicateRole(role));
                }
            },
            None => {},
        }
        proof {
            lemma_valid_table_push(entries_view(entries@), entry@);
            assert(entries_view(entries@.push(entry)) =~= entries_view(entries@).push(entry@));
        }
        entries.push(entry);
        i += 1;
        pos += HEADER_SIZE;
    }
}

/// Whether one of the entries has the role.
fn holds(entries: &Vec<CertTableEntry>, role: CertRole) -> (found: bool)
    ensures
        found == holds_role(entries_view(entries@), role),
{
    let mut k: usize = 0;
    while k < entries.len()
        invariant
            k <= entries@.len(),
            forall|j: int|
                0 <= j < k ==> role_of(#[trigger] entries_view(entries@)[j].guid) != Some(role),
        decreases entries@.len() - k,
    {
        if entries[k].role() == Some(role) {
            assert(entries_view(entries@)[k as int] == entries@[k as int]@);
            return true;
        }
        k += 1;
    }
    false
}

/// The entries that the first `n` headers of a buffer describe.
pub open spec fn entries_of(bytes: Seq<u8>, n: int) -> Seq<EntryView> {
    Seq::new(n as nat, |i: int| entry_at(bytes, i))
}

/// The first `n` headers are entries: none is the closing header and each
/// points within the buffer.
pub open spec fn entries_in_bounds(bytes: Seq<u8>, n: int) -> bool {
    forall|i: int|
        0 <= i < n ==> #[trigger] header_guid(bytes, i) != ZERO_GUID@ && span_in_bounds(bytes, i)
}

/// A buffer holds a directory of `n` entries: header `n` is there and closes
/// the directory, and the headers before it are entries.
pub open spec fn holds_directory(bytes: Seq<u8>, n: int) -> bool {
    &&& 0 <= n
    &&& header_present(bytes, n)
    &&& header_guid(bytes, n) == ZERO_GUID@
    &&& entries_in_bounds(bytes, n)
}

proof fn lemma_entries_of_step(bytes: Seq<u8>, i: int)
    requires
        0 <= i,
    ensures
        entries_of(bytes, i).push(entry_at(bytes, i)) == entries_of(bytes, i + 1),
{
}

proof fn lemma_duplicate_spoils(bytes: Seq<u8>, i: int, n: int)
    requires
        0 <= i < n,
        role_of(header_guid(bytes, i)) is Some,
        holds_role(entries_of(bytes, i), role_of(header_guid(bytes, i)).unwrap()),
    ensures
        !valid_table(entries_of(bytes, n)),
{
    let acc = entries_of(bytes, i);
    let all = entries_of(bytes, n);
    let role = role_of(header_guid(bytes, i)).unwrap();
    let j = choose|j: int| 0 <= j < acc.len() && role_of(#[trigger] acc[j].guid) == Some(role);
    assert(all[j] == acc[j]);
    assert(all[i].guid == header_guid(bytes, i));
}

proof fn lemma_decode_from_ok(bytes: Seq<u8>, i: int, t: Seq<EntryView>)
    requires
        0 <= i,
        entries_in_bounds(bytes, i),
        valid_table(entries_of(bytes, i)),
        decode_from(bytes, i, entries_of(bytes, i)) == Ok::<Seq<EntryView>, CertError>(t),
    ensures
        holds_directory(bytes, t.len() as int),
        t == entries_of(bytes, t.len() as int),
        valid_table(t),
    decreases bytes.len() - 24 * i,
{
    if header_guid(bytes, i) != ZERO_GUID@ {
        lemma_entries_of_step(bytes, i);
        lemma_decode_from_ok(bytes, i + 1, t);
    }
}

/// What decoding guarantees: a buffer decodes to a table only if it holds a
/// directory of that many entries, and the table is then made of the entries
/// that the headers describe, each read from within the buffer, with no role
/// of the trust chain twice.
pub proof fn lemma_decode_ok(bytes: Seq<u8>, t: Seq<EntryView>)
    requires
        spec_decode(bytes) == Ok::<Seq<EntryView>, CertError>(t),
    ensures
        holds_directory(bytes, t.len() as int),
        t == entries_of(bytes, t.len() as int),
        valid_table(t),
{
    assert(entries_of(bytes, 0) =~= Seq::<EntryView>::empty());
    lemma_decode_from_ok(bytes, 0, t);
}

/// Header `k` is the first to repeat a role: it has a role that an entry
/// before it has, and no role occurs twice among the entries before it.
pub open spec fn first_repeat(bytes: Seq<u8>, k: int) -> bool {
    &&& valid_table(entries_of(bytes, k))
    &&& role_of(header_guid(bytes, k)) is Some
    &&& holds_role(entries_of(bytes, k), role_of(header_guid(bytes, k)).unwrap())
}

proof fn lemma_decode_from_directory(bytes: Seq<u8>, n: int, i: int)
    requires
        holds_directory(bytes, n),
        0 <= i <= n,
        valid_table(entries_of(bytes, i)),
    ensures
        match decode_from(bytes, i, entries_of(bytes, i)) {
            Ok(t) => t == entries_of(bytes, n) && valid_table(t),
            Err(e) => !valid_table(entries_of(bytes, n)) && exists|k: int|
                i <= k < n && #[trigger] first_repeat(bytes, k) && e == CertError::DuplicateRole(
                    role_of(header_guid(bytes, k)).unwrap(),
                ),
        },
    decreases n - i,
{
    let acc = entries_of(bytes, i);
    if i < n {
        let role = role_of(header_guid(bytes, i));
        if role is Some && holds_role(acc, role.unwrap()) {
            lemma_duplicate_spoils(bytes, i, n);
            assert(first_repeat(bytes, i));
        } else {
            lemma_entries_of_step(bytes, i);
            lemma_valid_table_push(acc, entry_at(bytes, i));
            lemma_decode_from_directory(bytes, n, i + 1);
        }
    }
}

/// A buffer that holds a directory decodes to its entries when no role of
/// the trust chain occurs twice among them. When one does, decoding fails
/// with `DuplicateRole` for the role of the first header that repeats one.
pub proof fn lemma_decode_directory(bytes: Seq<u8>, n: int)
    requires
        holds_directory(bytes, n),
    ensures
        valid_table(entries_of(bytes, n)) ==> spec_decode(bytes) == Ok::<Seq<EntryView>, CertError>(
            entries_of(bytes, n),
        ),
        !valid_table(entries_of(bytes, n)) ==> exists|k: int|
            0 <= k < n && #[trigger] first_repeat(bytes, k) && spec_decode(bytes) == Err::<
                Seq<EntryView>,
                CertError,
            >(CertError::DuplicateRole(role_of(header_guid(bytes, k)).unwrap())),
{
    assert(entries_of(bytes, 0) =~= Seq::<EntryView>::empty());
    lemma_decode_from_directory(bytes, n, 0);
}

proof fn lemma_decode_from_duplicate(bytes: Seq<u8>, k: int, i: int)
    requires
        0 <= i <= k,
        header_present(bytes, k),
        entries_in_bounds(bytes, k + 1),
        first_repeat(bytes, k),
        valid_table(entries_of(bytes, i)),
    ensures
        decode_from(bytes, i, entries_of(bytes, i)) == Err::<Seq<EntryView>, CertError>(
            CertError::DuplicateRole(role_of(header_guid(bytes, k)).unwrap()),
        ),
    decreases k - i,
{
    let acc = entries_of(bytes, i);
    assert(header_guid(bytes, i) != ZERO_GUID@ && span_in_bounds(bytes, i));
    if i < k {
        let role = role_of(header_guid(bytes, i));
        if role is Some && holds_role(acc, role.unwrap()) {
            lemma_duplicate_spoils(bytes, i, k);
        } else {
            lemma_entries_of_step(bytes, i);
            lemma_valid_table_push(acc, entry_at(bytes, i));
            lemma_decode_from_duplicate(bytes, k, i + 1);
        }
    }
}

/// A second entry for a role is refused by that role: where header `k` is
/// the first to repeat a role, and the headers up to it are entries that
/// point within the buffer, decoding fails with `DuplicateRole` for the role
/// of header `k`, whatever follows.
pub proof fn lemma_decode_duplicate(bytes: Seq<u8>, k: int)
    requires
        0 <= k,
        header_present(bytes, k),
        entries_in_bounds(bytes, k + 1),
        first_repeat(bytes, k),
    ensures
        spec_decode(bytes) == Err::<Seq<EntryView>, CertError>(
            CertError::DuplicateRole(role_of(header_guid(bytes, k)).unwrap()),
        ),
{
    assert(entries_of(bytes, 0) =~= Seq::<EntryView>::empty());
    lemma_decode_from_duplicate(bytes, k, 0);
}

proof fn lemma_decode_from_malformed(bytes: Seq<u8>, n: int, i: int)
    requires
        0 <= i <= n,
        entries_in_bounds(bytes, n),
        !header_present(bytes, n) || (header_guid(bytes, n) != ZERO_GUID@ && !span_in_bounds(
            bytes,
            n,
        )),
        valid_table(entries_of(bytes, i)),
    ensures
        decode_from(bytes, i, entries_of(bytes, i)) is Err,
        valid_table(entries_of(bytes, n)) ==> decode_from(bytes, i, entries_of(bytes, i)) == Err::<
            Seq<EntryView>,
            CertError,
        >(CertError::MalformedTable),
    decreases n - i,
{
    let acc = entries_of(bytes, i);
    if i < n && header_present(bytes, i) {
        assert(header_guid(bytes, i) != ZERO_GUID@ && span_in_bounds(bytes, i));
        let role = role_of(header_guid(bytes, i));
        if role is Some && holds_role(acc, role.unwrap()) {
            lemma_duplicate_spoils(bytes, i, n);
        } else {
            lemma_entries_of_step(bytes, i);
            lemma_decode_from_malformed(bytes, n, i + 1);
        }
    }
}

/// A buffer does not decode when, behind `n` entries, the next header is cut
/// short or points outside the buffer. The failure is `MalformedTable`
/// unless a role occurs twice among the entries before it.
pub proof fn lemma_decode_malformed(bytes: Seq<u8>, n: int)
    requires
        0 <= n,
        entries_in_bounds(bytes, n),
        !header_present(bytes, n) || (header_guid(bytes, n) != ZERO_GUID@ && !span_in_bounds(
            bytes,
            n,
        )),
    ensures
        spec_decode(bytes) is Err,
        valid_table(entries_of(bytes, n)) ==> spec_decode(bytes) == Err::<Seq<EntryView>, CertError>(
            CertError::MalformedTable,
        ),
{
    assert(entries_of(bytes, 0) =~= Seq::<EntryView>::empty());
    lemma_decode_from_malformed(bytes, n, 0);
}

/// The length of the certificates of the first `k` entries, taken together.
pub open spec fn payload_len(t: Seq<EntryView>, k: int) -> int
    decreases k,
{
    if k <= 0 {
        0
    } else {
        payload_len(t, k - 1) + t[k - 1].data.len()
    }
}

/// The certificates of the first `k` entries, one after the other.
pub open spec fn payload(t: Seq<EntryView>, k: int) -> Seq<u8>
    decreases k,
{
    if k <= 0 {
        Seq::empty()
    } else {
        payload(t, k - 1) + t[k - 1].data
    }
}

/// Where the certificates begin: behind the directory and its closing header.
pub open spec fn data_start(t: Seq<EntryView>) -> int {
    24 * (t.len() as int + 1)
}

/// One directory header.
pub open spec fn header(guid: Seq<u8>, offset: int, length: int) -> Seq<u8> {
    guid + u32_le(offset as nat) + u32_le(length as nat)
}

/// The headers of the first `k` entries.
pub open spec fn directory(t: Seq<EntryView>, k: int) -> Seq<u8>
    decreases k,
{
    if k <= 0 {
        Seq::empty()
    } else {
        directory(t, k - 1) + header(
            t[k - 1].guid,
            data_start(t) + payload_len(t, k - 1),
            t[k - 1].data.len() as int,
        )
    }
}

/// The header that closes the directory.
pub open spec fn terminator() -> Seq<u8> {
    Seq::new(24, |i: int| 0u8)
}

/// The size of the encoded table.
pub open spec fn encoded_len(t: Seq<EntryView>) -> int {
    data_start(t) + payload_len(t, t.len() as int)
}

/// A table can be laid out when its size, and with it every offset, fits in
/// 32 bits.
pub open spec fn fits(t: Seq<EntryView>) -> bool {
    encoded_len(t) <= u32::MAX
}

/// The bytes of the encoded table: the directory in entry order, the closing
/// header, then the certificates in the same order, without padding.
pub open spec fn spec_encode(t: Seq<EntryView>) -> Seq<u8> {
    directory(t, t.len() as int) + terminator() + payload(t, t.len() as int)
}

proof fn lemma_payload_len_grows(t: Seq<EntryView>, j: int, k: int)
    requires
        0 <= j <= k,
    ensures
        0 <= payload_len(t, j) <= payload_len(t, k),
    decreases k,
{
    if j < k {
        lemma_payload_len_grows(t, j, k - 1);
    } else if 0 < k {
        lemma_payload_len_grows(t, j - 1, k - 1);
    }
}

proof fn lemma_payload_size(t: Seq<EntryView>, k: int)
    requires
        0 <= k,
    ensures
        payload(t, k).len() == payload_len(t, k),
    decreases k,
{
    if 0 < k {
        lemma_payload_size(t, k - 1);
    }
}

proof fn lemma_payload_part(t: Seq<EntryView>, i: int, k: int)
    requires
        0 <= i < k,
    ensures
        payload_len(t, i) + t[i].data.len() == payload_len(t, i + 1),
        payload_len(t, i + 1) <= payload_len(t, k),
        payload(t, k).len() == payload_len(t, k),
        payload(t, k).subrange(payload_len(t, i), payload_len(t, i + 1)) == t[i].data,
    decreases k,
{
    lemma_payload_size(t, k);
    lemma_payload_len_grows(t, 0, i);
    if i + 1 < k {
        lemma_payload_part(t, i, k - 1);
    } else {
        assert(payload(t, k).subrange(payload_len(t, i), payload_len(t, i + 1)) =~= t[i].data);
    }
}

proof fn lemma_directory_size(t: Seq<EntryView>, k: int)
    requires
        0 <= k <= t.len(),
        forall|i: int| 0 <= i < t.len() ==> (#[trigger] t[i]).guid.len() == 16,
    ensures
        directory(t, k).len() == 24 * k,
    decreases k,
{
    if 0 < k {
        lemma_directory_size(t, k - 1);
    }
}

proof fn lemma_directory_part(t: Seq<EntryView>, i: int, k: int)
    requires
        0 <= i < k <= t.len(),
        forall|i: int| 0 <= i < t.len() ==> (#[trigger] t[i]).guid.len() == 16,
    ensures
        directory(t, k).len() == 24 * k,
        directory(t, k).subrange(24 * i, 24 * i + 24) == header(
            t[i].guid,
            data_start(t) + payload_len(t, i),
            t[i].data.len() as int,
        ),
    decreases k,
{
    lemma_directory_size(t, k);
    if i + 1 < k {
        lemma_directory_part(t, i, k - 1);
    }
}

/// What header `i` of an encoded table reads as.
proof fn lemma_encoded_header(t: Seq<EntryView>, i: int)
    requires
        valid_table(t),
        fits(t),
        0 <= i < t.len(),
    ensures
        header_present(spec_encode(t), i),
        entry_at(spec_encode(t), i) == t[i],
        span_in_bounds(spec_encode(t), i),
{
    let n = t.len() as int;
    let enc = spec_encode(t);
    let off = data_start(t) + payload_len(t, i);
    let len = t[i].data.len() as int;
    let h = header(t[i].guid, off, len);
    lemma_directory_part(t, i, n);
    lemma_payload_part(t, i, n);
    lemma_payload_len_grows(t, 0, i);
    lemma_le_u32_roundtrip(off as nat);
    lemma_le_u32_roundtrip(len as nat);
    assert(enc.subrange(24 * i, 24 * i + 24) =~= h);
    assert(enc.subrange(24 * i + 16, 24 * i + 20) =~= h.subrange(16, 20));
    assert(enc.subrange(24 * i + 20, 24 * i + 24) =~= h.subrange(20, 24));
}

proof fn lemma_decode_encoded_from(t: Seq<EntryView>, i: int)
    requires
        valid_table(t),
        fits(t),
        0 <= i <= t.len(),
    ensures
        decode_from(spec_encode(t), i, t.take(i)) == Ok::<Seq<EntryView>, CertError>(t),
    decreases t.len() - i,
{
    let n = t.len() as int;
    let enc = spec_encode(t);
    lemma_directory_size(t, n);
    if i == n {
        assert(header_guid(enc, i) =~= ZERO_GUID@);
        assert(t.take(i) =~= t);
    } else {
        lemma_encoded_header(t, i);
        let role = role_of(t[i].guid);
        if role is Some && holds_role(t.take(i), role.unwrap()) {
            let j = choose|j: int|
                0 <= j < t.take(i).len() && role_of(#[trigger] t.take(i)[j].guid) == role;
            assert(t.take(i)[j] == t[j]);
        }
        assert(t.take(i).push(t[i]) =~= t.take(i + 1));
        lemma_decode_encoded_from(t, i + 1);
    }
}

/// Decoding an encoded table gives the table back: the same entries, each
/// with its GUID and its bytes, in the same order.
pub proof fn lemma_decode_encode(t: Seq<EntryView>)
    requires
        valid_table(t),
        fits(t),
    ensures
        spec_decode(spec_encode(t)) == Ok::<Seq<EntryView>, CertError>(t),
{
    assert(t.take(0) =~= Seq::<EntryView>::empty());
    lemma_decode_encoded_from(t, 0);
}

/// Lays a table out in the firmware's format: the directory in entry order,
/// the closing header, then the certificates.
///
/// Fails with `MalformedTable` when the table does not fit the format's
/// 32-bit offsets, and only then.
pub fn encode(table: &CertificateTable) -> (res: Result<Vec<u8>, CertError>)
    ensures
        match res {
            Ok(blob) => fits(table@) && blob@ == spec_encode(table@) && spec_decode(blob@) == Ok::<
                Seq<EntryView>,
                CertError,
            >(table@),
            Err(e) => !fits(table@) && e == CertError::MalformedTable,
        },
{
    let entries = table.entries();
    let ghost t = table@;
    proof {
        if fits(t) {
            lemma_decode_encode(t);
        }
    }
    let n = entries.len();
    // With this many entries the directory alone would pass 32 bits.
    if n >= 178956970 {
        proof {
            lemma_payload_len_grows(t, 0, n as int);
        }
        return Err(CertError::MalformedTable);
    }
    let start: u32 = 24 * (n as u32 + 1);
    let mut total: u32 = start;
    let mut k: usize = 0;
    while k < n
        invariant
            k <= n == entries@.len() == t.len(),
            entries_view(entries@) == t,
            t == table@,
            start == data_start(t),
            total == start + payload_len(t, k as int),
        decreases n - k,
    {
        let len = entries[k].data.len();
        if len > (u32::MAX - total) as usize {
            proof {
                lemma_payload_len_grows(t, k + 1, n as int);
            }
            return Err(CertError::MalformedTable);
        }
        total = total + len as u32;
        k += 1;
    }
    let mut out: Vec<u8> = Vec::new();
    let mut offset: u32 = start;
    let mut k: usize = 0;
    while k < n
        invariant
            k <= n == entries@.len() == t.len(),
            entries_view(entries@) == t,
            start == data_start(t),
            offset == start + payload_len(t, k as int),
            start + payload_len(t, n as int) <= u32::MAX,
            out@ == directory(t, k as int),
        decreases n - k,
    {
        let entry = &entries[k];
        proof {
            lemma_payload_len_grows(t, k + 1, n as int);
        }
        let len: u32 = entry.data.len() as u32;
        append_bytes(&mut out, entry.guid.as_slice());
        push_le_u32(&mut out, offset);
        push_le_u32(&mut out, len);
        offset = offset + len;
        k += 1;
    }
    let mut z: usize = 0;
    while z < HEADER_SIZE
        invariant
            z <= 24,
            out@ == directory(t, n as int) + terminator().subrange(0, z as int),
        decreases 24 - z,
    {
        out.push(0u8);
        z += 1;
    }
    let mut k: usize = 0;
    while k < n
        invariant
            k <= n == entries@.len() == t.len(),
            entries_view(entries@) == t,
            out@ == directory(t, n as int) + terminator() + payload(t, k as int),
        decreases n - k,
    {
        append_bytes(&mut out, entries[k].data.as_slice());
        k += 1;
    }
    Ok(out)
}

} // verus!
