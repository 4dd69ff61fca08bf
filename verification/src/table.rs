//! Roles, table entries and the certificate table.

use crate::bytes::{copy_bytes, same_bytes};
use crate::error::CertError;
use vstd::prelude::*;

verus! {

/// The GUID that tags the root certificate (ARK),
/// `c0b406a4-a803-4952-9743-3fb6014cd0ae`.
pub const ARK_GUID: [u8; 16] = [
    0xc0, 0xb4, 0x06, 0xa4, 0xa8, 0x03, 0x49, 0x52, 0x97, 0x43, 0x3f, 0xb6, 0x01, 0x4c, 0xd0, 0xae,
];

/// The GUID that tags the intermediate certificate (ASK),
/// `4ab7b379-bbac-4fe4-a02f-05aef327c782`.
pub const ASK_GUID: [u8; 16] = [
    0x4a, 0xb7, 0xb3, 0x79, 0xbb, 0xac, 0x4f, 0xe4, 0xa0, 0x2f, 0x05, 0xae, 0xf3, 0x27, 0xc7, 0x82,
];

/// The GUID that tags the leaf certificate (VCEK),
/// `63da758d-e664-4564-adc5-f4b93be8accd`.
pub const VCEK_GUID: [u8; 16] = [
    0x63, 0xda, 0x75, 0x8d, 0xe6, 0x64, 0x45, 0x64, 0xad, 0xc5, 0xf4, 0xb9, 0x3b, 0xe8, 0xac, 0xcd,
];

/// The all-zero GUID, which closes a table and tags no entry.
pub const ZERO_GUID: [u8; 16] = [0, 0, 0, 0, 0, 0, 0, 0, 0, 0, 0, 0, 0, 0, 0, 0];

/// The three roles of the trust chain.
#[derive(Clone, Copy, Debug, PartialEq, Eq, Structural)]
pub enum CertRole {
    /// The self-signed certificate that anchors the chain (ARK).
    Root,
    /// The certificate signed by the root, which signs the leaf (ASK).
    Intermediate,
    /// The certificate of the chip's attestation key (VCEK).
    Leaf,
}

impl CertRole {
    /// The GUID by which the firmware tags the role.
    pub open spec fn spec_guid(self) -> Seq<u8> {
        match self {
            CertRole::Root => ARK_GUID@,
            CertRole::Intermediate => ASK_GUID@,
            CertRole::Leaf => VCEK_GUID@,
        }
    }

    /// The GUID by which the firmware tags the role.
    pub fn guid(&self) -> (g: [u8; 16])
        ensures
            g@ == self.spec_guid(),
    {
        match self {
            CertRole::Root => ARK_GUID,
            CertRole::Intermediate => ASK_GUID,
            CertRole::Leaf => VCEK_GUID,
        }
    }

    /// The short name of the role, as used in file names.
    pub open spec fn spec_name(self) -> Seq<char> {
        match self {
            CertRole::Root => "ark"@,
            CertRole::Intermediate => "ask"@,
            CertRole::Leaf => "vcek"@,
        }
    }

    /// The short name of the role, as used in file names: `ark`, `ask` or `vcek`.
    pub fn name(&self) -> (n: &'static str)
        ensures
            n@ == self.spec_name(),
    {
        match self {
            CertRole::Root => "ark",
            CertRole::Intermediate => "ask",
            CertRole::Leaf => "vcek",
        }
    }
}

/// The role that a GUID stands for, if it is one of the three recognized ones.
pub open spec fn role_of(guid: Seq<u8>) -> Option<CertRole> {
    if guid == ARK_GUID@ {
        Some(CertRole::Root)
    } else if guid == ASK_GUID@ {
        Some(CertRole::Intermediate)
    } else if guid == VCEK_GUID@ {
        Some(CertRole::Leaf)
    } else {
        None
    }
}

/// Each role is found again from its own GUID, and no role has the closing GUID.
pub proof fn lemma_role_of_guid(role: CertRole)
    ensures
        role_of(role.spec_guid()) == Some(role),
        role.spec_guid().len() == 16,
        role.spec_guid() != ZERO_GUID@,
{
}

/// What an entry of a certificate table holds: the GUID that tags it and the
/// bytes of the certificate.
#[verifier::ext_equal]
pub struct EntryView {
    pub guid: Seq<u8>,
    pub data: Seq<u8>,
}

/// One certificate of a table, tagged by the GUID the firmware gave it.
/// An entry whose GUID stands for no recognized role is opaque: it is kept
/// as it is and takes no part in chain validation.
#[derive(Debug, PartialEq, Eq)]
pub struct CertTableEntry {
    /// The tag of the entry.
    pub guid: [u8; 16],
    /// The bytes of the certificate.
    pub data: Vec<u8>,
}

impl View for CertTableEntry {
    type V = EntryView;

    open spec fn view(&self) -> EntryView {
        EntryView { guid: self.guid@, data: self.data@ }
    }
}

impl Clone for CertTableEntry {
    fn clone(&self) -> (copy: CertTableEntry)
        ensures
            copy@ == self@,
    {
        CertTableEntry { guid: self.guid, data: copy_bytes(self.data.as_slice()) }
    }
}

impl CertTableEntry {
    /// An entry for one of the roles of the trust chain.
    pub fn new(role: CertRole, data: Vec<u8>) -> (entry: CertTableEntry)
        ensures
            entry@ == (EntryView { guid: role.spec_guid(), data: data@ }),
            role_of(entry@.guid) == Some(role),
    {
        CertTableEntry { guid: role.guid(), data }
    }

    /// An entry under a GUID given as it is.
    pub fn from_guid(guid: [u8; 16], data: Vec<u8>) -> (entry: CertTableEntry)
        ensures
            entry@ == (EntryView { guid: guid@, data: data@ }),
    {
        CertTableEntry { guid, data }
    }

    /// The role of the entry, or `None` for an opaque one.
    pub fn role(&self) -> (role: Option<CertRole>)
        ensures
            role == role_of(self@.guid),
    {
        if same_bytes(&self.guid, &ARK_GUID) {
            Some(CertRole::Root)
        } else if same_bytes(&self.guid, &ASK_GUID) {
            Some(CertRole::Intermediate)
        } else if same_bytes(&self.guid, &VCEK_GUID) {
            Some(CertRole::Leaf)
        } else {
            None
        }
    }

    /// Whether the entry carries the GUID that closes a table.
    pub fn is_terminator(&self) -> (zero: bool)
        ensures
            zero == (self@.guid == ZERO_GUID@),
    {
        same_bytes(&self.guid, &ZERO_GUID)
    }
}

/// The views of a run of entries, in order.
pub open spec fn entries_view(entries: Seq<CertTableEntry>) -> Seq<EntryView> {
    Seq::new(entries.len(), |i: int| entries[i]@)
}

/// Whether some entry of `t` has the role.
pub open spec fn holds_role(t: Seq<EntryView>, role: CertRole) -> bool {
    exists|i: int| 0 <= i < t.len() && role_of(#[trigger] t[i].guid) == Some(role)
}

/// The bytes of the certificate that has the role, if the table holds one.
pub open spec fn role_data(t: Seq<EntryView>, role: CertRole) -> Option<Seq<u8>> {
    if holds_role(t, role) {
        Some(
            t[choose|i: int| 0 <= i < t.len() && role_of(#[trigger] t[i].guid) == Some(role)].data,
        )
    } else {
        None
    }
}

/// What makes a run of entries a certificate table: every entry is tagged by
/// a 16-byte GUID other than the closing one, and no recognized role occurs twice.
pub open spec fn valid_table(t: Seq<EntryView>) -> bool {
    &&& forall|i: int|
        0 <= i < t.len() ==> (#[trigger] t[i]).guid.len() == 16 && t[i].guid != ZERO_GUID@
    &&& forall|i: int, j: int|
        0 <= i < t.len() && 0 <= j < t.len() && i != j && role_of((#[trigger] t[i]).guid) is Some
            ==> role_of(t[i].guid) != role_of((#[trigger] t[j]).guid)
}

/// Adding an entry adds its role, and no other, to those a table holds.
pub proof fn lemma_holds_role_push(t: Seq<EntryView>, e: EntryView, role: CertRole)
    ensures
        holds_role(t.push(e), role) <==> holds_role(t, role) || role_of(e.guid) == Some(role),
{
    let u = t.push(e);
    if holds_role(t, role) {
        let i = choose|i: int| 0 <= i < t.len() && role_of(#[trigger] t[i].guid) == Some(role);
        assert(u[i] == t[i]);
    }
    if role_of(e.guid) == Some(role) {
        assert(u[t.len() as int] == e);
    }
    if holds_role(u, role) {
        let i = choose|i: int| 0 <= i < u.len() && role_of(#[trigger] u[i].guid) == Some(role);
        if i < t.len() {
            assert(u[i] == t[i]);
        }
    }
}

/// In a table, the entry that has a role is the only one.
pub proof fn lemma_role_data_at(t: Seq<EntryView>, role: CertRole, i: int)
    requires
        valid_table(t),
        0 <= i < t.len(),
        role_of(t[i].guid) == Some(role),
    ensures
        role_data(t, role) == Some(t[i].data),
{
    let j = choose|j: int| 0 <= j < t.len() && role_of(#[trigger] t[j].guid) == Some(role);
    assert(i == j);
}

/// A table stays one when an entry is added whose GUID is not the closing
/// one and whose role, if it has one, the table does not hold yet.
pub proof fn lemma_valid_table_push(t: Seq<EntryView>, e: EntryView)
    requires
        valid_table(t),
        e.guid.len() == 16,
        e.guid != ZERO_GUID@,
        role_of(e.guid) matches Some(role) ==> !holds_role(t, role),
    ensures
        valid_table(t.push(e)),
{
    let u = t.push(e);
    assert forall|i: int, j: int|
        0 <= i < u.len() && 0 <= j < u.len() && i != j && role_of((#[trigger] u[i]).guid) is Some
        implies role_of(u[i].guid) != role_of((#[trigger] u[j]).guid) by {
        if i < t.len() && j < t.len() {
            assert(u[i] == t[i] && u[j] == t[j]);
        } else if i < t.len() {
            assert(u[i] == t[i]);
        } else {
            assert(u[j] == t[j]);
        }
    }
}

/// The certificates of a platform, in the order the firmware lists them. No
/// entry carries the closing GUID, and each of the three roles of the trust
/// chain occurs at most once.
#[derive(Debug, PartialEq, Eq)]
pub struct CertificateTable {
    entries: Vec<CertTableEntry>,
}

impl View for CertificateTable {
    type V = Seq<EntryView>;

    closed spec fn view(&self) -> Seq<EntryView> {
        entries_view(self.entries@)
    }
}

impl Clone for CertificateTable {
    fn clone(&self) -> (copy: CertificateTable)
        ensures
            copy@ == self@,
    {
        proof {
            use_type_invariant(self);
        }
        let mut entries: Vec<CertTableEntry> = Vec::new();
        let mut i: usize = 0;
        while i < self.entries.len()
            invariant
                i <= self.entries@.len(),
                entries@.len() == i,
                forall|j: int| 0 <= j < i ==> entries@[j]@ == self.entries@[j]@,
            decreases self.entries@.len() - i,
        {
            entries.push(self.entries[i].clone());
            i += 1;
        }
        assert(entries_view(entries@) =~= entries_view(self.entries@));
        CertificateTable { entries }
    }
}

impl CertificateTable {
    #[verifier::type_invariant]
    spec fn inv(&self) -> bool {
        valid_table(entries_view(self.entries@))
    }

    /// The table without entries.
    pub fn new() -> (table: CertificateTable)
        ensures
            table@ == Seq::<EntryView>::empty(),
            valid_table(table@),
    {
        let table = CertificateTable { entries: Vec::new() };
        table
    }

    /// Makes a table of entries already known to form one.
    pub(crate) fn from_entries(entries: Vec<CertTableEntry>) -> (table: CertificateTable)
        requires
            valid_table(entries_view(entries@)),
        ensures
            table@ == entries_view(entries@),
    {
        CertificateTable { entries }
    }

    /// The entries, in table order.
    pub fn entries(&self) -> (entries: &Vec<CertTableEntry>)
        ensures
            entries_view(entries@) == self@,
            valid_table(self@),
    {
        proof {
            use_type_invariant(self);
        }
        &self.entries
    }

    /// The number of entries.
    pub fn len(&self) -> (n: usize)
        ensures
            n == self@.len(),
    {
        self.entries.len()
    }

    /// The position of the entry that has the role, if there is one.
    pub fn position(&self, role: CertRole) -> (at: Option<usize>)
        ensures
            valid_table(self@),
            match at {
                Some(i) => i < self@.len() && role_of(self@[i as int].guid) == Some(role),
                None => !holds_role(self@, role),
            },
    {
        proof {
            use_type_invariant(self);
        }
        let mut i: usize = 0;
        while i < self.entries.len()
            invariant
                i <= self.entries@.len(),
                valid_table(self@),
                forall|j: int| 0 <= j < i ==> role_of(#[trigger] self@[j].guid) != Some(role),
            decreases self.entries@.len() - i,
        {
            if self.entries[i].role() == Some(role) {
                return Some(i);
            }
            i += 1;
        }
        None
    }

    /// The entry that has the role, if there is one.
    pub fn get(&self, role: CertRole) -> (entry: Option<&CertTableEntry>)
        ensures
            match entry {
                Some(e) => self@.contains(e@) && role_of(e@.guid) == Some(role) && role_data(
                    self@,
                    role,
                ) == Some(e@.data),
                None => !holds_role(self@, role) && role_data(self@, role) is None,
            },
    {
        match self.position(role) {
            Some(i) => {
                proof {
                    lemma_role_data_at(self@, role, i as int);
                }
                Some(&self.entries[i])
            },
            None => None,
        }
    }

    /// Adds an entry at the end. An entry under the closing GUID cannot be
    /// laid out and is refused as `MalformedTable`; one whose role the table
    /// already holds is refused as `DuplicateRole`. A refused entry leaves
    /// the table as it was.
    pub fn insert(&mut self, entry: CertTableEntry) -> (res: Result<(), CertError>)
        ensures
            res == spec_insert(old(self)@, entry@).0,
            final(self)@ == spec_insert(old(self)@, entry@).1,
            valid_table(final(self)@),
    {
        proof {
            use_type_invariant(&*self);
        }
        if entry.is_terminator() {
            return Err(CertError::MalformedTable);
        }
        match entry.role() {
            Some(role) => {
                if self.position(role).is_some() {
                    return Err(CertError::DuplicateRole(role));
                }
            },
            None => {},
        }
        // The entries leave the table and come back as a whole, so that the
        // table is a valid one at every step.
        let mut held = CertificateTable::new();
        core::mem::swap(self, &mut held);
        let mut entries = held.entries;
        proof {
            lemma_valid_table_push(old(self)@, entry@);
            assert(entries_view(entries@.push(entry)) =~= old(self)@.push(entry@));
        }
        entries.push(entry);
        *self = CertificateTable { entries };
        Ok(())
    }
}

/// What `insert` answers and what the table is afterwards.
pub open spec fn spec_insert(t: Seq<EntryView>, e: EntryView) -> (
    Result<(), CertError>,
    Seq<EntryView>,
) {
    if e.guid == ZERO_GUID@ {
        (Err(CertError::MalformedTable), t)
    } else if role_of(e.guid) matches Some(role) && holds_role(t, role) {
        (Err(CertError::DuplicateRole(role_of(e.guid).unwrap())), t)
    } else {
        (Ok(()), t.push(e))
    }
}

} // verus!
