use sev::firmware::host::{CertTableEntry as SevEntry, CertType as SevType};
use snphost::codec::{decode, encode};
use snphost::error::CertError;
use snphost::table::{
    CertRole, CertTableEntry, CertificateTable, ARK_GUID, ASK_GUID, VCEK_GUID, ZERO_GUID,
};

const OTHER_GUID: [u8; 16] = [
    0xfb, 0xb6, 0xed, 0x74, 0xe7, 0x3e, 0x44, 0xab, 0x88, 0x93, 0x42, 0x52, 0x79, 0x2d, 0x73, 0x7a,
];

const VLEK_GUID: [u8; 16] = [
    0xa8, 0x07, 0x4b, 0xc2, 0xa2, 0x5a, 0x48, 0x3e, 0xaa, 0xe6, 0x39, 0xc0, 0x45, 0xa0, 0xb8, 0xa1,
];

fn sample_entries() -> Vec<CertTableEntry> {
    vec![
        CertTableEntry::new(CertRole::Root, vec![1; 25]),
        CertTableEntry::new(CertRole::Intermediate, vec![2; 25]),
        CertTableEntry::new(CertRole::Leaf, vec![5; 15]),
        CertTableEntry::from_guid(OTHER_GUID, vec![7; 6]),
    ]
}

fn table_of(entries: Vec<CertTableEntry>) -> CertificateTable {
    let mut table = CertificateTable::new();
    for entry in entries {
        table.insert(entry).unwrap();
    }
    table
}

fn sample_blob() -> Vec<u8> {
    vec![
        192, 180, 6, 164, 168, 3, 73, 82, 151, 67, 63, 182, 1, 76, 208, 174, 120, 0, 0, 0, 25, 0,
        0, 0, 74, 183, 179, 121, 187, 172, 79, 228, 160, 47, 5, 174, 243, 39, 199, 130, 145, 0, 0,
        0, 25, 0, 0, 0, 99, 218, 117, 141, 230, 100, 69, 100, 173, 197, 244, 185, 59, 232, 172,
        205, 170, 0, 0, 0, 15, 0, 0, 0, 251, 182, 237, 116, 231, 62, 68, 171, 136, 147, 66, 82,
        121, 45, 115, 122, 185, 0, 0, 0, 6, 0, 0, 0, 0, 0, 0, 0, 0, 0, 0, 0, 0, 0, 0, 0, 0, 0, 0,
        0, 0, 0, 0, 0, 0, 0, 0, 0, 1, 1, 1, 1, 1, 1, 1, 1, 1, 1, 1, 1, 1, 1, 1, 1, 1, 1, 1, 1, 1,
        1, 1, 1, 1, 2, 2, 2, 2, 2, 2, 2, 2, 2, 2, 2, 2, 2, 2, 2, 2, 2, 2, 2, 2, 2, 2, 2, 2, 2, 5,
        5, 5, 5, 5, 5, 5, 5, 5, 5, 5, 5, 5, 5, 5, 7, 7, 7, 7, 7, 7,
    ]
}

/// One header: a GUID, an offset and a length.
fn header(guid: [u8; 16], offset: u32, length: u32) -> Vec<u8> {
    let mut h = guid.to_vec();
    h.extend_from_slice(&offset.to_le_bytes());
    h.extend_from_slice(&length.to_le_bytes());
    h
}

#[test]
fn encode_lays_out_directory_terminator_and_data() {
    let table = table_of(sample_entries());
    assert_eq!(encode(&table), Ok(sample_blob()));
}

#[test]
fn decode_reads_the_sample_table() {
    let table = decode(&sample_blob()).unwrap();
    assert_eq!(table.entries(), &sample_entries());
    assert_eq!(table.len(), 4);
}

#[test]
fn decode_of_encode_gives_the_table_back() {
    let table = table_of(sample_entries());
    let blob = encode(&table).unwrap();
    assert_eq!(decode(&blob), Ok(table));
}

#[test]
fn roundtrip_keeps_entry_order_and_empty_certificates() {
    let table = table_of(vec![
        CertTableEntry::new(CertRole::Leaf, vec![]),
        CertTableEntry::from_guid(OTHER_GUID, vec![9, 8, 7]),
        CertTableEntry::from_guid(OTHER_GUID, vec![]),
        CertTableEntry::new(CertRole::Root, vec![0xff; 300]),
    ]);
    let blob = encode(&table).unwrap();
    assert_eq!(blob.len(), 24 * 5 + 303);
    let back = decode(&blob).unwrap();
    assert_eq!(back, table);
    assert_eq!(back.entries()[0].role(), Some(CertRole::Leaf));
    assert_eq!(back.entries()[3].data.len(), 300);
}

#[test]
fn empty_table_is_one_closing_header() {
    let table = CertificateTable::new();
    assert_eq!(encode(&table), Ok(vec![0u8; 24]));
    assert_eq!(decode(&[0u8; 24]), Ok(CertificateTable::new()));
}

#[test]
fn encode_agrees_with_the_sev_crate() {
    let ours = table_of(vec![
        CertTableEntry::new(CertRole::Root, vec![1; 25]),
        CertTableEntry::new(CertRole::Intermediate, vec![2; 25]),
        CertTableEntry::new(CertRole::Leaf, vec![5; 15]),
        CertTableEntry::from_guid(VLEK_GUID, vec![3; 40]),
    ]);
    let theirs = vec![
        SevEntry::new(SevType::ARK, vec![1; 25]),
        SevEntry::new(SevType::ASK, vec![2; 25]),
        SevEntry::new(SevType::VCEK, vec![5; 15]),
        SevEntry::new(SevType::VLEK, vec![3; 40]),
    ];
    let expected = SevEntry::cert_table_to_vec_bytes(&theirs).unwrap();
    assert_eq!(encode(&ours).unwrap(), expected);
}

#[test]
fn decode_agrees_with_the_sev_crate() {
    let mut blob = sample_blob();
    let ours = decode(&blob).unwrap();
    let theirs = SevEntry::vec_bytes_to_cert_table(&mut blob).unwrap();
    assert_eq!(ours.len(), theirs.len());
    for (a, b) in ours.entries().iter().zip(theirs.iter()) {
        assert_eq!(a.data, b.data);
    }
    assert_eq!(theirs[0].cert_type, SevType::ARK);
    assert_eq!(ours.entries()[0].role(), Some(CertRole::Root));
    assert_eq!(theirs[1].cert_type, SevType::ASK);
    assert_eq!(ours.entries()[1].role(), Some(CertRole::Intermediate));
    assert_eq!(theirs[2].cert_type, SevType::VCEK);
    assert_eq!(ours.entries()[2].role(), Some(CertRole::Leaf));
    assert!(matches!(theirs[3].cert_type, SevType::OTHER(_)));
    assert_eq!(ours.entries()[3].role(), None);
}

#[test]
fn decode_rejects_two_roots() {
    let mut blob = Vec::new();
    blob.extend(header(ARK_GUID, 72, 2));
    blob.extend(header(ARK_GUID, 74, 2));
    blob.extend(header(ZERO_GUID, 0, 0));
    blob.extend([1, 2, 3, 4]);
    assert_eq!(decode(&blob), Err(CertError::DuplicateRole(CertRole::Root)));
}

#[test]
fn decode_rejects_a_second_intermediate_and_a_second_leaf() {
    let mut blob = Vec::new();
    blob.extend(header(ASK_GUID, 96, 1));
    blob.extend(header(VCEK_GUID, 97, 1));
    blob.extend(header(ASK_GUID, 98, 1));
    blob.extend(header(ZERO_GUID, 0, 0));
    blob.extend([1, 2, 3]);
    assert_eq!(decode(&blob), Err(CertError::DuplicateRole(CertRole::Intermediate)));

    let mut blob = Vec::new();
    blob.extend(header(VCEK_GUID, 72, 1));
    blob.extend(header(VCEK_GUID, 72, 1));
    blob.extend(header(ZERO_GUID, 0, 0));
    blob.extend([1]);
    assert_eq!(decode(&blob), Err(CertError::DuplicateRole(CertRole::Leaf)));
}

#[test]
fn decode_keeps_repeated_opaque_entries() {
    let mut blob = Vec::new();
    blob.extend(header(OTHER_GUID, 72, 2));
    blob.extend(header(OTHER_GUID, 74, 1));
    blob.extend(header(ZERO_GUID, 0, 0));
    blob.extend([1, 2, 3]);
    let table = decode(&blob).unwrap();
    assert_eq!(
        table.entries(),
        &vec![
            CertTableEntry::from_guid(OTHER_GUID, vec![1, 2]),
            CertTableEntry::from_guid(OTHER_GUID, vec![3]),
        ]
    );
}

#[test]
fn decode_rejects_a_span_past_the_end() {
    let mut blob = Vec::new();
    blob.extend(header(ARK_GUID, 48, 5));
    blob.extend(header(ZERO_GUID, 0, 0));
    blob.extend([1, 2, 3, 4]);
    assert_eq!(decode(&blob), Err(CertError::MalformedTable));
    blob.push(5);
    assert_eq!(decode(&blob).unwrap().entries()[0].data, vec![1, 2, 3, 4, 5]);
}

#[test]
fn decode_rejects_an_offset_past_the_end() {
    let mut blob = Vec::new();
    blob.extend(header(ARK_GUID, 49, 0));
    blob.extend(header(ZERO_GUID, 0, 0));
    assert_eq!(decode(&blob), Err(CertError::MalformedTable));
}

#[test]
fn decode_rejects_offset_plus_length_that_wraps() {
    let mut blob = Vec::new();
    blob.extend(header(ARK_GUID, u32::MAX, 49));
    blob.extend(header(ZERO_GUID, 0, 0));
    assert_eq!(decode(&blob), Err(CertError::MalformedTable));
}

#[test]
fn decode_rejects_a_directory_without_closing_header() {
    assert_eq!(decode(&[]), Err(CertError::MalformedTable));
    assert_eq!(decode(&[0u8; 23]), Err(CertError::MalformedTable));
    let mut blob = Vec::new();
    blob.extend(header(ARK_GUID, 0, 24));
    assert_eq!(decode(&blob), Err(CertError::MalformedTable));
    blob.extend([0u8; 23]);
    assert_eq!(decode(&blob), Err(CertError::MalformedTable));
}

#[test]
fn malformed_header_is_reported_before_a_later_duplicate() {
    let mut blob = Vec::new();
    blob.extend(header(ARK_GUID, 96, 1));
    blob.extend(header(OTHER_GUID, 500, 1));
    blob.extend(header(ARK_GUID, 96, 1));
    blob.extend(header(ZERO_GUID, 0, 0));
    blob.push(1);
    assert_eq!(decode(&blob), Err(CertError::MalformedTable));
}

#[test]
fn decode_stops_at_the_closing_header() {
    let mut blob = Vec::new();
    blob.extend(header(ASK_GUID, 96, 2));
    blob.extend(header(ZERO_GUID, 7, 9));
    blob.extend(header(ASK_GUID, 96, 2));
    blob.extend(header(ZERO_GUID, 0, 0));
    blob.extend([4, 2]);
    let table = decode(&blob).unwrap();
    assert_eq!(table.entries(), &vec![CertTableEntry::new(CertRole::Intermediate, vec![4, 2])]);
}

#[test]
fn entries_may_share_and_overlap_the_directory() {
    let mut blob = Vec::new();
    blob.extend(header(ARK_GUID, 0, 16));
    blob.extend(header(ZERO_GUID, 0, 0));
    let table = decode(&blob).unwrap();
    assert_eq!(table.entries()[0].data, ARK_GUID.to_vec());
}

#[test]
fn insert_refuses_duplicates_and_the_closing_guid() {
    let mut table = CertificateTable::new();
    assert_eq!(table.insert(CertTableEntry::new(CertRole::Root, vec![1])), Ok(()));
    assert_eq!(
        table.insert(CertTableEntry::new(CertRole::Root, vec![2])),
        Err(CertError::DuplicateRole(CertRole::Root))
    );
    assert_eq!(
        table.insert(CertTableEntry::from_guid(ARK_GUID, vec![2])),
        Err(CertError::DuplicateRole(CertRole::Root))
    );
    assert_eq!(
        table.insert(CertTableEntry::from_guid(ZERO_GUID, vec![3])),
        Err(CertError::MalformedTable)
    );
    assert_eq!(table.insert(CertTableEntry::from_guid(OTHER_GUID, vec![4])), Ok(()));
    assert_eq!(table.insert(CertTableEntry::from_guid(OTHER_GUID, vec![5])), Ok(()));
    assert_eq!(table.len(), 3);
    assert_eq!(table.entries()[0].data, vec![1]);
}

#[test]
fn get_finds_the_entry_of_a_role() {
    let table = table_of(sample_entries());
    assert_eq!(table.get(CertRole::Leaf).unwrap().data, vec![5; 15]);
    assert_eq!(table.position(CertRole::Intermediate), Some(1));
    let only_opaque = table_of(vec![CertTableEntry::from_guid(OTHER_GUID, vec![1])]);
    assert_eq!(only_opaque.get(CertRole::Root), None);
    assert_eq!(only_opaque.position(CertRole::Root), None);
}

#[test]
fn roles_and_guids_correspond() {
    assert_eq!(CertRole::Root.guid(), ARK_GUID);
    assert_eq!(CertRole::Intermediate.guid(), ASK_GUID);
    assert_eq!(CertRole::Leaf.guid(), VCEK_GUID);
    assert_eq!(CertRole::Root.name(), "ark");
    assert_eq!(CertRole::Intermediate.name(), "ask");
    assert_eq!(CertRole::Leaf.name(), "vcek");
    assert_eq!(CertTableEntry::from_guid(VCEK_GUID, vec![]).role(), Some(CertRole::Leaf));
    assert_eq!(CertTableEntry::from_guid(VLEK_GUID, vec![]).role(), None);
    assert!(CertTableEntry::from_guid(ZERO_GUID, vec![]).is_terminator());
    assert!(!CertTableEntry::from_guid(ARK_GUID, vec![]).is_terminator());
}

#[test]
fn clone_copies_a_table() {
    let table = table_of(sample_entries());
    let copy = table.clone();
    assert_eq!(copy, table);
    assert_eq!(copy.entries()[2].clone(), sample_entries()[2]);
}
