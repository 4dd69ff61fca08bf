use sev::certs::snp::builtin::milan::{ARK, ASK};
use snphost::certificate::Certificate;
use snphost::error::CertError;
use snphost::fetch::{
    fetch, find_marker, receive, reply_certificate, request_target, select, PlatformIdentity,
    ProcessorModel, Response, TcbVersion,
};
use snphost::table::{CertRole, CertTableEntry};

fn identity(model: ProcessorModel, chip_id: Vec<u8>, fmc: Option<u8>) -> PlatformIdentity {
    PlatformIdentity {
        model,
        chip_id,
        tcb: TcbVersion { fmc, bootloader: 3, tee: 0, snp: 14, microcode: 209 },
    }
}

fn chain_body() -> Vec<u8> {
    let mut body = ASK.to_vec();
    body.extend_from_slice(ARK);
    body
}

fn answered(status: u32, body: Vec<u8>) -> Response {
    Response::Answered { status, body }
}

fn der_of(pem: &[u8]) -> Vec<u8> {
    Certificate::from_bytes(pem).unwrap().der().clone()
}

#[test]
fn leaf_target_names_chip_and_versions() {
    let id = identity(ProcessorModel::Milan, vec![0x00, 0x1f, 0xab, 0xff], None);
    assert_eq!(
        request_target(CertRole::Leaf, &id),
        "https://kdsintf.amd.com/vcek/v1/Milan/001fabff?blSPL=03&teeSPL=00&snpSPL=14&ucodeSPL=209"
    );
}

#[test]
fn leaf_target_is_the_same_for_the_same_inputs() {
    let chip: Vec<u8> = (0..64).collect();
    let first = request_target(CertRole::Leaf, &identity(ProcessorModel::Genoa, chip.clone(), None));
    let second = request_target(CertRole::Leaf, &identity(ProcessorModel::Genoa, chip, None));
    assert_eq!(first, second);
    assert_eq!(first.len(), "https://kdsintf.amd.com/vcek/v1/Genoa/".len() + 128 + 42);
    assert!(first.starts_with("https://kdsintf.amd.com/vcek/v1/Genoa/000102030405060708090a0b0c0d0e0f10"));
}

#[test]
fn leaf_target_differs_with_chip_and_versions() {
    let base = identity(ProcessorModel::Milan, vec![1, 2], None);
    let other_chip = identity(ProcessorModel::Milan, vec![1, 3], None);
    let mut other_tcb = identity(ProcessorModel::Milan, vec![1, 2], None);
    other_tcb.tcb.snp = 15;
    let target = request_target(CertRole::Leaf, &base);
    assert_ne!(target, request_target(CertRole::Leaf, &other_chip));
    assert_ne!(target, request_target(CertRole::Leaf, &other_tcb));
}

#[test]
fn turin_is_asked_by_eight_bytes_and_the_fmc_version() {
    let chip: Vec<u8> = (0xa0..0xb0).collect();
    let id = identity(ProcessorModel::Turin, chip, Some(7));
    assert_eq!(
        request_target(CertRole::Leaf, &id),
        "https://kdsintf.amd.com/vcek/v1/Turin/a0a1a2a3a4a5a6a7?fmcSPL=07&blSPL=03&teeSPL=00&snpSPL=14&ucodeSPL=209"
    );
    let short = identity(ProcessorModel::Turin, vec![0xde, 0xad], Some(100));
    assert_eq!(
        request_target(CertRole::Leaf, &short),
        "https://kdsintf.amd.com/vcek/v1/Turin/dead?fmcSPL=100&blSPL=03&teeSPL=00&snpSPL=14&ucodeSPL=209"
    );
}

#[test]
fn versions_are_written_with_at_least_two_digits() {
    let mut id = identity(ProcessorModel::Milan, vec![], None);
    id.tcb = TcbVersion { fmc: None, bootloader: 9, tee: 10, snp: 99, microcode: 255 };
    assert_eq!(
        request_target(CertRole::Leaf, &id),
        "https://kdsintf.amd.com/vcek/v1/Milan/?blSPL=09&teeSPL=10&snpSPL=99&ucodeSPL=255"
    );
}

#[test]
fn root_and_intermediate_are_asked_as_the_certificate_chain() {
    let id = identity(ProcessorModel::Bergamo, vec![1, 2, 3], None);
    let expected = "https://kdsintf.amd.com/vcek/v1/Genoa/cert_chain";
    assert_eq!(request_target(CertRole::Root, &id), expected);
    assert_eq!(request_target(CertRole::Intermediate, &id), expected);
    assert_eq!(ProcessorModel::Siena.product_name(), "Genoa");
    assert_eq!(ProcessorModel::Milan.product_name(), "Milan");
    assert_eq!(ProcessorModel::Turin.product_name(), "Turin");
}

#[test]
fn receive_wraps_a_leaf_certificate() {
    let der = der_of(ASK);
    assert_eq!(
        receive(CertRole::Leaf, &answered(200, der.clone())),
        Ok(CertTableEntry::new(CertRole::Leaf, der))
    );
}

#[test]
fn receive_takes_intermediate_and_root_from_the_chain() {
    assert_eq!(
        receive(CertRole::Intermediate, &answered(200, chain_body())),
        Ok(CertTableEntry::new(CertRole::Intermediate, der_of(ASK)))
    );
    assert_eq!(
        receive(CertRole::Root, &answered(200, chain_body())),
        Ok(CertTableEntry::new(CertRole::Root, der_of(ARK)))
    );
}

#[test]
fn receive_classifies_failures() {
    assert_eq!(receive(CertRole::Leaf, &Response::Unreachable), Err(CertError::TransportError));
    assert_eq!(receive(CertRole::Leaf, &answered(404, vec![])), Err(CertError::NotFound));
    assert_eq!(
        receive(CertRole::Leaf, &answered(404, der_of(ASK))),
        Err(CertError::NotFound)
    );
    assert_eq!(
        receive(CertRole::Leaf, &answered(500, der_of(ASK))),
        Err(CertError::UnexpectedResponse)
    );
    assert_eq!(
        receive(CertRole::Leaf, &answered(204, der_of(ASK))),
        Err(CertError::UnexpectedResponse)
    );
    assert_eq!(
        receive(CertRole::Leaf, &answered(65536 + 200, der_of(ASK))),
        Err(CertError::UnexpectedResponse)
    );
    assert_eq!(
        receive(CertRole::Leaf, &answered(200, b"<html>".to_vec())),
        Err(CertError::UnexpectedResponse)
    );
    assert_eq!(
        receive(CertRole::Root, &answered(200, ASK.to_vec())),
        Err(CertError::UnexpectedResponse)
    );
    assert_eq!(
        receive(CertRole::Intermediate, &answered(200, b"<html>".to_vec())),
        Err(CertError::UnexpectedResponse)
    );
    assert_eq!(
        receive(CertRole::Root, &answered(200, vec![])),
        Err(CertError::UnexpectedResponse)
    );
}

#[test]
fn receive_keeps_a_der_certificate_as_it_came_for_every_role() {
    for role in [CertRole::Root, CertRole::Intermediate, CertRole::Leaf] {
        for der in [der_of(ARK), der_of(ASK)] {
            assert_eq!(
                receive(role, &answered(200, der.clone())),
                Ok(CertTableEntry::new(role, der))
            );
        }
    }
}

#[test]
fn reply_certificate_reads_der_bodies_and_pem_chains() {
    let ark = Certificate::from_bytes(ARK).unwrap();
    let ask = Certificate::from_bytes(ASK).unwrap();
    assert_eq!(reply_certificate(CertRole::Root, &der_of(ARK)), Some(ark.clone()));
    assert_eq!(reply_certificate(CertRole::Root, &chain_body()), Some(ark));
    assert_eq!(reply_certificate(CertRole::Intermediate, &chain_body()), Some(ask.clone()));
    assert_eq!(reply_certificate(CertRole::Leaf, &chain_body()), Some(ask.clone()));
    assert_eq!(reply_certificate(CertRole::Leaf, ASK), Some(ask));
    assert_eq!(reply_certificate(CertRole::Root, ASK), None);
    assert_eq!(reply_certificate(CertRole::Leaf, &[1, 2, 3]), None);
}

#[test]
fn select_cuts_the_blocks_of_a_chain() {
    let body = chain_body();
    assert_eq!(select(CertRole::Intermediate, &body), Some(ASK.to_vec()));
    assert_eq!(select(CertRole::Root, &body), Some(ARK.to_vec()));
    assert_eq!(select(CertRole::Leaf, &body), Some(body.clone()));
    assert_eq!(select(CertRole::Root, ASK), None);
    assert_eq!(select(CertRole::Intermediate, b"no certificate here at all, none"), None);
    let mut padded = b"junk\n".to_vec();
    padded.extend_from_slice(&body);
    assert_eq!(select(CertRole::Intermediate, &padded), Some(ASK.to_vec()));
    assert_eq!(select(CertRole::Root, &padded), Some(ARK.to_vec()));
}

#[test]
fn find_marker_gives_the_first_opening_line() {
    let body = chain_body();
    assert_eq!(find_marker(&body, 0), Some(0));
    assert_eq!(find_marker(&body, 1), Some(ASK.len()));
    assert_eq!(find_marker(&body, ASK.len()), Some(ASK.len()));
    assert_eq!(find_marker(&body, ASK.len() + 1), None);
    assert_eq!(find_marker(&body, body.len() + 5), None);
    assert_eq!(find_marker(b"-----BEGIN CERTIFICATE----", 0), None);
    assert_eq!(find_marker(b"x-----BEGIN CERTIFICATE-----", 0), Some(1));
    assert_eq!(find_marker(&[], 0), None);
}

#[test]
fn fetch_asks_once_at_the_request_target() {
    let id = identity(ProcessorModel::Milan, vec![0xab; 64], None);
    let mut asked: Vec<String> = Vec::new();
    let der = der_of(ASK);
    let entry = fetch(CertRole::Leaf, &id, |target| {
        asked.push(target.to_string());
        answered(200, der.clone())
    });
    assert_eq!(entry, Ok(CertTableEntry::new(CertRole::Leaf, der)));
    assert_eq!(asked, vec![request_target(CertRole::Leaf, &id)]);
}

#[test]
fn fetching_twice_asks_at_the_same_target_and_keeps_nothing() {
    let id = identity(ProcessorModel::Genoa, vec![7; 64], None);
    let mut asked: Vec<String> = Vec::new();
    let first = fetch(CertRole::Leaf, &id, |target| {
        asked.push(target.to_string());
        answered(200, der_of(ASK))
    });
    let second = fetch(CertRole::Leaf, &id, |target| {
        asked.push(target.to_string());
        answered(404, vec![])
    });
    assert_eq!(asked.len(), 2);
    assert_eq!(asked[0], asked[1]);
    assert!(first.is_ok());
    assert_eq!(second, Err(CertError::NotFound));
}

#[test]
fn fetch_reports_what_the_transport_brings() {
    let id = identity(ProcessorModel::Milan, vec![], None);
    assert_eq!(
        fetch(CertRole::Root, &id, |_| Response::Unreachable),
        Err(CertError::TransportError)
    );
    assert_eq!(
        fetch(CertRole::Root, &id, |_| answered(200, chain_body())),
        Ok(CertTableEntry::new(CertRole::Root, der_of(ARK)))
    );
    assert_eq!(
        fetch(CertRole::Intermediate, &id, |target| {
            assert_eq!(target, "https://kdsintf.amd.com/vcek/v1/Milan/cert_chain");
            answered(200, vec![1, 2, 3])
        }),
        Err(CertError::UnexpectedResponse)
    );
}
