//! Verifying the trust chain: the root signs itself, the root signs the
//! intermediate, the intermediate signs the leaf.

use crate::certificate::{settled, spec_parse, Certificate};
use crate::x509::check_signature;
use crate::table::{role_data, CertRole, CertTableEntry, CertificateTable, EntryView};
use vstd::prelude::*;

verus! {

/// The verdict on one role of the chain.
#[derive(Clone, Copy, Debug, PartialEq, Eq, Structural)]
pub enum TrustStatus {
    /// The certificate is there and its signature was verified by its signer.
    Verified,
    /// The certificate is there, but its signer's key does not verify it.
    SignatureMismatch,
    /// The certificate is not there, or there is no verified signer to check
    /// it against.
    MissingSigner,
    /// The entry is there, but its bytes are not a certificate.
    MalformedCertificate,
}

/// The verdicts on the three roles.
#[derive(Clone, Copy, Debug, PartialEq, Eq, Structural)]
pub struct TrustChainResult {
    pub root: TrustStatus,
    pub intermediate: TrustStatus,
    pub leaf: TrustStatus,
}

/// What looking at one role's certificate, with its signer's key at hand,
/// brings to light.
#[derive(Clone, Copy, Debug, PartialEq, Eq, Structural)]
pub enum Evidence {
    /// The table has no entry for the role.
    Absent,
    /// The entry's bytes are not a certificate.
    Malformed,
    /// The signer's key does not verify the certificate.
    BadSignature,
    /// The signer's key verifies the certificate.
    GoodSignature,
}

impl Evidence {
    /// The verdict that the evidence supports when the signer is trusted.
    pub open spec fn spec_status(self) -> TrustStatus {
        match self {
            Evidence::Absent => TrustStatus::MissingSigner,
            Evidence::Malformed => TrustStatus::MalformedCertificate,
            Evidence::BadSignature => TrustStatus::SignatureMismatch,
            Evidence::GoodSignature => TrustStatus::Verified,
        }
    }

    /// The verdict that the evidence supports when the signer is trusted.
    pub fn status(&self) -> (status: TrustStatus)
        ensures
            status == self.spec_status(),
    {
        match self {
            Evidence::Absent => TrustStatus::MissingSigner,
            Evidence::Malformed => TrustStatus::MalformedCertificate,
            Evidence::BadSignature => TrustStatus::SignatureMismatch,
            Evidence::GoodSignature => TrustStatus::Verified,
        }
    }
}

/// The verdicts that the evidence on the three roles supports. A role below
/// one that is not verified is reported as `MissingSigner`, whatever the
/// evidence on it.
pub open spec fn spec_assess(root: Evidence, intermediate: Evidence, leaf: Evidence)
    -> TrustChainResult {
    let r = root.spec_status();
    let i = if r == TrustStatus::Verified {
        intermediate.spec_status()
    } else {
        TrustStatus::MissingSigner
    };
    let l = if i == TrustStatus::Verified {
        leaf.spec_status()
    } else {
        TrustStatus::MissingSigner
    };
    TrustChainResult { root: r, intermediate: i, leaf: l }
}

/// Turns the evidence on the three roles into verdicts. The evidence on a
/// role counts only if the role above it is verified: a failure higher up
/// shows below as `MissingSigner`.
pub fn assess(root: Evidence, intermediate: Evidence, leaf: Evidence) -> (result: TrustChainResult)
    ensures
        result == spec_assess(root, intermediate, leaf),
{
    let r = root.status();
    let i = if r == TrustStatus::Verified {
        intermediate.status()
    } else {
        TrustStatus::MissingSigner
    };
    let l = if i == TrustStatus::Verified {
        leaf.status()
    } else {
        TrustStatus::MissingSigner
    };
    TrustChainResult { root: r, intermediate: i, leaf: l }
}

impl TrustChainResult {
    /// A chain is fully trusted when all three roles are verified.
    pub open spec fn spec_fully_trusted(self) -> bool {
        self.root == TrustStatus::Verified && self.intermediate == TrustStatus::Verified
            && self.leaf == TrustStatus::Verified
    }

    /// Whether all three roles are verified.
    pub fn fully_trusted(&self) -> (trusted: bool)
        ensures
            trusted == self.spec_fully_trusted(),
    {
        self.root == TrustStatus::Verified && self.intermediate == TrustStatus::Verified
            && self.leaf == TrustStatus::Verified
    }

    /// The verdict on one role.
    pub open spec fn spec_status(self, role: CertRole) -> TrustStatus {
        match role {
            CertRole::Root => self.root,
            CertRole::Intermediate => self.intermediate,
            CertRole::Leaf => self.leaf,
        }
    }

    /// The verdict on one role.
    pub fn status(&self, role: CertRole) -> (status: TrustStatus)
        ensures
            status == self.spec_status(role),
    {
        match role {
            CertRole::Root => self.root,
            CertRole::Intermediate => self.intermediate,
            CertRole::Leaf => self.leaf,
        }
    }
}

/// The certificate that a role's bytes hold, if there are bytes and they parse.
pub open spec fn spec_certificate(data: Option<Seq<u8>>) -> Option<Seq<u8>> {
    match data {
        Some(d) => spec_parse(d),
        None => None,
    }
}

/// Whether a piece of evidence can come of looking at a role whose bytes are
/// `data`: it is `Absent` exactly when the role has no entry, `Malformed`
/// exactly when the entry's bytes hold no certificate, and otherwise tells
/// how the signature check went.
pub open spec fn evidence_fits(evidence: Evidence, data: Option<Seq<u8>>) -> bool {
    match spec_certificate(data) {
        Some(_) => evidence == Evidence::GoodSignature || evidence == Evidence::BadSignature,
        None => if data is Some {
            evidence == Evidence::Malformed
        } else {
            evidence == Evidence::Absent
        },
    }
}

/// Whether `result` is a report on the table: the verdicts that `spec_assess`
/// draws from some evidence that fits the entries of the three roles. Which
/// way a signature check goes is not for the table alone to say.
pub open spec fn is_report_on(t: Seq<EntryView>, result: TrustChainResult) -> bool {
    exists|root: Evidence, intermediate: Evidence, leaf: Evidence|
        result == #[trigger] spec_assess(root, intermediate, leaf) && evidence_fits(
            root,
            role_data(t, CertRole::Root),
        ) && evidence_fits(intermediate, role_data(t, CertRole::Intermediate)) && evidence_fits(
            leaf,
            role_data(t, CertRole::Leaf),
        )
}

/// Some evidence that fits a role whose signature was not checked.
pub open spec fn unchecked_evidence(data: Option<Seq<u8>>) -> Evidence {
    match spec_certificate(data) {
        Some(_) => Evidence::BadSignature,
        None => if data is Some {
            Evidence::Malformed
        } else {
            Evidence::Absent
        },
    }
}

/// Whether the check, asked if the key of `key` verifies the signature on
/// `cert`, may answer `ok`.
pub open spec fn answers<C: Fn(&[u8], &[u8]) -> bool>(
    check: C,
    key: Seq<u8>,
    cert: Seq<u8>,
    ok: bool,
) -> bool {
    exists|s: &[u8], c: &[u8]| s@ == key && c@ == cert && #[trigger] check.ensures((s, c), ok)
}

/// Whether a piece of evidence is what the check gives for the certificate
/// `cert` under the key of `key`: good when it said yes, bad when it said no.
pub open spec fn judged_by<C: Fn(&[u8], &[u8]) -> bool>(
    check: C,
    key: Seq<u8>,
    cert: Seq<u8>,
    evidence: Evidence,
) -> bool {
    (evidence == Evidence::GoodSignature && answers(check, key, cert, true)) || (evidence
        == Evidence::BadSignature && answers(check, key, cert, false))
}

/// Whether a piece of evidence comes of looking at the role whose bytes are
/// `subject` with the check and the role whose bytes are `signer` as its
/// signer. Where the subject holds no certificate the evidence says so. Where
/// it holds one, the signer holds one too, and the evidence is the answer of
/// the check on the signer's certificate and the subject's.
pub open spec fn checked_as<C: Fn(&[u8], &[u8]) -> bool>(
    check: C,
    signer: Option<Seq<u8>>,
    subject: Option<Seq<u8>>,
    evidence: Evidence,
) -> bool {
    match spec_certificate(subject) {
        None => evidence_fits(evidence, subject),
        Some(cert) => match spec_certificate(signer) {
            Some(key) => judged_by(check, key, cert, evidence),
            None => false,
        },
    }
}

/// Whether `result` is the report of a verification of the table with the
/// check: the verdicts that `spec_assess` draws from evidence in which the
/// root was checked under its own key, the intermediate, below a verified
/// root, under the root's key, and the leaf, below a verified intermediate,
/// under the intermediate's key.
pub open spec fn is_checked_report<C: Fn(&[u8], &[u8]) -> bool>(
    check: C,
    t: Seq<EntryView>,
    result: TrustChainResult,
) -> bool {
    exists|root: Evidence, intermediate: Evidence, leaf: Evidence|
        result == #[trigger] spec_assess(root, intermediate, leaf) && checked_as(
            check,
            role_data(t, CertRole::Root),
            role_data(t, CertRole::Root),
            root,
        ) && (root == Evidence::GoodSignature ==> checked_as(
            check,
            role_data(t, CertRole::Root),
            role_data(t, CertRole::Intermediate),
            intermediate,
        )) && (root == Evidence::GoodSignature && intermediate == Evidence::GoodSignature
            ==> checked_as(
            check,
            role_data(t, CertRole::Intermediate),
            role_data(t, CertRole::Leaf),
            leaf,
        ))
}

/// Whether the check may be called on any two certificates.
pub open spec fn takes_certificates<C: Fn(&[u8], &[u8]) -> bool>(check: C) -> bool {
    forall|s: &[u8], c: &[u8]| settled(s@) && settled(c@) ==> #[trigger] check.requires((s, c))
}

/// Looks at one role's entry: parses it and asks the check about its
/// signature under the key of `signer`, or under its own key where there is
/// no signer. Gives the certificate back if it parsed.
fn examine<C: Fn(&[u8], &[u8]) -> bool>(
    entry: Option<&CertTableEntry>,
    signer: Option<&Certificate>,
    check: &C,
) -> (found: (Evidence, Option<Certificate>))
    requires
        takes_certificates(*check),
    ensures
        match entry {
            None => found.0 == Evidence::Absent && found.1 is None,
            Some(e) => match spec_parse(e@.data) {
                None => found.0 == Evidence::Malformed && found.1 is None,
                Some(cert) => found.1 is Some && found.1.unwrap()@ == cert && judged_by(
                    *check,
                    match signer {
                        Some(s) => s@,
                        None => cert,
                    },
                    cert,
                    found.0,
                ),
            },
        },
{
    match entry {
        None => (Evidence::Absent, None),
        Some(e) => match Certificate::parse(e) {
            Err(_) => (Evidence::Malformed, None),
            Ok(cert) => {
                let subject = cert.der().as_slice();
                let key = match signer {
                    Some(s) => s.der().as_slice(),
                    None => subject,
                };
                let good = check(key, subject);
                if good {
                    (Evidence::GoodSignature, Some(cert))
                } else {
                    (Evidence::BadSignature, Some(cert))
                }
            },
        },
    }
}

/// Verifies the trust chain of a table with a signature check handed in, and
/// reports on each role.
///
/// The check is asked whether the key of its first certificate verifies the
/// signature on its second; both are handed over in DER. It is asked about
/// the root under the root's own key; only if it says yes, about the
/// intermediate under the root's key; and only if it says yes again, about
/// the leaf under the intermediate's key. A role that is not reached is
/// reported as `MissingSigner`, as is one that is absent; an entry that holds
/// no certificate is reported as `MalformedCertificate` and the check is not
/// asked about it. Opaque entries take no part.
pub fn verify_with<C: Fn(&[u8], &[u8]) -> bool>(table: &CertificateTable, check: C) -> (result:
    TrustChainResult)
    requires
        takes_certificates(check),
    ensures
        is_report_on(table@, result),
        is_checked_report(check, table@, result),
{
    let (root_evidence, root) = examine(table.get(CertRole::Root), None, &check);
    let (intermediate_evidence, intermediate) = match (root_evidence, &root) {
        (Evidence::GoodSignature, Some(key)) => examine(
            table.get(CertRole::Intermediate),
            Some(key),
            &check,
        ),
        _ => (Evidence::Absent, None),
    };
    let leaf_evidence = match (intermediate_evidence, &intermediate) {
        (Evidence::GoodSignature, Some(key)) => examine(
            table.get(CertRole::Leaf),
            Some(key),
            &check,
        ).0,
        _ => Evidence::Absent,
    };
    let result = assess(root_evidence, intermediate_evidence, leaf_evidence);
    proof {
        // A role that was not looked at is masked by the role above it, so
        // any evidence that fits its entry gives the same report.
        let below_root = if root_evidence == Evidence::GoodSignature {
            intermediate_evidence
        } else {
            unchecked_evidence(role_data(table@, CertRole::Intermediate))
        };
        let below_intermediate = if root_evidence == Evidence::GoodSignature
            && intermediate_evidence == Evidence::GoodSignature {
            leaf_evidence
        } else {
            unchecked_evidence(role_data(table@, CertRole::Leaf))
        };
        assert(result == spec_assess(root_evidence, below_root, below_intermediate));
        assert(result == spec_assess(root_evidence, intermediate_evidence, leaf_evidence));
    }
    result
}

/// Verifies the trust chain of a table and reports on each role.
///
/// The root must be present, parse, and carry a signature that its own key
/// verifies. Only below a verified root is the intermediate looked at, and
/// only below a verified intermediate the leaf; a role that is not reached
/// is reported as `MissingSigner`, as is one that is absent. Opaque entries
/// take no part.
///
/// This is `verify_with` with the signature check of the cryptographic
/// library. The report is what `assess` makes of the evidence: on each role
/// the evidence is `Absent` exactly when the table has no entry for it and
/// `Malformed` exactly when the entry holds no certificate. How a signature
/// check goes is the answer of the cryptographic library.
pub fn verify(table: &CertificateTable) -> (result: TrustChainResult)
    ensures
        is_report_on(table@, result),
{
    let check = |key: &[u8], cert: &[u8]| -> (ok: bool) { check_signature(key, cert) };
    verify_with(table, check)
}

/// A root whose signature check against its own key comes back good is
/// reported as verified, and the verdict on the root is the same whatever
/// the evidence on the other two roles.
pub proof fn lemma_root_verdict_stands_alone(
    root: Evidence,
    intermediate: Evidence,
    leaf: Evidence,
    other_intermediate: Evidence,
    other_leaf: Evidence,
)
    ensures
        spec_assess(root, intermediate, leaf).root == spec_assess(
            root,
            other_intermediate,
            other_leaf,
        ).root,
        root == Evidence::GoodSignature ==> spec_assess(root, intermediate, leaf).root
            == TrustStatus::Verified,
{
}

/// What a report says of the root follows the root's entry: it is
/// `MissingSigner` exactly when there is none, `MalformedCertificate`
/// exactly when its bytes hold no certificate, and else `Verified` or
/// `SignatureMismatch`, whatever else the table holds.
pub proof fn lemma_root_report(t: Seq<EntryView>, result: TrustChainResult)
    requires
        is_report_on(t, result),
    ensures
        result.root == TrustStatus::MissingSigner <==> role_data(t, CertRole::Root) is None,
        result.root == TrustStatus::MalformedCertificate <==> role_data(t, CertRole::Root) is Some
            && spec_certificate(role_data(t, CertRole::Root)) is None,
{
}

/// With the root verified and no intermediate, the intermediate is reported
/// as `MissingSigner`, and so is the leaf, present or not: it is never
/// verified.
pub proof fn lemma_leaf_blocked_without_intermediate(t: Seq<EntryView>, result: TrustChainResult)
    requires
        is_report_on(t, result),
        result.root == TrustStatus::Verified,
        role_data(t, CertRole::Intermediate) is None,
    ensures
        result.intermediate == TrustStatus::MissingSigner,
        result.leaf == TrustStatus::MissingSigner,
{
}

/// Trust is never partial: a verified leaf has a verified intermediate above
/// it, and a verified intermediate a verified root.
pub proof fn lemma_trust_descends(t: Seq<EntryView>, result: TrustChainResult)
    requires
        is_report_on(t, result),
    ensures
        result.leaf == TrustStatus::Verified ==> result.intermediate == TrustStatus::Verified,
        result.intermediate == TrustStatus::Verified ==> result.root == TrustStatus::Verified,
        result.root != TrustStatus::Verified ==> result.intermediate == TrustStatus::MissingSigner
            && result.leaf == TrustStatus::MissingSigner,
{
}

/// A chain is fully trusted exactly when the signature checks on all three
/// roles came back good; for that, all three certificates are present and
/// parse.
pub proof fn lemma_fully_trusted(
    t: Seq<EntryView>,
    root: Evidence,
    intermediate: Evidence,
    leaf: Evidence,
)
    requires
        evidence_fits(root, role_data(t, CertRole::Root)),
        evidence_fits(intermediate, role_data(t, CertRole::Intermediate)),
        evidence_fits(leaf, role_data(t, CertRole::Leaf)),
    ensures
        spec_assess(root, intermediate, leaf).spec_fully_trusted() <==> root
            == Evidence::GoodSignature && intermediate == Evidence::GoodSignature && leaf
            == Evidence::GoodSignature,
        spec_assess(root, intermediate, leaf).spec_fully_trusted() ==> spec_certificate(
            role_data(t, CertRole::Root),
        ) is Some && spec_certificate(role_data(t, CertRole::Intermediate)) is Some
            && spec_certificate(role_data(t, CertRole::Leaf)) is Some,
{
}

/// Whether the check answers one way only on each pair of certificates.
pub open spec fn single_valued<C: Fn(&[u8], &[u8]) -> bool>(check: C) -> bool {
    forall|key: Seq<u8>, cert: Seq<u8>|
        !(#[trigger] answers(check, key, cert, true) && answers(check, key, cert, false))
}

/// A chain is reported as fully trusted only if all three certificates are
/// present and parse, and the check said yes three times: to the root under
/// its own key, to the intermediate under the root's key, and to the leaf
/// under the intermediate's key. Where the check answers one way only, that
/// is also enough.
pub proof fn lemma_fully_trusted_by_keys<C: Fn(&[u8], &[u8]) -> bool>(
    check: C,
    t: Seq<EntryView>,
    result: TrustChainResult,
)
    requires
        is_checked_report(check, t, result),
    ensures
        result.spec_fully_trusted() ==> chain_holds(check, t),
        single_valued(check) && chain_holds(check, t) ==> result.spec_fully_trusted(),
{
}

/// All three certificates are present and parse, and the check says yes to
/// the root under its own key, to the intermediate under the root's key, and
/// to the leaf under the intermediate's key.
pub open spec fn chain_holds<C: Fn(&[u8], &[u8]) -> bool>(check: C, t: Seq<EntryView>) -> bool {
    let root = spec_certificate(role_data(t, CertRole::Root));
    let intermediate = spec_certificate(role_data(t, CertRole::Intermediate));
    let leaf = spec_certificate(role_data(t, CertRole::Leaf));
    &&& root is Some
    &&& intermediate is Some
    &&& leaf is Some
    &&& answers(check, root.unwrap(), root.unwrap(), true)
    &&& answers(check, root.unwrap(), intermediate.unwrap(), true)
    &&& answers(check, intermediate.unwrap(), leaf.unwrap(), true)
}

/// A root certificate to which the check says yes under its own key is
/// reported as verified, whatever else the table holds; one to which it says
/// no, as a signature mismatch.
pub proof fn lemma_self_signed_root_is_verified<C: Fn(&[u8], &[u8]) -> bool>(
    check: C,
    t: Seq<EntryView>,
    result: TrustChainResult,
    root: Seq<u8>,
)
    requires
        is_checked_report(check, t, result),
        single_valued(check),
        spec_certificate(role_data(t, CertRole::Root)) == Some(root),
    ensures
        answers(check, root, root, true) ==> result.root == TrustStatus::Verified,
        answers(check, root, root, false) ==> result.root == TrustStatus::SignatureMismatch,
        result.root == TrustStatus::Verified || result.root == TrustStatus::SignatureMismatch,
{
}

/// A report of a verification with a check is a report on the table.
pub proof fn lemma_checked_report_is_report<C: Fn(&[u8], &[u8]) -> bool>(
    check: C,
    t: Seq<EntryView>,
    result: TrustChainResult,
)
    requires
        is_checked_report(check, t, result),
    ensures
        is_report_on(t, result),
{
    let (root, intermediate, leaf) = choose|root: Evidence, intermediate: Evidence, leaf: Evidence|
        result == #[trigger] spec_assess(root, intermediate, leaf) && checked_as(
            check,
            role_data(t, CertRole::Root),
            role_data(t, CertRole::Root),
            root,
        ) && (root == Evidence::GoodSignature ==> checked_as(
            check,
            role_data(t, CertRole::Root),
            role_data(t, CertRole::Intermediate),
            intermediate,
        )) && (root == Evidence::GoodSignature && intermediate == Evidence::GoodSignature
            ==> checked_as(
            check,
            role_data(t, CertRole::Intermediate),
            role_data(t, CertRole::Leaf),
            leaf,
        ));
    let below_root = if root == Evidence::GoodSignature {
        intermediate
    } else {
        unchecked_evidence(role_data(t, CertRole::Intermediate))
    };
    let below_intermediate = if root == Evidence::GoodSignature && intermediate
        == Evidence::GoodSignature {
        leaf
    } else {
        unchecked_evidence(role_data(t, CertRole::Leaf))
    };
    assert(result == spec_assess(root, below_root, below_intermediate));
}

} // verus!
