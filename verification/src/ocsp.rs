//! Embedded revocation evidence: which certificate-status assertions of a store
//! count, which OCSP responses they and the signature carry within the
//! verifier's bounds, and what the responses say of a certificate chain.
use vstd::prelude::*;
use crate::claim_refs;
use crate::claim_refs::{field_references, MAX_CLAIM_ASSERTION_REFERENCES};
use crate::hash;
use crate::hash::HashAlgorithm;
use crate::labels;
use crate::labels::{assertion_label_for_manifest, numbered_instance, resolved_hash_algorithm};
use crate::manifest::{AssertionBox, ParsedManifest, Payload};
use crate::revocation;
use crate::revocation::{CertificateEvidence, OcspStatus};
use crate::status::{
    Results, ValidationResults, SIGNING_CREDENTIAL_OCSP_NOT_REVOKED,
    SIGNING_CREDENTIAL_OCSP_REVOKED, SIGNING_CREDENTIAL_OCSP_SKIPPED, SIGNING_CREDENTIAL_UNTRUSTED,
};
use crate::text;
use crate::text::{bytes_eq, str_eq};
use crate::value;
use crate::value::Value;

verus! {

pub const MAX_EMBEDDED_OCSP_RESPONSES: usize = 32;

pub const MAX_EMBEDDED_OCSP_TOTAL_BYTES: usize = 1_048_576;

pub const MAX_EMBEDDED_OCSP_COLLECTION_DEPTH: usize = 4;

pub const MAX_EMBEDDED_OCSP_COLLECTION_NODES: usize = 4_096;

pub const MAX_OCSP_STATUS_ASSERTION_BYTES: usize = 1_048_576;

pub const MAX_EMBEDDED_OCSP_CHAIN_CERTIFICATES: usize = 20;

pub const MAX_CERTIFICATE_STATUS_ASSERTIONS: usize = 32;

pub const MAX_CERTIFICATE_STATUS_TOTAL_BYTES: usize = 1_048_576;

// ---------------------------------------------------------------------------
// Certificate-status assertions
// ---------------------------------------------------------------------------

/// The certificate-status label or one of its numbered instances.
pub open spec fn status_label(label: Seq<char>) -> bool {
    label == "c2pa.certificate-status"@ || labels::is_numbered_instance(
        label,
        "c2pa.certificate-status"@,
    )
}

/// Whether `label` names a certificate-status assertion.
pub fn is_certificate_status_label(label: &str) -> (r: bool)
    ensures
        r == status_label(label@),
{
    str_eq(label, "c2pa.certificate-status") || numbered_instance(label, "c2pa.certificate-status")
}

/// How many of the first `k` references resolve to `label`.
pub open spec fn declarations_of(
    refs: Seq<(claim_refs::RefField, Value)>,
    k: int,
    manifest_label: Seq<char>,
    label: Seq<char>,
) -> nat
    decreases k,
{
    if k <= 0 {
        0
    } else {
        declarations_of(refs, k - 1, manifest_label, label) + if claim_refs::resolved_label(
            refs[k - 1].1,
            manifest_label,
        ) == Some(label) {
            1nat
        } else {
            0
        }
    }
}

/// How many of the first `k` payloads stand under `label`.
pub open spec fn boxes_under(boxes: Seq<AssertionBox>, k: int, label: Seq<char>) -> nat
    decreases k,
{
    if k <= 0 {
        0
    } else {
        boxes_under(boxes, k - 1, label) + if boxes[k - 1].label@ == label {
            1nat
        } else {
            0
        }
    }
}

/// The payload of the one assertion under `label`.
pub open spec fn sole_payload(boxes: Seq<AssertionBox>, label: Seq<char>) -> Option<Payload> {
    if boxes_under(boxes, boxes.len() as int, label) == 1 {
        crate::manifest::payload_among(boxes, label)
    } else {
        None
    }
}

/// The status payload that a reference declares: a complete reference with a
/// supported algorithm to a status assertion that is declared once and stored
/// once.
pub open spec fn status_payload(
    reference: Value,
    claim: Value,
    m: ParsedManifest,
    refs: Seq<(claim_refs::RefField, Value)>,
) -> Option<Payload> {
    match (reference.bytes_field("hash"@), labels::algorithm_for(reference, claim)) {
        (Some(_), Some(alg)) => if hash::algorithm_named(alg) is None {
            None
        } else {
            match claim_refs::resolved_label(reference, m.label@) {
                Some(label) => if declarations_of(refs, refs.len() as int, m.label@, label) == 1
                    && status_label(label) {
                    sole_payload(m.assertions@, label)
                } else {
                    None
                },
                None => None,
            }
        },
        _ => None,
    }
}

/// The status payloads that the first `k` references declare.
pub open spec fn payloads_among(
    refs: Seq<(claim_refs::RefField, Value)>,
    k: int,
    claim: Value,
    m: ParsedManifest,
) -> Seq<Payload>
    decreases k,
{
    if k <= 0 {
        Seq::empty()
    } else {
        match status_payload(refs[k - 1].1, claim, m, refs) {
            Some(p) => payloads_among(refs, k - 1, claim, m).push(p),
            None => payloads_among(refs, k - 1, claim, m),
        }
    }
}

/// The status payloads that the claim of `m` declares.
pub open spec fn declared_payloads(m: ParsedManifest) -> Seq<Payload> {
    match m.claim {
        Some(p) => match p.value {
            Some(claim) => {
                let refs = claim_refs::field_candidates(claim, m.generation);
                if refs.len() > MAX_CLAIM_ASSERTION_REFERENCES {
                    Seq::empty()
                } else {
                    payloads_among(refs, refs.len() as int, claim, m)
                }
            },
            None => Seq::empty(),
        },
        None => Seq::empty(),
    }
}

/// The status payloads that the first `k` manifests declare.
pub open spec fn store_payloads(manifests: Seq<ParsedManifest>, k: int) -> Seq<Payload>
    decreases k,
{
    if k <= 0 {
        Seq::empty()
    } else {
        store_payloads(manifests, k - 1) + declared_payloads(manifests[k - 1])
    }
}

/// The number of bytes in the first `k` payloads.
pub open spec fn payload_bytes(s: Seq<Payload>, k: int) -> nat
    decreases k,
{
    if k <= 0 {
        0
    } else {
        payload_bytes(s, k - 1) + s[k - 1].bytes@.len()
    }
}

/// The evidence exceeds the verifier's bounds.
pub open spec fn evidence_rejected(s: Seq<Payload>) -> bool {
    s.len() > MAX_CERTIFICATE_STATUS_ASSERTIONS || payload_bytes(s, s.len() as int)
        > MAX_CERTIFICATE_STATUS_TOTAL_BYTES
}

/// The payloads among the first `k` that decode.
pub open spec fn decodable(s: Seq<Payload>, k: int) -> Seq<Payload>
    decreases k,
{
    if k <= 0 {
        Seq::empty()
    } else if s[k - 1].value is Some {
        decodable(s, k - 1).push(s[k - 1])
    } else {
        decodable(s, k - 1)
    }
}

/// The store-wide evidence: the usable payloads, or a rejection.
pub struct CertificateStatusPayloads<'a> {
    pub payloads: Vec<&'a Payload>,
    pub rejected: bool,
}

pub open spec fn payload_targets(s: Seq<&Payload>) -> Seq<Payload> {
    s.map_values(|p: &Payload| *p)
}

fn count_declarations(
    refs: &Vec<(claim_refs::RefField, &Value)>,
    manifest_label: &str,
    label: &str,
) -> (r: usize)
    ensures
        r == declarations_of(
            claim_refs::tagged_targets(refs@),
            refs@.len() as int,
            manifest_label@,
            label@,
        ),
{
    let ghost rv = claim_refs::tagged_targets(refs@);
    let mut n: usize = 0;
    let mut i: usize = 0;
    while i < refs.len()
        invariant
            i <= refs.len(),
            rv == claim_refs::tagged_targets(refs@),
            n <= i,
            n == declarations_of(rv, i as int, manifest_label@, label@),
        decreases refs.len() - i,
    {
        assert(rv[i as int].1 == *refs@[i as int].1);
        if let Some(url) = refs[i].1.get_text("url") {
            if let Some(l) = assertion_label_for_manifest(url, manifest_label) {
                if str_eq(l, label) {
                    n += 1;
                }
            }
        }
        i += 1;
    }
    n
}

fn count_boxes(boxes: &Vec<AssertionBox>, label: &str) -> (r: usize)
    ensures
        r == boxes_under(boxes@, boxes@.len() as int, label@),
{
    let mut n: usize = 0;
    let mut i: usize = 0;
    while i < boxes.len()
        invariant
            i <= boxes.len(),
            n <= i,
            n == boxes_under(boxes@, i as int, label@),
        decreases boxes.len() - i,
    {
        if str_eq(boxes[i].label.as_str(), label) {
            n += 1;
        }
        i += 1;
    }
    n
}

pub open spec fn payload_opt(p: Option<&Payload>) -> Option<Payload> {
    match p {
        Some(p) => Some(*p),
        None => None,
    }
}

fn status_payload_of<'a>(
    reference: &Value,
    claim: &Value,
    m: &'a ParsedManifest,
    refs: &Vec<(claim_refs::RefField, &Value)>,
) -> (r: Option<&'a Payload>)
    ensures
        payload_opt(r) == status_payload(
            *reference,
            *claim,
            *m,
            claim_refs::tagged_targets(refs@),
        ),
{
    assert(claim_refs::tagged_targets(refs@).len() == refs@.len());
    if reference.get_bytes("hash").is_none() {
        return None;
    }
    let alg = match resolved_hash_algorithm(reference, claim) {
        Some(alg) => alg,
        None => {
            return None;
        },
    };
    if HashAlgorithm::from_name(alg).is_none() {
        return None;
    }
    let url = match reference.get_text("url") {
        Some(url) => url,
        None => {
            return None;
        },
    };
    let label = match assertion_label_for_manifest(url, m.label.as_str()) {
        Some(label) => label,
        None => {
            return None;
        },
    };
    if !is_certificate_status_label(label) || count_declarations(refs, m.label.as_str(), label)
        != 1 {
        return None;
    }
    if count_boxes(&m.assertions, label) != 1 {
        return None;
    }
    m.payload_of(label)
}

/// The payloads of the certificate-status assertions that the claim of `m`
/// declares. A malformed unrelated reference cannot hide valid sibling
/// evidence, while duplicate, cross-manifest and undeclared status assertions
/// remain excluded.
pub fn declared_certificate_status_payloads<'a>(m: &'a ParsedManifest) -> (r: Vec<&'a Payload>)
    ensures
        payload_targets(r@) == declared_payloads(*m),
        r@.len() == declared_payloads(*m).len(),
{
    let mut out: Vec<&'a Payload> = Vec::new();
    assert(payload_targets(out@) =~= Seq::empty());
    let claim = match &m.claim {
        Some(p) => match &p.value {
            Some(claim) => claim,
            None => {
                return out;
            },
        },
        None => {
            return out;
        },
    };
    let refs = field_references(claim, m.generation);
    let ghost rv = claim_refs::tagged_targets(refs@);
    if refs.len() > MAX_CLAIM_ASSERTION_REFERENCES {
        return out;
    }
    let mut i: usize = 0;
    while i < refs.len()
        invariant
            i <= refs.len(),
            rv == claim_refs::tagged_targets(refs@),
            payload_targets(out@) == payloads_among(rv, i as int, *claim, *m),
        decreases refs.len() - i,
    {
        assert(rv[i as int].1 == *refs@[i as int].1);
        if let Some(p) = status_payload_of(refs[i].1, claim, m, &refs) {
            let ghost before = out@;
            out.push(p);
            assert(payload_targets(out@) =~= payload_targets(before).push(*p));
        }
        i += 1;
    }
    assert(payload_targets(out@).len() == out@.len());
    out
}

proof fn lemma_payload_bytes_grow(s: Seq<Payload>, t: Seq<Payload>, k: int)
    requires
        0 <= k <= s.len(),
    ensures
        payload_bytes(s + t, k) == payload_bytes(s, k),
    decreases k,
{
    if k > 0 {
        lemma_payload_bytes_grow(s, t, k - 1);
    }
}

proof fn lemma_payload_bytes_monotone(s: Seq<Payload>, j: int, k: int)
    requires
        0 <= j <= k <= s.len(),
    ensures
        payload_bytes(s, j) <= payload_bytes(s, k),
    decreases k - j,
{
    if j < k {
        lemma_payload_bytes_monotone(s, j, k - 1);
    }
}

proof fn lemma_store_prefix(manifests: Seq<ParsedManifest>, k: int, n: int)
    requires
        0 <= k <= n <= manifests.len(),
    ensures
        store_payloads(manifests, k).len() <= store_payloads(manifests, n).len(),
        store_payloads(manifests, k) == store_payloads(manifests, n).take(
            store_payloads(manifests, k).len() as int,
        ),
    decreases n - k,
{
    if k < n {
        lemma_store_prefix(manifests, k, n - 1);
        let a = store_payloads(manifests, k);
        let b = store_payloads(manifests, n - 1);
        let c = store_payloads(manifests, n);
        assert(c == b + declared_payloads(manifests[n - 1]));
        assert(c.take(a.len() as int) =~= b.take(a.len() as int));
    } else {
        let a = store_payloads(manifests, k);
        assert(a.take(a.len() as int) =~= a);
    }
}

proof fn lemma_rejected_prefix(s: Seq<Payload>, k: int)
    requires
        0 <= k <= s.len(),
        k > MAX_CERTIFICATE_STATUS_ASSERTIONS || payload_bytes(s, k)
            > MAX_CERTIFICATE_STATUS_TOTAL_BYTES,
    ensures
        evidence_rejected(s),
{
    lemma_payload_bytes_monotone(s, k, s.len() as int);
}

/// The declared payloads of every manifest; nothing where they exceed the
/// verifier's bounds.
fn bounded_store_payloads<'a>(manifests: &'a [ParsedManifest]) -> (r: Option<Vec<&'a Payload>>)
    ensures
        ({
            let all = store_payloads(manifests@, manifests@.len() as int);
            match r {
                Some(v) => !evidence_rejected(all) && payload_targets(v@) == all,
                None => evidence_rejected(all),
            }
        }),
{
    let ghost all = store_payloads(manifests@, manifests@.len() as int);
    let mut out: Vec<&'a Payload> = Vec::new();
    let mut bytes: usize = 0;
    let mut i: usize = 0;
    assert(payload_targets(out@) =~= Seq::empty());
    while i < manifests.len()
        invariant
            i <= manifests.len(),
            all == store_payloads(manifests@, manifests@.len() as int),
            payload_targets(out@) == store_payloads(manifests@, i as int),
            out@.len() <= MAX_CERTIFICATE_STATUS_ASSERTIONS,
            bytes <= MAX_CERTIFICATE_STATUS_TOTAL_BYTES,
            bytes == payload_bytes(payload_targets(out@), out@.len() as int),
        decreases manifests.len() - i,
    {
        let found = declared_certificate_status_payloads(&manifests[i]);
        let ghost base = store_payloads(manifests@, i as int);
        let ghost next = store_payloads(manifests@, i + 1);
        assert(next == base + declared_payloads(manifests@[i as int]));
        proof {
            lemma_store_prefix(manifests@, i + 1, manifests@.len() as int);
        }
        let mut j: usize = 0;
        assert(base + payload_targets(found@).take(0) =~= base);
        while j < found.len()
            invariant
                i < manifests@.len(),
                j <= found.len(),
                all == store_payloads(manifests@, manifests@.len() as int),
                base == store_payloads(manifests@, i as int),
                next == store_payloads(manifests@, i + 1),
                next == base + payload_targets(found@),
                next.len() <= all.len(),
                next == all.take(next.len() as int),
                payload_targets(out@) == base + payload_targets(found@).take(j as int),
                out@.len() == base.len() + j,
                out@.len() <= MAX_CERTIFICATE_STATUS_ASSERTIONS,
                bytes <= MAX_CERTIFICATE_STATUS_TOTAL_BYTES,
                bytes == payload_bytes(payload_targets(out@), out@.len() as int),
            decreases found.len() - j,
        {
            let p = found[j];
            let len = p.bytes.len();
            let ghost before = payload_targets(out@);
            let ghost k = out@.len() as int;
            proof {
                assert(payload_targets(found@)[j as int] == *p);
                assert(next[k] == *p);
                assert(all[k] == *p);
                assert(before =~= all.take(k));
                lemma_payload_bytes_grow(all.take(k), all.skip(k), k);
                assert(all.take(k) + all.skip(k) =~= all);
                assert(payload_bytes(all, k + 1) == bytes + len);
            }
            if out.len() >= MAX_CERTIFICATE_STATUS_ASSERTIONS || len
                > MAX_CERTIFICATE_STATUS_TOTAL_BYTES - bytes {
                proof {
                    lemma_rejected_prefix(all, k + 1);
                }
                return None;
            }
            out.push(p);
            bytes = bytes + len;
            assert(payload_targets(out@) =~= before.push(*p));
            assert(payload_targets(found@).take(j + 1) =~= payload_targets(found@).take(
                j as int,
            ).push(*p));
            assert(payload_targets(out@) =~= base + payload_targets(found@).take(j + 1));
            proof {
                let after = payload_targets(out@);
                assert(after =~= before + seq![*p]);
                lemma_payload_bytes_grow(before, seq![*p], k);
            }
            j += 1;
        }
        assert(payload_targets(found@).take(j as int) =~= payload_targets(found@));
        i += 1;
    }
    assert(payload_targets(out@).len() == out@.len());
    Some(out)
}

/// Build the bounded store-wide evidence view. Assertion count and raw bytes
/// are capped before any payload is kept; only candidate status assertions are
/// looked at, never unrelated sibling payloads.
pub fn certificate_status_payloads<'a>(manifests: &'a [ParsedManifest]) -> (r:
    CertificateStatusPayloads<'a>)
    ensures
        ({
            let all = store_payloads(manifests@, manifests@.len() as int);
            &&& r.rejected == evidence_rejected(all)
            &&& payload_targets(r.payloads@) == if evidence_rejected(all) {
                Seq::empty()
            } else {
                decodable(all, all.len() as int)
            }
        }),
{
    let ghost all = store_payloads(manifests@, manifests@.len() as int);
    let mut out: Vec<&'a Payload> = Vec::new();
    assert(payload_targets(out@) =~= Seq::empty());
    let found = match bounded_store_payloads(manifests) {
        Some(found) => found,
        None => {
            return CertificateStatusPayloads { payloads: out, rejected: true };
        },
    };
    assert(payload_targets(found@).len() == found@.len());
    let mut i: usize = 0;
    while i < found.len()
        invariant
            i <= found.len(),
            all == payload_targets(found@),
            payload_targets(out@) == decodable(all, i as int),
        decreases found.len() - i,
    {
        let p = found[i];
        assert(all[i as int] == *p);
        if p.value.is_some() {
            let ghost before = out@;
            out.push(p);
            assert(payload_targets(out@) =~= payload_targets(before).push(*p));
        }
        i += 1;
    }
    CertificateStatusPayloads { payloads: out, rejected: false }
}

// ---------------------------------------------------------------------------
// Embedded status
// ---------------------------------------------------------------------------

/// What the embedded evidence says of the signing chain.
#[derive(Debug, Clone, Copy, PartialEq, Eq, Structural)]
pub enum EmbeddedOcspStatus {
    NotChecked,
    NotRevoked,
    LeafRevoked,
    CaRevoked,
    LeafAndCaRevoked,
    Skipped,
}

impl EmbeddedOcspStatus {
    /// The text of a status.
    pub open spec fn text(self) -> Seq<char> {
        match self {
            EmbeddedOcspStatus::NotChecked => "not_checked"@,
            EmbeddedOcspStatus::NotRevoked => "not_revoked"@,
            EmbeddedOcspStatus::LeafRevoked => "leaf_revoked"@,
            EmbeddedOcspStatus::CaRevoked => "ca_revoked"@,
            EmbeddedOcspStatus::LeafAndCaRevoked => "leaf_and_ca_revoked"@,
            EmbeddedOcspStatus::Skipped => "skipped"@,
        }
    }

    /// A certificate of the chain is revoked.
    pub open spec fn blocking(self) -> bool {
        self is LeafRevoked || self is CaRevoked || self is LeafAndCaRevoked
    }

    /// The status as it is reported.
    pub fn as_str(self) -> (r: &'static str)
        ensures
            r@ == self.text(),
    {
        match self {
            EmbeddedOcspStatus::NotChecked => "not_checked",
            EmbeddedOcspStatus::NotRevoked => "not_revoked",
            EmbeddedOcspStatus::LeafRevoked => "leaf_revoked",
            EmbeddedOcspStatus::CaRevoked => "ca_revoked",
            EmbeddedOcspStatus::LeafAndCaRevoked => "leaf_and_ca_revoked",
            EmbeddedOcspStatus::Skipped => "skipped",
        }
    }

    /// Whether the status keeps the credential from being trusted.
    pub fn blocks_trust(self) -> (r: bool)
        ensures
            r == self.blocking(),
    {
        match self {
            EmbeddedOcspStatus::LeafRevoked | EmbeddedOcspStatus::CaRevoked
            | EmbeddedOcspStatus::LeafAndCaRevoked => true,
            _ => false,
        }
    }
}

// ---------------------------------------------------------------------------
// Evidence budget
// ---------------------------------------------------------------------------

/// What has been spent on embedded evidence.
#[derive(Debug, Clone, Copy, PartialEq, Eq, Structural)]
pub struct OcspEvidenceBudget {
    pub responses: usize,
    pub total_bytes: usize,
    pub collection_nodes: usize,
    pub rejected: bool,
    /// The longest response that is looked at.
    pub max_response_bytes: usize,
}

impl OcspEvidenceBudget {
    /// Nothing spent.
    pub open spec fn fresh(max_response_bytes: usize) -> OcspEvidenceBudget {
        OcspEvidenceBudget {
            responses: 0,
            total_bytes: 0,
            collection_nodes: 0,
            rejected: false,
            max_response_bytes,
        }
    }

    /// The bounds hold.
    pub open spec fn within(self) -> bool {
        &&& self.responses <= MAX_EMBEDDED_OCSP_RESPONSES
        &&& self.total_bytes <= MAX_EMBEDDED_OCSP_TOTAL_BYTES
        &&& self.collection_nodes <= MAX_EMBEDDED_OCSP_COLLECTION_NODES
    }

    /// Given up.
    pub open spec fn refused(self) -> OcspEvidenceBudget {
        OcspEvidenceBudget { rejected: true, ..self }
    }

    /// One more collection node.
    pub open spec fn with_node(self) -> OcspEvidenceBudget {
        if self.collection_nodes >= MAX_EMBEDDED_OCSP_COLLECTION_NODES {
            self.refused()
        } else {
            OcspEvidenceBudget {
                collection_nodes: (self.collection_nodes + 1) as usize,
                ..self
            }
        }
    }

    /// There is room for a response of `len` bytes.
    pub open spec fn admits(self, len: nat) -> bool {
        self.responses < MAX_EMBEDDED_OCSP_RESPONSES && len <= self.max_response_bytes
            && self.total_bytes + len <= MAX_EMBEDDED_OCSP_TOTAL_BYTES
    }

    /// One more response of `len` bytes.
    pub open spec fn with_response(self, len: nat) -> OcspEvidenceBudget {
        if self.admits(len) {
            OcspEvidenceBudget {
                responses: (self.responses + 1) as usize,
                total_bytes: (self.total_bytes + len) as usize,
                ..self
            }
        } else {
            self.refused()
        }
    }

    /// Nothing spent.
    pub fn new(max_response_bytes: usize) -> (r: OcspEvidenceBudget)
        ensures
            r == OcspEvidenceBudget::fresh(max_response_bytes),
            r.within(),
    {
        OcspEvidenceBudget {
            responses: 0,
            total_bytes: 0,
            collection_nodes: 0,
            rejected: false,
            max_response_bytes,
        }
    }

    /// How many more responses may be looked at.
    pub fn remaining_responses(&self) -> (r: usize)
        ensures
            r == if self.responses >= MAX_EMBEDDED_OCSP_RESPONSES {
                0
            } else {
                MAX_EMBEDDED_OCSP_RESPONSES - self.responses
            },
    {
        if self.responses >= MAX_EMBEDDED_OCSP_RESPONSES {
            0
        } else {
            MAX_EMBEDDED_OCSP_RESPONSES - self.responses
        }
    }

    /// Spend one collection node; false where none is left.
    pub fn visit_collection_node(&mut self) -> (r: bool)
        ensures
            *final(self) == old(self).with_node(),
            r == (old(self).collection_nodes < MAX_EMBEDDED_OCSP_COLLECTION_NODES),
    {
        if self.collection_nodes >= MAX_EMBEDDED_OCSP_COLLECTION_NODES {
            self.rejected = true;
            return false;
        }
        self.collection_nodes = self.collection_nodes + 1;
        true
    }

    /// Spend one response; false where it does not fit.
    pub fn accept_response(&mut self, response: &[u8]) -> (r: bool)
        requires
            old(self).within(),
        ensures
            *final(self) == old(self).with_response(response@.len()),
            r == old(self).admits(response@.len()),
    {
        if self.responses >= MAX_EMBEDDED_OCSP_RESPONSES || response.len()
            > self.max_response_bytes {
            self.rejected = true;
            return false;
        }
        if response.len() > MAX_EMBEDDED_OCSP_TOTAL_BYTES - self.total_bytes {
            self.rejected = true;
            return false;
        }
        self.responses = self.responses + 1;
        self.total_bytes = self.total_bytes + response.len();
        true
    }
}

// ---------------------------------------------------------------------------
// Walking an assertion
// ---------------------------------------------------------------------------

/// A walk over embedded evidence: what it spent and which responses it met.
pub struct Scan {
    pub budget: OcspEvidenceBudget,
    pub visited: Seq<Seq<u8>>,
}

impl Scan {
    pub open spec fn refused(self) -> Scan {
        Scan { budget: self.budget.refused(), ..self }
    }

    pub open spec fn with_node(self) -> Scan {
        Scan { budget: self.budget.with_node(), ..self }
    }

    /// This walk with one more response, where it fits.
    pub open spec fn with_response(self, response: Seq<u8>) -> Scan {
        Scan {
            budget: self.budget.with_response(response.len()),
            visited: if self.budget.admits(response.len()) {
                self.visited.push(response)
            } else {
                self.visited
            },
        }
    }
}

/// The responses at or behind `i` of an `ocspVals` array.
pub open spec fn walk_responses(values: Seq<Value>, i: int, s: Scan) -> Scan
    decreases values.len() - i,
{
    if i < 0 || i >= values.len() {
        s
    } else {
        let a = s.with_node();
        if a.budget.rejected {
            a
        } else {
            match value::bytes_of(Some(values[i])) {
                Some(response) => {
                    let b = a.with_response(response);
                    if b.budget.rejected {
                        b
                    } else {
                        walk_responses(values, i + 1, b)
                    }
                },
                None => walk_responses(values, i + 1, a),
            }
        }
    }
}

/// The value of an `ocspVals` entry.
pub open spec fn walk_ocsp_vals(nested: Value, s: Scan) -> Scan {
    let a = s.with_node();
    if a.budget.rejected {
        a
    } else {
        match value::items_of(Some(nested)) {
            Some(values) => if a.budget.responses + values.len() > MAX_EMBEDDED_OCSP_RESPONSES {
                a.refused()
            } else {
                walk_responses(values, 0, a)
            },
            None => a,
        }
    }
}

/// A value at nesting depth `depth`.
pub open spec fn walk_value(v: Value, depth: nat, s: Scan) -> Scan
    decreases MAX_EMBEDDED_OCSP_COLLECTION_DEPTH + 1 - depth, 1nat, 0int,
{
    if s.budget.rejected {
        s
    } else if depth > MAX_EMBEDDED_OCSP_COLLECTION_DEPTH {
        s.refused()
    } else {
        let a = s.with_node();
        if a.budget.rejected {
            a
        } else {
            match v {
                Value::Dict(entries) => walk_entries(entries@, 0, depth, a),
                Value::Array(items) => walk_items(items@, 0, depth, a),
                _ => a,
            }
        }
    }
}

/// The map entries at or behind `i`.
pub open spec fn walk_entries(entries: Seq<(Value, Value)>, i: int, depth: nat, s: Scan) -> Scan
    decreases MAX_EMBEDDED_OCSP_COLLECTION_DEPTH + 1 - depth, 0nat, entries.len() - i,
{
    if i < 0 || i >= entries.len() || s.budget.rejected || depth
        > MAX_EMBEDDED_OCSP_COLLECTION_DEPTH {
        s
    } else if value::is_text(entries[i].0, "ocspVals"@) {
        walk_entries(entries, i + 1, depth, walk_ocsp_vals(entries[i].1, s))
    } else {
        walk_entries(entries, i + 1, depth, walk_value(entries[i].1, depth + 1, s))
    }
}

/// The array items at or behind `i`.
pub open spec fn walk_items(items: Seq<Value>, i: int, depth: nat, s: Scan) -> Scan
    decreases MAX_EMBEDDED_OCSP_COLLECTION_DEPTH + 1 - depth, 0nat, items.len() - i,
{
    if i < 0 || i >= items.len() || s.budget.rejected || depth
        > MAX_EMBEDDED_OCSP_COLLECTION_DEPTH {
        s
    } else {
        walk_items(items, i + 1, depth, walk_value(items[i], depth + 1, s))
    }
}

/// The contents of borrowed byte slices.
pub open spec fn slices(v: Seq<&[u8]>) -> Seq<Seq<u8>> {
    v.map_values(|b: &[u8]| b@)
}

/// The walk so far.
pub open spec fn scan_of(budget: OcspEvidenceBudget, visited: Seq<&[u8]>) -> Scan {
    Scan { budget, visited: slices(visited) }
}

fn admit_response<'v>(
    response: &'v [u8],
    budget: &mut OcspEvidenceBudget,
    visited: &mut Vec<&'v [u8]>,
)
    requires
        old(budget).within(),
    ensures
        final(budget).within(),
        scan_of(*final(budget), final(visited)@) == scan_of(
            *old(budget),
            old(visited)@,
        ).with_response(response@),
{
    if budget.accept_response(response) {
        visited.push(response);
    }
    assert(slices(visited@) =~= scan_of(*old(budget), old(visited)@).with_response(
        response@,
    ).visited);
}

fn visit_responses<'v>(
    values: &'v [Value],
    budget: &mut OcspEvidenceBudget,
    visited: &mut Vec<&'v [u8]>,
)
    requires
        old(budget).within(),
    ensures
        final(budget).within(),
        scan_of(*final(budget), final(visited)@) == walk_responses(
            values@,
            0,
            scan_of(*old(budget), old(visited)@),
        ),
{
    let ghost whole = walk_responses(values@, 0, scan_of(*budget, visited@));
    let mut i: usize = 0;
    while i < values.len()
        invariant
            i <= values.len(),
            budget.within(),
            whole == walk_responses(values@, 0, scan_of(*old(budget), old(visited)@)),
            walk_responses(values@, i as int, scan_of(*budget, visited@)) == whole,
            i > 0 ==> !budget.rejected,
        decreases values.len() - i,
    {
        let room = budget.visit_collection_node();
        if !room || budget.rejected {
            return;
        }
        if let Some(response) = values[i].as_bytes() {
            admit_response(response, budget, visited);
            if budget.rejected {
                return;
            }
        }
        i += 1;
    }
}

fn visit_ocsp_entry<'v>(
    nested: &'v Value,
    budget: &mut OcspEvidenceBudget,
    visited: &mut Vec<&'v [u8]>,
)
    requires
        old(budget).within(),
    ensures
        final(budget).within(),
        scan_of(*final(budget), final(visited)@) == walk_ocsp_vals(
            *nested,
            scan_of(*old(budget), old(visited)@),
        ),
{
    let room = budget.visit_collection_node();
    if !room || budget.rejected {
        return;
    }
    if let Some(values) = nested.as_items() {
        if values.len() > budget.remaining_responses() {
            budget.rejected = true;
            return;
        }
        visit_responses(values, budget, visited);
    }
}

/// Walk one certificate-status value and collect the responses that it carries,
/// within the verifier's bounds.
pub fn visit_ocsp_values<'v>(
    v: &'v Value,
    depth: usize,
    budget: &mut OcspEvidenceBudget,
    visited: &mut Vec<&'v [u8]>,
)
    requires
        old(budget).within(),
        depth <= MAX_EMBEDDED_OCSP_COLLECTION_DEPTH + 1,
    ensures
        final(budget).within(),
        scan_of(*final(budget), final(visited)@) == walk_value(
            *v,
            depth as nat,
            scan_of(*old(budget), old(visited)@),
        ),
    decreases MAX_EMBEDDED_OCSP_COLLECTION_DEPTH + 1 - depth,
{
    if budget.rejected {
        return;
    }
    if depth > MAX_EMBEDDED_OCSP_COLLECTION_DEPTH {
        budget.rejected = true;
        return;
    }
    if !budget.visit_collection_node() {
        return;
    }
    let ghost whole = walk_value(*v, depth as nat, scan_of(*old(budget), old(visited)@));
    match v {
        Value::Dict(entries) => {
            let mut i: usize = 0;
            while i < entries.len()
                invariant
                    i <= entries.len(),
                    budget.within(),
                    depth <= MAX_EMBEDDED_OCSP_COLLECTION_DEPTH,
                    whole == walk_value(
                        *v,
                        depth as nat,
                        scan_of(*old(budget), old(visited)@),
                    ),
                    walk_entries(
                        entries@,
                        i as int,
                        depth as nat,
                        scan_of(*budget, visited@),
                    ) == whole,
                decreases entries.len() - i,
            {
                if budget.rejected {
                    return;
                }
                let is_ocsp = match entries[i].0.as_text() {
                    Some(t) => str_eq(t, "ocspVals"),
                    None => false,
                };
                if is_ocsp {
                    visit_ocsp_entry(&entries[i].1, budget, visited);
                } else {
                    visit_ocsp_values(&entries[i].1, depth + 1, budget, visited);
                }
                i += 1;
            }
        },
        Value::Array(items) => {
            let mut i: usize = 0;
            while i < items.len()
                invariant
                    i <= items.len(),
                    budget.within(),
                    depth <= MAX_EMBEDDED_OCSP_COLLECTION_DEPTH,
                    whole == walk_value(
                        *v,
                        depth as nat,
                        scan_of(*old(budget), old(visited)@),
                    ),
                    walk_items(items@, i as int, depth as nat, scan_of(*budget, visited@))
                        == whole,
                decreases items.len() - i,
            {
                if budget.rejected {
                    return;
                }
                visit_ocsp_values(&items[i], depth + 1, budget, visited);
                i += 1;
            }
        },
        _ => {},
    }
}

// ---------------------------------------------------------------------------
// Scanning the evidence of a signature
// ---------------------------------------------------------------------------

/// The first `k` responses stapled to the signature.
pub open spec fn staples_scanned(staples: Seq<Vec<u8>>, k: int, s: Scan) -> Scan
    decreases k,
{
    if k <= 0 {
        s
    } else {
        staples_scanned(staples, k - 1, s).with_response(staples[k - 1]@)
    }
}

/// The certificate-status payloads at or behind `i`.
pub open spec fn assertions_scanned(assertions: Seq<Payload>, i: int, s: Scan) -> Scan
    decreases assertions.len() - i,
{
    if i < 0 || i >= assertions.len() {
        s
    } else if assertions[i].bytes@.len() > MAX_OCSP_STATUS_ASSERTION_BYTES {
        s.refused()
    } else {
        let a = match assertions[i].value {
            Some(v) => walk_value(v, 0, s),
            None => s,
        };
        if a.budget.rejected {
            a
        } else {
            assertions_scanned(assertions, i + 1, a)
        }
    }
}

/// The evidence of a signature and of the store.
pub open spec fn evidence_scan(
    staples: Seq<Vec<u8>>,
    assertions: Seq<Payload>,
    max_response_bytes: usize,
) -> Scan {
    let s = Scan {
        budget: OcspEvidenceBudget::fresh(max_response_bytes),
        visited: Seq::empty(),
    };
    if staples.len() > MAX_EMBEDDED_OCSP_RESPONSES {
        s.refused()
    } else {
        let a = staples_scanned(staples, staples.len() as int, s);
        if a.budget.rejected {
            a
        } else {
            assertions_scanned(assertions, 0, a)
        }
    }
}

/// Scan the responses stapled to the signature, then those of the store's
/// certificate-status assertions, within the verifier's bounds.
pub fn scan_embedded_ocsp_evidence<'v>(
    staples: &'v [Vec<u8>],
    assertions: &Vec<&'v Payload>,
    max_response_bytes: usize,
) -> (r: (OcspEvidenceBudget, Vec<&'v [u8]>))
    ensures
        scan_of(r.0, r.1@) == evidence_scan(
            staples@,
            payload_targets(assertions@),
            max_response_bytes,
        ),
        r.0.within(),
{
    let mut budget = OcspEvidenceBudget::new(max_response_bytes);
    let mut visited: Vec<&'v [u8]> = Vec::new();
    let ghost av = payload_targets(assertions@);
    let ghost whole = evidence_scan(staples@, av, max_response_bytes);
    let ghost start = scan_of(budget, visited@);
    assert(slices(visited@) =~= Seq::empty());
    if staples.len() > budget.remaining_responses() {
        budget.rejected = true;
        return (budget, visited);
    }
    let mut i: usize = 0;
    while i < staples.len()
        invariant
            i <= staples.len(),
            budget.within(),
            scan_of(budget, visited@) == staples_scanned(staples@, i as int, start),
        decreases staples.len() - i,
    {
        admit_response(staples[i].as_slice(), &mut budget, &mut visited);
        i += 1;
    }
    if budget.rejected {
        return (budget, visited);
    }
    let mut i: usize = 0;
    while i < assertions.len()
        invariant
            i <= assertions.len(),
            av == payload_targets(assertions@),
            whole == evidence_scan(staples@, av, max_response_bytes),
            budget.within(),
            !budget.rejected,
            assertions_scanned(av, i as int, scan_of(budget, visited@)) == whole,
        decreases assertions.len() - i,
    {
        let p = assertions[i];
        assert(av[i as int] == *p);
        if p.bytes.len() > MAX_OCSP_STATUS_ASSERTION_BYTES {
            budget.rejected = true;
            return (budget, visited);
        }
        if let Some(v) = &p.value {
            visit_ocsp_values(v, 0, &mut budget, &mut visited);
        }
        if budget.rejected {
            return (budget, visited);
        }
        i += 1;
    }
    (budget, visited)
}

// ---------------------------------------------------------------------------
// The certificate chain
// ---------------------------------------------------------------------------

/// The certificates that a chain is resolved among: those of the signature,
/// leaf first, then the trust anchors; and for each of them the position of the
/// certificate that issued it, where it was found.
#[derive(Debug)]
pub struct CertificatePool {
    pub certificates: Vec<Vec<u8>>,
    pub chain_len: usize,
    pub issuers: Vec<Option<usize>>,
}

impl CertificatePool {
    /// There is an entry for each certificate, and it names a certificate.
    pub open spec fn wf(self) -> bool {
        &&& self.chain_len <= self.certificates@.len()
        &&& self.issuers@.len() == self.certificates@.len()
        &&& forall|i: int|
            0 <= i < self.issuers@.len() ==> ((#[trigger] self.issuers@[i]) matches Some(j) ==> j
                < self.certificates@.len())
    }

    /// The bytes of a trust anchor.
    pub open spec fn is_anchor(self, certificate: Seq<u8>) -> bool {
        exists|k: int|
            self.chain_len <= k < self.certificates@.len() && (#[trigger] self.certificates@[k])@
                == certificate
    }

    /// The certificate at `j` was already a subject.
    pub open spec fn seen_subject(self, pairs: Seq<(usize, usize)>, j: int) -> bool {
        exists|k: int|
            0 <= k < pairs.len() && self.certificates@[(#[trigger] pairs[k]).0 as int]@
                == self.certificates@[j]@
    }
}

/// The subject and issuer pairs from `subject` upwards, at most `left` of them.
pub open spec fn pairs_from(
    pool: CertificatePool,
    subject: usize,
    left: nat,
    pairs: Seq<(usize, usize)>,
) -> Seq<(usize, usize)>
    decreases left,
{
    if left == 0 {
        pairs
    } else {
        match pool.issuers@[subject as int] {
            None => pairs,
            Some(j) => if pool.certificates@[j as int]@ == pool.certificates@[subject as int]@
                || pool.seen_subject(pairs, j as int) {
                pairs
            } else if pool.is_anchor(pool.certificates@[j as int]@) {
                pairs.push((subject, j))
            } else {
                pairs_from(pool, j, (left - 1) as nat, pairs.push((subject, j)))
            },
        }
    }
}

/// The pairs that revocation is evaluated for; nothing for a chain that is too
/// long.
pub open spec fn chain_pairs(pool: CertificatePool) -> Option<Seq<(usize, usize)>> {
    if pool.chain_len > MAX_EMBEDDED_OCSP_CHAIN_CERTIFICATES {
        None
    } else if pool.chain_len == 0 {
        Some(Seq::empty())
    } else {
        Some(pairs_from(pool, 0, MAX_EMBEDDED_OCSP_CHAIN_CERTIFICATES as nat, Seq::empty()))
    }
}

proof fn lemma_pairs_from(
    pool: CertificatePool,
    subject: usize,
    left: nat,
    pairs: Seq<(usize, usize)>,
)
    requires
        pool.wf(),
        subject < pool.certificates@.len(),
        forall|k: int| 0 <= k < pairs.len() ==> (#[trigger] pairs[k]).0 < pool.certificates@.len(),
    ensures
        forall|k: int|
            0 <= k < pairs_from(pool, subject, left, pairs).len() ==> (#[trigger] pairs_from(
                pool,
                subject,
                left,
                pairs,
            )[k]).0 < pool.certificates@.len(),
    decreases left,
{
    if left > 0 {
        if let Some(j) = pool.issuers@[subject as int] {
            let more = pairs.push((subject, j));
            assert forall|k: int| 0 <= k < more.len() implies (#[trigger] more[k]).0
                < pool.certificates@.len() by {
                if k < pairs.len() {
                    assert(more[k] == pairs[k]);
                }
            }
            lemma_pairs_from(pool, j, (left - 1) as nat, more);
            let whole = pairs_from(pool, subject, left, pairs);
            let rest = pairs_from(pool, j, (left - 1) as nat, more);
            assert(whole == pairs || whole == more || whole == rest);
            assert forall|k: int| 0 <= k < whole.len() implies (#[trigger] whole[k]).0
                < pool.certificates@.len() by {
                if whole == pairs {
                    assert(pairs[k].0 < pool.certificates@.len());
                } else if whole == more {
                    assert(more[k].0 < pool.certificates@.len());
                } else {
                    assert(rest[k].0 < pool.certificates@.len());
                }
            }
        }
    }
}

/// The subject of every pair is a certificate of the pool.
pub(crate) proof fn pairs_name_certificates(pool: CertificatePool, p: int)
    requires
        pool.wf(),
        chain_pairs(pool) is Some,
        0 <= p < chain_pairs(pool)->0.len(),
    ensures
        chain_pairs(pool)->0[p].0 < pool.certificates@.len(),
{
    if pool.chain_len > 0 {
        lemma_pairs_from(
            pool,
            0,
            MAX_EMBEDDED_OCSP_CHAIN_CERTIFICATES as nat,
            Seq::empty(),
        );
    }
}

fn pool_has_anchor(pool: &CertificatePool, certificate: &[u8]) -> (r: bool)
    ensures
        r == pool.is_anchor(certificate@),
{
    let mut k: usize = pool.chain_len;
    while k < pool.certificates.len()
        invariant
            pool.chain_len <= k,
            forall|i: int|
                pool.chain_len <= i < k && i < pool.certificates@.len() ==> (
                #[trigger] pool.certificates@[i])@ != certificate@,
        decreases pool.certificates.len() - k,
    {
        if bytes_eq(pool.certificates[k].as_slice(), certificate) {
            return true;
        }
        k += 1;
    }
    false
}

fn subject_seen(pool: &CertificatePool, pairs: &Vec<(usize, usize)>, j: usize) -> (r: bool)
    requires
        j < pool.certificates@.len(),
        forall|k: int| 0 <= k < pairs@.len() ==> (#[trigger] pairs@[k]).0 < pool.certificates@.len(),
    ensures
        r == pool.seen_subject(pairs@, j as int),
{
    let mut k: usize = 0;
    while k < pairs.len()
        invariant
            j < pool.certificates@.len(),
            forall|k: int|
                0 <= k < pairs@.len() ==> (#[trigger] pairs@[k]).0 < pool.certificates@.len(),
            forall|i: int|
                0 <= i < k && i < pairs@.len() ==> pool.certificates@[(
                #[trigger] pairs@[i]).0 as int]@ != pool.certificates@[j as int]@,
        decreases pairs.len() - k,
    {
        assert(pairs@[k as int].0 < pool.certificates@.len());
        let subject = pairs[k].0;
        if bytes_eq(pool.certificates[subject].as_slice(), pool.certificates[j].as_slice()) {
            assert(pool.certificates@[pairs@[k as int].0 as int]@
                == pool.certificates@[j as int]@);
            return true;
        }
        k += 1;
    }
    false
}

/// The subject and issuer pairs of the signing chain, leaf first.
pub fn ocsp_chain_pairs(pool: &CertificatePool) -> (r: Option<Vec<(usize, usize)>>)
    requires
        pool.wf(),
    ensures
        match r {
            Some(v) => chain_pairs(*pool) == Some(v@),
            None => chain_pairs(*pool) is None,
        },
{
    if pool.chain_len > MAX_EMBEDDED_OCSP_CHAIN_CERTIFICATES {
        return None;
    }
    let mut pairs: Vec<(usize, usize)> = Vec::new();
    if pool.chain_len == 0 {
        assert(pairs@ =~= Seq::empty());
        return Some(pairs);
    }
    let ghost whole = chain_pairs(*pool)->0;
    let mut subject: usize = 0;
    let mut left: usize = MAX_EMBEDDED_OCSP_CHAIN_CERTIFICATES;
    assert(pairs@ =~= Seq::empty());
    while left > 0
        invariant
            pool.wf(),
            0 < pool.chain_len <= MAX_EMBEDDED_OCSP_CHAIN_CERTIFICATES,
            subject < pool.certificates@.len(),
            forall|k: int|
                0 <= k < pairs@.len() ==> (#[trigger] pairs@[k]).0 < pool.certificates@.len(),
            chain_pairs(*pool) == Some(whole),
            pairs_from(*pool, subject, left as nat, pairs@) == whole,
        decreases left,
    {
        let j = match pool.issuers[subject] {
            Some(j) => j,
            None => {
                return Some(pairs);
            },
        };
        assert(pool.issuers@[subject as int] == Some(j));
        if bytes_eq(pool.certificates[j].as_slice(), pool.certificates[subject].as_slice())
            || subject_seen(pool, &pairs, j) {
            return Some(pairs);
        }
        pairs.push((subject, j));
        if pool_has_anchor(pool, pool.certificates[j].as_slice()) {
            return Some(pairs);
        }
        subject = j;
        left -= 1;
    }
    Some(pairs)
}

// ---------------------------------------------------------------------------
// Evaluation
// ---------------------------------------------------------------------------

/// What response `r` was verified to say of pair `p`; nothing where it says
/// nothing usable.
pub open spec fn verdict_at(verdicts: Seq<Vec<Option<OcspStatus>>>, r: int, p: int) -> Option<
    OcspStatus,
> {
    if 0 <= r < verdicts.len() && 0 <= p < verdicts[r]@.len() {
        verdicts[r]@[p]
    } else {
        None
    }
}

/// The evidence of the first `n` responses about pair `p`.
pub open spec fn evidence_over(verdicts: Seq<Vec<Option<OcspStatus>>>, n: int, p: int) -> CertificateEvidence
    decreases n,
{
    if n <= 0 {
        CertificateEvidence::empty()
    } else {
        evidence_over(verdicts, n - 1, p).with_response(verdict_at(verdicts, n - 1, p))
    }
}

/// A certificate above the leaf is revoked.
pub open spec fn ca_revoked(statuses: Seq<Option<OcspStatus>>) -> bool {
    exists|i: int| 1 <= i < statuses.len() && revocation::is_revoked(#[trigger] statuses[i])
}

/// What the statuses of the chain come to.
pub open spec fn chain_status(statuses: Seq<Option<OcspStatus>>) -> EmbeddedOcspStatus {
    let leaf = statuses.len() > 0 && revocation::is_revoked(statuses[0]);
    let ca = ca_revoked(statuses);
    if leaf && ca {
        EmbeddedOcspStatus::LeafAndCaRevoked
    } else if leaf {
        EmbeddedOcspStatus::LeafRevoked
    } else if ca {
        EmbeddedOcspStatus::CaRevoked
    } else if statuses.len() > 0 && statuses[0] == Some(OcspStatus::Good) {
        EmbeddedOcspStatus::NotRevoked
    } else {
        EmbeddedOcspStatus::Skipped
    }
}

/// The statuses of the first `k` pairs under `n` responses.
pub open spec fn pair_statuses(
    verdicts: Seq<Vec<Option<OcspStatus>>>,
    n: int,
    k: nat,
    any_good_wins: bool,
) -> Seq<Option<OcspStatus>> {
    Seq::new(k, |p: int| evidence_over(verdicts, n, p).resolved(any_good_wins).0)
}

/// A revoked response was outranked for one of the first `k` pairs.
pub open spec fn any_outranked(
    verdicts: Seq<Vec<Option<OcspStatus>>>,
    n: int,
    k: nat,
    any_good_wins: bool,
) -> bool {
    exists|p: int|
        0 <= p < k && (#[trigger] evidence_over(verdicts, n, p)).resolved(any_good_wins).1
}

/// What the embedded evidence says of the signing chain, and whether a good
/// response outranked a revoked one. That it may is the conformance reading;
/// otherwise a revocation stands.
pub open spec fn embedded_status(
    staples: Seq<Vec<u8>>,
    assertions: Seq<Payload>,
    max_response_bytes: usize,
    pool: CertificatePool,
    verdicts: Seq<Vec<Option<OcspStatus>>>,
    any_good_wins: bool,
) -> (EmbeddedOcspStatus, bool) {
    let scan = evidence_scan(staples, assertions, max_response_bytes);
    let n = scan.visited.len() as int;
    if scan.budget.rejected {
        (EmbeddedOcspStatus::Skipped, false)
    } else if scan.budget.responses == 0 {
        (EmbeddedOcspStatus::NotChecked, false)
    } else {
        match chain_pairs(pool) {
            None => (EmbeddedOcspStatus::Skipped, false),
            Some(pairs) => (
                chain_status(pair_statuses(verdicts, n, pairs.len(), any_good_wins)),
                any_outranked(verdicts, n, pairs.len(), any_good_wins),
            ),
        }
    }
}

fn is_revoked_status(s: Option<OcspStatus>) -> (r: bool)
    ensures
        r == revocation::is_revoked(s),
{
    match s {
        Some(OcspStatus::Revoked { .. }) => true,
        _ => false,
    }
}

/// What the statuses of the chain's certificates come to.
pub fn embedded_ocsp_status_from_certificate_statuses(statuses: &[Option<OcspStatus>]) -> (r:
    EmbeddedOcspStatus)
    ensures
        r == chain_status(statuses@),
{
    let leaf_revoked = statuses.len() > 0 && is_revoked_status(statuses[0]);
    let mut any_ca = false;
    let mut i: usize = 1;
    while i < statuses.len()
        invariant
            1 <= i,
            any_ca == exists|k: int|
                1 <= k < i && k < statuses@.len() && revocation::is_revoked(
                    #[trigger] statuses@[k],
                ),
        decreases statuses.len() - i,
    {
        if is_revoked_status(statuses[i]) {
            any_ca = true;
        }
        i += 1;
    }
    assert(any_ca == ca_revoked(statuses@));
    if leaf_revoked && any_ca {
        return EmbeddedOcspStatus::LeafAndCaRevoked;
    }
    if leaf_revoked {
        return EmbeddedOcspStatus::LeafRevoked;
    }
    if any_ca {
        return EmbeddedOcspStatus::CaRevoked;
    }
    if statuses.len() > 0 {
        if let Some(OcspStatus::Good) = statuses[0] {
            return EmbeddedOcspStatus::NotRevoked;
        }
    }
    EmbeddedOcspStatus::Skipped
}

fn gather_evidence(verdicts: &[Vec<Option<OcspStatus>>], n: usize, p: usize) -> (r:
    CertificateEvidence)
    ensures
        r == evidence_over(verdicts@, n as int, p as int),
{
    let mut acc = CertificateEvidence::new();
    let mut i: usize = 0;
    while i < n
        invariant
            i <= n,
            acc == evidence_over(verdicts@, i as int, p as int),
        decreases n - i,
    {
        let one = if i < verdicts.len() && p < verdicts[i].len() {
            verdicts[i][p]
        } else {
            None
        };
        acc.absorb(one);
        i += 1;
    }
    acc
}

/// Evaluate the embedded evidence for the signing chain. Evidence that exceeds
/// the bounds is not evaluated at all.
///
/// `verdicts` holds, for each response in the order in which the evidence is
/// scanned, what it was verified to say of each pair of the chain. The second
/// result is whether a good response outranked a revoked one.
pub fn evaluate_embedded_ocsp(
    staples: &[Vec<u8>],
    assertions: &Vec<&Payload>,
    max_response_bytes: usize,
    pool: &CertificatePool,
    verdicts: &[Vec<Option<OcspStatus>>],
    any_good_wins: bool,
) -> (r: (EmbeddedOcspStatus, bool))
    requires
        pool.wf(),
    ensures
        r == embedded_status(
            staples@,
            payload_targets(assertions@),
            max_response_bytes,
            *pool,
            verdicts@,
            any_good_wins,
        ),
{
    let (budget, visited) = scan_embedded_ocsp_evidence(staples, assertions, max_response_bytes);
    assert(slices(visited@).len() == visited@.len());
    if budget.rejected {
        return (EmbeddedOcspStatus::Skipped, false);
    }
    if budget.responses == 0 {
        return (EmbeddedOcspStatus::NotChecked, false);
    }
    let pairs = match ocsp_chain_pairs(pool) {
        Some(pairs) => pairs,
        None => {
            return (EmbeddedOcspStatus::Skipped, false);
        },
    };
    let n = visited.len();
    let mut statuses: Vec<Option<OcspStatus>> = Vec::new();
    let mut outranked = false;
    let mut p: usize = 0;
    while p < pairs.len()
        invariant
            p <= pairs.len(),
            statuses@ =~= pair_statuses(verdicts@, n as int, p as nat, any_good_wins),
            outranked == any_outranked(verdicts@, n as int, p as nat, any_good_wins),
        decreases pairs.len() - p,
    {
        let ghost before = outranked;
        let (status, conflict) = gather_evidence(verdicts, n, p).resolve(any_good_wins);
        statuses.push(status);
        if conflict {
            outranked = true;
        }
        assert(evidence_over(verdicts@, n as int, p as int).resolved(any_good_wins) == (
            status,
            conflict,
        ));
        p += 1;
        assert(outranked == any_outranked(verdicts@, n as int, p as nat, any_good_wins)) by {
            if before {
                let q = choose|q: int|
                    0 <= q < p - 1 && (#[trigger] evidence_over(
                        verdicts@,
                        n as int,
                        q,
                    )).resolved(any_good_wins).1;
                assert(evidence_over(verdicts@, n as int, q).resolved(any_good_wins).1);
            }
        }
    }
    (embedded_ocsp_status_from_certificate_statuses(statuses.as_slice()), outranked)
}

/// The results with the revocation status recorded.
pub open spec fn after_ocsp(s: EmbeddedOcspStatus, sig_url: Seq<char>, r: Results) -> Results {
    match s {
        EmbeddedOcspStatus::NotRevoked => r.pass(
            SIGNING_CREDENTIAL_OCSP_NOT_REVOKED@,
            sig_url,
            "embedded OCSP response: signing certificate not revoked at signing"@,
        ),
        EmbeddedOcspStatus::LeafRevoked => r.fail(
            SIGNING_CREDENTIAL_OCSP_REVOKED@,
            sig_url,
            "embedded OCSP response: signing certificate revoked at signing"@,
        ),
        EmbeddedOcspStatus::CaRevoked => r.fail(
            SIGNING_CREDENTIAL_UNTRUSTED@,
            sig_url,
            "embedded OCSP response: CA certificate revoked at signing"@,
        ),
        EmbeddedOcspStatus::LeafAndCaRevoked => r.fail(
            SIGNING_CREDENTIAL_OCSP_REVOKED@,
            sig_url,
            "embedded OCSP response: signing certificate revoked at signing"@,
        ).fail(
            SIGNING_CREDENTIAL_UNTRUSTED@,
            sig_url,
            "embedded OCSP response: CA certificate revoked at signing"@,
        ),
        _ => r.inform(
            SIGNING_CREDENTIAL_OCSP_SKIPPED@,
            sig_url,
            "no usable embedded OCSP response for the leaf; revocation check skipped"@,
        ),
    }
}

/// Record what the embedded evidence says of the signing chain.
pub fn record_embedded_ocsp_status(
    s: EmbeddedOcspStatus,
    sig_url: &str,
    results: &mut ValidationResults,
)
    ensures
        final(results)@ == after_ocsp(s, sig_url@, old(results)@),
{
    match s {
        EmbeddedOcspStatus::NotRevoked => {
            results.push_success(
                SIGNING_CREDENTIAL_OCSP_NOT_REVOKED,
                sig_url.to_owned(),
                "embedded OCSP response: signing certificate not revoked at signing".to_owned(),
            );
        },
        EmbeddedOcspStatus::LeafRevoked => {
            results.push_failure(
                SIGNING_CREDENTIAL_OCSP_REVOKED,
                sig_url.to_owned(),
                "embedded OCSP response: signing certificate revoked at signing".to_owned(),
            );
        },
        EmbeddedOcspStatus::CaRevoked => {
            results.push_failure(
                SIGNING_CREDENTIAL_UNTRUSTED,
                sig_url.to_owned(),
                "embedded OCSP response: CA certificate revoked at signing".to_owned(),
            );
        },
        EmbeddedOcspStatus::LeafAndCaRevoked => {
            results.push_failure(
                SIGNING_CREDENTIAL_OCSP_REVOKED,
                sig_url.to_owned(),
                "embedded OCSP response: signing certificate revoked at signing".to_owned(),
            );
            results.push_failure(
                SIGNING_CREDENTIAL_UNTRUSTED,
                sig_url.to_owned(),
                "embedded OCSP response: CA certificate revoked at signing".to_owned(),
            );
        },
        EmbeddedOcspStatus::NotChecked | EmbeddedOcspStatus::Skipped => {
            results.push_informational(
                SIGNING_CREDENTIAL_OCSP_SKIPPED,
                sig_url.to_owned(),
                "no usable embedded OCSP response for the leaf; revocation check skipped".to_owned(),
            );
        },
    }
}

// ---------------------------------------------------------------------------
// Laws
// ---------------------------------------------------------------------------

/// Once some response says that a certificate is revoked, all responses together
/// say so, whatever the others say and in whatever order they stand; but for the
/// conformance reading, where a good response may outrank it.
pub proof fn revoked_response_decides(
    verdicts: Seq<Vec<Option<OcspStatus>>>,
    n: int,
    p: int,
    r: int,
)
    requires
        0 <= r < n,
        revocation::is_revoked(revocation::effective(verdict_at(verdicts, r, p))),
    ensures
        revocation::is_revoked(evidence_over(verdicts, n, p).merged),
        revocation::is_revoked(evidence_over(verdicts, n, p).resolved(false).0),
    decreases n,
{
    if r < n - 1 {
        revoked_response_decides(verdicts, n - 1, p, r);
        lemma_merged_is_effective(verdicts, n - 1, p);
    }
    revocation::merge_is_fail_closed(
        evidence_over(verdicts, n - 1, p).merged,
        verdict_at(verdicts, n - 1, p),
    );
}

proof fn lemma_merged_is_effective(verdicts: Seq<Vec<Option<OcspStatus>>>, n: int, p: int)
    ensures
        revocation::effective(evidence_over(verdicts, n, p).merged) == evidence_over(verdicts, n, p).merged,
    decreases n,
{
    if n > 0 {
        lemma_merged_is_effective(verdicts, n - 1, p);
    }
}

/// A revoked certificate of the chain keeps the credential from being trusted,
/// and is recorded as a failure.
pub proof fn revoked_chain_blocks_trust(
    statuses: Seq<Option<OcspStatus>>,
    i: int,
    sig_url: Seq<char>,
    r: Results,
)
    requires
        0 <= i < statuses.len(),
        revocation::is_revoked(statuses[i]),
    ensures
        chain_status(statuses).blocking(),
        after_ocsp(chain_status(statuses), sig_url, r).failure.len() > r.failure.len(),
{
    if i > 0 {
        assert(ca_revoked(statuses));
    }
}

/// Evidence beyond the bounds is never evaluated: whatever the responses say,
/// the revocation check is skipped.
pub proof fn excess_evidence_is_never_evaluated(
    staples: Seq<Vec<u8>>,
    assertions: Seq<Payload>,
    max_response_bytes: usize,
    pool: CertificatePool,
    verdicts: Seq<Vec<Option<OcspStatus>>>,
    any_good_wins: bool,
)
    requires
        staples.len() > MAX_EMBEDDED_OCSP_RESPONSES || evidence_scan(
            staples,
            assertions,
            max_response_bytes,
        ).budget.rejected,
    ensures
        embedded_status(
            staples,
            assertions,
            max_response_bytes,
            pool,
            verdicts,
            any_good_wins,
        ) == (EmbeddedOcspStatus::Skipped, false),
{
}

/// What all responses together say of a pair: revoked exactly where one of them
/// says so; good where none says revoked and one says good; and a response
/// establishes good exactly where one says it.
pub proof fn evidence_is_what_the_responses_say(
    verdicts: Seq<Vec<Option<OcspStatus>>>,
    n: int,
    p: int,
)
    requires
        0 <= n,
    ensures
        revocation::is_revoked(evidence_over(verdicts, n, p).merged) == (exists|r: int|
            0 <= r < n && revocation::says_revoked(#[trigger] verdict_at(verdicts, r, p))),
        evidence_over(verdicts, n, p).any_good == (exists|r: int|
            0 <= r < n && revocation::says_good(#[trigger] verdict_at(verdicts, r, p))),
        (evidence_over(verdicts, n, p).merged == Some(OcspStatus::Good)) == (
        !revocation::is_revoked(evidence_over(verdicts, n, p).merged) && evidence_over(
            verdicts,
            n,
            p,
        ).any_good),
        !revocation::says_revoked(evidence_over(verdicts, n, p).merged) == !revocation::is_revoked(
            evidence_over(verdicts, n, p).merged,
        ),
        revocation::says_good(evidence_over(verdicts, n, p).merged) == (evidence_over(
            verdicts,
            n,
            p,
        ).merged == Some(OcspStatus::Good)),
    decreases n,
{
    if n > 0 {
        evidence_is_what_the_responses_say(verdicts, n - 1, p);
        let before = evidence_over(verdicts, n - 1, p);
        let last = verdict_at(verdicts, n - 1, p);
        revocation::merge_takes_the_gravest(before.merged, last);
        if exists|r: int|
            0 <= r < n - 1 && revocation::says_revoked(#[trigger] verdict_at(verdicts, r, p)) {
            let r = choose|r: int|
                0 <= r < n - 1 && revocation::says_revoked(#[trigger] verdict_at(verdicts, r, p));
            assert(revocation::says_revoked(verdict_at(verdicts, r, p)));
        }
        if exists|r: int|
            0 <= r < n - 1 && revocation::says_good(#[trigger] verdict_at(verdicts, r, p)) {
            let r = choose|r: int|
                0 <= r < n - 1 && revocation::says_good(#[trigger] verdict_at(verdicts, r, p));
            assert(revocation::says_good(verdict_at(verdicts, r, p)));
        }
        assert(last == verdict_at(verdicts, n - 1, p));
    }
}

/// The status of a chain says of its leaf and of the certificates above it
/// exactly what their statuses say: the leaf is reported revoked where its own
/// status is, a CA where the status of any certificate above the leaf is, and the
/// chain is reported not revoked only where the leaf is good and no certificate
/// is revoked. Anything else leaves the check skipped.
pub proof fn chain_status_reports_each_certificate(statuses: Seq<Option<OcspStatus>>)
    ensures
        ({
            let s = chain_status(statuses);
            let leaf = statuses.len() > 0 && revocation::is_revoked(statuses[0]);
            let ca = exists|i: int|
                1 <= i < statuses.len() && revocation::is_revoked(#[trigger] statuses[i]);
            let good = statuses.len() > 0 && statuses[0] == Some(OcspStatus::Good);
            &&& (s is LeafRevoked || s is LeafAndCaRevoked) == leaf
            &&& (s is CaRevoked || s is LeafAndCaRevoked) == ca
            &&& s is NotRevoked == (good && !ca)
            &&& s is Skipped == (!leaf && !ca && !good)
            &&& s.blocking() == (leaf || ca)
            &&& !(s is NotChecked)
        }),
{
}

/// The recorded statuses follow the status of the chain: a revoked leaf is the
/// failure `signingCredential.ocsp.revoked`, a revoked CA the failure
/// `signingCredential.untrusted`, an unrevoked leaf a success, and an open check
/// an informational status; nothing else is recorded.
pub proof fn revocation_is_recorded_by_its_codes(s: EmbeddedOcspStatus, url: Seq<char>, r: Results)
    requires
        !r.failed(SIGNING_CREDENTIAL_OCSP_REVOKED@),
        !r.failed(SIGNING_CREDENTIAL_UNTRUSTED@),
        !r.succeeded(SIGNING_CREDENTIAL_OCSP_NOT_REVOKED@),
    ensures
        ({
            let after = after_ocsp(s, url, r);
            let leaf = s is LeafRevoked || s is LeafAndCaRevoked;
            let ca = s is CaRevoked || s is LeafAndCaRevoked;
            &&& after.failed(SIGNING_CREDENTIAL_OCSP_REVOKED@) == leaf
            &&& after.failed(SIGNING_CREDENTIAL_UNTRUSTED@) == ca
            &&& after.succeeded(SIGNING_CREDENTIAL_OCSP_NOT_REVOKED@) == s is NotRevoked
            &&& s is NotChecked || s is Skipped ==> after.informed(SIGNING_CREDENTIAL_OCSP_SKIPPED@)
            &&& (after.failure == r.failure) == !s.blocking()
        }),
{
    reveal_strlit("signingCredential.ocsp.revoked");
    reveal_strlit("signingCredential.untrusted");
    assert(SIGNING_CREDENTIAL_OCSP_REVOKED@.len() != SIGNING_CREDENTIAL_UNTRUSTED@.len());
    let after = after_ocsp(s, url, r);
    let f = r.failure.len() as int;
    match s {
        EmbeddedOcspStatus::NotRevoked => {
            assert(after.success[r.success.len() as int].code
                == SIGNING_CREDENTIAL_OCSP_NOT_REVOKED@);
        },
        EmbeddedOcspStatus::LeafRevoked => {
            assert(after.failure[f].code == SIGNING_CREDENTIAL_OCSP_REVOKED@);
            assert(after.failure.len() == f + 1);
        },
        EmbeddedOcspStatus::CaRevoked => {
            assert(after.failure[f].code == SIGNING_CREDENTIAL_UNTRUSTED@);
            assert(after.failure.len() == f + 1);
        },
        EmbeddedOcspStatus::LeafAndCaRevoked => {
            assert(after.failure[f].code == SIGNING_CREDENTIAL_OCSP_REVOKED@);
            assert(after.failure[f + 1].code == SIGNING_CREDENTIAL_UNTRUSTED@);
            assert(after.failure.len() == f + 2);
        },
        _ => {
            assert(after.informational[r.informational.len() as int].code
                == SIGNING_CREDENTIAL_OCSP_SKIPPED@);
        },
    }
    assert forall|i: int| 0 <= i < f implies after.failure[i] == #[trigger] r.failure[i] by {}
    assert forall|i: int| 0 <= i < r.success.len() implies after.success[i]
        == #[trigger] r.success[i] by {}
    if after.failed(SIGNING_CREDENTIAL_OCSP_REVOKED@) {
        let i = choose|i: int|
            0 <= i < after.failure.len() && (#[trigger] after.failure[i]).code
                == SIGNING_CREDENTIAL_OCSP_REVOKED@;
        if i < f {
            assert(r.failure[i].code == SIGNING_CREDENTIAL_OCSP_REVOKED@);
        }
    }
    if after.failed(SIGNING_CREDENTIAL_UNTRUSTED@) {
        let i = choose|i: int|
            0 <= i < after.failure.len() && (#[trigger] after.failure[i]).code
                == SIGNING_CREDENTIAL_UNTRUSTED@;
        if i < f {
            assert(r.failure[i].code == SIGNING_CREDENTIAL_UNTRUSTED@);
        }
    }
    if after.succeeded(SIGNING_CREDENTIAL_OCSP_NOT_REVOKED@) {
        let i = choose|i: int|
            0 <= i < after.success.len() && (#[trigger] after.success[i]).code
                == SIGNING_CREDENTIAL_OCSP_NOT_REVOKED@;
        if i < r.success.len() {
            assert(r.success[i].code == SIGNING_CREDENTIAL_OCSP_NOT_REVOKED@);
        }
    }
}

/// The pairs lead from the leaf upwards, each subject the issuer before it.
pub open spec fn climbs(pool: CertificatePool, pairs: Seq<(usize, usize)>) -> bool {
    &&& pairs.len() > 0 ==> pairs[0].0 == 0
    &&& forall|i: int|
        0 <= i < pairs.len() ==> {
            &&& pool.issuers@[(#[trigger] pairs[i]).0 as int] == Some(pairs[i].1)
            &&& pool.certificates@[pairs[i].1 as int]@ != pool.certificates@[pairs[i].0 as int]@
        }
    &&& forall|i: int| 0 < i < pairs.len() ==> (#[trigger] pairs[i]).0 == pairs[i - 1].1
    &&& forall|i: int|
        0 <= i < pairs.len() - 1 ==> !pool.is_anchor(
            pool.certificates@[(#[trigger] pairs[i]).1 as int]@,
        )
}

proof fn lemma_climbs(
    pool: CertificatePool,
    subject: usize,
    left: nat,
    pairs: Seq<(usize, usize)>,
)
    requires
        climbs(pool, pairs),
        pairs.len() == 0 ==> subject == 0,
        pairs.len() > 0 ==> pairs.last().1 == subject && !pool.is_anchor(
            pool.certificates@[subject as int]@,
        ),
    ensures
        ({
            let all = pairs_from(pool, subject, left, pairs);
            &&& climbs(pool, all)
            &&& all.len() <= pairs.len() + left
            &&& all.len() >= pairs.len()
            &&& all.len() < pairs.len() + left ==> ({
                let top = if all.len() > 0 {
                    all.last().1
                } else {
                    subject
                };
                ||| all.len() > 0 && pool.is_anchor(pool.certificates@[top as int]@)
                ||| pool.issuers@[top as int] is None
                ||| pool.certificates@[pool.issuers@[top as int]->0 as int]@
                    == pool.certificates@[top as int]@
                ||| pool.seen_subject(all, pool.issuers@[top as int]->0 as int)
            })
        }),
    decreases left,
{
    if left > 0 {
        if let Some(j) = pool.issuers@[subject as int] {
            if pool.certificates@[j as int]@ != pool.certificates@[subject as int]@
                && !pool.seen_subject(pairs, j as int) {
                let next = pairs.push((subject, j));
                assert forall|i: int| 0 < i < next.len() implies (#[trigger] next[i]).0 == next[i
                    - 1].1 by {
                    if i == pairs.len() {
                        assert(next[i - 1] == pairs.last());
                    }
                }
                assert forall|i: int| 0 <= i < next.len() - 1 implies !pool.is_anchor(
                    pool.certificates@[(#[trigger] next[i]).1 as int]@,
                ) by {
                    if i == pairs.len() - 1 {
                        assert(next[i] == pairs.last());
                    }
                }
                assert(climbs(pool, next));
                if !pool.is_anchor(pool.certificates@[j as int]@) {
                    lemma_climbs(pool, j, (left - 1) as nat, next);
                }
            }
        }
    }
}

/// Revocation is evaluated along the chain: the pairs begin with the leaf, each
/// holds a certificate and its issuer, each goes on from the issuer before it,
/// and none goes on above a trust anchor. Where there are fewer than the limit
/// they end at an anchor, at a certificate without a known issuer, at one that
/// issued itself, or where the chain would turn back on itself.
pub proof fn revocation_follows_the_chain(pool: CertificatePool)
    requires
        0 < pool.chain_len <= MAX_EMBEDDED_OCSP_CHAIN_CERTIFICATES,
    ensures
        chain_pairs(pool) is Some,
        climbs(pool, chain_pairs(pool)->0),
        chain_pairs(pool)->0.len() <= MAX_EMBEDDED_OCSP_CHAIN_CERTIFICATES,
        chain_pairs(pool)->0.len() < MAX_EMBEDDED_OCSP_CHAIN_CERTIFICATES ==> ({
            let pairs = chain_pairs(pool)->0;
            let top = if pairs.len() > 0 {
                pairs.last().1
            } else {
                0usize
            };
            ||| pairs.len() > 0 && pool.is_anchor(pool.certificates@[top as int]@)
            ||| pool.issuers@[top as int] is None
            ||| pool.certificates@[pool.issuers@[top as int]->0 as int]@
                == pool.certificates@[top as int]@
            ||| pool.seen_subject(pairs, pool.issuers@[top as int]->0 as int)
        }),
{
    lemma_climbs(pool, 0, MAX_EMBEDDED_OCSP_CHAIN_CERTIFICATES as nat, Seq::empty());
}

proof fn lemma_responses_kept(values: Seq<Value>, i: int, s: Scan, x: Seq<u8>)
    requires
        0 <= i,
        !walk_responses(values, i, s).budget.rejected,
        s.visited.contains(x) || exists|j: int|
            i <= j < values.len() && value::bytes_of(Some(#[trigger] values[j])) == Some(x),
    ensures
        walk_responses(values, i, s).visited.contains(x),
    decreases values.len() - i,
{
    if i < values.len() {
        let a = s.with_node();
        assert(a.visited == s.visited);
        match value::bytes_of(Some(values[i])) {
            Some(response) => {
                let b = a.with_response(response);
                assert(b.visited == a.visited.push(response));
                assert(b.visited[a.visited.len() as int] == response);
                if s.visited.contains(x) {
                    let k = choose|k: int| 0 <= k < s.visited.len() && s.visited[k] == x;
                    assert(b.visited[k] == x);
                } else {
                    let j = choose|j: int|
                        i <= j < values.len() && value::bytes_of(Some(#[trigger] values[j]))
                            == Some(x);
                    if j > i {
                        assert(value::bytes_of(Some(values[j])) == Some(x));
                    }
                }
                lemma_responses_kept(values, i + 1, b, x);
            },
            None => {
                if !s.visited.contains(x) {
                    let j = choose|j: int|
                        i <= j < values.len() && value::bytes_of(Some(#[trigger] values[j]))
                            == Some(x);
                    assert(value::bytes_of(Some(values[j])) == Some(x));
                }
                lemma_responses_kept(values, i + 1, a, x);
            },
        }
    }
}

/// `v` carries the response `x` under an `ocspVals` key, at most `left` levels
/// down.
pub open spec fn carries(v: Value, left: nat, x: Seq<u8>) -> bool
    decreases left,
{
    left > 0 && match v {
        Value::Dict(entries) => exists|i: int|
            0 <= i < entries@.len() && (if value::is_text(
                (#[trigger] entries@[i]).0,
                "ocspVals"@,
            ) {
                value::items_of(Some(entries@[i].1)) matches Some(values) && exists|j: int|
                    0 <= j < values.len() && value::bytes_of(Some(#[trigger] values[j])) == Some(x)
            } else {
                carries(entries@[i].1, (left - 1) as nat, x)
            }),
        Value::Array(items) => exists|i: int|
            0 <= i < items@.len() && carries(#[trigger] items@[i], (left - 1) as nat, x),
        _ => false,
    }
}

proof fn lemma_value_kept(v: Value, depth: nat, s: Scan, x: Seq<u8>)
    requires
        !walk_value(v, depth, s).budget.rejected,
        s.visited.contains(x) || (depth <= MAX_EMBEDDED_OCSP_COLLECTION_DEPTH && carries(
            v,
            (MAX_EMBEDDED_OCSP_COLLECTION_DEPTH + 1 - depth) as nat,
            x,
        )),
    ensures
        walk_value(v, depth, s).visited.contains(x),
    decreases MAX_EMBEDDED_OCSP_COLLECTION_DEPTH + 1 - depth, 1nat, 0int,
{
    if depth <= MAX_EMBEDDED_OCSP_COLLECTION_DEPTH {
        let a = s.with_node();
        assert(a.visited == s.visited);
        match v {
            Value::Dict(entries) => {
                lemma_entries_kept(entries@, 0, depth, a, x);
            },
            Value::Array(items) => {
                lemma_items_kept(items@, 0, depth, a, x);
            },
            _ => {},
        }
    }
}

proof fn lemma_entries_kept(
    entries: Seq<(Value, Value)>,
    i: int,
    depth: nat,
    s: Scan,
    x: Seq<u8>,
)
    requires
        0 <= i,
        depth <= MAX_EMBEDDED_OCSP_COLLECTION_DEPTH,
        !walk_entries(entries, i, depth, s).budget.rejected,
        s.visited.contains(x) || exists|k: int|
            i <= k < entries.len() && (if value::is_text((#[trigger] entries[k]).0, "ocspVals"@) {
                value::items_of(Some(entries[k].1)) matches Some(values) && exists|j: int|
                    0 <= j < values.len() && value::bytes_of(Some(#[trigger] values[j])) == Some(x)
            } else {
                carries(
                    entries[k].1,
                    (MAX_EMBEDDED_OCSP_COLLECTION_DEPTH - depth) as nat,
                    x,
                )
            }),
    ensures
        walk_entries(entries, i, depth, s).visited.contains(x),
    decreases MAX_EMBEDDED_OCSP_COLLECTION_DEPTH + 1 - depth, 0nat, entries.len() - i,
{
    if i < entries.len() && !s.budget.rejected {
        let e = entries[i];
        let next = if value::is_text(e.0, "ocspVals"@) {
            walk_ocsp_vals(e.1, s)
        } else {
            walk_value(e.1, depth + 1, s)
        };
        lemma_entries_rejected(entries, i + 1, depth, next);
        let here = if value::is_text(e.0, "ocspVals"@) {
            value::items_of(Some(e.1)) matches Some(values) && exists|j: int|
                0 <= j < values.len() && value::bytes_of(Some(#[trigger] values[j])) == Some(x)
        } else {
            carries(e.1, (MAX_EMBEDDED_OCSP_COLLECTION_DEPTH - depth) as nat, x)
        };
        if s.visited.contains(x) || here {
            if value::is_text(e.0, "ocspVals"@) {
                let a = s.with_node();
                assert(a.visited == s.visited);
                if let Some(values) = value::items_of(Some(e.1)) {
                    lemma_responses_kept(values, 0, a, x);
                }
            } else if depth < MAX_EMBEDDED_OCSP_COLLECTION_DEPTH || s.visited.contains(x) {
                lemma_value_kept(e.1, depth + 1, s, x);
            }
            assert(next.visited.contains(x));
        } else {
            let k = choose|k: int|
                i <= k < entries.len() && (if value::is_text(
                    (#[trigger] entries[k]).0,
                    "ocspVals"@,
                ) {
                    value::items_of(Some(entries[k].1)) matches Some(values) && exists|j: int|
                        0 <= j < values.len() && value::bytes_of(Some(#[trigger] values[j]))
                            == Some(x)
                } else {
                    carries(
                        entries[k].1,
                        (MAX_EMBEDDED_OCSP_COLLECTION_DEPTH - depth) as nat,
                        x,
                    )
                });
            assert(k > i);
            assert(entries[k] == entries[k]);
        }
        lemma_entries_kept(entries, i + 1, depth, next, x);
    }
}

proof fn lemma_entries_rejected(entries: Seq<(Value, Value)>, i: int, depth: nat, s: Scan)
    ensures
        s.budget.rejected ==> walk_entries(entries, i, depth, s).budget.rejected,
{
}

proof fn lemma_items_kept(items: Seq<Value>, i: int, depth: nat, s: Scan, x: Seq<u8>)
    requires
        0 <= i,
        depth <= MAX_EMBEDDED_OCSP_COLLECTION_DEPTH,
        !walk_items(items, i, depth, s).budget.rejected,
        s.visited.contains(x) || exists|k: int|
            i <= k < items.len() && carries(
                #[trigger] items[k],
                (MAX_EMBEDDED_OCSP_COLLECTION_DEPTH - depth) as nat,
                x,
            ),
    ensures
        walk_items(items, i, depth, s).visited.contains(x),
    decreases MAX_EMBEDDED_OCSP_COLLECTION_DEPTH + 1 - depth, 0nat, items.len() - i,
{
    if i < items.len() && !s.budget.rejected {
        let next = walk_value(items[i], depth + 1, s);
        assert(next.budget.rejected ==> walk_items(items, i + 1, depth, next).budget.rejected);
        let left = (MAX_EMBEDDED_OCSP_COLLECTION_DEPTH - depth) as nat;
        if s.visited.contains(x) || carries(items[i], left, x) {
            lemma_value_kept(items[i], depth + 1, s, x);
        } else {
            let k = choose|k: int| i <= k < items.len() && carries(#[trigger] items[k], left, x);
            assert(k > i);
            assert(carries(items[k], left, x));
        }
        lemma_items_kept(items, i + 1, depth, next, x);
    }
}

/// Within its bounds a walk misses no response: every byte string that stands in
/// an `ocspVals` list, however the list is nested in the evidence down to the
/// depth limit, is visited.
pub proof fn walks_visit_every_response(v: Value, s: Scan, x: Seq<u8>)
    requires
        !walk_value(v, 0, s).budget.rejected,
        carries(v, (MAX_EMBEDDED_OCSP_COLLECTION_DEPTH + 1) as nat, x),
    ensures
        walk_value(v, 0, s).visited.contains(x),
{
    lemma_value_kept(v, 0, s, x);
}

/// The payload is that of a certificate-status assertion which the claim of its
/// manifest declares by a complete reference under a supported algorithm.
pub open spec fn declared_evidence(p: Payload, m: ParsedManifest) -> bool {
    exists|i: int, j: int|
        #![trigger claim_refs::field_candidates(m.claim->0.value->0, m.generation)[i], m.assertions@[j]]
        {
            let claim = m.claim->0.value->0;
            let candidates = claim_refs::field_candidates(claim, m.generation);
            let reference = candidates[i].1;
            &&& m.claim is Some
            &&& m.claim->0.value is Some
            &&& 0 <= i < candidates.len()
            &&& 0 <= j < m.assertions@.len()
            &&& m.assertions@[j].payload == p
            &&& status_label(m.assertions@[j].label@)
            &&& claim_refs::resolved_label(reference, m.label@) == Some(m.assertions@[j].label@)
            &&& reference.bytes_field("hash"@) is Some
            &&& labels::algorithm_for(reference, claim) is Some
            &&& hash::algorithm_named(labels::algorithm_for(reference, claim)->0) is Some
        }
}

proof fn lemma_evidence(
    refs: Seq<(claim_refs::RefField, Value)>,
    k: int,
    claim: Value,
    m: ParsedManifest,
)
    requires
        0 <= k <= refs.len(),
        m.claim is Some,
        m.claim->0.value == Some(claim),
        refs == claim_refs::field_candidates(claim, m.generation),
    ensures
        forall|t: int|
            0 <= t < payloads_among(refs, k, claim, m).len() ==> declared_evidence(
                #[trigger] payloads_among(refs, k, claim, m)[t],
                m,
            ),
    decreases k,
{
    if k > 0 {
        lemma_evidence(refs, k - 1, claim, m);
        let before = payloads_among(refs, k - 1, claim, m);
        let after = payloads_among(refs, k, claim, m);
        assert forall|t: int| 0 <= t < after.len() implies declared_evidence(
            #[trigger] after[t],
            m,
        ) by {
            if t < before.len() {
                assert(after[t] == before[t]);
            } else {
                let reference = refs[k - 1].1;
                let label = claim_refs::resolved_label(reference, m.label@)->0;
                crate::manifest::lookups_find_the_labelled_box(
                    m.assertions@,
                    m.assertion_jumbf@,
                    label,
                );
                let p = after[t];
                let j = choose|j: int|
                    0 <= j < m.assertions@.len() && (#[trigger] m.assertions@[j]).label@ == label
                        && m.assertions@[j].payload == p;
                assert(claim_refs::field_candidates(claim, m.generation)[k - 1] == refs[k - 1]);
                assert(m.assertions@[j].payload == p);
            }
        }
    }
}

/// Revocation evidence is taken from signed declarations alone: every payload that
/// a manifest contributes is that of a certificate-status assertion which its
/// claim declares.
pub proof fn evidence_comes_from_declared_assertions(m: ParsedManifest, t: int)
    requires
        0 <= t < declared_payloads(m).len(),
    ensures
        declared_evidence(declared_payloads(m)[t], m),
{
    let claim = m.claim->0.value->0;
    let refs = claim_refs::field_candidates(claim, m.generation);
    lemma_evidence(refs, refs.len() as int, claim, m);
}

} // verus!
