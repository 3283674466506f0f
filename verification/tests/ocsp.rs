use c2pa_validate::manifest::{AssertionBox, ParsedManifest, Payload};
use c2pa_validate::ocsp::{
    certificate_status_payloads, embedded_ocsp_status_from_certificate_statuses,
    evaluate_embedded_ocsp, ocsp_chain_pairs, record_embedded_ocsp_status,
    scan_embedded_ocsp_evidence, CertificatePool, EmbeddedOcspStatus,
    MAX_CERTIFICATE_STATUS_ASSERTIONS, MAX_EMBEDDED_OCSP_CHAIN_CERTIFICATES,
    MAX_EMBEDDED_OCSP_COLLECTION_DEPTH, MAX_EMBEDDED_OCSP_COLLECTION_NODES,
    MAX_EMBEDDED_OCSP_RESPONSES, MAX_EMBEDDED_OCSP_TOTAL_BYTES,
};
use c2pa_validate::profile::ClaimGeneration;
use c2pa_validate::revocation::OcspStatus;
use c2pa_validate::status::{
    ValidationResults, SIGNING_CREDENTIAL_OCSP_NOT_REVOKED, SIGNING_CREDENTIAL_OCSP_REVOKED,
    SIGNING_CREDENTIAL_OCSP_SKIPPED, SIGNING_CREDENTIAL_UNTRUSTED,
};
use c2pa_validate::value::Value;

const MAX_OCSP_RESPONSE_BYTES: usize = 262_144;

fn vmap(fields: Vec<(&str, Value)>) -> Value {
    Value::Dict(
        fields
            .into_iter()
            .map(|(key, value)| (Value::Text(key.to_string()), value))
            .collect(),
    )
}

fn text(s: &str) -> Value {
    Value::Text(s.to_string())
}

fn head(major: u8, n: u64, out: &mut Vec<u8>) {
    let m = major << 5;
    if n < 24 {
        out.push(m | n as u8);
    } else if n <= 0xff {
        out.push(m | 24);
        out.push(n as u8);
    } else if n <= 0xffff {
        out.push(m | 25);
        out.extend_from_slice(&(n as u16).to_be_bytes());
    } else if n <= 0xffff_ffff {
        out.push(m | 26);
        out.extend_from_slice(&(n as u32).to_be_bytes());
    } else {
        out.push(m | 27);
        out.extend_from_slice(&n.to_be_bytes());
    }
}

fn write_item(v: &Value, out: &mut Vec<u8>) -> usize {
    match v {
        Value::Integer(n) => {
            if *n >= 0 {
                head(0, *n as u64, out);
            } else {
                head(1, (-1 - *n) as u64, out);
            }
            1
        }
        Value::Bytes(b) => {
            head(2, b.len() as u64, out);
            out.extend_from_slice(b);
            1
        }
        Value::Text(t) => {
            head(3, t.len() as u64, out);
            out.extend_from_slice(t.as_bytes());
            1
        }
        Value::Array(items) => {
            head(4, items.len() as u64, out);
            let mut n = 1;
            for item in items {
                n += write_item(item, out);
            }
            n
        }
        Value::Dict(entries) => {
            head(5, entries.len() as u64, out);
            let mut n = 1;
            for (k, v) in entries {
                n += write_item(k, out);
                n += write_item(v, out);
            }
            n
        }
        Value::Tag(tag, inner) => {
            head(6, *tag, out);
            1 + write_item(inner, out)
        }
        Value::Bool(b) => {
            out.push(if *b { 0xf5 } else { 0xf4 });
            1
        }
        Value::Null => {
            out.push(0xf6);
            1
        }
        Value::Float(bits, _) => {
            out.push(0xfb);
            out.extend_from_slice(&bits.to_be_bytes());
            1
        }
    }
}

/// The value encoded, with the number of data items that it holds.
fn payload(v: Value) -> Payload {
    let mut bytes = Vec::new();
    let nodes = write_item(&v, &mut bytes);
    Payload { bytes, nodes, value: Some(v) }
}

fn ocsp_values(values: &[&[u8]]) -> Value {
    vmap(vec![(
        "ocspVals",
        Value::Array(values.iter().map(|v| Value::Bytes(v.to_vec())).collect()),
    )])
}

#[test]
fn embedded_ocsp_visitor_preserves_rvals_and_assertion_order_without_cloning() {
    let staples = [b"rval-1".to_vec(), b"rval-2".to_vec()];
    let first = payload(vmap(vec![("revocationValues", ocsp_values(&[b"assertion-1"]))]));
    let second = payload(ocsp_values(&[b"assertion-2"]));
    let assertions = vec![&first, &second];
    let (evidence, visited) =
        scan_embedded_ocsp_evidence(&staples, &assertions, MAX_OCSP_RESPONSE_BYTES);
    assert!(!evidence.rejected);
    assert_eq!(evidence.responses, 4);
    assert_eq!(
        visited,
        vec![
            b"rval-1".as_slice(),
            b"rval-2".as_slice(),
            b"assertion-1".as_slice(),
            b"assertion-2".as_slice(),
        ]
    );
}

#[test]
fn embedded_ocsp_limits_accept_boundaries_and_reject_excess_before_evaluation() {
    let none: Vec<&Payload> = Vec::new();
    let scan = |staples: &[Vec<u8>]| {
        let (budget, visited) =
            scan_embedded_ocsp_evidence(staples, &none, MAX_OCSP_RESPONSE_BYTES);
        (budget.rejected, budget.responses, budget.total_bytes, visited.len())
    };
    let at_limit: Vec<Vec<u8>> =
        (0..MAX_EMBEDDED_OCSP_RESPONSES).map(|index| vec![index as u8]).collect();
    let (rejected, responses, _, visits) = scan(&at_limit);
    assert!(!rejected);
    assert_eq!(responses, MAX_EMBEDDED_OCSP_RESPONSES);
    assert_eq!(visits, MAX_EMBEDDED_OCSP_RESPONSES);

    let over_limit: Vec<Vec<u8>> =
        (0..=MAX_EMBEDDED_OCSP_RESPONSES).map(|index| vec![index as u8]).collect();
    let (rejected, _, _, visits) = scan(&over_limit);
    assert!(rejected);
    assert_eq!(visits, 0);

    let (rejected, _, total, visits) = scan(&[vec![0; MAX_OCSP_RESPONSE_BYTES]]);
    assert!(!rejected);
    assert_eq!(total, MAX_OCSP_RESPONSE_BYTES);
    assert_eq!(visits, 1);

    assert_eq!(MAX_EMBEDDED_OCSP_TOTAL_BYTES % MAX_OCSP_RESPONSE_BYTES, 0);
    let count = MAX_EMBEDDED_OCSP_TOTAL_BYTES / MAX_OCSP_RESPONSE_BYTES;
    let responses: Vec<Vec<u8>> =
        (0..count).map(|_| vec![0; MAX_OCSP_RESPONSE_BYTES]).collect();
    let (rejected, _, total, _) = scan(&responses);
    assert!(!rejected);
    assert_eq!(total, MAX_EMBEDDED_OCSP_TOTAL_BYTES);

    let (rejected, _, _, visits) = scan(&[vec![0; MAX_OCSP_RESPONSE_BYTES + 1]]);
    assert!(rejected);
    assert_eq!(visits, 0);

    let response_bytes = MAX_EMBEDDED_OCSP_TOTAL_BYTES / 5 + 1;
    assert!(response_bytes <= MAX_OCSP_RESPONSE_BYTES);
    let responses: Vec<Vec<u8>> = (0..5).map(|_| vec![0; response_bytes]).collect();
    let (rejected, _, _, _) = scan(&responses);
    assert!(rejected);

    let mut too_deep = ocsp_values(&[b"hidden"]);
    for _ in 0..=MAX_EMBEDDED_OCSP_COLLECTION_DEPTH {
        too_deep = Value::Array(vec![too_deep]);
    }
    let deep = payload(too_deep);
    let (evidence, _) =
        scan_embedded_ocsp_evidence(&[], &vec![&deep], MAX_OCSP_RESPONSE_BYTES);
    assert!(evidence.rejected);

    let wide = payload(Value::Array(
        (0..=MAX_EMBEDDED_OCSP_COLLECTION_NODES).map(|_| Value::Null).collect(),
    ));
    let (evidence, _) =
        scan_embedded_ocsp_evidence(&[], &vec![&wide], MAX_OCSP_RESPONSE_BYTES);
    assert!(evidence.rejected);
}

fn revoked() -> OcspStatus {
    OcspStatus::Revoked { revocation_time: 0, reason: None }
}

#[test]
fn leaf_and_ca_revocation_emit_distinct_c2pa_status_codes() {
    let good = OcspStatus::Good;
    let cases = [
        (
            vec![Some(revoked()), Some(good)],
            EmbeddedOcspStatus::LeafRevoked,
            true,
            false,
            1usize,
        ),
        (
            vec![Some(good), Some(revoked())],
            EmbeddedOcspStatus::CaRevoked,
            false,
            true,
            1usize,
        ),
        (
            vec![Some(revoked()), Some(revoked())],
            EmbeddedOcspStatus::LeafAndCaRevoked,
            true,
            true,
            2usize,
        ),
    ];
    for (statuses, expected_status, leaf_revoked, ca_untrusted, failure_count) in cases {
        let status = embedded_ocsp_status_from_certificate_statuses(&statuses);
        assert!(status == expected_status);
        let mut results = ValidationResults::new();
        record_embedded_ocsp_status(status, "self#jumbf=/c2pa/test", &mut results);
        assert_eq!(results.has_failure(SIGNING_CREDENTIAL_OCSP_REVOKED), leaf_revoked);
        assert_eq!(results.has_failure(SIGNING_CREDENTIAL_UNTRUSTED), ca_untrusted);
        assert_eq!(results.failure.len(), failure_count);
        assert!(status.blocks_trust());
    }
}

fn merged(statuses: [Option<OcspStatus>; 2]) -> Option<OcspStatus> {
    statuses.into_iter().fold(None, OcspStatus::merge)
}

#[test]
fn good_before_revoked_evidence_blocks_trust() {
    let status = merged([Some(OcspStatus::Good), Some(revoked())]);
    assert!(matches!(status, Some(OcspStatus::Revoked { .. })));
    assert!(
        embedded_ocsp_status_from_certificate_statuses(&[status])
            == EmbeddedOcspStatus::LeafRevoked
    );
}

#[test]
fn revoked_before_good_evidence_blocks_trust() {
    let status = merged([Some(revoked()), Some(OcspStatus::Good)]);
    assert!(matches!(status, Some(OcspStatus::Revoked { .. })));
    assert!(
        embedded_ocsp_status_from_certificate_statuses(&[status])
            == EmbeddedOcspStatus::LeafRevoked
    );
}

fn hashed_uri_for_assertion(label: &str) -> Value {
    vmap(vec![
        ("url", text(&format!("self#jumbf=c2pa.assertions/{label}"))),
        ("alg", text("sha256")),
        ("hash", Value::Bytes(vec![0; 32])),
    ])
}

fn manifest(label: &str, claim: Value, assertions: Vec<AssertionBox>) -> ParsedManifest {
    ParsedManifest {
        label: label.to_string(),
        manifest_jumbf: Vec::new(),
        assertions,
        assertion_jumbf: Vec::new(),
        claim: Some(payload(claim)),
        signature_cose: None,
        claim_count: 1,
        claim_box_label: Some("c2pa.claim.v2".to_string()),
        generation: ClaimGeneration::V2,
    }
}

fn claim(id: &str, references: Vec<Value>) -> Value {
    vmap(vec![("instanceID", text(id)), ("created_assertions", Value::Array(references))])
}

fn status_box(label: &str, values: &[&[u8]]) -> AssertionBox {
    AssertionBox { label: label.to_string(), payload: payload(ocsp_values(values)) }
}

#[test]
fn store_wide_declared_sibling_status_survives_unrelated_malformed_reference() {
    let active = manifest("urn:c2pa:active", claim("xmp:iid:active", Vec::new()), Vec::new());
    let sibling = manifest(
        "urn:c2pa:sibling",
        claim(
            "xmp:iid:sibling",
            vec![
                hashed_uri_for_assertion("c2pa.certificate-status"),
                vmap(vec![("url", text("self#jumbf=c2pa.assertions/com.example.unrelated"))]),
            ],
        ),
        vec![
            status_box("c2pa.certificate-status", &[b"sibling-revoked"]),
            AssertionBox {
                label: "com.example.unrelated".to_string(),
                payload: Payload { bytes: vec![0xff], nodes: 0, value: None },
            },
        ],
    );
    let manifests = [active, sibling];
    let view = certificate_status_payloads(&manifests);
    assert!(!view.rejected);
    assert_eq!(view.payloads.len(), 1);
    assert_eq!(view.payloads[0].bytes, payload(ocsp_values(&[b"sibling-revoked"])).bytes);

    let (evidence, visited) =
        scan_embedded_ocsp_evidence(&[], &view.payloads, MAX_OCSP_RESPONSE_BYTES);
    assert!(!evidence.rejected);
    assert_eq!(visited, vec![b"sibling-revoked".as_slice()]);
}

#[test]
fn store_wide_status_excludes_undeclared_and_cross_manifest_sources() {
    let undeclared = manifest(
        "urn:c2pa:undeclared",
        claim("xmp:iid:empty", Vec::new()),
        vec![status_box("c2pa.certificate-status", &[])],
    );
    let cross = manifest(
        "urn:c2pa:cross",
        claim(
            "xmp:iid:cross",
            vec![vmap(vec![
                (
                    "url",
                    text("self#jumbf=/c2pa/urn:c2pa:other/c2pa.assertions/c2pa.certificate-status"),
                ),
                ("alg", text("sha256")),
                ("hash", Value::Bytes(vec![0; 32])),
            ])],
        ),
        vec![status_box("c2pa.certificate-status", &[])],
    );
    let manifests = [undeclared, cross];
    let view = certificate_status_payloads(&manifests);
    assert!(!view.rejected);
    assert!(view.payloads.is_empty());
}

#[test]
fn store_wide_status_count_is_capped_before_payload_collection() {
    let labels: Vec<String> = (0..=MAX_CERTIFICATE_STATUS_ASSERTIONS)
        .map(|index| {
            if index == 0 {
                "c2pa.certificate-status".to_string()
            } else {
                format!("c2pa.certificate-status__{index}")
            }
        })
        .collect();
    let m = manifest(
        "urn:c2pa:status-cap",
        claim(
            "xmp:iid:status-cap",
            labels.iter().map(|label| hashed_uri_for_assertion(label)).collect(),
        ),
        labels.iter().map(|label| status_box(label, &[])).collect(),
    );
    let manifests = [m];
    let view = certificate_status_payloads(&manifests);
    assert!(view.rejected);
    assert!(view.payloads.is_empty());
}

fn pool(n: usize, issuers: Vec<Option<usize>>, chain_len: usize) -> CertificatePool {
    CertificatePool {
        certificates: (0..n).map(|i| vec![i as u8]).collect(),
        chain_len,
        issuers,
    }
}

#[test]
fn the_chain_runs_from_the_leaf_to_an_anchor() {
    let anchored = pool(3, vec![Some(1), Some(2), Some(2)], 2);
    assert_eq!(ocsp_chain_pairs(&anchored), Some(vec![(0, 1), (1, 2)]));
    let dangling = pool(2, vec![Some(1), None], 2);
    assert_eq!(ocsp_chain_pairs(&dangling), Some(vec![(0, 1)]));
    let looped = pool(2, vec![Some(1), Some(0)], 2);
    assert_eq!(ocsp_chain_pairs(&looped), Some(vec![(0, 1)]));
    let n = MAX_EMBEDDED_OCSP_CHAIN_CERTIFICATES + 1;
    let long = pool(n, vec![None; n], n);
    assert_eq!(ocsp_chain_pairs(&long), None);
}

#[test]
fn evidence_is_evaluated_within_its_bounds_only() {
    let chain = pool(2, vec![Some(1), None], 1);
    let none: Vec<&Payload> = Vec::new();
    let staples = [vec![1u8], vec![2u8]];
    let verdicts = [vec![Some(OcspStatus::Good)], vec![Some(revoked())]];
    let at = |posture: bool| {
        evaluate_embedded_ocsp(
            &staples,
            &none,
            MAX_OCSP_RESPONSE_BYTES,
            &chain,
            &verdicts,
            posture,
        )
    };
    assert_eq!(at(false), (EmbeddedOcspStatus::LeafRevoked, false));
    assert_eq!(at(true), (EmbeddedOcspStatus::NotRevoked, true));
    let too_large = evaluate_embedded_ocsp(&staples, &none, 0, &chain, &verdicts, false);
    assert_eq!(too_large, (EmbeddedOcspStatus::Skipped, false));
    let unasked = evaluate_embedded_ocsp(&[], &none, 10, &chain, &[], false);
    assert_eq!(unasked, (EmbeddedOcspStatus::NotChecked, false));
}

#[test]
fn every_status_is_recorded() {
    let record = |s: EmbeddedOcspStatus| {
        let mut results = ValidationResults::new();
        record_embedded_ocsp_status(s, "url", &mut results);
        results
    };
    assert!(record(EmbeddedOcspStatus::NotRevoked).has_success(SIGNING_CREDENTIAL_OCSP_NOT_REVOKED));
    for s in [EmbeddedOcspStatus::Skipped, EmbeddedOcspStatus::NotChecked] {
        assert!(record(s).has_informational(SIGNING_CREDENTIAL_OCSP_SKIPPED));
        assert!(!s.blocks_trust());
    }
    assert_eq!(EmbeddedOcspStatus::LeafAndCaRevoked.as_str(), "leaf_and_ca_revoked");
}
