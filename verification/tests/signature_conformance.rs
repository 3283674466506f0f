use c2pa_validate::binding::AssetFacts;
use c2pa_validate::bmff::{BmffFacts, DigestReport};
use c2pa_validate::boxes::SpanReport;
use c2pa_validate::collection::ZipFacts;
use c2pa_validate::credential::{
    ChainVerdict, ClaimTimestampVersion, CredentialFacts, SignatureCheck, TimestampFacts,
    TimestampHeader, TimestampVerification,
};
use c2pa_validate::hash::hash_bytes;
use c2pa_validate::json::Json;
use c2pa_validate::manifest::{AssertionBox, AssetFormat, ParsedManifest, Payload, StoreContext};
use c2pa_validate::multi_asset::MultiAssetFacts;
use c2pa_validate::network_needs::NetworkNeed;
use c2pa_validate::ocsp::CertificatePool;
use c2pa_validate::online::{OcspQuery, OnlineAnswer, OnlineFacts};
use c2pa_validate::output::{VerifyOutput, VersionVerdict, MAX_REPORT_DECODED_VALUE_NODES};
use c2pa_validate::pipeline::{
    verify_manifest, IdentityFacts, ManifestFacts, ManifestInput, OcspFacts,
};
use c2pa_validate::profile::{
    ClaimGeneration, ComplianceLevel, EngineProfile, OperatingMode, SpecVersion,
};
use c2pa_validate::program::{
    PROGRAM_REVOCATION_INFORMATION_MISSING, PROGRAM_TRUSTED_TIMESTAMP_MISSING,
};
use c2pa_validate::revocation::{OcspStatus, OCSP_CONFLICTING_REVOKED_RESPONSE};
use c2pa_validate::status::{
    ValidationResults, ALGORITHM_UNSUPPORTED, CLAIM_SIGNATURE_INSIDE_VALIDITY,
    CLAIM_SIGNATURE_MISMATCH, CLAIM_SIGNATURE_MISSING, CLAIM_SIGNATURE_OUTSIDE_VALIDITY,
    CLAIM_SIGNATURE_VALIDATED, INGREDIENT_MANIFEST_MISMATCH, INGREDIENT_MANIFEST_MISSING,
    INGREDIENT_MANIFEST_VALIDATED, SIGNING_CREDENTIAL_INVALID,
    SIGNING_CREDENTIAL_OCSP_INACCESSIBLE, SIGNING_CREDENTIAL_OCSP_NOT_REVOKED,
    SIGNING_CREDENTIAL_OCSP_REVOKED, SIGNING_CREDENTIAL_OCSP_SKIPPED,
    SIGNING_CREDENTIAL_OCSP_UNKNOWN, SIGNING_CREDENTIAL_TRUSTED, TIMESTAMP_V1_SIGNATURE_UNBOUND,
    TIME_STAMP_TRUSTED,
};
use c2pa_validate::value::Value;
use c2pa_validate::verdict::ValidationState;

const MANIFEST_LABEL: &str = "urn:c2pa:00000000-0000-4000-8000-000000000001";
const NOW: i128 = 1_780_272_000_000_000_000;
const SIGNED_AT: i128 = 1_772_323_200_000_000_000;
const RESPONDER_URL: &str = "http://ocsp.fixture.test/responder";

fn vmap(fields: Vec<(&str, Value)>) -> Value {
    Value::Dict(
        fields
            .into_iter()
            .map(|(key, value)| (Value::Text(key.to_string()), value))
            .collect(),
    )
}

fn text(s: &str) -> Value {
    Value::Text(s.to_string())
}

fn head(major: u8, n: u64, out: &mut Vec<u8>) {
    let m = major << 5;
    if n < 24 {
        out.push(m | n as u8);
    } else if n <= 0xff {
        out.push(m | 24);
        out.push(n as u8);
    } else if n <= 0xffff {
        out.push(m | 25);
        out.extend_from_slice(&(n as u16).to_be_bytes());
    } else if n <= 0xffff_ffff {
        out.push(m | 26);
        out.extend_from_slice(&(n as u32).to_be_bytes());
    } else {
        out.push(m | 27);
        out.extend_from_slice(&n.to_be_bytes());
    }
}

fn write_item(v: &Value, out: &mut Vec<u8>) -> usize {
    match v {
        Value::Integer(n) => {
            if *n >= 0 {
                head(0, *n as u64, out);
            } else {
                head(1, (-1 - *n) as u64, out);
            }
            1
        }
        Value::Bytes(b) => {
            head(2, b.len() as u64, out);
            out.extend_from_slice(b);
            1
        }
        Value::Text(t) => {
            head(3, t.len() as u64, out);
            out.extend_from_slice(t.as_bytes());
            1
        }
        Value::Array(items) => {
            head(4, items.len() as u64, out);
            let mut n = 1;
            for item in items {
                n += write_item(item, out);
            }
            n
        }
        Value::Dict(entries) => {
            head(5, entries.len() as u64, out);
            let mut n = 1;
            for (k, v) in entries {
                n += write_item(k, out);
                n += write_item(v, out);
            }
            n
        }
        Value::Tag(tag, inner) => {
            head(6, *tag, out);
            1 + write_item(inner, out)
        }
        Value::Bool(b) => {
            out.push(if *b { 0xf5 } else { 0xf4 });
            1
        }
        Value::Null => {
            out.push(0xf6);
            1
        }
        Value::Float(bits, _) => {
            out.push(0xfb);
            out.extend_from_slice(&bits.to_be_bytes());
            1
        }
    }
}

/// The value encoded, with the number of data items that it holds.
fn payload(v: Value) -> Payload {
    let mut bytes = Vec::new();
    let nodes = write_item(&v, &mut bytes);
    Payload { bytes, nodes, value: Some(v) }
}

fn no_digests() -> DigestReport {
    DigestReport {
        sha256: Err("not computed".to_string()),
        sha384: Err("not computed".to_string()),
        sha512: Err("not computed".to_string()),
    }
}

fn no_bmff() -> BmffFacts {
    BmffFacts {
        structural: no_digests(),
        init_structural: no_digests(),
        mdats: None,
        merkle_boxes: None,
    }
}

fn plain_asset() -> AssetFacts {
    AssetFacts {
        bmff: no_bmff(),
        fragments: Vec::new(),
        spans: SpanReport::Unsupported,
        zip: ZipFacts { central: None, entries: Vec::new() },
        carriers: Ok(Vec::new()),
        multi_asset: MultiAssetFacts { locator_ranges: Ok(Vec::new()), parts: Vec::new() },
    }
}

fn strict() -> EngineProfile {
    EngineProfile {
        version: SpecVersion::V2_4,
        mode: OperatingMode::Conformance,
        compliance: ComplianceLevel::ConformanceProgram,
        debug: false,
    }
}

fn fixture_assertions() -> Vec<(&'static str, Payload)> {
    vec![
        (
            "c2pa.hash.data",
            payload(vmap(vec![
                ("alg", text("sha256")),
                ("hash", Value::Bytes(vec![0x11; 32])),
            ])),
        ),
        (
            "c2pa.actions.v2",
            payload(vmap(vec![(
                "actions",
                Value::Array(vec![vmap(vec![
                    ("action", text("c2pa.created")),
                    (
                        "digitalSourceType",
                        text("http://cv.iptc.org/newscodes/digitalsourcetype/digitalCapture"),
                    ),
                ])]),
            )])),
        ),
    ]
}

fn claim() -> Value {
    vmap(vec![
        ("instanceID", text("xmp:iid:fixture")),
        ("claim_generator_info", vmap(vec![("name", text("Encypher Fixture"))])),
        (
            "created_assertions",
            Value::Array(
                fixture_assertions()
                    .iter()
                    .map(|(label, p)| {
                        vmap(vec![
                            ("url", text(&format!("self#jumbf=c2pa.assertions/{label}"))),
                            ("alg", text("sha256")),
                            ("hash", Value::Bytes(hash_bytes("sha256", &p.bytes).unwrap())),
                        ])
                    })
                    .collect(),
            ),
        ),
        ("signature", text("self#jumbf=c2pa.signature")),
    ])
}

/// Facts of a conformant signer: a leaf that one anchor issued, verified now.
fn signed_facts() -> ManifestFacts {
    ManifestFacts {
        pool: CertificatePool {
            certificates: vec![b"leaf".to_vec(), b"root".to_vec()],
            chain_len: 1,
            issuers: vec![Some(1), None],
        },
        chain_error: None,
        timestamp: TimestampFacts {
            header: None,
            input_formed: false,
            token_read: false,
            inspection_error: None,
            verification: None,
        },
        credential: CredentialFacts {
            judged_at: NOW,
            chain: Some(ChainVerdict {
                trusted: true,
                leaf_acceptable: true,
                chain_validity_ok: true,
            }),
            leaf_valid: true,
            leaf_acceptable: true,
            signature: SignatureCheck::Valid,
            allowed: None,
        },
        ocsp: OcspFacts {
            staples: Vec::new(),
            max_response_bytes: 262_144,
            verdicts: Vec::new(),
            signed_at: None,
            verification_time: NOW,
        },
        online: OnlineFacts {
            answers: Vec::new(),
            queries: Vec::new(),
            verification_time: NOW,
        },
        identity: IdentityFacts {
            statuses: ValidationResults::new(),
            judged_at: NOW,
            claim_timestamp: None,
        },
        signer: None,
        asset: plain_asset(),
    }
}

/// The same facts under a verified time-stamp.
fn stamped(mut facts: ManifestFacts, version: ClaimTimestampVersion, at: i128) -> ManifestFacts {
    facts.timestamp = TimestampFacts {
        header: Some(TimestampHeader { version, tokens: vec![Some(vec![0x30])] }),
        input_formed: true,
        token_read: true,
        inspection_error: None,
        verification: Some(TimestampVerification {
            verified: true,
            time: Some(at),
            error: None,
        }),
    };
    facts.credential.judged_at = at;
    facts.ocsp.signed_at = Some(at);
    facts.identity.judged_at = at;
    facts.identity.claim_timestamp = Some(at);
    facts
}

fn fixture(claim: Value, signature: Option<Vec<u8>>) -> ParsedManifest {
    ParsedManifest {
        label: MANIFEST_LABEL.to_string(),
        manifest_jumbf: Vec::new(),
        assertions: fixture_assertions()
            .into_iter()
            .map(|(label, p)| AssertionBox { label: label.to_string(), payload: p })
            .collect(),
        assertion_jumbf: Vec::new(),
        claim: Some(payload(claim)),
        signature_cose: signature,
        claim_count: 1,
        claim_box_label: Some("c2pa.claim.v2".to_string()),
        generation: ClaimGeneration::V2,
    }
}

fn run(m: ParsedManifest, facts: &ManifestFacts, engine: EngineProfile, data: &[u8]) -> VerifyOutput {
    let manifests = [m];
    let store = StoreContext { manifests: &manifests, manifest_hashes: &[] };
    let input = ManifestInput {
        manifest: &manifests[0],
        store: &store,
        data,
        format: if data.is_empty() { AssetFormat::C2paStore } else { AssetFormat::Jpeg },
        prehashed: None,
        engine,
        verification_time: NOW,
        facts,
    };
    let version = VersionVerdict {
        evaluations: Vec::new(),
        validated_under: None,
        document: Json::Null,
        document_when_broken: Json::Null,
    };
    let mut nodes = MAX_REPORT_DECODED_VALUE_NODES;
    verify_manifest(&input, version, &mut nodes)
}

fn verify(facts: &ManifestFacts, engine: EngineProfile) -> VerifyOutput {
    run(fixture(claim(), Some(vec![0xd2])), facts, engine, &[])
}

#[test]
fn a_conformant_claim_signature_validates_and_is_trusted() {
    let out = verify(&signed_facts(), EngineProfile::generous());
    assert!(out.results.has_success(CLAIM_SIGNATURE_VALIDATED), "{:?}", out.results.failure);
    assert!(out.results.has_success(SIGNING_CREDENTIAL_TRUSTED));
    // The fixture carries no asset bytes and no assertion boxes, so the content
    // binding and the hashed-URI bindings necessarily fail.
    for status in &out.results.failure {
        assert!(
            status.code.starts_with("assertion.") || status.code.starts_with("hashedURI."),
            "conformant signer produced a non-assertion failure: {status:?}"
        );
    }
}

#[test]
fn a_carried_cose_payload_is_rejected_instead_of_verified_against_the_claim() {
    let mut facts = signed_facts();
    facts.credential.signature = SignatureCheck::Invalid("payload is not detached".to_string());
    let out = verify(&facts, EngineProfile::generous());
    assert!(!out.results.has_success(CLAIM_SIGNATURE_VALIDATED));
    assert!(out.results.has_failure(CLAIM_SIGNATURE_MISMATCH));
    assert_eq!(out.validation_state, ValidationState::Invalid);
}

#[test]
fn an_unsupported_signature_algorithm_reports_algorithm_unsupported() {
    let mut facts = signed_facts();
    facts.credential.signature = SignatureCheck::UnsupportedAlgorithm("-65535".to_string());
    let out = verify(&facts, EngineProfile::generous());
    assert!(out.results.has_failure(ALGORITHM_UNSUPPORTED));
    assert!(!out.results.has_failure(CLAIM_SIGNATURE_MISMATCH));
    assert_eq!(out.validation_state, ValidationState::Invalid);
}

fn unacceptable() -> ManifestFacts {
    let mut facts = signed_facts();
    facts.credential.chain = Some(ChainVerdict {
        trusted: true,
        leaf_acceptable: false,
        chain_validity_ok: true,
    });
    facts.credential.leaf_acceptable = false;
    facts
}

#[test]
fn a_sole_timestamping_leaf_is_not_a_valid_claim_signer() {
    let out = verify(&unacceptable(), EngineProfile::generous());
    assert!(out.results.has_failure(SIGNING_CREDENTIAL_INVALID));
    assert!(!out.results.has_success(SIGNING_CREDENTIAL_TRUSTED));
    assert_eq!(out.validation_state, ValidationState::Invalid);
}

#[test]
fn a_leaf_outside_the_certificate_profile_is_not_a_valid_claim_signer() {
    let out = verify(&unacceptable(), EngineProfile::generous());
    assert!(out.results.has_failure(SIGNING_CREDENTIAL_INVALID));
    assert!(!out.results.has_success(SIGNING_CREDENTIAL_TRUSTED));
    assert_eq!(out.validation_state, ValidationState::Invalid);

    let conformant = verify(&signed_facts(), EngineProfile::generous());
    assert!(!conformant.results.has_failure(SIGNING_CREDENTIAL_INVALID));
    assert!(conformant.results.has_success(SIGNING_CREDENTIAL_TRUSTED));
}

/// A signer whose certificate could not be read fails, but not for want of a
/// chain.
#[test]
fn main_claim_accepts_unprotected_x5chain_as_credential_source() {
    let mut facts = unacceptable();
    facts.credential.chain = None;
    facts.credential.leaf_valid = false;
    facts.credential.signature = SignatureCheck::Invalid("certificate unreadable".to_string());
    let out = verify(&facts, EngineProfile::generous());
    assert!(out.results.has_failure(SIGNING_CREDENTIAL_INVALID));
    assert!(!out
        .results
        .failure
        .iter()
        .any(|status| status.explanation.contains("no x5chain")));
    assert!(!out.results.has_success(CLAIM_SIGNATURE_VALIDATED));
    assert_eq!(out.validation_state, ValidationState::Invalid);
}

#[test]
fn a_trusted_legacy_timestamp_keeps_an_expired_signer_inside_validity() {
    let mut expired = signed_facts();
    expired.credential.chain = Some(ChainVerdict {
        trusted: true,
        leaf_acceptable: true,
        chain_validity_ok: false,
    });
    expired.credential.leaf_valid = false;
    let without = verify(&expired, EngineProfile::generous());
    assert!(without.results.has_failure(CLAIM_SIGNATURE_OUTSIDE_VALIDITY));

    // At the attested time the certificate was inside its window.
    let facts = stamped(signed_facts(), ClaimTimestampVersion::V1, 1_748_736_000_000_000_000);
    let with = verify(&facts, EngineProfile::generous());
    assert!(with.results.has_success(TIME_STAMP_TRUSTED));
    assert!(with.results.has_success(CLAIM_SIGNATURE_INSIDE_VALIDITY));
    assert!(!with.results.has_failure(CLAIM_SIGNATURE_OUTSIDE_VALIDITY));
    assert!(with.results.has_informational(TIMESTAMP_V1_SIGNATURE_UNBOUND));

    let current = stamped(signed_facts(), ClaimTimestampVersion::V2, SIGNED_AT);
    let out = verify(&current, EngineProfile::generous());
    assert!(out.results.has_success(TIME_STAMP_TRUSTED));
    assert!(!out.results.has_informational(TIMESTAMP_V1_SIGNATURE_UNBOUND));
}

fn with_staples(verdicts: Vec<OcspStatus>) -> ManifestFacts {
    let mut facts = stamped(signed_facts(), ClaimTimestampVersion::V2, SIGNED_AT);
    facts.ocsp.staples = (0..verdicts.len()).map(|i| vec![i as u8]).collect();
    facts.ocsp.verdicts = verdicts.into_iter().map(|v| vec![Some(v)]).collect();
    facts
}

#[test]
fn a_qualifying_good_ocsp_response_outranks_a_revoked_one_only_under_conformance() {
    let good = OcspStatus::Good;
    let revoked = OcspStatus::Revoked {
        revocation_time: 1_748_736_000_000_000_000,
        reason: None,
    };
    for stapled in [vec![good, revoked], vec![revoked, good]] {
        let facts = with_staples(stapled);
        let default = verify(&facts, EngineProfile::generous());
        assert!(default.results.has_failure(SIGNING_CREDENTIAL_OCSP_REVOKED));
        assert!(!default.results.has_success(SIGNING_CREDENTIAL_OCSP_NOT_REVOKED));
        assert!(!default.results.has_informational(OCSP_CONFLICTING_REVOKED_RESPONSE));

        let conformance = verify(&facts, strict());
        assert!(!conformance.results.has_failure(SIGNING_CREDENTIAL_OCSP_REVOKED));
        assert!(conformance.results.has_success(SIGNING_CREDENTIAL_OCSP_NOT_REVOKED));
        assert!(conformance.results.has_informational(OCSP_CONFLICTING_REVOKED_RESPONSE));
    }
    for engine in [EngineProfile::generous(), strict()] {
        let out = verify(&with_staples(vec![revoked]), engine);
        assert!(out.results.has_failure(SIGNING_CREDENTIAL_OCSP_REVOKED));
        assert!(!out.results.has_informational(OCSP_CONFLICTING_REVOKED_RESPONSE));
    }
    let out = verify(&with_staples(vec![good]), EngineProfile::generous());
    assert!(out.results.has_success(SIGNING_CREDENTIAL_OCSP_NOT_REVOKED));
}

fn leaf_key() -> String {
    hex::encode(hash_bytes("sha256", b"leaf").unwrap())
}

fn with_answer(answer: OnlineAnswer) -> VerifyOutput {
    let mut facts = signed_facts();
    facts.online.answers = vec![answer];
    facts.online.queries = vec![Some(OcspQuery {
        responder_url: RESPONDER_URL.to_string(),
        request_der: vec![0x30, 0x00],
    })];
    verify(&facts, EngineProfile::generous())
}

fn member<'a>(j: &'a Json, key: &str) -> Option<&'a str> {
    match j.get(key) {
        Some(Json::Text(t)) => Some(t.as_str()),
        _ => None,
    }
}

#[test]
fn an_offline_run_records_the_query_that_would_settle_revocation() {
    let out = with_answer(OnlineAnswer::NotSupplied);
    assert!(out.results.has_informational(SIGNING_CREDENTIAL_OCSP_SKIPPED));
    assert_eq!(out.network_needs.len(), 1);
    let leaf = &out.network_needs[0];
    let json = leaf.to_json();
    assert_eq!(member(&json, "kind"), Some("ocsp"));
    assert_eq!(member(&json, "purpose"), Some("claim_signer"));
    assert_eq!(member(&json, "responder_url"), Some(RESPONDER_URL));
    assert_eq!(member(&json, "certificate_sha256"), Some(leaf_key().as_str()));
    let NetworkNeed::Ocsp { request_der, .. } = leaf else { panic!("an OCSP need") };
    assert!(!request_der.is_empty() && request_der[0] == 0x30);
    let needed = out.report_json.get("network").and_then(|n| n.get("needed"));
    assert!(matches!(needed, Some(Json::Array(items)) if items.len() == 1));
}

#[test]
fn a_certificate_with_no_responder_produces_no_query() {
    let out = verify(&signed_facts(), EngineProfile::generous());
    assert!(out.results.has_informational(SIGNING_CREDENTIAL_OCSP_SKIPPED));
    assert!(out.network_needs.is_empty());
    assert!(out.report_json.get("network").is_none());
}

#[test]
fn a_good_online_response_replaces_the_skipped_code() {
    let out = with_answer(OnlineAnswer::Verified(OcspStatus::Good));
    assert!(out.results.has_success(SIGNING_CREDENTIAL_OCSP_NOT_REVOKED));
    assert!(!out.results.has_informational(SIGNING_CREDENTIAL_OCSP_SKIPPED));
    assert!(out.network_needs.is_empty());
    assert!(out.results.has_success(SIGNING_CREDENTIAL_TRUSTED));
}

#[test]
fn a_revoked_online_response_rejects_the_signature() {
    let out = with_answer(OnlineAnswer::Verified(OcspStatus::Revoked {
        revocation_time: 1_748_736_000_000_000_000,
        reason: None,
    }));
    assert!(out.results.has_failure(SIGNING_CREDENTIAL_OCSP_REVOKED));
    assert!(!out.results.has_success(SIGNING_CREDENTIAL_TRUSTED));
}

#[test]
fn an_unknown_online_response_is_informational_and_leaves_trust_intact() {
    let out = with_answer(OnlineAnswer::Verified(OcspStatus::Unknown));
    assert!(out.results.has_informational(SIGNING_CREDENTIAL_OCSP_UNKNOWN));
    assert!(!out.results.has_informational(SIGNING_CREDENTIAL_OCSP_SKIPPED));
    assert!(!out.results.has_failure(SIGNING_CREDENTIAL_OCSP_REVOKED));
    assert!(out.results.has_success(SIGNING_CREDENTIAL_TRUSTED));
}

#[test]
fn a_response_from_the_wrong_responder_reads_as_no_answer() {
    let out = with_answer(OnlineAnswer::Unusable);
    assert!(out.results.has_informational(SIGNING_CREDENTIAL_OCSP_INACCESSIBLE));
    assert!(!out.results.has_success(SIGNING_CREDENTIAL_OCSP_NOT_REVOKED));
}

#[test]
fn a_stale_response_reads_as_no_answer_rather_than_a_revocation() {
    let out = with_answer(OnlineAnswer::Unusable);
    assert!(out.results.has_informational(SIGNING_CREDENTIAL_OCSP_INACCESSIBLE));
    assert!(!out.results.has_failure(SIGNING_CREDENTIAL_OCSP_REVOKED));
    assert!(!out.results.has_success(SIGNING_CREDENTIAL_OCSP_NOT_REVOKED));
}

#[test]
fn a_responder_that_was_tried_and_failed_reports_inaccessible() {
    let out = with_answer(OnlineAnswer::Unreachable);
    assert!(out.results.has_informational(SIGNING_CREDENTIAL_OCSP_INACCESSIBLE));
    assert!(!out.results.has_informational(SIGNING_CREDENTIAL_OCSP_SKIPPED));
}

fn hashed_uri_for_assertion(label: &str) -> Value {
    vmap(vec![
        ("url", text(&format!("self#jumbf=c2pa.assertions/{label}"))),
        ("alg", text("sha256")),
        ("hash", Value::Bytes(vec![0; 32])),
    ])
}

fn bare(claim: Value, signature: Option<Vec<u8>>, assertions: Vec<(&str, Value)>) -> ParsedManifest {
    let mut m = fixture(claim, signature);
    m.assertions = assertions
        .into_iter()
        .map(|(label, v)| AssertionBox { label: label.to_string(), payload: payload(v) })
        .collect();
    m
}

fn data_hash() -> Value {
    vmap(vec![("alg", text("sha256")), ("hash", Value::Bytes(vec![0; 32]))])
}

#[test]
fn cross_manifest_signature_reference_reports_claim_signature_missing() {
    let claim = vmap(vec![
        ("instanceID", text("xmp:iid:test")),
        (
            "created_assertions",
            Value::Array(vec![hashed_uri_for_assertion("c2pa.hash.data")]),
        ),
        (
            "signature",
            text("self#jumbf=/c2pa/urn:c2pa:00000000-0000-4000-8000-000000000002/c2pa.signature"),
        ),
    ]);
    let m = bare(claim, Some(vec![0xa0]), vec![("c2pa.hash.data", data_hash())]);
    let out = run(m, &signed_facts(), EngineProfile::generous(), b"asset");
    assert!(out.results.has_failure(CLAIM_SIGNATURE_MISSING));
    assert!(!out.results.has_failure(CLAIM_SIGNATURE_MISMATCH));
}

#[test]
fn ingredient_semantic_hashing_is_deferred_until_signature_is_usable() {
    let ingredient = vmap(vec![(
        "activeManifest",
        vmap(vec![
            ("url", text("self#jumbf=/c2pa/urn:c2pa:missing-child")),
            ("alg", text("sha256")),
            ("hash", Value::Bytes(vec![0; 32])),
        ]),
    )]);
    let claim = vmap(vec![
        ("instanceID", text("xmp:iid:test")),
        (
            "created_assertions",
            Value::Array(vec![
                hashed_uri_for_assertion("c2pa.hash.data"),
                hashed_uri_for_assertion("c2pa.ingredient.v3"),
            ]),
        ),
        ("signature", text("self#jumbf=c2pa.signature")),
    ]);
    let m = bare(
        claim,
        None,
        vec![("c2pa.hash.data", data_hash()), ("c2pa.ingredient.v3", ingredient)],
    );
    let out = run(m, &signed_facts(), EngineProfile::generous(), b"asset");
    assert!(out.results.has_failure(CLAIM_SIGNATURE_MISSING));
    assert!(!out.results.has_failure(INGREDIENT_MANIFEST_MISSING));
    assert!(!out.results.has_failure(INGREDIENT_MANIFEST_MISMATCH));
    assert!(!out.results.has_success(INGREDIENT_MANIFEST_VALIDATED));
}

#[test]
fn an_unanswered_query_fails_the_program_bar() {
    let run = |answer: OnlineAnswer, engine: EngineProfile| {
        let mut facts = signed_facts();
        facts.online.answers = vec![answer];
        verify(&facts, engine).results
    };
    for answer in [
        || OnlineAnswer::NotSupplied,
        || OnlineAnswer::Unreachable,
        || OnlineAnswer::Verified(OcspStatus::Unknown),
    ] {
        assert!(run(answer(), strict()).has_failure(PROGRAM_REVOCATION_INFORMATION_MISSING));
        let core = EngineProfile { compliance: ComplianceLevel::CoreSpec, ..strict() };
        assert!(!run(answer(), core).has_failure(PROGRAM_REVOCATION_INFORMATION_MISSING));
    }
    let good = run(OnlineAnswer::Verified(OcspStatus::Good), strict());
    assert!(!good.has_failure(PROGRAM_REVOCATION_INFORMATION_MISSING));
    assert!(good.has_failure(PROGRAM_TRUSTED_TIMESTAMP_MISSING));
}
