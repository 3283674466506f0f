use c2pa_validate::binding::AssetFacts;
use c2pa_validate::bmff::{BmffFacts, DigestReport};
use c2pa_validate::bmff::{FragmentFacts, MerkleBox};
use c2pa_validate::boxes::SpanReport;
use c2pa_validate::collection::ZipFacts;
use c2pa_validate::credential::ChainVerdict;
use c2pa_validate::credential::{CredentialFacts, SignatureCheck, TimestampFacts};
use c2pa_validate::error::ValidateError;
use c2pa_validate::hash::hash_bytes;
use c2pa_validate::json::Json;
use c2pa_validate::live_video::StreamMethod;
use c2pa_validate::manifest::{
    AssertionBox, AssetFormat, JumbfBox, ParsedManifest, Payload,
};
use c2pa_validate::multi_asset::MultiAssetFacts;
use c2pa_validate::ocsp::CertificatePool;
use c2pa_validate::online::OnlineFacts;
use c2pa_validate::output::VersionEvaluation;
use c2pa_validate::output::VersionVerdict;
use c2pa_validate::pdf_history::{
    needs_verification, verify_with_history, PdfManifestStoreSection, Rendition,
};
use c2pa_validate::pipeline::{IdentityFacts, ManifestFacts, OcspFacts};
use c2pa_validate::profile::{
    ClaimGeneration, ComplianceLevel, EngineProfile, OperatingMode, SpecVersion,
};
use c2pa_validate::readiness::{facts_fit_asset, facts_fit_store, renditions_fit, stream_fits};
use c2pa_validate::session::{
    verify_bmff_portion_before_release, verify_fragmented, verify_stream, LiveFacts, LiveSegment,
    StreamInput, StreamVerifyOutput,
};
use c2pa_validate::status::{
    ValidationResults, ASSERTION_BMFF_HASH_MATCH,
    ASSERTION_DATA_HASH_ADDITIONAL_EXCLUSIONS_PRESENT,
    ASSERTION_DATA_HASH_MATCH, ASSERTION_DATA_HASH_MISMATCH, ASSERTION_HASHED_URI_MATCH,
    CLAIM_MISSING, CLAIM_SIGNATURE_VALIDATED, CONFORMANCE_OUT_OF_SCOPE, MANIFEST_INACCESSIBLE,
    SIGNING_CREDENTIAL_TRUSTED,
};
use c2pa_validate::stream::{SegmentAsset, StreamNames, SESSION_KEYS_LABEL};
use c2pa_validate::value::Value;
use c2pa_validate::verdict::ValidationState;
use c2pa_validate::verify::{
    verify, verify_detached, verify_prehashed_manifest, AssetInput, StoreReport,
};

const LABEL: &str = "urn:c2pa:00000000-0000-4000-8000-000000000001";
const ASSET: &[u8] = b"head[carrier]tail";
const CARRIER: (usize, usize) = (4, 9);

fn vmap(fields: Vec<(&str, Value)>) -> Value {
    Value::Dict(
        fields
            .into_iter()
            .map(|(key, value)| (Value::Text(key.to_string()), value))
            .collect(),
    )
}

fn text(s: &str) -> Value {
    Value::Text(s.to_string())
}

fn head(major: u8, n: u64, out: &mut Vec<u8>) {
    let m = major << 5;
    if n < 24 {
        out.push(m | n as u8);
    } else if n <= 0xff {
        out.push(m | 24);
        out.push(n as u8);
    } else if n <= 0xffff {
        out.push(m | 25);
        out.extend_from_slice(&(n as u16).to_be_bytes());
    } else if n <= 0xffff_ffff {
        out.push(m | 26);
        out.extend_from_slice(&(n as u32).to_be_bytes());
    } else {
        out.push(m | 27);
        out.extend_from_slice(&n.to_be_bytes());
    }
}

fn write_item(v: &Value, out: &mut Vec<u8>) -> usize {
    match v {
        Value::Integer(n) => {
            if *n >= 0 {
                head(0, *n as u64, out);
            } else {
                head(1, (-1 - *n) as u64, out);
            }
            1
        }
        Value::Bytes(b) => {
            head(2, b.len() as u64, out);
            out.extend_from_slice(b);
            1
        }
        Value::Text(t) => {
            head(3, t.len() as u64, out);
            out.extend_from_slice(t.as_bytes());
            1
        }
        Value::Array(items) => {
            head(4, items.len() as u64, out);
            let mut n = 1;
            for item in items {
                n += write_item(item, out);
            }
            n
        }
        Value::Dict(entries) => {
            head(5, entries.len() as u64, out);
            let mut n = 1;
            for (k, v) in entries {
                n += write_item(k, out);
                n += write_item(v, out);
            }
            n
        }
        Value::Tag(tag, inner) => {
            head(6, *tag, out);
            1 + write_item(inner, out)
        }
        Value::Bool(b) => {
            out.push(if *b { 0xf5 } else { 0xf4 });
            1
        }
        Value::Null => {
            out.push(0xf6);
            1
        }
        Value::Float(bits, _) => {
            out.push(0xfb);
            out.extend_from_slice(&bits.to_be_bytes());
            1
        }
    }
}

/// The value encoded, with the number of data items that it holds.
fn payload(v: Value) -> Payload {
    let mut bytes = Vec::new();
    let nodes = write_item(&v, &mut bytes);
    Payload { bytes, nodes, value: Some(v) }
}

/// The content of an assertion superbox: its description box and a CBOR box.
fn box_content(label: &str, cbor: &[u8]) -> Vec<u8> {
    let mut description = Vec::new();
    description.extend_from_slice(&[
        0x63, 0x62, 0x6f, 0x72, 0x00, 0x11, 0x00, 0x10, 0x80, 0x00, 0x00, 0xaa, 0x00, 0x38, 0x9b,
        0x71,
    ]);
    description.push(3);
    description.extend_from_slice(label.as_bytes());
    description.push(0);
    let mut out = Vec::new();
    out.extend_from_slice(&((description.len() + 8) as u32).to_be_bytes());
    out.extend_from_slice(b"jumd");
    out.extend_from_slice(&description);
    out.extend_from_slice(&((cbor.len() + 8) as u32).to_be_bytes());
    out.extend_from_slice(b"cbor");
    out.extend_from_slice(cbor);
    out
}

fn no_digests() -> DigestReport {
    DigestReport {
        sha256: Err("not computed".to_string()),
        sha384: Err("not computed".to_string()),
        sha512: Err("not computed".to_string()),
    }
}

fn no_bmff() -> BmffFacts {
    BmffFacts {
        structural: no_digests(),
        init_structural: no_digests(),
        mdats: None,
        merkle_boxes: None,
    }
}

fn plain_asset() -> AssetFacts {
    AssetFacts {
        bmff: no_bmff(),
        fragments: Vec::new(),
        spans: SpanReport::Unsupported,
        zip: ZipFacts { central: None, entries: Vec::new() },
        carriers: Ok(Vec::new()),
        multi_asset: MultiAssetFacts { locator_ranges: Ok(Vec::new()), parts: Vec::new() },
    }
}

/// Facts of a manifest whose signature carries no certificate.
fn unsigned_facts() -> ManifestFacts {
    ManifestFacts {
        pool: CertificatePool { certificates: Vec::new(), chain_len: 0, issuers: Vec::new() },
        chain_error: None,
        timestamp: TimestampFacts {
            header: None,
            input_formed: false,
            token_read: false,
            inspection_error: None,
            verification: None,
        },
        credential: CredentialFacts {
            judged_at: 0,
            chain: None,
            leaf_valid: false,
            leaf_acceptable: false,
            signature: SignatureCheck::Valid,
            allowed: None,
        },
        ocsp: OcspFacts {
            staples: Vec::new(),
            max_response_bytes: 262_144,
            verdicts: Vec::new(),
            signed_at: None,
            verification_time: 0,
        },
        online: OnlineFacts {
            answers: Vec::new(),
            queries: Vec::new(),
            verification_time: 0,
        },
        identity: IdentityFacts {
            statuses: ValidationResults::new(),
            judged_at: 0,
            claim_timestamp: None,
        },
        signer: None,
        asset: plain_asset(),
    }
}

fn no_version() -> VersionVerdict {
    VersionVerdict {
        evaluations: Vec::new(),
        validated_under: None,
        document: Json::Null,
        document_when_broken: Json::Null,
    }
}

fn sha(data: &[u8]) -> Vec<u8> {
    hash_bytes("sha256", data).expect("supported")
}

/// The action that brings an asset into being.
fn created() -> Value {
    vmap(vec![(
        "actions",
        Value::Array(vec![vmap(vec![
            ("action", text("c2pa.created")),
            ("digitalSourceType", text("digitalCapture")),
        ])]),
    )])
}

/// A signed manifest that holds the assertions and claims those that are not
/// named among the `unclaimed`.
fn signed_manifest(
    label: &str,
    assertions: Vec<(&str, Value)>,
    unclaimed: &[&str],
) -> ParsedManifest {
    let mut boxes = Vec::new();
    let mut jumbf = Vec::new();
    let mut references = Vec::new();
    for (label, value) in assertions {
        let p = payload(value);
        let content = box_content(label, &p.bytes);
        if !unclaimed.contains(&label) {
            references.push(vmap(vec![
                ("url", text(&format!("self#jumbf=c2pa.assertions/{label}"))),
                ("alg", text("sha256")),
                ("hash", Value::Bytes(sha(&content))),
            ]));
        }
        jumbf.push(JumbfBox { label: label.to_string(), content, zeroed: false });
        boxes.push(AssertionBox { label: label.to_string(), payload: p });
    }
    let claim = vmap(vec![
        ("instanceID", text("xmp:iid:test")),
        ("claim_generator_info", vmap(vec![("name", text("test"))])),
        ("created_assertions", Value::Array(references)),
        ("signature", text("self#jumbf=c2pa.signature")),
    ]);
    ParsedManifest {
        label: label.to_string(),
        manifest_jumbf: Vec::new(),
        assertions: boxes,
        assertion_jumbf: jumbf,
        claim: Some(payload(claim)),
        signature_cose: Some(vec![0xd2]),
        claim_count: 1,
        claim_box_label: Some("c2pa.claim.v2".to_string()),
        generation: ClaimGeneration::V2,
    }
}

/// A store of manifests with the contents of their superboxes.
fn store_of(entries: Vec<(ParsedManifest, Vec<u8>)>) -> StoreReport {
    let (manifests, contents): (Vec<ParsedManifest>, Vec<Vec<u8>>) = entries.into_iter().unzip();
    StoreReport {
        bytes: b"store bytes".to_vec(),
        contents: Ok(contents),
        signers: manifests.iter().map(|_| None).collect(),
        manifests: Ok(manifests),
        rendering: Json::Text("rendering".to_string()),
    }
}

/// Facts of a trusted signer.
fn trusted_facts() -> ManifestFacts {
    let mut facts = unsigned_facts();
    facts.pool.certificates = vec![b"leaf".to_vec(), b"root".to_vec()];
    facts.pool.chain_len = 1;
    facts.pool.issuers = vec![Some(1), None];
    facts.credential.chain = Some(ChainVerdict {
        trusted: true,
        leaf_acceptable: true,
        chain_validity_ok: true,
    });
    facts.credential.leaf_valid = true;
    facts.credential.leaf_acceptable = true;
    facts.asset.carriers = Ok(vec![CARRIER]);
    facts
}

fn asset<'a>(data: &'a [u8], engine: EngineProfile) -> AssetInput<'a> {
    AssetInput {
        mime: "image/jpeg",
        format: Some(AssetFormat::Jpeg),
        permitted: true,
        hash_mode: true,
        data,
        engine,
        verification_time: 0,
    }
}

/// A manifest that binds `head` and `tail` around its carrier.
fn manifest(excluded: (i128, i128), hash: Vec<u8>) -> ParsedManifest {
    manifest_bound_by(
        "c2pa.hash.data",
        vmap(vec![
            ("alg", text("sha256")),
            ("hash", Value::Bytes(hash)),
            (
                "exclusions",
                Value::Array(vec![vmap(vec![
                    ("start", Value::Integer(excluded.0)),
                    ("length", Value::Integer(excluded.1)),
                ])]),
            ),
        ]),
    )
}

fn manifest_bound_by(label: &str, binding: Value) -> ParsedManifest {
    signed_manifest(LABEL, vec![(label, binding), ("c2pa.actions.v2", created())], &[])
}

fn sound_manifest() -> ParsedManifest {
    manifest((4, 9), sha(b"headtail"))
}

fn report(m: Option<ParsedManifest>) -> StoreReport {
    store_of(m.into_iter().map(|m| (m, b"content".to_vec())).collect())
}

fn conformance() -> EngineProfile {
    EngineProfile {
        version: SpecVersion::V2_4,
        mode: OperatingMode::Conformance,
        compliance: ComplianceLevel::CoreSpec,
        debug: false,
    }
}

#[test]
fn an_intact_asset_is_trusted() {
    let extracted = Ok(Some(report(Some(sound_manifest()))));
    let facts = trusted_facts();
    let input = asset(ASSET, EngineProfile::generous());
    assert!(facts_fit_asset(&input, &extracted, &facts));
    let out = verify(&input, &extracted, &facts, no_version()).expect("verified");
    assert!(out.results.failure.is_empty(), "{:?}", out.results.failure);
    assert_eq!(out.validation_state, ValidationState::Trusted);
    for code in [
        CLAIM_SIGNATURE_VALIDATED,
        ASSERTION_HASHED_URI_MATCH,
        ASSERTION_DATA_HASH_MATCH,
        SIGNING_CREDENTIAL_TRUSTED,
    ] {
        assert!(out.results.has_success(code), "{code}");
    }
    assert!(matches!(
        out.report_json.get("manifest_store_sha256"),
        Some(Json::Text(t)) if *t == hex::encode(sha(b"store bytes"))
    ));
    assert!(matches!(
        out.report_json.get("active_manifest"),
        Some(Json::Text(t)) if t == LABEL
    ));
    assert!(out.crjson.is_none());
    assert!(matches!(
        out.report_json.get("engine_profile").and_then(|p| p.get("compliance_level")),
        Some(Json::Text(t)) if t == "core-spec"
    ));
}

#[test]
fn the_rendering_comes_with_the_conformance_program() {
    let store = || report(Some(sound_manifest()));
    for compliance in [ComplianceLevel::CoreSpec, ComplianceLevel::ConformanceProgram] {
        let program = compliance == ComplianceLevel::ConformanceProgram;
        for debug in [false, true] {
            let engine = EngineProfile { compliance, debug, ..conformance() };
            let input = asset(ASSET, engine);
            let facts = trusted_facts();
            let digest = sha(b"headtail");
            let lanes = [
                verify(&input, &Ok(Some(store())), &facts, no_version()),
                verify_detached(&input, &store(), &facts, no_version()),
                verify_prehashed_manifest(&input, &store(), &digest, &facts, no_version()),
            ];
            for out in lanes {
                let out = out.expect("verified");
                assert_eq!(
                    matches!(&out.crjson, Some(Json::Text(t)) if t == "rendering"),
                    program
                );
                assert_eq!(out.crjson.is_some(), program);
                assert!(out.report_json.get("engine_profile").is_some());
            }
        }
    }
    let engine =
        EngineProfile { compliance: ComplianceLevel::ConformanceProgram, ..conformance() };
    let out = verify(&asset(b"plain", engine), &Ok(None), &unsigned_facts(), no_version())
        .expect("verified");
    assert!(out.crjson.is_none());
    assert!(out.report_json.get("engine_profile").is_none());
}

#[test]
fn altered_bytes_are_found() {
    let extracted = Ok(Some(report(Some(sound_manifest()))));
    let out = verify(
        &asset(b"HEAD[carrier]tail", EngineProfile::generous()),
        &extracted,
        &trusted_facts(),
        no_version(),
    )
    .expect("verified");
    assert_eq!(out.validation_state, ValidationState::Invalid);
    assert!(out.results.has_failure(ASSERTION_DATA_HASH_MISMATCH));
}

#[test]
fn the_version_ladder_outlives_broken_integrity() {
    let version = || VersionVerdict {
        evaluations: vec![VersionEvaluation {
            version: "2.4".to_string(),
            structure_conformant: true,
            reasons: Vec::new(),
        }],
        validated_under: Some("2.4".to_string()),
        document: Json::Text("intact".to_string()),
        document_when_broken: Json::Text("broken".to_string()),
    };
    let run = |data: &[u8]| {
        let input = asset(data, EngineProfile::generous());
        let extracted = Ok(Some(report(Some(sound_manifest()))));
        verify(&input, &extracted, &trusted_facts(), version()).expect("verified")
    };
    for (data, under, shown) in
        [(ASSET, Some("2.4"), "intact"), (&b"HEAD[carrier]tail"[..], None, "broken")]
    {
        let out = run(data);
        let kept = out.version_verdict.expect("a verdict");
        assert_eq!(kept.evaluations.len(), 1);
        assert_eq!(kept.validated_under.as_deref(), under);
        assert!(matches!(
            out.report_json.get("version_verdict"),
            Some(Json::Text(t)) if t == shown
        ));
    }
}

#[test]
fn an_altered_assertion_is_found() {
    let mut m = sound_manifest();
    m.assertion_jumbf[1].content.push(0);
    let out = verify(
        &asset(ASSET, EngineProfile::generous()),
        &Ok(Some(report(Some(m)))),
        &trusted_facts(),
        no_version(),
    )
    .expect("verified");
    assert_eq!(out.validation_state, ValidationState::Invalid);
    assert!(!out.results.has_success(ASSERTION_DATA_HASH_MATCH));
}

#[test]
fn an_asset_without_provenance_is_no_failure_for_the_public() {
    let run = |engine: EngineProfile, extracted: Result<Option<StoreReport>, String>| {
        verify(&asset(b"plain", engine), &extracted, &unsigned_facts(), no_version())
            .expect("verified")
    };
    let none = run(EngineProfile::generous(), Ok(None));
    assert_eq!(none.validation_state, ValidationState::Absent);
    assert!(none.results.failure.is_empty());
    let strict = run(conformance(), Ok(None));
    assert_eq!(strict.validation_state, ValidationState::Invalid);
    assert!(strict.results.has_failure(CLAIM_MISSING));
    let empty = run(EngineProfile::generous(), Ok(Some(report(None))));
    assert_eq!(empty.validation_state, ValidationState::Invalid);
}

#[test]
fn what_cannot_be_read_is_an_error() {
    let run = |input: AssetInput, extracted: Result<Option<StoreReport>, String>| {
        verify(&input, &extracted, &trusted_facts(), no_version()).err().map(|e| e.message())
    };
    let regular = || asset(ASSET, EngineProfile::generous());
    let mut unknown = regular();
    unknown.format = None;
    assert_eq!(run(unknown, Ok(None)).as_deref(), Some("unsupported MIME type: image/jpeg"));
    assert_eq!(
        run(regular(), Err("cut".to_string())).as_deref(),
        Some("format extraction failed: cut")
    );
    let mut broken = report(None);
    broken.manifests = Err("not a store".to_string());
    assert_eq!(
        run(regular(), Ok(Some(broken))).as_deref(),
        Some("manifest store parse failed: not a store")
    );
    let wide = report(Some(manifest((3, 10), sha(b"headtail"))));
    assert!(run(regular(), Ok(Some(wide))).expect("refused").starts_with("hard binding invalid"));
}

#[test]
fn conformance_analysis_notes_what_the_public_is_refused() {
    let extracted = Ok(Some(report(Some(manifest((3, 10), sha(b"heatail"))))));
    let mut input = asset(ASSET, conformance());
    input.permitted = false;
    let out = verify(&input, &extracted, &trusted_facts(), no_version()).expect("verified");
    assert!(out
        .results
        .has_informational(ASSERTION_DATA_HASH_ADDITIONAL_EXCLUSIONS_PRESENT));
    assert!(out.results.has_informational(CONFORMANCE_OUT_OF_SCOPE));
    assert!(out.results.has_success(ASSERTION_DATA_HASH_MATCH), "{:?}", out.results.failure);
}

#[test]
fn a_detached_store_binds_its_content() {
    let facts = trusted_facts();
    let detached = report(Some(sound_manifest()));
    let input = asset(ASSET, EngineProfile::generous());
    assert!(facts_fit_store(
        &detached,
        ASSET,
        AssetFormat::Jpeg,
        None,
        EngineProfile::generous(),
        0,
        &facts
    ));
    let out = verify_detached(&input, &detached, &facts, no_version()).expect("verified");
    assert_eq!(out.validation_state, ValidationState::Trusted);
    let digest = sha(b"headtail");
    let out = verify_prehashed_manifest(&input, &detached, &digest, &facts, no_version())
        .expect("verified");
    assert!(out.results.has_success(ASSERTION_DATA_HASH_MATCH));
    let out = verify_prehashed_manifest(&input, &detached, &[0; 32], &facts, no_version())
        .expect("verified");
    assert!(out.results.has_failure(ASSERTION_DATA_HASH_MISMATCH));
    let mut hostless = asset(ASSET, EngineProfile::generous());
    hostless.format = Some(AssetFormat::C2paStore);
    assert!(verify_detached(&hostless, &detached, &facts, no_version()).is_err());
}

#[test]
fn facts_of_another_instant_do_not_fit() {
    let extracted = Ok(Some(report(Some(sound_manifest()))));
    let input = asset(ASSET, EngineProfile::generous());
    let mut late = trusted_facts();
    late.credential.judged_at = 1;
    assert!(!facts_fit_asset(&input, &extracted, &late));
    let mut dangling = trusted_facts();
    dangling.pool.issuers = vec![Some(7), None];
    assert!(!facts_fit_asset(&input, &extracted, &dangling));
    let mut outside = trusted_facts();
    outside.asset.zip.central = Some(vec![(0, 99)]);
    assert!(!facts_fit_asset(&input, &extracted, &outside));
    assert!(facts_fit_asset(&input, &Ok(None), &late));
}

fn rendition(extracted: Result<Option<StoreReport>, String>) -> Rendition {
    Rendition { extracted, facts: trusted_facts(), version: no_version() }
}

fn sections() -> Vec<PdfManifestStoreSection> {
    vec![
        PdfManifestStoreSection { section_index: 0, section_end: 5, defect: None },
        PdfManifestStoreSection {
            section_index: 1,
            section_end: 17,
            defect: Some("manifest store is malformed".to_string()),
        },
    ]
}

#[test]
fn malformed_later_store_is_reported_without_discarding_earlier_history() {
    let mut broken = report(None);
    broken.manifests = Err("not a manifest store".to_string());
    let mut input = asset(ASSET, EngineProfile::generous());
    input.mime = "application/pdf";
    input.format = Some(AssetFormat::Pdf);
    let sections = sections();
    assert!(needs_verification(&sections[0], ASSET.len()));
    assert!(!needs_verification(&sections[1], ASSET.len()));
    let earlier = || rendition(Ok(Some(report(Some(sound_manifest())))));
    let fits = [Some(earlier()), None];
    assert!(renditions_fit(&input, &sections, &fits));
    assert!(!renditions_fit(&input, &sections, &[None, None]));
    let output = verify_with_history(
        &input,
        &Ok(Some(broken)),
        &trusted_facts(),
        no_version(),
        &sections,
        None,
        vec![Some(earlier()), None],
    )
    .expect("structural defect becomes a report");
    assert!(output.results.has_failure(MANIFEST_INACCESSIBLE));
    assert_eq!(output.validation_state, ValidationState::Invalid);
    let history = match output.report_json.get("pdf_incremental_history") {
        Some(Json::Array(items)) => items,
        _ => panic!("incremental history"),
    };
    assert_eq!(history.len(), 2);
    assert!(history[0].get("report").is_some());
    // The first five bytes alone do not have the digest that was signed.
    assert!(matches!(
        history[0].get("validation_state"),
        Some(Json::Text(t)) if t == "Invalid"
    ));
    let statuses = match history[1].get("validation_status") {
        Some(Json::Array(items)) => items,
        _ => panic!("statuses"),
    };
    assert!(matches!(
        statuses[0].get("code"),
        Some(Json::Text(t)) if t == MANIFEST_INACCESSIBLE
    ));
}

#[test]
fn an_unreadable_inventory_is_reported() {
    let out = verify_with_history(
        &asset(ASSET, EngineProfile::generous()),
        &Ok(None),
        &unsigned_facts(),
        no_version(),
        &[],
        Some("xref is broken"),
        Vec::new(),
    )
    .expect("verified");
    let history = match out.report_json.get("pdf_incremental_history") {
        Some(Json::Array(items)) => items,
        _ => panic!("incremental history"),
    };
    assert_eq!(history.len(), 1);
    let refused = verify_with_history(
        &asset(ASSET, EngineProfile::generous()),
        &Err("cut".to_string()),
        &unsigned_facts(),
        no_version(),
        &[],
        None,
        Vec::new(),
    );
    assert!(matches!(refused, Err(ValidateError::Format(e)) if e == "cut"));
}

#[test]
fn a_historical_section_is_verified_against_its_own_bytes() {
    let data = b"head[carrier]tail and a later update";
    let input = asset(data, EngineProfile::generous());
    let run = |earlier: Rendition| {
        verify_with_history(
            &input,
            &Ok(Some(report(Some(sound_manifest())))),
            &trusted_facts(),
            no_version(),
            &[PdfManifestStoreSection { section_index: 0, section_end: ASSET.len(), defect: None }],
            None,
            vec![Some(earlier)],
        )
    };
    let out = run(rendition(Ok(Some(report(Some(sound_manifest())))))).expect("verified");
    assert_eq!(out.validation_state, ValidationState::Invalid);
    let history = match out.report_json.get("pdf_incremental_history") {
        Some(Json::Array(items)) => items,
        _ => panic!("incremental history"),
    };
    assert!(matches!(
        history[0].get("validation_state"),
        Some(Json::Text(t)) if t == "Trusted"
    ));
    assert!(matches!(
        run(rendition(Err("cut".to_string()))),
        Err(ValidateError::Format(e)) if e == "cut"
    ));
}

#[test]
fn an_unbound_portion_is_never_released() {
    let extracted = Ok(Some(report(Some(sound_manifest()))));
    let input = asset(ASSET, EngineProfile::generous());
    let mut facts = trusted_facts();
    facts.asset.fragments.push(FragmentFacts {
        merkle_boxes: None,
        leaf: no_digests(),
    });
    let out = verify_fragmented(&input, &extracted, &facts, no_version(), &[]).expect("verified");
    assert_eq!(out.validation_state, ValidationState::Invalid);
    let refused = verify_bmff_portion_before_release(
        b"portion",
        &None,
        &[None],
        "CMAF",
        &input,
        &extracted,
        &facts,
        no_version(),
    );
    assert!(matches!(
        refused,
        Err(ValidateError::Stream(e)) if e == "BMFF portion was not Merkle-verified; release refused"
    ));
    assert!(verify_fragmented(&input, &extracted, &facts, no_version(), &[5]).is_err());
}

fn sha256_report(digest: Vec<u8>) -> DigestReport {
    DigestReport { sha256: Ok(digest), ..no_digests() }
}

/// A manifest that binds an init segment and one fragment.
fn bmff_manifest() -> ParsedManifest {
    let tree = vmap(vec![
        ("uniqueId", Value::Integer(7)),
        ("localId", Value::Integer(9)),
        ("count", Value::Integer(1)),
        ("hashes", Value::Array(vec![Value::Bytes(sha(b"portion"))])),
        ("initHash", Value::Bytes(sha(b"init"))),
    ]);
    manifest_bound_by(
        "c2pa.hash.bmff.v3",
        vmap(vec![
            ("alg", text("sha256")),
            ("exclusions", Value::Array(vec![vmap(vec![("xpath", text("/uuid"))])])),
            ("merkle", Value::Array(vec![tree])),
        ]),
    )
}

fn bmff_asset(data: &[u8]) -> AssetInput<'_> {
    let mut input = asset(data, EngineProfile::generous());
    input.mime = "video/mp4";
    input.format = Some(AssetFormat::Bmff);
    input
}

fn bmff_facts(leaves: &[&[u8]], init: &[u8]) -> ManifestFacts {
    let mut facts = trusted_facts();
    facts.asset.carriers = Ok(Vec::new());
    facts.asset.bmff.init_structural = sha256_report(sha(init));
    for (location, leaf) in leaves.iter().enumerate() {
        facts.asset.fragments.push(FragmentFacts {
            merkle_boxes: Some(vec![Ok(MerkleBox {
                unique_id: 7,
                local_id: 9,
                location,
                proof: Vec::new(),
            })]),
            leaf: sha256_report(sha(leaf)),
        });
    }
    facts
}

const INIT: &[u8] = &[0, 0, 0, 8, b'm', b'o', b'o', b'v'];

fn release(leaf: &[u8], init: &[u8]) -> Result<Vec<u8>, ValidateError> {
    let extracted = Ok(Some(report(Some(bmff_manifest()))));
    let input = bmff_asset(INIT);
    let facts = bmff_facts(&[leaf], init);
    assert!(facts_fit_asset(&input, &extracted, &facts));
    verify_bmff_portion_before_release(
        b"portion",
        &None,
        &[None],
        "CMAF",
        &input,
        &extracted,
        &facts,
        no_version(),
    )
    .map(|token| {
        assert_eq!(token.verification.validation_state, ValidationState::Trusted);
        let matched: Vec<&str> = token
            .verification
            .results
            .success
            .iter()
            .filter(|s| s.code == ASSERTION_BMFF_HASH_MATCH)
            .map(|s| s.explanation.as_str())
            .collect();
        assert_eq!(
            matched,
            vec![
                "merkle initHash valid over init segment (1 track(s))",
                "merkle initHash and 1 fragment merkle leaf hash(es) valid"
            ]
        );
        token.release().to_vec()
    })
}

#[test]
fn a_verified_portion_is_released_unmodified() {
    assert_eq!(release(b"portion", b"init").expect("released"), b"portion");
    assert!(release(b"mutated", b"init").is_err());
    assert!(release(b"portion", b"altered init").is_err());
}

fn stream(
    method: StreamMethod,
    extracted: Result<Option<StoreReport>, String>,
    leaf: &[u8],
) -> Result<StreamVerifyOutput, ValidateError> {
    let init = bmff_asset(INIT);
    let live = LiveFacts {
        keys: Vec::new(),
        segments: vec![LiveSegment { data: Vec::new(), messages: Vec::new() }],
        exclusion_paths: Vec::new(),
    };
    let names = StreamNames {
        encapsulation_token: "cmaf".to_string(),
        encapsulation_name: "CMAF".to_string(),
        method_token: "perSegment".to_string(),
        method_name: "per-segment".to_string(),
    };
    let segments: Vec<SegmentAsset> = (0..2)
        .map(|_| SegmentAsset {
            asset: bmff_asset(INIT),
            extracted: Ok(None),
            facts: bmff_facts(&[], b"init"),
            version: no_version(),
        })
        .collect();
    let input = StreamInput {
        method,
        init_defect: &None,
        segment_defects: &[None],
        names: &names,
        init: &init,
        extracted: &extracted,
        alone: &bmff_facts(&[], b"init"),
        fragmented: &bmff_facts(&[leaf], b"init"),
        live: &live,
        expected_seek_positions: &[],
    };
    assert!(stream_fits(&input, &segments));
    verify_stream(&input, no_version(), segments)
}

#[test]
fn a_stream_takes_the_lane_of_its_init_manifest() {
    let info = StreamMethod::VerifiableSegmentInfo;
    let state = |r: Result<StreamVerifyOutput, ValidateError>| match r.expect("verified") {
        StreamVerifyOutput::VerifiableSegmentInfo(out) => {
            (out.validation_state, out.results.failure.len())
        }
        StreamVerifyOutput::PerSegment(_) => panic!("one output"),
    };
    let merkle = || Ok(Some(report(Some(bmff_manifest()))));
    assert_eq!(state(stream(info, merkle(), b"portion")), (ValidationState::Trusted, 0));
    assert_eq!(state(stream(info, merkle(), b"other")).0, ValidationState::Invalid);

    let delivering =
        manifest_bound_by(SESSION_KEYS_LABEL, vmap(vec![("keys", Value::Array(Vec::new()))]));
    let (live, failures) = state(stream(info, Ok(Some(report(Some(delivering)))), b"portion"));
    assert_eq!(live, ValidationState::Invalid);
    assert!(failures > 0);

    let mut broken = report(None);
    broken.manifests = Err("cut".to_string());
    assert!(matches!(stream(info, Ok(Some(broken)), b"portion"), Err(ValidateError::Jumbf(_))));
    let chain = stream(StreamMethod::PerSegment, merkle(), b"portion").expect("verified");
    match chain {
        StreamVerifyOutput::PerSegment(out) => {
            assert_eq!(out.segments.len(), 2);
            assert!(!out.chain_valid);
            assert_eq!(out.segments[1].output.validation_state, ValidationState::Absent);
        }
        StreamVerifyOutput::VerifiableSegmentInfo(_) => panic!("a chain"),
    }
}
