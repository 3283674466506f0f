use c2pa_validate::binding::AssetFacts;
use c2pa_validate::bmff::{BmffFacts, DigestReport};
use c2pa_validate::boxes::SpanReport;
use c2pa_validate::claim_refs::ClaimAssertionRefs;
use c2pa_validate::collection::ZipFacts;
use c2pa_validate::credential::{CredentialFacts, SignatureCheck, TimestampFacts};
use c2pa_validate::hash::hash_bytes;
use c2pa_validate::json::Json;
use c2pa_validate::manifest::{
    AssertionBox, AssetFormat, JumbfBox, ParsedManifest, Payload, StoreContext,
};
use c2pa_validate::multi_asset::MultiAssetFacts;
use c2pa_validate::ocsp::CertificatePool;
use c2pa_validate::online::OnlineFacts;
use c2pa_validate::output::{VersionVerdict, MAX_REPORT_DECODED_VALUE_NODES};
use c2pa_validate::pipeline::{verify_manifest, IdentityFacts, ManifestFacts, ManifestInput, OcspFacts};
use c2pa_validate::profile::{ClaimGeneration, EngineProfile};
use c2pa_validate::refs::{ref_fields, verify_assertion_references};
use c2pa_validate::status::{
    ValidationResults, ALGORITHM_UNSUPPORTED, HASHED_URI_MISMATCH, HASHED_URI_MISSING,
};
use c2pa_validate::value::Value;

const MANIFEST: &str = "urn:c2pa:active";

fn vmap(fields: Vec<(&str, Value)>) -> Value {
    Value::Dict(
        fields
            .into_iter()
            .map(|(key, value)| (Value::Text(key.to_string()), value))
            .collect(),
    )
}

fn text(s: &str) -> Value {
    Value::Text(s.to_string())
}

fn copy(v: &Value) -> Value {
    match v {
        Value::Integer(n) => Value::Integer(*n),
        Value::Bytes(b) => Value::Bytes(b.clone()),
        Value::Text(t) => Value::Text(t.clone()),
        Value::Array(items) => Value::Array(items.iter().map(copy).collect()),
        Value::Dict(entries) => {
            Value::Dict(entries.iter().map(|(k, v)| (copy(k), copy(v))).collect())
        }
        Value::Tag(n, inner) => Value::Tag(*n, Box::new(copy(inner))),
        Value::Bool(b) => Value::Bool(*b),
        Value::Null => Value::Null,
        Value::Float(bits, shown) => Value::Float(*bits, shown.clone()),
    }
}

fn head(major: u8, n: u64, out: &mut Vec<u8>) {
    let m = major << 5;
    if n < 24 {
        out.push(m | n as u8);
    } else if n <= 0xff {
        out.push(m | 24);
        out.push(n as u8);
    } else if n <= 0xffff {
        out.push(m | 25);
        out.extend_from_slice(&(n as u16).to_be_bytes());
    } else if n <= 0xffff_ffff {
        out.push(m | 26);
        out.extend_from_slice(&(n as u32).to_be_bytes());
    } else {
        out.push(m | 27);
        out.extend_from_slice(&n.to_be_bytes());
    }
}

fn write_item(v: &Value, out: &mut Vec<u8>) -> usize {
    match v {
        Value::Integer(n) => {
            if *n >= 0 {
                head(0, *n as u64, out);
            } else {
                head(1, (-1 - *n) as u64, out);
            }
            1
        }
        Value::Bytes(b) => {
            head(2, b.len() as u64, out);
            out.extend_from_slice(b);
            1
        }
        Value::Text(t) => {
            head(3, t.len() as u64, out);
            out.extend_from_slice(t.as_bytes());
            1
        }
        Value::Array(items) => {
            head(4, items.len() as u64, out);
            let mut n = 1;
            for item in items {
                n += write_item(item, out);
            }
            n
        }
        Value::Dict(entries) => {
            head(5, entries.len() as u64, out);
            let mut n = 1;
            for (k, v) in entries {
                n += write_item(k, out);
                n += write_item(v, out);
            }
            n
        }
        Value::Tag(tag, inner) => {
            head(6, *tag, out);
            1 + write_item(inner, out)
        }
        Value::Bool(b) => {
            out.push(if *b { 0xf5 } else { 0xf4 });
            1
        }
        Value::Null => {
            out.push(0xf6);
            1
        }
        Value::Float(bits, _) => {
            out.push(0xfb);
            out.extend_from_slice(&bits.to_be_bytes());
            1
        }
    }
}

/// The value encoded, with the number of data items that it holds.
fn payload(v: Value) -> Payload {
    let mut bytes = Vec::new();
    let nodes = write_item(&v, &mut bytes);
    Payload { bytes, nodes, value: Some(v) }
}

/// The content of an assertion superbox: its description box and a CBOR box.
fn box_content(label: &str, cbor: &[u8]) -> Vec<u8> {
    let mut description = Vec::new();
    description.extend_from_slice(&[
        0x63, 0x62, 0x6f, 0x72, 0x00, 0x11, 0x00, 0x10, 0x80, 0x00, 0x00, 0xaa, 0x00, 0x38, 0x9b,
        0x71,
    ]);
    description.push(3);
    description.extend_from_slice(label.as_bytes());
    description.push(0);
    let mut out = Vec::new();
    out.extend_from_slice(&((description.len() + 8) as u32).to_be_bytes());
    out.extend_from_slice(b"jumd");
    out.extend_from_slice(&description);
    out.extend_from_slice(&((cbor.len() + 8) as u32).to_be_bytes());
    out.extend_from_slice(b"cbor");
    out.extend_from_slice(cbor);
    out
}

fn no_digests() -> DigestReport {
    DigestReport {
        sha256: Err("not computed".to_string()),
        sha384: Err("not computed".to_string()),
        sha512: Err("not computed".to_string()),
    }
}

fn no_bmff() -> BmffFacts {
    BmffFacts {
        structural: no_digests(),
        init_structural: no_digests(),
        mdats: None,
        merkle_boxes: None,
    }
}

fn plain_asset() -> AssetFacts {
    AssetFacts {
        bmff: no_bmff(),
        fragments: Vec::new(),
        spans: SpanReport::Unsupported,
        zip: ZipFacts { central: None, entries: Vec::new() },
        carriers: Ok(Vec::new()),
        multi_asset: MultiAssetFacts { locator_ranges: Ok(Vec::new()), parts: Vec::new() },
    }
}

/// Facts of a manifest whose signature carries no certificate.
fn unsigned_facts() -> ManifestFacts {
    ManifestFacts {
        pool: CertificatePool { certificates: Vec::new(), chain_len: 0, issuers: Vec::new() },
        chain_error: None,
        timestamp: TimestampFacts {
            header: None,
            input_formed: false,
            token_read: false,
            inspection_error: None,
            verification: None,
        },
        credential: CredentialFacts {
            judged_at: 0,
            chain: None,
            leaf_valid: false,
            leaf_acceptable: false,
            signature: SignatureCheck::Valid,
            allowed: None,
        },
        ocsp: OcspFacts {
            staples: Vec::new(),
            max_response_bytes: 262_144,
            verdicts: Vec::new(),
            signed_at: None,
            verification_time: 0,
        },
        online: OnlineFacts {
            answers: Vec::new(),
            queries: Vec::new(),
            verification_time: 0,
        },
        identity: IdentityFacts {
            statuses: ValidationResults::new(),
            judged_at: 0,
            claim_timestamp: None,
        },
        signer: None,
        asset: plain_asset(),
    }
}

fn no_version() -> VersionVerdict {
    VersionVerdict {
        evaluations: Vec::new(),
        validated_under: None,
        document: Json::Null,
        document_when_broken: Json::Null,
    }
}

fn sha(bytes: &[u8]) -> Vec<u8> {
    hash_bytes("sha256", bytes).expect("supported")
}

/// One manifest that carries the given assertions.
fn fixture(assertions: Vec<(&str, Value)>) -> ParsedManifest {
    let mut jumbf = Vec::new();
    let mut boxes = Vec::new();
    for (label, value) in assertions {
        let p = payload(value);
        jumbf.push(JumbfBox {
            label: label.to_string(),
            content: box_content(label, &p.bytes),
            zeroed: false,
        });
        boxes.push(AssertionBox { label: label.to_string(), payload: p });
    }
    ParsedManifest {
        label: MANIFEST.to_string(),
        manifest_jumbf: Vec::new(),
        assertions: boxes,
        assertion_jumbf: jumbf,
        claim: None,
        signature_cose: None,
        claim_count: 1,
        claim_box_label: None,
        generation: ClaimGeneration::V2,
    }
}

fn content_digest(m: &ParsedManifest, label: &str) -> Vec<u8> {
    sha(&m.assertion_jumbf.iter().find(|b| b.label == label).expect("assertion").content)
}

fn reference_list(labels: &[&str]) -> Value {
    Value::Array(
        labels
            .iter()
            .map(|label| {
                vmap(vec![
                    ("url", text(&format!("self#jumbf=c2pa.assertions/{label}"))),
                    ("hash", Value::Bytes(vec![0; 32])),
                ])
            })
            .collect(),
    )
}

fn claim_for(labels: &[&str]) -> Value {
    vmap(vec![("created_assertions", reference_list(labels))])
}

fn run(m: ParsedManifest, claim: &Value) -> ValidationResults {
    run_as(m, claim, ClaimGeneration::V2, EngineProfile::generous())
}

fn run_as(
    m: ParsedManifest,
    claim: &Value,
    generation: ClaimGeneration,
    profile: EngineProfile,
) -> ValidationResults {
    let manifests = [m];
    let refs = ClaimAssertionRefs::build(&manifests[0], claim, generation);
    let mut results = ValidationResults::new();
    verify_assertion_references(
        claim,
        &refs,
        generation,
        profile,
        MANIFEST,
        &manifests,
        &mut results,
    );
    results
}

fn hashed_uri(label: &str, hash: Vec<u8>) -> Value {
    vmap(vec![
        ("url", text(&format!("self#jumbf=c2pa.assertions/{label}"))),
        ("hash", Value::Bytes(hash)),
        ("alg", text("sha256")),
    ])
}

/// An ingredient thumbnail reference whose digest matches is silent; one that
/// does not is reported.
#[test]
fn ingredient_thumbnail_reference_digest_is_enforced() {
    let thumb = vmap(vec![("data", Value::Bytes(vec![7; 16]))]);
    let staged = fixture(vec![("c2pa.thumbnail.ingredient", copy(&thumb))]);
    let digest = content_digest(&staged, "c2pa.thumbnail.ingredient");

    let good = fixture(vec![
        ("c2pa.thumbnail.ingredient", copy(&thumb)),
        (
            "c2pa.ingredient.v3",
            vmap(vec![
                ("relationship", text("parentOf")),
                ("thumbnail", hashed_uri("c2pa.thumbnail.ingredient", digest)),
            ]),
        ),
    ]);
    let results = run(good, &claim_for(&["c2pa.thumbnail.ingredient", "c2pa.ingredient.v3"]));
    assert!(!results.has_failure(HASHED_URI_MISMATCH));
    assert!(!results.has_failure(HASHED_URI_MISSING));

    let tampered = fixture(vec![
        ("c2pa.thumbnail.ingredient", thumb),
        (
            "c2pa.ingredient.v3",
            vmap(vec![
                ("relationship", text("parentOf")),
                ("thumbnail", hashed_uri("c2pa.thumbnail.ingredient", vec![0xAB; 32])),
            ]),
        ),
    ]);
    let results = run(
        tampered,
        &claim_for(&["c2pa.thumbnail.ingredient", "c2pa.ingredient.v3"]),
    );
    assert!(results.has_failure(HASHED_URI_MISMATCH));
}

/// A reference naming a box the store does not carry is missing, and an
/// `activeManifest` link is not walked here.
#[test]
fn unresolvable_reference_reports_missing_and_active_manifest_is_exempt() {
    let m = fixture(vec![(
        "c2pa.ingredient.v3",
        vmap(vec![
            ("relationship", text("parentOf")),
            ("thumbnail", hashed_uri("c2pa.thumbnail.absent", vec![1; 32])),
            (
                "activeManifest",
                vmap(vec![
                    ("url", text("self#jumbf=/c2pa/urn:c2pa:gone")),
                    ("hash", Value::Bytes(vec![2; 32])),
                    ("alg", text("sha256")),
                ]),
            ),
        ]),
    )]);
    let results = run(m, &claim_for(&["c2pa.ingredient.v3"]));
    assert_eq!(
        results.failure.iter().filter(|status| status.code == HASHED_URI_MISSING).count(),
        1
    );
    assert!(results
        .failure
        .iter()
        .all(|status| !status.explanation.contains("activeManifest")));
}

/// A `softwareAgent.icon` inside a nested `related` action is still a reference
/// field, so a tampered one fails.
#[test]
fn nested_related_action_icon_is_walked() {
    let icon = vmap(vec![("data", Value::Bytes(vec![3; 8]))]);
    let related_action = vmap(vec![
        ("action", text("c2pa.edited")),
        (
            "softwareAgent",
            vmap(vec![
                ("name", text("agent")),
                ("icon", hashed_uri("c2pa.icon", vec![0xCD; 32])),
            ]),
        ),
    ]);
    let actions = vmap(vec![(
        "actions",
        Value::Array(vec![vmap(vec![
            ("action", text("c2pa.created")),
            ("related", Value::Array(vec![related_action])),
        ])]),
    )]);
    let m = fixture(vec![("c2pa.icon", icon), ("c2pa.actions.v2", actions)]);
    let results = run(m, &claim_for(&["c2pa.icon", "c2pa.actions.v2"]));
    assert!(results.has_failure(HASHED_URI_MISMATCH));
}

/// Nothing inside the `metadata` subtree is validated.
#[test]
fn metadata_subtree_is_never_validated() {
    let m = fixture(vec![(
        "c2pa.ingredient.v3",
        vmap(vec![
            ("relationship", text("parentOf")),
            ("metadata", vmap(vec![("reference", hashed_uri("c2pa.absent", vec![9; 32]))])),
        ]),
    )]);
    let results = run(m, &claim_for(&["c2pa.ingredient.v3"]));
    assert!(results.failure.is_empty(), "{:?}", results.failure);
}

/// External data is outside standard validation; a same-manifest `data`
/// reference is enforced.
#[test]
fn external_data_reference_is_left_to_external_validation() {
    let external = fixture(vec![(
        "c2pa.ingredient.v3",
        vmap(vec![
            ("relationship", text("inputTo")),
            (
                "data",
                vmap(vec![
                    ("url", text("https://example.com/data.bin")),
                    ("hash", Value::Bytes(vec![4; 32])),
                    ("alg", text("sha256")),
                ]),
            ),
        ]),
    )]);
    let results = run(external, &claim_for(&["c2pa.ingredient.v3"]));
    assert!(results.failure.is_empty(), "{:?}", results.failure);

    let internal = fixture(vec![
        ("c2pa.embedded-data", vmap(vec![("v", Value::Bytes(vec![5]))])),
        (
            "c2pa.ingredient.v3",
            vmap(vec![
                ("relationship", text("inputTo")),
                ("data", hashed_uri("c2pa.embedded-data", vec![6; 32])),
            ]),
        ),
    ]);
    let results = run(internal, &claim_for(&["c2pa.embedded-data", "c2pa.ingredient.v3"]));
    assert!(results.has_failure(HASHED_URI_MISMATCH));
}

fn inherited(alg: Option<&str>, claim_alg: Option<&str>) -> ValidationResults {
    let thumb = vmap(vec![("data", Value::Bytes(vec![8; 4]))]);
    let staged = fixture(vec![("c2pa.thumbnail.ingredient", copy(&thumb))]);
    let digest = content_digest(&staged, "c2pa.thumbnail.ingredient");
    let mut reference = vec![
        ("url", text("self#jumbf=c2pa.assertions/c2pa.thumbnail.ingredient")),
        ("hash", Value::Bytes(digest)),
    ];
    if let Some(alg) = alg {
        reference.push(("alg", text(alg)));
    }
    let m = fixture(vec![
        ("c2pa.thumbnail.ingredient", thumb),
        (
            "c2pa.ingredient.v3",
            vmap(vec![
                ("relationship", text("parentOf")),
                ("thumbnail", vmap(reference)),
            ]),
        ),
    ]);
    let mut claim = claim_for(&["c2pa.thumbnail.ingredient", "c2pa.ingredient.v3"]);
    if let (Some(alg), Value::Dict(entries)) = (claim_alg, &mut claim) {
        entries.push((text("alg"), text(alg)));
    }
    run(m, &claim)
}

/// The reference's own `alg` wins; otherwise the assertion's, otherwise the
/// claim's. An algorithm that cannot be recomputed never passes silently.
#[test]
fn hash_algorithm_is_inherited_then_checked() {
    let results = inherited(None, Some("sha256"));
    assert!(results.failure.is_empty(), "{:?}", results.failure);
    let results = inherited(None, None);
    assert!(results.has_failure(ALGORITHM_UNSUPPORTED));
    let results = inherited(Some("md5"), Some("sha256"));
    assert!(results.has_failure(ALGORITHM_UNSUPPORTED));
    assert!(!results.has_failure(HASHED_URI_MISMATCH));
}

/// Multi-instance labels resolve to their base schema entry, and a vendor
/// assertion is never walked.
#[test]
fn schema_lookup_handles_instances_and_ignores_vendor_assertions() {
    assert!(!ref_fields("c2pa.ingredient.v3__2").is_empty());
    assert!(ref_fields("c2pa.ingredient.v3__x").is_empty());
    assert!(ref_fields("com.example.thing").is_empty());

    let m = fixture(vec![(
        "com.example.thing",
        vmap(vec![("thumbnail", hashed_uri("c2pa.absent", vec![1; 32]))]),
    )]);
    let results = run(m, &claim_for(&["com.example.thing"]));
    assert!(results.failure.is_empty(), "{:?}", results.failure);
}

fn v1_manifest() -> ParsedManifest {
    let ingredient = vmap(vec![("relationship", text("parentOf"))]);
    let actions = vmap(vec![(
        "actions",
        Value::Array(vec![vmap(vec![
            ("action", text("c2pa.opened")),
            (
                "parameters",
                vmap(vec![("ingredient", hashed_uri("c2pa.ingredient", vec![0xEE; 32]))]),
            ),
        ])]),
    )]);
    fixture(vec![("c2pa.ingredient", ingredient), ("c2pa.actions", actions)])
}

/// A v1 claim is held to the reference rule only under strict conformance.
#[test]
fn a_v1_claim_is_held_to_the_reference_rule_only_under_strict_conformance() {
    let claim = vmap(vec![(
        "assertions",
        reference_list(&["c2pa.ingredient", "c2pa.actions"]),
    )]);
    let generous = run_as(
        v1_manifest(),
        &claim,
        ClaimGeneration::V1,
        EngineProfile::generous(),
    );
    assert!(generous.failure.is_empty(), "{:?}", generous.failure);

    let strict = run_as(
        v1_manifest(),
        &claim,
        ClaimGeneration::V1,
        EngineProfile::conformance_v2_2(),
    );
    assert!(strict.has_failure(HASHED_URI_MISMATCH));
}

/// A retargeted nested reference must reach a consumer's report in the default
/// posture.
#[test]
fn a_retargeted_nested_reference_reaches_the_verification_report() {
    let thumb = vmap(vec![("data", Value::Bytes(vec![7; 16]))]);
    let mut m = fixture(vec![
        ("c2pa.thumbnail.ingredient", thumb),
        (
            "c2pa.ingredient.v3",
            vmap(vec![
                ("relationship", text("parentOf")),
                ("thumbnail", hashed_uri("c2pa.thumbnail.ingredient", vec![0xAB; 32])),
            ]),
        ),
    ]);
    m.claim = Some(payload(claim_for(&["c2pa.thumbnail.ingredient", "c2pa.ingredient.v3"])));
    m.claim_box_label = Some("c2pa.claim.v2".to_string());
    let manifests = [m];
    let store = StoreContext { manifests: &manifests, manifest_hashes: &[] };
    let facts = unsigned_facts();
    let input = ManifestInput {
        manifest: &manifests[0],
        store: &store,
        data: &[],
        format: AssetFormat::C2paStore,
        prehashed: None,
        engine: EngineProfile::generous(),
        verification_time: 0,
        facts: &facts,
    };
    let mut nodes = MAX_REPORT_DECODED_VALUE_NODES;
    let out = verify_manifest(&input, no_version(), &mut nodes);
    assert!(out.results.has_failure(HASHED_URI_MISMATCH), "{:?}", out.results.failure);
}

/// The ceiling counts references over all fields, and is no lower for those of
/// an early field.
#[test]
fn the_reference_ceiling_holds_over_all_fields() {
    let exceeded = |n: usize| {
        let list = (0..n).map(|_| hashed_uri("gone", vec![0; 32])).collect();
        let actions = vmap(vec![(
            "actions",
            Value::Array(vec![vmap(vec![
                ("action", text("c2pa.created")),
                ("parameters", vmap(vec![("ingredients", Value::Array(list))])),
            ])]),
        )]);
        let m = fixture(vec![("c2pa.actions.v2", actions)]);
        run(m, &claim_for(&["c2pa.actions.v2"]))
            .failure
            .iter()
            .any(|s| s.explanation.contains("exceeds verifier bound (4096)"))
    };
    assert!(!exceeded(2_049));
    assert!(!exceeded(4_095));
    assert!(exceeded(4_096));
    assert!(exceeded(5_000));
}
