use c2pa_validate::binding::verify_assertion_bindings;
use c2pa_validate::claim_fields::{v1_missing_fields, v2_missing_fields};
use c2pa_validate::claim_refs::{
    checked_hash_work_total, ClaimAssertionRefs, MAX_ASSERTION_DECODED_VALUE_NODES,
    MAX_ASSERTION_HASH_WORK_BYTES, MAX_CLAIM_ASSERTION_REFERENCES,
};
use c2pa_validate::hash::hash_bytes;
use c2pa_validate::json::Json;
use c2pa_validate::labels::{
    claim_signature_uri_is_local, is_supported_bmff_hash_label, manifest_label_conformant,
};
use c2pa_validate::manifest::{
    AssertionBox, AssetFormat, JumbfBox, ParsedManifest, Payload, StoreContext,
};
use c2pa_validate::output::{manifest_entry_json, MAX_REPORT_DECODED_VALUE_NODES};
use c2pa_validate::profile::ClaimGeneration;
use c2pa_validate::status::{
    ValidationResults, ASSERTION_ACTION_MALFORMED, ASSERTION_CBOR_INVALID,
    ASSERTION_DATA_HASH_MATCH,
    ASSERTION_HASHED_URI_MATCH, ASSERTION_HASHED_URI_MISMATCH, ASSERTION_MULTIPLE_HARD_BINDINGS,
    ASSERTION_MULTI_ASSET_HASH_MALFORMED, ASSERTION_UNDECLARED, CLAIM_HARD_BINDINGS_MISSING,
    CLAIM_MALFORMED, CLAIM_MULTIPLE, HASHED_URI_MISSING,
};
use c2pa_validate::structure::verify_claim_structure;
use c2pa_validate::value::Value;

const LABEL: &str = "urn:c2pa:00000000-0000-4000-8000-000000000001";

fn vmap(fields: Vec<(&str, Value)>) -> Value {
    Value::Dict(
        fields
            .into_iter()
            .map(|(key, value)| (Value::Text(key.to_string()), value))
            .collect(),
    )
}

fn text(s: &str) -> Value {
    Value::Text(s.to_string())
}

fn head(major: u8, n: u64, out: &mut Vec<u8>) {
    let m = major << 5;
    if n < 24 {
        out.push(m | n as u8);
    } else if n <= 0xff {
        out.push(m | 24);
        out.push(n as u8);
    } else if n <= 0xffff {
        out.push(m | 25);
        out.extend_from_slice(&(n as u16).to_be_bytes());
    } else if n <= 0xffff_ffff {
        out.push(m | 26);
        out.extend_from_slice(&(n as u32).to_be_bytes());
    } else {
        out.push(m | 27);
        out.extend_from_slice(&n.to_be_bytes());
    }
}

fn write_item(v: &Value, out: &mut Vec<u8>) -> usize {
    match v {
        Value::Integer(n) => {
            if *n >= 0 {
                head(0, *n as u64, out);
            } else {
                head(1, (-1 - *n) as u64, out);
            }
            1
        }
        Value::Bytes(b) => {
            head(2, b.len() as u64, out);
            out.extend_from_slice(b);
            1
        }
        Value::Text(t) => {
            head(3, t.len() as u64, out);
            out.extend_from_slice(t.as_bytes());
            1
        }
        Value::Array(items) => {
            head(4, items.len() as u64, out);
            let mut n = 1;
            for item in items {
                n += write_item(item, out);
            }
            n
        }
        Value::Dict(entries) => {
            head(5, entries.len() as u64, out);
            let mut n = 1;
            for (k, v) in entries {
                n += write_item(k, out);
                n += write_item(v, out);
            }
            n
        }
        Value::Tag(tag, inner) => {
            head(6, *tag, out);
            1 + write_item(inner, out)
        }
        Value::Bool(b) => {
            out.push(if *b { 0xf5 } else { 0xf4 });
            1
        }
        Value::Null => {
            out.push(0xf6);
            1
        }
        Value::Float(bits, _) => {
            out.push(0xfb);
            out.extend_from_slice(&bits.to_be_bytes());
            1
        }
    }
}

/// The value encoded, with the number of data items that it holds.
fn payload(v: Value) -> Payload {
    let mut bytes = Vec::new();
    let nodes = write_item(&v, &mut bytes);
    Payload { bytes, nodes, value: Some(v) }
}

fn sha(data: &[u8]) -> Vec<u8> {
    hash_bytes("sha256", data).expect("supported")
}

fn structural_manifest() -> ParsedManifest {
    ParsedManifest {
        label: LABEL.to_string(),
        manifest_jumbf: Vec::new(),
        assertions: Vec::new(),
        assertion_jumbf: Vec::new(),
        claim: None,
        signature_cose: None,
        claim_count: 1,
        claim_box_label: Some("c2pa.claim.v2".to_string()),
        generation: ClaimGeneration::V2,
    }
}

fn assertion(label: &str, value: Value) -> AssertionBox {
    AssertionBox { label: label.to_string(), payload: payload(value) }
}

fn jumbf(label: &str, content: &[u8]) -> JumbfBox {
    JumbfBox { label: label.to_string(), content: content.to_vec(), zeroed: false }
}

fn hashed_uri_for_assertion(label: &str) -> Value {
    vmap(vec![
        ("url", text(&format!("self#jumbf=c2pa.assertions/{label}"))),
        ("alg", text("sha256")),
        ("hash", Value::Bytes(vec![0; 32])),
    ])
}

fn check(
    m: ParsedManifest,
    claim: &Value,
    generation: ClaimGeneration,
) -> (bool, ValidationResults) {
    let manifests = [m];
    let store = StoreContext { manifests: &manifests, manifest_hashes: &[] };
    let mut results = ValidationResults::new();
    let refs = ClaimAssertionRefs::build(&manifests[0], claim, generation);
    let fatal = verify_claim_structure(
        &manifests[0],
        &store,
        claim,
        generation,
        &refs,
        AssetFormat::Jpeg,
        "self#jumbf=/c2pa/test/c2pa.signature",
        &mut results,
    );
    (fatal, results)
}

fn run_structure(claim: &Value) -> (bool, ValidationResults) {
    check(structural_manifest(), claim, ClaimGeneration::V2)
}

fn claim_with(references: Vec<Value>) -> Value {
    vmap(vec![
        ("instanceID", text("xmp:iid:test")),
        ("created_assertions", Value::Array(references)),
    ])
}

fn run_generator_icon_binding(
    generation: ClaimGeneration,
    icon_label: &str,
    expected_icon_hash: Vec<u8>,
    stored_icon_jumbf: Option<&[u8]>,
) -> (bool, ValidationResults) {
    let hard_label = "c2pa.hash.data";
    let hard_jumbf = b"hard-binding assertion jumbf";
    let content = || vmap(vec![("data", Value::Bytes(vec![1]))]);
    let icon_reference = vmap(vec![
        ("url", text(&format!("self#jumbf=c2pa.assertions/{icon_label}"))),
        ("alg", text("sha256")),
        ("hash", Value::Bytes(expected_icon_hash)),
    ]);
    let generator = vmap(vec![("name", text("generator")), ("icon", icon_reference)]);
    let hard_reference = vmap(vec![
        ("url", text(&format!("self#jumbf=c2pa.assertions/{hard_label}"))),
        ("alg", text("sha256")),
        ("hash", Value::Bytes(sha(hard_jumbf))),
    ]);
    let claim = match generation {
        ClaimGeneration::V1 => vmap(vec![
            ("instanceID", text("xmp:iid:test")),
            ("claim_generator", text("generator/1.0")),
            ("claim_generator_info", Value::Array(vec![generator])),
            ("dc:format", text("image/jpeg")),
            ("assertions", Value::Array(vec![hard_reference])),
        ]),
        ClaimGeneration::V2 => vmap(vec![
            ("instanceID", text("urn:uuid:test")),
            ("claim_generator_info", generator),
            ("created_assertions", Value::Array(vec![hard_reference])),
        ]),
    };
    let mut m = structural_manifest();
    m.generation = generation;
    m.assertions.push(assertion(hard_label, content()));
    m.assertion_jumbf.push(jumbf(hard_label, hard_jumbf));
    if let Some(icon) = stored_icon_jumbf {
        m.assertions.push(assertion(icon_label, content()));
        m.assertion_jumbf.push(jumbf(icon_label, icon));
    }
    let manifests = [m];
    let store = StoreContext { manifests: &manifests, manifest_hashes: &[] };
    let mut refs = ClaimAssertionRefs::build(&manifests[0], &claim, generation);
    let mut results = ValidationResults::new();
    let fatal = verify_claim_structure(
        &manifests[0],
        &store,
        &claim,
        generation,
        &refs,
        AssetFormat::Jpeg,
        "self#jumbf=/c2pa/test/c2pa.signature",
        &mut results,
    );
    if !fatal {
        verify_assertion_bindings(
            &claim,
            &mut refs,
            generation,
            &manifests[0].label,
            &mut results,
        );
    }
    (fatal, results)
}

#[test]
fn generator_icon_references_are_indexed_and_bound_for_both_claim_generations() {
    let icon_jumbf = b"embedded c2pa.icon assertion jumbf";
    for (generation, label) in
        [(ClaimGeneration::V1, "c2pa.icon__1"), (ClaimGeneration::V2, "c2pa.icon")]
    {
        let (fatal, results) =
            run_generator_icon_binding(generation, label, sha(icon_jumbf), Some(icon_jumbf));
        assert!(!fatal, "{generation:?}");
        assert!(results.has_success(ASSERTION_HASHED_URI_MATCH), "{generation:?}");
        assert!(!results.has_failure(HASHED_URI_MISSING), "{generation:?}");
        assert!(!results.has_failure(ASSERTION_HASHED_URI_MISMATCH), "{generation:?}");
    }
}

#[test]
fn generator_icon_missing_mismatch_and_wrong_label_fail_closed() {
    let icon_jumbf = b"embedded c2pa.icon assertion jumbf";
    let (fatal, missing) =
        run_generator_icon_binding(ClaimGeneration::V2, "c2pa.icon", sha(icon_jumbf), None);
    assert!(!fatal);
    assert!(missing.has_failure(HASHED_URI_MISSING));

    let (fatal, mismatch) = run_generator_icon_binding(
        ClaimGeneration::V2,
        "c2pa.icon",
        sha(b"different icon assertion"),
        Some(icon_jumbf),
    );
    assert!(!fatal);
    assert!(mismatch.has_failure(ASSERTION_HASHED_URI_MISMATCH));

    for label in ["c2pa.thumbnail.claim.jpeg", "c2pa.icon__0", "c2pa.icon__x"] {
        let (fatal, wrong_label) = run_generator_icon_binding(
            ClaimGeneration::V2,
            label,
            sha(icon_jumbf),
            Some(icon_jumbf),
        );
        assert!(fatal, "{label}");
        assert!(wrong_label.has_failure(CLAIM_MALFORMED), "{label}");
        assert!(!wrong_label.has_success(ASSERTION_HASHED_URI_MATCH), "{label}");
    }
}

#[test]
fn v1_generator_icons_share_the_claim_reference_bound() {
    let generator_info = (1..=MAX_CLAIM_ASSERTION_REFERENCES)
        .map(|instance| {
            vmap(vec![
                ("name", text(&format!("generator {instance}"))),
                ("icon", hashed_uri_for_assertion(&format!("c2pa.icon__{instance}"))),
            ])
        })
        .collect();
    let claim = vmap(vec![
        ("assertions", Value::Array(vec![hashed_uri_for_assertion("c2pa.hash.data")])),
        ("claim_generator_info", Value::Array(generator_info)),
    ]);
    let m = structural_manifest();
    let refs = ClaimAssertionRefs::build(&m, &claim, ClaimGeneration::V1);
    assert!(!refs.complete);
}

#[test]
fn malformed_hashed_uri_map_is_fatal() {
    let claim = claim_with(vec![
        hashed_uri_for_assertion("c2pa.hash.data"),
        vmap(vec![("hash", Value::Bytes(vec![0; 32]))]),
    ]);
    let (fatal, results) = run_structure(&claim);
    assert!(fatal);
    assert!(results.has_failure(CLAIM_MALFORMED));
}

#[test]
fn assertion_reference_count_is_bounded() {
    let claim = claim_with(
        (0..MAX_CLAIM_ASSERTION_REFERENCES + 1)
            .map(|_| hashed_uri_for_assertion("c2pa.hash.data"))
            .collect(),
    );
    let (fatal, results) = run_structure(&claim);
    assert!(fatal);
    assert!(results.has_failure(CLAIM_MALFORMED));
}

#[test]
fn supported_bmff_hard_binding_labels_are_exact_v2_v3() {
    assert!(is_supported_bmff_hash_label("c2pa.hash.bmff.v2"));
    assert!(is_supported_bmff_hash_label("c2pa.hash.bmff.v3"));
    assert!(!is_supported_bmff_hash_label("c2pa.hash.bmff"));
    assert!(!is_supported_bmff_hash_label("c2pa.hash.bmff.experimental"));

    for label in ["c2pa.hash.bmff", "c2pa.hash.bmff.experimental"] {
        let (_, results) = run_structure(&claim_with(vec![hashed_uri_for_assertion(label)]));
        assert!(results.has_failure(CLAIM_HARD_BINDINGS_MISSING), "{label}");
    }

    let (_, results) =
        run_structure(&claim_with(vec![hashed_uri_for_assertion("c2pa.hash.bmff.v3")]));
    assert!(!results.has_failure(CLAIM_HARD_BINDINGS_MISSING));
}

#[test]
fn duplicate_declaration_reference_is_fatal() {
    let mut m = structural_manifest();
    m.assertions
        .push(assertion("c2pa.actions", vmap(vec![("actions", Value::Array(Vec::new()))])));
    m.assertion_jumbf.push(jumbf("c2pa.actions", b"bounded assertion jumbf content"));
    let claim = claim_with(vec![
        hashed_uri_for_assertion("c2pa.actions"),
        hashed_uri_for_assertion("c2pa.actions"),
    ]);
    let (fatal, results) = check(m, &claim, ClaimGeneration::V2);
    assert!(fatal);
    assert!(results.has_failure(CLAIM_MALFORMED));
}

#[test]
fn assertion_digest_work_is_unique_by_resolved_label_and_algorithm() {
    let content = b"bounded assertion jumbf content";
    let mut m = structural_manifest();
    m.assertion_jumbf.push(jumbf("com.example.payload", content));
    let claim = claim_with(vec![
        hashed_uri_for_assertion("com.example.payload"),
        hashed_uri_for_assertion("com.example.payload"),
    ]);
    let mut refs = ClaimAssertionRefs::build(&m, &claim, ClaimGeneration::V2);
    assert_eq!(refs.hash_work_bytes, Some(content.len() * 2));

    let mut results = ValidationResults::new();
    for _ in 0..2 {
        verify_assertion_bindings(
            &claim,
            &mut refs,
            ClaimGeneration::V2,
            "urn:test",
            &mut results,
        );
    }
    let expected_digest = sha(content);
    assert_eq!(
        refs.jumbf_digest("com.example.payload", "sha256"),
        Some(expected_digest.as_slice())
    );
    let slots = &refs.indexed("com.example.payload").expect("indexed assertion").jumbf_digests;
    assert!(slots.sha256.is_some() && slots.sha384.is_none() && slots.sha512.is_none());
}

#[test]
fn multiple_supported_hard_bindings_are_fatal() {
    let claim = claim_with(vec![
        hashed_uri_for_assertion("c2pa.hash.data"),
        hashed_uri_for_assertion("c2pa.hash.boxes"),
    ]);
    let (fatal, results) = run_structure(&claim);
    assert!(fatal);
    assert!(results.has_failure(ASSERTION_MULTIPLE_HARD_BINDINGS));
    assert!(!results.has_failure(CLAIM_HARD_BINDINGS_MISSING));
}

#[test]
fn undeclared_assertions_are_fatal_and_excluded_from_semantics_and_report() {
    let mut m = structural_manifest();
    for (label, key) in [("c2pa.certificate-status", "ocspVals"), ("c2pa.actions", "actions")] {
        let a = assertion(label, vmap(vec![(key, Value::Array(Vec::new()))]));
        m.assertion_jumbf.push(jumbf(label, &a.payload.bytes));
        m.assertions.push(a);
    }
    let claim = claim_with(Vec::new());
    let manifests = [m];
    let store = StoreContext { manifests: &manifests, manifest_hashes: &[] };
    let refs = ClaimAssertionRefs::build(&manifests[0], &claim, ClaimGeneration::V2);
    let mut results = ValidationResults::new();
    let fatal = verify_claim_structure(
        &manifests[0],
        &store,
        &claim,
        ClaimGeneration::V2,
        &refs,
        AssetFormat::Jpeg,
        "self#jumbf=/c2pa/test/c2pa.signature",
        &mut results,
    );
    assert!(fatal);
    assert_eq!(
        results.failure.iter().filter(|status| status.code == ASSERTION_UNDECLARED).count(),
        2
    );
    let mut nodes = MAX_REPORT_DECODED_VALUE_NODES;
    let report = manifest_entry_json(
        &manifests[0],
        Some(&claim),
        false,
        Some(&refs.declared_labels),
        None,
        &mut nodes,
    );
    assert!(matches!(report.get("assertions"), Some(Json::Array(items)) if items.is_empty()));
}

fn items(j: Option<&Json>) -> &Vec<Json> {
    match j {
        Some(Json::Array(items)) => items,
        _ => panic!("an array"),
    }
}

#[test]
fn report_assertions_share_one_decode_budget() {
    let mut m = structural_manifest();
    for label in ["com.example.first", "com.example.second", "com.example.third"] {
        m.assertions
            .push(assertion(label, Value::Array(vec![Value::Null, Value::Null])));
    }
    let mut nodes = 4;
    let report = manifest_entry_json(&m, None, false, None, None, &mut nodes);
    let listed = items(report.get("assertions"));
    let first = items(listed[0].get("data"));
    assert!(first.len() == 2 && first.iter().all(|v| matches!(v, Json::Null)));
    for omitted in &listed[1..] {
        let data = omitted.get("data").expect("data");
        assert!(matches!(
            data.get("_encypher_omitted"),
            Some(Json::Text(t)) if t == "decoded assertion report node budget exceeded"
        ));
        assert!(matches!(data, Json::Object(members) if members.len() == 1));
    }
    assert_eq!(nodes, 0);
}

#[test]
fn report_assertion_data_is_unchanged_within_budget() {
    let mut m = structural_manifest();
    m.assertions.push(assertion(
        "com.example.normal",
        vmap(vec![("name", text("example")), ("enabled", Value::Bool(true))]),
    ));
    let mut nodes = MAX_REPORT_DECODED_VALUE_NODES;
    let report = manifest_entry_json(&m, None, false, None, None, &mut nodes);
    let listed = items(report.get("assertions"));
    assert_eq!(listed.len(), 1);
    assert!(matches!(
        listed[0].get("label"),
        Some(Json::Text(t)) if t == "com.example.normal"
    ));
    let data = listed[0].get("data").expect("data");
    assert!(matches!(data.get("name"), Some(Json::Text(t)) if t == "example"));
    assert!(matches!(data.get("enabled"), Some(Json::Bool(true))));
    assert!(matches!(data, Json::Object(members) if members.len() == 2));
}

#[test]
fn two_multi_asset_fallbacks_are_malformed_not_multiple_primary_bindings() {
    let claim = claim_with(vec![
        hashed_uri_for_assertion("c2pa.hash.data"),
        hashed_uri_for_assertion("c2pa.hash.multi-asset"),
        hashed_uri_for_assertion("c2pa.hash.multi-asset"),
    ]);
    let (fatal, results) = run_structure(&claim);
    assert!(fatal);
    assert!(results.has_failure(ASSERTION_MULTI_ASSET_HASH_MALFORMED));
    assert!(!results.has_failure(ASSERTION_MULTIPLE_HARD_BINDINGS));
}

#[test]
fn claim_signature_uri_rejects_cross_manifest_and_deeper_targets() {
    assert!(claim_signature_uri_is_local("self#jumbf=c2pa.signature", LABEL));
    assert!(claim_signature_uri_is_local(
        "self#jumbf=/c2pa/urn:c2pa:00000000-0000-4000-8000-000000000001/c2pa.signature",
        LABEL
    ));
    assert!(!claim_signature_uri_is_local(
        "self#jumbf=/c2pa/urn:c2pa:00000000-0000-4000-8000-000000000002/c2pa.signature",
        LABEL
    ));
    assert!(!claim_signature_uri_is_local(
        "self#jumbf=/c2pa/urn:c2pa:00000000-0000-4000-8000-000000000001/child/c2pa.signature",
        LABEL
    ));
}

#[test]
fn assertion_raw_work_is_preflighted_before_payload_decoding() {
    let half_plus_one = MAX_ASSERTION_HASH_WORK_BYTES / 2 + 1;
    assert!(checked_hash_work_total(&[half_plus_one, half_plus_one]).is_none());
    assert_eq!(checked_hash_work_total(&[1, 2, 3]), Some(6));
}

#[test]
fn assertion_value_nodes_share_one_claim_wide_budget() {
    let mut labels = vec!["c2pa.hash.data".to_string()];
    labels.extend(
        (1..MAX_CLAIM_ASSERTION_REFERENCES).map(|index| format!("com.example.custom__{index}")),
    );
    let mut m = structural_manifest();
    m.label = "urn:c2pa:node-budget".to_string();
    for label in &labels {
        let value = if label == "c2pa.hash.data" {
            vmap(vec![("alg", text("sha256")), ("hash", Value::Bytes(vec![0; 32]))])
        } else {
            Value::Array((0..256).map(|_| Value::Null).collect())
        };
        m.assertions.push(assertion(label, value));
    }
    let claim = vmap(vec![
        ("instanceID", text("xmp:iid:node-budget")),
        (
            "created_assertions",
            Value::Array(labels.iter().map(|l| hashed_uri_for_assertion(l)).collect()),
        ),
    ]);
    let manifests = [m];
    let refs = ClaimAssertionRefs::build(&manifests[0], &claim, ClaimGeneration::V2);
    assert!(refs.decode_budget_exhausted);
    assert_eq!(refs.decoded_value_nodes, MAX_ASSERTION_DECODED_VALUE_NODES);
    assert!(refs.assertions.iter().filter(|a| a.decoded.is_some()).count() < labels.len());

    let store = StoreContext { manifests: &manifests, manifest_hashes: &[] };
    let mut results = ValidationResults::new();
    let fatal = verify_claim_structure(
        &manifests[0],
        &store,
        &claim,
        ClaimGeneration::V2,
        &refs,
        AssetFormat::Jpeg,
        "self#jumbf=/c2pa/urn:c2pa:node-budget/c2pa.signature",
        &mut results,
    );
    assert!(fatal);
    assert!(results.failure.iter().any(|status| {
        status.code == CLAIM_MALFORMED
            && status.explanation.contains("aggregate decoded assertion values")
    }));
}

fn generator() -> Value {
    vmap(vec![("name", text("generator"))])
}

fn sound_claim() -> Value {
    vmap(vec![
        ("instanceID", text("xmp:iid:test")),
        ("claim_generator_info", generator()),
        (
            "created_assertions",
            Value::Array(vec![hashed_uri_for_assertion("c2pa.hash.data")]),
        ),
    ])
}

#[test]
fn malformed_v2_generator_info_is_fatal_claim_malformed() {
    let malformed = [
        ("absent", None),
        ("wrong outer type", Some(text("generator"))),
        ("empty value", Some(Value::Dict(Vec::new()))),
        ("empty array", Some(Value::Array(Vec::new()))),
        (
            "legacy array-of-maps shape",
            Some(Value::Array(vec![vmap(vec![("name", text("generator"))])])),
        ),
        ("non-map array entry", Some(Value::Array(vec![text("generator")]))),
        ("missing name", Some(vmap(vec![("version", text("1.0"))]))),
        ("non-text name", Some(vmap(vec![("name", Value::Integer(1))]))),
        ("empty name", Some(vmap(vec![("name", text(""))]))),
        (
            "icon wrong type",
            Some(vmap(vec![("name", text("generator")), ("icon", text("icon"))])),
        ),
        (
            "icon missing url",
            Some(vmap(vec![
                ("name", text("generator")),
                ("icon", vmap(vec![("hash", Value::Bytes(vec![7; 32]))])),
            ])),
        ),
        (
            "icon missing hash",
            Some(vmap(vec![
                ("name", text("generator")),
                ("icon", vmap(vec![("url", text("self#jumbf=c2pa.assertions/icon"))])),
            ])),
        ),
    ];
    for (case, info) in malformed {
        let mut fields = vec![
            ("instanceID", text("urn:uuid:test")),
            (
                "created_assertions",
                Value::Array(vec![hashed_uri_for_assertion("c2pa.hash.data")]),
            ),
        ];
        if let Some(info) = info {
            fields.push(("claim_generator_info", info));
        }
        let (fatal, results) = run_structure(&vmap(fields));
        assert!(fatal, "{case}");
        assert!(results.has_failure(CLAIM_MALFORMED), "{case}");
        assert!(
            !results.has_success(ASSERTION_DATA_HASH_MATCH),
            "{case} reached a valid integrity verdict"
        );
    }
}

#[test]
fn every_required_field_is_named_where_it_is_missing() {
    assert!(v2_missing_fields(&sound_claim()).is_empty());
    assert_eq!(
        v2_missing_fields(&vmap(vec![])),
        vec!["instanceID", "claim_generator_info", "created_assertions"]
    );
    let versioned = |version: Value| {
        vmap(vec![
            ("instanceID", text("xmp:iid:test")),
            (
                "claim_generator_info",
                vmap(vec![
                    ("name", text("generator")),
                    ("version", version),
                    ("icon", hashed_uri_for_assertion("c2pa.icon")),
                ]),
            ),
            ("created_assertions", Value::Array(Vec::new())),
        ])
    };
    assert!(v2_missing_fields(&versioned(text("1.0"))).is_empty());
    assert_eq!(
        v2_missing_fields(&versioned(Value::Integer(1))),
        vec!["claim_generator_info"]
    );
    assert_eq!(
        v1_missing_fields(&vmap(vec![])),
        vec!["instanceID", "claim_generator", "claim_generator_info", "dc:format", "assertions"]
    );
    let v1 = |generators: Vec<Value>| {
        vmap(vec![
            ("instanceID", text("xmp:iid:test")),
            ("claim_generator", text("generator/1.0")),
            ("claim_generator_info", Value::Array(generators)),
            ("dc:format", text("image/jpeg")),
            ("assertions", Value::Array(Vec::new())),
        ])
    };
    assert!(v1_missing_fields(&v1(vec![generator(), generator()])).is_empty());
    assert_eq!(
        v1_missing_fields(&v1(vec![generator(), text("generator")])),
        vec!["claim_generator_info"]
    );
}

#[test]
fn the_remaining_structural_defects_have_their_codes() {
    let (fatal, results) = run_structure(&vmap(vec![]));
    assert!(fatal);
    assert_eq!(
        results.failure[0].explanation,
        "claim missing required field(s): instanceID, claim_generator_info, created_assertions"
    );

    let mut twice = structural_manifest();
    twice.claim_count = 2;
    let (fatal, results) = check(twice, &sound_claim(), ClaimGeneration::V2);
    assert!(fatal && results.has_failure(CLAIM_MULTIPLE));

    let mut doubled = structural_manifest();
    doubled.assertion_jumbf.push(jumbf("a", b"1"));
    doubled.assertion_jumbf.push(jumbf("a", b"2"));
    let (fatal, _) = check(doubled, &sound_claim(), ClaimGeneration::V2);
    assert!(fatal);

    let mut named = structural_manifest();
    named.label = "not-a-label".to_string();
    let (fatal, results) = check(named, &sound_claim(), ClaimGeneration::V2);
    assert!(!fatal && results.has_failure(CLAIM_MALFORMED));

    let mut garbled = structural_manifest();
    garbled.assertions.push(AssertionBox {
        label: "c2pa.hash.data".to_string(),
        payload: Payload { bytes: vec![0xff], nodes: 0, value: None },
    });
    let (_, results) = check(garbled, &sound_claim(), ClaimGeneration::V2);
    assert!(results.has_failure(ASSERTION_CBOR_INVALID));

    assert!(manifest_label_conformant(LABEL));
    assert!(manifest_label_conformant("urn:c2pa:guid:vendor:2_1"));
    assert!(manifest_label_conformant("vendor:urn:uuid:guid"));
    assert!(!manifest_label_conformant("urn:c2pa:guid:a vendor"));
    assert!(!manifest_label_conformant(&format!("{LABEL}:ven\u{7}dor")));
    assert!(!manifest_label_conformant(&format!("{LABEL}:vendor\u{7f}")));
    assert!(manifest_label_conformant(&format!("{LABEL}:{}", "~".repeat(32))));
    assert!(!manifest_label_conformant(&format!("{LABEL}:{}", "~".repeat(33))));
    assert!(!manifest_label_conformant("urn:c2pa:guid:vendor:two"));
    assert!(!manifest_label_conformant("urn:c2pa"));
}

fn with_actions(actions: Vec<&str>) -> (bool, ValidationResults) {
    let mut m = structural_manifest();
    let list = actions
        .iter()
        .map(|a| vmap(vec![("action", text(a)), ("digitalSourceType", text("source"))]))
        .collect();
    m.assertions
        .push(assertion("c2pa.actions.v2", vmap(vec![("actions", Value::Array(list))])));
    let claim = claim_with(vec![
        hashed_uri_for_assertion("c2pa.hash.data"),
        hashed_uri_for_assertion("c2pa.actions.v2"),
    ]);
    check(m, &claim, ClaimGeneration::V2)
}

#[test]
fn an_asset_comes_into_being_once_and_first() {
    let (_, good) = with_actions(vec!["c2pa.created", "c2pa.edited"]);
    assert!(!good.has_failure(ASSERTION_ACTION_MALFORMED), "{:?}", good.failure);
    let (_, late) = with_actions(vec!["c2pa.edited", "c2pa.created"]);
    assert!(late.has_failure(ASSERTION_ACTION_MALFORMED));
    let (_, twice) = with_actions(vec!["c2pa.created", "c2pa.opened"]);
    assert!(twice.has_failure(ASSERTION_ACTION_MALFORMED));
}
