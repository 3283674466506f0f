use c2pa_validate::binding::{
    verify_data_hash, verify_prehashed_hard_binding, AssetFacts, OperativeBinding,
};
use c2pa_validate::bmff::{BmffFacts, DigestReport};
use c2pa_validate::boxes::{BoxSpan, SpanReport};
use c2pa_validate::claim_refs::ClaimAssertionRefs;
use c2pa_validate::collection::{ZipEntry, ZipFacts};
use c2pa_validate::exclusions::MAX_DATA_HASH_EXCLUSIONS;
use c2pa_validate::hash::{hash_bytes, hash_parts};
use c2pa_validate::manifest::{AssertionBox, AssetFormat, ParsedManifest, Payload, StoreContext};
use c2pa_validate::multi_asset::{MultiAssetFacts, PartFacts};
use c2pa_validate::profile::ClaimGeneration;
use c2pa_validate::status::{
    ValidationResults, ALGORITHM_UNSUPPORTED, ASSERTION_BMFF_HASH_MALFORMED,
    ASSERTION_BMFF_HASH_MATCH, ASSERTION_BMFF_HASH_MISMATCH, ASSERTION_BOXES_HASH_MALFORMED,
    ASSERTION_BOXES_HASH_MATCH, ASSERTION_BOXES_HASH_MISMATCH, ASSERTION_BOXES_HASH_UNKNOWN_BOX,
    ASSERTION_COLLECTION_HASH_INCORRECT_FILE_COUNT, ASSERTION_COLLECTION_HASH_INVALID_URI,
    ASSERTION_COLLECTION_HASH_MALFORMED, ASSERTION_COLLECTION_HASH_MATCH,
    ASSERTION_COLLECTION_HASH_MISMATCH, ASSERTION_DATA_HASH_MATCH, ASSERTION_DATA_HASH_MISMATCH,
    ASSERTION_HASHED_URI_MISMATCH, ASSERTION_MULTIPLE_HARD_BINDINGS,
    ASSERTION_MULTI_ASSET_HASH_MALFORMED, ASSERTION_MULTI_ASSET_HASH_MATCH,
};
use c2pa_validate::structure::verify_claim_structure;
use c2pa_validate::value::Value;

fn vmap(fields: Vec<(&str, Value)>) -> Value {
    Value::Dict(
        fields
            .into_iter()
            .map(|(key, value)| (Value::Text(key.to_string()), value))
            .collect(),
    )
}

fn text(s: &str) -> Value {
    Value::Text(s.to_string())
}

fn copy(v: &Value) -> Value {
    match v {
        Value::Integer(n) => Value::Integer(*n),
        Value::Bytes(b) => Value::Bytes(b.clone()),
        Value::Text(t) => Value::Text(t.clone()),
        Value::Array(items) => Value::Array(items.iter().map(copy).collect()),
        Value::Dict(entries) => {
            Value::Dict(entries.iter().map(|(k, v)| (copy(k), copy(v))).collect())
        }
        Value::Tag(n, inner) => Value::Tag(*n, Box::new(copy(inner))),
        Value::Bool(b) => Value::Bool(*b),
        Value::Null => Value::Null,
        Value::Float(bits, shown) => Value::Float(*bits, shown.clone()),
    }
}

fn head(major: u8, n: u64, out: &mut Vec<u8>) {
    let m = major << 5;
    if n < 24 {
        out.push(m | n as u8);
    } else if n <= 0xff {
        out.push(m | 24);
        out.push(n as u8);
    } else if n <= 0xffff {
        out.push(m | 25);
        out.extend_from_slice(&(n as u16).to_be_bytes());
    } else if n <= 0xffff_ffff {
        out.push(m | 26);
        out.extend_from_slice(&(n as u32).to_be_bytes());
    } else {
        out.push(m | 27);
        out.extend_from_slice(&n.to_be_bytes());
    }
}

fn write_item(v: &Value, out: &mut Vec<u8>) -> usize {
    match v {
        Value::Integer(n) => {
            if *n >= 0 {
                head(0, *n as u64, out);
            } else {
                head(1, (-1 - *n) as u64, out);
            }
            1
        }
        Value::Bytes(b) => {
            head(2, b.len() as u64, out);
            out.extend_from_slice(b);
            1
        }
        Value::Text(t) => {
            head(3, t.len() as u64, out);
            out.extend_from_slice(t.as_bytes());
            1
        }
        Value::Array(items) => {
            head(4, items.len() as u64, out);
            let mut n = 1;
            for item in items {
                n += write_item(item, out);
            }
            n
        }
        Value::Dict(entries) => {
            head(5, entries.len() as u64, out);
            let mut n = 1;
            for (k, v) in entries {
                n += write_item(k, out);
                n += write_item(v, out);
            }
            n
        }
        Value::Tag(tag, inner) => {
            head(6, *tag, out);
            1 + write_item(inner, out)
        }
        Value::Bool(b) => {
            out.push(if *b { 0xf5 } else { 0xf4 });
            1
        }
        Value::Null => {
            out.push(0xf6);
            1
        }
        Value::Float(bits, _) => {
            out.push(0xfb);
            out.extend_from_slice(&bits.to_be_bytes());
            1
        }
    }
}

/// The value encoded, with the number of data items that it holds.
fn payload(v: Value) -> Payload {
    let mut bytes = Vec::new();
    let nodes = write_item(&v, &mut bytes);
    Payload { bytes, nodes, value: Some(v) }
}

fn no_digests() -> DigestReport {
    DigestReport {
        sha256: Err("not computed".to_string()),
        sha384: Err("not computed".to_string()),
        sha512: Err("not computed".to_string()),
    }
}

fn no_bmff() -> BmffFacts {
    BmffFacts {
        structural: no_digests(),
        init_structural: no_digests(),
        mdats: None,
        merkle_boxes: None,
    }
}

fn plain_asset() -> AssetFacts {
    AssetFacts {
        bmff: no_bmff(),
        fragments: Vec::new(),
        spans: SpanReport::Unsupported,
        zip: ZipFacts { central: None, entries: Vec::new() },
        carriers: Ok(Vec::new()),
        multi_asset: MultiAssetFacts { locator_ranges: Ok(Vec::new()), parts: Vec::new() },
    }
}

fn sha(data: &[u8]) -> Vec<u8> {
    hash_bytes("sha256", data).expect("supported")
}

fn hashed_uri_for_assertion(label: &str) -> Value {
    vmap(vec![
        ("url", text(&format!("self#jumbf=c2pa.assertions/{label}"))),
        ("alg", text("sha256")),
        ("hash", Value::Bytes(vec![0; 32])),
    ])
}

fn manifest(assertions: Vec<(&str, Value)>) -> ParsedManifest {
    ParsedManifest {
        label: "urn:test".to_string(),
        manifest_jumbf: Vec::new(),
        assertions: assertions
            .into_iter()
            .map(|(label, v)| AssertionBox { label: label.to_string(), payload: payload(v) })
            .collect(),
        assertion_jumbf: Vec::new(),
        claim: None,
        signature_cose: None,
        claim_count: 1,
        claim_box_label: None,
        generation: ClaimGeneration::V2,
    }
}

/// Verify the hard binding of a manifest that declares every given assertion.
fn run(
    assertions: Vec<(&str, Value)>,
    data: &[u8],
    format: AssetFormat,
    facts: &AssetFacts,
    seeded: Option<&str>,
) -> (ValidationResults, &'static str) {
    let claim = vmap(vec![(
        "created_assertions",
        Value::Array(assertions.iter().map(|(l, _)| hashed_uri_for_assertion(l)).collect()),
    )]);
    let m = manifest(assertions);
    let refs = ClaimAssertionRefs::build(&m, &claim, ClaimGeneration::V2);
    let mut results = ValidationResults::new();
    if let Some(code) = seeded {
        results.push_failure(
            code,
            "self#jumbf=/c2pa/urn:test/c2pa.assertions/c2pa.actions.v2".to_string(),
            "tampered assertion".to_string(),
        );
    }
    let operative =
        verify_data_hash(&claim, &refs, data, format, facts, "urn:test", &mut results);
    let kind = match operative {
        Some(OperativeBinding::Primary(_)) => "primary",
        Some(OperativeBinding::MultiAsset(_)) => "multi-asset",
        None => "none",
    };
    (results, kind)
}

fn data_hash(hash: Vec<u8>) -> Value {
    vmap(vec![("alg", text("sha256")), ("hash", Value::Bytes(hash))])
}

fn run_data_hash(data: &[u8], preseed_tamper: bool) -> ValidationResults {
    let seeded = if preseed_tamper { Some(ASSERTION_HASHED_URI_MISMATCH) } else { None };
    run(
        vec![("c2pa.hash.data", data_hash(sha(data)))],
        data,
        AssetFormat::Jpeg,
        &plain_asset(),
        seeded,
    )
    .0
}

#[test]
fn data_hash_matches_when_intact() {
    let data = b"the quick brown fox";
    let r = run_data_hash(data, false);
    assert!(r.has_success(ASSERTION_DATA_HASH_MATCH));
}

#[test]
fn data_hash_match_suppressed_when_assertion_tampered() {
    let data = b"the quick brown fox";
    let r = run_data_hash(data, true);
    assert!(!r.has_success(ASSERTION_DATA_HASH_MATCH));
    assert!(r.has_failure(ASSERTION_HASHED_URI_MISMATCH));
}

#[test]
fn a_data_hash_can_fail_in_every_way() {
    let data = b"the quick brown fox";
    let alone = |v: Value| {
        run(vec![("c2pa.hash.data", v)], data, AssetFormat::Jpeg, &plain_asset(), None).0
    };
    let mismatch = alone(data_hash(vec![0; 32]));
    assert!(mismatch.has_failure(ASSERTION_DATA_HASH_MISMATCH));
    assert_eq!(mismatch.failure[0].explanation, "asset hash mismatch");
    let hashless = alone(vmap(vec![("alg", text("sha256"))]));
    assert_eq!(hashless.failure[0].explanation, "hard-binding assertion missing hash");
    let unnamed = alone(vmap(vec![("hash", Value::Bytes(vec![0; 32]))]));
    assert!(unnamed.has_failure(ALGORITHM_UNSUPPORTED));
    let unknown = alone(vmap(vec![("alg", text("md5")), ("hash", Value::Bytes(vec![0; 16]))]));
    assert!(unknown.has_failure(ALGORITHM_UNSUPPORTED));
    let range = || vmap(vec![("start", Value::Integer(0)), ("length", Value::Integer(0))]);
    let many = alone(vmap(vec![
        ("alg", text("sha256")),
        ("hash", Value::Bytes(sha(data))),
        (
            "exclusions",
            Value::Array((0..MAX_DATA_HASH_EXCLUSIONS + 1).map(|_| range()).collect()),
        ),
    ]));
    assert!(many.failure[0].explanation.contains("exceeds the verifier cap (32769 > 32768)"));
}

#[test]
fn excluded_ranges_inside_the_carrier_stand_for_the_whole_carrier() {
    let data = b"head[carrier bytes]tail";
    let mut facts = plain_asset();
    facts.carriers = Ok(vec![(4, 15)]);
    let value = vmap(vec![
        ("alg", text("sha256")),
        ("hash", Value::Bytes(sha(b"headtail"))),
        (
            "exclusions",
            Value::Array(vec![vmap(vec![
                ("start", Value::Integer(6)),
                ("length", Value::Integer(2)),
            ])]),
        ),
    ]);
    let (r, kind) =
        run(vec![("c2pa.hash.data", value)], data, AssetFormat::Jpeg, &facts, None);
    assert_eq!(kind, "primary");
    assert!(r.has_success(ASSERTION_DATA_HASH_MATCH), "{:?}", r.failure);
}

fn multi_asset(len: usize) -> Value {
    vmap(vec![(
        "parts",
        Value::Array(vec![vmap(vec![
            (
                "location",
                vmap(vec![
                    ("byteOffset", Value::Integer(0)),
                    ("length", Value::Integer(len as i128)),
                ]),
            ),
            ("hashAssertion", hashed_uri_for_assertion("c2pa.hash.data.part")),
            ("optional", Value::Bool(false)),
        ])]),
    )])
}

fn run_primary_multi_binding(
    data: &[u8],
    primary_expected: Vec<u8>,
) -> (ValidationResults, &'static str) {
    let mut facts = plain_asset();
    facts.multi_asset.parts.push(PartFacts { bmff: no_bmff(), spans: None });
    run(
        vec![
            ("c2pa.hash.data", data_hash(primary_expected)),
            ("c2pa.hash.multi-asset", multi_asset(data.len())),
            ("c2pa.hash.data.part", data_hash(sha(data))),
        ],
        data,
        AssetFormat::Jpeg,
        &facts,
        None,
    )
}

#[test]
fn primary_and_multi_asset_are_one_plan_and_fallback_only_after_mismatch() {
    let data: Vec<u8> = (0u8..30).collect();
    let claim = vmap(vec![
        ("instanceID", text("xmp:iid:test")),
        ("claim_generator_info", vmap(vec![("name", text("test"))])),
        (
            "created_assertions",
            Value::Array(vec![
                hashed_uri_for_assertion("c2pa.hash.data"),
                hashed_uri_for_assertion("c2pa.hash.multi-asset"),
            ]),
        ),
    ]);
    let mut m = manifest(Vec::new());
    m.label = "urn:c2pa:00000000-0000-4000-8000-000000000001".to_string();
    let manifests = [m];
    let store = StoreContext { manifests: &manifests, manifest_hashes: &[] };
    let refs = ClaimAssertionRefs::build(&manifests[0], &claim, ClaimGeneration::V2);
    let mut structure = ValidationResults::new();
    let fatal = verify_claim_structure(
        &manifests[0],
        &store,
        &claim,
        ClaimGeneration::V2,
        &refs,
        AssetFormat::Jpeg,
        "self#jumbf=/c2pa/test/c2pa.signature",
        &mut structure,
    );
    assert!(!fatal);
    assert!(!structure.has_failure(ASSERTION_MULTIPLE_HARD_BINDINGS));
    assert!(!structure.has_failure(ASSERTION_MULTI_ASSET_HASH_MALFORMED));

    let (primary_match, primary_kind) = run_primary_multi_binding(&data, sha(&data));
    assert_eq!(primary_kind, "primary");
    assert!(primary_match.has_success(ASSERTION_DATA_HASH_MATCH));
    assert!(!primary_match.has_success(ASSERTION_MULTI_ASSET_HASH_MATCH));

    let (fallback_match, fallback_kind) = run_primary_multi_binding(&data, vec![0; 32]);
    assert_eq!(fallback_kind, "multi-asset");
    assert!(!fallback_match.has_failure(ASSERTION_DATA_HASH_MISMATCH));
    assert!(!fallback_match.has_success(ASSERTION_DATA_HASH_MATCH));
    assert!(fallback_match.has_success(ASSERTION_MULTI_ASSET_HASH_MATCH));
}

fn run_prehashed(
    assertions: Vec<(&str, Value)>,
    digest: &[u8],
) -> (ValidationResults, bool) {
    let claim = vmap(vec![(
        "created_assertions",
        Value::Array(assertions.iter().map(|(l, _)| hashed_uri_for_assertion(l)).collect()),
    )]);
    let m = manifest(assertions);
    let refs = ClaimAssertionRefs::build(&m, &claim, ClaimGeneration::V2);
    let mut results = ValidationResults::new();
    let operative =
        verify_prehashed_hard_binding(&claim, &refs, digest, "urn:test", &mut results);
    let primary = matches!(operative, Some(OperativeBinding::Primary(_)));
    (results, primary)
}

#[test]
fn prehashed_verification_uses_primary_when_multi_asset_parts_are_unavailable() {
    let expected = sha(b"asset");
    let assertions = || {
        vec![
            ("c2pa.hash.data", data_hash(sha(b"asset"))),
            ("c2pa.hash.multi-asset", multi_asset(5)),
        ]
    };
    let (matched, primary) = run_prehashed(assertions(), &expected);
    assert!(primary);
    assert!(matched.has_success(ASSERTION_DATA_HASH_MATCH));
    assert!(!matched.has_success(ASSERTION_MULTI_ASSET_HASH_MATCH));

    let (mismatched, primary) = run_prehashed(assertions(), &[0; 32]);
    assert!(!primary);
    assert!(mismatched.has_failure(ASSERTION_DATA_HASH_MISMATCH));
    assert!(!mismatched.has_success(ASSERTION_MULTI_ASSET_HASH_MATCH));
}

#[test]
fn detached_hash_verifier_accepts_only_v2_v3_bmff_labels() {
    let digest = vec![7; 32];
    let (accepted, _) =
        run_prehashed(vec![("c2pa.hash.bmff.v2", data_hash(digest.clone()))], &digest);
    assert!(accepted.has_success(ASSERTION_BMFF_HASH_MATCH));

    for label in ["c2pa.hash.bmff", "c2pa.hash.bmff.experimental"] {
        let (ignored, _) = run_prehashed(vec![(label, data_hash(digest.clone()))], &digest);
        assert!(ignored.has_failure(ASSERTION_DATA_HASH_MISMATCH), "{label}");
        assert!(!ignored.has_success(ASSERTION_BMFF_HASH_MATCH), "{label}");
    }
}

#[test]
fn appended_bytes_fail_whole_asset_hash_despite_region_metadata() {
    let carrier = "signed text";
    let signed = format!("{carrier} with its wrapper");
    let mut modified = signed.as_bytes().to_vec();
    modified.extend_from_slice(b" appended");
    let (results, kind) = run(
        vec![
            ("c2pa.hash.data", data_hash(sha(signed.as_bytes()))),
            (
                "com.encypher.region",
                vmap(vec![("length", Value::Integer(carrier.len() as i128))]),
            ),
        ],
        &modified,
        AssetFormat::TextUnstructured,
        &plain_asset(),
        None,
    );
    assert_eq!(kind, "none");
    assert!(results.has_failure(ASSERTION_DATA_HASH_MISMATCH));
    assert!(!results.has_success(ASSERTION_DATA_HASH_MATCH));
}

fn test_box(kind: &[u8; 4], body: &[u8]) -> Vec<u8> {
    let mut out = ((body.len() + 8) as u32).to_be_bytes().to_vec();
    out.extend_from_slice(kind);
    out.extend_from_slice(body);
    out
}

/// The structural digest of a file with one top-level box: the box behind its
/// offset.
fn structural_digest(file: &[u8]) -> Vec<u8> {
    hash_parts("sha256", &[&0u64.to_be_bytes(), file]).expect("supported")
}

fn bmff_asset(file: &[u8]) -> AssetFacts {
    let mut facts = plain_asset();
    facts.bmff.structural.sha256 = Ok(structural_digest(file));
    facts.bmff.init_structural.sha256 = Ok(structural_digest(file));
    facts.bmff.mdats = Some(Vec::new());
    facts.bmff.merkle_boxes = Some(Vec::new());
    facts
}

fn noop_exclusions() -> Value {
    Value::Array(vec![vmap(vec![("xpath", text("/uuid"))])])
}

fn run_bmff_data_hash(label: &str, hash_data: Value, data: &[u8]) -> ValidationResults {
    run(vec![(label, hash_data)], data, AssetFormat::Bmff, &bmff_asset(data), None).0
}

#[test]
fn data_hash_verifier_ignores_removed_or_experimental_bmff_labels() {
    let data = test_box(b"ftyp", b"isom");
    let hash_data = || {
        vmap(vec![
            ("alg", text("sha256")),
            ("hash", Value::Bytes(structural_digest(&data))),
            ("exclusions", noop_exclusions()),
        ])
    };
    let accepted = run_bmff_data_hash("c2pa.hash.bmff.v3", hash_data(), &data);
    assert!(accepted.has_success(ASSERTION_BMFF_HASH_MATCH));

    for label in ["c2pa.hash.bmff", "c2pa.hash.bmff.experimental"] {
        let ignored = run_bmff_data_hash(label, hash_data(), &data);
        assert!(!ignored.has_success(ASSERTION_BMFF_HASH_MATCH), "{label}");
        assert!(ignored.failure.is_empty(), "{label}: {:?}", ignored.failure);
    }
}

#[test]
fn bmff_hash_and_merkle_must_both_match() {
    let data = test_box(b"ftyp", b"isom");
    let digest = structural_digest(&data);
    let merkle_entry = vmap(vec![
        ("uniqueId", Value::Integer(1)),
        ("localId", Value::Integer(1)),
        ("count", Value::Integer(1)),
        ("hashes", Value::Array(vec![Value::Bytes(vec![0; 32])])),
        ("initHash", Value::Bytes(digest.clone())),
    ]);
    let with_top = |top: Vec<u8>| {
        vmap(vec![
            ("alg", text("sha256")),
            ("hash", Value::Bytes(top)),
            ("exclusions", noop_exclusions()),
            ("merkle", Value::Array(vec![copy(&merkle_entry)])),
        ])
    };
    let bad = run_bmff_data_hash("c2pa.hash.bmff.v3", with_top(vec![0; 32]), &data);
    assert!(bad.has_failure(ASSERTION_BMFF_HASH_MISMATCH));
    assert!(!bad.has_success(ASSERTION_BMFF_HASH_MATCH));

    let good = run_bmff_data_hash("c2pa.hash.bmff.v3", with_top(digest), &data);
    assert!(good.has_success(ASSERTION_BMFF_HASH_MATCH));
    assert!(!good.has_failure(ASSERTION_BMFF_HASH_MISMATCH));
}

#[test]
fn a_bmff_hash_without_exclusions_or_digest_is_malformed() {
    let data = test_box(b"ftyp", b"isom");
    let digestless = vmap(vec![("alg", text("sha256")), ("exclusions", noop_exclusions())]);
    let r = run_bmff_data_hash("c2pa.hash.bmff.v3", digestless, &data);
    assert!(r.has_failure(ASSERTION_BMFF_HASH_MALFORMED));
}

fn span(name: &str, start: usize, end: usize) -> BoxSpan {
    BoxSpan { name: name.to_string(), start, end }
}

fn boxes_value(entries: Vec<(&str, Option<Vec<u8>>)>) -> Value {
    vmap(vec![
        ("alg", text("sha256")),
        (
            "boxes",
            Value::Array(
                entries
                    .into_iter()
                    .map(|(name, hash)| {
                        let mut fields = vec![("names", Value::Array(vec![text(name)]))];
                        if let Some(h) = hash {
                            fields.push(("hash", Value::Bytes(h)));
                        }
                        vmap(fields)
                    })
                    .collect(),
            ),
        ),
    ])
}

fn run_boxes(value: Value, spans: SpanReport) -> ValidationResults {
    let mut facts = plain_asset();
    facts.spans = spans;
    run(vec![("c2pa.hash.boxes", value)], b"SOI-C2PA-SOS", AssetFormat::Jpeg, &facts, None).0
}

fn three_spans() -> SpanReport {
    SpanReport::Segmented(vec![span("SOI", 0, 4), span("C2PA", 4, 9), span("SOS", 9, 12)])
}

#[test]
fn a_box_hash_covers_every_box_once() {
    let good = || {
        vec![("SOI", Some(sha(b"SOI-"))), ("C2PA", None), ("SOS", Some(sha(b"SOS")))]
    };
    assert!(run_boxes(boxes_value(good()), three_spans()).has_success(ASSERTION_BOXES_HASH_MATCH));
    let mut altered = good();
    altered[2].1 = Some(vec![0; 32]);
    assert!(run_boxes(boxes_value(altered), three_spans())
        .has_failure(ASSERTION_BOXES_HASH_MISMATCH));
    let mut short = good();
    short.pop();
    assert!(run_boxes(boxes_value(short), three_spans())
        .has_failure(ASSERTION_BOXES_HASH_UNKNOWN_BOX));
    let mut misnamed = good();
    misnamed[0].0 = "APP0";
    assert!(run_boxes(boxes_value(misnamed), three_spans())
        .has_failure(ASSERTION_BOXES_HASH_MISMATCH));
    assert!(run_boxes(vmap(vec![]), three_spans()).has_failure(ASSERTION_BOXES_HASH_MALFORMED));
    assert!(run_boxes(boxes_value(good()), SpanReport::Failed("cut".to_string()))
        .has_failure(ASSERTION_BOXES_HASH_MALFORMED));
    let unsupported = run_boxes(boxes_value(good()), SpanReport::Unsupported);
    assert!(unsupported.failure.is_empty() && unsupported.success.is_empty());
    assert!(unsupported.has_informational(ASSERTION_BOXES_HASH_MATCH));
}

fn collection_value(uri: &str, hash: Vec<u8>, directory: Vec<u8>) -> Value {
    vmap(vec![
        ("alg", text("sha256")),
        (
            "uris",
            Value::Array(vec![vmap(vec![("uri", text(uri)), ("hash", Value::Bytes(hash))])]),
        ),
        ("zip_central_directory_hash", Value::Bytes(directory)),
    ])
}

fn run_collection(value: Value, readable: bool) -> ValidationResults {
    let mut facts = plain_asset();
    if readable {
        facts.zip = ZipFacts {
            central: Some(vec![(5, 8)]),
            entries: vec![ZipEntry {
                name: "a.txt".to_string(),
                hash_span: Ok((0, 5)),
                local_span: Some((0, 4)),
            }],
        };
    }
    run(
        vec![("c2pa.hash.collection.data", value)],
        b"entryDIR",
        AssetFormat::Other,
        &facts,
        None,
    )
    .0
}

#[test]
fn a_collection_hash_covers_its_files_and_the_directory() {
    let dir = || sha(b"DIR");
    assert!(run_collection(collection_value("a.txt", sha(b"entry"), dir()), true)
        .has_success(ASSERTION_COLLECTION_HASH_MATCH));
    assert!(run_collection(collection_value("a.txt", sha(b"entr"), dir()), true)
        .has_success(ASSERTION_COLLECTION_HASH_MATCH));
    assert!(run_collection(collection_value("a.txt", sha(b"other"), dir()), true)
        .has_failure(ASSERTION_COLLECTION_HASH_MISMATCH));
    assert!(run_collection(collection_value("a.txt", sha(b"entry"), sha(b"no")), true)
        .has_failure(ASSERTION_COLLECTION_HASH_MISMATCH));
    assert!(run_collection(collection_value("../a.txt", sha(b"entry"), dir()), true)
        .has_failure(ASSERTION_COLLECTION_HASH_INVALID_URI));
    assert!(run_collection(collection_value("b.txt", sha(b"entry"), dir()), true)
        .has_failure(ASSERTION_COLLECTION_HASH_INCORRECT_FILE_COUNT));
    assert!(run_collection(collection_value("a.txt", sha(b"entry"), dir()), false)
        .has_failure(ASSERTION_COLLECTION_HASH_MALFORMED));
}
