use c2pa_validate::bmff::{BmffFacts, DigestReport};
use c2pa_validate::boxes::{BoxSpan, SpanReport};
use c2pa_validate::claim_refs::ClaimAssertionRefs;
use c2pa_validate::hash::{hash_bytes, hash_with_exclusions};
use c2pa_validate::manifest::{AssertionBox, AssetFormat, ParsedManifest, Payload};
use c2pa_validate::multi_asset::{
    verify_multi_asset, MultiAssetFacts, PartFacts, MAX_MULTI_ASSET_PARTS,
};
use c2pa_validate::profile::ClaimGeneration;
use c2pa_validate::status::{
    ValidationResults, ASSERTION_MULTI_ASSET_HASH_MALFORMED, ASSERTION_MULTI_ASSET_HASH_MATCH,
    ASSERTION_MULTI_ASSET_HASH_MISMATCH, ASSERTION_MULTI_ASSET_HASH_MISSING_PART,
};
use c2pa_validate::value::Value;

fn vmap(fields: Vec<(&str, Value)>) -> Value {
    Value::Dict(
        fields
            .into_iter()
            .map(|(key, value)| (Value::Text(key.to_string()), value))
            .collect(),
    )
}

fn text(s: &str) -> Value {
    Value::Text(s.to_string())
}

fn head(major: u8, n: u64, out: &mut Vec<u8>) {
    let m = major << 5;
    if n < 24 {
        out.push(m | n as u8);
    } else if n <= 0xff {
        out.push(m | 24);
        out.push(n as u8);
    } else if n <= 0xffff {
        out.push(m | 25);
        out.extend_from_slice(&(n as u16).to_be_bytes());
    } else if n <= 0xffff_ffff {
        out.push(m | 26);
        out.extend_from_slice(&(n as u32).to_be_bytes());
    } else {
        out.push(m | 27);
        out.extend_from_slice(&n.to_be_bytes());
    }
}

fn write_item(v: &Value, out: &mut Vec<u8>) -> usize {
    match v {
        Value::Integer(n) => {
            if *n >= 0 {
                head(0, *n as u64, out);
            } else {
                head(1, (-1 - *n) as u64, out);
            }
            1
        }
        Value::Bytes(b) => {
            head(2, b.len() as u64, out);
            out.extend_from_slice(b);
            1
        }
        Value::Text(t) => {
            head(3, t.len() as u64, out);
            out.extend_from_slice(t.as_bytes());
            1
        }
        Value::Array(items) => {
            head(4, items.len() as u64, out);
            let mut n = 1;
            for item in items {
                n += write_item(item, out);
            }
            n
        }
        Value::Dict(entries) => {
            head(5, entries.len() as u64, out);
            let mut n = 1;
            for (k, v) in entries {
                n += write_item(k, out);
                n += write_item(v, out);
            }
            n
        }
        Value::Tag(tag, inner) => {
            head(6, *tag, out);
            1 + write_item(inner, out)
        }
        Value::Bool(b) => {
            out.push(if *b { 0xf5 } else { 0xf4 });
            1
        }
        Value::Null => {
            out.push(0xf6);
            1
        }
        Value::Float(bits, _) => {
            out.push(0xfb);
            out.extend_from_slice(&bits.to_be_bytes());
            1
        }
    }
}

/// The value encoded, with the number of data items that it holds.
fn payload(v: Value) -> Payload {
    let mut bytes = Vec::new();
    let nodes = write_item(&v, &mut bytes);
    Payload { bytes, nodes, value: Some(v) }
}

fn sha(data: &[u8]) -> Vec<u8> {
    hash_bytes("sha256", data).expect("supported")
}

fn hashed_uri_for_assertion(label: &str) -> Value {
    vmap(vec![
        ("url", text(&format!("self#jumbf=c2pa.assertions/{label}"))),
        ("alg", text("sha256")),
        ("hash", Value::Bytes(vec![0; 32])),
    ])
}

fn canonical_test_part_label(label: &str) -> String {
    match label {
        "p0" => "c2pa.hash.data.part".to_string(),
        "p1" => "c2pa.hash.data.part__1".to_string(),
        "p2" => "c2pa.hash.data.part__2".to_string(),
        "absent" => "c2pa.hash.data.part__99".to_string(),
        label => label.to_string(),
    }
}

/// A multi-asset value from `(byteOffset, length, part label, optional)`.
fn multi_asset(parts: &[(usize, usize, &str, bool)]) -> Value {
    let items = parts
        .iter()
        .map(|&(off, len, plabel, optional)| {
            let plabel = canonical_test_part_label(plabel);
            vmap(vec![
                (
                    "location",
                    vmap(vec![
                        ("byteOffset", Value::Integer(off as i128)),
                        ("length", Value::Integer(len as i128)),
                    ]),
                ),
                ("hashAssertion", hashed_uri_for_assertion(&plabel)),
                ("optional", Value::Bool(optional)),
            ])
        })
        .collect();
    vmap(vec![("parts", Value::Array(items))])
}

fn part_assertion(hash: &[u8]) -> Value {
    vmap(vec![("alg", text("sha256")), ("hash", Value::Bytes(hash.to_vec()))])
}

fn no_digests() -> DigestReport {
    DigestReport {
        sha256: Err("not a BMFF file".to_string()),
        sha384: Err("not a BMFF file".to_string()),
        sha512: Err("not a BMFF file".to_string()),
    }
}

fn plain_part() -> PartFacts {
    PartFacts {
        bmff: BmffFacts {
            structural: no_digests(),
            init_structural: no_digests(),
            mdats: None,
            merkle_boxes: None,
        },
        spans: None,
    }
}

fn plain_facts(n: usize) -> MultiAssetFacts {
    MultiAssetFacts {
        locator_ranges: Ok(Vec::new()),
        parts: (0..n).map(|_| plain_part()).collect(),
    }
}

fn run_with(
    data: &[u8],
    ma: &Value,
    part_assertions: Vec<(&str, Value)>,
    format: AssetFormat,
    facts: &MultiAssetFacts,
) -> ValidationResults {
    let mut labels = Vec::new();
    let mut assertions = Vec::new();
    for (label, value) in part_assertions {
        let label = canonical_test_part_label(label);
        labels.push(label.clone());
        assertions.push(AssertionBox { label, payload: payload(value) });
    }
    let manifest = ParsedManifest {
        label: "urn:test".to_string(),
        manifest_jumbf: Vec::new(),
        assertions,
        assertion_jumbf: Vec::new(),
        claim: None,
        signature_cose: None,
        claim_count: 1,
        claim_box_label: None,
        generation: ClaimGeneration::V2,
    };
    let claim = vmap(vec![(
        "created_assertions",
        Value::Array(labels.iter().map(|l| hashed_uri_for_assertion(l)).collect()),
    )]);
    let refs = ClaimAssertionRefs::build(&manifest, &claim, ClaimGeneration::V2);
    let mut results = ValidationResults::new();
    verify_multi_asset(&claim, &refs, Some(ma), data, format, "urn:test", facts, &mut results);
    results
}

fn run_multi(data: &[u8], ma: &Value, part_assertions: Vec<(&str, Value)>) -> ValidationResults {
    run_with(data, ma, part_assertions, AssetFormat::Jpeg, &plain_facts(8))
}

fn fixture_data() -> Vec<u8> {
    (0u8..30).collect()
}

fn part_for(data: &[u8], off: usize, len: usize) -> Value {
    part_assertion(&sha(&data[off..off + len]))
}

#[test]
fn intact_full_coverage_emits_match() {
    let data = fixture_data();
    let ma = multi_asset(&[(0, 10, "p0", false), (10, 10, "p1", true), (20, 10, "p2", true)]);
    let r = run_multi(
        &data,
        &ma,
        vec![
            ("p0", part_for(&data, 0, 10)),
            ("p1", part_for(&data, 10, 10)),
            ("p2", part_for(&data, 20, 10)),
        ],
    );
    assert!(r.has_success(ASSERTION_MULTI_ASSET_HASH_MATCH));
    assert!(r.failure.is_empty(), "unexpected failures: {:?}", r.failure);
}

fn one_exclusion(start: i128, length: i128) -> Value {
    Value::Array(vec![vmap(vec![
        ("start", Value::Integer(start)),
        ("length", Value::Integer(length)),
    ])])
}

#[test]
fn part_exclusions_are_local_at_nonzero_asset_offset() {
    let data = fixture_data();
    let ma = multi_asset(&[(0, 10, "p0", false), (10, 10, "p1", false), (20, 10, "p2", false)]);
    let p1_digest = hash_with_exclusions("sha256", &data[10..20], &[(1, 1)]).unwrap();
    let p1 = vmap(vec![
        ("alg", text("sha256")),
        ("hash", Value::Bytes(p1_digest)),
        ("exclusions", one_exclusion(1, 1)),
    ]);
    let results = run_multi(
        &data,
        &ma,
        vec![("p0", part_for(&data, 0, 10)), ("p1", p1), ("p2", part_for(&data, 20, 10))],
    );
    assert!(results.has_success(ASSERTION_MULTI_ASSET_HASH_MATCH));
    assert!(results.failure.is_empty());
}

#[test]
fn part_exclusion_outside_local_part_is_malformed() {
    let data = fixture_data();
    let ma = multi_asset(&[(0, 30, "p0", false)]);
    let p0 = vmap(vec![
        ("alg", text("sha256")),
        ("hash", Value::Bytes(sha(&data))),
        ("exclusions", one_exclusion(29, 2)),
    ]);
    let results = run_multi(&data, &ma, vec![("p0", p0)]);
    assert!(results.has_failure(ASSERTION_MULTI_ASSET_HASH_MALFORMED));
    assert!(!results.has_success(ASSERTION_MULTI_ASSET_HASH_MATCH));
}

#[test]
fn gap_between_parts_is_malformed() {
    let data = fixture_data();
    let ma = multi_asset(&[(0, 10, "p0", false), (11, 10, "p1", false)]);
    let r = run_multi(
        &data,
        &ma,
        vec![("p0", part_for(&data, 0, 10)), ("p1", part_for(&data, 11, 10))],
    );
    assert!(r.has_failure(ASSERTION_MULTI_ASSET_HASH_MALFORMED));
    assert!(!r.has_success(ASSERTION_MULTI_ASSET_HASH_MATCH));
}

#[test]
fn overlapping_parts_are_malformed() {
    let data = fixture_data();
    let ma = multi_asset(&[(0, 10, "p0", false), (8, 10, "p1", false)]);
    let r = run_multi(
        &data,
        &ma,
        vec![("p0", part_for(&data, 0, 10)), ("p1", part_for(&data, 8, 10))],
    );
    assert!(r.has_failure(ASSERTION_MULTI_ASSET_HASH_MALFORMED));
    assert!(!r.has_success(ASSERTION_MULTI_ASSET_HASH_MATCH));
}

#[test]
fn non_zero_start_is_malformed() {
    let data = fixture_data();
    let ma = multi_asset(&[(2, 10, "p0", false)]);
    let r = run_multi(&data, &ma, vec![("p0", part_for(&data, 2, 10))]);
    assert!(r.has_failure(ASSERTION_MULTI_ASSET_HASH_MALFORMED));
}

fn three_required() -> Value {
    multi_asset(&[(0, 10, "p0", false), (10, 10, "p1", false), (20, 10, "p2", false)])
}

#[test]
fn extra_trailing_data_is_malformed() {
    let mut data = fixture_data();
    data.extend_from_slice(&[0xAA, 0xBB, 0xCC]);
    let r = run_multi(
        &data,
        &three_required(),
        vec![
            ("p0", part_for(&data, 0, 10)),
            ("p1", part_for(&data, 10, 10)),
            ("p2", part_for(&data, 20, 10)),
        ],
    );
    assert!(r.has_failure(ASSERTION_MULTI_ASSET_HASH_MALFORMED));
    assert!(!r.has_success(ASSERTION_MULTI_ASSET_HASH_MATCH));
}

#[test]
fn required_part_absent_is_missing_part() {
    let data: Vec<u8> = (0u8..20).collect();
    let r = run_multi(
        &data,
        &three_required(),
        vec![
            ("p0", part_for(&data, 0, 10)),
            ("p1", part_for(&data, 10, 10)),
            ("p2", part_assertion(&sha(&[0u8; 10]))),
        ],
    );
    assert!(r.has_failure(ASSERTION_MULTI_ASSET_HASH_MISSING_PART));
    assert!(!r.has_success(ASSERTION_MULTI_ASSET_HASH_MATCH));
}

#[test]
fn optional_part_cleanly_absent_emits_match() {
    let data: Vec<u8> = (0u8..20).collect();
    let ma = multi_asset(&[(0, 10, "p0", false), (10, 10, "p1", false), (20, 10, "p2", true)]);
    let r = run_multi(
        &data,
        &ma,
        vec![
            ("p0", part_for(&data, 0, 10)),
            ("p1", part_for(&data, 10, 10)),
            ("p2", part_assertion(&sha(&[0u8; 10]))),
        ],
    );
    assert!(r.has_success(ASSERTION_MULTI_ASSET_HASH_MATCH));
    assert!(r.failure.is_empty(), "unexpected failures: {:?}", r.failure);
}

#[test]
fn optional_part_truncated_is_mismatch_not_missing_part() {
    let data: Vec<u8> = (0u8..25).collect();
    let ma = multi_asset(&[(0, 10, "p0", false), (10, 10, "p1", false), (20, 10, "p2", true)]);
    let r = run_multi(
        &data,
        &ma,
        vec![
            ("p0", part_for(&data, 0, 10)),
            ("p1", part_for(&data, 10, 10)),
            ("p2", part_assertion(&sha(&[0u8; 10]))),
        ],
    );
    assert!(r.has_failure(ASSERTION_MULTI_ASSET_HASH_MISMATCH));
    assert!(!r.has_failure(ASSERTION_MULTI_ASSET_HASH_MISSING_PART));
    assert!(!r.has_success(ASSERTION_MULTI_ASSET_HASH_MATCH));
}

#[test]
fn part_content_mismatch_is_mismatch() {
    let data = fixture_data();
    let r = run_multi(
        &data,
        &three_required(),
        vec![
            ("p0", part_for(&data, 0, 10)),
            ("p1", part_assertion(&sha(b"wrong content"))),
            ("p2", part_for(&data, 20, 10)),
        ],
    );
    assert!(r.has_failure(ASSERTION_MULTI_ASSET_HASH_MISMATCH));
    assert!(!r.has_success(ASSERTION_MULTI_ASSET_HASH_MATCH));
}

#[test]
fn missing_referenced_part_assertion_is_malformed() {
    let data = fixture_data();
    let ma = multi_asset(&[(0, 10, "p0", false), (10, 10, "absent", false), (20, 10, "p2", false)]);
    let r = run_multi(
        &data,
        &ma,
        vec![("p0", part_for(&data, 0, 10)), ("p2", part_for(&data, 20, 10))],
    );
    assert!(r.has_failure(ASSERTION_MULTI_ASSET_HASH_MALFORMED));
    assert!(!r.has_failure(ASSERTION_MULTI_ASSET_HASH_MISSING_PART));
    assert!(!r.has_success(ASSERTION_MULTI_ASSET_HASH_MATCH));
}

#[test]
fn empty_parts_array_is_malformed() {
    let r = run_multi(&fixture_data(), &multi_asset(&[]), vec![]);
    assert!(r.has_failure(ASSERTION_MULTI_ASSET_HASH_MALFORMED));
    assert!(!r.has_success(ASSERTION_MULTI_ASSET_HASH_MATCH));
}

#[test]
fn excessive_multi_asset_part_count_is_rejected_before_resolution() {
    let part = || {
        vmap(vec![(
            "location",
            vmap(vec![("byteOffset", Value::Integer(0)), ("length", Value::Integer(0))]),
        )])
    };
    let ma = vmap(vec![(
        "parts",
        Value::Array((0..MAX_MULTI_ASSET_PARTS + 1).map(|_| part()).collect()),
    )]);
    let results = run_multi(&[], &ma, vec![]);
    assert!(results.has_failure(ASSERTION_MULTI_ASSET_HASH_MALFORMED));
    assert!(!results.has_success(ASSERTION_MULTI_ASSET_HASH_MATCH));
}

fn single_part_multi_asset(location: Value, part_label: &str) -> Value {
    vmap(vec![(
        "parts",
        Value::Array(vec![vmap(vec![
            ("location", location),
            ("hashAssertion", hashed_uri_for_assertion(part_label)),
            ("optional", Value::Bool(false)),
        ])]),
    )])
}

fn byte_location(start: i128, length: i128) -> Value {
    vmap(vec![("byteOffset", Value::Integer(start)), ("length", Value::Integer(length))])
}

fn test_box(kind: &[u8; 4], body: &[u8]) -> Vec<u8> {
    let mut out = ((body.len() + 8) as u32).to_be_bytes().to_vec();
    out.extend_from_slice(kind);
    out.extend_from_slice(body);
    out
}

fn png_chunk(kind: &[u8; 4], body: &[u8]) -> Vec<u8> {
    let mut chunk = (body.len() as u32).to_be_bytes().to_vec();
    chunk.extend_from_slice(kind);
    chunk.extend_from_slice(body);
    chunk.extend_from_slice(&[0; 4]);
    chunk
}

#[test]
fn byte_offset_part_validates_with_data_hash_methodology() {
    let data = fixture_data();
    let label = "c2pa.hash.data.part";
    let ma = single_part_multi_asset(byte_location(0, data.len() as i128), label);
    let results = run_multi(&data, &ma, vec![(label, part_assertion(&sha(&data)))]);
    assert!(results.has_success(ASSERTION_MULTI_ASSET_HASH_MATCH));
    assert!(results.failure.is_empty());
}

/// The structural digest of a file with one top-level box: the box behind its
/// offset.
fn structural_digest(file: &[u8]) -> Vec<u8> {
    let mut bytes = 0u64.to_be_bytes().to_vec();
    bytes.extend_from_slice(file);
    sha(&bytes)
}

/// What the container layer reports of one box part.
fn box_facts(outer: &[u8], structural: Option<Vec<u8>>, spans: Option<SpanReport>) -> MultiAssetFacts {
    let mut part = plain_part();
    if let Some(d) = structural {
        part.bmff.structural.sha256 = Ok(d);
    }
    part.spans = spans;
    MultiAssetFacts {
        locator_ranges: Ok(vec![vec![(0, outer.len())]]),
        parts: vec![part],
    }
}

fn bmff_part_value(digest: Vec<u8>) -> Value {
    vmap(vec![
        ("alg", text("sha256")),
        ("hash", Value::Bytes(digest)),
        ("exclusions", Value::Array(vec![vmap(vec![("xpath", text("/uuid"))])])),
    ])
}

#[test]
fn bmff_box_payload_validates_with_bmff_structural_methodology() {
    let inner = test_box(b"ftyp", b"isom");
    let outer = test_box(b"mpvd", &inner);
    let label = "c2pa.hash.bmff.v2.part";
    let digest = structural_digest(&inner);
    let ma = single_part_multi_asset(vmap(vec![("bmffBox", text("/mpvd"))]), label);
    let results = run_with(
        &outer,
        &ma,
        vec![(label, bmff_part_value(digest.clone()))],
        AssetFormat::Bmff,
        &box_facts(&outer, Some(digest), None),
    );
    assert!(results.has_success(ASSERTION_MULTI_ASSET_HASH_MATCH));
    assert!(results.failure.is_empty());
}

#[test]
fn bmff_part_rejects_a_plain_digest_for_bmff_methodology() {
    let inner = test_box(b"ftyp", b"isom");
    let outer = test_box(b"mpvd", &inner);
    let label = "c2pa.hash.bmff.v3.part";
    let ma = single_part_multi_asset(vmap(vec![("bmffBox", text("/mpvd"))]), label);
    let results = run_with(
        &outer,
        &ma,
        vec![(label, bmff_part_value(sha(&inner)))],
        AssetFormat::Bmff,
        &box_facts(&outer, Some(structural_digest(&inner)), None),
    );
    assert!(results.has_failure(ASSERTION_MULTI_ASSET_HASH_MISMATCH));
    assert!(!results.has_success(ASSERTION_MULTI_ASSET_HASH_MATCH));
}

#[test]
fn bmff_box_payload_validates_with_general_box_methodology() {
    let mut png = b"\x89PNG\r\n\x1a\n".to_vec();
    png.extend_from_slice(&png_chunk(b"caBX", &[]));
    png.extend_from_slice(&png_chunk(b"IEND", &[]));
    let outer = test_box(b"mpvd", &png);
    let label = "c2pa.hash.boxes.part";
    let named = |n: &str| Value::Array(vec![text(n)]);
    let assertion = vmap(vec![
        ("alg", text("sha256")),
        (
            "boxes",
            Value::Array(vec![
                vmap(vec![("names", named("PNGh")), ("hash", Value::Bytes(sha(&png[..8])))]),
                vmap(vec![("names", named("C2PA"))]),
                vmap(vec![("names", named("IEND")), ("hash", Value::Bytes(sha(&png[20..])))]),
            ]),
        ),
    ]);
    let span = |name: &str, start: usize, end: usize| BoxSpan {
        name: name.to_string(),
        start,
        end,
    };
    let spans = SpanReport::Segmented(vec![
        span("PNGh", 0, 8),
        span("C2PA", 8, 20),
        span("IEND", 20, png.len()),
    ]);
    let ma = single_part_multi_asset(vmap(vec![("bmffBox", text("/mpvd"))]), label);
    let results = run_with(
        &outer,
        &ma,
        vec![(label, assertion)],
        AssetFormat::Bmff,
        &box_facts(&outer, None, Some(spans)),
    );
    assert!(results.has_success(ASSERTION_MULTI_ASSET_HASH_MATCH), "{:?}", results.failure);
    assert!(results.failure.is_empty());
}

#[test]
fn mixed_locator_choice_is_malformed() {
    let data = fixture_data();
    let label = "c2pa.hash.data.part";
    let ma = single_part_multi_asset(
        vmap(vec![
            ("byteOffset", Value::Integer(0)),
            ("length", Value::Integer(data.len() as i128)),
            ("bmffBox", text("/mpvd")),
        ]),
        label,
    );
    let results = run_multi(&data, &ma, vec![(label, part_assertion(&sha(&data)))]);
    assert!(results.has_failure(ASSERTION_MULTI_ASSET_HASH_MALFORMED));
    assert!(!results.has_success(ASSERTION_MULTI_ASSET_HASH_MATCH));
}

#[test]
fn non_part_hash_method_is_malformed_instead_of_plain_hashed() {
    let data = fixture_data();
    let label = "c2pa.thumbnail.claim";
    let ma = single_part_multi_asset(byte_location(0, data.len() as i128), label);
    let results = run_multi(&data, &ma, vec![(label, part_assertion(&sha(&data)))]);
    assert!(results.has_failure(ASSERTION_MULTI_ASSET_HASH_MALFORMED));
    assert!(!results.has_success(ASSERTION_MULTI_ASSET_HASH_MATCH));
}

#[test]
fn negative_byte_offset_locator_bound_is_malformed() {
    let data = fixture_data();
    let label = "c2pa.hash.data.part";
    let ma = single_part_multi_asset(byte_location(-1, data.len() as i128), label);
    let results = run_multi(&data, &ma, vec![(label, part_assertion(&sha(&data)))]);
    assert!(results.has_failure(ASSERTION_MULTI_ASSET_HASH_MALFORMED));
    assert!(!results.has_success(ASSERTION_MULTI_ASSET_HASH_MATCH));
}

#[test]
fn overflowing_byte_offset_locator_bounds_are_malformed() {
    let data = fixture_data();
    let label = "c2pa.hash.data.part";
    let ma = single_part_multi_asset(byte_location(usize::MAX as i128, 1), label);
    let results = run_multi(&data, &ma, vec![(label, part_assertion(&sha(&data)))]);
    assert!(results.has_failure(ASSERTION_MULTI_ASSET_HASH_MALFORMED));
    assert!(!results.has_success(ASSERTION_MULTI_ASSET_HASH_MATCH));
}

#[test]
fn nested_part_hashed_uri_must_match_the_exact_claim_declaration() {
    let data = fixture_data();
    let label = "c2pa.hash.data.part";
    let nested = vmap(vec![
        ("url", text(&format!("self#jumbf=c2pa.assertions/{label}"))),
        ("alg", text("sha256")),
        ("hash", Value::Bytes(vec![1; 32])),
    ]);
    let ma = vmap(vec![(
        "parts",
        Value::Array(vec![vmap(vec![
            ("location", byte_location(0, data.len() as i128)),
            ("hashAssertion", nested),
        ])]),
    )]);
    let results = run_multi(&data, &ma, vec![(label, part_assertion(&sha(&data)))]);
    assert!(results.has_failure(ASSERTION_MULTI_ASSET_HASH_MALFORMED));
    assert!(!results.has_success(ASSERTION_MULTI_ASSET_HASH_MATCH));
}
