use c2pa_validate::binding::AssetFacts;
use c2pa_validate::bmff::{BmffFacts, DigestReport};
use c2pa_validate::bmff::{FragmentFacts, MerkleBox};
use c2pa_validate::boxes::SpanReport;
use c2pa_validate::collection::ZipFacts;
use c2pa_validate::credential::ChainVerdict;
use c2pa_validate::credential::{CredentialFacts, SignatureCheck, TimestampFacts};
use c2pa_validate::error::ValidateError;
use c2pa_validate::hash::hash_bytes;
use c2pa_validate::json::Json;
use c2pa_validate::live_video::{
    validate_init_segment, validate_live_video_assertion, KeyCheck, LiveVideoApplicability,
    LiveVideoManifestState, MessageFacts, SessionKeyFacts, SigningTime, StreamMethod, VerifiedPayload, LIVEVIDEO_ASSERTION_INVALID,
    LIVEVIDEO_CONTINUITY_METHOD_INVALID, LIVEVIDEO_INIT_INVALID, LIVEVIDEO_MANIFEST_INVALID,
    LIVEVIDEO_SEGMENT_INVALID, LIVEVIDEO_SESSION_KEY_INVALID, SEGMENT_INFO_SCHEME_ID_URI,
    SEGMENT_INFO_VALUE,
};
use c2pa_validate::manifest::{AssertionBox, AssetFormat, JumbfBox, ParsedManifest, Payload};
use c2pa_validate::multi_asset::MultiAssetFacts;
use c2pa_validate::ocsp::CertificatePool;
use c2pa_validate::online::OnlineFacts;
use c2pa_validate::output::VersionVerdict;
use c2pa_validate::output::{no_manifest_output, restate_results, VerifyOutput};
use c2pa_validate::pipeline::{IdentityFacts, ManifestFacts, OcspFacts};
use c2pa_validate::profile::{ClaimGeneration, EngineProfile};
use c2pa_validate::readiness::{facts_fit_asset, segments_fit};
use c2pa_validate::session::{
    select_lane, verify_live_session, Lane, LiveFacts, LiveSegment, StreamVerifyOutput,
};
use c2pa_validate::status::{ValidationResults, ASSERTION_BMFF_HASH_MISMATCH};
use c2pa_validate::stream::{
    is_ingredient_label, require_fragments_bound, validate_expected_seek_positions,
    validate_fragment_sequence, verify_per_segment, PerSegmentVerifyOutput, SegmentAsset,
    StreamNames, LIVE_VIDEO_SEGMENT_LABEL, SESSION_KEYS_LABEL,
};
use c2pa_validate::value::Value;
use c2pa_validate::verdict::ValidationState;
use c2pa_validate::verify::{AssetInput, StoreReport};

const ASSET: &[u8] = b"head[carrier]tail";
const CARRIER: (usize, usize) = (4, 9);

fn vmap(fields: Vec<(&str, Value)>) -> Value {
    Value::Dict(
        fields
            .into_iter()
            .map(|(key, value)| (Value::Text(key.to_string()), value))
            .collect(),
    )
}

fn text(s: &str) -> Value {
    Value::Text(s.to_string())
}

fn head(major: u8, n: u64, out: &mut Vec<u8>) {
    let m = major << 5;
    if n < 24 {
        out.push(m | n as u8);
    } else if n <= 0xff {
        out.push(m | 24);
        out.push(n as u8);
    } else if n <= 0xffff {
        out.push(m | 25);
        out.extend_from_slice(&(n as u16).to_be_bytes());
    } else if n <= 0xffff_ffff {
        out.push(m | 26);
        out.extend_from_slice(&(n as u32).to_be_bytes());
    } else {
        out.push(m | 27);
        out.extend_from_slice(&n.to_be_bytes());
    }
}

fn write_item(v: &Value, out: &mut Vec<u8>) -> usize {
    match v {
        Value::Integer(n) => {
            if *n >= 0 {
                head(0, *n as u64, out);
            } else {
                head(1, (-1 - *n) as u64, out);
            }
            1
        }
        Value::Bytes(b) => {
            head(2, b.len() as u64, out);
            out.extend_from_slice(b);
            1
        }
        Value::Text(t) => {
            head(3, t.len() as u64, out);
            out.extend_from_slice(t.as_bytes());
            1
        }
        Value::Array(items) => {
            head(4, items.len() as u64, out);
            let mut n = 1;
            for item in items {
                n += write_item(item, out);
            }
            n
        }
        Value::Dict(entries) => {
            head(5, entries.len() as u64, out);
            let mut n = 1;
            for (k, v) in entries {
                n += write_item(k, out);
                n += write_item(v, out);
            }
            n
        }
        Value::Tag(tag, inner) => {
            head(6, *tag, out);
            1 + write_item(inner, out)
        }
        Value::Bool(b) => {
            out.push(if *b { 0xf5 } else { 0xf4 });
            1
        }
        Value::Null => {
            out.push(0xf6);
            1
        }
        Value::Float(bits, _) => {
            out.push(0xfb);
            out.extend_from_slice(&bits.to_be_bytes());
            1
        }
    }
}

/// The value encoded, with the number of data items that it holds.
fn payload(v: Value) -> Payload {
    let mut bytes = Vec::new();
    let nodes = write_item(&v, &mut bytes);
    Payload { bytes, nodes, value: Some(v) }
}

/// The content of an assertion superbox: its description box and a CBOR box.
fn box_content(label: &str, cbor: &[u8]) -> Vec<u8> {
    let mut description = Vec::new();
    description.extend_from_slice(&[
        0x63, 0x62, 0x6f, 0x72, 0x00, 0x11, 0x00, 0x10, 0x80, 0x00, 0x00, 0xaa, 0x00, 0x38, 0x9b,
        0x71,
    ]);
    description.push(3);
    description.extend_from_slice(label.as_bytes());
    description.push(0);
    let mut out = Vec::new();
    out.extend_from_slice(&((description.len() + 8) as u32).to_be_bytes());
    out.extend_from_slice(b"jumd");
    out.extend_from_slice(&description);
    out.extend_from_slice(&((cbor.len() + 8) as u32).to_be_bytes());
    out.extend_from_slice(b"cbor");
    out.extend_from_slice(cbor);
    out
}

fn no_digests() -> DigestReport {
    DigestReport {
        sha256: Err("not computed".to_string()),
        sha384: Err("not computed".to_string()),
        sha512: Err("not computed".to_string()),
    }
}

fn no_bmff() -> BmffFacts {
    BmffFacts {
        structural: no_digests(),
        init_structural: no_digests(),
        mdats: None,
        merkle_boxes: None,
    }
}

fn plain_asset() -> AssetFacts {
    AssetFacts {
        bmff: no_bmff(),
        fragments: Vec::new(),
        spans: SpanReport::Unsupported,
        zip: ZipFacts { central: None, entries: Vec::new() },
        carriers: Ok(Vec::new()),
        multi_asset: MultiAssetFacts { locator_ranges: Ok(Vec::new()), parts: Vec::new() },
    }
}

/// Facts of a manifest whose signature carries no certificate.
fn unsigned_facts() -> ManifestFacts {
    ManifestFacts {
        pool: CertificatePool { certificates: Vec::new(), chain_len: 0, issuers: Vec::new() },
        chain_error: None,
        timestamp: TimestampFacts {
            header: None,
            input_formed: false,
            token_read: false,
            inspection_error: None,
            verification: None,
        },
        credential: CredentialFacts {
            judged_at: 0,
            chain: None,
            leaf_valid: false,
            leaf_acceptable: false,
            signature: SignatureCheck::Valid,
            allowed: None,
        },
        ocsp: OcspFacts {
            staples: Vec::new(),
            max_response_bytes: 262_144,
            verdicts: Vec::new(),
            signed_at: None,
            verification_time: 0,
        },
        online: OnlineFacts {
            answers: Vec::new(),
            queries: Vec::new(),
            verification_time: 0,
        },
        identity: IdentityFacts {
            statuses: ValidationResults::new(),
            judged_at: 0,
            claim_timestamp: None,
        },
        signer: None,
        asset: plain_asset(),
    }
}

fn no_version() -> VersionVerdict {
    VersionVerdict {
        evaluations: Vec::new(),
        validated_under: None,
        document: Json::Null,
        document_when_broken: Json::Null,
    }
}

fn sha(data: &[u8]) -> Vec<u8> {
    hash_bytes("sha256", data).expect("supported")
}

/// The action that brings an asset into being.
fn created() -> Value {
    vmap(vec![(
        "actions",
        Value::Array(vec![vmap(vec![
            ("action", text("c2pa.created")),
            ("digitalSourceType", text("digitalCapture")),
        ])]),
    )])
}

/// A signed manifest that holds the assertions and claims those that are not
/// named among the `unclaimed`.
fn signed_manifest(
    label: &str,
    assertions: Vec<(&str, Value)>,
    unclaimed: &[&str],
) -> ParsedManifest {
    let mut boxes = Vec::new();
    let mut jumbf = Vec::new();
    let mut references = Vec::new();
    for (label, value) in assertions {
        let p = payload(value);
        let content = box_content(label, &p.bytes);
        if !unclaimed.contains(&label) {
            references.push(vmap(vec![
                ("url", text(&format!("self#jumbf=c2pa.assertions/{label}"))),
                ("alg", text("sha256")),
                ("hash", Value::Bytes(sha(&content))),
            ]));
        }
        jumbf.push(JumbfBox { label: label.to_string(), content, zeroed: false });
        boxes.push(AssertionBox { label: label.to_string(), payload: p });
    }
    let claim = vmap(vec![
        ("instanceID", text("xmp:iid:test")),
        ("claim_generator_info", vmap(vec![("name", text("test"))])),
        ("created_assertions", Value::Array(references)),
        ("signature", text("self#jumbf=c2pa.signature")),
    ]);
    ParsedManifest {
        label: label.to_string(),
        manifest_jumbf: Vec::new(),
        assertions: boxes,
        assertion_jumbf: jumbf,
        claim: Some(payload(claim)),
        signature_cose: Some(vec![0xd2]),
        claim_count: 1,
        claim_box_label: Some("c2pa.claim.v2".to_string()),
        generation: ClaimGeneration::V2,
    }
}

/// A store of manifests with the contents of their superboxes.
fn store_of(entries: Vec<(ParsedManifest, Vec<u8>)>) -> StoreReport {
    let (manifests, contents): (Vec<ParsedManifest>, Vec<Vec<u8>>) = entries.into_iter().unzip();
    StoreReport {
        bytes: b"store bytes".to_vec(),
        contents: Ok(contents),
        signers: manifests.iter().map(|_| None).collect(),
        manifests: Ok(manifests),
        rendering: Json::Text("rendering".to_string()),
    }
}

/// Facts of a trusted signer.
fn trusted_facts() -> ManifestFacts {
    let mut facts = unsigned_facts();
    facts.pool.certificates = vec![b"leaf".to_vec(), b"root".to_vec()];
    facts.pool.chain_len = 1;
    facts.pool.issuers = vec![Some(1), None];
    facts.credential.chain = Some(ChainVerdict {
        trusted: true,
        leaf_acceptable: true,
        chain_validity_ok: true,
    });
    facts.credential.leaf_valid = true;
    facts.credential.leaf_acceptable = true;
    facts.asset.carriers = Ok(vec![CARRIER]);
    facts
}

fn asset<'a>(data: &'a [u8], engine: EngineProfile) -> AssetInput<'a> {
    AssetInput {
        mime: "image/jpeg",
        format: Some(AssetFormat::Jpeg),
        permitted: true,
        hash_mode: true,
        data,
        engine,
        verification_time: 0,
    }
}

fn generous() -> EngineProfile {
    EngineProfile::generous()
}

/// An output without any failure.
fn clean_output() -> VerifyOutput {
    let mut out = no_manifest_output("none", generous(), false);
    restate_results(&mut out, generous());
    assert_eq!(out.validation_state, ValidationState::Valid);
    out
}

fn names() -> StreamNames {
    StreamNames {
        encapsulation_token: "cmaf".to_string(),
        encapsulation_name: "CMAF".to_string(),
        method_token: "perSegment".to_string(),
        method_name: "per-segment".to_string(),
    }
}

fn declaration(sequence: i128, stream: &str, encapsulation: &str) -> Vec<(&'static str, Value)> {
    vec![
        ("sequenceNumber", Value::Integer(sequence)),
        ("streamId", text(stream)),
        ("encapsulation", text(encapsulation)),
        ("method", text("perSegment")),
    ]
}

fn identity(sequence: i128, previous: Option<&str>) -> Value {
    let mut fields = declaration(sequence, "stream-1", "cmaf");
    fields.push(("continuityMethod", text("c2pa.manifestId")));
    if let Some(p) = previous {
        fields.push(("previousManifestId", text(p)));
    }
    vmap(fields)
}

fn ingredient(i: usize, digest: Vec<u8>) -> Value {
    vmap(vec![
        ("relationship", text("parentOf")),
        (
            "activeManifest",
            vmap(vec![
                ("url", text(&format!("self#jumbf=/c2pa/urn:c2pa:{i}"))),
                ("alg", text("sha256")),
                ("hash", Value::Bytes(digest)),
            ]),
        ),
    ])
}

fn content(i: usize) -> Vec<u8> {
    format!("manifest content {i}").into_bytes()
}

fn data_hash() -> Value {
    vmap(vec![
        ("alg", text("sha256")),
        ("hash", Value::Bytes(sha(b"headtail"))),
        (
            "exclusions",
            Value::Array(vec![vmap(vec![
                ("start", Value::Integer(4)),
                ("length", Value::Integer(9)),
            ])]),
        ),
    ])
}

/// The assertions of segment `i` of a stream whose every link is sound.
fn segment_assertions(i: usize) -> Vec<(&'static str, Value)> {
    let before = if i == 0 { None } else { Some(format!("urn:c2pa:{}", i - 1)) };
    let mut assertions = vec![
        ("c2pa.hash.data", data_hash()),
        ("c2pa.actions.v2", created()),
        (LIVE_VIDEO_SEGMENT_LABEL, identity(i as i128, before.as_deref())),
    ];
    if i > 0 {
        assertions.push(("c2pa.ingredient.v3", ingredient(i - 1, sha(&content(i - 1)))));
    }
    assertions
}

fn replace(assertions: &mut Vec<(&'static str, Value)>, label: &'static str, value: Value) {
    let at = assertions.iter().position(|(l, _)| *l == label).expect("there");
    assertions[at] = (label, value);
}

/// Segment `i` with the given assertions; its store also holds its predecessor.
fn segment_with(
    i: usize,
    assertions: Vec<(&'static str, Value)>,
    unclaimed: &[&str],
) -> SegmentAsset<'static> {
    let mut entries = Vec::new();
    if i > 0 {
        let before = signed_manifest(&format!("urn:c2pa:{}", i - 1), Vec::new(), &[]);
        entries.push((before, content(i - 1)));
    }
    entries.push((signed_manifest(&format!("urn:c2pa:{i}"), assertions, unclaimed), content(i)));
    SegmentAsset {
        asset: asset(ASSET, generous()),
        extracted: Ok(Some(store_of(entries))),
        facts: trusted_facts(),
        version: no_version(),
    }
}

fn segment(i: usize) -> SegmentAsset<'static> {
    segment_with(i, segment_assertions(i), &[])
}

fn run_chain(
    segments: Vec<SegmentAsset>,
    seeks: &[usize],
) -> Result<PerSegmentVerifyOutput, ValidateError> {
    let defects: Vec<Option<String>> = segments.iter().skip(1).map(|_| None).collect();
    assert!(segments_fit(&segments, generous(), defects.len()));
    verify_per_segment(&None, &defects, segments, seeks, &names(), generous())
}

#[test]
fn a_sound_chain_is_valid() {
    let out = run_chain((0..4).map(segment).collect(), &[]).expect("verified");
    assert!(out.chain_valid, "{:?} {:?}", out.chain_failures, out.segments[1].output.results);
    assert_eq!(out.segments.len(), 4);
    for (i, s) in out.segments.iter().enumerate() {
        assert_eq!(s.sequence_number, i);
        assert_eq!(s.manifest_label, format!("urn:c2pa:{i}"));
        assert_eq!(s.output.validation_state, ValidationState::Trusted);
    }
    assert_eq!(out.segments[2].previous_manifest_label.as_deref(), Some("urn:c2pa:1"));
    assert_eq!(StreamVerifyOutput::PerSegment(out).method(), StreamMethod::PerSegment);
}

#[test]
fn every_segment_is_verified_as_a_standalone_asset() {
    let mut altered = segment(1);
    altered.asset.data = b"HEAD[carrier]tail";
    let out = run_chain(vec![segment(0), altered], &[]).expect("verified");
    assert!(!out.chain_valid);
    assert_eq!(out.chain_failures, vec!["segment 1: standalone validation state is Invalid"]);
    assert_eq!(out.segments[0].output.validation_state, ValidationState::Trusted);
    assert_eq!(out.segments[1].output.validation_state, ValidationState::Invalid);
}

#[test]
fn a_dropped_segment_breaks_the_chain() {
    let out = run_chain(vec![segment(0), segment(2)], &[]).expect("verified");
    assert!(!out.chain_valid);
    assert!(out.chain_failures.iter().any(|f| f.contains("unexpected sequence discontinuity")));
    assert!(out
        .chain_failures
        .iter()
        .any(|f| f.contains("hash does not match the preceding segment's manifest")));
    assert_eq!(out.segments[1].output.validation_state, ValidationState::Invalid);
    assert!(out.segments[1].output.results.has_failure(LIVEVIDEO_ASSERTION_INVALID));
    assert!(out.segments[1].output.results.has_failure(LIVEVIDEO_SEGMENT_INVALID));
}

#[test]
fn a_signalled_seek_excuses_the_gap() {
    let out = run_chain(vec![segment(0), segment(2), segment(3)], &[0]).expect("verified");
    assert!(out.chain_valid, "{:?}", out.chain_failures);
}

#[test]
fn a_spliced_segment_is_found_by_its_digest() {
    let mut first = segment(0);
    match &mut first.extracted {
        Ok(Some(store)) => store.contents = Ok(vec![b"another manifest".to_vec()]),
        _ => panic!("a store"),
    }
    let out = run_chain(vec![first, segment(1)], &[]).expect("verified");
    assert!(!out.chain_valid);
    assert_eq!(
        out.chain_failures,
        vec![
            "segment 1: ingredient activeManifest hash does not match the preceding segment's manifest"
        ]
    );
}

#[test]
fn every_chain_defect_has_its_line() {
    let has = |second: SegmentAsset<'static>, what: &str| {
        let lines = run_chain(vec![segment(0), second], &[]).expect("verified").chain_failures;
        assert!(lines.iter().any(|l| l.contains(what)), "{what}: {lines:?}");
    };
    let mut bare = segment(1);
    bare.extracted = Ok(None);
    has(bare, "segment 1: carries no C2PA manifest");

    let mut a = segment_assertions(1);
    a.retain(|(l, _)| *l != LIVE_VIDEO_SEGMENT_LABEL);
    has(segment_with(1, a, &[]), "missing segment-identity assertion");

    let mut a = segment_assertions(1);
    a.push((LIVE_VIDEO_SEGMENT_LABEL, identity(1, None)));
    has(segment_with(1, a, &[]), "more than one segment-identity assertion");

    has(
        segment_with(1, segment_assertions(1), &[LIVE_VIDEO_SEGMENT_LABEL]),
        "segment-identity assertion is not referenced by the claim",
    );

    let mut a = segment_assertions(1);
    a.retain(|(l, _)| *l != "c2pa.ingredient.v3");
    has(
        segment_with(1, a, &[]),
        "no parentOf c2pa.ingredient.v3 assertion linking to manifest \"urn:c2pa:0\"",
    );

    let first = run_chain(vec![segment(1)], &[]).expect("verified").chain_failures;
    assert!(first
        .iter()
        .any(|l| l.contains("declares previousManifestId \"urn:c2pa:0\" but has no predecessor")));

    let mut a = segment_assertions(1);
    replace(&mut a, LIVE_VIDEO_SEGMENT_LABEL, vmap(declaration(1, "stream-2", "cmaf")));
    has(segment_with(1, a, &[]), "declares streamId \"stream-2\", expected \"stream-1\"");

    let mut a = segment_assertions(1);
    replace(&mut a, LIVE_VIDEO_SEGMENT_LABEL, vmap(declaration(1, "stream-1", "fmp4")));
    has(segment_with(1, a, &[]), "declares encapsulation Some(\"fmp4\"), verified as CMAF");
}

#[test]
fn a_refused_segment_refuses_the_stream() {
    let mut broken = segment(1);
    match &mut broken.extracted {
        Ok(Some(store)) => store.manifests = Err("broken".to_string()),
        _ => panic!("a store"),
    }
    let refused = run_chain(vec![segment(0), broken], &[]);
    assert!(matches!(refused, Err(ValidateError::Jumbf(e)) if e == "broken"));
    let mut bare = segment(0);
    match &mut bare.extracted {
        Ok(Some(store)) => store.contents = Ok(Vec::new()),
        _ => panic!("a store"),
    }
    let refused = run_chain(vec![bare], &[]);
    assert!(matches!(
        refused,
        Err(ValidateError::Stream(e)) if e == "segment manifest store has no hashable active manifest"
    ));
    let brands = verify_per_segment(
        &None,
        &[None, Some("no cmfs brand".to_string())],
        vec![segment(0), segment(1), segment(2)],
        &[],
        &names(),
        generous(),
    );
    assert!(matches!(
        brands,
        Err(ValidateError::Stream(e)) if e == "CMAF segment 1: no cmfs brand"
    ));
    assert!(!segments_fit(&[segment(0)], generous(), 1));
}

#[test]
fn seek_positions_are_increasing_and_inside_the_stream() {
    assert!(validate_expected_seek_positions(&[], 0).is_ok());
    assert!(validate_expected_seek_positions(&[0, 2], 3).is_ok());
    let outside = validate_expected_seek_positions(&[3], 3).unwrap_err();
    assert_eq!(
        outside.message(),
        "stream invalid: expected seek position 3 is outside 3 presented segment(s)"
    );
    for repeated in [[1usize, 1], [2, 1]] {
        let error = validate_expected_seek_positions(&repeated, 3).unwrap_err();
        assert_eq!(
            error.message(),
            "stream invalid: expected seek positions must be unique and strictly increasing"
        );
    }
}

#[test]
fn chain_links_stand_in_numbered_ingredients() {
    assert!(is_ingredient_label("c2pa.ingredient.v3"));
    assert!(is_ingredient_label("c2pa.ingredient.v3__2"));
    assert!(!is_ingredient_label("c2pa.ingredient.v2"));
    assert!(!is_ingredient_label("c2pa.ingredient.v3__x"));
}

fn bmff_manifest(with_tree: bool) -> ParsedManifest {
    let entry = if with_tree {
        vmap(vec![("initHash", Value::Bytes(vec![0; 32]))])
    } else {
        vmap(vec![("count", Value::Integer(1))])
    };
    signed_manifest(
        "urn:c2pa:init",
        vec![("c2pa.hash.bmff.v3", vmap(vec![("merkle", Value::Array(vec![entry]))]))],
        &[],
    )
}

#[test]
fn unbound_fragments_fail_closed() {
    let mut out = clean_output();
    require_fragments_bound(&mut out, &bmff_manifest(false), 2, generous());
    assert_eq!(out.validation_state, ValidationState::Invalid);
    assert!(out.results.failure[0].explanation.starts_with("2 caller-supplied fragment(s)"));

    let mut bound = clean_output();
    require_fragments_bound(&mut bound, &bmff_manifest(true), 2, generous());
    assert_eq!(bound.validation_state, ValidationState::Valid);

    let mut none = clean_output();
    require_fragments_bound(&mut none, &bmff_manifest(false), 0, generous());
    assert_eq!(none.validation_state, ValidationState::Valid);
}

fn fragment(location: usize) -> FragmentFacts {
    FragmentFacts {
        merkle_boxes: Some(vec![Ok(MerkleBox {
            unique_id: 1,
            local_id: 1,
            location,
            proof: Vec::new(),
        })]),
        leaf: no_digests(),
    }
}

#[test]
fn fragments_stand_in_playback_order() {
    let ordered = |locations: &[usize], seeks: &[usize]| {
        let mut out = clean_output();
        let fragments: Vec<FragmentFacts> = locations.iter().map(|l| fragment(*l)).collect();
        validate_fragment_sequence(&mut out, &bmff_manifest(true), &fragments, seeks, generous());
        out
    };
    assert_eq!(ordered(&[3, 4, 5], &[]).validation_state, ValidationState::Valid);
    let skipped = ordered(&[3, 5], &[]);
    assert_eq!(skipped.validation_state, ValidationState::Invalid);
    assert!(skipped.results.has_failure(ASSERTION_BMFF_HASH_MISMATCH));
    assert_eq!(ordered(&[3, 5], &[1]).validation_state, ValidationState::Valid);
}

// Live sessions

const KEY_ID: &[u8] = b"key-1";
const CREATED: &str = "2026-01-01T00:00:00Z";
const CREATED_NANOS: i128 = 1_767_225_600_000_000_000;

fn test_box(kind: &[u8; 4], body: &[u8]) -> Vec<u8> {
    let mut out = ((body.len() + 8) as u32).to_be_bytes().to_vec();
    out.extend_from_slice(kind);
    out.extend_from_slice(body);
    out
}

fn emsg() -> Vec<u8> {
    let mut body = vec![0u8; 4];
    body.extend_from_slice(SEGMENT_INFO_SCHEME_ID_URI.as_bytes());
    body.push(0);
    body.extend_from_slice(SEGMENT_INFO_VALUE.as_bytes());
    body.push(0);
    body.extend_from_slice(&[0; 16]);
    body.extend_from_slice(b"signed message");
    test_box(b"emsg", &body)
}

fn key_entry() -> Value {
    vmap(vec![
        ("key", Value::Bytes(vec![1])),
        ("minSequenceNumber", Value::Integer(1)),
        ("createdAt", Value::Tag(0, Box::new(text(CREATED)))),
        ("validityPeriod", Value::Integer(3600)),
        ("signerBinding", Value::Bytes(vec![2])),
    ])
}

fn init_segment() -> Vec<u8> {
    test_box(b"ftyp", b"cmfc")
}

fn init_manifest(data: &[u8], deliveries: usize, unclaimed: &[&str]) -> ParsedManifest {
    let mut assertions = vec![
        (
            "c2pa.hash.data",
            vmap(vec![("alg", text("sha256")), ("hash", Value::Bytes(sha(data)))]),
        ),
        ("c2pa.actions.v2", created()),
    ];
    for _ in 0..deliveries {
        let keys = vmap(vec![("keys", Value::Array(vec![key_entry()]))]);
        assertions.push((SESSION_KEYS_LABEL, keys));
    }
    signed_manifest("urn:c2pa:init", assertions, unclaimed)
}

fn live_segment(sequence: i128, manifest_id: &str) -> LiveSegment {
    let digest = sha(b"segment");
    let info = vmap(vec![
        ("sequenceNumber", Value::Integer(sequence)),
        ("manifestId", text(manifest_id)),
        (
            "bmffHash",
            vmap(vec![("alg", text("sha256")), ("hash", Value::Bytes(digest.clone()))]),
        ),
    ]);
    let mut data = emsg();
    data.extend_from_slice(&test_box(b"mdat", b"media"));
    LiveSegment {
        data,
        messages: vec![MessageFacts {
            signed_at: SigningTime::Unstated,
            checks: vec![Some(KeyCheck {
                key_id: Some(KEY_ID.to_vec()),
                payload: Some(info),
                digest: Some(digest),
            })],
        }],
    }
}

fn live_facts(segments: Vec<LiveSegment>) -> LiveFacts {
    LiveFacts {
        keys: vec![SessionKeyFacts {
            chain_valid: true,
            cose_key: Some(vec![1]),
            key_id: Some(KEY_ID.to_vec()),
            binding: Some(VerifiedPayload { payload: b"leaf".to_vec(), key_id: None }),
        }],
        segments,
        exclusion_paths: Vec::new(),
    }
}

fn facts_at(time: i128) -> ManifestFacts {
    let mut facts = trusted_facts();
    facts.credential.judged_at = time;
    facts.ocsp.verification_time = time;
    facts.online.verification_time = time;
    facts.identity.judged_at = time;
    facts
}

fn live_asset(data: &[u8], time: i128) -> AssetInput<'_> {
    let mut init = asset(data, generous());
    init.hash_mode = false;
    init.verification_time = time;
    init
}

struct Session {
    data: Vec<u8>,
    m: ParsedManifest,
    facts: ManifestFacts,
    time: i128,
    live: LiveFacts,
}

fn session(segments: Vec<LiveSegment>) -> Session {
    let time = CREATED_NANOS + 60_000_000_000;
    Session {
        data: init_segment(),
        m: init_manifest(&init_segment(), 1, &[]),
        facts: facts_at(time),
        time,
        live: live_facts(segments),
    }
}

fn run_live(s: Session, seeks: &[usize]) -> Result<VerifyOutput, ValidateError> {
    let init = live_asset(&s.data, s.time);
    let extracted = Ok(Some(store_of(vec![(s.m, b"content".to_vec())])));
    assert!(facts_fit_asset(&init, &extracted, &s.facts));
    let defects: Vec<Option<String>> = s.live.segments.iter().map(|_| None).collect();
    verify_live_session(
        &None,
        &defects,
        "CMAF",
        &init,
        &extracted,
        &s.facts,
        no_version(),
        &s.live,
        seeks,
    )
}

#[test]
fn an_authenticated_session_stays_valid() {
    let s = session((1..4).map(|i| live_segment(i, "urn:c2pa:init")).collect());
    let out = run_live(s, &[]).expect("verified");
    assert!(out.results.failure.is_empty(), "{:?}", out.results.failure);
    assert_eq!(out.validation_state, ValidationState::Trusted);
}

#[test]
fn a_skipped_segment_needs_a_signalled_seek() {
    let skipping =
        || session(vec![live_segment(1, "urn:c2pa:init"), live_segment(3, "urn:c2pa:init")]);
    let out = run_live(skipping(), &[]).expect("verified");
    assert_eq!(out.validation_state, ValidationState::Invalid);
    assert_eq!(
        out.results.failure[0].explanation,
        "unexpected sequence discontinuity: signed sequenceNumber 3 does not follow 2"
    );
    assert_eq!(out.results.failure[0].url, "self#segment=2");
    let seeking = run_live(skipping(), &[1]).expect("verified");
    assert_eq!(seeking.validation_state, ValidationState::Trusted);
}

#[test]
fn an_exhausted_sequence_has_no_successor() {
    let s = session(vec![
        live_segment(u64::MAX as i128, "urn:c2pa:init"),
        live_segment(7, "urn:c2pa:init"),
    ]);
    let out = run_live(s, &[0]).expect("verified");
    assert!(out
        .results
        .failure
        .iter()
        .any(|s| s.explanation.contains("predecessor sequenceNumber cannot be incremented")));
}

/// A full counter has no successor: a repeated number is no continuation.
#[test]
fn a_full_counter_is_not_continued() {
    let run = |before: u64, sequence: i128| {
        let previous = LiveVideoManifestState {
            sequence_number: before,
            stream_id: "stream-1".to_string(),
            manifest_id: "urn:c2pa:0".to_string(),
        };
        let mut results = ValidationResults::new();
        let state = validate_live_video_assertion(
            LiveVideoApplicability::new(StreamMethod::PerSegment),
            Some(&identity(sequence, Some("urn:c2pa:0"))),
            "urn:c2pa:1",
            Some(&previous),
            &mut results,
            "url",
        );
        (state, results)
    };
    let (state, results) = run(u64::MAX - 1, u64::MAX as i128);
    assert!(results.failure.is_empty());
    assert_eq!(state.expect("continued").sequence_number, u64::MAX);
    for sequence in [u64::MAX as i128, 0] {
        let (state, results) = run(u64::MAX, sequence);
        assert!(state.is_none());
        assert!(results.has_failure(LIVEVIDEO_ASSERTION_INVALID));
    }
}

#[test]
fn live_defects_are_reported() {
    let one = || session(vec![live_segment(1, "urn:c2pa:init")]);
    let run = |s: Session| run_live(s, &[]).expect("verified").results;
    let foreign = session(vec![live_segment(1, "urn:c2pa:other")]);
    assert!(run(foreign).has_failure(LIVEVIDEO_SEGMENT_INVALID));

    let mut late = one();
    late.time = CREATED_NANOS + 3_601_000_000_000;
    late.facts = facts_at(late.time);
    assert!(run(late).has_failure(LIVEVIDEO_SEGMENT_INVALID));

    let mut bound = one();
    bound.live.keys[0].binding =
        Some(VerifiedPayload { payload: b"another".to_vec(), key_id: None });
    let results = run(bound);
    assert!(results.has_failure(LIVEVIDEO_SESSION_KEY_INVALID));
    assert!(results.has_failure(LIVEVIDEO_SEGMENT_INVALID));

    let mut with_media = session(Vec::new());
    with_media.data = test_box(b"mdat", b"media");
    with_media.m = init_manifest(&with_media.data, 1, &[]);
    assert!(run(with_media).has_failure(LIVEVIDEO_INIT_INVALID));

    let mut invalid = session(Vec::new());
    invalid.facts.credential.signature = SignatureCheck::Invalid("forged".to_string());
    assert!(run(invalid).has_failure(LIVEVIDEO_MANIFEST_INVALID));
}

#[test]
fn a_duplicated_delivery_is_never_honoured() {
    let mut s = session(vec![live_segment(1, "urn:c2pa:init")]);
    s.m = init_manifest(&s.data, 2, &[]);
    let out = run_live(s, &[]).expect("verified");
    assert!(out.results.has_failure(LIVEVIDEO_SESSION_KEY_INVALID));
}

#[test]
fn the_lane_is_read_off_the_manifest() {
    let data = init_segment();
    let init = live_asset(&data, 0);
    let store = |m: ParsedManifest| Ok(Some(store_of(vec![(m, b"content".to_vec())])));
    let keys = store(init_manifest(&data, 1, &[]));
    let unreferenced = store(init_manifest(&data, 1, &[SESSION_KEYS_LABEL]));
    let vsi = StreamMethod::VerifiableSegmentInfo;
    let lane = |method: StreamMethod, e: &Result<Option<StoreReport>, String>| {
        select_lane(method, &init, e, &[], 1).expect("a lane")
    };
    assert_eq!(lane(vsi, &keys), Lane::LiveSession);
    assert_eq!(lane(vsi, &unreferenced), Lane::Merkle);
    assert_eq!(lane(vsi, &Ok(None)), Lane::Merkle);
    assert_eq!(lane(StreamMethod::PerSegment, &keys), Lane::PerSegment);
    assert!(matches!(
        select_lane(vsi, &init, &Err("cut".to_string()), &[], 1),
        Err(ValidateError::Format(e)) if e == "cut"
    ));
    assert!(select_lane(vsi, &init, &keys, &[4], 1).is_err());

    let mut s = session(Vec::new());
    s.m = init_manifest(&s.data, 1, &[SESSION_KEYS_LABEL]);
    assert!(matches!(
        run_live(s, &[]),
        Err(ValidateError::Stream(e))
            if e == "init segment delivers no claim-bound session key, so it is not a live session"
    ));
}

#[test]
fn a_live_init_segment_carries_no_media() {
    let check = |data: &[u8]| {
        let mut results = ValidationResults::new();
        let ok = validate_init_segment(
            LiveVideoApplicability::new(StreamMethod::VerifiableSegmentInfo),
            data,
            &mut results,
            "self#init-segment",
        );
        (ok, results.failure.len())
    };
    assert_eq!(check(&test_box(b"moov", b"tracks")), (true, 0));
    assert_eq!(check(&test_box(b"mdat", b"")), (false, 1));
    assert_eq!(check(&[0, 0, 0, 99, b'm', b'o', b'o', b'v']), (false, 1));
    assert_eq!(
        LiveVideoApplicability::new(StreamMethod::PerSegment).method(),
        StreamMethod::PerSegment
    );
}

#[test]
fn an_unknown_continuity_method_is_refused() {
    let mut fields = declaration(1, "stream-1", "cmaf");
    fields.push(("continuityMethod", text("guess")));
    fields.push(("previousManifestId", text("urn:c2pa:0")));
    let mut a = segment_assertions(1);
    replace(&mut a, LIVE_VIDEO_SEGMENT_LABEL, vmap(fields));
    let out = run_chain(vec![segment(0), segment_with(1, a, &[])], &[]).expect("verified");
    assert!(out.segments[1].output.results.has_failure(LIVEVIDEO_CONTINUITY_METHOD_INVALID));
    assert!(matches!(
        out.segments[1].output.report_json.get("validation_state"),
        Some(Json::Text(t)) if t == "Invalid"
    ));
}
