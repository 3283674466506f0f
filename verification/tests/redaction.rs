use c2pa_validate::binding::AssetFacts;
use c2pa_validate::bmff::{BmffFacts, DigestReport};
use c2pa_validate::boxes::SpanReport;
use c2pa_validate::collection::ZipFacts;
use c2pa_validate::credential::{CredentialFacts, SignatureCheck, TimestampFacts};
use c2pa_validate::json::Json;
use c2pa_validate::manifest::{AssetFormat, JumbfBox, ParsedManifest, Payload, StoreContext};
use c2pa_validate::multi_asset::MultiAssetFacts;
use c2pa_validate::ocsp::CertificatePool;
use c2pa_validate::online::OnlineFacts;
use c2pa_validate::output::{VersionVerdict, MAX_REPORT_DECODED_VALUE_NODES};
use c2pa_validate::pipeline::{verify_manifest, IdentityFacts, ManifestFacts, ManifestInput, OcspFacts};
use c2pa_validate::profile::{ClaimGeneration, EngineProfile};
use c2pa_validate::redaction::{redacts_manifest, verify_claim_redactions};
use c2pa_validate::status::{
    ValidationResults, ASSERTION_ACTION_REDACTED, ASSERTION_HARD_BINDING_REDACTED,
    ASSERTION_NOT_REDACTED, ASSERTION_SELF_REDACTED, CLAIM_MALFORMED,
};
use c2pa_validate::value::Value;

const PARENT: &str = "urn:c2pa:parent";
const CHILD: &str = "urn:c2pa:child";

fn vmap(fields: Vec<(&str, Value)>) -> Value {
    Value::Dict(
        fields
            .into_iter()
            .map(|(key, value)| (Value::Text(key.to_string()), value))
            .collect(),
    )
}

fn text(s: &str) -> Value {
    Value::Text(s.to_string())
}

fn head(major: u8, n: u64, out: &mut Vec<u8>) {
    let m = major << 5;
    if n < 24 {
        out.push(m | n as u8);
    } else if n <= 0xff {
        out.push(m | 24);
        out.push(n as u8);
    } else if n <= 0xffff {
        out.push(m | 25);
        out.extend_from_slice(&(n as u16).to_be_bytes());
    } else if n <= 0xffff_ffff {
        out.push(m | 26);
        out.extend_from_slice(&(n as u32).to_be_bytes());
    } else {
        out.push(m | 27);
        out.extend_from_slice(&n.to_be_bytes());
    }
}

fn write_item(v: &Value, out: &mut Vec<u8>) -> usize {
    match v {
        Value::Integer(n) => {
            if *n >= 0 {
                head(0, *n as u64, out);
            } else {
                head(1, (-1 - *n) as u64, out);
            }
            1
        }
        Value::Bytes(b) => {
            head(2, b.len() as u64, out);
            out.extend_from_slice(b);
            1
        }
        Value::Text(t) => {
            head(3, t.len() as u64, out);
            out.extend_from_slice(t.as_bytes());
            1
        }
        Value::Array(items) => {
            head(4, items.len() as u64, out);
            let mut n = 1;
            for item in items {
                n += write_item(item, out);
            }
            n
        }
        Value::Dict(entries) => {
            head(5, entries.len() as u64, out);
            let mut n = 1;
            for (k, v) in entries {
                n += write_item(k, out);
                n += write_item(v, out);
            }
            n
        }
        Value::Tag(tag, inner) => {
            head(6, *tag, out);
            1 + write_item(inner, out)
        }
        Value::Bool(b) => {
            out.push(if *b { 0xf5 } else { 0xf4 });
            1
        }
        Value::Null => {
            out.push(0xf6);
            1
        }
        Value::Float(bits, _) => {
            out.push(0xfb);
            out.extend_from_slice(&bits.to_be_bytes());
            1
        }
    }
}

/// The value encoded, with the number of data items that it holds.
fn payload(v: Value) -> Payload {
    let mut bytes = Vec::new();
    let nodes = write_item(&v, &mut bytes);
    Payload { bytes, nodes, value: Some(v) }
}

/// The content of an assertion superbox: its description box and a CBOR box.
fn box_content(label: &str, cbor: &[u8]) -> Vec<u8> {
    let mut description = Vec::new();
    description.extend_from_slice(&[
        0x63, 0x62, 0x6f, 0x72, 0x00, 0x11, 0x00, 0x10, 0x80, 0x00, 0x00, 0xaa, 0x00, 0x38, 0x9b,
        0x71,
    ]);
    description.push(3);
    description.extend_from_slice(label.as_bytes());
    description.push(0);
    let mut out = Vec::new();
    out.extend_from_slice(&((description.len() + 8) as u32).to_be_bytes());
    out.extend_from_slice(b"jumd");
    out.extend_from_slice(&description);
    out.extend_from_slice(&((cbor.len() + 8) as u32).to_be_bytes());
    out.extend_from_slice(b"cbor");
    out.extend_from_slice(cbor);
    out
}

fn no_digests() -> DigestReport {
    DigestReport {
        sha256: Err("not computed".to_string()),
        sha384: Err("not computed".to_string()),
        sha512: Err("not computed".to_string()),
    }
}

fn no_bmff() -> BmffFacts {
    BmffFacts {
        structural: no_digests(),
        init_structural: no_digests(),
        mdats: None,
        merkle_boxes: None,
    }
}

fn plain_asset() -> AssetFacts {
    AssetFacts {
        bmff: no_bmff(),
        fragments: Vec::new(),
        spans: SpanReport::Unsupported,
        zip: ZipFacts { central: None, entries: Vec::new() },
        carriers: Ok(Vec::new()),
        multi_asset: MultiAssetFacts { locator_ranges: Ok(Vec::new()), parts: Vec::new() },
    }
}

/// Facts of a manifest whose signature carries no certificate.
fn unsigned_facts() -> ManifestFacts {
    ManifestFacts {
        pool: CertificatePool { certificates: Vec::new(), chain_len: 0, issuers: Vec::new() },
        chain_error: None,
        timestamp: TimestampFacts {
            header: None,
            input_formed: false,
            token_read: false,
            inspection_error: None,
            verification: None,
        },
        credential: CredentialFacts {
            judged_at: 0,
            chain: None,
            leaf_valid: false,
            leaf_acceptable: false,
            signature: SignatureCheck::Valid,
            allowed: None,
        },
        ocsp: OcspFacts {
            staples: Vec::new(),
            max_response_bytes: 262_144,
            verdicts: Vec::new(),
            signed_at: None,
            verification_time: 0,
        },
        online: OnlineFacts {
            answers: Vec::new(),
            queries: Vec::new(),
            verification_time: 0,
        },
        identity: IdentityFacts {
            statuses: ValidationResults::new(),
            judged_at: 0,
            claim_timestamp: None,
        },
        signer: None,
        asset: plain_asset(),
    }
}

fn no_version() -> VersionVerdict {
    VersionVerdict {
        evaluations: Vec::new(),
        validated_under: None,
        document: Json::Null,
        document_when_broken: Json::Null,
    }
}

fn claim_redacting(urls: &[String]) -> Value {
    vmap(vec![(
        "redacted_assertions",
        Value::Array(urls.iter().map(|url| Value::Text(url.clone())).collect()),
    )])
}

fn uri(manifest: &str, assertion: &str) -> String {
    format!("self#jumbf=/c2pa/{manifest}/c2pa.assertions/{assertion}")
}

fn child(boxes: Vec<JumbfBox>) -> ParsedManifest {
    ParsedManifest {
        label: CHILD.to_string(),
        manifest_jumbf: Vec::new(),
        assertions: Vec::new(),
        assertion_jumbf: boxes,
        claim: None,
        signature_cose: None,
        claim_count: 1,
        claim_box_label: None,
        generation: ClaimGeneration::V2,
    }
}

fn intact(label: &str) -> JumbfBox {
    let p = payload(vmap(vec![("v", Value::Bytes(vec![1, 2, 3]))]));
    JumbfBox { label: label.to_string(), content: box_content(label, &p.bytes), zeroed: false }
}

fn emptied(label: &str) -> JumbfBox {
    JumbfBox { label: label.to_string(), content: box_content(label, &[0; 32]), zeroed: true }
}

fn run(claim: &Value, boxes: Vec<JumbfBox>) -> ValidationResults {
    let manifests = [child(boxes)];
    let mut results = ValidationResults::new();
    verify_claim_redactions(PARENT, claim, &manifests, &mut results);
    results
}

/// A claim may not redact an assertion of its own manifest, in either the
/// absolute or the relative spelling.
#[test]
fn self_redaction_is_rejected() {
    for url in [
        uri(PARENT, "c2pa.metadata"),
        "self#jumbf=c2pa.assertions/c2pa.metadata".to_string(),
    ] {
        let results = run(&claim_redacting(&[url.clone()]), vec![intact("c2pa.metadata")]);
        assert!(
            results.has_failure(ASSERTION_SELF_REDACTED),
            "{url}: {:?}",
            results.failure
        );
    }
}

/// An actions assertion and a hard binding may never be redacted; each has its
/// own failure code.
#[test]
fn actions_and_hard_bindings_may_not_be_redacted() {
    for (label, code) in [
        ("c2pa.actions", ASSERTION_ACTION_REDACTED),
        ("c2pa.actions.v2__1", ASSERTION_ACTION_REDACTED),
        ("c2pa.hash.data", ASSERTION_HARD_BINDING_REDACTED),
        ("c2pa.hash.bmff.v3", ASSERTION_HARD_BINDING_REDACTED),
    ] {
        let results = run(&claim_redacting(&[uri(CHILD, label)]), vec![]);
        assert!(results.has_failure(code), "{label}: {:?}", results.failure);
    }
    // An ordinary assertion the store no longer carries is lawful.
    let results = run(&claim_redacting(&[uri(CHILD, "c2pa.metadata")]), vec![]);
    assert!(results.failure.is_empty(), "{:?}", results.failure);
}

/// A declared redaction whose target still carries content is reported; an
/// emptied-in-place box is lawful.
#[test]
fn declared_redaction_must_have_happened() {
    let results = run(
        &claim_redacting(&[uri(CHILD, "c2pa.metadata")]),
        vec![intact("c2pa.metadata")],
    );
    assert!(results.has_failure(ASSERTION_NOT_REDACTED));

    let results = run(
        &claim_redacting(&[uri(CHILD, "c2pa.metadata")]),
        vec![emptied("c2pa.metadata")],
    );
    assert!(results.failure.is_empty(), "{:?}", results.failure);
}

/// An entry that is not a JUMBF assertion URI is a malformed claim.
#[test]
fn malformed_entries_are_rejected() {
    for url in [
        "https://example.com/assertion".to_string(),
        format!("self#jumbf=/c2pa/{CHILD}"),
        format!("self#jumbf=/c2pa/{CHILD}/c2pa.assertions/"),
        format!("self#jumbf=/c2pa/{CHILD}/c2pa.signature"),
    ] {
        let results = run(&claim_redacting(&[url.clone()]), vec![]);
        assert!(results.has_failure(CLAIM_MALFORMED), "{url}: {:?}", results.failure);
    }
}

/// Only a lawful redaction lets an ingredient fall back to the claim-signature
/// method.
#[test]
fn only_lawful_redactions_switch_the_ingredient_method() {
    assert!(redacts_manifest(&claim_redacting(&[uri(CHILD, "c2pa.metadata")]), CHILD));
    assert!(!redacts_manifest(&claim_redacting(&[uri(CHILD, "c2pa.actions")]), CHILD));
    assert!(!redacts_manifest(&claim_redacting(&[uri(CHILD, "c2pa.hash.data")]), CHILD));
    assert!(!redacts_manifest(
        &claim_redacting(&[uri("urn:c2pa:other", "c2pa.metadata")]),
        CHILD
    ));
    // A hashed-URI map in the entry position still identifies the box.
    let mapped = vmap(vec![(
        "redacted_assertions",
        Value::Array(vec![vmap(vec![("url", text(&uri(CHILD, "c2pa.metadata")))])]),
    )]);
    assert!(redacts_manifest(&mapped, CHILD));
}

/// A self-redaction must reach a consumer's report in the default posture.
#[test]
fn a_self_redaction_reaches_the_verification_report() {
    let claim = claim_redacting(&[uri(PARENT, "c2pa.metadata")]);
    let manifests = [ParsedManifest {
        label: PARENT.to_string(),
        manifest_jumbf: Vec::new(),
        assertions: Vec::new(),
        assertion_jumbf: Vec::new(),
        claim: Some(payload(claim)),
        signature_cose: None,
        claim_count: 1,
        claim_box_label: Some("c2pa.claim.v2".to_string()),
        generation: ClaimGeneration::V2,
    }];
    let store = StoreContext { manifests: &manifests, manifest_hashes: &[] };
    let facts = unsigned_facts();
    let input = ManifestInput {
        manifest: &manifests[0],
        store: &store,
        data: &[],
        format: AssetFormat::C2paStore,
        prehashed: None,
        engine: EngineProfile::generous(),
        verification_time: 0,
        facts: &facts,
    };
    let mut nodes = MAX_REPORT_DECODED_VALUE_NODES;
    let out = verify_manifest(&input, no_version(), &mut nodes);
    assert!(
        out.results.has_failure(ASSERTION_SELF_REDACTED),
        "{:?}",
        out.results.failure
    );
}

/// More entries than the bound are refused as a whole.
#[test]
fn the_number_of_redactions_is_bounded() {
    let urls: Vec<String> = (0..c2pa_validate::redaction::MAX_REDACTED_ASSERTIONS + 1)
        .map(|i| uri(CHILD, &format!("c2pa.metadata__{i}")))
        .collect();
    let results = run(&claim_redacting(&urls), vec![]);
    assert_eq!(results.failure.len(), 1);
    assert!(results.has_failure(CLAIM_MALFORMED));
    let results = run(&claim_redacting(&urls[..urls.len() - 1]), vec![]);
    assert!(results.failure.is_empty());
}
