use c2pa_validate::bmff::bmff_box_payload_bounds;
use c2pa_validate::claim_refs::ClaimAssertionRefs;
use c2pa_validate::hash::{hash_bytes, hash_claim_signature_box, HashAlgorithm};
use c2pa_validate::ingredient::{verify_ingredient_references, IngredientManifestDigestCache};
use c2pa_validate::manifest::{
    manifest_hashes, AssertionBox, ManifestHash, ParsedManifest, Payload, StoreContext,
};
use c2pa_validate::profile::ClaimGeneration;
use c2pa_validate::status::{
    ValidationResults, ALGORITHM_UNSUPPORTED, INGREDIENT_CLAIM_SIGNATURE_MISMATCH,
    INGREDIENT_CLAIM_SIGNATURE_MISSING, INGREDIENT_CLAIM_SIGNATURE_VALIDATED,
    INGREDIENT_MANIFEST_MISMATCH, INGREDIENT_MANIFEST_MISSING, INGREDIENT_MANIFEST_VALIDATED,
};
use c2pa_validate::value::Value;

fn vmap(fields: Vec<(&str, Value)>) -> Value {
    Value::Dict(
        fields
            .into_iter()
            .map(|(key, value)| (Value::Text(key.to_string()), value))
            .collect(),
    )
}

fn text(s: &str) -> Value {
    Value::Text(s.to_string())
}

fn head(major: u8, n: u64, out: &mut Vec<u8>) {
    let m = major << 5;
    if n < 24 {
        out.push(m | n as u8);
    } else if n <= 0xff {
        out.push(m | 24);
        out.push(n as u8);
    } else if n <= 0xffff {
        out.push(m | 25);
        out.extend_from_slice(&(n as u16).to_be_bytes());
    } else if n <= 0xffff_ffff {
        out.push(m | 26);
        out.extend_from_slice(&(n as u32).to_be_bytes());
    } else {
        out.push(m | 27);
        out.extend_from_slice(&n.to_be_bytes());
    }
}

fn write_item(v: &Value, out: &mut Vec<u8>) -> usize {
    match v {
        Value::Integer(n) => {
            if *n >= 0 {
                head(0, *n as u64, out);
            } else {
                head(1, (-1 - *n) as u64, out);
            }
            1
        }
        Value::Bytes(b) => {
            head(2, b.len() as u64, out);
            out.extend_from_slice(b);
            1
        }
        Value::Text(t) => {
            head(3, t.len() as u64, out);
            out.extend_from_slice(t.as_bytes());
            1
        }
        Value::Array(items) => {
            head(4, items.len() as u64, out);
            let mut n = 1;
            for item in items {
                n += write_item(item, out);
            }
            n
        }
        Value::Dict(entries) => {
            head(5, entries.len() as u64, out);
            let mut n = 1;
            for (k, v) in entries {
                n += write_item(k, out);
                n += write_item(v, out);
            }
            n
        }
        Value::Tag(tag, inner) => {
            head(6, *tag, out);
            1 + write_item(inner, out)
        }
        Value::Bool(b) => {
            out.push(if *b { 0xf5 } else { 0xf4 });
            1
        }
        Value::Null => {
            out.push(0xf6);
            1
        }
        Value::Float(bits, _) => {
            out.push(0xfb);
            out.extend_from_slice(&bits.to_be_bytes());
            1
        }
    }
}

/// The value encoded, with the number of data items that it holds.
fn payload(v: Value) -> Payload {
    let mut bytes = Vec::new();
    let nodes = write_item(&v, &mut bytes);
    Payload { bytes, nodes, value: Some(v) }
}

fn sha(data: &[u8]) -> Vec<u8> {
    hash_bytes("sha256", data).expect("supported")
}

fn manifest(label: &str, jumbf: &[u8]) -> ParsedManifest {
    ParsedManifest {
        label: label.to_string(),
        manifest_jumbf: jumbf.to_vec(),
        assertions: Vec::new(),
        assertion_jumbf: Vec::new(),
        claim: None,
        signature_cose: None,
        claim_count: 1,
        claim_box_label: None,
        generation: ClaimGeneration::V2,
    }
}

fn reference(url: String, alg: &str, hash: Vec<u8>) -> Value {
    vmap(vec![("url", Value::Text(url)), ("alg", text(alg)), ("hash", Value::Bytes(hash))])
}

const CHILD: &str = "urn:c2pa:child";

fn redacted_actions() -> Value {
    Value::Text(format!("self#jumbf=/c2pa/{CHILD}/c2pa.assertions/c2pa.actions"))
}

fn run_with(
    ingredient: Value,
    actual_manifest: &[u8],
    actual_signature: Option<&[u8]>,
    redacted: Option<Value>,
) -> ValidationResults {
    let mut parent = manifest("urn:c2pa:parent", &[]);
    parent.assertions.push(AssertionBox {
        label: "c2pa.ingredient.v3".to_string(),
        payload: payload(ingredient),
    });
    let mut child = manifest(CHILD, actual_manifest);
    child.signature_cose = actual_signature.map(|s| s.to_vec());
    let mut claim_fields = vec![(
        "created_assertions",
        Value::Array(vec![vmap(vec![(
            "url",
            text("self#jumbf=c2pa.assertions/c2pa.ingredient.v3"),
        )])]),
    )];
    if let Some(entry) = redacted {
        claim_fields.push(("redacted_assertions", Value::Array(vec![entry])));
    }
    let claim = vmap(claim_fields);
    let manifests = [child];
    let hashes = [ManifestHash { label: CHILD.to_string(), digest: sha(actual_manifest) }];
    let refs = ClaimAssertionRefs::build(&parent, &claim, ClaimGeneration::V2);
    let mut results = ValidationResults::new();
    let store = StoreContext { manifests: &manifests, manifest_hashes: &hashes };
    let mut cache = IngredientManifestDigestCache::new(&store);
    verify_ingredient_references(
        &refs,
        &claim,
        &mut cache,
        "self#jumbf=/c2pa/urn:c2pa:parent/c2pa.signature",
        &mut results,
    );
    results
}

fn run_ingredient_bindings(
    actual_manifest: &[u8],
    expected_manifest: &[u8],
    actual_signature: &[u8],
    expected_signature: &[u8],
    redacted: bool,
) -> ValidationResults {
    let ingredient = vmap(vec![
        (
            "activeManifest",
            reference(
                format!("self#jumbf=/c2pa/{CHILD}"),
                "sha256",
                sha(expected_manifest),
            ),
        ),
        (
            "claimSignature",
            reference(
                format!("self#jumbf=/c2pa/{CHILD}/c2pa.signature"),
                "sha256",
                hash_claim_signature_box("sha256", expected_signature).expect("hash"),
            ),
        ),
    ]);
    let entry = if redacted { Some(redacted_actions()) } else { None };
    run_with(ingredient, actual_manifest, Some(actual_signature), entry)
}

#[test]
fn matching_ingredient_manifest_short_circuits_signature_fallback() {
    let results = run_ingredient_bindings(
        b"child manifest",
        b"child manifest",
        b"swapped signature",
        b"expected signature",
        false,
    );
    assert!(results.has_success(INGREDIENT_MANIFEST_VALIDATED));
    assert!(!results.has_success(INGREDIENT_CLAIM_SIGNATURE_VALIDATED));
    assert!(results.failure.is_empty());
}

#[test]
fn swapped_ingredient_manifest_is_rejected_without_redaction() {
    let results = run_ingredient_bindings(
        b"swapped manifest",
        b"expected manifest",
        b"child signature",
        b"child signature",
        false,
    );
    assert!(results.has_failure(INGREDIENT_MANIFEST_MISMATCH));
    assert!(!results.has_success(INGREDIENT_MANIFEST_VALIDATED));
}

#[test]
fn redacted_ingredient_uses_signature_fallback() {
    let results = run_ingredient_bindings(
        b"redacted manifest",
        b"original manifest",
        b"child signature",
        b"child signature",
        true,
    );
    assert!(results.has_success(INGREDIENT_CLAIM_SIGNATURE_VALIDATED));
    assert!(!results.has_failure(INGREDIENT_MANIFEST_MISMATCH));
}

#[test]
fn swapped_redacted_ingredient_signature_is_rejected() {
    let results = run_ingredient_bindings(
        b"redacted manifest",
        b"original manifest",
        b"swapped signature",
        b"expected signature",
        true,
    );
    assert!(results.has_failure(INGREDIENT_CLAIM_SIGNATURE_MISMATCH));
    assert!(!results.has_success(INGREDIENT_CLAIM_SIGNATURE_VALIDATED));
}

/// The digest is that of the superbox content, whatever the size of its header.
#[test]
fn manifest_hashes_hash_extended_superbox_payload() {
    let label = "urn:c2pa:extended-child";
    let ordinary = [&[0, 0, 0, 15][..], b"jumb", b"content"].concat();
    let extended =
        [&[0, 0, 0, 1][..], b"jumb", &[0, 0, 0, 0, 0, 0, 0, 23], &ordinary[8..]].concat();
    let (start, length) = bmff_box_payload_bounds(&extended, 0, extended.len()).expect("a box");
    let content = extended[start..start + length].to_vec();
    let expected = sha(&ordinary[8..]);
    let manifests = [manifest(label, &content)];
    let hashes = manifest_hashes(&[content], &manifests);
    assert_eq!(hashes.len(), 1);
    assert_eq!(hashes[0].label, label);
    assert_eq!(hashes[0].digest, expected);
}

#[test]
fn ingredient_manifest_digests_are_cached_once_per_child_and_algorithm() {
    let child_bytes = b"child manifest content";
    let manifests = [manifest("urn:c2pa:child", child_bytes)];
    let hashes =
        [ManifestHash { label: "urn:c2pa:child".to_string(), digest: sha(child_bytes) }];
    let store = StoreContext { manifests: &manifests, manifest_hashes: &hashes };
    let mut cache = IngredientManifestDigestCache::new(&store);
    let sha384 = hash_bytes("sha384", child_bytes).expect("supported");
    let sha512 = hash_bytes("sha512", child_bytes).expect("supported");
    for _ in 0..2 {
        assert!(cache.matches(&manifests[0], HashAlgorithm::Sha256, &sha(child_bytes)));
        assert!(cache.matches(&manifests[0], HashAlgorithm::Sha384, &sha384));
        assert!(cache.matches(&manifests[0], HashAlgorithm::Sha512, &sha512));
    }
    assert_eq!(cache.digests.len(), 2);
    assert!(!cache.matches(&manifests[0], HashAlgorithm::Sha512, &[0; 64]));
}

#[test]
fn every_way_an_ingredient_can_fail_has_its_code() {
    let active = |url: &str, alg: &str| {
        vmap(vec![("activeManifest", reference(url.to_string(), alg, vec![7; 32]))])
    };
    let child = format!("self#jumbf=/c2pa/{CHILD}");
    let missing = run_with(active("self#jumbf=/c2pa/urn:c2pa:gone", "sha256"), b"m", None, None);
    assert!(missing.has_failure(INGREDIENT_MANIFEST_MISSING));
    let unsupported = run_with(active(&child, "md5"), b"m", None, None);
    assert!(unsupported.has_failure(ALGORITHM_UNSUPPORTED));
    let unsigned = run_with(active(&child, "sha256"), b"m", None, Some(redacted_actions()));
    assert!(unsigned.has_failure(INGREDIENT_CLAIM_SIGNATURE_MISSING));
    let plain = run_with(vmap(vec![("relationship", text("parentOf"))]), b"m", None, None);
    assert!(plain.failure.is_empty() && plain.success.is_empty());
}

/// A redaction entry that is a hashed-URI map names its manifest as a text does.
#[test]
fn a_mapped_redaction_switches_the_ingredient_method() {
    let ingredient = vmap(vec![
        ("activeManifest", reference(format!("self#jumbf=/c2pa/{CHILD}"), "sha256", vec![7; 32])),
        (
            "claimSignature",
            reference(
                format!("self#jumbf=/c2pa/{CHILD}/c2pa.signature"),
                "sha256",
                hash_claim_signature_box("sha256", b"child signature").expect("hash"),
            ),
        ),
    ]);
    let entry = vmap(vec![(
        "url",
        Value::Text(format!("self#jumbf=/c2pa/{CHILD}/c2pa.assertions/c2pa.metadata")),
    )]);
    let results = run_with(ingredient, b"redacted", Some(b"child signature"), Some(entry));
    assert!(results.has_success(INGREDIENT_CLAIM_SIGNATURE_VALIDATED));
    assert!(!results.has_failure(INGREDIENT_MANIFEST_MISMATCH));
}
