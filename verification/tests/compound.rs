use c2pa_validate::base64::base64_encode;
use c2pa_validate::claim_refs::ClaimAssertionRefs;
use c2pa_validate::compound::{verify_compound_content, COMPOUND_CONTENT_LABEL};
use c2pa_validate::datetime::{add_seconds, LAST_INSTANT};
use c2pa_validate::hash::hash_bytes;
use c2pa_validate::json::Json;
use c2pa_validate::manifest::{AssertionBox, JumbfBox, ManifestHash, ParsedManifest, Payload};
use c2pa_validate::profile::ClaimGeneration;
use c2pa_validate::status::{
    ValidationResults, ASSERTION_COMPOUND_CONTENT_MALFORMED, ASSERTION_COMPOUND_CONTENT_MATCH,
    ASSERTION_COMPOUND_CONTENT_MISMATCH,
};
use c2pa_validate::value::Value;

const PARENT: &str = "urn:c2pa:00000000-0000-4000-8000-000000000001";
const CHILD: &str = "urn:c2pa:00000000-0000-4000-8000-000000000002";

fn vmap(fields: Vec<(&str, Value)>) -> Value {
    Value::Dict(
        fields
            .into_iter()
            .map(|(key, value)| (Value::Text(key.to_string()), value))
            .collect(),
    )
}

fn text(s: &str) -> Value {
    Value::Text(s.to_string())
}

fn head(major: u8, n: u64, out: &mut Vec<u8>) {
    let m = major << 5;
    if n < 24 {
        out.push(m | n as u8);
    } else if n <= 0xff {
        out.push(m | 24);
        out.push(n as u8);
    } else if n <= 0xffff {
        out.push(m | 25);
        out.extend_from_slice(&(n as u16).to_be_bytes());
    } else if n <= 0xffff_ffff {
        out.push(m | 26);
        out.extend_from_slice(&(n as u32).to_be_bytes());
    } else {
        out.push(m | 27);
        out.extend_from_slice(&n.to_be_bytes());
    }
}

fn write_item(v: &Value, out: &mut Vec<u8>) -> usize {
    match v {
        Value::Integer(n) => {
            if *n >= 0 {
                head(0, *n as u64, out);
            } else {
                head(1, (-1 - *n) as u64, out);
            }
            1
        }
        Value::Bytes(b) => {
            head(2, b.len() as u64, out);
            out.extend_from_slice(b);
            1
        }
        Value::Text(t) => {
            head(3, t.len() as u64, out);
            out.extend_from_slice(t.as_bytes());
            1
        }
        Value::Array(items) => {
            head(4, items.len() as u64, out);
            let mut n = 1;
            for item in items {
                n += write_item(item, out);
            }
            n
        }
        Value::Dict(entries) => {
            head(5, entries.len() as u64, out);
            let mut n = 1;
            for (k, v) in entries {
                n += write_item(k, out);
                n += write_item(v, out);
            }
            n
        }
        Value::Tag(tag, inner) => {
            head(6, *tag, out);
            1 + write_item(inner, out)
        }
        Value::Bool(b) => {
            out.push(if *b { 0xf5 } else { 0xf4 });
            1
        }
        Value::Null => {
            out.push(0xf6);
            1
        }
        Value::Float(bits, _) => {
            out.push(0xfb);
            out.extend_from_slice(&bits.to_be_bytes());
            1
        }
    }
}

/// The value encoded, with the number of data items that it holds.
fn payload(v: Value) -> Payload {
    let mut bytes = Vec::new();
    let nodes = write_item(&v, &mut bytes);
    Payload { bytes, nodes, value: Some(v) }
}

/// The content of an assertion superbox: its description box and a CBOR box.
fn box_content(label: &str, cbor: &[u8]) -> Vec<u8> {
    let mut description = Vec::new();
    description.extend_from_slice(&[
        0x63, 0x62, 0x6f, 0x72, 0x00, 0x11, 0x00, 0x10, 0x80, 0x00, 0x00, 0xaa, 0x00, 0x38, 0x9b,
        0x71,
    ]);
    description.push(3);
    description.extend_from_slice(label.as_bytes());
    description.push(0);
    let mut out = Vec::new();
    out.extend_from_slice(&((description.len() + 8) as u32).to_be_bytes());
    out.extend_from_slice(b"jumd");
    out.extend_from_slice(&description);
    out.extend_from_slice(&((cbor.len() + 8) as u32).to_be_bytes());
    out.extend_from_slice(b"cbor");
    out.extend_from_slice(cbor);
    out
}

fn sha(data: &[u8]) -> Vec<u8> {
    hash_bytes("sha256", data).expect("supported")
}

fn reference(url: &str, digest: Vec<u8>, alg: &str) -> Value {
    vmap(vec![("url", text(url)), ("hash", Value::Bytes(digest)), ("alg", text(alg))])
}

fn child(relationship: &str, alg: &str) -> Value {
    vmap(vec![
        ("relationship", text(relationship)),
        (
            "activeManifest",
            reference(&format!("self#jumbf=/c2pa/{CHILD}"), sha(b"child"), alg),
        ),
    ])
}

fn run(
    ingredient: Value,
    component: impl Fn(Vec<u8>) -> Option<Value>,
    stored: &[u8],
) -> ValidationResults {
    let ingredient = payload(ingredient);
    let ingredient_box = box_content("c2pa.ingredient.v3", &ingredient.bytes);
    let components: Vec<Value> = component(sha(&ingredient_box)).into_iter().collect();
    let content = payload(vmap(vec![("components", Value::Array(components))]));
    let content_box = box_content(COMPOUND_CONTENT_LABEL, &content.bytes);
    let claim = vmap(vec![(
        "created_assertions",
        Value::Array(
            [
                (COMPOUND_CONTENT_LABEL, sha(&content_box)),
                ("c2pa.ingredient.v3", sha(&ingredient_box)),
            ]
            .into_iter()
            .map(|(l, d)| reference(&format!("self#jumbf=c2pa.assertions/{l}"), d, "sha256"))
            .collect(),
        ),
    )]);
    let m = ParsedManifest {
        label: PARENT.to_string(),
        manifest_jumbf: Vec::new(),
        assertions: vec![
            AssertionBox { label: COMPOUND_CONTENT_LABEL.to_string(), payload: content },
            AssertionBox { label: "c2pa.ingredient.v3".to_string(), payload: ingredient },
        ],
        assertion_jumbf: vec![
            JumbfBox {
                label: COMPOUND_CONTENT_LABEL.to_string(),
                content: content_box,
                zeroed: false,
            },
            JumbfBox {
                label: "c2pa.ingredient.v3".to_string(),
                content: ingredient_box,
                zeroed: false,
            },
        ],
        claim: None,
        signature_cose: None,
        claim_count: 1,
        claim_box_label: None,
        generation: ClaimGeneration::V2,
    };
    let hashes = [ManifestHash { label: CHILD.to_string(), digest: sha(stored) }];
    let refs = ClaimAssertionRefs::build(&m, &claim, ClaimGeneration::V2);
    let mut results = ValidationResults::new();
    verify_compound_content(&refs, PARENT, &hashes, &mut results);
    results
}

fn component_of(url: &str, digest: Vec<u8>, alg: &str) -> Option<Value> {
    Some(vmap(vec![("ingredientRef", reference(url, digest, alg))]))
}

const INGREDIENT: &str = "self#jumbf=c2pa.assertions/c2pa.ingredient.v3";

#[test]
fn a_compound_parent_binds_its_children() {
    let out = run(
        child("componentOf", "sha256"),
        |d| component_of(INGREDIENT, d, "sha256"),
        b"child",
    );
    assert!(out.failure.is_empty(), "{:?}", out.failure);
    assert_eq!(out.success[0].code, ASSERTION_COMPOUND_CONTENT_MATCH);
    assert_eq!(out.success[0].explanation, "compound binding verified: 1 component(s)");
}

#[test]
fn a_substituted_child_is_found() {
    let out = run(
        child("componentOf", "sha256"),
        |d| component_of(INGREDIENT, d, "sha256"),
        b"another child",
    );
    assert!(out.has_failure(ASSERTION_COMPOUND_CONTENT_MISMATCH));
    assert_eq!(
        out.failure[0].explanation,
        "compound component 0 child manifest absent or hash mismatch (tampered/substituted child)"
    );
}

#[test]
fn every_compound_defect_has_its_code() {
    let good = || child("componentOf", "sha256");
    let first = |out: ValidationResults| {
        (out.failure[0].code.clone(), out.failure[0].explanation.clone())
    };
    let malformed = |why: &str| (ASSERTION_COMPOUND_CONTENT_MALFORMED.to_string(), why.to_string());
    let mismatch = |why: &str| (ASSERTION_COMPOUND_CONTENT_MISMATCH.to_string(), why.to_string());
    assert_eq!(
        first(run(good(), |_| None, b"child")),
        malformed("c2pa.compound.content components array is empty")
    );
    assert_eq!(
        first(run(good(), |_| Some(vmap(vec![])), b"child")),
        malformed("compound component 0 has no ingredientRef")
    );
    assert_eq!(
        first(run(good(), |d| component_of(INGREDIENT, d, "md5"), b"child")),
        malformed("compound component 0 ingredientRef unsupported alg \"md5\"")
    );
    assert_eq!(
        first(run(good(), |_| component_of(INGREDIENT, vec![0; 32], "sha256"), b"child")),
        mismatch("compound component 0 ingredientRef hash did not match 'c2pa.ingredient.v3'")
    );
    assert_eq!(
        first(run(
            child("parentOf", "sha256"),
            |d| component_of(INGREDIENT, d, "sha256"),
            b"child"
        )),
        mismatch("compound component 0 ingredient 'c2pa.ingredient.v3' is not componentOf")
    );
    assert_eq!(
        first(run(
            child("componentOf", "a\"b"),
            |d| component_of(INGREDIENT, d, "sha256"),
            b"child"
        )),
        malformed("compound component 0 activeManifest unsupported alg \"a\\\"b\"")
    );
}

#[test]
fn a_member_is_read_back() {
    let mut doc = Json::object();
    doc.insert("a", Json::Integer(1));
    doc.insert("b", Json::Bool(true));
    doc.insert("a", Json::Integer(2));
    assert!(matches!(doc.get("a"), Some(Json::Integer(2))));
    assert!(matches!(doc.get("b"), Some(Json::Bool(true))));
    assert!(doc.get("c").is_none());
    assert!(matches!(&doc, Json::Object(members) if members.len() == 2));
    assert!(matches!(doc.copy().get("a"), Some(Json::Integer(2))));
}

#[test]
fn an_encoding_has_four_characters_for_each_three_bytes() {
    for n in 0..10usize {
        assert_eq!(base64_encode(&vec![0xff; n]).len(), n.div_ceil(3) * 4);
    }
    assert_eq!(base64_encode(&[0xfb, 0xff]), "+/8=");
}

#[test]
fn the_calendar_ends() {
    assert_eq!(add_seconds(5, 0, 3), Some(3_000_000_005));
    assert_eq!(add_seconds(5, 0, -3), Some(-2_999_999_995));
    assert_eq!(add_seconds(LAST_INSTANT, 0, 0), Some(LAST_INSTANT));
    assert_eq!(add_seconds(LAST_INSTANT, 0, 1), None);
    assert_eq!(add_seconds(LAST_INSTANT, 3600, 0), None);
    assert_eq!(add_seconds(LAST_INSTANT, -3600, 3600), Some(LAST_INSTANT + 3_600_000_000_000));
    assert_eq!(add_seconds(0, 0, i64::MAX), None);
}
