use c2pa_validate::json::Json;
use c2pa_validate::network_needs::{
    did_web_url, push_unique, NetworkNeed, OcspPurpose, MAX_NETWORK_NEEDS,
};

fn member<'a>(j: &'a Json, key: &str) -> Option<&'a str> {
    match j.get(key) {
        Some(Json::Text(t)) => Some(t.as_str()),
        _ => None,
    }
}

fn size(j: &Json) -> usize {
    match j {
        Json::Object(members) => members.len(),
        _ => 0,
    }
}

#[test]
fn a_bare_host_resolves_to_the_well_known_document() {
    assert_eq!(
        did_web_url("did:web:example.com").as_deref(),
        Some("https://example.com/.well-known/did.json")
    );
}

#[test]
fn a_port_and_path_travel_into_the_url() {
    assert_eq!(
        did_web_url("did:web:example.com%3A8443:user:alice").as_deref(),
        Some("https://example.com:8443/user/alice/did.json")
    );
}

#[test]
fn a_fragment_names_a_key_inside_the_same_document() {
    assert_eq!(
        did_web_url("did:web:example.com:issuers:1#key-0").as_deref(),
        Some("https://example.com/issuers/1/did.json")
    );
}

#[test]
fn a_non_web_did_has_no_url() {
    assert_eq!(did_web_url("did:key:z6Mk"), None);
    assert_eq!(did_web_url("did:web:"), None);
}

#[test]
fn the_cawg_ocsp_shape_names_the_assertion_it_came_from() {
    let need = NetworkNeed::Ocsp {
        purpose: OcspPurpose::CawgIdentity { assertion_label: "cawg.identity".to_string() },
        responder_url: "http://ocsp.example/r".to_string(),
        request_der: vec![0x30, 0x00],
        certificate_sha256_hex: "ab".repeat(32),
    };
    let json = need.to_json();
    assert_eq!(size(&json), 5);
    assert_eq!(member(&json, "kind"), Some("ocsp"));
    assert_eq!(member(&json, "purpose"), Some("cawg_identity"));
    assert_eq!(member(&json, "assertion_label"), Some("cawg.identity"));
    assert_eq!(member(&json, "responder_url"), Some("http://ocsp.example/r"));
    assert_eq!(member(&json, "certificate_sha256"), Some("ab".repeat(32).as_str()));
}

#[test]
fn the_claim_signer_ocsp_shape_carries_no_assertion_label() {
    let need = NetworkNeed::Ocsp {
        purpose: OcspPurpose::ClaimSigner,
        responder_url: "http://ocsp.example/r".to_string(),
        request_der: Vec::new(),
        certificate_sha256_hex: "cd".repeat(32),
    };
    let json = need.to_json();
    assert_eq!(size(&json), 4);
    assert_eq!(member(&json, "kind"), Some("ocsp"));
    assert_eq!(member(&json, "purpose"), Some("claim_signer"));
    assert_eq!(member(&json, "responder_url"), Some("http://ocsp.example/r"));
    assert_eq!(member(&json, "certificate_sha256"), Some("cd".repeat(32).as_str()));
}

#[test]
fn the_same_need_is_never_recorded_twice() {
    let mut needs = Vec::new();
    for _ in 0..3 {
        push_unique(
            &mut needs,
            NetworkNeed::RemoteManifest { uri: "https://example.com/store.c2pa".to_string() },
        );
    }
    push_unique(
        &mut needs,
        NetworkNeed::RemoteManifest { uri: "https://other.example/store.c2pa".to_string() },
    );
    assert_eq!(needs.len(), 2);
}

#[test]
fn the_list_of_needs_is_bounded() {
    let mut needs = Vec::new();
    for i in 0..MAX_NETWORK_NEEDS + 10 {
        push_unique(
            &mut needs,
            NetworkNeed::ExternalData {
                uri: format!("https://example.com/{i}"),
                assertion_label: "c2pa.cloud-data".to_string(),
            },
        );
    }
    assert_eq!(needs.len(), MAX_NETWORK_NEEDS);
}

#[test]
fn the_other_shapes_name_their_kind() {
    let did = NetworkNeed::DidDocument {
        did: "did:web:example.com".to_string(),
        url: "https://example.com/.well-known/did.json".to_string(),
    };
    assert_eq!(member(&did.to_json(), "kind"), Some("did_document"));
    assert_eq!(member(&did.to_json(), "did"), Some("did:web:example.com"));
    let remote = NetworkNeed::RemoteManifest { uri: "https://example.com/a".to_string() };
    assert_eq!(member(&remote.to_json(), "kind"), Some("remote_manifest"));
    assert_eq!(member(&remote.to_json(), "uri"), Some("https://example.com/a"));
}
