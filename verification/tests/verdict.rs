use c2pa_validate::error::ValidateError;
use c2pa_validate::profile::EngineProfile;
use c2pa_validate::program::PROGRAM_FAILURE_CODES;
use c2pa_validate::status::{
    ValidationResults, ASSERTION_HASHED_URI_MISMATCH, CLAIM_SIGNATURE_OUTSIDE_VALIDITY,
    SIGNING_CREDENTIAL_TRUSTED, SIGNING_CREDENTIAL_UNTRUSTED,
};
use c2pa_validate::verdict::{
    compute_state, is_construction_integrity_invalidating,
    is_integrity_broken, is_integrity_invalidating, is_surfaced_caveat, ValidationState,
};

/// Identity failure codes never break manifest integrity in either posture,
/// while unknown codes keep invalidating.
#[test]
fn cawg_failure_codes_are_assertion_scoped_not_integrity_invalidating() {
    for code in [
        "cawg.ica.did_unavailable",
        "cawg.ica.signature_mismatch",
        "cawg.identity.cbor.invalid",
    ] {
        assert!(!is_construction_integrity_invalidating(code), "{code}");
        assert!(
            !is_integrity_invalidating(code, EngineProfile::conformance_v2_2()),
            "{code} (strict)"
        );
    }
    assert!(is_construction_integrity_invalidating(ASSERTION_HASHED_URI_MISMATCH));
    assert!(is_construction_integrity_invalidating("some.future.code"));

    let mut results = ValidationResults::new();
    results.push_failure(
        "cawg.ica.did_unavailable",
        String::new(),
        "unresolvable".to_string(),
    );
    assert_eq!(
        compute_state(&results, EngineProfile::conformance_v2_2()),
        ValidationState::Valid
    );
}

fn failing(code: &str) -> ValidationResults {
    let mut results = ValidationResults::new();
    results.push_failure(code, String::new(), String::new());
    results
}

#[test]
fn an_untrusted_signer_never_invalidates() {
    for p in [EngineProfile::generous(), EngineProfile::conformance_v2_2()] {
        let results = failing(SIGNING_CREDENTIAL_UNTRUSTED);
        assert_eq!(compute_state(&results, p), ValidationState::Valid);
        assert!(!is_integrity_broken(&results, p));
    }
}

#[test]
fn an_expired_signer_invalidates_only_strictly() {
    let mut results = failing(CLAIM_SIGNATURE_OUTSIDE_VALIDITY);
    results.push_success(SIGNING_CREDENTIAL_TRUSTED, String::new(), String::new());
    assert_eq!(
        compute_state(&results, EngineProfile::generous()),
        ValidationState::Trusted
    );
    assert_eq!(
        compute_state(&results, EngineProfile::conformance_v2_2()),
        ValidationState::Invalid
    );
    assert!(is_surfaced_caveat(CLAIM_SIGNATURE_OUTSIDE_VALIDITY));
    assert!(!is_surfaced_caveat(SIGNING_CREDENTIAL_UNTRUSTED));
}

#[test]
fn live_video_failures_invalidate_in_every_posture() {
    for code in [
        "livevideo.segment.invalid",
        "livevideo.init.invalid",
        "livevideo.sessionkey.invalid",
    ] {
        for p in [EngineProfile::generous(), EngineProfile::conformance_v2_2()] {
            assert_eq!(compute_state(&failing(code), p), ValidationState::Invalid);
        }
    }
}

#[test]
fn failures_never_make_an_invalid_manifest_valid() {
    let mut results = failing(ASSERTION_HASHED_URI_MISMATCH);
    results.push_failure(SIGNING_CREDENTIAL_UNTRUSTED, String::new(), String::new());
    results.push_success(SIGNING_CREDENTIAL_TRUSTED, String::new(), String::new());
    assert_eq!(
        compute_state(&results, EngineProfile::generous()),
        ValidationState::Invalid
    );
}

#[test]
fn program_outcomes_are_policy_and_no_defect_of_construction() {
    for code in PROGRAM_FAILURE_CODES {
        assert!(!is_construction_integrity_invalidating(code));
        assert!(is_surfaced_caveat(code));
        assert!(is_integrity_invalidating(code, EngineProfile::conformance_v2_2()));
        let mut results = ValidationResults::new();
        results.push_failure(code, String::new(), String::new());
        assert!(!is_integrity_broken(&results, EngineProfile::conformance_v2_2()));
    }
}

#[test]
fn errors_say_what_went_wrong() {
    for (error, message) in [
        (ValidateError::UnsupportedMime("a/b".to_string()), "unsupported MIME type: a/b"),
        (ValidateError::Format("f".to_string()), "format extraction failed: f"),
        (ValidateError::Jumbf("j".to_string()), "manifest store parse failed: j"),
        (ValidateError::HardBinding("h".to_string()), "hard binding invalid: h"),
        (ValidateError::Stream("s".to_string()), "stream invalid: s"),
        (ValidateError::Panic, "internal verification panic (contained)"),
    ] {
        assert_eq!(error.message(), message);
    }
}
