use c2pa_validate::profile::{ComplianceLevel, EngineProfile, OperatingMode, SpecVersion};
use c2pa_validate::program::{
    apply_compliance_upgrades, PROGRAM_FAILURE_CODES, PROGRAM_REVOCATION_INFORMATION_MISSING,
    PROGRAM_TRUSTED_TIMESTAMP_MISSING,
};
use c2pa_validate::status::{
    ValidationResults, SIGNING_CREDENTIAL_OCSP_INACCESSIBLE, SIGNING_CREDENTIAL_OCSP_SKIPPED,
    SIGNING_CREDENTIAL_OCSP_UNKNOWN, TIME_STAMP_TRUSTED,
};
use c2pa_validate::verdict::{compute_state, ValidationState};

fn with_skipped_ocsp() -> ValidationResults {
    let mut results = ValidationResults::new();
    results.push_informational(
        SIGNING_CREDENTIAL_OCSP_SKIPPED,
        "url".to_string(),
        "no staple".to_string(),
    );
    results
}

fn codes(results: &ValidationResults) -> Vec<&str> {
    results.failure.iter().map(|status| status.code.as_str()).collect()
}

fn strict() -> EngineProfile {
    EngineProfile {
        version: SpecVersion::V2_4,
        mode: OperatingMode::Conformance,
        compliance: ComplianceLevel::ConformanceProgram,
        debug: false,
    }
}

#[test]
fn core_spec_validation_adds_no_program_failures() {
    let mut results = with_skipped_ocsp();
    apply_compliance_upgrades(&mut results, ComplianceLevel::CoreSpec, "url");
    assert!(results.failure.is_empty());
}

#[test]
fn program_outcomes_use_entity_namespaced_codes_only() {
    let mut results = with_skipped_ocsp();
    apply_compliance_upgrades(&mut results, ComplianceLevel::ConformanceProgram, "url");
    assert_eq!(
        codes(&results),
        vec![PROGRAM_REVOCATION_INFORMATION_MISSING, PROGRAM_TRUSTED_TIMESTAMP_MISSING]
    );
    assert!(!results.has_failure(SIGNING_CREDENTIAL_OCSP_SKIPPED));
    assert!(results.has_informational(SIGNING_CREDENTIAL_OCSP_SKIPPED));
    for status in &results.failure {
        assert!(
            status.code.starts_with("com.encypher."),
            "program-only outcome {} must be entity-namespaced",
            status.code
        );
    }
}

#[test]
fn a_trusted_timestamp_clears_the_timestamp_requirement() {
    let mut results = ValidationResults::new();
    results.push_success(TIME_STAMP_TRUSTED, "url".to_string(), "trusted".to_string());
    apply_compliance_upgrades(&mut results, ComplianceLevel::ConformanceProgram, "url");
    assert!(results.failure.is_empty());
}

#[test]
fn program_failures_still_invalidate_under_the_strict_verdict() {
    let mut results = with_skipped_ocsp();
    apply_compliance_upgrades(&mut results, ComplianceLevel::ConformanceProgram, "url");
    assert_eq!(compute_state(&results, strict()), ValidationState::Invalid);
}

#[test]
fn an_unanswered_query_is_no_revocation_information() {
    for code in [SIGNING_CREDENTIAL_OCSP_UNKNOWN, SIGNING_CREDENTIAL_OCSP_INACCESSIBLE] {
        let mut results = ValidationResults::new();
        results.push_success(TIME_STAMP_TRUSTED, "url".to_string(), "trusted".to_string());
        results.push_informational(code, "url".to_string(), "no answer".to_string());
        apply_compliance_upgrades(&mut results, ComplianceLevel::ConformanceProgram, "url");
        assert_eq!(codes(&results), vec![PROGRAM_REVOCATION_INFORMATION_MISSING]);
    }
    assert_eq!(PROGRAM_FAILURE_CODES.len(), 2);
}
