use c2pa_validate::observe::Metrics;
use c2pa_validate::verdict::ValidationState;

#[test]
fn counts_states() {
    let mut m = Metrics::new();
    m.record_state(ValidationState::Trusted);
    m.record_state(ValidationState::Valid);
    m.record_state(ValidationState::Invalid);
    m.record_state(ValidationState::Invalid);
    m.record_no_manifest();
    m.record_error();
    m.record_panic();
    let s = m.snapshot();
    assert_eq!(s.verifications, 4);
    assert_eq!(s.trusted, 1);
    assert_eq!(s.valid, 1);
    assert_eq!(s.invalid, 2);
    assert_eq!(s.no_manifest, 1);
    assert_eq!(s.errors, 1);
    assert_eq!(s.panics, 1);
}

#[test]
fn a_fresh_counter_is_zero() {
    let s = Metrics::new().snapshot();
    assert_eq!(s.verifications, 0);
    assert_eq!(s.trusted + s.valid + s.invalid + s.no_manifest + s.errors + s.panics, 0);
}

#[test]
fn state_names() {
    assert_eq!(ValidationState::Valid.as_str(), "Valid");
    assert_eq!(ValidationState::Invalid.as_str(), "Invalid");
    assert_eq!(ValidationState::Trusted.as_str(), "Trusted");
    assert_eq!(ValidationState::Absent.as_str(), "None");
}
