use c2pa_validate::revocation::{CertificateEvidence, OcspRevocationReason, OcspStatus};

fn revoked() -> OcspStatus {
    OcspStatus::Revoked {
        revocation_time: 0,
        reason: Some(OcspRevocationReason::KeyCompromise),
    }
}

fn evidence(statuses: &[Option<OcspStatus>]) -> CertificateEvidence {
    let mut evidence = CertificateEvidence::default();
    for status in statuses {
        evidence.absorb(*status);
    }
    evidence
}

#[test]
fn a_good_response_outranks_a_revoked_one_only_under_the_conformance_posture() {
    for pair in [
        [Some(revoked()), Some(OcspStatus::Good)],
        [Some(OcspStatus::Good), Some(revoked())],
    ] {
        let evidence = evidence(&pair);
        assert_eq!(
            evidence.resolve(false),
            (Some(revoked()), false),
            "the default posture stays fail-closed"
        );
        assert_eq!(
            evidence.resolve(true),
            (Some(OcspStatus::Good), true),
            "any qualifying good response settles the status"
        );
    }
}

#[test]
fn a_lone_revoked_response_is_revoked_under_both_postures() {
    let evidence = evidence(&[Some(revoked()), Some(OcspStatus::Unknown), None]);
    assert_eq!(evidence.resolve(false), (Some(revoked()), false));
    assert_eq!(
        evidence.resolve(true),
        (Some(revoked()), false),
        "with no good response there is nothing to outrank and no conflict to report"
    );
}

#[test]
fn a_lone_good_response_reports_no_conflict() {
    let evidence = evidence(&[Some(OcspStatus::Good), Some(OcspStatus::Unknown)]);
    for posture in [false, true] {
        assert_eq!(evidence.resolve(posture), (Some(OcspStatus::Good), false));
    }
}

#[test]
fn a_removal_from_the_list_counts_as_good() {
    let removed = OcspStatus::Revoked {
        revocation_time: 5,
        reason: Some(OcspRevocationReason::RemoveFromCrl),
    };
    let evidence = evidence(&[Some(removed)]);
    assert_eq!(evidence.resolve(false), (Some(OcspStatus::Good), false));
}

#[test]
fn the_order_of_responses_does_not_matter() {
    let all = [
        None,
        Some(OcspStatus::Good),
        Some(OcspStatus::Unknown),
        Some(revoked()),
        Some(OcspStatus::Revoked { revocation_time: 9, reason: None }),
    ];
    for a in all {
        for b in all {
            assert_eq!(evidence(&[a, b]).resolve(false), evidence(&[b, a]).resolve(false));
            for c in all {
                assert_eq!(
                    evidence(&[a, b, c]).resolve(false),
                    evidence(&[c, a, b]).resolve(false)
                );
            }
        }
    }
}
