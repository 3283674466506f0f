//! Conformance-program upgrades of recommendations to requirements.
//!
//! Usable revocation information and a trusted time-stamp are recommendations
//! of the core specification and requirements of the conformance program.
//! Neither outcome has a registered status code, so each is reported under an
//! entity-namespaced code. The registered informational codes stay where the
//! core specification puts them.
use vstd::prelude::*;
use crate::profile;
use crate::profile::{ComplianceLevel, EngineProfile};
use crate::status::{
    Results, ValidationResults, SIGNING_CREDENTIAL_OCSP_INACCESSIBLE,
    SIGNING_CREDENTIAL_OCSP_SKIPPED, SIGNING_CREDENTIAL_OCSP_UNKNOWN, TIME_STAMP_TRUSTED,
};
use crate::verdict;
use crate::verdict::ValidationState;

verus! {

/// Conformance mode only: the asset format is outside the certified scope.
pub const CONFORMANCE_OUT_OF_SCOPE: &'static str = "com.encypher.conformance.outOfScope";

/// Conformance mode only: the manifest does not conform to the target revision.
pub const CONFORMANCE_SPEC_VERSION_NONCONFORMANT: &'static str = "com.encypher.conformance.specVersionNonConformant";

/// Conformance program only: no usable revocation information was available.
pub const PROGRAM_REVOCATION_INFORMATION_MISSING: &'static str = "com.encypher.conformance.revocationInformationMissing";

/// Conformance program only: no trusted time-stamp was established.
pub const PROGRAM_TRUSTED_TIMESTAMP_MISSING: &'static str = "com.encypher.conformance.trustedTimeStampMissing";

/// Every conformance-program-only failure code, in the order they are emitted.
pub const PROGRAM_FAILURE_CODES: [&'static str; 2] = [
    PROGRAM_REVOCATION_INFORMATION_MISSING,
    PROGRAM_TRUSTED_TIMESTAMP_MISSING,
];

/// No usable revocation information: the check was skipped, or the query
/// settled nothing.
pub open spec fn revocation_open(r: Results) -> bool {
    ||| r.informed(SIGNING_CREDENTIAL_OCSP_SKIPPED@)
    ||| r.informed(SIGNING_CREDENTIAL_OCSP_UNKNOWN@)
    ||| r.informed(SIGNING_CREDENTIAL_OCSP_INACCESSIBLE@)
}

/// The results with the program's requirements applied.
pub open spec fn program_upgraded(
    r: Results,
    compliance: ComplianceLevel,
    sig_url: Seq<char>,
) -> Results {
    if compliance != ComplianceLevel::ConformanceProgram {
        r
    } else {
        let a = if revocation_open(r) {
            r.fail(
                PROGRAM_REVOCATION_INFORMATION_MISSING@,
                sig_url,
                "conformance program requires usable revocation information (SHALL); the core spec reports this as signingCredential.ocsp.skipped, .unknown, or .inaccessible"@,
            )
        } else {
            r
        };
        if !r.succeeded(TIME_STAMP_TRUSTED@) {
            a.fail(
                PROGRAM_TRUSTED_TIMESTAMP_MISSING@,
                sig_url,
                "conformance program requires a trusted time-stamp (SHALL)"@,
            )
        } else {
            a
        }
    }
}

/// Apply the conformance-program upgrades to an otherwise fully evaluated
/// manifest. Nothing happens under the core specification.
pub fn apply_compliance_upgrades(
    results: &mut ValidationResults,
    compliance: ComplianceLevel,
    sig_url: &str,
)
    ensures
        final(results)@ == program_upgraded(old(results)@, compliance, sig_url@),
{
    if compliance != ComplianceLevel::ConformanceProgram {
        return;
    }
    if results.has_informational(SIGNING_CREDENTIAL_OCSP_SKIPPED) || results.has_informational(
        SIGNING_CREDENTIAL_OCSP_UNKNOWN,
    ) || results.has_informational(SIGNING_CREDENTIAL_OCSP_INACCESSIBLE) {
        results.push_failure(
            PROGRAM_REVOCATION_INFORMATION_MISSING,
            sig_url.to_owned(),
            "conformance program requires usable revocation information (SHALL); the core spec reports this as signingCredential.ocsp.skipped, .unknown, or .inaccessible".to_owned(),
        );
    }
    if !results.has_success(TIME_STAMP_TRUSTED) {
        results.push_failure(
            PROGRAM_TRUSTED_TIMESTAMP_MISSING,
            sig_url.to_owned(),
            "conformance program requires a trusted time-stamp (SHALL)".to_owned(),
        );
    }
}

// ---------------------------------------------------------------------------
// Laws
// ---------------------------------------------------------------------------

/// The upgrades leave successes and informational codes where they are, and
/// add failures only behind those that are there.
pub proof fn upgrades_only_add_failures(
    r: Results,
    compliance: ComplianceLevel,
    sig_url: Seq<char>,
)
    ensures
        r.extended_by(program_upgraded(r, compliance, sig_url)),
        program_upgraded(r, compliance, sig_url).success == r.success,
        program_upgraded(r, compliance, sig_url).informational == r.informational,
{
}

/// The core-specification bar changes nothing, so whatever the program accepts
/// the core specification accepts.
pub proof fn core_spec_is_more_permissive(r: Results, sig_url: Seq<char>, p: EngineProfile)
    requires
        verdict::state_of(program_upgraded(r, ComplianceLevel::ConformanceProgram, sig_url), p)
            != ValidationState::Invalid,
    ensures
        program_upgraded(r, ComplianceLevel::CoreSpec, sig_url) == r,
        verdict::state_of(r, p) != ValidationState::Invalid,
{
    let up = program_upgraded(r, ComplianceLevel::ConformanceProgram, sig_url);
    if verdict::state_of(r, p) == ValidationState::Invalid {
        verdict::invalid_stays_invalid(r, up, p);
    }
}

/// A program requirement that is not met invalidates in every strict posture.
pub proof fn program_failures_invalidate_strictly(r: Results, sig_url: Seq<char>, p: EngineProfile)
    requires
        !profile::generous(p),
        revocation_open(r) || !r.succeeded(TIME_STAMP_TRUSTED@),
    ensures
        verdict::state_of(
            program_upgraded(r, ComplianceLevel::ConformanceProgram, sig_url),
            p,
        ) == ValidationState::Invalid,
{
    let up = program_upgraded(r, ComplianceLevel::ConformanceProgram, sig_url);
    reveal_strlit("com.encypher.conformance.revocationInformationMissing");
    reveal_strlit("com.encypher.conformance.trustedTimeStampMissing");
    reveal_strlit("signingCredential.untrusted");
    reveal_strlit("cawg.");
    let i = r.failure.len() as int;
    assert(up.failure.len() > i);
    let code = up.failure[i].code;
    assert(code[0] == 'c' && code[1] == 'o');
    assert("cawg."@[1] == 'a');
    if verdict::identity_scoped(code) {
        assert(code.subrange(0, "cawg."@.len() as int)[1] == code[1]);
    }
    assert("signingCredential.untrusted"@[0] == 's');
    assert(verdict::invalidating(up.failure[i].code, p));
}

/// Under the conformance program an open revocation check is a failure of its
/// own, whether it was skipped, its responder did not know the certificate or
/// could not be reached; so is the lack of a trusted time-stamp; and nothing else
/// is added. Under the core specification nothing is.
pub proof fn program_asks_for_revocation_and_time(r: Results, sig_url: Seq<char>)
    requires
        !r.failed(PROGRAM_REVOCATION_INFORMATION_MISSING@),
        !r.failed(PROGRAM_TRUSTED_TIMESTAMP_MISSING@),
    ensures
        ({
            let after = program_upgraded(r, ComplianceLevel::ConformanceProgram, sig_url);
            let open = r.informed(SIGNING_CREDENTIAL_OCSP_SKIPPED@) || r.informed(
                SIGNING_CREDENTIAL_OCSP_UNKNOWN@,
            ) || r.informed(SIGNING_CREDENTIAL_OCSP_INACCESSIBLE@);
            let timeless = !r.succeeded(TIME_STAMP_TRUSTED@);
            &&& after.failed(PROGRAM_REVOCATION_INFORMATION_MISSING@) == open
            &&& after.failed(PROGRAM_TRUSTED_TIMESTAMP_MISSING@) == timeless
            &&& after.failure.len() == r.failure.len() + (if open {
                1int
            } else {
                0
            }) + (if timeless {
                1int
            } else {
                0
            })
        }),
        program_upgraded(r, ComplianceLevel::CoreSpec, sig_url) == r,
{
    reveal_strlit("com.encypher.conformance.revocationInformationMissing");
    reveal_strlit("com.encypher.conformance.trustedTimeStampMissing");
    assert(PROGRAM_REVOCATION_INFORMATION_MISSING@.len()
        != PROGRAM_TRUSTED_TIMESTAMP_MISSING@.len());
    let after = program_upgraded(r, ComplianceLevel::ConformanceProgram, sig_url);
    let f = r.failure.len() as int;
    assert forall|i: int| 0 <= i < f implies after.failure[i] == #[trigger] r.failure[i] by {}
    if revocation_open(r) {
        assert(after.failure[f].code == PROGRAM_REVOCATION_INFORMATION_MISSING@);
        if !r.succeeded(TIME_STAMP_TRUSTED@) {
            assert(after.failure[f + 1].code == PROGRAM_TRUSTED_TIMESTAMP_MISSING@);
        }
    } else if !r.succeeded(TIME_STAMP_TRUSTED@) {
        assert(after.failure[f].code == PROGRAM_TRUSTED_TIMESTAMP_MISSING@);
    }
    if after.failed(PROGRAM_REVOCATION_INFORMATION_MISSING@) {
        let i = choose|i: int|
            0 <= i < after.failure.len() && (#[trigger] after.failure[i]).code
                == PROGRAM_REVOCATION_INFORMATION_MISSING@;
        if i < f {
            assert(r.failure[i].code == PROGRAM_REVOCATION_INFORMATION_MISSING@);
        }
    }
    if after.failed(PROGRAM_TRUSTED_TIMESTAMP_MISSING@) {
        let i = choose|i: int|
            0 <= i < after.failure.len() && (#[trigger] after.failure[i]).code
                == PROGRAM_TRUSTED_TIMESTAMP_MISSING@;
        if i < f {
            assert(r.failure[i].code == PROGRAM_TRUSTED_TIMESTAMP_MISSING@);
        }
    }
}

} // verus!
