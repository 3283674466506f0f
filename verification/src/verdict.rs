//! Which failures break integrity, and what the results of a verification come
//! to.
use vstd::prelude::*;
use crate::claim_refs::str_among;
use crate::json;
use crate::json::{Doc, Json};
use crate::profile;
use crate::profile::{is_generous, EngineProfile};
use crate::program::{
    PROGRAM_REVOCATION_INFORMATION_MISSING, PROGRAM_TRUSTED_TIMESTAMP_MISSING,
};
use crate::status;
use crate::status::{
    Results, Status, StatusCode, ValidationResults, CLAIM_SIGNATURE_OUTSIDE_VALIDITY,
    CONFORMANCE_OUT_OF_SCOPE, CONFORMANCE_SPEC_VERSION_NONCONFORMANT,
    SIGNING_CREDENTIAL_OCSP_REVOKED, SIGNING_CREDENTIAL_OCSP_SKIPPED, SIGNING_CREDENTIAL_TRUSTED,
    SIGNING_CREDENTIAL_UNTRUSTED, TIME_STAMP_MISSING, TIME_STAMP_OUTSIDE_VALIDITY,
    TIME_STAMP_UNTRUSTED,
};
use crate::text;
use crate::text::{starts_with, str_eq};

verus! {

/// Overall validation state of the active manifest.
#[derive(Debug, Clone, Copy, PartialEq, Eq, Structural)]
pub enum ValidationState {
    /// Manifest integrity intact but the signer is not trusted.
    Valid,
    /// A failure broke manifest integrity.
    Invalid,
    /// Integrity intact and the signing credential chained to a trust anchor.
    Trusted,
    /// No provenance to judge: the asset carries no manifest at all.
    Absent,
}

impl ValidationState {
    /// The text of a state.
    pub open spec fn text(self) -> Seq<char> {
        match self {
            ValidationState::Trusted => "Trusted"@,
            ValidationState::Valid => "Valid"@,
            ValidationState::Invalid => "Invalid"@,
            ValidationState::Absent => "None"@,
        }
    }

    /// The state as it is reported.
    pub fn as_str(self) -> (r: &'static str)
        ensures
            r@ == self.text(),
    {
        match self {
            ValidationState::Trusted => "Trusted",
            ValidationState::Valid => "Valid",
            ValidationState::Invalid => "Invalid",
            ValidationState::Absent => "None",
        }
    }
}

// ---------------------------------------------------------------------------
// Which failures break integrity
// ---------------------------------------------------------------------------

/// Codes that do not break manifest construction: certificate-time, trust and
/// revocation signals, and policy observations of conformance analysis.
pub open spec fn integrity_caveat(code: Seq<char>) -> bool {
    ||| code == SIGNING_CREDENTIAL_UNTRUSTED@
    ||| code == CLAIM_SIGNATURE_OUTSIDE_VALIDITY@
    ||| code == SIGNING_CREDENTIAL_OCSP_SKIPPED@
    ||| code == SIGNING_CREDENTIAL_OCSP_REVOKED@
    ||| code == TIME_STAMP_UNTRUSTED@
    ||| code == TIME_STAMP_OUTSIDE_VALIDITY@
    ||| code == TIME_STAMP_MISSING@
    ||| code == CONFORMANCE_OUT_OF_SCOPE@
    ||| code == CONFORMANCE_SPEC_VERSION_NONCONFORMANT@
    ||| program_failure(code)
}

/// Outcomes of the conformance program: policy, never a defect of construction.
pub open spec fn program_failure(code: Seq<char>) -> bool {
    ||| code == PROGRAM_REVOCATION_INFORMATION_MISSING@
    ||| code == PROGRAM_TRUSTED_TIMESTAMP_MISSING@
}

/// Codes of identity assertions, which never break manifest integrity.
pub open spec fn identity_scoped(code: Seq<char>) -> bool {
    text::is_prefix("cawg."@, code)
}

/// The failure breaks construction integrity.
pub open spec fn construction_invalidating(code: Seq<char>) -> bool {
    !integrity_caveat(code) && !identity_scoped(code)
}

/// The failure breaks integrity under `p`. An unknown code does so under every
/// profile.
pub open spec fn invalidating(code: Seq<char>, p: EngineProfile) -> bool {
    if profile::generous(p) {
        construction_invalidating(code)
    } else {
        code != SIGNING_CREDENTIAL_UNTRUSTED@ && !identity_scoped(code)
    }
}

/// The caveats that a verdict lists. Trust is carried by its own axis.
pub open spec fn surfaced_caveat(code: Seq<char>) -> bool {
    code != SIGNING_CREDENTIAL_UNTRUSTED@ && integrity_caveat(code)
}

/// Codes of the policy bars, which leave the validated revision alone.
pub open spec fn policy_code(code: Seq<char>) -> bool {
    ||| code == SIGNING_CREDENTIAL_UNTRUSTED@
    ||| code == SIGNING_CREDENTIAL_OCSP_SKIPPED@
    ||| code == TIME_STAMP_MISSING@
    ||| code == CONFORMANCE_SPEC_VERSION_NONCONFORMANT@
    ||| program_failure(code)
}

fn is_program_failure(code: &str) -> (r: bool)
    ensures
        r == program_failure(code@),
{
    str_eq(code, PROGRAM_REVOCATION_INFORMATION_MISSING) || str_eq(
        code,
        PROGRAM_TRUSTED_TIMESTAMP_MISSING,
    )
}

fn is_integrity_caveat(code: &str) -> (r: bool)
    ensures
        r == integrity_caveat(code@),
{
    str_eq(code, SIGNING_CREDENTIAL_UNTRUSTED) || str_eq(code, CLAIM_SIGNATURE_OUTSIDE_VALIDITY)
        || str_eq(code, SIGNING_CREDENTIAL_OCSP_SKIPPED) || str_eq(
        code,
        SIGNING_CREDENTIAL_OCSP_REVOKED,
    ) || str_eq(code, TIME_STAMP_UNTRUSTED) || str_eq(code, TIME_STAMP_OUTSIDE_VALIDITY) || str_eq(
        code,
        TIME_STAMP_MISSING,
    ) || str_eq(code, CONFORMANCE_OUT_OF_SCOPE) || str_eq(
        code,
        CONFORMANCE_SPEC_VERSION_NONCONFORMANT,
    ) || is_program_failure(code)
}

/// Whether `code` reports the outcome of an identity assertion.
pub fn is_identity_assertion_scoped(code: &str) -> (r: bool)
    ensures
        r == identity_scoped(code@),
{
    starts_with(code, "cawg.")
}

/// Whether a failure `code` breaks construction integrity, in either posture.
pub fn is_construction_integrity_invalidating(code: &str) -> (r: bool)
    ensures
        r == construction_invalidating(code@),
{
    !is_integrity_caveat(code) && !is_identity_assertion_scoped(code)
}

/// Whether a failure `code` invalidates manifest integrity under `p`.
pub fn is_integrity_invalidating(code: &str, p: EngineProfile) -> (r: bool)
    ensures
        r == invalidating(code@, p),
{
    if is_generous(p) {
        is_construction_integrity_invalidating(code)
    } else {
        !str_eq(code, SIGNING_CREDENTIAL_UNTRUSTED) && !is_identity_assertion_scoped(code)
    }
}

/// Whether a verdict lists `code` among its caveats.
pub fn is_surfaced_caveat(code: &str) -> (r: bool)
    ensures
        r == surfaced_caveat(code@),
{
    !str_eq(code, SIGNING_CREDENTIAL_UNTRUSTED) && is_integrity_caveat(code)
}

fn is_policy_code(code: &str) -> (r: bool)
    ensures
        r == policy_code(code@),
{
    str_eq(code, SIGNING_CREDENTIAL_UNTRUSTED) || str_eq(code, SIGNING_CREDENTIAL_OCSP_SKIPPED)
        || str_eq(code, TIME_STAMP_MISSING) || str_eq(code, CONFORMANCE_SPEC_VERSION_NONCONFORMANT)
        || is_program_failure(code)
}

// ---------------------------------------------------------------------------
// State
// ---------------------------------------------------------------------------

/// Some failure invalidates under `p`.
pub open spec fn integrity_failure(r: Results, p: EngineProfile) -> bool {
    exists|i: int| 0 <= i < r.failure.len() && invalidating((#[trigger] r.failure[i]).code, p)
}

/// Some failure breaks construction integrity.
pub open spec fn construction_failure(r: Results) -> bool {
    exists|i: int| 0 <= i < r.failure.len() && construction_invalidating((#[trigger] r.failure[i]).code)
}

/// Some failure is more than a policy outcome.
pub open spec fn non_policy_failure(r: Results) -> bool {
    exists|i: int| 0 <= i < r.failure.len() && !policy_code((#[trigger] r.failure[i]).code)
}

/// The state of a manifest with the results `r`.
pub open spec fn state_of(r: Results, p: EngineProfile) -> ValidationState {
    if integrity_failure(r, p) {
        ValidationState::Invalid
    } else if r.succeeded(SIGNING_CREDENTIAL_TRUSTED@) {
        ValidationState::Trusted
    } else {
        ValidationState::Valid
    }
}

/// The manifest validated under no revision.
pub open spec fn integrity_broken(r: Results, p: EngineProfile) -> bool {
    if profile::generous(p) {
        construction_failure(r)
    } else {
        non_policy_failure(r)
    }
}

/// Compute the state from the accumulated results under `p`.
///
/// Strict posture: an untrusted signer is the only failure that does not
/// invalidate. Generous posture: no caveat invalidates, so an expired or
/// untrusted but structurally intact manifest is valid.
pub fn compute_state(results: &ValidationResults, p: EngineProfile) -> (r: ValidationState)
    ensures
        r == state_of(results@, p),
{
    let ghost rv = results@;
    let mut i: usize = 0;
    while i < results.failure.len()
        invariant
            i <= results.failure.len(),
            rv == results@,
            forall|k: int| 0 <= k < i ==> !invalidating((#[trigger] rv.failure[k]).code, p),
        decreases results.failure.len() - i,
    {
        if is_integrity_invalidating(results.failure[i].code.as_str(), p) {
            assert(invalidating(rv.failure[i as int].code, p));
            return ValidationState::Invalid;
        }
        assert(rv.failure[i as int].code == results.failure@[i as int].code@);
        i += 1;
    }
    if results.has_success(SIGNING_CREDENTIAL_TRUSTED) {
        ValidationState::Trusted
    } else {
        ValidationState::Valid
    }
}

fn has_construction_failure(results: &ValidationResults) -> (r: bool)
    ensures
        r == construction_failure(results@),
{
    let ghost rv = results@;
    let mut i: usize = 0;
    while i < results.failure.len()
        invariant
            i <= results.failure.len(),
            rv == results@,
            forall|k: int| 0 <= k < i ==> !construction_invalidating((#[trigger] rv.failure[k]).code),
        decreases results.failure.len() - i,
    {
        if is_construction_integrity_invalidating(results.failure[i].code.as_str()) {
            assert(construction_invalidating(rv.failure[i as int].code));
            return true;
        }
        assert(rv.failure[i as int].code == results.failure@[i as int].code@);
        i += 1;
    }
    false
}

/// Whether the manifest validated under no revision.
pub fn is_integrity_broken(results: &ValidationResults, p: EngineProfile) -> (r: bool)
    ensures
        r == integrity_broken(results@, p),
{
    if is_generous(p) {
        return has_construction_failure(results);
    }
    let ghost rv = results@;
    let mut i: usize = 0;
    while i < results.failure.len()
        invariant
            i <= results.failure.len(),
            rv == results@,
            !profile::generous(p),
            forall|k: int| 0 <= k < i ==> policy_code((#[trigger] rv.failure[k]).code),
        decreases results.failure.len() - i,
    {
        if !is_policy_code(results.failure[i].code.as_str()) {
            assert(!policy_code(rv.failure[i as int].code));
            return true;
        }
        assert(rv.failure[i as int].code == results.failure@[i as int].code@);
        i += 1;
    }
    false
}

// ---------------------------------------------------------------------------
// Provenance verdict
// ---------------------------------------------------------------------------

/// The trust axis.
pub open spec fn trust_text(r: Results, present: bool) -> Seq<char> {
    if !present {
        "unknown"@
    } else if !construction_failure(r) && r.succeeded(SIGNING_CREDENTIAL_TRUSTED@) && !r.failed(
        SIGNING_CREDENTIAL_OCSP_REVOKED@,
    ) {
        "trusted"@
    } else {
        "untrusted"@
    }
}

/// The integrity axis.
pub open spec fn integrity_text(r: Results, present: bool) -> Seq<char> {
    if !present || construction_failure(r) {
        "invalid"@
    } else {
        "valid"@
    }
}

/// `listed` with the caveats among the first `k` statuses that it lacks.
pub open spec fn caveats_among(bucket: Seq<Status>, k: int, listed: Seq<Seq<char>>) -> Seq<Seq<char>>
    decreases k,
{
    if k <= 0 {
        listed
    } else {
        let before = caveats_among(bucket, k - 1, listed);
        let code = bucket[k - 1].code;
        if surfaced_caveat(code) && !before.contains(code) {
            before.push(code)
        } else {
            before
        }
    }
}

/// The caveats of a verdict, failures first, each once.
pub open spec fn caveats(r: Results) -> Seq<Seq<char>> {
    caveats_among(
        r.informational,
        r.informational.len() as int,
        caveats_among(r.failure, r.failure.len() as int, Seq::empty()),
    )
}

/// Texts as JSON items.
pub open spec fn text_docs(texts: Seq<Seq<char>>) -> Seq<Doc> {
    texts.map_values(|t: Seq<char>| Doc::Text(t))
}

/// The two-axis verdict.
pub open spec fn verdict_doc(r: Results, present: bool) -> Doc {
    Doc::Object(
        seq![
            ("present"@, Doc::Bool(present)),
            ("integrity"@, Doc::Text(integrity_text(r, present))),
            ("trust"@, Doc::Text(trust_text(r, present))),
            ("caveats"@, Doc::Array(text_docs(caveats(r)))),
        ],
    )
}

fn add_caveats<'a>(bucket: &'a Vec<StatusCode>, listed: &mut Vec<&'a str>)
    ensures
        text::views(final(listed)@) == caveats_among(
            status::statuses(bucket@),
            bucket@.len() as int,
            text::views(old(listed)@),
        ),
{
    let ghost s = status::statuses(bucket@);
    let ghost start = text::views(listed@);
    let mut i: usize = 0;
    while i < bucket.len()
        invariant
            i <= bucket.len(),
            s == status::statuses(bucket@),
            text::views(listed@) == caveats_among(s, i as int, start),
        decreases bucket.len() - i,
    {
        let code = bucket[i].code.as_str();
        assert(s[i as int].code == code@);
        if is_surfaced_caveat(code) && !str_among(listed, code) {
            let ghost before = listed@;
            listed.push(code);
            assert(text::views(listed@) =~= text::views(before).push(code@));
        }
        i += 1;
    }
}

fn texts_json(texts: &Vec<&str>) -> (r: Json)
    ensures
        json::doc(r) == Doc::Array(text_docs(text::views(texts@))),
{
    let mut items: Vec<Json> = Vec::new();
    let ghost all = text_docs(text::views(texts@));
    let mut i: usize = 0;
    while i < texts.len()
        invariant
            i <= texts.len(),
            all == text_docs(text::views(texts@)),
            json::docs(items@) =~= all.take(i as int),
        decreases texts.len() - i,
    {
        let item = Json::text(texts[i]);
        let ghost before = items@;
        items.push(item);
        assert(json::docs(items@) =~= json::docs(before).push(Doc::Text(texts@[i as int]@)));
        assert(all.take(i + 1) =~= all.take(i as int).push(all[i as int]));
        i += 1;
    }
    assert(all.take(i as int) =~= all);
    Json::array(items)
}

/// Build the two-axis verdict, reported in both postures.
///
/// Integrity is construction-only and is never gated on certificate time or
/// trust. Trust is reported only on intact provenance with a trusted credential
/// that was not revoked.
pub fn provenance_verdict_json(results: &ValidationResults, present: bool) -> (r: Json)
    ensures
        json::doc(r) == verdict_doc(results@, present),
{
    let integrity_invalid = !present || has_construction_failure(results);
    let credential_trusted = results.has_success(SIGNING_CREDENTIAL_TRUSTED)
        && !results.has_failure(SIGNING_CREDENTIAL_OCSP_REVOKED);
    let trust = if !present {
        "unknown"
    } else if !integrity_invalid && credential_trusted {
        "trusted"
    } else {
        "untrusted"
    };
    let mut listed: Vec<&str> = Vec::new();
    assert(text::views(listed@) =~= Seq::empty());
    add_caveats(&results.failure, &mut listed);
    add_caveats(&results.informational, &mut listed);
    let integrity = if integrity_invalid {
        "invalid"
    } else {
        "valid"
    };
    json::object4(
        ("present", Json::Bool(present)),
        ("integrity", Json::text(integrity)),
        ("trust", Json::text(trust)),
        ("caveats", texts_json(&listed)),
    )
}

// ---------------------------------------------------------------------------
// Laws
// ---------------------------------------------------------------------------

/// What invalidates in the generous posture invalidates in every posture.
pub proof fn strict_invalidates_at_least_as_much(code: Seq<char>, p: EngineProfile, q: EngineProfile)
    requires
        profile::generous(q),
    ensures
        invalidating(code, q) ==> invalidating(code, p),
{
}

/// A manifest that is valid in a strict posture is valid in the generous one,
/// with the same trust.
pub proof fn generous_accepts_what_strict_accepts(r: Results, p: EngineProfile, q: EngineProfile)
    requires
        profile::generous(q),
        state_of(r, p) != ValidationState::Invalid,
    ensures
        state_of(r, q) == state_of(r, p),
{
    if integrity_failure(r, q) {
        let i = choose|i: int|
            0 <= i < r.failure.len() && invalidating((#[trigger] r.failure[i]).code, q);
        strict_invalidates_at_least_as_much(r.failure[i].code, p, q);
    }
}

/// A failure of an identity assertion never changes the state of the manifest,
/// under any profile.
pub proof fn identity_failures_never_invalidate(
    r: Results,
    p: EngineProfile,
    code: Seq<char>,
    url: Seq<char>,
    why: Seq<char>,
)
    requires
        identity_scoped(code),
    ensures
        state_of(r.fail(code, url, why), p) == state_of(r, p),
{
    lemma_state_after_failure(r, p, code, url, why);
}

/// An untrusted signer never changes the state of the manifest, under any
/// profile.
pub proof fn untrusted_signer_never_invalidates(
    r: Results,
    p: EngineProfile,
    url: Seq<char>,
    why: Seq<char>,
)
    ensures
        state_of(r.fail(SIGNING_CREDENTIAL_UNTRUSTED@, url, why), p) == state_of(r, p),
{
    lemma_state_after_failure(r, p, SIGNING_CREDENTIAL_UNTRUSTED@, url, why);
}

proof fn lemma_state_after_failure(
    r: Results,
    p: EngineProfile,
    code: Seq<char>,
    url: Seq<char>,
    why: Seq<char>,
)
    requires
        !invalidating(code, p),
    ensures
        state_of(r.fail(code, url, why), p) == state_of(r, p),
{
    let after = r.fail(code, url, why);
    if integrity_failure(r, p) {
        let i = choose|i: int|
            0 <= i < r.failure.len() && invalidating((#[trigger] r.failure[i]).code, p);
        assert(invalidating(after.failure[i].code, p));
    }
    if integrity_failure(after, p) {
        let i = choose|i: int|
            0 <= i < after.failure.len() && invalidating((#[trigger] after.failure[i]).code, p);
        assert(i < r.failure.len());
        assert(invalidating(r.failure[i].code, p));
    }
}

/// Failures only accumulate: whatever is appended to the failures of an invalid
/// manifest, it stays invalid.
pub proof fn invalid_stays_invalid(r: Results, later: Results, p: EngineProfile)
    requires
        state_of(r, p) == ValidationState::Invalid,
        status::starts(r.failure, later.failure),
    ensures
        state_of(later, p) == ValidationState::Invalid,
{
    let i = choose|i: int|
        0 <= i < r.failure.len() && invalidating((#[trigger] r.failure[i]).code, p);
    assert(invalidating(later.failure[i].code, p));
}

/// Trust is reported only on intact provenance whose credential was not revoked.
pub proof fn trusted_verdict_needs_integrity(r: Results, present: bool)
    requires
        trust_text(r, present) == "trusted"@,
    ensures
        present,
        integrity_text(r, present) == "valid"@,
        !r.failed(SIGNING_CREDENTIAL_OCSP_REVOKED@),
{
    reveal_strlit("trusted");
    reveal_strlit("untrusted");
    reveal_strlit("unknown");
    assert("trusted"@[0] == 't');
    assert("untrusted"@[0] == 'u');
    assert("unknown"@[0] == 'u');
}

/// The generous state and the integrity axis of a present manifest agree.
pub proof fn integrity_axis_is_the_generous_state(r: Results, p: EngineProfile)
    requires
        profile::generous(p),
    ensures
        (integrity_text(r, true) == "invalid"@) == (state_of(r, p) == ValidationState::Invalid),
{
    reveal_strlit("invalid");
    reveal_strlit("valid");
    assert("invalid"@.len() != "valid"@.len());
    if construction_failure(r) {
        let i = choose|i: int|
            0 <= i < r.failure.len() && construction_invalidating((#[trigger] r.failure[i]).code);
        assert(invalidating(r.failure[i].code, p));
    }
    if integrity_failure(r, p) {
        let i = choose|i: int|
            0 <= i < r.failure.len() && invalidating((#[trigger] r.failure[i]).code, p);
        assert(construction_invalidating(r.failure[i].code));
    }
}

/// The trust axis reads "trusted" exactly where a manifest is present, the
/// results hold the success `signingCredential.trusted`, no failure breaks
/// construction and the credential was not found revoked. A present manifest
/// that lacks any of these reads "untrusted"; without a manifest the axis is
/// "unknown".
pub proof fn trust_axis_reports_the_recorded_trust(r: Results, present: bool)
    ensures
        ({
            let intact = forall|i: int|
                0 <= i < r.failure.len() ==> !construction_invalidating(
                    (#[trigger] r.failure[i]).code,
                );
            let revoked = exists|i: int|
                0 <= i < r.failure.len() && (#[trigger] r.failure[i]).code
                    == SIGNING_CREDENTIAL_OCSP_REVOKED@;
            let recorded = exists|i: int|
                0 <= i < r.success.len() && (#[trigger] r.success[i]).code
                    == SIGNING_CREDENTIAL_TRUSTED@;
            let axis = verdict_doc(r, present).member("trust"@);
            &&& (axis == Some(Doc::Text("trusted"@))) == (present && recorded && intact
                && !revoked)
            &&& (axis == Some(Doc::Text("untrusted"@))) == (present && !(recorded && intact
                && !revoked))
            &&& (axis == Some(Doc::Text("unknown"@))) == !present
        }),
{
    reveal_strlit("trusted");
    reveal_strlit("untrusted");
    reveal_strlit("unknown");
    assert("trusted"@[0] == 't');
    assert("untrusted"@[0] == 'u');
    assert("unknown"@[0] == 'u');
    assert("untrusted"@.len() != "unknown"@.len());
    lemma_verdict_members(r, present);
}

/// The integrity axis reads "valid" exactly where a manifest is present and none
/// of its failures breaks construction, and "invalid" everywhere else; trust and
/// certificate time have no say in it.
pub proof fn integrity_axis_reports_construction_alone(r: Results, present: bool)
    ensures
        ({
            let intact = forall|i: int|
                0 <= i < r.failure.len() ==> !construction_invalidating(
                    (#[trigger] r.failure[i]).code,
                );
            let d = verdict_doc(r, present);
            &&& d.member("present"@) == Some(Doc::Bool(present))
            &&& (d.member("integrity"@) == Some(Doc::Text("valid"@))) == (present && intact)
            &&& (d.member("integrity"@) == Some(Doc::Text("invalid"@))) == !(present && intact)
        }),
{
    reveal_strlit("invalid");
    reveal_strlit("valid");
    assert("invalid"@.len() != "valid"@.len());
    lemma_verdict_members(r, present);
}

proof fn lemma_verdict_members(r: Results, present: bool)
    ensures
        ({
            let d = verdict_doc(r, present);
            &&& d.member("present"@) == Some(Doc::Bool(present))
            &&& d.member("integrity"@) == Some(Doc::Text(integrity_text(r, present)))
            &&& d.member("trust"@) == Some(Doc::Text(trust_text(r, present)))
            &&& d.member("caveats"@) == Some(Doc::Array(text_docs(caveats(r))))
        }),
{
    reveal_with_fuel(json::member_index, 5);
    reveal_strlit("present");
    reveal_strlit("integrity");
    reveal_strlit("trust");
    reveal_strlit("caveats");
    assert("present"@[0] == 'p');
    assert("integrity"@[0] == 'i');
    assert("trust"@[0] == 't');
    assert("caveats"@[0] == 'c');
}

/// `code` stands in the failures or among the informational statuses.
pub open spec fn noted(r: Results, code: Seq<char>) -> bool {
    r.failed(code) || r.informed(code)
}

/// The caveats of a verdict are the recorded codes that soften it, each listed
/// once: a code is listed exactly where it was recorded as a failure or as
/// informational, does not break construction, belongs to no identity assertion
/// and is not the untrusted signer, which has an axis of its own.
pub proof fn caveats_list_each_softening_code_once(r: Results, present: bool, code: Seq<char>)
    requires
        !identity_scoped(code),
    ensures
        verdict_doc(r, present).member("caveats"@) == Some(Doc::Array(text_docs(caveats(r)))),
        caveats(r).contains(code) == (noted(r, code) && !construction_invalidating(code) && code
            != SIGNING_CREDENTIAL_UNTRUSTED@),
        caveats(r).no_duplicates(),
{
    lemma_verdict_members(r, present);
    let first = caveats_among(r.failure, r.failure.len() as int, Seq::empty());
    lemma_caveats(r.failure, r.failure.len() as int, Seq::empty(), code);
    lemma_caveats(r.informational, r.informational.len() as int, first, code);
}

proof fn lemma_caveats(
    bucket: Seq<Status>,
    k: int,
    listed: Seq<Seq<char>>,
    code: Seq<char>,
)
    requires
        0 <= k <= bucket.len(),
        listed.no_duplicates(),
    ensures
        caveats_among(bucket, k, listed).no_duplicates(),
        caveats_among(bucket, k, listed).contains(code) == (listed.contains(code) || (
        surfaced_caveat(code) && exists|i: int| 0 <= i < k && (#[trigger] bucket[i]).code == code)),
    decreases k,
{
    if k > 0 {
        lemma_caveats(bucket, k - 1, listed, code);
        let before = caveats_among(bucket, k - 1, listed);
        let last = bucket[k - 1].code;
        let after = caveats_among(bucket, k, listed);
        if surfaced_caveat(last) && !before.contains(last) {
            assert(after == before.push(last));
            assert(after[before.len() as int] == last);
            if before.contains(code) {
                let j = choose|j: int| 0 <= j < before.len() && before[j] == code;
                assert(after[j] == code);
            }
            if after.contains(code) && code != last {
                let j = choose|j: int| 0 <= j < after.len() && after[j] == code;
                assert(before[j] == code);
            }
        }
        if exists|i: int| 0 <= i < k && (#[trigger] bucket[i]).code == code {
            let i = choose|i: int| 0 <= i < k && (#[trigger] bucket[i]).code == code;
            if i < k - 1 {
                assert(bucket[i].code == code);
            }
        }
        if last == code {
            assert(bucket[k - 1].code == code);
        }
    }
}

/// A failure that speaks of certificate time, of trust, of revocation, of the
/// time-stamp or of a policy bar changes neither the state in the generous
/// posture nor the integrity axis.
pub proof fn softening_failures_leave_the_generous_state(
    r: Results,
    p: EngineProfile,
    code: Seq<char>,
    url: Seq<char>,
    why: Seq<char>,
)
    requires
        profile::generous(p),
        code == SIGNING_CREDENTIAL_UNTRUSTED@ || code == SIGNING_CREDENTIAL_OCSP_REVOKED@ || code
            == SIGNING_CREDENTIAL_OCSP_SKIPPED@ || code == CLAIM_SIGNATURE_OUTSIDE_VALIDITY@
            || code == TIME_STAMP_UNTRUSTED@ || code == TIME_STAMP_OUTSIDE_VALIDITY@ || code
            == TIME_STAMP_MISSING@ || code == CONFORMANCE_OUT_OF_SCOPE@ || code
            == CONFORMANCE_SPEC_VERSION_NONCONFORMANT@ || code
            == PROGRAM_REVOCATION_INFORMATION_MISSING@ || code
            == PROGRAM_TRUSTED_TIMESTAMP_MISSING@ || (code.len() >= 5 && code.subrange(0, 5)
            == "cawg."@),
    ensures
        state_of(r.fail(code, url, why), p) == state_of(r, p),
        integrity_text(r.fail(code, url, why), true) == integrity_text(r, true),
{
    reveal_strlit("cawg.");
    lemma_state_after_failure(r, p, code, url, why);
    integrity_axis_is_the_generous_state(r, p);
    integrity_axis_is_the_generous_state(r.fail(code, url, why), p);
}

/// Every other failure, whatever its code, makes the manifest invalid under
/// every profile and turns the integrity axis.
pub proof fn any_other_failure_invalidates(
    r: Results,
    p: EngineProfile,
    code: Seq<char>,
    url: Seq<char>,
    why: Seq<char>,
)
    requires
        code != SIGNING_CREDENTIAL_UNTRUSTED@,
        code.len() < 5 || code.subrange(0, 5) != "cawg."@,
        !profile::generous(p) || (code != SIGNING_CREDENTIAL_OCSP_REVOKED@ && code
            != SIGNING_CREDENTIAL_OCSP_SKIPPED@ && code != CLAIM_SIGNATURE_OUTSIDE_VALIDITY@
            && code != TIME_STAMP_UNTRUSTED@ && code != TIME_STAMP_OUTSIDE_VALIDITY@ && code
            != TIME_STAMP_MISSING@ && code != CONFORMANCE_OUT_OF_SCOPE@ && code
            != CONFORMANCE_SPEC_VERSION_NONCONFORMANT@ && code
            != PROGRAM_REVOCATION_INFORMATION_MISSING@ && code
            != PROGRAM_TRUSTED_TIMESTAMP_MISSING@),
    ensures
        state_of(r.fail(code, url, why), p) == ValidationState::Invalid,
        profile::generous(p) ==> integrity_text(r.fail(code, url, why), true) == "invalid"@,
{
    reveal_strlit("cawg.");
    let after = r.fail(code, url, why);
    assert(after.failure[r.failure.len() as int].code == code);
    assert(invalidating(after.failure[r.failure.len() as int].code, p));
    if profile::generous(p) {
        integrity_axis_is_the_generous_state(after, p);
    }
}

/// The state is the same for results that hold the same failures and agree on
/// the success `signingCredential.trusted`; a recorded trust lifts a valid
/// manifest to trusted, and never an invalid one.
pub proof fn trust_lifts_valid_manifests_only(
    r: Results,
    p: EngineProfile,
    url: Seq<char>,
    why: Seq<char>,
)
    ensures
        ({
            let after = state_of(r.pass(SIGNING_CREDENTIAL_TRUSTED@, url, why), p);
            &&& state_of(r, p) == ValidationState::Invalid ==> after == ValidationState::Invalid
            &&& state_of(r, p) != ValidationState::Invalid ==> after == ValidationState::Trusted
        }),
        state_of(r, p) == ValidationState::Trusted ==> exists|i: int|
            0 <= i < r.success.len() && (#[trigger] r.success[i]).code
                == SIGNING_CREDENTIAL_TRUSTED@,
        state_of(r, p) == ValidationState::Valid ==> forall|i: int|
            0 <= i < r.success.len() ==> (#[trigger] r.success[i]).code
                != SIGNING_CREDENTIAL_TRUSTED@,
        state_of(r, p) != ValidationState::Absent,
{
    let after = r.pass(SIGNING_CREDENTIAL_TRUSTED@, url, why);
    assert(after.success[r.success.len() as int].code == SIGNING_CREDENTIAL_TRUSTED@);
    assert(after.failure == r.failure);
}

} // verus!
