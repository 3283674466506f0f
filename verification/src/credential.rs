//! What the claim signature, its time-stamp and its certificate chain come to.
//!
//! The cryptographic work is done elsewhere; it is reported here as plain
//! facts, and this module decides what they mean for the results.
use vstd::prelude::*;
use crate::status;
use crate::status::{
    Results, Status, ValidationResults, ALGORITHM_UNSUPPORTED, CLAIM_SIGNATURE_INSIDE_VALIDITY,
    CLAIM_SIGNATURE_MISMATCH, CLAIM_SIGNATURE_OUTSIDE_VALIDITY, CLAIM_SIGNATURE_VALIDATED, SIGNING_CREDENTIAL_INVALID,
    SIGNING_CREDENTIAL_TRUSTED, SIGNING_CREDENTIAL_UNTRUSTED, TIME_STAMP_MALFORMED,
    TIME_STAMP_OUTSIDE_VALIDITY, TIME_STAMP_TRUSTED, TIME_STAMP_UNTRUSTED, TIME_STAMP_VALIDATED,
    TIMESTAMP_V1_SIGNATURE_UNBOUND,
};
use crate::text::{bytes_eq, join2, str_eq};

verus! {

// ---------------------------------------------------------------------------
// Time-stamps
// ---------------------------------------------------------------------------

/// The header that a claim time-stamp stands in.
#[derive(Debug, Clone, Copy, PartialEq, Eq, Structural)]
pub enum ClaimTimestampVersion {
    V1,
    V2,
}

/// The time-stamp header of a signature: its version and its tokens, each with
/// its bytes where it is usable.
#[derive(Debug)]
pub struct TimestampHeader {
    pub version: ClaimTimestampVersion,
    pub tokens: Vec<Option<Vec<u8>>>,
}

/// What verifying a token against the time-stamp authorities came to. Instants
/// are nanoseconds of the Unix epoch.
#[derive(Debug)]
pub struct TimestampVerification {
    pub verified: bool,
    pub time: Option<i128>,
    pub error: Option<String>,
}

/// What is known of the time-stamp of a claim.
#[derive(Debug)]
pub struct TimestampFacts {
    pub header: Option<TimestampHeader>,
    /// The countersigned input could be formed.
    pub input_formed: bool,
    /// The token could be read; a v1 header wraps it in a response.
    pub token_read: bool,
    /// Why the token fails inspection, where it does.
    pub inspection_error: Option<String>,
    /// The verification against the supplied authorities, where any were.
    pub verification: Option<TimestampVerification>,
}

/// The header holds exactly one usable token.
pub open spec fn one_token(h: TimestampHeader) -> bool {
    h.tokens@.len() == 1 && h.tokens@[0] is Some
}

/// Why the verification failed, in words.
pub open spec fn verification_error(v: TimestampVerification) -> Seq<char> {
    match v.error {
        Some(e) => e@,
        None => "timestamp_verification_failed"@,
    }
}

/// What verifying the token comes to.
pub open spec fn verification_outcome(
    version: ClaimTimestampVersion,
    v: TimestampVerification,
    sig_url: Seq<char>,
    r: Results,
) -> (Option<i128>, Results) {
    if v.verified {
        let trusted = r.pass(
            TIME_STAMP_VALIDATED@,
            sig_url,
            "RFC 3161 timestamp signature and message imprint validated"@,
        ).pass(
            TIME_STAMP_TRUSTED@,
            sig_url,
            "timestamp authority chains to a supplied TSA trust anchor"@,
        );
        (
            v.time,
            if version == ClaimTimestampVersion::V1 {
                trusted.inform(
                    TIMESTAMP_V1_SIGNATURE_UNBOUND@,
                    sig_url,
                    "legacy claim-v1 timestamp input does not bind the COSE signature"@,
                )
            } else {
                trusted
            },
        )
    } else {
        let error = verification_error(v);
        let a = if error == "timestamp_tsa_outside_validity"@ {
            r.inform(
                TIME_STAMP_OUTSIDE_VALIDITY@,
                sig_url,
                "timestamp authority certificate was outside its validity window at genTime"@,
            )
        } else {
            r
        };
        (
            None,
            a.inform(
                TIME_STAMP_UNTRUSTED@,
                sig_url,
                "RFC 3161 timestamp verification failed: "@ + error,
            ),
        )
    }
}

/// The instant that the time-stamp establishes, and the results.
pub open spec fn timestamp_outcome(ts: TimestampFacts, sig_url: Seq<char>, r: Results) -> (
    Option<i128>,
    Results,
) {
    match ts.header {
        None => (None, r),
        Some(h) => if !one_token(h) {
            (
                None,
                r.inform(
                    TIME_STAMP_MALFORMED@,
                    sig_url,
                    "timestamp header does not contain exactly one usable RFC 3161 token"@,
                ),
            )
        } else if !ts.input_formed {
            (
                None,
                r.inform(
                    TIME_STAMP_MALFORMED@,
                    sig_url,
                    "timestamp token has a malformed C2PA CounterSignature input"@,
                ),
            )
        } else if h.version == ClaimTimestampVersion::V1 && !ts.token_read {
            (
                None,
                r.inform(
                    TIME_STAMP_MALFORMED@,
                    sig_url,
                    "legacy timestamp response does not contain a usable CMS token"@,
                ),
            )
        } else {
            match (ts.inspection_error, ts.verification) {
                (Some(e), _) => (
                    None,
                    r.inform(
                        TIME_STAMP_MALFORMED@,
                        sig_url,
                        "timestamp token failed structural or cryptographic validation: "@ + e@,
                    ),
                ),
                (None, None) => (
                    None,
                    r.inform(
                        TIME_STAMP_UNTRUSTED@,
                        sig_url,
                        "timestamp token valid but no TSA trust anchors were supplied"@,
                    ),
                ),
                (None, Some(v)) => verification_outcome(h.version, v, sig_url, r),
            }
        },
    }
}

/// The instant that the time-stamp establishes.
pub open spec fn trusted_time(ts: TimestampFacts) -> Option<i128> {
    timestamp_outcome(ts, Seq::empty(), Results::empty()).0
}

/// The instant that certificates are judged at: the trusted time-stamp, or the
/// caller's verification time.
pub open spec fn effective_time(ts: TimestampFacts, verification_time: i128) -> i128 {
    match trusted_time(ts) {
        Some(t) => t,
        None => verification_time,
    }
}

fn record_verification(
    version: ClaimTimestampVersion,
    v: &TimestampVerification,
    sig_url: &str,
    results: &mut ValidationResults,
) -> (r: Option<i128>)
    ensures
        (r, final(results)@) == verification_outcome(version, *v, sig_url@, old(results)@),
{
    if v.verified {
        results.push_success(
            TIME_STAMP_VALIDATED,
            sig_url.to_owned(),
            "RFC 3161 timestamp signature and message imprint validated".to_owned(),
        );
        results.push_success(
            TIME_STAMP_TRUSTED,
            sig_url.to_owned(),
            "timestamp authority chains to a supplied TSA trust anchor".to_owned(),
        );
        if version == ClaimTimestampVersion::V1 {
            results.push_informational(
                TIMESTAMP_V1_SIGNATURE_UNBOUND,
                sig_url.to_owned(),
                "legacy claim-v1 timestamp input does not bind the COSE signature".to_owned(),
            );
        }
        return v.time;
    }
    let error = match &v.error {
        Some(e) => e.as_str(),
        None => "timestamp_verification_failed",
    };
    if str_eq(error, "timestamp_tsa_outside_validity") {
        results.push_informational(
            TIME_STAMP_OUTSIDE_VALIDITY,
            sig_url.to_owned(),
            "timestamp authority certificate was outside its validity window at genTime".to_owned(),
        );
    }
    results.push_informational(
        TIME_STAMP_UNTRUSTED,
        sig_url.to_owned(),
        join2("RFC 3161 timestamp verification failed: ", error),
    );
    None
}

/// Record the time-stamp of a claim; the result is the instant that it
/// establishes. Only a fully verified token establishes one.
pub fn record_timestamp(ts: &TimestampFacts, sig_url: &str, results: &mut ValidationResults) -> (r:
    Option<i128>)
    ensures
        (r, final(results)@) == timestamp_outcome(*ts, sig_url@, old(results)@),
        r == trusted_time(*ts),
{
    let h = match &ts.header {
        Some(h) => h,
        None => {
            return None;
        },
    };
    if h.tokens.len() != 1 || h.tokens[0].is_none() {
        results.push_informational(
            TIME_STAMP_MALFORMED,
            sig_url.to_owned(),
            "timestamp header does not contain exactly one usable RFC 3161 token".to_owned(),
        );
        return None;
    }
    if !ts.input_formed {
        results.push_informational(
            TIME_STAMP_MALFORMED,
            sig_url.to_owned(),
            "timestamp token has a malformed C2PA CounterSignature input".to_owned(),
        );
        return None;
    }
    if h.version == ClaimTimestampVersion::V1 && !ts.token_read {
        results.push_informational(
            TIME_STAMP_MALFORMED,
            sig_url.to_owned(),
            "legacy timestamp response does not contain a usable CMS token".to_owned(),
        );
        return None;
    }
    if let Some(e) = &ts.inspection_error {
        results.push_informational(
            TIME_STAMP_MALFORMED,
            sig_url.to_owned(),
            join2(
                "timestamp token failed structural or cryptographic validation: ",
                e.as_str(),
            ),
        );
        return None;
    }
    match &ts.verification {
        None => {
            results.push_informational(
                TIME_STAMP_UNTRUSTED,
                sig_url.to_owned(),
                "timestamp token valid but no TSA trust anchors were supplied".to_owned(),
            );
            None
        },
        Some(v) => record_verification(h.version, v, sig_url, results),
    }
}

/// The instant that certificates are judged at, and the one that a trusted
/// time-stamp establishes.
pub fn judging_time(ts: &TimestampFacts, verification_time: i128) -> (r: (Option<i128>, i128))
    ensures
        r.0 == trusted_time(*ts),
        r.1 == effective_time(*ts, verification_time),
{
    let mut scratch = ValidationResults::new();
    let trusted = record_timestamp(ts, "", &mut scratch);
    let at = match trusted {
        Some(t) => t,
        None => verification_time,
    };
    (trusted, at)
}

// ---------------------------------------------------------------------------
// Signing credential
// ---------------------------------------------------------------------------

/// What validating the chain against the claim-signer trust list came to.
#[derive(Debug, Clone, Copy)]
pub struct ChainVerdict {
    pub trusted: bool,
    pub leaf_acceptable: bool,
    pub chain_validity_ok: bool,
}

/// What verifying a claim signature came to.
#[derive(Debug)]
pub enum SignatureCheck {
    Valid,
    /// The signature names an algorithm that is not allowed, so it was not
    /// verified at all.
    UnsupportedAlgorithm(String),
    Invalid(String),
}

/// What is known of the signing credential at one instant.
#[derive(Debug)]
pub struct CredentialFacts {
    /// The instant that the certificates were judged at.
    pub judged_at: i128,
    /// The chain verdict, where a trust list was supplied.
    pub chain: Option<ChainVerdict>,
    /// The leaf is inside its validity window.
    pub leaf_valid: bool,
    /// The leaf is an acceptable claim signer.
    pub leaf_acceptable: bool,
    /// What verifying the signature against the leaf came to.
    pub signature: SignatureCheck,
    /// The end-entity certificates that are trusted directly, where any were
    /// supplied.
    pub allowed: Option<Vec<Vec<u8>>>,
}

/// Every certificate is inside its validity window.
pub open spec fn in_validity(has_leaf: bool, c: CredentialFacts) -> bool {
    has_leaf && c.leaf_valid && (c.chain matches Some(v) ==> v.chain_validity_ok)
}

/// The leaf may sign claims.
pub open spec fn acceptable(has_leaf: bool, c: CredentialFacts) -> bool {
    has_leaf && match c.chain {
        Some(v) => v.leaf_acceptable,
        None => c.leaf_acceptable,
    }
}

/// The signature verifies against the leaf.
pub open spec fn signature_ok(has_leaf: bool, c: CredentialFacts) -> bool {
    has_leaf && c.signature is Valid
}

/// The signature may be built upon. The generous posture asks for sound
/// construction alone; the strict one also for the validity window.
pub open spec fn usable(
    has_leaf: bool,
    c: CredentialFacts,
    structure_ok: bool,
    generous: bool,
) -> bool {
    signature_ok(has_leaf, c) && structure_ok && (generous || in_validity(has_leaf, c))
}

/// The results with a signature that does not verify. A refused algorithm is no
/// forgery, so it has a code of its own.
pub open spec fn unverified(check: SignatureCheck, sig_url: Seq<char>, r: Results) -> Results {
    match check {
        SignatureCheck::Valid => r,
        SignatureCheck::UnsupportedAlgorithm(e) => r.fail(
            ALGORITHM_UNSUPPORTED@,
            sig_url,
            "claim signature algorithm unsupported: "@ + e@,
        ),
        SignatureCheck::Invalid(e) => r.fail(
            CLAIM_SIGNATURE_MISMATCH@,
            sig_url,
            "claim signature invalid: "@ + e@,
        ),
    }
}

/// The results with the signature recorded.
pub open spec fn after_signature(
    has_leaf: bool,
    chain_error: Option<String>,
    c: CredentialFacts,
    structure_ok: bool,
    generous: bool,
    sig_url: Seq<char>,
    r: Results,
) -> Results {
    if !has_leaf {
        r.fail(
            SIGNING_CREDENTIAL_INVALID@,
            sig_url,
            match chain_error {
                Some(e) => e@,
                None => "no integrity-protected signing certificate in signature"@,
            },
        ).fail(
            CLAIM_SIGNATURE_MISMATCH@,
            sig_url,
            "claim signature could not be verified without an integrity-protected signing certificate"@,
        )
    } else {
        let a = if acceptable(has_leaf, c) {
            r
        } else {
            r.fail(
                SIGNING_CREDENTIAL_INVALID@,
                sig_url,
                "signing certificate is not a valid claim-signing credential"@,
            )
        };
        let b = if usable(has_leaf, c, structure_ok, generous) {
            a.pass(CLAIM_SIGNATURE_VALIDATED@, sig_url, "claim signature valid"@)
        } else {
            unverified(c.signature, sig_url, a)
        };
        if in_validity(has_leaf, c) {
            b.pass(CLAIM_SIGNATURE_INSIDE_VALIDITY@, sig_url, "claim signature valid"@)
        } else {
            b.fail(
                CLAIM_SIGNATURE_OUTSIDE_VALIDITY@,
                sig_url,
                "signing certificate outside its validity window"@,
            )
        }
    }
}

fn is_in_validity(has_leaf: bool, c: &CredentialFacts) -> (r: bool)
    ensures
        r == in_validity(has_leaf, *c),
{
    has_leaf && c.leaf_valid && match c.chain {
        Some(v) => v.chain_validity_ok,
        None => true,
    }
}

fn is_acceptable(has_leaf: bool, c: &CredentialFacts) -> (r: bool)
    ensures
        r == acceptable(has_leaf, *c),
{
    has_leaf && match c.chain {
        Some(v) => v.leaf_acceptable,
        None => c.leaf_acceptable,
    }
}

/// Whether the signature may be built upon.
pub fn is_usable(has_leaf: bool, c: &CredentialFacts, structure_ok: bool, generous: bool) -> (r:
    bool)
    ensures
        r == usable(has_leaf, *c, structure_ok, generous),
{
    let verified = match c.signature {
        SignatureCheck::Valid => true,
        _ => false,
    };
    has_leaf && verified && structure_ok && (generous || is_in_validity(
        has_leaf,
        c,
    ))
}

/// Record the claim signature and the validity of its credential.
///
/// An unacceptable claim signer is reported, but it never suppresses the checks
/// that follow.
pub fn record_signature(
    has_leaf: bool,
    chain_error: &Option<String>,
    c: &CredentialFacts,
    structure_ok: bool,
    generous: bool,
    sig_url: &str,
    results: &mut ValidationResults,
)
    ensures
        final(results)@ == after_signature(
            has_leaf,
            *chain_error,
            *c,
            structure_ok,
            generous,
            sig_url@,
            old(results)@,
        ),
{
    if !has_leaf {
        let why = match chain_error {
            Some(e) => e.as_str(),
            None => "no integrity-protected signing certificate in signature",
        };
        results.push_failure(SIGNING_CREDENTIAL_INVALID, sig_url.to_owned(), why.to_owned());
        results.push_failure(
            CLAIM_SIGNATURE_MISMATCH,
            sig_url.to_owned(),
            "claim signature could not be verified without an integrity-protected signing certificate".to_owned(),
        );
        return;
    }
    if !is_acceptable(has_leaf, c) {
        results.push_failure(
            SIGNING_CREDENTIAL_INVALID,
            sig_url.to_owned(),
            "signing certificate is not a valid claim-signing credential".to_owned(),
        );
    }
    if is_usable(has_leaf, c, structure_ok, generous) {
        results.push_success(
            CLAIM_SIGNATURE_VALIDATED,
            sig_url.to_owned(),
            "claim signature valid".to_owned(),
        );
    } else {
        match &c.signature {
            SignatureCheck::Valid => {},
            SignatureCheck::UnsupportedAlgorithm(e) => {
                results.push_failure(
                    ALGORITHM_UNSUPPORTED,
                    sig_url.to_owned(),
                    join2("claim signature algorithm unsupported: ", e.as_str()),
                );
            },
            SignatureCheck::Invalid(e) => {
                results.push_failure(
                    CLAIM_SIGNATURE_MISMATCH,
                    sig_url.to_owned(),
                    join2("claim signature invalid: ", e.as_str()),
                );
            },
        }
    }
    if is_in_validity(has_leaf, c) {
        results.push_success(
            CLAIM_SIGNATURE_INSIDE_VALIDITY,
            sig_url.to_owned(),
            "claim signature valid".to_owned(),
        );
    } else {
        results.push_failure(
            CLAIM_SIGNATURE_OUTSIDE_VALIDITY,
            sig_url.to_owned(),
            "signing certificate outside its validity window".to_owned(),
        );
    }
}

// ---------------------------------------------------------------------------
// Trust
// ---------------------------------------------------------------------------

/// The leaf is on the allowed list.
pub open spec fn listed(leaf: Seq<u8>, allowed: Seq<Vec<u8>>) -> bool {
    exists|i: int| 0 <= i < allowed.len() && (#[trigger] allowed[i])@ == leaf
}

/// The leaf is trusted directly: it is on the allowed list, it may sign claims
/// and it is inside its validity window.
pub open spec fn leaf_allowed(leaf: Option<Seq<u8>>, c: CredentialFacts) -> bool {
    match (c.allowed, leaf) {
        (Some(allowed), Some(l)) => listed(l, allowed@) && c.leaf_acceptable && c.leaf_valid,
        _ => false,
    }
}

/// The results with the trust in the credential recorded. A revoked chain or a
/// structural defect keeps the credential from being trusted.
pub open spec fn after_trust(
    leaf: Option<Seq<u8>>,
    c: CredentialFacts,
    structure_ok: bool,
    ocsp_blocks: bool,
    sig_url: Seq<char>,
    r: Results,
) -> Results {
    if leaf is None || (c.chain is None && c.allowed is None) {
        r
    } else {
        let chain_trusted = c.chain matches Some(v) && v.trusted && v.leaf_acceptable;
        if (chain_trusted || leaf_allowed(leaf, c)) && structure_ok && !ocsp_blocks {
            r.pass(SIGNING_CREDENTIAL_TRUSTED@, sig_url, "signing certificate trusted"@)
        } else if !r.failed(SIGNING_CREDENTIAL_UNTRUSTED@) {
            r.fail(SIGNING_CREDENTIAL_UNTRUSTED@, sig_url, "signing certificate untrusted"@)
        } else {
            r
        }
    }
}

fn is_listed(leaf: &[u8], allowed: &Vec<Vec<u8>>) -> (r: bool)
    ensures
        r == listed(leaf@, allowed@),
{
    let mut i: usize = 0;
    while i < allowed.len()
        invariant
            i <= allowed.len(),
            forall|k: int| 0 <= k < i ==> (#[trigger] allowed@[k])@ != leaf@,
        decreases allowed.len() - i,
    {
        if bytes_eq(allowed[i].as_slice(), leaf) {
            return true;
        }
        i += 1;
    }
    false
}

/// Record whether the signing credential is trusted, where a trust list or an
/// allowed list was supplied.
pub fn record_trust(
    leaf: Option<&[u8]>,
    c: &CredentialFacts,
    structure_ok: bool,
    ocsp_blocks: bool,
    sig_url: &str,
    results: &mut ValidationResults,
)
    ensures
        final(results)@ == after_trust(
            crate::value::bytes_opt(leaf),
            *c,
            structure_ok,
            ocsp_blocks,
            sig_url@,
            old(results)@,
        ),
{
    let l = match leaf {
        Some(l) => l,
        None => {
            return;
        },
    };
    if c.chain.is_none() && c.allowed.is_none() {
        return;
    }
    let allowed = match &c.allowed {
        Some(a) => is_listed(l, a) && c.leaf_acceptable && c.leaf_valid,
        None => false,
    };
    let chain_trusted = match c.chain {
        Some(v) => v.trusted && v.leaf_acceptable,
        None => false,
    };
    if (chain_trusted || allowed) && structure_ok && !ocsp_blocks {
        results.push_success(
            SIGNING_CREDENTIAL_TRUSTED,
            sig_url.to_owned(),
            "signing certificate trusted".to_owned(),
        );
    } else if !results.has_failure(SIGNING_CREDENTIAL_UNTRUSTED) {
        results.push_failure(
            SIGNING_CREDENTIAL_UNTRUSTED,
            sig_url.to_owned(),
            "signing certificate untrusted".to_owned(),
        );
    }
}

// ---------------------------------------------------------------------------
// Laws
// ---------------------------------------------------------------------------

/// A time-stamp that was not verified never establishes the instant that
/// certificates are judged at.
pub proof fn only_verified_timestamps_count(ts: TimestampFacts)
    ensures
        trusted_time(ts) is Some ==> (ts.header matches Some(h) && one_token(h)) && (
        ts.verification matches Some(v) && v.verified && v.time == trusted_time(ts)),
{
}

/// A revoked chain is never recorded as trusted.
pub proof fn revoked_chain_is_never_trusted(
    leaf: Option<Seq<u8>>,
    c: CredentialFacts,
    structure_ok: bool,
    sig_url: Seq<char>,
    r: Results,
)
    requires
        !r.succeeded(SIGNING_CREDENTIAL_TRUSTED@),
    ensures
        !after_trust(leaf, c, structure_ok, true, sig_url, r).succeeded(
            SIGNING_CREDENTIAL_TRUSTED@,
        ),
{
    assert(after_trust(leaf, c, structure_ok, true, sig_url, r).success == r.success);
}

/// What is usable under the strict posture is usable under the generous one.
pub proof fn strict_use_implies_generous_use(
    has_leaf: bool,
    c: CredentialFacts,
    structure_ok: bool,
)
    requires
        usable(has_leaf, c, structure_ok, false),
    ensures
        usable(has_leaf, c, structure_ok, true),
{
}

/// The chain was judged trusted against the supplied trust list, with a leaf that
/// may sign claims.
pub open spec fn anchored(c: CredentialFacts) -> bool {
    c.chain is Some && c.chain->0.trusted && c.chain->0.leaf_acceptable
}

/// The leaf stands on the supplied allowed list, may sign claims and is inside
/// its validity window.
pub open spec fn directly_trusted(leaf: Option<Seq<u8>>, c: CredentialFacts) -> bool {
    &&& leaf is Some
    &&& c.allowed is Some
    &&& exists|i: int| 0 <= i < c.allowed->0@.len() && (#[trigger] c.allowed->0@[i])@ == leaf->0
    &&& c.leaf_acceptable
    &&& c.leaf_valid
}

/// Trust is recorded exactly where it is earned. `signingCredential.trusted` is
/// newly recorded only for a leaf whose chain was judged trusted with an
/// acceptable leaf, or which is on the allowed list, acceptable and in its
/// window, and only on a sound structure without a revocation that stands in the
/// way; there it always is. With a trust list or an allowed list supplied and
/// none of this so, `signingCredential.untrusted` is among the failures. Without
/// a leaf or without any list nothing is recorded.
pub proof fn trust_is_recorded_exactly_where_earned(
    leaf: Option<Seq<u8>>,
    c: CredentialFacts,
    structure_ok: bool,
    ocsp_blocks: bool,
    sig_url: Seq<char>,
    r: Results,
)
    ensures
        ({
            let after = after_trust(leaf, c, structure_ok, ocsp_blocks, sig_url, r);
            let earned = leaf is Some && (anchored(c) || directly_trusted(leaf, c)) && structure_ok
                && !ocsp_blocks;
            let judged = leaf is Some && (c.chain is Some || c.allowed is Some);
            &&& after.succeeded(SIGNING_CREDENTIAL_TRUSTED@) == (earned || r.succeeded(
                SIGNING_CREDENTIAL_TRUSTED@,
            ))
            &&& (after.success != r.success) == earned
            &&& after.failed(SIGNING_CREDENTIAL_UNTRUSTED@) == ((judged && !earned) || r.failed(
                SIGNING_CREDENTIAL_UNTRUSTED@,
            ))
            &&& earned ==> after.failure == r.failure
            &&& !judged ==> after == r
            &&& after.informational == r.informational
        }),
{
    let after = after_trust(leaf, c, structure_ok, ocsp_blocks, sig_url, r);
    let earned = leaf is Some && (anchored(c) || directly_trusted(leaf, c)) && structure_ok
        && !ocsp_blocks;
    assert(leaf_allowed(leaf, c) == directly_trusted(leaf, c)) by {
        if directly_trusted(leaf, c) {
            let i = choose|i: int|
                0 <= i < c.allowed->0@.len() && (#[trigger] c.allowed->0@[i])@ == leaf->0;
            assert(listed(leaf->0, c.allowed->0@));
        }
    }
    let n = r.success.len() as int;
    let f = r.failure.len() as int;
    if earned {
        assert(after.success[n].code == SIGNING_CREDENTIAL_TRUSTED@);
        assert(after.success.len() == n + 1);
        lemma_codes_kept(r.success, after.success, SIGNING_CREDENTIAL_TRUSTED@);
    } else {
        assert(after.success == r.success);
        lemma_codes_kept(r.failure, after.failure, SIGNING_CREDENTIAL_UNTRUSTED@);
        if leaf is Some && (c.chain is Some || c.allowed is Some) && !r.failed(
            SIGNING_CREDENTIAL_UNTRUSTED@,
        ) {
            assert(after.failure[f].code == SIGNING_CREDENTIAL_UNTRUSTED@);
        }
    }
}

/// A code that a bucket holds is held by every bucket that starts with it.
proof fn lemma_codes_kept(a: Seq<Status>, b: Seq<Status>, code: Seq<char>)
    requires
        status::starts(a, b),
    ensures
        status::has_code(a, code) ==> status::has_code(b, code),
{
    if status::has_code(a, code) {
        let i = choose|i: int| 0 <= i < a.len() && (#[trigger] a[i]).code == code;
        assert(b[i].code == code);
    }
}

/// A claim signature is recorded as valid only where it verifies against a leaf
/// over a sound structure, and, outside the generous posture, inside the validity
/// windows of the leaf and of its chain. Where it does not verify there is a
/// failure for it, and a leaf that may not sign claims is always reported.
pub proof fn signatures_are_validated_exactly_where_they_verify(
    has_leaf: bool,
    chain_error: Option<String>,
    c: CredentialFacts,
    structure_ok: bool,
    generous: bool,
    sig_url: Seq<char>,
    r: Results,
)
    requires
        !r.succeeded(CLAIM_SIGNATURE_VALIDATED@),
        !r.succeeded(CLAIM_SIGNATURE_INSIDE_VALIDITY@),
        !r.failed(CLAIM_SIGNATURE_OUTSIDE_VALIDITY@),
        !r.failed(SIGNING_CREDENTIAL_INVALID@),
        !r.failed(CLAIM_SIGNATURE_MISMATCH@),
    ensures
        ({
            let after = after_signature(
                has_leaf,
                chain_error,
                c,
                structure_ok,
                generous,
                sig_url,
                r,
            );
            let window = c.leaf_valid && (c.chain is Some ==> c.chain->0.chain_validity_ok);
            let may_sign = if c.chain is Some {
                c.chain->0.leaf_acceptable
            } else {
                c.leaf_acceptable
            };
            &&& after.succeeded(CLAIM_SIGNATURE_VALIDATED@) == (has_leaf && c.signature is Valid
                && structure_ok && (generous || window))
            &&& after.succeeded(CLAIM_SIGNATURE_INSIDE_VALIDITY@) == (has_leaf && window)
            &&& after.failed(CLAIM_SIGNATURE_OUTSIDE_VALIDITY@) == (has_leaf && !window)
            &&& after.failed(SIGNING_CREDENTIAL_INVALID@) == !(has_leaf && may_sign)
            &&& after.failed(CLAIM_SIGNATURE_MISMATCH@) == (!has_leaf || c.signature is Invalid)
            &&& has_leaf && c.signature is UnsupportedAlgorithm ==> after.failed(
                ALGORITHM_UNSUPPORTED@,
            )
        }),
{
    reveal_strlit("claimSignature.validated");
    reveal_strlit("claimSignature.insideValidity");
    reveal_strlit("claimSignature.outsideValidity");
    reveal_strlit("claimSignature.mismatch");
    reveal_strlit("signingCredential.invalid");
    reveal_strlit("algorithm.unsupported");
    assert("claimSignature.validated"@[15] == 'v');
    assert("claimSignature.insideValidity"@[15] == 'i');
    assert("claimSignature.outsideValidity"@[15] == 'o');
    assert("claimSignature.mismatch"@[15] == 'm');
    assert("signingCredential.invalid"@[0] == 's');
    assert("algorithm.unsupported"@[0] == 'a');
    assert("claimSignature.validated"@[0] == 'c');
    assert("claimSignature.outsideValidity"@[0] == 'c');
    assert("claimSignature.mismatch"@[0] == 'c');
    let a = if acceptable(has_leaf, c) {
        r
    } else {
        r.fail(
            SIGNING_CREDENTIAL_INVALID@,
            sig_url,
            "signing certificate is not a valid claim-signing credential"@,
        )
    };
    let b = if usable(has_leaf, c, structure_ok, generous) {
        a.pass(CLAIM_SIGNATURE_VALIDATED@, sig_url, "claim signature valid"@)
    } else {
        unverified(c.signature, sig_url, a)
    };
    let after = after_signature(has_leaf, chain_error, c, structure_ok, generous, sig_url, r);
    lemma_pushed(r, a);
    lemma_pushed(a, b);
    if has_leaf {
        lemma_pushed(b, after);
    } else {
        let first = r.fail(
            SIGNING_CREDENTIAL_INVALID@,
            sig_url,
            match chain_error {
                Some(e) => e@,
                None => "no integrity-protected signing certificate in signature"@,
            },
        );
        lemma_pushed(r, first);
        lemma_pushed(first, after);
    }
}

/// Where one status is added, exactly its code is added.
proof fn lemma_pushed(a: Results, b: Results)
    requires
        b.success == a.success || (b.success.len() == a.success.len() + 1 && status::starts(
            a.success,
            b.success,
        )),
        b.failure == a.failure || (b.failure.len() == a.failure.len() + 1 && status::starts(
            a.failure,
            b.failure,
        )),
    ensures
        forall|code: Seq<char>| #[trigger]
            b.succeeded(code) == (a.succeeded(code) || (b.success.len() > a.success.len()
                && b.success.last().code == code)),
        forall|code: Seq<char>| #[trigger]
            b.failed(code) == (a.failed(code) || (b.failure.len() > a.failure.len()
                && b.failure.last().code == code)),
{
    assert forall|code: Seq<char>| #[trigger]
        b.succeeded(code) == (a.succeeded(code) || (b.success.len() > a.success.len()
            && b.success.last().code == code)) by {
        lemma_bucket_pushed(a.success, b.success, code);
    }
    assert forall|code: Seq<char>| #[trigger]
        b.failed(code) == (a.failed(code) || (b.failure.len() > a.failure.len()
            && b.failure.last().code == code)) by {
        lemma_bucket_pushed(a.failure, b.failure, code);
    }
}

proof fn lemma_bucket_pushed(a: Seq<Status>, b: Seq<Status>, code: Seq<char>)
    requires
        a == b || (b.len() == a.len() + 1 && status::starts(a, b)),
    ensures
        status::has_code(b, code) == (status::has_code(a, code) || (b.len() > a.len()
            && b.last().code == code)),
{
    if a != b {
        lemma_codes_kept(a, b, code);
        if status::has_code(b, code) {
            let i = choose|i: int| 0 <= i < b.len() && (#[trigger] b[i]).code == code;
            if i < a.len() {
                assert(a[i].code == code);
            }
        }
        if b.last().code == code {
            assert(b[b.len() - 1].code == code);
        }
    }
}

/// A time-stamp establishes an instant exactly where its header holds one usable
/// token, the countersigned input was formed, the token could be read and passes
/// inspection, and it was verified against supplied authorities; the instant is
/// the verified one, and only then is the time-stamp recorded as trusted. A
/// time-stamp never adds a failure.
pub proof fn timestamps_are_trusted_exactly_where_verified(
    ts: TimestampFacts,
    sig_url: Seq<char>,
    r: Results,
    verification_time: i128,
)
    ensures
        ({
            let (at, after) = timestamp_outcome(ts, sig_url, r);
            let verified = ts.header is Some && ts.header->0.tokens@.len() == 1
                && ts.header->0.tokens@[0] is Some && ts.input_formed && (ts.header->0.version
                == ClaimTimestampVersion::V2 || ts.token_read) && ts.inspection_error is None
                && ts.verification is Some && ts.verification->0.verified;
            &&& at == if verified {
                ts.verification->0.time
            } else {
                None
            }
            &&& after.failure == r.failure
            &&& verified ==> after.succeeded(TIME_STAMP_TRUSTED@) && after.succeeded(
                TIME_STAMP_VALIDATED@,
            )
            &&& !verified ==> after.success == r.success
            &&& ts.header is Some && !verified ==> after.informational.len()
                > r.informational.len()
            &&& ts.header is None ==> after == r
            &&& effective_time(ts, verification_time) == match at {
                Some(t) => t,
                None => verification_time,
            }
        }),
{
    let (at, after) = timestamp_outcome(ts, sig_url, r);
    let n = r.success.len() as int;
    if after.success != r.success {
        assert(after.success[n].code == TIME_STAMP_VALIDATED@);
        assert(after.success[n + 1].code == TIME_STAMP_TRUSTED@);
    }
}

} // verus!
