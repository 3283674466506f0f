//! Validation status codes and the results that verification accumulates.
use vstd::prelude::*;
use crate::json;
use crate::json::{Doc, Json};
use crate::text::str_eq;

verus! {

pub const CLAIM_SIGNATURE_VALIDATED: &'static str = "claimSignature.validated";

pub const CLAIM_SIGNATURE_MISMATCH: &'static str = "claimSignature.mismatch";

pub const CLAIM_SIGNATURE_MISSING: &'static str = "claimSignature.missing";

pub const CLAIM_SIGNATURE_INSIDE_VALIDITY: &'static str = "claimSignature.insideValidity";

pub const CLAIM_SIGNATURE_OUTSIDE_VALIDITY: &'static str = "claimSignature.outsideValidity";

pub const ASSERTION_HASHED_URI_MATCH: &'static str = "assertion.hashedURI.match";

pub const ASSERTION_HASHED_URI_MISMATCH: &'static str = "assertion.hashedURI.mismatch";

pub const ASSERTION_DATA_HASH_MATCH: &'static str = "assertion.dataHash.match";

pub const ASSERTION_DATA_HASH_MISMATCH: &'static str = "assertion.dataHash.mismatch";

pub const ASSERTION_DATA_HASH_ADDITIONAL_EXCLUSIONS_PRESENT: &'static str = "assertion.dataHash.additionalExclusionsPresent";

pub const ASSERTION_BMFF_HASH_MATCH: &'static str = "assertion.bmffHash.match";

pub const ASSERTION_BMFF_HASH_MISMATCH: &'static str = "assertion.bmffHash.mismatch";

pub const ASSERTION_BMFF_HASH_MALFORMED: &'static str = "assertion.bmffHash.malformed";

pub const ASSERTION_BOXES_HASH_MATCH: &'static str = "assertion.boxesHash.match";

pub const ASSERTION_BOXES_HASH_MISMATCH: &'static str = "assertion.boxesHash.mismatch";

pub const ASSERTION_BOXES_HASH_MALFORMED: &'static str = "assertion.boxesHash.malformed";

pub const ASSERTION_BOXES_HASH_UNKNOWN_BOX: &'static str = "assertion.boxesHash.unknownBox";

pub const ASSERTION_COLLECTION_HASH_MATCH: &'static str = "assertion.collectionHash.match";

pub const ASSERTION_COLLECTION_HASH_MISMATCH: &'static str = "assertion.collectionHash.mismatch";

pub const ASSERTION_COLLECTION_HASH_MALFORMED: &'static str = "assertion.collectionHash.malformed";

pub const ASSERTION_COLLECTION_HASH_INVALID_URI: &'static str = "assertion.collectionHash.invalidURI";

pub const ASSERTION_COLLECTION_HASH_INCORRECT_FILE_COUNT: &'static str = "assertion.collectionHash.incorrectFileCount";

pub const ASSERTION_MULTI_ASSET_HASH_MATCH: &'static str = "assertion.multiAssetHash.match";

pub const ASSERTION_MULTI_ASSET_HASH_MISMATCH: &'static str = "assertion.multiAssetHash.mismatch";

pub const ASSERTION_MULTI_ASSET_HASH_MISSING_PART: &'static str = "assertion.multiAssetHash.missingPart";

pub const ASSERTION_MULTI_ASSET_HASH_MALFORMED: &'static str = "assertion.multiAssetHash.malformed";

pub const SIGNING_CREDENTIAL_TRUSTED: &'static str = "signingCredential.trusted";

pub const SIGNING_CREDENTIAL_UNTRUSTED: &'static str = "signingCredential.untrusted";

pub const SIGNING_CREDENTIAL_INVALID: &'static str = "signingCredential.invalid";

pub const SIGNING_CREDENTIAL_OCSP_NOT_REVOKED: &'static str = "signingCredential.ocsp.notRevoked";

pub const SIGNING_CREDENTIAL_OCSP_REVOKED: &'static str = "signingCredential.ocsp.revoked";

pub const SIGNING_CREDENTIAL_OCSP_SKIPPED: &'static str = "signingCredential.ocsp.skipped";

pub const TIME_STAMP_VALIDATED: &'static str = "timeStamp.validated";

pub const TIME_STAMP_UNTRUSTED: &'static str = "timeStamp.untrusted";

pub const TIME_STAMP_TRUSTED: &'static str = "timeStamp.trusted";

pub const TIME_STAMP_OUTSIDE_VALIDITY: &'static str = "timeStamp.outsideValidity";

pub const TIME_STAMP_MALFORMED: &'static str = "timeStamp.malformed";

pub const TIME_STAMP_MISSING: &'static str = "timeStamp.missing";

pub const CLAIM_MISSING: &'static str = "claim.missing";

pub const CLAIM_CBOR_INVALID: &'static str = "claim.cbor.invalid";

pub const CLAIM_MULTIPLE: &'static str = "claim.multiple";

pub const CLAIM_MALFORMED: &'static str = "claim.malformed";

pub const CLAIM_HARD_BINDINGS_MISSING: &'static str = "claim.hardBindings.missing";

pub const ASSERTION_MULTIPLE_HARD_BINDINGS: &'static str = "assertion.multipleHardBindings";

pub const ALGORITHM_UNSUPPORTED: &'static str = "algorithm.unsupported";

pub const ASSERTION_CBOR_INVALID: &'static str = "assertion.cbor.invalid";

pub const ASSERTION_UNDECLARED: &'static str = "assertion.undeclared";

pub const ASSERTION_ACTION_MALFORMED: &'static str = "assertion.action.malformed";

pub const HASHED_URI_MISSING: &'static str = "hashedURI.missing";

pub const SIGNING_CREDENTIAL_OCSP_UNKNOWN: &'static str = "signingCredential.ocsp.unknown";

pub const SIGNING_CREDENTIAL_OCSP_INACCESSIBLE: &'static str = "signingCredential.ocsp.inaccessible";

pub const TIMESTAMP_V1_SIGNATURE_UNBOUND: &'static str = "com.encypher.timeStamp.v1SignatureUnbound";

pub const MANIFEST_INACCESSIBLE: &'static str = "manifest.inaccessible";

pub const HASHED_URI_MISMATCH: &'static str = "hashedURI.mismatch";

pub const ASSERTION_SELF_REDACTED: &'static str = "assertion.selfRedacted";

pub const ASSERTION_ACTION_REDACTED: &'static str = "assertion.action.redacted";

pub const ASSERTION_HARD_BINDING_REDACTED: &'static str = "assertion.hardBinding.redacted";

pub const ASSERTION_NOT_REDACTED: &'static str = "assertion.notRedacted";

pub const INGREDIENT_MANIFEST_MISSING: &'static str = "ingredient.manifest.missing";

pub const INGREDIENT_MANIFEST_VALIDATED: &'static str = "ingredient.manifest.validated";

pub const INGREDIENT_MANIFEST_MISMATCH: &'static str = "ingredient.manifest.mismatch";

pub const INGREDIENT_CLAIM_SIGNATURE_VALIDATED: &'static str = "ingredient.claimSignature.validated";

pub const INGREDIENT_CLAIM_SIGNATURE_MISSING: &'static str = "ingredient.claimSignature.missing";

pub const INGREDIENT_CLAIM_SIGNATURE_MISMATCH: &'static str = "ingredient.claimSignature.mismatch";

pub const CONFORMANCE_OUT_OF_SCOPE: &'static str = "conformanceScope.outOfScope";

pub const CONFORMANCE_SPEC_VERSION_NONCONFORMANT: &'static str = "conformanceScope.specVersion.nonConformant";

pub const ASSERTION_COMPOUND_CONTENT_MATCH: &'static str = "assertion.compoundContent.match";

pub const ASSERTION_COMPOUND_CONTENT_MISMATCH: &'static str = "assertion.compoundContent.mismatch";

pub const ASSERTION_COMPOUND_CONTENT_MALFORMED: &'static str = "assertion.compoundContent.malformed";

/// One status as the contracts see it.
pub struct Status {
    pub code: Seq<char>,
    pub url: Seq<char>,
    pub explanation: Seq<char>,
    pub details: Option<Doc>,
}

/// A status without machine-readable details.
pub open spec fn status(code: Seq<char>, url: Seq<char>, explanation: Seq<char>) -> Status {
    Status { code, url, explanation, details: None }
}

/// Some status of `s` carries `code`.
pub open spec fn has_code(s: Seq<Status>, code: Seq<char>) -> bool {
    exists|i: int| 0 <= i < s.len() && (#[trigger] s[i]).code == code
}

/// Accumulated results as the contracts see them.
#[verifier::ext_equal]
pub struct Results {
    pub success: Seq<Status>,
    pub informational: Seq<Status>,
    pub failure: Seq<Status>,
}

impl Results {
    /// No status in any bucket.
    pub open spec fn empty() -> Results {
        Results { success: Seq::empty(), informational: Seq::empty(), failure: Seq::empty() }
    }

    /// These results with one more success.
    pub open spec fn pass(self, code: Seq<char>, url: Seq<char>, explanation: Seq<char>) -> Results {
        Results { success: self.success.push(status(code, url, explanation)), ..self }
    }

    /// These results with one more informational status.
    pub open spec fn inform(self, code: Seq<char>, url: Seq<char>, explanation: Seq<char>) -> Results {
        Results { informational: self.informational.push(status(code, url, explanation)), ..self }
    }

    /// These results with one more failure.
    pub open spec fn fail(self, code: Seq<char>, url: Seq<char>, explanation: Seq<char>) -> Results {
        Results { failure: self.failure.push(status(code, url, explanation)), ..self }
    }

    pub open spec fn succeeded(self, code: Seq<char>) -> bool {
        has_code(self.success, code)
    }

    pub open spec fn failed(self, code: Seq<char>) -> bool {
        has_code(self.failure, code)
    }

    pub open spec fn informed(self, code: Seq<char>) -> bool {
        has_code(self.informational, code)
    }

    /// Every status of `self` stands in `later`, at its place.
    pub open spec fn extended_by(self, later: Results) -> bool {
        &&& starts(self.success, later.success)
        &&& starts(self.informational, later.informational)
        &&& starts(self.failure, later.failure)
    }
}

/// `a` is the beginning of `b`.
pub open spec fn starts(a: Seq<Status>, b: Seq<Status>) -> bool {
    a.len() <= b.len() && forall|i: int| 0 <= i < a.len() ==> a[i] == #[trigger] b[i]
}

/// A single validation status code with its JUMBF URL and human explanation.
#[derive(Debug)]
pub struct StatusCode {
    /// The status code, e.g. `"claimSignature.validated"`.
    pub code: String,
    /// The JUMBF URI that the status applies to.
    pub url: String,
    /// Human-readable explanation.
    pub explanation: String,
    /// Machine-readable evidence for extension status codes.
    pub details: Option<Json>,
}

impl View for StatusCode {
    type V = Status;

    open spec fn view(&self) -> Status {
        Status {
            code: self.code@,
            url: self.url@,
            explanation: self.explanation@,
            details: match self.details {
                Some(j) => Some(json::doc(j)),
                None => None,
            },
        }
    }
}

/// Validation status codes partitioned by severity.
#[derive(Debug)]
pub struct ValidationResults {
    /// Codes for checks that passed.
    pub success: Vec<StatusCode>,
    /// Advisory codes that do not affect validity.
    pub informational: Vec<StatusCode>,
    /// Codes for checks that failed.
    pub failure: Vec<StatusCode>,
}

/// The statuses of a bucket.
pub open spec fn statuses(bucket: Seq<StatusCode>) -> Seq<Status> {
    bucket.map_values(|s: StatusCode| s@)
}

impl View for ValidationResults {
    type V = Results;

    open spec fn view(&self) -> Results {
        Results {
            success: statuses(self.success@),
            informational: statuses(self.informational@),
            failure: statuses(self.failure@),
        }
    }
}

/// Whether a bucket holds `code`.
pub fn bucket_has(bucket: &Vec<StatusCode>, code: &str) -> (r: bool)
    ensures
        r == has_code(statuses(bucket@), code@),
{
    let mut i: usize = 0;
    while i < bucket.len()
        invariant
            i <= bucket.len(),
            forall|k: int| 0 <= k < i ==> (#[trigger] statuses(bucket@)[k]).code != code@,
        decreases bucket.len() - i,
    {
        if str_eq(bucket[i].code.as_str(), code) {
            assert(statuses(bucket@)[i as int].code == code@);
            return true;
        }
        i += 1;
    }
    false
}

impl ValidationResults {
    /// No status in any bucket.
    pub fn new() -> (r: ValidationResults)
        ensures
            r@ == Results::empty(),
    {
        let r = ValidationResults {
            success: Vec::new(),
            informational: Vec::new(),
            failure: Vec::new(),
        };
        assert(r@ =~= Results::empty());
        r
    }

    /// True when `code` appears in the success bucket.
    pub fn has_success(&self, code: &str) -> (r: bool)
        ensures
            r == self@.succeeded(code@),
    {
        bucket_has(&self.success, code)
    }

    /// True when `code` appears in the failure bucket.
    pub fn has_failure(&self, code: &str) -> (r: bool)
        ensures
            r == self@.failed(code@),
    {
        bucket_has(&self.failure, code)
    }

    /// True when `code` appears in the informational bucket.
    pub fn has_informational(&self, code: &str) -> (r: bool)
        ensures
            r == self@.informed(code@),
    {
        bucket_has(&self.informational, code)
    }

    /// Record a passed check.
    pub fn push_success(&mut self, code: &str, url: String, explanation: String)
        ensures
            final(self)@ == old(self)@.pass(code@, url@, explanation@),
    {
        self.success.push(StatusCode { code: code.to_owned(), url, explanation, details: None });
        assert(statuses(self.success@) =~= statuses(old(self).success@).push(
            status(code@, url@, explanation@),
        ));
    }

    /// Record a passed check with machine-readable evidence.
    pub fn push_success_with_details(
        &mut self,
        code: &str,
        url: String,
        explanation: String,
        details: Json,
    )
        ensures
            final(self)@ == (Results {
                success: old(self)@.success.push(
                    Status { code: code@, url: url@, explanation: explanation@, details: Some(json::doc(details)) },
                ),
                ..old(self)@
            }),
    {
        self.success.push(
            StatusCode { code: code.to_owned(), url, explanation, details: Some(details) },
        );
        assert(statuses(self.success@) =~= statuses(old(self).success@).push(
            Status { code: code@, url: url@, explanation: explanation@, details: Some(json::doc(details)) },
        ));
    }

    /// Record a failed check.
    pub fn push_failure(&mut self, code: &str, url: String, explanation: String)
        ensures
            final(self)@ == old(self)@.fail(code@, url@, explanation@),
    {
        self.failure.push(StatusCode { code: code.to_owned(), url, explanation, details: None });
        assert(statuses(self.failure@) =~= statuses(old(self).failure@).push(
            status(code@, url@, explanation@),
        ));
    }

    /// Record an advisory observation.
    pub fn push_informational(&mut self, code: &str, url: String, explanation: String)
        ensures
            final(self)@ == old(self)@.inform(code@, url@, explanation@),
    {
        self.informational.push(
            StatusCode { code: code.to_owned(), url, explanation, details: None },
        );
        assert(statuses(self.informational@) =~= statuses(old(self).informational@).push(
            status(code@, url@, explanation@),
        ));
    }
}

impl Default for ValidationResults {
    fn default() -> (r: ValidationResults)
        ensures
            r@ == Results::empty(),
    {
        ValidationResults::new()
    }
}

// ---------------------------------------------------------------------------
// Laws
// ---------------------------------------------------------------------------


/// A recorded status is found in its own bucket under its code, and a code that
/// was found before is found still; the other buckets do not change.
pub proof fn recorded_statuses_are_found(
    r: Results,
    code: Seq<char>,
    url: Seq<char>,
    why: Seq<char>,
    other: Seq<char>,
)
    ensures
        r.pass(code, url, why).succeeded(other) == (r.succeeded(other) || other == code),
        r.inform(code, url, why).informed(other) == (r.informed(other) || other == code),
        r.fail(code, url, why).failed(other) == (r.failed(other) || other == code),
        r.pass(code, url, why).failure == r.failure,
        r.pass(code, url, why).informational == r.informational,
        r.inform(code, url, why).failure == r.failure,
        r.inform(code, url, why).success == r.success,
        r.fail(code, url, why).success == r.success,
        r.fail(code, url, why).informational == r.informational,
        r.fail(code, url, why).failure.last().url == url,
        r.fail(code, url, why).failure.last().explanation == why,
{
    lemma_found(r.success, r.pass(code, url, why).success, code, other);
    lemma_found(r.informational, r.inform(code, url, why).informational, code, other);
    lemma_found(r.failure, r.fail(code, url, why).failure, code, other);
}

proof fn lemma_found(a: Seq<Status>, b: Seq<Status>, code: Seq<char>, other: Seq<char>)
    requires
        b.len() == a.len() + 1,
        forall|i: int| 0 <= i < a.len() ==> #[trigger] b[i] == a[i],
        b.last().code == code,
    ensures
        has_code(b, other) == (has_code(a, other) || other == code),
{
    if has_code(a, other) {
        let i = choose|i: int| 0 <= i < a.len() && (#[trigger] a[i]).code == other;
        assert(b[i].code == other);
    }
    if has_code(b, other) {
        let i = choose|i: int| 0 <= i < b.len() && (#[trigger] b[i]).code == other;
        if i < a.len() {
            assert(a[i].code == other);
        }
    }
    if other == code {
        assert(b[b.len() - 1].code == other);
    }
}

} // verus!
