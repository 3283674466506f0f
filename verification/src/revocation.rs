//! Revocation statuses, and resolving them where stapled responses disagree.
//!
//! A store may staple several responses for the same certificate. The default
//! posture stays fail-closed: a verified revoked response decides. Under the
//! conformance posture one qualifying good response settles the question, and
//! the outranked revoked response is reported.
use vstd::prelude::*;

verus! {

/// Informational: a verified revoked response was outranked by a qualifying
/// good response for the same certificate.
pub const OCSP_CONFLICTING_REVOKED_RESPONSE: &'static str = "com.encypher.ocsp.conflictingRevokedResponse";

/// Why a certificate was revoked.
#[derive(Debug, Clone, Copy, PartialEq, Eq, Structural)]
pub enum OcspRevocationReason {
    Unspecified,
    KeyCompromise,
    CaCompromise,
    AffiliationChanged,
    Superseded,
    CessationOfOperation,
    CertificateHold,
    RemoveFromCrl,
    PrivilegeWithdrawn,
    AaCompromise,
}

/// The verified status of one certificate in one response.
#[derive(Debug, Clone, Copy, PartialEq, Eq, Structural)]
pub enum OcspStatus {
    Good,
    /// Revoked at an instant, in nanoseconds of the Unix epoch.
    Revoked { revocation_time: i128, reason: Option<OcspRevocationReason> },
    Unknown,
}

/// The place of a reason in the order that ties are broken by.
pub open spec fn reason_rank(reason: Option<OcspRevocationReason>) -> int {
    match reason {
        None => 0,
        Some(OcspRevocationReason::Unspecified) => 1,
        Some(OcspRevocationReason::KeyCompromise) => 2,
        Some(OcspRevocationReason::CaCompromise) => 3,
        Some(OcspRevocationReason::AffiliationChanged) => 4,
        Some(OcspRevocationReason::Superseded) => 5,
        Some(OcspRevocationReason::CessationOfOperation) => 6,
        Some(OcspRevocationReason::CertificateHold) => 7,
        Some(OcspRevocationReason::RemoveFromCrl) => 8,
        Some(OcspRevocationReason::PrivilegeWithdrawn) => 9,
        Some(OcspRevocationReason::AaCompromise) => 10,
    }
}

/// A certificate that was removed from the revocation list is good.
pub open spec fn effective(s: Option<OcspStatus>) -> Option<OcspStatus> {
    match s {
        Some(OcspStatus::Revoked { revocation_time: _, reason: Some(OcspRevocationReason::RemoveFromCrl) }) => Some(
            OcspStatus::Good,
        ),
        _ => s,
    }
}

pub open spec fn is_revoked(s: Option<OcspStatus>) -> bool {
    s matches Some(OcspStatus::Revoked { .. })
}

/// `a` weighs at least as much as `b`: revoked before good before unknown
/// before nothing, and of two revocations the earlier one.
pub open spec fn outweighs(a: Option<OcspStatus>, b: Option<OcspStatus>) -> bool {
    match (a, b) {
        (
            Some(OcspStatus::Revoked { revocation_time: t, reason: r }),
            Some(OcspStatus::Revoked { revocation_time: u, reason: q }),
        ) => t < u || (t == u && reason_rank(r) <= reason_rank(q)),
        (Some(OcspStatus::Revoked { .. }), _) => true,
        (_, Some(OcspStatus::Revoked { .. })) => false,
        (Some(OcspStatus::Good), _) => true,
        (_, Some(OcspStatus::Good)) => false,
        (Some(OcspStatus::Unknown), _) => true,
        (_, Some(OcspStatus::Unknown)) => false,
        (None, None) => true,
    }
}

/// The fail-closed merge of two statuses: the weightier one.
pub open spec fn merged(prior: Option<OcspStatus>, candidate: Option<OcspStatus>) -> Option<
    OcspStatus,
> {
    let a = effective(prior);
    let b = effective(candidate);
    if outweighs(a, b) {
        a
    } else {
        b
    }
}

fn rank_of(reason: Option<OcspRevocationReason>) -> (r: u8)
    ensures
        r == reason_rank(reason),
{
    match reason {
        None => 0,
        Some(OcspRevocationReason::Unspecified) => 1,
        Some(OcspRevocationReason::KeyCompromise) => 2,
        Some(OcspRevocationReason::CaCompromise) => 3,
        Some(OcspRevocationReason::AffiliationChanged) => 4,
        Some(OcspRevocationReason::Superseded) => 5,
        Some(OcspRevocationReason::CessationOfOperation) => 6,
        Some(OcspRevocationReason::CertificateHold) => 7,
        Some(OcspRevocationReason::RemoveFromCrl) => 8,
        Some(OcspRevocationReason::PrivilegeWithdrawn) => 9,
        Some(OcspRevocationReason::AaCompromise) => 10,
    }
}

fn effective_of(s: Option<OcspStatus>) -> (r: Option<OcspStatus>)
    ensures
        r == effective(s),
{
    match s {
        Some(OcspStatus::Revoked { revocation_time: _, reason: Some(OcspRevocationReason::RemoveFromCrl) }) => Some(
            OcspStatus::Good,
        ),
        _ => s,
    }
}

impl OcspStatus {
    /// Merge what one response says into what earlier ones said. The order of
    /// the responses does not matter, and a revocation is never lost.
    pub fn merge(prior: Option<OcspStatus>, candidate: Option<OcspStatus>) -> (r: Option<
        OcspStatus,
    >)
        ensures
            r == merged(prior, candidate),
    {
        let a = effective_of(prior);
        let b = effective_of(candidate);
        let first = match (a, b) {
            (
                Some(OcspStatus::Revoked { revocation_time: t, reason: r }),
                Some(OcspStatus::Revoked { revocation_time: u, reason: q }),
            ) => t < u || (t == u && rank_of(r) <= rank_of(q)),
            (Some(OcspStatus::Revoked { .. }), _) => true,
            (_, Some(OcspStatus::Revoked { .. })) => false,
            (Some(OcspStatus::Good), _) => true,
            (_, Some(OcspStatus::Good)) => false,
            (Some(OcspStatus::Unknown), _) => true,
            (_, Some(OcspStatus::Unknown)) => false,
            (None, None) => true,
        };
        if first {
            a
        } else {
            b
        }
    }
}

/// Evidence accumulated for one certificate across every stapled response.
#[derive(Debug, Clone, Copy, PartialEq, Eq, Structural)]
pub struct CertificateEvidence {
    /// Order-independent, fail-closed merge of every qualifying response.
    pub merged: Option<OcspStatus>,
    /// At least one qualifying response established `good`.
    pub any_good: bool,
}

impl CertificateEvidence {
    /// No evidence.
    pub open spec fn empty() -> CertificateEvidence {
        CertificateEvidence { merged: None, any_good: false }
    }

    /// This evidence with one more response.
    pub open spec fn with_response(self, candidate: Option<OcspStatus>) -> CertificateEvidence {
        CertificateEvidence {
            merged: merged(self.merged, candidate),
            any_good: self.any_good || effective(candidate) == Some(OcspStatus::Good),
        }
    }

    /// No evidence.
    pub fn new() -> (r: CertificateEvidence)
        ensures
            r == CertificateEvidence::empty(),
    {
        CertificateEvidence { merged: None, any_good: false }
    }

    /// Fold one response's verified status into this certificate's evidence.
    pub fn absorb(&mut self, candidate: Option<OcspStatus>)
        ensures
            *final(self) == old(self).with_response(candidate),
    {
        let alone = OcspStatus::merge(None, candidate);
        let good = match alone {
            Some(OcspStatus::Good) => true,
            _ => false,
        };
        self.any_good = self.any_good || good;
        self.merged = OcspStatus::merge(self.merged, candidate);
    }

    /// The status to act on, and whether a revoked response was outranked.
    pub open spec fn resolved(self, any_good_wins: bool) -> (Option<OcspStatus>, bool) {
        if any_good_wins && self.any_good && is_revoked(self.merged) {
            (Some(OcspStatus::Good), true)
        } else {
            (self.merged, false)
        }
    }

    /// The status to act on, and whether a revoked response was outranked.
    pub fn resolve(self, any_good_wins: bool) -> (r: (Option<OcspStatus>, bool))
        ensures
            r == self.resolved(any_good_wins),
    {
        let revoked = match self.merged {
            Some(OcspStatus::Revoked { .. }) => true,
            _ => false,
        };
        if any_good_wins && self.any_good && revoked {
            (Some(OcspStatus::Good), true)
        } else {
            (self.merged, false)
        }
    }
}

impl Default for CertificateEvidence {
    fn default() -> (r: CertificateEvidence)
        ensures
            r == CertificateEvidence::empty(),
    {
        CertificateEvidence::new()
    }
}

// ---------------------------------------------------------------------------
// Laws
// ---------------------------------------------------------------------------

/// Two statuses merge alike in either order.
pub proof fn merge_is_commutative(a: Option<OcspStatus>, b: Option<OcspStatus>)
    ensures
        merged(a, b) == merged(b, a),
{
}

/// Three statuses merge alike however they are grouped.
pub proof fn merge_is_associative(
    a: Option<OcspStatus>,
    b: Option<OcspStatus>,
    c: Option<OcspStatus>,
)
    ensures
        merged(merged(a, b), c) == merged(a, merged(b, c)),
{
}

/// The order in which responses are absorbed does not matter.
pub proof fn absorb_order_does_not_matter(
    e: CertificateEvidence,
    a: Option<OcspStatus>,
    b: Option<OcspStatus>,
)
    ensures
        e.with_response(a).with_response(b) == e.with_response(b).with_response(a),
{
    merge_is_associative(e.merged, a, b);
    merge_is_associative(e.merged, b, a);
    merge_is_commutative(a, b);
}

/// A revocation is never lost: merging anything to it stays revoked.
pub proof fn merge_is_fail_closed(a: Option<OcspStatus>, b: Option<OcspStatus>)
    requires
        is_revoked(effective(a)) || is_revoked(effective(b)),
    ensures
        is_revoked(merged(a, b)),
{
}

/// The response says that the certificate is revoked and not that it was taken
/// off the revocation list again.
pub open spec fn says_revoked(s: Option<OcspStatus>) -> bool {
    match s {
        Some(OcspStatus::Revoked { revocation_time: _, reason }) => reason != Some(
            OcspRevocationReason::RemoveFromCrl,
        ),
        _ => false,
    }
}

/// The response says that the certificate is good, or that it was taken off the
/// revocation list.
pub open spec fn says_good(s: Option<OcspStatus>) -> bool {
    match s {
        Some(OcspStatus::Good) => true,
        Some(OcspStatus::Revoked { revocation_time: _, reason }) => reason == Some(
            OcspRevocationReason::RemoveFromCrl,
        ),
        _ => false,
    }
}

/// Two statuses merge to a revocation exactly where one of them says revoked, and
/// then to the earlier of two; otherwise to good where one says good, to unknown
/// where one says that, and to nothing where neither says anything.
pub proof fn merge_takes_the_gravest(a: Option<OcspStatus>, b: Option<OcspStatus>)
    ensures
        is_revoked(merged(a, b)) == (says_revoked(a) || says_revoked(b)),
        (merged(a, b) == Some(OcspStatus::Good)) == (!says_revoked(a) && !says_revoked(b) && (
        says_good(a) || says_good(b))),
        (merged(a, b) == Some(OcspStatus::Unknown)) == (!says_revoked(a) && !says_revoked(b)
            && !says_good(a) && !says_good(b) && (a is Some || b is Some)),
        merged(a, b) is None == (a is None && b is None),
        says_revoked(a) && says_revoked(b) ==> (merged(a, b) matches Some(
            OcspStatus::Revoked { revocation_time: t, reason: _ },
        ) && (a matches Some(OcspStatus::Revoked { revocation_time: u, reason: _ }) && t <= u) && (
        b matches Some(OcspStatus::Revoked { revocation_time: w, reason: _ }) && t <= w)),
        says_revoked(a) && !says_revoked(b) ==> merged(a, b) == a,
        !says_revoked(a) && says_revoked(b) ==> merged(a, b) == b,
{
}

/// The default reading acts on the merged status and never outranks a response.
/// The conformance reading acts on good, and reports that a revoked response was
/// outranked, exactly where the responses say both; elsewhere it acts on the
/// merged status too.
pub proof fn good_outranks_revoked_only_on_request(e: CertificateEvidence)
    ensures
        e.resolved(false) == (e.merged, false),
        e.resolved(true).1 == (e.any_good && is_revoked(e.merged)),
        e.resolved(true).1 ==> e.resolved(true).0 == Some(OcspStatus::Good),
        !e.resolved(true).1 ==> e.resolved(true).0 == e.merged,
{
}

} // verus!
