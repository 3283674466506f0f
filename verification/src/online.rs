//! Revocation beyond the embedded evidence: what a responder answered, and the
//! queries that would settle what was skipped.
//!
//! Nothing here opens a connection. An answer is handed in as evidence; where
//! there is none, the query that would bring one is recorded.
use vstd::prelude::*;
use crate::bytes::copy_bytes;
use crate::hash;
use crate::hash::HashAlgorithm;
use crate::network_needs;
use crate::network_needs::{push_unique, Need, NetworkNeed, OcspPurpose, Purpose};
use crate::ocsp;
use crate::ocsp::{
    embedded_ocsp_status_from_certificate_statuses, ocsp_chain_pairs, record_embedded_ocsp_status,
    CertificatePool, EmbeddedOcspStatus,
};
use crate::output;
use crate::output::hex_string;
use crate::revocation;
use crate::revocation::{OcspStatus, OCSP_CONFLICTING_REVOKED_RESPONSE};
use crate::status::{
    Results, ValidationResults, SIGNING_CREDENTIAL_OCSP_INACCESSIBLE,
    SIGNING_CREDENTIAL_OCSP_NOT_REVOKED, SIGNING_CREDENTIAL_OCSP_REVOKED,
    SIGNING_CREDENTIAL_OCSP_SKIPPED, SIGNING_CREDENTIAL_OCSP_UNKNOWN, SIGNING_CREDENTIAL_UNTRUSTED,
};

verus! {

/// What asking the responder of a certificate came to.
#[derive(Debug, Clone, Copy, PartialEq, Eq, Structural)]
pub enum OnlineAnswer {
    /// Nobody asked.
    NotSupplied,
    /// The responder was asked and did not answer.
    Unreachable,
    /// The answer is stale, or no authorized responder signed it.
    Unusable,
    Verified(OcspStatus),
}

/// The query that would settle the status of a certificate.
#[derive(Debug)]
pub struct OcspQuery {
    pub responder_url: String,
    pub request_der: Vec<u8>,
}

/// Online evidence for the signing chain: for each pair of the chain, leaf
/// first, the answer at the given instant and the query that its certificate
/// publishes a responder for.
#[derive(Debug)]
pub struct OnlineFacts {
    pub answers: Vec<OnlineAnswer>,
    pub queries: Vec<Option<OcspQuery>>,
    pub verification_time: i128,
}

/// What is known of the revocation of the signing chain.
#[derive(Debug, Clone, Copy, PartialEq, Eq, Structural)]
pub enum RevocationFinding {
    /// The embedded evidence settled it.
    Embedded(EmbeddedOcspStatus),
    /// Online evidence settled it.
    Online(EmbeddedOcspStatus),
    /// The responder does not know the signing certificate.
    Unknown,
    /// The responder was asked in vain.
    Inaccessible,
    /// Nothing is known.
    Skipped,
}

impl RevocationFinding {
    /// A certificate of the chain is revoked.
    pub open spec fn blocking(self) -> bool {
        match self {
            RevocationFinding::Embedded(s) => s.blocking(),
            RevocationFinding::Online(s) => s.blocking(),
            _ => false,
        }
    }

    /// Whether a certificate of the chain is revoked.
    pub fn blocks_trust(self) -> (r: bool)
        ensures
            r == self.blocking(),
    {
        match self {
            RevocationFinding::Embedded(s) => s.blocks_trust(),
            RevocationFinding::Online(s) => s.blocks_trust(),
            _ => false,
        }
    }
}

/// The answer for pair `p`.
pub open spec fn answer_at(answers: Seq<OnlineAnswer>, p: int) -> OnlineAnswer {
    if 0 <= p < answers.len() {
        answers[p]
    } else {
        OnlineAnswer::NotSupplied
    }
}

/// The verified status of pair `p`.
pub open spec fn online_status(answers: Seq<OnlineAnswer>, p: int) -> Option<OcspStatus> {
    match answer_at(answers, p) {
        OnlineAnswer::Verified(s) => Some(s),
        _ => None,
    }
}

/// The embedded evidence settled nothing.
pub open spec fn unsettled(embedded: EmbeddedOcspStatus) -> bool {
    embedded is NotChecked || embedded is Skipped
}

/// What is known of the revocation of the chain. Online evidence counts only
/// where the embedded evidence settled nothing.
pub open spec fn finding(
    embedded: EmbeddedOcspStatus,
    pool: CertificatePool,
    answers: Seq<OnlineAnswer>,
) -> RevocationFinding {
    if !unsettled(embedded) {
        RevocationFinding::Embedded(embedded)
    } else {
        match ocsp::chain_pairs(pool) {
            None => RevocationFinding::Skipped,
            Some(pairs) => {
                let s = ocsp::chain_status(
                    Seq::new(pairs.len(), |p: int| online_status(answers, p)),
                );
                if !unsettled(s) {
                    RevocationFinding::Online(s)
                } else if pairs.len() == 0 {
                    RevocationFinding::Skipped
                } else {
                    match answer_at(answers, 0) {
                        OnlineAnswer::NotSupplied => RevocationFinding::Skipped,
                        OnlineAnswer::Verified(_) => RevocationFinding::Unknown,
                        _ => RevocationFinding::Inaccessible,
                    }
                }
            },
        }
    }
}

fn answer_of(answers: &Vec<OnlineAnswer>, p: usize) -> (r: OnlineAnswer)
    ensures
        r == answer_at(answers@, p as int),
{
    if p < answers.len() {
        answers[p]
    } else {
        OnlineAnswer::NotSupplied
    }
}

/// What is known of the revocation of the signing chain.
pub fn settle_revocation(
    embedded: EmbeddedOcspStatus,
    pool: &CertificatePool,
    answers: &Vec<OnlineAnswer>,
) -> (r: RevocationFinding)
    requires
        pool.wf(),
    ensures
        r == finding(embedded, *pool, answers@),
{
    match embedded {
        EmbeddedOcspStatus::NotChecked | EmbeddedOcspStatus::Skipped => {},
        _ => {
            return RevocationFinding::Embedded(embedded);
        },
    }
    let pairs = match ocsp_chain_pairs(pool) {
        Some(pairs) => pairs,
        None => {
            return RevocationFinding::Skipped;
        },
    };
    let mut statuses: Vec<Option<OcspStatus>> = Vec::new();
    let mut p: usize = 0;
    while p < pairs.len()
        invariant
            p <= pairs.len(),
            statuses@ =~= Seq::new(p as nat, |k: int| online_status(answers@, k)),
        decreases pairs.len() - p,
    {
        let one = match answer_of(answers, p) {
            OnlineAnswer::Verified(s) => Some(s),
            _ => None,
        };
        statuses.push(one);
        p += 1;
    }
    let s = embedded_ocsp_status_from_certificate_statuses(statuses.as_slice());
    match s {
        EmbeddedOcspStatus::NotChecked | EmbeddedOcspStatus::Skipped => {},
        _ => {
            return RevocationFinding::Online(s);
        },
    }
    if pairs.len() == 0 {
        return RevocationFinding::Skipped;
    }
    match answer_of(answers, 0) {
        OnlineAnswer::NotSupplied => RevocationFinding::Skipped,
        OnlineAnswer::Verified(_) => RevocationFinding::Unknown,
        _ => RevocationFinding::Inaccessible,
    }
}

// ---------------------------------------------------------------------------
// Recording
// ---------------------------------------------------------------------------

/// The results with an online status recorded.
pub open spec fn after_online(s: EmbeddedOcspStatus, sig_url: Seq<char>, r: Results) -> Results {
    let leaf = if s is LeafRevoked || s is LeafAndCaRevoked {
        r.fail(
            SIGNING_CREDENTIAL_OCSP_REVOKED@,
            sig_url,
            "online OCSP response: signing certificate revoked"@,
        )
    } else {
        r
    };
    if s is CaRevoked || s is LeafAndCaRevoked {
        leaf.fail(
            SIGNING_CREDENTIAL_UNTRUSTED@,
            sig_url,
            "online OCSP response: CA certificate revoked"@,
        )
    } else if s is NotRevoked {
        leaf.pass(
            SIGNING_CREDENTIAL_OCSP_NOT_REVOKED@,
            sig_url,
            "online OCSP response: signing certificate not revoked"@,
        )
    } else {
        leaf
    }
}

/// The results with what is known of revocation recorded. An outranked revoked
/// response stays visible.
pub open spec fn after_revocation(
    f: RevocationFinding,
    outranked: bool,
    sig_url: Seq<char>,
    r: Results,
) -> Results {
    let after = match f {
        RevocationFinding::Embedded(s) => ocsp::after_ocsp(s, sig_url, r),
        RevocationFinding::Online(s) => after_online(s, sig_url, r),
        RevocationFinding::Unknown => r.inform(
            SIGNING_CREDENTIAL_OCSP_UNKNOWN@,
            sig_url,
            "online OCSP response: signing certificate unknown to the responder"@,
        ),
        RevocationFinding::Inaccessible => r.inform(
            SIGNING_CREDENTIAL_OCSP_INACCESSIBLE@,
            sig_url,
            "no usable OCSP response could be obtained for the signing certificate"@,
        ),
        RevocationFinding::Skipped => ocsp::after_ocsp(EmbeddedOcspStatus::Skipped, sig_url, r),
    };
    if outranked {
        after.inform(
            OCSP_CONFLICTING_REVOKED_RESPONSE@,
            sig_url,
            "a revoked OCSP response was outranked by a qualifying good response"@,
        )
    } else {
        after
    }
}

fn record_online(s: EmbeddedOcspStatus, sig_url: &str, results: &mut ValidationResults)
    ensures
        final(results)@ == after_online(s, sig_url@, old(results)@),
{
    match s {
        EmbeddedOcspStatus::LeafRevoked | EmbeddedOcspStatus::LeafAndCaRevoked => {
            results.push_failure(
                SIGNING_CREDENTIAL_OCSP_REVOKED,
                sig_url.to_owned(),
                "online OCSP response: signing certificate revoked".to_owned(),
            );
        },
        _ => {},
    }
    match s {
        EmbeddedOcspStatus::CaRevoked | EmbeddedOcspStatus::LeafAndCaRevoked => {
            results.push_failure(
                SIGNING_CREDENTIAL_UNTRUSTED,
                sig_url.to_owned(),
                "online OCSP response: CA certificate revoked".to_owned(),
            );
        },
        EmbeddedOcspStatus::NotRevoked => {
            results.push_success(
                SIGNING_CREDENTIAL_OCSP_NOT_REVOKED,
                sig_url.to_owned(),
                "online OCSP response: signing certificate not revoked".to_owned(),
            );
        },
        _ => {},
    }
}

/// Record what is known of the revocation of the signing chain.
pub fn record_revocation(
    f: RevocationFinding,
    outranked: bool,
    sig_url: &str,
    results: &mut ValidationResults,
)
    ensures
        final(results)@ == after_revocation(f, outranked, sig_url@, old(results)@),
{
    match f {
        RevocationFinding::Embedded(s) => {
            record_embedded_ocsp_status(s, sig_url, results);
        },
        RevocationFinding::Online(s) => {
            record_online(s, sig_url, results);
        },
        RevocationFinding::Unknown => {
            results.push_informational(
                SIGNING_CREDENTIAL_OCSP_UNKNOWN,
                sig_url.to_owned(),
                "online OCSP response: signing certificate unknown to the responder".to_owned(),
            );
        },
        RevocationFinding::Inaccessible => {
            results.push_informational(
                SIGNING_CREDENTIAL_OCSP_INACCESSIBLE,
                sig_url.to_owned(),
                "no usable OCSP response could be obtained for the signing certificate".to_owned(),
            );
        },
        RevocationFinding::Skipped => {
            record_embedded_ocsp_status(EmbeddedOcspStatus::Skipped, sig_url, results);
        },
    }
    if outranked {
        results.push_informational(
            OCSP_CONFLICTING_REVOKED_RESPONSE,
            sig_url.to_owned(),
            "a revoked OCSP response was outranked by a qualifying good response".to_owned(),
        );
    }
}

// ---------------------------------------------------------------------------
// Needs
// ---------------------------------------------------------------------------

/// The check was skipped, or the responder was asked in vain.
pub open spec fn leaves_open(f: RevocationFinding) -> bool {
    f is Skipped || f is Inaccessible
}

/// The query for pair `p`, where its certificate publishes a responder and no
/// answer was verified.
pub open spec fn need_at(
    pool: CertificatePool,
    pairs: Seq<(usize, usize)>,
    online: OnlineFacts,
    p: int,
) -> Option<Need> {
    if answer_at(online.answers@, p) is Verified || p >= online.queries@.len() {
        None
    } else {
        match online.queries@[p] {
            None => None,
            Some(q) => {
                let digest = hash::digest_of(
                    HashAlgorithm::Sha256,
                    pool.certificates@[pairs[p].0 as int]@,
                );
                Some(
                    Need::Ocsp {
                        purpose: Purpose::ClaimSigner,
                        responder_url: q.responder_url@,
                        request_der: q.request_der@,
                        certificate_sha256_hex: output::hex_of(digest, digest.len()),
                    },
                )
            },
        }
    }
}

/// The needs of the first `k` pairs.
pub open spec fn needs_among(
    pool: CertificatePool,
    pairs: Seq<(usize, usize)>,
    online: OnlineFacts,
    k: int,
) -> Seq<Need>
    decreases k,
{
    if k <= 0 {
        Seq::empty()
    } else {
        let before = needs_among(pool, pairs, online, k - 1);
        match need_at(pool, pairs, online, k - 1) {
            Some(n) => network_needs::with_need(before, n),
            None => before,
        }
    }
}

/// The queries that would settle what a finding leaves open.
pub open spec fn revocation_needs(
    f: RevocationFinding,
    pool: CertificatePool,
    online: OnlineFacts,
) -> Seq<Need> {
    match ocsp::chain_pairs(pool) {
        Some(pairs) => if leaves_open(f) {
            needs_among(pool, pairs, online, pairs.len() as int)
        } else {
            Seq::empty()
        },
        None => Seq::empty(),
    }
}

/// Record the queries that would settle what a finding leaves open.
pub fn collect_needs(f: RevocationFinding, pool: &CertificatePool, online: &OnlineFacts) -> (r: Vec<
    NetworkNeed,
>)
    requires
        pool.wf(),
    ensures
        network_needs::need_views(r@) == revocation_needs(f, *pool, *online),
{
    let mut needs: Vec<NetworkNeed> = Vec::new();
    assert(network_needs::need_views(needs@) =~= Seq::empty());
    match f {
        RevocationFinding::Skipped | RevocationFinding::Inaccessible => {},
        _ => {
            return needs;
        },
    }
    let pairs = match ocsp_chain_pairs(pool) {
        Some(pairs) => pairs,
        None => {
            return needs;
        },
    };
    let mut p: usize = 0;
    while p < pairs.len()
        invariant
            p <= pairs.len(),
            pool.wf(),
            ocsp::chain_pairs(*pool) == Some(pairs@),
            network_needs::need_views(needs@) == needs_among(*pool, pairs@, *online, p as int),
        decreases pairs.len() - p,
    {
        let answered = match answer_of(&online.answers, p) {
            OnlineAnswer::Verified(_) => true,
            _ => false,
        };
        if !answered && p < online.queries.len() {
            if let Some(q) = &online.queries[p] {
                proof {
                    ocsp::pairs_name_certificates(*pool, p as int);
                }
                let subject = pairs[p].0;
                let digest = HashAlgorithm::Sha256.digest(pool.certificates[subject].as_slice());
                let need = NetworkNeed::Ocsp {
                    purpose: OcspPurpose::ClaimSigner,
                    responder_url: q.responder_url.as_str().to_owned(),
                    request_der: copy_bytes(&q.request_der),
                    certificate_sha256_hex: hex_string(digest.as_slice()),
                };
                push_unique(&mut needs, need);
            }
        }
        p += 1;
    }
    needs
}

// ---------------------------------------------------------------------------
// Laws
// ---------------------------------------------------------------------------

/// A query is recorded only where the check was skipped or the responder was
/// asked in vain, and never for a certificate that publishes no responder.
pub proof fn settled_revocation_needs_no_network(
    f: RevocationFinding,
    pool: CertificatePool,
    online: OnlineFacts,
)
    requires
        !leaves_open(f) || forall|p: int| 0 <= p < online.queries@.len() ==> #[trigger] online.queries@[p]
            is None,
    ensures
        revocation_needs(f, pool, online) == Seq::<Need>::empty(),
{
    if leaves_open(f) {
        if let Some(pairs) = ocsp::chain_pairs(pool) {
            lemma_no_queries(pool, pairs, online, pairs.len() as int);
        }
    }
}

proof fn lemma_no_queries(
    pool: CertificatePool,
    pairs: Seq<(usize, usize)>,
    online: OnlineFacts,
    k: int,
)
    requires
        forall|p: int| 0 <= p < online.queries@.len() ==> #[trigger] online.queries@[p] is None,
    ensures
        needs_among(pool, pairs, online, k) == Seq::<Need>::empty(),
    decreases k,
{
    if k > 0 {
        lemma_no_queries(pool, pairs, online, k - 1);
    }
}

/// Online evidence never overrides what the embedded evidence settled.
pub proof fn embedded_evidence_stands(
    embedded: EmbeddedOcspStatus,
    pool: CertificatePool,
    answers: Seq<OnlineAnswer>,
)
    requires
        !unsettled(embedded),
    ensures
        finding(embedded, pool, answers) == RevocationFinding::Embedded(embedded),
{
}

/// A responder that does not know the certificate, or does not answer, never
/// blocks trust.
pub proof fn open_revocation_never_blocks_trust(
    f: RevocationFinding,
    sig_url: Seq<char>,
    r: Results,
)
    requires
        f is Unknown || f is Inaccessible || f is Skipped,
    ensures
        !f.blocking(),
        after_revocation(f, false, sig_url, r).failure == r.failure,
        after_revocation(f, false, sig_url, r).success == r.success,
{
}

/// The answer for pair `p` is a verified response that says revoked.
pub open spec fn answered_revoked(answers: Seq<OnlineAnswer>, p: int) -> bool {
    0 <= p < answers.len() && (answers[p] matches OnlineAnswer::Verified(s) && s is Revoked)
}

/// Where the embedded evidence settled nothing, online evidence blocks trust
/// exactly where a verified answer says that a certificate of the chain is
/// revoked; it settles the check as not revoked exactly where the leaf's answer is
/// good and no certificate is revoked. An answer that was not verified settles
/// nothing.
pub proof fn online_answers_decide_what_is_open(
    embedded: EmbeddedOcspStatus,
    pool: CertificatePool,
    answers: Seq<OnlineAnswer>,
)
    requires
        embedded is NotChecked || embedded is Skipped,
        ocsp::chain_pairs(pool) is Some,
    ensures
        ({
            let f = finding(embedded, pool, answers);
            let n = ocsp::chain_pairs(pool)->0.len() as int;
            let revoked = exists|p: int| 0 <= p < n && #[trigger] answered_revoked(answers, p);
            let good = n > 0 && answers.len() > 0 && answers[0] == OnlineAnswer::Verified(
                OcspStatus::Good,
            );
            &&& f.blocking() == revoked
            &&& (f == RevocationFinding::Online(EmbeddedOcspStatus::NotRevoked)) == (good
                && !revoked)
            &&& !revoked && !good ==> f is Unknown || f is Inaccessible || f is Skipped
            &&& f is Unknown == (!revoked && !good && n > 0 && answers.len() > 0
                && answers[0] is Verified)
            &&& f is Skipped == (!revoked && !good && (n == 0 || answers.len() == 0
                || answers[0] is NotSupplied))
        }),
{
    let pairs = ocsp::chain_pairs(pool)->0;
    let n = pairs.len() as int;
    let statuses = Seq::new(pairs.len(), |p: int| online_status(answers, p));
    ocsp::chain_status_reports_each_certificate(statuses);
    assert forall|p: int| 0 <= p < n implies revocation::is_revoked(#[trigger] statuses[p])
        == answered_revoked(answers, p) by {}
    if exists|p: int| 0 <= p < n && #[trigger] answered_revoked(answers, p) {
        let p = choose|p: int| 0 <= p < n && #[trigger] answered_revoked(answers, p);
        assert(revocation::is_revoked(statuses[p]));
    }
    if ocsp::chain_status(statuses).blocking() {
        if n > 0 && revocation::is_revoked(statuses[0]) {
            assert(answered_revoked(answers, 0));
        } else {
            let i = choose|i: int|
                1 <= i < statuses.len() && revocation::is_revoked(#[trigger] statuses[i]);
            assert(answered_revoked(answers, i));
        }
    }
}

/// Whatever is known of revocation is recorded: a finding that blocks trust adds
/// a failure, one that is settled as not revoked adds a success, and an open one
/// an informational status.
pub proof fn findings_are_recorded(
    f: RevocationFinding,
    outranked: bool,
    url: Seq<char>,
    r: Results,
)
    ensures
        ({
            let after = after_revocation(f, outranked, url, r);
            let settled = f == RevocationFinding::Embedded(EmbeddedOcspStatus::NotRevoked) || f
                == RevocationFinding::Online(EmbeddedOcspStatus::NotRevoked);
            &&& (after.failure.len() > r.failure.len()) == f.blocking()
            &&& (after.success.len() > r.success.len()) == settled
            &&& f is Unknown ==> after.informed(SIGNING_CREDENTIAL_OCSP_UNKNOWN@)
            &&& f is Inaccessible ==> after.informed(SIGNING_CREDENTIAL_OCSP_INACCESSIBLE@)
            &&& f is Skipped ==> after.informed(SIGNING_CREDENTIAL_OCSP_SKIPPED@)
            &&& outranked ==> after.informed(OCSP_CONFLICTING_REVOKED_RESPONSE@)
        }),
{
    let after = after_revocation(f, outranked, url, r);
    let n = r.informational.len() as int;
    if f is Unknown {
        assert(after.informational[n].code == SIGNING_CREDENTIAL_OCSP_UNKNOWN@);
    }
    if f is Inaccessible {
        assert(after.informational[n].code == SIGNING_CREDENTIAL_OCSP_INACCESSIBLE@);
    }
    if f is Skipped {
        assert(after.informational[n].code == SIGNING_CREDENTIAL_OCSP_SKIPPED@);
    }
    if outranked {
        let last = after.informational.len() - 1;
        assert(after.informational[last].code == OCSP_CONFLICTING_REVOKED_RESPONSE@);
    }
}

proof fn lemma_need_kept(
    pool: CertificatePool,
    pairs: Seq<(usize, usize)>,
    online: OnlineFacts,
    k: int,
    p: int,
)
    requires
        0 <= p < k,
        k <= network_needs::MAX_NETWORK_NEEDS,
        need_at(pool, pairs, online, p) is Some,
    ensures
        needs_among(pool, pairs, online, k).contains(need_at(pool, pairs, online, p)->0),
        needs_among(pool, pairs, online, k).len() <= k,
    decreases k,
{
    let before = needs_among(pool, pairs, online, k - 1);
    lemma_few_needs(pool, pairs, online, k - 1);
    let need = need_at(pool, pairs, online, p)->0;
    if p < k - 1 {
        lemma_need_kept(pool, pairs, online, k - 1, p);
        let i = choose|i: int| 0 <= i < before.len() && before[i] == need;
        if let Some(n) = need_at(pool, pairs, online, k - 1) {
            assert(network_needs::with_need(before, n)[i] == need);
        }
    } else {
        network_needs::needs_are_recorded(before, need);
    }
}

proof fn lemma_few_needs(
    pool: CertificatePool,
    pairs: Seq<(usize, usize)>,
    online: OnlineFacts,
    k: int,
)
    requires
        0 <= k,
    ensures
        needs_among(pool, pairs, online, k).len() <= k,
    decreases k,
{
    if k > 0 {
        lemma_few_needs(pool, pairs, online, k - 1);
    }
}

/// Where revocation is left open, every certificate of the chain that publishes a
/// responder, and for which no answer was verified, has its query recorded, with
/// the responder, the request and the digest of that very certificate.
pub proof fn open_revocation_records_its_queries(
    f: RevocationFinding,
    pool: CertificatePool,
    online: OnlineFacts,
    p: int,
)
    requires
        f is Skipped || f is Inaccessible,
        ocsp::chain_pairs(pool) is Some,
        ocsp::chain_pairs(pool)->0.len() <= network_needs::MAX_NETWORK_NEEDS,
        0 <= p < ocsp::chain_pairs(pool)->0.len(),
        p < online.queries@.len(),
        online.queries@[p] is Some,
        p >= online.answers@.len() || !(online.answers@[p] is Verified),
    ensures
        ({
            let subject = pool.certificates@[ocsp::chain_pairs(pool)->0[p].0 as int]@;
            let digest = hash::sha256_of(subject);
            revocation_needs(f, pool, online).contains(
                Need::Ocsp {
                    purpose: Purpose::ClaimSigner,
                    responder_url: online.queries@[p]->0.responder_url@,
                    request_der: online.queries@[p]->0.request_der@,
                    certificate_sha256_hex: output::hex_of(digest, digest.len()),
                },
            )
        }),
{
    let pairs = ocsp::chain_pairs(pool)->0;
    assert(need_at(pool, pairs, online, p) is Some);
    lemma_need_kept(pool, pairs, online, pairs.len() as int, p);
}

} // verus!
