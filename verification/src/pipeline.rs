//! The verification of one manifest, from its claim to its report.
use vstd::prelude::*;
use vstd::string::StringExecFns;
use crate::binding;
use crate::binding::{
    verify_assertion_bindings, verify_data_hash, verify_prehashed_hard_binding, AssetFacts,
};
use crate::claim_refs;
use crate::claim_refs::{ClaimAssertionRefs, Refs};
use crate::compound;
use crate::compound::verify_compound_content;
use crate::credential;
use crate::credential::{
    is_usable, record_signature, record_timestamp, record_trust, CredentialFacts, TimestampFacts,
};
use crate::ingredient;
use crate::ingredient::{verify_ingredient_references, IngredientManifestDigestCache};
use crate::labels;
use crate::labels::claim_signature_uri_is_local;
use crate::manifest;
use crate::manifest::{AssetFormat, ParsedManifest, Payload, Recorded, StoreContext};
use crate::ocsp;
use crate::ocsp::{
    certificate_status_payloads, evaluate_embedded_ocsp, CertificatePool, EmbeddedOcspStatus,
};
use crate::online;
use crate::online::{
    collect_needs, record_revocation, settle_revocation, OnlineFacts, RevocationFinding,
};
use crate::output;
use crate::output::{
    attach_needs, finish, Output, SignatureInfo, VerifyOutput, VersionEvaluation, VersionVerdict,
};
use crate::profile;
use crate::profile::{is_generous, ComplianceLevel, EngineProfile, OperatingMode};
use crate::program;
use crate::program::apply_compliance_upgrades;
use crate::redaction;
use crate::redaction::verify_claim_redactions;
use crate::refs;
use crate::refs::verify_assertion_references;
use crate::revocation::OcspStatus;
use crate::status;
use crate::status::{
    Results, StatusCode, ValidationResults, CLAIM_CBOR_INVALID, CLAIM_MALFORMED, CLAIM_MISSING,
    CLAIM_SIGNATURE_MISSING, CONFORMANCE_SPEC_VERSION_NONCONFORMANT,
};
use crate::structure;
use crate::structure::verify_claim_structure;
use crate::text::{join3, join4, str_eq};
use crate::value;
use crate::value::Value;

verus! {

// ---------------------------------------------------------------------------
// Facts
// ---------------------------------------------------------------------------

/// Embedded revocation evidence: the responses stapled to the signature, and
/// what each response in scan order was verified to say of each pair of the
/// chain, at the given instants.
#[derive(Debug)]
pub struct OcspFacts {
    pub staples: Vec<Vec<u8>>,
    pub max_response_bytes: usize,
    pub verdicts: Vec<Vec<Option<OcspStatus>>>,
    pub signed_at: Option<i128>,
    pub verification_time: i128,
}

/// What validating the identity assertions came to, at the given instants.
#[derive(Debug)]
pub struct IdentityFacts {
    pub statuses: ValidationResults,
    pub judged_at: i128,
    pub claim_timestamp: Option<i128>,
}

/// What is known of one manifest beyond its bytes.
#[derive(Debug)]
pub struct ManifestFacts {
    /// The signing chain and the trust anchors.
    pub pool: CertificatePool,
    /// Why the signature carries no chain, where it does not.
    pub chain_error: Option<String>,
    pub timestamp: TimestampFacts,
    pub credential: CredentialFacts,
    pub ocsp: OcspFacts,
    pub online: OnlineFacts,
    pub identity: IdentityFacts,
    pub signer: Option<SignatureInfo>,
    pub asset: AssetFacts,
}

impl ManifestFacts {
    /// Every fact was established at the instant that the time-stamp and the
    /// caller's verification time call for.
    pub open spec fn timed(self, verification_time: i128) -> bool {
        let trusted = credential::trusted_time(self.timestamp);
        let at = credential::effective_time(self.timestamp, verification_time);
        &&& self.credential.judged_at == at
        &&& self.ocsp.signed_at == trusted
        &&& self.ocsp.verification_time == verification_time
        &&& self.online.verification_time == verification_time
        &&& self.identity.judged_at == at
        &&& self.identity.claim_timestamp == trusted
    }

    /// The signature carries a leaf certificate.
    pub open spec fn has_leaf(self) -> bool {
        self.pool.chain_len > 0
    }

    pub open spec fn leaf(self) -> Option<Seq<u8>> {
        if self.has_leaf() {
            Some(self.pool.certificates@[0]@)
        } else {
            None
        }
    }
}

/// One manifest under verification.
pub struct ManifestInput<'a> {
    pub manifest: &'a ParsedManifest,
    pub store: &'a StoreContext<'a>,
    pub data: &'a [u8],
    pub format: AssetFormat,
    /// A digest that the caller computed in place of the asset bytes.
    pub prehashed: Option<&'a [u8]>,
    pub engine: EngineProfile,
    /// The caller's verification time, in nanoseconds of the Unix epoch.
    pub verification_time: i128,
    pub facts: &'a ManifestFacts,
}

/// A manifest under verification as the contracts see it.
pub struct Subject {
    pub m: ParsedManifest,
    pub manifests: Seq<ParsedManifest>,
    pub hashes: Seq<Recorded>,
    pub data: Seq<u8>,
    pub format: AssetFormat,
    pub prehashed: Option<Seq<u8>>,
    pub engine: EngineProfile,
    pub facts: ManifestFacts,
}

impl<'a> View for ManifestInput<'a> {
    type V = Subject;

    open spec fn view(&self) -> Subject {
        Subject {
            m: *self.manifest,
            manifests: self.store.manifests@,
            hashes: manifest::recorded(self.store.manifest_hashes@),
            data: self.data@,
            format: self.format,
            prehashed: value::bytes_opt(self.prehashed),
            engine: self.engine,
            facts: *self.facts,
        }
    }
}

impl Subject {
    pub open spec fn sig_url(self) -> Seq<char> {
        "self#jumbf=/c2pa/"@ + self.m.label@ + "/c2pa.signature"@
    }

    /// The decoded claim.
    pub open spec fn claim(self) -> Option<Value> {
        match self.m.claim {
            Some(p) => p.value,
            None => None,
        }
    }

    /// The declarations of the claim.
    pub open spec fn refs(self, claim: Value) -> Refs {
        claim_refs::refs_of(self.m, claim, self.m.generation)
    }

    /// The reported facts fit the manifest and its asset.
    pub open spec fn ready(self) -> bool {
        &&& self.facts.pool.wf()
        &&& self.claim() matches Some(claim) ==> binding::facts_ready(
            claim,
            self.refs(claim),
            self.data,
            self.format,
            self.facts.asset,
            self.m.label@,
        )
    }
}

// ---------------------------------------------------------------------------
// Structure
// ---------------------------------------------------------------------------

/// Texts joined by a separator.
pub open spec fn joined(parts: Seq<String>, k: nat, sep: Seq<char>) -> Seq<char>
    decreases k,
{
    if k == 0 {
        Seq::empty()
    } else if k == 1 {
        parts[0]@
    } else {
        joined(parts, (k - 1) as nat, sep) + sep + parts[k - 1]@
    }
}

fn join_texts(parts: &Vec<String>, sep: &str) -> (r: String)
    ensures
        r@ == joined(parts@, parts@.len(), sep@),
{
    let mut out = String::new();
    let mut i: usize = 0;
    while i < parts.len()
        invariant
            i <= parts.len(),
            out@ == joined(parts@, i as nat, sep@),
        decreases parts.len() - i,
    {
        if i > 0 {
            out.append(sep);
        }
        out.append(parts[i].as_str());
        assert(i == 0 ==> out@ =~= parts@[0]@);
        i += 1;
    }
    out
}

/// The position of the first evaluation at or behind `i` for `version`.
pub open spec fn evaluation_from(s: Seq<VersionEvaluation>, version: Seq<char>, i: int) -> Option<
    int,
>
    decreases s.len() - i,
{
    if i < 0 || i >= s.len() {
        None
    } else if s[i].version@ == version {
        Some(i)
    } else {
        evaluation_from(s, version, i + 1)
    }
}

/// The results with the target revision held to, in conformance analysis.
pub open spec fn after_version(
    version: VersionVerdict,
    p: EngineProfile,
    rv: Refs,
    sig_url: Seq<char>,
    r: Results,
) -> Results {
    if p.mode == OperatingMode::Conformance && rv.undeclared_labels.len() == 0 {
        match evaluation_from(version.evaluations@, p.spec_version_text(), 0) {
            Some(i) => {
                let e = version.evaluations@[i];
                let why = "manifest does not conform to target spec "@ + p.spec_version_text()
                    + ": "@ + joined(e.reasons@, e.reasons@.len(), "; "@);
                if e.structure_conformant {
                    r
                } else if p.compliance == ComplianceLevel::ConformanceProgram {
                    r.fail(CONFORMANCE_SPEC_VERSION_NONCONFORMANT@, sig_url, why)
                } else {
                    r.inform(CONFORMANCE_SPEC_VERSION_NONCONFORMANT@, sig_url, why)
                }
            },
            None => r,
        }
    } else {
        r
    }
}

fn find_evaluation(s: &Vec<VersionEvaluation>, version: &str) -> (r: Option<usize>)
    ensures
        match r {
            Some(i) => i < s@.len() && evaluation_from(s@, version@, 0) == Some(i as int),
            None => evaluation_from(s@, version@, 0) is None,
        },
{
    let mut i: usize = 0;
    while i < s.len()
        invariant
            i <= s.len(),
            evaluation_from(s@, version@, i as int) == evaluation_from(s@, version@, 0),
        decreases s.len() - i,
    {
        if str_eq(s[i].version.as_str(), version) {
            return Some(i);
        }
        i += 1;
    }
    None
}

fn check_version(
    version: &VersionVerdict,
    p: EngineProfile,
    refs: &ClaimAssertionRefs,
    sig_url: &str,
    results: &mut ValidationResults,
)
    ensures
        final(results)@ == after_version(*version, p, refs@, sig_url@, old(results)@),
{
    assert(refs@.undeclared_labels.len() == refs.undeclared_labels@.len());
    if p.mode != OperatingMode::Conformance || refs.undeclared_labels.len() > 0 {
        return;
    }
    let target = p.version_str();
    if let Some(i) = find_evaluation(&version.evaluations, target) {
        let e = &version.evaluations[i];
        if !e.structure_conformant {
            let reasons = join_texts(&e.reasons, "; ");
            let why = join4(
                "manifest does not conform to target spec ",
                target,
                ": ",
                reasons.as_str(),
            );
            match p.compliance {
                ComplianceLevel::ConformanceProgram => {
                    results.push_failure(
                        CONFORMANCE_SPEC_VERSION_NONCONFORMANT,
                        sig_url.to_owned(),
                        why,
                    );
                },
                ComplianceLevel::CoreSpec => {
                    results.push_informational(
                        CONFORMANCE_SPEC_VERSION_NONCONFORMANT,
                        sig_url.to_owned(),
                        why,
                    );
                },
            }
        }
    }
}

/// The store-wide certificate-status evidence exceeds the bounds.
pub open spec fn evidence_excess(s: Subject) -> bool {
    ocsp::evidence_rejected(ocsp::store_payloads(s.manifests, s.manifests.len() as int))
}

/// The claim has no fatal structural defect.
pub open spec fn structure_sound(s: Subject, claim: Value) -> bool {
    !structure::fatal_structure(
        s.m,
        s.manifests,
        claim,
        s.m.generation,
        s.refs(claim),
        s.format,
    ) && !evidence_excess(s)
}

/// The results of the structural checks.
pub open spec fn structural_results(s: Subject, claim: Value, version: VersionVerdict) -> Results {
    let rv = s.refs(claim);
    let a = after_version(version, s.engine, rv, s.sig_url(), Results::empty());
    let b = structure::after_structure(
        s.m,
        s.manifests,
        claim,
        s.m.generation,
        rv,
        s.format,
        s.sig_url(),
        a,
    );
    let c = if evidence_excess(s) {
        b.fail(
            CLAIM_MALFORMED@,
            s.sig_url(),
            "store-wide certificate-status evidence exceeds verifier bounds"@,
        )
    } else {
        b
    };
    let d = redaction::redaction_outcome(s.m.label@, claim, s.manifests, c);
    refs::nested_outcome(claim, rv, s.m.generation, s.engine, s.m.label@, s.manifests, d)
}

/// The structural checks of a claim; false where a defect is fatal.
fn check_structure(
    input: &ManifestInput,
    claim: &Value,
    claim_refs: &ClaimAssertionRefs,
    version: &VersionVerdict,
    evidence_rejected: bool,
    sig_url: &str,
    results: &mut ValidationResults,
) -> (ok: bool)
    requires
        claim_refs@ == input@.refs(*claim),
        sig_url@ == input@.sig_url(),
        evidence_rejected == evidence_excess(input@),
        old(results)@ == Results::empty(),
    ensures
        ok == structure_sound(input@, *claim),
        final(results)@ == structural_results(input@, *claim, *version),
{
    let m = input.manifest;
    check_version(version, input.engine, claim_refs, sig_url, results);
    let fatal = verify_claim_structure(
        m,
        input.store,
        claim,
        m.generation,
        claim_refs,
        input.format,
        sig_url,
        results,
    );
    if evidence_rejected {
        results.push_failure(
            CLAIM_MALFORMED,
            sig_url.to_owned(),
            "store-wide certificate-status evidence exceeds verifier bounds".to_owned(),
        );
    }
    verify_claim_redactions(m.label.as_str(), claim, input.store.manifests, results);
    verify_assertion_references(
        claim,
        claim_refs,
        m.generation,
        input.engine,
        m.label.as_str(),
        input.store.manifests,
        results,
    );
    !fatal && !evidence_rejected
}

// ---------------------------------------------------------------------------
// Bindings
// ---------------------------------------------------------------------------

/// Two sets of results, one behind the other.
pub open spec fn both(a: Results, b: Results) -> Results {
    Results {
        success: a.success + b.success,
        informational: a.informational + b.informational,
        failure: a.failure + b.failure,
    }
}

/// The results of the checks that build on a usable signature.
pub open spec fn bound_results(s: Subject, claim: Value, r: Results) -> Results {
    let rv = s.refs(claim);
    let a = binding::after_assertion_bindings(
        rv,
        rv.references.len() as int,
        claim,
        s.m.generation,
        s.m.label@,
        r,
    );
    let b = ingredient::after_ingredients(
        rv,
        rv.references.len() as int,
        claim,
        s.manifests,
        s.hashes,
        s.sig_url(),
        a,
    );
    let c = match s.prehashed {
        Some(digest) => binding::prehashed_outcome(claim, rv, digest, s.m.label@, b).1,
        None => binding::data_hash_outcome(
            claim,
            rv,
            s.data,
            s.format,
            s.facts.asset,
            s.m.label@,
            b,
        ).1,
    };
    let d = if s.format == AssetFormat::C2paStore {
        compound::compound_outcome(rv, s.m.label@, s.hashes, c)
    } else {
        c
    };
    if d.failure.len() == 0 {
        both(d, s.facts.identity.statuses@)
    } else {
        d
    }
}

fn copy_status(s: &StatusCode) -> (r: StatusCode)
    ensures
        r@ == s@,
{
    let details = match &s.details {
        Some(d) => Some(d.copy()),
        None => None,
    };
    StatusCode {
        code: s.code.as_str().to_owned(),
        url: s.url.as_str().to_owned(),
        explanation: s.explanation.as_str().to_owned(),
        details,
    }
}

fn append_bucket(out: &mut Vec<StatusCode>, more: &Vec<StatusCode>)
    ensures
        status::statuses(final(out)@) == status::statuses(old(out)@) + status::statuses(more@),
{
    let ghost start = status::statuses(out@);
    let ghost all = status::statuses(more@);
    let mut i: usize = 0;
    assert(start + all.take(0) =~= start);
    while i < more.len()
        invariant
            i <= more.len(),
            all == status::statuses(more@),
            status::statuses(out@) == start + all.take(i as int),
        decreases more.len() - i,
    {
        let c = copy_status(&more[i]);
        let ghost before = out@;
        out.push(c);
        assert(status::statuses(out@) =~= status::statuses(before).push(c@));
        assert(start + all.take(i + 1) =~= (start + all.take(i as int)).push(all[i as int]));
        i += 1;
    }
    assert(all.take(i as int) =~= all);
}

fn append_results(out: &mut ValidationResults, more: &ValidationResults)
    ensures
        final(out)@ == both(old(out)@, more@),
{
    append_bucket(&mut out.success, &more.success);
    append_bucket(&mut out.informational, &more.informational);
    append_bucket(&mut out.failure, &more.failure);
}

/// The checks that build on a usable signature. Identity assertions count only
/// where nothing failed: a valid identity inside an invalid manifest must never
/// be reported as trusted.
fn check_bindings(
    input: &ManifestInput,
    claim: &Value,
    claim_refs: &mut ClaimAssertionRefs,
    sig_url: &str,
    results: &mut ValidationResults,
)
    requires
        old(claim_refs)@ == input@.refs(*claim),
        old(claim_refs).wf(),
        sig_url@ == input@.sig_url(),
        input@.claim() == Some(*claim),
        input@.ready(),
    ensures
        final(claim_refs)@ == old(claim_refs)@,
        final(claim_refs).wf(),
        final(results)@ == bound_results(input@, *claim, old(results)@),
{
    let m = input.manifest;
    let label = m.label.as_str();
    verify_assertion_bindings(claim, claim_refs, m.generation, label, results);
    let mut cache = IngredientManifestDigestCache::new(input.store);
    verify_ingredient_references(claim_refs, claim, &mut cache, sig_url, results);
    match input.prehashed {
        Some(digest) => {
            let _binding = verify_prehashed_hard_binding(claim, claim_refs, digest, label, results);
        },
        None => {
            let _binding = verify_data_hash(
                claim,
                claim_refs,
                input.data,
                input.format,
                &input.facts.asset,
                label,
                results,
            );
        },
    }
    if input.format == AssetFormat::C2paStore {
        verify_compound_content(claim_refs, label, input.store.manifest_hashes, results);
    }
    assert(results@.failure.len() == results.failure@.len());
    if results.failure.len() == 0 {
        append_results(results, &input.facts.identity.statuses);
    }
}

// ---------------------------------------------------------------------------
// One manifest
// ---------------------------------------------------------------------------

/// The claim names the signature box of its own manifest.
pub open spec fn names_own_signature(claim: Value, label: Seq<char>) -> bool {
    match claim.text_field("signature"@) {
        Some(uri) => labels::signature_uri_is_local(uri, label),
        None => false,
    }
}

/// What the embedded evidence says of the signing chain, and whether a good
/// response outranked a revoked one, as conformance analysis lets it.
pub open spec fn embedded_revocation(s: Subject) -> (EmbeddedOcspStatus, bool) {
    let all = ocsp::store_payloads(s.manifests, s.manifests.len() as int);
    ocsp::embedded_status(
        s.facts.ocsp.staples@,
        if evidence_excess(s) {
            Seq::empty()
        } else {
            ocsp::decodable(all, all.len() as int)
        },
        s.facts.ocsp.max_response_bytes,
        s.facts.pool,
        s.facts.ocsp.verdicts@,
        s.engine.mode == OperatingMode::Conformance,
    )
}

/// What is known of the revocation of the signing chain.
pub open spec fn revocation_finding(s: Subject) -> RevocationFinding {
    online::finding(embedded_revocation(s).0, s.facts.pool, s.facts.online.answers@)
}

/// The results for a manifest with a claim and a signature of its own.
pub open spec fn signed_results(s: Subject, claim: Value, version: VersionVerdict) -> Results {
    let structured = structural_results(s, claim, version);
    let sound = structure_sound(s, claim);
    let generous = profile::generous(s.engine);
    let stamped = credential::timestamp_outcome(s.facts.timestamp, s.sig_url(), structured).1;
    let signed = credential::after_signature(
        s.facts.has_leaf(),
        s.facts.chain_error,
        s.facts.credential,
        sound,
        generous,
        s.sig_url(),
        stamped,
    );
    let bound = if credential::usable(s.facts.has_leaf(), s.facts.credential, sound, generous) {
        bound_results(s, claim, signed)
    } else {
        signed
    };
    let revocation = revocation_finding(s);
    let checked = online::after_revocation(
        revocation,
        embedded_revocation(s).1,
        s.sig_url(),
        bound,
    );
    let trusted = credential::after_trust(
        s.facts.leaf(),
        s.facts.credential,
        sound,
        revocation.blocking(),
        s.sig_url(),
        checked,
    );
    program::program_upgraded(trusted, s.engine.compliance, s.sig_url())
}

/// The output for one manifest.
pub open spec fn manifest_output(s: Subject, version: VersionVerdict, left: nat) -> Output {
    match s.m.claim {
        None => output::finished(
            s.m.label@,
            s.m,
            None,
            None,
            None,
            Results::empty().fail(CLAIM_MISSING@, s.sig_url(), "no claim found in manifest"@),
            None,
            s.engine,
            left,
        ),
        Some(p) => match p.value {
            None => output::finished(
                s.m.label@,
                s.m,
                None,
                None,
                None,
                Results::empty().fail(
                    CLAIM_CBOR_INVALID@,
                    s.sig_url(),
                    "claim CBOR could not be decoded"@,
                ),
                None,
                s.engine,
                left,
            ),
            Some(claim) => {
                let declared = Some(s.refs(claim).declared_labels);
                let structured = structural_results(s, claim, version);
                if s.m.signature_cose is None {
                    output::finished(
                        s.m.label@,
                        s.m,
                        Some(claim),
                        declared,
                        None,
                        structured.fail(
                            CLAIM_SIGNATURE_MISSING@,
                            s.sig_url(),
                            "no claim signature present"@,
                        ),
                        Some(version),
                        s.engine,
                        left,
                    )
                } else if !names_own_signature(claim, s.m.label@) {
                    output::finished(
                        s.m.label@,
                        s.m,
                        Some(claim),
                        declared,
                        None,
                        structured.fail(
                            CLAIM_SIGNATURE_MISSING@,
                            s.sig_url(),
                            "claim signature reference does not resolve to c2pa.signature"@,
                        ),
                        Some(version),
                        s.engine,
                        left,
                    )
                } else {
                    output::with_needs(
                        output::finished(
                            s.m.label@,
                            s.m,
                            Some(claim),
                            declared,
                            if s.facts.has_leaf() {
                                s.facts.signer
                            } else {
                                None
                            },
                            signed_results(s, claim, version),
                            Some(version),
                            s.engine,
                            left,
                        ),
                        online::revocation_needs(
                            revocation_finding(s),
                            s.facts.pool,
                            s.facts.online,
                        ),
                    )
                }
            },
        },
    }
}

/// What is left of the report allowance after one manifest.
pub open spec fn manifest_left(s: Subject, left: nat) -> nat {
    output::left_after_entry(
        s.m,
        match s.claim() {
            Some(claim) => Some(s.refs(claim).declared_labels),
            None => None,
        },
        left,
    )
}

fn check_signed(
    input: &ManifestInput,
    claim: &Value,
    claim_refs: &mut ClaimAssertionRefs,
    evidence: &Vec<&Payload>,
    sound: bool,
    sig_url: &str,
    Ghost(version): Ghost<VersionVerdict>,
    results: &mut ValidationResults,
) -> (r: RevocationFinding)
    requires
        old(claim_refs)@ == input@.refs(*claim),
        old(claim_refs).wf(),
        sig_url@ == input@.sig_url(),
        input@.claim() == Some(*claim),
        input@.ready(),
        sound == structure_sound(input@, *claim),
        old(results)@ == structural_results(input@, *claim, version),
        ({
            let all = ocsp::store_payloads(
                input@.manifests,
                input@.manifests.len() as int,
            );
            ocsp::payload_targets(evidence@) == if evidence_excess(input@) {
                Seq::empty()
            } else {
                ocsp::decodable(all, all.len() as int)
            }
        }),
    ensures
        final(claim_refs)@ == old(claim_refs)@,
        final(claim_refs).wf(),
        final(results)@ == signed_results(input@, *claim, version),
        r == revocation_finding(input@),
{
    let facts = input.facts;
    let generous = is_generous(input.engine);
    let has_leaf = facts.pool.chain_len > 0;
    let leaf: Option<&[u8]> = if has_leaf {
        Some(facts.pool.certificates[0].as_slice())
    } else {
        None
    };
    let _trusted_time = record_timestamp(&facts.timestamp, sig_url, results);
    record_signature(
        has_leaf,
        &facts.chain_error,
        &facts.credential,
        sound,
        generous,
        sig_url,
        results,
    );
    if is_usable(has_leaf, &facts.credential, sound, generous) {
        check_bindings(input, claim, claim_refs, sig_url, results);
    }
    let (embedded, outranked) = evaluate_embedded_ocsp(
        facts.ocsp.staples.as_slice(),
        evidence,
        facts.ocsp.max_response_bytes,
        &facts.pool,
        facts.ocsp.verdicts.as_slice(),
        input.engine.mode == OperatingMode::Conformance,
    );
    let revocation = settle_revocation(embedded, &facts.pool, &facts.online.answers);
    record_revocation(revocation, outranked, sig_url, results);
    record_trust(
        leaf,
        &facts.credential,
        sound,
        revocation.blocks_trust(),
        sig_url,
        results,
    );
    apply_compliance_upgrades(results, input.engine.compliance, sig_url);
    revocation
}

/// Run the verification of one manifest and assemble its output.
///
/// The facts were established at the instant that the time-stamp and the
/// caller's verification time call for, and they fit the manifest and its
/// asset.
pub fn verify_manifest(
    input: &ManifestInput,
    version: VersionVerdict,
    report_decode_nodes: &mut usize,
) -> (r: VerifyOutput)
    requires
        input.facts.timed(input.verification_time),
        input@.ready(),
    ensures
        r@ == manifest_output(input@, version, *old(report_decode_nodes) as nat),
        *final(report_decode_nodes) == manifest_left(input@, *old(report_decode_nodes) as nat),
{
    let m = input.manifest;
    let label = m.label.as_str();
    let sig_url = join3("self#jumbf=/c2pa/", label, "/c2pa.signature");
    let mut results = ValidationResults::new();
    let payload = match &m.claim {
        Some(p) => p,
        None => {
            results.push_failure(
                CLAIM_MISSING,
                sig_url,
                "no claim found in manifest".to_owned(),
            );
            return finish(
                label,
                m,
                None,
                None,
                None,
                results,
                None,
                input.engine,
                report_decode_nodes,
            );
        },
    };
    let claim = match &payload.value {
        Some(claim) => claim,
        None => {
            results.push_failure(
                CLAIM_CBOR_INVALID,
                sig_url,
                "claim CBOR could not be decoded".to_owned(),
            );
            return finish(
                label,
                m,
                None,
                None,
                None,
                results,
                None,
                input.engine,
                report_decode_nodes,
            );
        },
    };
    let mut claim_refs = ClaimAssertionRefs::build(m, claim, m.generation);
    let evidence = certificate_status_payloads(input.store.manifests);
    let sound = check_structure(
        input,
        claim,
        &claim_refs,
        &version,
        evidence.rejected,
        sig_url.as_str(),
        &mut results,
    );
    if m.signature_cose.is_none() {
        results.push_failure(
            CLAIM_SIGNATURE_MISSING,
            sig_url,
            "no claim signature present".to_owned(),
        );
        return finish(
            label,
            m,
            Some(claim),
            Some(&claim_refs.declared_labels),
            None,
            results,
            Some(version),
            input.engine,
            report_decode_nodes,
        );
    }
    let own = match claim.get_text("signature") {
        Some(uri) => claim_signature_uri_is_local(uri, label),
        None => false,
    };
    if !own {
        results.push_failure(
            CLAIM_SIGNATURE_MISSING,
            sig_url,
            "claim signature reference does not resolve to c2pa.signature".to_owned(),
        );
        return finish(
            label,
            m,
            Some(claim),
            Some(&claim_refs.declared_labels),
            None,
            results,
            Some(version),
            input.engine,
            report_decode_nodes,
        );
    }
    let revocation = check_signed(
        input,
        claim,
        &mut claim_refs,
        &evidence.payloads,
        sound,
        sig_url.as_str(),
        Ghost(version),
        &mut results,
    );
    let signer: Option<&SignatureInfo> = if input.facts.pool.chain_len > 0 {
        match &input.facts.signer {
            Some(s) => Some(s),
            None => None,
        }
    } else {
        None
    };
    let mut out = finish(
        label,
        m,
        Some(claim),
        Some(&claim_refs.declared_labels),
        signer,
        results,
        Some(version),
        input.engine,
        report_decode_nodes,
    );
    attach_needs(&mut out, collect_needs(revocation, &input.facts.pool, &input.facts.online));
    out
}

// ---------------------------------------------------------------------------
// Laws
// ---------------------------------------------------------------------------


/// The target revision is held against a manifest in conformance analysis alone,
/// and only where every assertion is declared: there a manifest whose structure
/// does not conform is noted, as a failure under the conformance program and as an
/// observation under the core specification. Everywhere else nothing is recorded.
pub proof fn revisions_are_held_in_conformance_alone(
    version: VersionVerdict,
    p: EngineProfile,
    rv: Refs,
    url: Seq<char>,
    r: Results,
)
    ensures
        ({
            let after = after_version(version, p, rv, url, r);
            let at = evaluation_from(version.evaluations@, p.spec_version_text(), 0);
            let noted = p.mode == OperatingMode::Conformance && rv.undeclared_labels.len() == 0
                && at is Some && !version.evaluations@[at->0].structure_conformant;
            &&& !noted ==> after == r
            &&& noted && p.compliance == ComplianceLevel::ConformanceProgram ==> after.failed(
                CONFORMANCE_SPEC_VERSION_NONCONFORMANT@,
            ) && after.informational == r.informational
            &&& noted && p.compliance == ComplianceLevel::CoreSpec ==> after.informed(
                CONFORMANCE_SPEC_VERSION_NONCONFORMANT@,
            ) && after.failure == r.failure
            &&& after.success == r.success
        }),
{
    let after = after_version(version, p, rv, url, r);
    if after.failure != r.failure {
        assert(after.failure[r.failure.len() as int].code
            == CONFORMANCE_SPEC_VERSION_NONCONFORMANT@);
    }
    if after.informational != r.informational {
        assert(after.informational[r.informational.len() as int].code
            == CONFORMANCE_SPEC_VERSION_NONCONFORMANT@);
    }
    let at = evaluation_from(version.evaluations@, p.spec_version_text(), 0);
    if p.mode == OperatingMode::Conformance && rv.undeclared_labels.len() == 0 && at is Some
        && !version.evaluations@[at->0].structure_conformant {
        assert(after.failure.len() + after.informational.len() > r.failure.len()
            + r.informational.len());
    }
}


} // verus!
