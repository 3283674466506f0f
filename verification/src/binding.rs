//! Hashed-URI bindings of a claim and the hard binding to the asset.
use vstd::prelude::*;
use crate::bmff;
use crate::bmff::{BmffFacts, FragmentFacts};
use crate::bmff_merkle;
use crate::bmff_merkle::{verify_bmff_merkle_init, BmffMerkleInput};
use crate::boxes;
use crate::boxes::{verify_boxes_hash, Fault, SpanReport};
use crate::claim_refs;
use crate::claim_refs::{ClaimAssertionReference, ClaimAssertionRefs, Indexed, Reference, Refs};
use crate::collection;
use crate::collection::{verify_collection_hash, ZipFacts};
use crate::exclusions;
use crate::exclusions::{
    all_inside_carrier, bmff_exclusion_maps, parse_exclusions, MAX_DATA_HASH_EXCLUSIONS,
};
use crate::hash;
use crate::hash::{hash_bytes, hash_with_exclusions, HashAlgorithm};
use crate::labels;
use crate::labels::{
    is_supported_bmff_hash_label, is_supported_whole_asset_hash_label, resolved_hash_algorithm,
};
use crate::manifest::{AssetFormat, Payload};
use crate::multi_asset;
use crate::multi_asset::{verify_multi_asset, MultiAssetFacts};
use crate::profile::ClaimGeneration;
use crate::status;
use crate::status::{
    Results, Status, StatusCode, ValidationResults, ALGORITHM_UNSUPPORTED,
    ASSERTION_BMFF_HASH_MALFORMED, ASSERTION_BMFF_HASH_MATCH, ASSERTION_BMFF_HASH_MISMATCH,
    ASSERTION_BOXES_HASH_MATCH, ASSERTION_BOXES_HASH_MISMATCH, ASSERTION_COLLECTION_HASH_MATCH,
    ASSERTION_COLLECTION_HASH_MISMATCH, ASSERTION_DATA_HASH_MATCH, ASSERTION_DATA_HASH_MISMATCH,
    ASSERTION_HASHED_URI_MATCH, ASSERTION_HASHED_URI_MISMATCH, ASSERTION_MULTI_ASSET_HASH_MATCH,
    CLAIM_MALFORMED, HASHED_URI_MISSING,
};
use crate::structure;
use crate::structure::assertion_uri;
use crate::text;
use crate::text::{bytes_eq, decimal_string, join2, join3, join5, str_eq};
use crate::value;
use crate::value::Value;

verus! {

// ---------------------------------------------------------------------------
// Hashed-URI bindings
// ---------------------------------------------------------------------------

/// The assertion's JUMBF content has the digest `expected`.
pub open spec fn content_bound(
    a: Option<Indexed>,
    alg: Seq<char>,
    expected: Option<Seq<u8>>,
) -> bool {
    a is Some && a->0.jumbf is Some && expected is Some && hash::named_digest(alg, a->0.jumbf->0)
        == expected
}

/// The assertion's payload has the digest `expected`.
pub open spec fn payload_bound(
    a: Option<Indexed>,
    alg: Seq<char>,
    expected: Option<Seq<u8>>,
) -> bool {
    a is Some && a->0.payload is Some && expected is Some && hash::named_digest(
        alg,
        a->0.payload->0.bytes@,
    ) == expected
}

/// One reference of a claim, held to the store. A v1 reference may also bind
/// the payload instead of the JUMBF content.
pub open spec fn after_reference(
    reference: Reference,
    refs: Refs,
    claim: Value,
    generation: ClaimGeneration,
    manifest: Seq<char>,
    r: Results,
) -> Results {
    match reference.value.text_field("url"@) {
        None => r.fail(
            CLAIM_MALFORMED@,
            "self#jumbf=/c2pa/"@ + manifest + "/c2pa.claim"@,
            "claim assertion reference has no textual url"@,
        ),
        Some(url) => match reference.label {
            None => r.fail(
                HASHED_URI_MISSING@,
                url,
                "assertion reference does not resolve inside the current manifest"@,
            ),
            Some(label) => {
                let at = structure::assertion_url(manifest, label);
                let expected = reference.value.bytes_field("hash"@);
                match labels::algorithm_for(reference.value, claim) {
                    None => r.fail(
                        ALGORITHM_UNSUPPORTED@,
                        at,
                        "hashed-URI reference has no hash algorithm"@,
                    ),
                    Some(alg) => {
                        let a = refs.indexed(label);
                        if content_bound(a, alg, expected) || (generation == ClaimGeneration::V1
                            && payload_bound(a, alg, expected)) {
                            r.pass(
                                ASSERTION_HASHED_URI_MATCH@,
                                at,
                                "hashed uri matched: self#jumbf=c2pa.assertions/"@ + label,
                            )
                        } else if a is None || a->0.jumbf is None {
                            r.fail(
                                HASHED_URI_MISSING@,
                                at,
                                "referenced assertion '"@ + label + "' not found in manifest"@,
                            )
                        } else {
                            r.fail(
                                ASSERTION_HASHED_URI_MISMATCH@,
                                at,
                                "hashed uri mismatch: self#jumbf=c2pa.assertions/"@ + label,
                            )
                        }
                    },
                }
            },
        },
    }
}

/// The first `k` references of a claim, held to the store.
pub open spec fn after_assertion_bindings(
    refs: Refs,
    k: int,
    claim: Value,
    generation: ClaimGeneration,
    manifest: Seq<char>,
    r: Results,
) -> Results
    decreases k,
{
    if k <= 0 {
        r
    } else {
        after_reference(
            refs.references[k - 1],
            refs,
            claim,
            generation,
            manifest,
            after_assertion_bindings(refs, k - 1, claim, generation, manifest, r),
        )
    }
}

/// Whether the content at `at` has the digest `expected`, memoizing the digest.
fn content_has_digest(
    refs: &mut ClaimAssertionRefs,
    at: usize,
    alg: HashAlgorithm,
    expected: &[u8],
) -> (r: bool)
    requires
        old(refs).wf(),
        at < old(refs).assertions@.len(),
    ensures
        final(refs).wf(),
        final(refs)@ == old(refs)@,
        r == (old(refs).assertions@[at as int]@.jumbf matches Some(c) && hash::digest_of(alg, c)
            == expected@),
{
    let content = match refs.assertions[at].jumbf {
        Some(c) => c,
        None => {
            return false;
        },
    };
    let ghost before = refs.assertions@;
    assert(before[at as int].wf());
    let known = match alg {
        HashAlgorithm::Sha256 => refs.assertions[at].jumbf_digests.sha256.is_some(),
        HashAlgorithm::Sha384 => refs.assertions[at].jumbf_digests.sha384.is_some(),
        HashAlgorithm::Sha512 => refs.assertions[at].jumbf_digests.sha512.is_some(),
    };
    if !known {
        let digest = alg.digest(content);
        match alg {
            HashAlgorithm::Sha256 => {
                refs.assertions[at].jumbf_digests.sha256 = Some(digest);
            },
            HashAlgorithm::Sha384 => {
                refs.assertions[at].jumbf_digests.sha384 = Some(digest);
            },
            HashAlgorithm::Sha512 => {
                refs.assertions[at].jumbf_digests.sha512 = Some(digest);
            },
        }
        let ghost filled = refs.assertions@[at as int].jumbf_digests;
        let ghost slots = before[at as int].jumbf_digests;
        assert forall|a: HashAlgorithm| (#[trigger] filled.slot(a)) is Some implies filled.slot(
            a,
        )->0@ == hash::digest_of(a, content@) by {
            assert(slots.slot(a) is Some ==> slots.slot(a)->0@ == hash::digest_of(a, content@));
        }
        assert(refs.assertions@[at as int].wf());
        assert(claim_refs::indexed_views(refs.assertions@) =~= claim_refs::indexed_views(before));
        assert(refs@ =~= old(refs)@);
    }
    assert(refs.assertions@[at as int].wf());
    let ghost slots = refs.assertions@[at as int].jumbf_digests;
    assert(slots.slot(alg) is Some);
    assert(slots.slot(alg)->0@ == hash::digest_of(alg, content@));
    let slot = match alg {
        HashAlgorithm::Sha256 => &refs.assertions[at].jumbf_digests.sha256,
        HashAlgorithm::Sha384 => &refs.assertions[at].jumbf_digests.sha384,
        HashAlgorithm::Sha512 => &refs.assertions[at].jumbf_digests.sha512,
    };
    match slot {
        Some(d) => bytes_eq(d.as_slice(), expected),
        None => false,
    }
}

fn payload_has_digest(refs: &ClaimAssertionRefs, at: usize, alg: &str, expected: &[u8]) -> (r: bool)
    requires
        at < refs.assertions@.len(),
    ensures
        r == payload_bound(Some(refs.assertions@[at as int]@), alg@, Some(expected@)),
{
    match refs.assertions[at].payload {
        Some(p) => match hash_bytes(alg, p.bytes.as_slice()) {
            Some(d) => bytes_eq(d.as_slice(), expected),
            None => false,
        },
        None => false,
    }
}

fn check_reference(
    refs: &mut ClaimAssertionRefs,
    i: usize,
    claim: &Value,
    generation: ClaimGeneration,
    manifest: &str,
    results: &mut ValidationResults,
)
    requires
        old(refs).wf(),
        i < old(refs).references@.len(),
    ensures
        final(refs).wf(),
        final(refs)@ == old(refs)@,
        final(results)@ == after_reference(
            old(refs)@.references[i as int],
            old(refs)@,
            *claim,
            generation,
            manifest@,
            old(results)@,
        ),
{
    assert(refs@.references[i as int] == refs.references@[i as int]@);
    let v = refs.references[i].value;
    let label = refs.references[i].label;
    let url = match v.get_text("url") {
        Some(url) => url,
        None => {
            results.push_failure(
                CLAIM_MALFORMED,
                join3("self#jumbf=/c2pa/", manifest, "/c2pa.claim"),
                "claim assertion reference has no textual url".to_owned(),
            );
            return;
        },
    };
    let l = match label {
        Some(l) => l,
        None => {
            results.push_failure(
                HASHED_URI_MISSING,
                url.to_owned(),
                "assertion reference does not resolve inside the current manifest".to_owned(),
            );
            return;
        },
    };
    let at_url = assertion_uri(manifest, l);
    let alg = match resolved_hash_algorithm(v, claim) {
        Some(alg) => alg,
        None => {
            results.push_failure(
                ALGORITHM_UNSUPPORTED,
                at_url,
                "hashed-URI reference has no hash algorithm".to_owned(),
            );
            return;
        },
    };
    let expected = v.get_bytes("hash");
    let position = refs.position(l);
    let mut bound = false;
    let mut present = false;
    if let Some(at) = position {
        present = refs.assertions[at].jumbf.is_some();
        if let Some(e) = expected {
            if let Some(a) = HashAlgorithm::from_name(alg) {
                bound = content_has_digest(refs, at, a, e);
            }
            assert(refs@.assertions[at as int] == refs.assertions@[at as int]@);
            assert(old(refs)@.assertions[at as int] == old(refs).assertions@[at as int]@);
            if !bound && generation == ClaimGeneration::V1 {
                bound = payload_has_digest(refs, at, alg, e);
            }
        }
    }
    if bound {
        results.push_success(
            ASSERTION_HASHED_URI_MATCH,
            at_url,
            join2("hashed uri matched: self#jumbf=c2pa.assertions/", l),
        );
    } else if !present {
        results.push_failure(
            HASHED_URI_MISSING,
            at_url,
            join3("referenced assertion '", l, "' not found in manifest"),
        );
    } else {
        results.push_failure(
            ASSERTION_HASHED_URI_MISMATCH,
            at_url,
            join2("hashed uri mismatch: self#jumbf=c2pa.assertions/", l),
        );
    }
}

/// Recompute and compare each hashed-URI assertion binding of the claim.
pub fn verify_assertion_bindings(
    claim: &Value,
    refs: &mut ClaimAssertionRefs,
    generation: ClaimGeneration,
    manifest: &str,
    results: &mut ValidationResults,
)
    requires
        old(refs).wf(),
    ensures
        final(refs).wf(),
        final(refs)@ == old(refs)@,
        final(results)@ == after_assertion_bindings(
            old(refs)@,
            old(refs)@.references.len() as int,
            *claim,
            generation,
            manifest@,
            old(results)@,
        ),
{
    let n = refs.references.len();
    let ghost rv = refs@;
    assert(rv.references.len() == n);
    let mut i: usize = 0;
    while i < n
        invariant
            i <= n,
            rv == old(refs)@,
            refs@ == rv,
            refs.wf(),
            rv.references.len() == n,
            results@ == after_assertion_bindings(
                rv,
                i as int,
                *claim,
                generation,
                manifest@,
                old(results)@,
            ),
        decreases n - i,
    {
        assert(refs@.references.len() == refs.references@.len());
        check_reference(refs, i, claim, generation, manifest, results);
        i += 1;
    }
}

// ---------------------------------------------------------------------------
// Operative bindings
// ---------------------------------------------------------------------------

/// The binding that ties a claim to its asset.
#[derive(Clone, Copy)]
pub enum OperativeBinding<'i, 'a> {
    Primary(&'i ClaimAssertionReference<'a>),
    MultiAsset(&'i ClaimAssertionReference<'a>),
}

/// An operative binding as the contracts see it.
pub enum Operative {
    Primary(Reference),
    MultiAsset(Reference),
}

pub open spec fn operative_view(o: Option<OperativeBinding>) -> Option<Operative> {
    match o {
        Some(OperativeBinding::Primary(r)) => Some(Operative::Primary(r@)),
        Some(OperativeBinding::MultiAsset(r)) => Some(Operative::MultiAsset(r@)),
        None => None,
    }
}

impl<'i, 'a> OperativeBinding<'i, 'a> {
    /// The claim reference of the binding.
    pub fn reference(self) -> (r: &'i ClaimAssertionReference<'a>)
        ensures
            self matches OperativeBinding::Primary(x) ==> r == x,
            self matches OperativeBinding::MultiAsset(x) ==> r == x,
    {
        match self {
            OperativeBinding::Primary(r) => r,
            OperativeBinding::MultiAsset(r) => r,
        }
    }
}

/// A referenced assertion was altered or is missing, so no positive hard
/// binding may be reported.
pub open spec fn compromised(r: Results) -> bool {
    r.failed(ASSERTION_HASHED_URI_MISMATCH@) || r.failed(HASHED_URI_MISSING@)
}

pub open spec fn match_code(label: Seq<char>) -> Seq<char> {
    if labels::bmff_hash_label(label) {
        ASSERTION_BMFF_HASH_MATCH@
    } else {
        ASSERTION_DATA_HASH_MATCH@
    }
}

pub open spec fn mismatch_code(label: Seq<char>) -> Seq<char> {
    if labels::bmff_hash_label(label) {
        ASSERTION_BMFF_HASH_MISMATCH@
    } else {
        ASSERTION_DATA_HASH_MISMATCH@
    }
}

// ---------------------------------------------------------------------------
// Caller-computed digests
// ---------------------------------------------------------------------------

/// What a caller-computed digest comes to for the primary binding `label`.
pub open spec fn prehashed_step(
    binding: Reference,
    label: Seq<char>,
    claim: Value,
    refs: Refs,
    digest: Seq<u8>,
    manifest: Seq<char>,
    r: Results,
) -> (Option<Operative>, Results) {
    let url = structure::assertion_url(manifest, label);
    if !labels::whole_asset_label(label) {
        (
            None,
            r.fail(
                ASSERTION_DATA_HASH_MISMATCH@,
                url,
                "detached verification requires a data or BMFF hard binding"@,
            ),
        )
    } else {
        match refs.decoded(label) {
            None => (
                None,
                r.fail(mismatch_code(label), url, "hard-binding assertion CBOR invalid"@),
            ),
            Some(assertion) => match labels::algorithm_for(assertion, claim) {
                None => (
                    None,
                    r.fail(
                        ALGORITHM_UNSUPPORTED@,
                        url,
                        "hard-binding assertion has no hash algorithm"@,
                    ),
                ),
                Some(alg) => if hash::algorithm_named(alg) is None {
                    (
                        None,
                        r.fail(
                            ALGORITHM_UNSUPPORTED@,
                            url,
                            "hard-binding assertion uses unsupported hash algorithm '"@ + alg
                                + "'"@,
                        ),
                    )
                } else if alg != "sha256"@ || assertion.field("merkle"@) is Some || digest.len()
                    != 32 {
                    (
                        None,
                        r.fail(
                            mismatch_code(label),
                            url,
                            "detached verification supports one non-merkle SHA-256 hard binding; multi-asset parts are unavailable on this entry point"@,
                        ),
                    )
                } else if assertion.bytes_field("hash"@) != Some(digest) {
                    (None, r.fail(mismatch_code(label), url, "hard-binding digest mismatch"@))
                } else if compromised(r) {
                    (None, r)
                } else {
                    (
                        Some(Operative::Primary(binding)),
                        r.pass(
                            match_code(label),
                            url,
                            "caller-computed hard-binding digest valid"@,
                        ),
                    )
                },
            },
        }
    }
}

/// What a caller-computed digest comes to.
pub open spec fn prehashed_outcome(
    claim: Value,
    refs: Refs,
    digest: Seq<u8>,
    manifest: Seq<char>,
    r: Results,
) -> (Option<Operative>, Results) {
    match refs.primary(false) {
        None => (
            None,
            r.fail(
                ASSERTION_DATA_HASH_MISMATCH@,
                "self#jumbf=/c2pa/"@ + manifest + "/c2pa.assertions"@,
                "detached verification requires exactly one supported hard binding"@,
            ),
        ),
        Some(binding) => match binding.label {
            None => (None, r),
            Some(label) => prehashed_step(binding, label, claim, refs, digest, manifest, r),
        },
    }
}

fn match_code_of(label: &str) -> (r: &'static str)
    ensures
        r@ == match_code(label@),
{
    if is_supported_bmff_hash_label(label) {
        ASSERTION_BMFF_HASH_MATCH
    } else {
        ASSERTION_DATA_HASH_MATCH
    }
}

fn mismatch_code_of(label: &str) -> (r: &'static str)
    ensures
        r@ == mismatch_code(label@),
{
    if is_supported_bmff_hash_label(label) {
        ASSERTION_BMFF_HASH_MISMATCH
    } else {
        ASSERTION_DATA_HASH_MISMATCH
    }
}

fn is_compromised(results: &ValidationResults) -> (r: bool)
    ensures
        r == compromised(results@),
{
    results.has_failure(ASSERTION_HASHED_URI_MISMATCH) || results.has_failure(HASHED_URI_MISSING)
}

/// Confirm that a caller-computed digest is the one whole-asset SHA-256 binding
/// of the claim.
pub fn verify_prehashed_hard_binding<'i, 'a>(
    claim: &Value,
    refs: &'i ClaimAssertionRefs<'a>,
    digest: &[u8],
    manifest: &str,
    results: &mut ValidationResults,
) -> (r: Option<OperativeBinding<'i, 'a>>)
    ensures
        (operative_view(r), final(results)@) == prehashed_outcome(
            *claim,
            refs@,
            digest@,
            manifest@,
            old(results)@,
        ),
{
    let plan = refs.binding_plan(false);
    let binding = match plan.primary() {
        Some(binding) => binding,
        None => {
            results.push_failure(
                ASSERTION_DATA_HASH_MISMATCH,
                join3("self#jumbf=/c2pa/", manifest, "/c2pa.assertions"),
                "detached verification requires exactly one supported hard binding".to_owned(),
            );
            return None;
        },
    };
    let label = match binding.label {
        Some(label) => label,
        None => {
            return None;
        },
    };
    let url = assertion_uri(manifest, label);
    if !is_supported_whole_asset_hash_label(label) {
        results.push_failure(
            ASSERTION_DATA_HASH_MISMATCH,
            url,
            "detached verification requires a data or BMFF hard binding".to_owned(),
        );
        return None;
    }
    let assertion = match refs.decoded(label) {
        Some(v) => v,
        None => {
            results.push_failure(
                mismatch_code_of(label),
                url,
                "hard-binding assertion CBOR invalid".to_owned(),
            );
            return None;
        },
    };
    let alg = match resolved_hash_algorithm(assertion, claim) {
        Some(alg) => alg,
        None => {
            results.push_failure(
                ALGORITHM_UNSUPPORTED,
                url,
                "hard-binding assertion has no hash algorithm".to_owned(),
            );
            return None;
        },
    };
    if HashAlgorithm::from_name(alg).is_none() {
        results.push_failure(
            ALGORITHM_UNSUPPORTED,
            url,
            join3("hard-binding assertion uses unsupported hash algorithm '", alg, "'"),
        );
        return None;
    }
    if !str_eq(alg, "sha256") || assertion.get("merkle").is_some() || digest.len() != 32 {
        results.push_failure(
            mismatch_code_of(label),
            url,
            "detached verification supports one non-merkle SHA-256 hard binding; multi-asset parts are unavailable on this entry point".to_owned(),
        );
        return None;
    }
    let same = match assertion.get_bytes("hash") {
        Some(h) => bytes_eq(h, digest),
        None => false,
    };
    if !same {
        results.push_failure(
            mismatch_code_of(label),
            url,
            "hard-binding digest mismatch".to_owned(),
        );
        return None;
    }
    if is_compromised(results) {
        return None;
    }
    results.push_success(
        match_code_of(label),
        url,
        "caller-computed hard-binding digest valid".to_owned(),
    );
    Some(OperativeBinding::Primary(binding))
}

// ---------------------------------------------------------------------------
// The primary binding
// ---------------------------------------------------------------------------

/// What the container layer reports of an asset.
#[derive(Debug)]
pub struct AssetFacts {
    pub bmff: BmffFacts,
    pub fragments: Vec<FragmentFacts>,
    pub spans: SpanReport,
    pub zip: ZipFacts,
    /// The resolved manifest carriers, or why they could not be resolved.
    pub carriers: Result<Vec<(usize, usize)>, String>,
    pub multi_asset: MultiAssetFacts,
}

impl AssetFacts {
    /// Every reported span lies inside the asset.
    pub open spec fn wf(self, len: nat) -> bool {
        self.spans.wf(len) && self.zip.wf(len)
    }
}

/// The ranges that a data hash skips. Ranges that all lie in the one resolved
/// carrier stand for the whole carrier.
pub open spec fn effective_ranges(
    hash_data: Value,
    carriers: Result<Vec<(usize, usize)>, String>,
) -> Seq<(usize, usize)> {
    let ranges = exclusions::ranges_of(hash_data.field("exclusions"@));
    if ranges.len() > 0 && carriers is Ok && carriers->Ok_0@.len() == 1 {
        let c = carriers->Ok_0@[0];
        if c.0 + c.1 <= usize::MAX && !exclusions::reaches_outside(ranges, c.0, c.1) {
            seq![c]
        } else {
            ranges
        }
    } else {
        ranges
    }
}

/// The exclusion list of a data hash is over the cap: its length.
pub open spec fn over_cap(hash_data: Value) -> Option<nat> {
    match hash_data.items_field("exclusions"@) {
        Some(items) => if items.len() > MAX_DATA_HASH_EXCLUSIONS {
            Some(items.len())
        } else {
            None
        },
        None => None,
    }
}

/// A binding over a plain digest of the asset.
pub open spec fn digest_outcome(
    actual: Option<Seq<u8>>,
    expected: Seq<u8>,
    label: Seq<char>,
    url: Seq<char>,
    is_compromised: bool,
    r: Results,
) -> Results {
    if actual == Some(expected) {
        if is_compromised {
            r
        } else {
            r.pass(match_code(label), url, "asset hash valid"@)
        }
    } else {
        r.fail(mismatch_code(label), url, "asset hash mismatch"@)
    }
}

/// A `c2pa.hash.data` binding.
pub open spec fn data_binding(
    hash_data: Value,
    alg: Seq<char>,
    data: Seq<u8>,
    facts: AssetFacts,
    label: Seq<char>,
    url: Seq<char>,
    is_compromised: bool,
    r: Results,
) -> Results {
    match hash_data.bytes_field("hash"@) {
        None => r.fail(
            ASSERTION_DATA_HASH_MISMATCH@,
            url,
            "hard-binding assertion missing hash"@,
        ),
        Some(expected) => match over_cap(hash_data) {
            Some(n) => r.fail(
                mismatch_code(label),
                url,
                "exclusion list exceeds the verifier cap ("@ + text::decimal(n) + " > "@
                    + text::decimal(MAX_DATA_HASH_EXCLUSIONS as nat) + "); manifest rejected"@,
            ),
            None => digest_outcome(
                hash::named_digest(
                    alg,
                    hash::retained(data, effective_ranges(hash_data, facts.carriers)),
                ),
                expected,
                label,
                url,
                is_compromised,
                r,
            ),
        },
    }
}

/// A BMFF hash binding.
pub open spec fn bmff_binding(
    hash_data: Value,
    alg: Seq<char>,
    data: Seq<u8>,
    facts: AssetFacts,
    label: Seq<char>,
    url: Seq<char>,
    is_compromised: bool,
    r: Results,
) -> Results {
    let expected = hash_data.bytes_field("hash"@);
    match exclusions::exclusions_of(hash_data) {
        Err(why) => r.fail(ASSERTION_BMFF_HASH_MALFORMED@, url, why),
        Ok(_) => if hash_data.field("merkle"@) is None {
            match expected {
                None => r.fail(
                    ASSERTION_BMFF_HASH_MALFORMED@,
                    url,
                    "hard-binding assertion missing hash"@,
                ),
                Some(e) => digest_outcome(
                    match facts.bmff.structural.named(alg) {
                        Some(Ok(actual)) => Some(actual),
                        _ => None,
                    },
                    e,
                    label,
                    url,
                    is_compromised,
                    r,
                ),
            }
        } else {
            let top: Option<Fault> = match expected {
                None => None,
                Some(e) => match facts.bmff.structural.named(alg) {
                    Some(Ok(actual)) => if actual == e {
                        None
                    } else {
                        Some(
                            boxes::fault(
                                ASSERTION_BMFF_HASH_MISMATCH@,
                                "BMFF top-level hash mismatch"@,
                            ),
                        )
                    },
                    _ => Some(
                        boxes::fault(
                            ASSERTION_BMFF_HASH_MALFORMED@,
                            "BMFF top-level hash or exclusions are malformed"@,
                        ),
                    ),
                },
            };
            match top {
                Some(f) => r.fail(f.code, url, f.why),
                None => bmff_merkle::merkle_outcome(
                    hash_data,
                    alg,
                    data,
                    facts.bmff,
                    facts.fragments@,
                    url,
                    is_compromised,
                    r,
                ),
            }
        },
    }
}

/// A binding over the whole asset.
pub open spec fn whole_asset_binding(
    hash_data: Option<Value>,
    claim: Value,
    data: Seq<u8>,
    facts: AssetFacts,
    label: Seq<char>,
    manifest: Seq<char>,
    r: Results,
) -> Results {
    let url = structure::assertion_url(manifest, label);
    match hash_data {
        None => r.fail(mismatch_code(label), url, "hash assertion CBOR invalid"@),
        Some(h) => match labels::algorithm_for(h, claim) {
            None => r.fail(
                ALGORITHM_UNSUPPORTED@,
                url,
                "hard-binding assertion has no hash algorithm"@,
            ),
            Some(alg) => if hash::algorithm_named(alg) is None {
                r.fail(
                    ALGORITHM_UNSUPPORTED@,
                    url,
                    "hard-binding assertion uses unsupported hash algorithm '"@ + alg + "'"@,
                )
            } else if labels::bmff_hash_label(label) {
                bmff_binding(h, alg, data, facts, label, url, compromised(r), r)
            } else {
                data_binding(h, alg, data, facts, label, url, compromised(r), r)
            },
        },
    }
}

pub open spec fn payload_value(a: Indexed) -> Option<Value> {
    match a.payload {
        Some(p) => p.value,
        None => None,
    }
}

/// The outcome of the one primary binding.
pub open spec fn primary_outcome(
    claim: Value,
    refs: Refs,
    data: Seq<u8>,
    format: AssetFormat,
    facts: AssetFacts,
    manifest: Seq<char>,
    r: Results,
) -> Results {
    match refs.primary(format == AssetFormat::C2paStore) {
        None => r,
        Some(binding) => match binding.label {
            None => r,
            Some(label) => match refs.indexed(label) {
                None => r,
                Some(a) => if label == "c2pa.compound.content"@ {
                    r
                } else if label == "c2pa.hash.boxes"@ {
                    if a.payload is Some {
                        boxes::boxes_outcome(
                            payload_value(a),
                            claim,
                            facts.spans,
                            data,
                            compromised(r),
                            manifest,
                            r,
                        )
                    } else {
                        r
                    }
                } else if label == "c2pa.hash.collection.data"@ {
                    if a.payload is Some {
                        collection::collection_outcome(
                            payload_value(a),
                            data,
                            facts.zip,
                            compromised(r),
                            manifest,
                            r,
                        )
                    } else {
                        r
                    }
                } else if labels::whole_asset_label(label) {
                    whole_asset_binding(a.decoded, claim, data, facts, label, manifest, r)
                } else {
                    r
                },
            },
        },
    }
}

fn ranges_to_skip(hash_data: &Value, carriers: &Result<Vec<(usize, usize)>, String>) -> (r: Vec<
    (usize, usize),
>)
    ensures
        r@ == effective_ranges(*hash_data, *carriers),
{
    let ranges = parse_exclusions(hash_data.get("exclusions"));
    if ranges.len() > 0 {
        if let Ok(list) = carriers {
            if list.len() == 1 {
                let (start, length) = list[0];
                if start.checked_add(length).is_some() && all_inside_carrier(
                    ranges.as_slice(),
                    start,
                    length,
                ) {
                    let mut one: Vec<(usize, usize)> = Vec::new();
                    one.push((start, length));
                    assert(one@ =~= seq![list@[0]]);
                    return one;
                }
            }
        }
    }
    ranges
}

fn push_digest_outcome(
    actual: Option<&[u8]>,
    expected: &[u8],
    label: &str,
    url: String,
    binding_compromised: bool,
    results: &mut ValidationResults,
)
    ensures
        final(results)@ == digest_outcome(
            value::bytes_opt(actual),
            expected@,
            label@,
            url@,
            binding_compromised,
            old(results)@,
        ),
{
    let same = match actual {
        Some(a) => bytes_eq(a, expected),
        None => false,
    };
    if same {
        if !binding_compromised {
            results.push_success(match_code_of(label), url, "asset hash valid".to_owned());
        }
    } else {
        results.push_failure(mismatch_code_of(label), url, "asset hash mismatch".to_owned());
    }
}

fn check_data_binding(
    hash_data: &Value,
    alg: &str,
    data: &[u8],
    facts: &AssetFacts,
    label: &str,
    url: String,
    binding_compromised: bool,
    results: &mut ValidationResults,
)
    ensures
        final(results)@ == data_binding(
            *hash_data,
            alg@,
            data@,
            *facts,
            label@,
            url@,
            binding_compromised,
            old(results)@,
        ),
{
    let expected = match hash_data.get_bytes("hash") {
        Some(e) => e,
        None => {
            results.push_failure(
                ASSERTION_DATA_HASH_MISMATCH,
                url,
                "hard-binding assertion missing hash".to_owned(),
            );
            return;
        },
    };
    if let Some(items) = hash_data.get_items("exclusions") {
        if items.len() > MAX_DATA_HASH_EXCLUSIONS {
            let n = decimal_string(items.len() as u64);
            let cap = decimal_string(MAX_DATA_HASH_EXCLUSIONS as u64);
            results.push_failure(
                mismatch_code_of(label),
                url,
                join5(
                    "exclusion list exceeds the verifier cap (",
                    n.as_str(),
                    " > ",
                    cap.as_str(),
                    "); manifest rejected",
                ),
            );
            return;
        }
    }
    let ranges = ranges_to_skip(hash_data, &facts.carriers);
    let actual = hash_with_exclusions(alg, data, ranges.as_slice());
    let view: Option<&[u8]> = match &actual {
        Some(a) => Some(a.as_slice()),
        None => None,
    };
    push_digest_outcome(view, expected, label, url, binding_compromised, results);
}

fn structural_digest<'a>(facts: &'a BmffFacts, alg: &str) -> (r: Option<&'a [u8]>)
    ensures
        value::bytes_opt(r) == match facts.structural.named(alg@) {
            Some(Ok(actual)) => Some(actual),
            _ => None,
        },
{
    match HashAlgorithm::from_name(alg) {
        Some(a) => match facts.structural.get(a) {
            Ok(d) => Some(d),
            Err(_) => None,
        },
        None => None,
    }
}

fn check_bmff_binding(
    hash_data: &Value,
    alg: &str,
    data: &[u8],
    facts: &AssetFacts,
    label: &str,
    url: String,
    binding_compromised: bool,
    results: &mut ValidationResults,
)
    ensures
        final(results)@ == bmff_binding(
            *hash_data,
            alg@,
            data@,
            *facts,
            label@,
            url@,
            binding_compromised,
            old(results)@,
        ),
{
    if let Err(why) = bmff_exclusion_maps(hash_data) {
        results.push_failure(ASSERTION_BMFF_HASH_MALFORMED, url, why.to_owned());
        return;
    }
    let expected = hash_data.get_bytes("hash");
    if hash_data.get("merkle").is_none() {
        match expected {
            None => {
                results.push_failure(
                    ASSERTION_BMFF_HASH_MALFORMED,
                    url,
                    "hard-binding assertion missing hash".to_owned(),
                );
            },
            Some(e) => {
                push_digest_outcome(
                    structural_digest(&facts.bmff, alg),
                    e,
                    label,
                    url,
                    binding_compromised,
                    results,
                );
            },
        }
        return;
    }
    if let Some(e) = expected {
        match structural_digest(&facts.bmff, alg) {
            None => {
                results.push_failure(
                    ASSERTION_BMFF_HASH_MALFORMED,
                    url,
                    "BMFF top-level hash or exclusions are malformed".to_owned(),
                );
                return;
            },
            Some(actual) => {
                if !bytes_eq(actual, e) {
                    results.push_failure(
                        ASSERTION_BMFF_HASH_MISMATCH,
                        url,
                        "BMFF top-level hash mismatch".to_owned(),
                    );
                    return;
                }
            },
        }
    }
    verify_bmff_merkle_init(
        &BmffMerkleInput {
            hash_data,
            assertion_alg: alg,
            data,
            facts: &facts.bmff,
            fragments: facts.fragments.as_slice(),
            url: url.as_str(),
            binding_compromised,
        },
        results,
    );
}

fn check_whole_asset(
    hash_data: Option<&Value>,
    claim: &Value,
    data: &[u8],
    facts: &AssetFacts,
    label: &str,
    manifest: &str,
    results: &mut ValidationResults,
)
    ensures
        final(results)@ == whole_asset_binding(
            value::pointee(hash_data),
            *claim,
            data@,
            *facts,
            label@,
            manifest@,
            old(results)@,
        ),
{
    let url = assertion_uri(manifest, label);
    let binding_compromised = is_compromised(results);
    let h = match hash_data {
        Some(h) => h,
        None => {
            results.push_failure(
                mismatch_code_of(label),
                url,
                "hash assertion CBOR invalid".to_owned(),
            );
            return;
        },
    };
    let alg = match resolved_hash_algorithm(h, claim) {
        Some(alg) => alg,
        None => {
            results.push_failure(
                ALGORITHM_UNSUPPORTED,
                url,
                "hard-binding assertion has no hash algorithm".to_owned(),
            );
            return;
        },
    };
    if HashAlgorithm::from_name(alg).is_none() {
        results.push_failure(
            ALGORITHM_UNSUPPORTED,
            url,
            join3("hard-binding assertion uses unsupported hash algorithm '", alg, "'"),
        );
        return;
    }
    if is_supported_bmff_hash_label(label) {
        check_bmff_binding(h, alg, data, facts, label, url, binding_compromised, results);
    } else {
        check_data_binding(h, alg, data, facts, label, url, binding_compromised, results);
    }
}

/// Execute the claim's one primary hard binding against the asset.
///
/// An altered or missing assertion breaks the claim's own bindings while the
/// asset bytes can still hash correctly, so nothing positive is reported then.
pub fn verify_primary_hard_binding(
    claim: &Value,
    refs: &ClaimAssertionRefs,
    data: &[u8],
    format: AssetFormat,
    facts: &AssetFacts,
    manifest: &str,
    results: &mut ValidationResults,
)
    requires
        facts.wf(data@.len()),
    ensures
        final(results)@ == primary_outcome(
            *claim,
            refs@,
            data@,
            format,
            *facts,
            manifest@,
            old(results)@,
        ),
{
    let plan = refs.binding_plan(format == AssetFormat::C2paStore);
    let binding = match plan.primary() {
        Some(binding) => binding,
        None => {
            return;
        },
    };
    let label = match binding.label {
        Some(label) => label,
        None => {
            return;
        },
    };
    let a = match refs.indexed(label) {
        Some(a) => a,
        None => {
            return;
        },
    };
    if str_eq(label, "c2pa.compound.content") {
        return;
    }
    let binding_compromised = is_compromised(results);
    if str_eq(label, "c2pa.hash.boxes") {
        if let Some(p) = a.payload {
            let m: Option<&Value> = match &p.value {
                Some(v) => Some(v),
                None => None,
            };
            verify_boxes_hash(
                m,
                claim,
                &facts.spans,
                data,
                binding_compromised,
                manifest,
                results,
            );
        }
        return;
    }
    if str_eq(label, "c2pa.hash.collection.data") {
        if let Some(p) = a.payload {
            let m: Option<&Value> = match &p.value {
                Some(v) => Some(v),
                None => None,
            };
            verify_collection_hash(m, data, &facts.zip, binding_compromised, manifest, results);
        }
        return;
    }
    if is_supported_whole_asset_hash_label(label) {
        check_whole_asset(a.decoded, claim, data, facts, label, manifest, results);
    }
}

// ---------------------------------------------------------------------------
// The operative binding
// ---------------------------------------------------------------------------

/// `status` says that the asset bytes differ from what the binding `label`
/// commits to.
pub open spec fn standard_mismatch(label: Seq<char>, status: Status) -> bool {
    if label == "c2pa.hash.data"@ {
        status.code == ASSERTION_DATA_HASH_MISMATCH@ && status.explanation
            == "asset hash mismatch"@
    } else if label == "c2pa.hash.boxes"@ {
        status.code == ASSERTION_BOXES_HASH_MISMATCH@ && status.explanation
            != "box entry missing hash"@
    } else if label == "c2pa.hash.collection.data"@ {
        status.code == ASSERTION_COLLECTION_HASH_MISMATCH@
    } else {
        labels::bmff_hash_label(label) && status.code == ASSERTION_BMFF_HASH_MISMATCH@
    }
}

/// `status` says that the binding `label` holds.
pub open spec fn binding_match(label: Seq<char>, status: Status) -> bool {
    if label == "c2pa.hash.data"@ {
        status.code == ASSERTION_DATA_HASH_MATCH@
    } else if label == "c2pa.hash.boxes"@ {
        status.code == ASSERTION_BOXES_HASH_MATCH@
    } else if label == "c2pa.hash.collection.data"@ {
        status.code == ASSERTION_COLLECTION_HASH_MATCH@
    } else {
        labels::bmff_hash_label(label) && status.code == ASSERTION_BMFF_HASH_MATCH@
    }
}

/// Whether a failure is an ordinary byte mismatch of the primary binding.
pub fn is_standard_primary_mismatch(label: &str, status: &StatusCode) -> (r: bool)
    ensures
        r == standard_mismatch(label@, status@),
{
    let code = status.code.as_str();
    let why = status.explanation.as_str();
    if str_eq(label, "c2pa.hash.data") {
        str_eq(code, ASSERTION_DATA_HASH_MISMATCH) && str_eq(why, "asset hash mismatch")
    } else if str_eq(label, "c2pa.hash.boxes") {
        str_eq(code, ASSERTION_BOXES_HASH_MISMATCH) && !str_eq(why, "box entry missing hash")
    } else if str_eq(label, "c2pa.hash.collection.data") {
        str_eq(code, ASSERTION_COLLECTION_HASH_MISMATCH)
    } else {
        is_supported_bmff_hash_label(label) && str_eq(code, ASSERTION_BMFF_HASH_MISMATCH)
    }
}

/// Whether a success is the match of the primary binding.
pub fn is_primary_binding_match(label: &str, status: &StatusCode) -> (r: bool)
    ensures
        r == binding_match(label@, status@),
{
    let code = status.code.as_str();
    if str_eq(label, "c2pa.hash.data") {
        str_eq(code, ASSERTION_DATA_HASH_MATCH)
    } else if str_eq(label, "c2pa.hash.boxes") {
        str_eq(code, ASSERTION_BOXES_HASH_MATCH)
    } else if str_eq(label, "c2pa.hash.collection.data") {
        str_eq(code, ASSERTION_COLLECTION_HASH_MATCH)
    } else {
        is_supported_bmff_hash_label(label) && str_eq(code, ASSERTION_BMFF_HASH_MATCH)
    }
}

/// A success at or behind `from` is the match of the binding `label`.
pub open spec fn matched_since(s: Seq<Status>, from: nat, label: Seq<char>) -> bool {
    exists|i: int| from <= i < s.len() && binding_match(label, #[trigger] s[i])
}

/// Every failure at or behind `from` is an ordinary mismatch of `label`.
pub open spec fn only_mismatches_since(s: Seq<Status>, from: nat, label: Seq<char>) -> bool {
    forall|i: int| from <= i < s.len() ==> standard_mismatch(label, #[trigger] s[i])
}

/// A status at or behind `from` carries `code`.
pub open spec fn code_since(s: Seq<Status>, from: nat, code: Seq<char>) -> bool {
    exists|i: int| from <= i < s.len() && (#[trigger] s[i]).code == code
}

/// The first `n` statuses.
pub open spec fn first_statuses(s: Seq<Status>, n: nat) -> Seq<Status> {
    if n < s.len() {
        s.take(n as int)
    } else {
        s
    }
}

/// The payload of the claim's one multi-asset assertion.
pub open spec fn fallback_payload(refs: Refs) -> Option<Payload> {
    match refs.multi_asset() {
        Some(reference) => match reference.label {
            Some(label) => match refs.indexed(label) {
                Some(a) => a.payload,
                None => None,
            },
            None => None,
        },
        None => None,
    }
}

/// What the multi-asset fallback comes to, after a plain mismatch of the
/// primary binding was taken back from `r`.
pub open spec fn fallback_outcome(
    fallback: Reference,
    p: Payload,
    claim: Value,
    refs: Refs,
    data: Seq<u8>,
    format: AssetFormat,
    facts: AssetFacts,
    manifest: Seq<char>,
    is_compromised: bool,
    r: Results,
) -> (Option<Operative>, Results) {
    let after = multi_asset::multi_asset_outcome(
        p.value,
        claim,
        refs,
        data,
        format,
        manifest,
        facts.multi_asset,
        r,
    );
    if is_compromised {
        (
            None,
            Results { success: first_statuses(after.success, r.success.len()), ..after },
        )
    } else if after.failure.len() == r.failure.len() && code_since(
        after.success,
        r.success.len(),
        ASSERTION_MULTI_ASSET_HASH_MATCH@,
    ) {
        (Some(Operative::MultiAsset(fallback)), after)
    } else {
        (None, after)
    }
}

/// The operative binding of a claim and the results of finding it.
pub open spec fn data_hash_outcome(
    claim: Value,
    refs: Refs,
    data: Seq<u8>,
    format: AssetFormat,
    facts: AssetFacts,
    manifest: Seq<char>,
    r: Results,
) -> (Option<Operative>, Results) {
    match refs.primary(format == AssetFormat::C2paStore) {
        None => (None, r),
        Some(primary) => match primary.label {
            None => (None, r),
            Some(label) => if label == "c2pa.compound.content"@ {
                (None, r)
            } else {
                let after = primary_outcome(claim, refs, data, format, facts, manifest, r);
                let failed = after.failure.len() > r.failure.len();
                if !compromised(r) && !failed && matched_since(
                    after.success,
                    r.success.len(),
                    label,
                ) {
                    (Some(Operative::Primary(primary)), after)
                } else {
                    match (refs.multi_asset(), fallback_payload(refs)) {
                        (Some(fallback), Some(p)) => if failed && only_mismatches_since(
                            after.failure,
                            r.failure.len(),
                            label,
                        ) {
                            fallback_outcome(
                                fallback,
                                p,
                                claim,
                                refs,
                                data,
                                format,
                                facts,
                                manifest,
                                compromised(r),
                                Results {
                                    failure: after.failure.take(r.failure.len() as int),
                                    ..after
                                },
                            )
                        } else {
                            (None, after)
                        },
                        _ => (None, after),
                    }
                }
            },
        },
    }
}

/// The container layer's reports fit the asset and the parts that a multi-asset
/// assertion of the claim describes.
pub open spec fn facts_ready(
    claim: Value,
    refs: Refs,
    data: Seq<u8>,
    format: AssetFormat,
    facts: AssetFacts,
    manifest: Seq<char>,
) -> bool {
    &&& facts.wf(data.len())
    &&& fallback_payload(refs) matches Some(p) ==> (multi_asset::located(
        p.value,
        claim,
        refs,
        data,
        format,
        manifest,
        facts.multi_asset.locator_ranges,
    ) matches Ok(parts) ==> multi_asset::facts_fit(parts, facts.multi_asset.parts@))
}

fn any_match_since(bucket: &Vec<StatusCode>, from: usize, label: &str) -> (r: bool)
    ensures
        r == matched_since(status::statuses(bucket@), from as nat, label@),
{
    let ghost s = status::statuses(bucket@);
    let mut i: usize = from;
    while i < bucket.len()
        invariant
            from <= i,
            s == status::statuses(bucket@),
            forall|k: int| from <= k < i && k < s.len() ==> !binding_match(label@, #[trigger] s[k]),
        decreases bucket.len() - i,
    {
        if is_primary_binding_match(label, &bucket[i]) {
            assert(binding_match(label@, s[i as int]));
            return true;
        }
        i += 1;
    }
    false
}

fn all_mismatches_since(bucket: &Vec<StatusCode>, from: usize, label: &str) -> (r: bool)
    ensures
        r == only_mismatches_since(status::statuses(bucket@), from as nat, label@),
{
    let ghost s = status::statuses(bucket@);
    let mut i: usize = from;
    while i < bucket.len()
        invariant
            from <= i,
            s == status::statuses(bucket@),
            forall|k: int|
                from <= k < i && k < s.len() ==> standard_mismatch(label@, #[trigger] s[k]),
        decreases bucket.len() - i,
    {
        if !is_standard_primary_mismatch(label, &bucket[i]) {
            assert(!standard_mismatch(label@, s[i as int]));
            return false;
        }
        i += 1;
    }
    true
}

fn has_code_since(bucket: &Vec<StatusCode>, from: usize, code: &str) -> (r: bool)
    ensures
        r == code_since(status::statuses(bucket@), from as nat, code@),
{
    let ghost s = status::statuses(bucket@);
    let mut i: usize = from;
    while i < bucket.len()
        invariant
            from <= i,
            s == status::statuses(bucket@),
            forall|k: int| from <= k < i && k < s.len() ==> (#[trigger] s[k]).code != code@,
        decreases bucket.len() - i,
    {
        if str_eq(bucket[i].code.as_str(), code) {
            assert(s[i as int].code == code@);
            return true;
        }
        i += 1;
    }
    false
}

fn keep_first(bucket: &mut Vec<StatusCode>, n: usize)
    ensures
        status::statuses(final(bucket)@) == first_statuses(
            status::statuses(old(bucket)@),
            n as nat,
        ),
{
    if n < bucket.len() {
        bucket.truncate(n);
    }
    assert(status::statuses(bucket@) =~= first_statuses(status::statuses(old(bucket)@), n as nat));
}

pub(crate) fn fallback_payload_of<'a>(refs: &ClaimAssertionRefs<'a>) -> (r: Option<&'a Payload>)
    ensures
        payload_opt(r) == fallback_payload(refs@),
{
    let plan = refs.binding_plan(false);
    match plan.multi_asset() {
        Some(reference) => match reference.label {
            Some(label) => match refs.indexed(label) {
                Some(a) => a.payload,
                None => None,
            },
            None => None,
        },
        None => None,
    }
}

pub open spec fn payload_opt(p: Option<&Payload>) -> Option<Payload> {
    match p {
        Some(p) => Some(*p),
        None => None,
    }
}

fn run_fallback(
    p: &Payload,
    claim: &Value,
    refs: &ClaimAssertionRefs,
    data: &[u8],
    format: AssetFormat,
    facts: &AssetFacts,
    manifest: &str,
    binding_compromised: bool,
    results: &mut ValidationResults,
) -> (r: bool)
    requires
        facts_ready(*claim, refs@, data@, format, *facts, manifest@),
        fallback_payload(refs@) == Some(*p),
    ensures
        forall|fallback: Reference|
            #![auto]
            fallback_outcome(
                fallback,
                *p,
                *claim,
                refs@,
                data@,
                format,
                *facts,
                manifest@,
                binding_compromised,
                old(results)@,
            ) == (
                if r {
                    Some(Operative::MultiAsset(fallback))
                } else {
                    None
                },
                final(results)@,
            ),
{
    let failures = results.failure.len();
    let successes = results.success.len();
    let ma: Option<&Value> = match &p.value {
        Some(v) => Some(v),
        None => None,
    };
    verify_multi_asset(claim, refs, ma, data, format, manifest, &facts.multi_asset, results);
    let matched = results.failure.len() == failures && has_code_since(
        &results.success,
        successes,
        ASSERTION_MULTI_ASSET_HASH_MATCH,
    );
    if binding_compromised {
        keep_first(&mut results.success, successes);
        false
    } else {
        matched
    }
}

/// Execute the one primary binding first. A single multi-asset assertion is a
/// fallback, never a peer hard binding: it is evaluated only after an ordinary
/// byte mismatch. Structural, malformed, missing, and unsupported failures
/// remain attached to the primary and do not activate the fallback.
pub fn verify_data_hash<'i, 'a>(
    claim: &Value,
    refs: &'i ClaimAssertionRefs<'a>,
    data: &[u8],
    format: AssetFormat,
    facts: &AssetFacts,
    manifest: &str,
    results: &mut ValidationResults,
) -> (r: Option<OperativeBinding<'i, 'a>>)
    requires
        facts_ready(*claim, refs@, data@, format, *facts, manifest@),
    ensures
        (operative_view(r), final(results)@) == data_hash_outcome(
            *claim,
            refs@,
            data@,
            format,
            *facts,
            manifest@,
            old(results)@,
        ),
{
    let plan = refs.binding_plan(format == AssetFormat::C2paStore);
    let primary = match plan.primary() {
        Some(primary) => primary,
        None => {
            return None;
        },
    };
    let label = match primary.label {
        Some(label) => label,
        None => {
            return None;
        },
    };
    if str_eq(label, "c2pa.compound.content") {
        return None;
    }
    let binding_compromised = is_compromised(results);
    let failures = results.failure.len();
    let successes = results.success.len();
    verify_primary_hard_binding(claim, refs, data, format, facts, manifest, results);
    let failed = results.failure.len() > failures;
    if !binding_compromised && !failed && any_match_since(&results.success, successes, label) {
        return Some(OperativeBinding::Primary(primary));
    }
    let fallback = match plan.multi_asset() {
        Some(fallback) => fallback,
        None => {
            return None;
        },
    };
    let p = match fallback_payload_of(refs) {
        Some(p) => p,
        None => {
            return None;
        },
    };
    if !failed || !all_mismatches_since(&results.failure, failures, label) {
        return None;
    }
    let ghost after = results@;
    keep_first(&mut results.failure, failures);
    assert(results@.failure =~= after.failure.take(failures as int));
    assert(results@ =~= Results { failure: after.failure.take(failures as int), ..after });
    if run_fallback(
        p,
        claim,
        refs,
        data,
        format,
        facts,
        manifest,
        binding_compromised,
        results,
    ) {
        Some(OperativeBinding::MultiAsset(fallback))
    } else {
        None
    }
}

// ---------------------------------------------------------------------------
// Laws
// ---------------------------------------------------------------------------

/// A multi-asset binding becomes operative only where every referenced
/// assertion is intact and the primary binding failed by nothing but an
/// ordinary mismatch of the asset bytes.
pub proof fn fallback_needs_a_plain_mismatch(
    claim: Value,
    refs: Refs,
    data: Seq<u8>,
    format: AssetFormat,
    facts: AssetFacts,
    manifest: Seq<char>,
    r: Results,
)
    requires
        data_hash_outcome(claim, refs, data, format, facts, manifest, r).0 matches Some(
            Operative::MultiAsset(_),
        ),
    ensures
        !compromised(r),
        refs.primary(format == AssetFormat::C2paStore) is Some,
        refs.primary(format == AssetFormat::C2paStore)->0.label is Some,
        ({
            let label = refs.primary(format == AssetFormat::C2paStore)->0.label->0;
            let after = primary_outcome(claim, refs, data, format, facts, manifest, r);
            after.failure.len() > r.failure.len() && only_mismatches_since(
                after.failure,
                r.failure.len(),
                label,
            )
        }),
{
}

/// The bytes that a data hash covers: those that lie in none of its ranges; and
/// where all ranges lie in the one resolved manifest carrier, those outside the
/// carrier.
pub open spec fn covered_bytes(
    hash_data: Value,
    data: Seq<u8>,
    carriers: Result<Vec<(usize, usize)>, String>,
) -> Seq<u8> {
    let ranges = exclusions::ranges_of(hash_data.field("exclusions"@));
    let all_inside = carriers is Ok && carriers->Ok_0@.len() == 1 && carriers->Ok_0@[0].0
        + carriers->Ok_0@[0].1 <= usize::MAX && forall|i: int|
        0 <= i < ranges.len() ==> carriers->Ok_0@[0].0 <= (#[trigger] ranges[i]).0 && ranges[i].0
            + ranges[i].1 <= carriers->Ok_0@[0].0 + carriers->Ok_0@[0].1;
    hash::outside_ranges(
        data,
        if ranges.len() > 0 && all_inside {
            carriers->Ok_0@
        } else {
            ranges
        },
        0,
        data.len() as int,
    )
}

/// A data hash passes exactly where it states the digest of the bytes that it
/// covers, with an exclusion list within the cap; everywhere else it adds a
/// failure. While a signed reference was found altered, it is not reported as a
/// match.
pub proof fn data_hashes_pass_exactly_where_the_bytes_match(
    hash_data: Value,
    alg: Seq<char>,
    data: Seq<u8>,
    facts: AssetFacts,
    url: Seq<char>,
    is_compromised: bool,
    r: Results,
)
    requires
        hash::algorithm_named(alg) is Some,
    ensures
        ({
            let after = data_binding(
                hash_data,
                alg,
                data,
                facts,
                "c2pa.hash.data"@,
                url,
                is_compromised,
                r,
            );
            let capped = match hash_data.items_field("exclusions"@) {
                Some(items) => items.len() <= MAX_DATA_HASH_EXCLUSIONS,
                None => true,
            };
            let matches = hash_data.bytes_field("hash"@) is Some && capped && hash_data.bytes_field(
                "hash"@,
            ) == hash::named_digest(alg, covered_bytes(hash_data, data, facts.carriers));
            &&& (after.failure.len() == r.failure.len()) == matches
            &&& (after.success.len() > r.success.len()) == (matches && !is_compromised)
        }),
{
    let ranges = exclusions::ranges_of(hash_data.field("exclusions"@));
    let e = effective_ranges(hash_data, facts.carriers);
    match hash_data.field("exclusions"@) {
        Some(Value::Array(items)) => {
            exclusions::exclusion_ranges_are_the_listed_ones(items, (0usize, 0usize));
        },
        _ => {},
    }
    assert(hash::ordered_by_start(ranges));
    if facts.carriers is Ok && facts.carriers->Ok_0@.len() == 1 {
        let c = facts.carriers->Ok_0@[0];
        assert(seq![c] =~= facts.carriers->Ok_0@);
        if c.0 + c.1 <= usize::MAX {
            let inside = forall|i: int|
                0 <= i < ranges.len() ==> c.0 <= (#[trigger] ranges[i]).0 && ranges[i].0
                    + ranges[i].1 <= c.0 + c.1;
            assert(inside == !exclusions::reaches_outside(ranges, c.0, c.1)) by {
                if inside && exclusions::reaches_outside(ranges, c.0, c.1) {
                    let i = choose|i: int|
                        0 <= i < ranges.len() && !exclusions::inside_carrier(
                            #[trigger] ranges[i],
                            c.0,
                            c.1,
                        );
                    assert(c.0 <= ranges[i].0);
                }
                if !exclusions::reaches_outside(ranges, c.0, c.1) {
                    assert forall|i: int| 0 <= i < ranges.len() implies c.0 <= (
                    #[trigger] ranges[i]).0 && ranges[i].0 + ranges[i].1 <= c.0 + c.1 by {
                        assert(exclusions::inside_carrier(ranges[i], c.0, c.1));
                    }
                }
            }
        }
    }
    assert(hash::ordered_by_start(e));
    hash::retained_is_everything_outside_the_ranges(data, e);
    assert(hash::retained(data, e) == covered_bytes(hash_data, data, facts.carriers));
    reveal_strlit("c2pa.hash.data");
    reveal_strlit("c2pa.hash.bmff.v2");
    reveal_strlit("c2pa.hash.bmff.v3");
}

/// A claim reference is reported as a match exactly where it has a URL that
/// resolves inside the manifest, names an algorithm, or inherits one, and states
/// the digest of the assertion's content, or, in the first generation, of its
/// payload. An assertion that is there with another digest is reported as a
/// mismatch, and one that is not there as missing.
pub proof fn references_match_exactly_where_digests_do(
    reference: Reference,
    refs: Refs,
    claim: Value,
    generation: ClaimGeneration,
    manifest: Seq<char>,
    r: Results,
)
    requires
        !r.failed(ASSERTION_HASHED_URI_MISMATCH@),
        !r.failed(HASHED_URI_MISSING@),
    ensures
        ({
            let after = after_reference(reference, refs, claim, generation, manifest, r);
            let expected = reference.value.bytes_field("hash"@);
            let alg = labels::algorithm_for(reference.value, claim);
            let named = reference.value.text_field("url"@) is Some && reference.label is Some;
            let a = refs.indexed(reference.label->0);
            let content = a is Some && a->0.jumbf is Some;
            let holds = named && alg is Some && expected is Some && ((content
                && hash::named_digest(alg->0, a->0.jumbf->0) == expected) || (generation
                == ClaimGeneration::V1 && a is Some && a->0.payload is Some && hash::named_digest(
                alg->0,
                a->0.payload->0.bytes@,
            ) == expected));
            &&& (after.failure.len() == r.failure.len()) == holds
            &&& (after.success.len() > r.success.len()) == holds
            &&& after.failed(ASSERTION_HASHED_URI_MISMATCH@) == (named && alg is Some && content
                && !holds)
            &&& after.failed(HASHED_URI_MISSING@) == ((reference.value.text_field("url"@) is Some
                && reference.label is None) || (named && alg is Some && !content && !holds))
        }),
{
    reveal_strlit("assertion.hashedURI.mismatch");
    reveal_strlit("hashedURI.missing");
    reveal_strlit("claim.malformed");
    reveal_strlit("algorithm.unsupported");
    assert(ASSERTION_HASHED_URI_MISMATCH@.len() == 28);
    assert(HASHED_URI_MISSING@.len() == 17);
    assert(CLAIM_MALFORMED@.len() == 15);
    assert(ALGORITHM_UNSUPPORTED@.len() == 21);
    let after = after_reference(reference, refs, claim, generation, manifest, r);
    let f = r.failure.len() as int;
    assert forall|i: int| 0 <= i < f implies after.failure[i] == #[trigger] r.failure[i] by {}
    if after.failed(ASSERTION_HASHED_URI_MISMATCH@) {
        let i = choose|i: int|
            0 <= i < after.failure.len() && (#[trigger] after.failure[i]).code
                == ASSERTION_HASHED_URI_MISMATCH@;
        if i < f {
            assert(r.failure[i].code == ASSERTION_HASHED_URI_MISMATCH@);
        }
    }
    if after.failed(HASHED_URI_MISSING@) {
        let i = choose|i: int|
            0 <= i < after.failure.len() && (#[trigger] after.failure[i]).code
                == HASHED_URI_MISSING@;
        if i < f {
            assert(r.failure[i].code == HASHED_URI_MISSING@);
        }
    }
    if after.failure.len() > f {
        let last = after.failure[f];
        assert(last.code == after.failure[f].code);
    }
}

/// A digest that the caller computed makes a binding operative exactly where the
/// claim's one primary binding is a data or BMFF hash without a tree, under
/// SHA-256, that states this digest of 32 bytes, and no signed reference was
/// found altered.
pub proof fn prehashed_bindings_need_the_stated_digest(
    claim: Value,
    refs: Refs,
    digest: Seq<u8>,
    manifest: Seq<char>,
    r: Results,
)
    ensures
        ({
            let (operative, after) = prehashed_outcome(claim, refs, digest, manifest, r);
            let primary = refs.primary(false);
            let label = primary->0.label->0;
            let assertion = refs.decoded(label)->0;
            let holds = primary is Some && primary->0.label is Some && (label == "c2pa.hash.data"@
                || label == "c2pa.hash.bmff.v2"@ || label == "c2pa.hash.bmff.v3"@) && refs.decoded(
                label,
            ) is Some && labels::algorithm_for(assertion, claim) == Some("sha256"@)
                && assertion.field("merkle"@) is None && digest.len() == 32
                && assertion.bytes_field("hash"@) == Some(digest);
            &&& operative is Some == (holds && !compromised(r))
            &&& operative is Some ==> operative == Some(Operative::Primary(primary->0))
                && after.success.len() > r.success.len()
            &&& holds ==> after.failure == r.failure
            &&& !holds && !(primary is Some && primary->0.label is None) ==> after.failure.len()
                > r.failure.len()
        }),
{
    reveal_strlit("sha256");
    reveal_strlit("sha384");
    reveal_strlit("sha512");
}

/// A primary binding is operative only where it is the claim's one primary
/// binding, checking it added no failure, and no signed reference was found
/// altered.
pub proof fn operative_bindings_hold(
    claim: Value,
    refs: Refs,
    data: Seq<u8>,
    format: AssetFormat,
    facts: AssetFacts,
    manifest: Seq<char>,
    r: Results,
)
    ensures
        ({
            let (operative, after) = data_hash_outcome(
                claim,
                refs,
                data,
                format,
                facts,
                manifest,
                r,
            );
            &&& operative matches Some(Operative::Primary(p)) ==> refs.primary(
                format == AssetFormat::C2paStore,
            ) == Some(p) && !compromised(r) && after.failure.len() <= r.failure.len()
                && after.success.len() > r.success.len()
            &&& operative matches Some(Operative::MultiAsset(m)) ==> refs.multi_asset() == Some(m)
                && !compromised(r) && after.failure.len() <= r.failure.len()
            &&& compromised(r) ==> operative is None
        }),
{
    let (operative, after) = data_hash_outcome(claim, refs, data, format, facts, manifest, r);
    if let Some(Operative::Primary(p)) = operative {
        let label = p.label->0;
        let i = choose|i: int|
            r.success.len() <= i < after.success.len() && binding_match(
                label,
                #[trigger] after.success[i],
            );
        assert(i < after.success.len());
    }
}

} // verus!
