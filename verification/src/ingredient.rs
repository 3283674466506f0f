//! Ingredient references: the child manifests and signatures that ingredient
//! assertions commit to.
use vstd::prelude::*;
use crate::claim_refs::{ClaimAssertionRefs, Refs};
use crate::hash;
use crate::hash::{hash_claim_signature_box, HashAlgorithm};
use crate::labels;
use crate::labels::{
    extract_manifest_label, ingredient_manifest_label, resolved_hash_algorithm,
};
use crate::manifest;
use crate::manifest::{find_hash, find_manifest, ManifestHash, ParsedManifest, Recorded, StoreContext};
use crate::redaction;
use crate::redaction::entry_url;
use crate::status;
use crate::status::{
    Results, ValidationResults, ALGORITHM_UNSUPPORTED, INGREDIENT_CLAIM_SIGNATURE_MISMATCH,
    INGREDIENT_CLAIM_SIGNATURE_MISSING, INGREDIENT_CLAIM_SIGNATURE_VALIDATED,
    INGREDIENT_MANIFEST_MISMATCH, INGREDIENT_MANIFEST_MISSING, INGREDIENT_MANIFEST_VALIDATED,
};
use crate::text;
use crate::text::{bytes_eq, join3, starts_with, str_eq};
use crate::value::Value;

verus! {

// ---------------------------------------------------------------------------
// Model
// ---------------------------------------------------------------------------

/// The manifest `m` of the store has the digest `expected`. A SHA-256 digest is
/// the one recorded for the store, any other that of the manifest's content.
pub open spec fn manifest_has_digest(
    hashes: Seq<Recorded>,
    m: ParsedManifest,
    alg: HashAlgorithm,
    expected: Seq<u8>,
) -> bool {
    if alg == HashAlgorithm::Sha256 {
        manifest::hash_among(hashes, m.label@) == Some(expected)
    } else {
        hash::digest_of(alg, m.manifest_jumbf@) == expected
    }
}

/// A `redacted_assertions` entry names a box of the manifest `label`.
pub open spec fn redacts(claim: Value, label: Seq<char>) -> bool {
    match claim.items_field("redacted_assertions"@) {
        Some(items) => exists|i: int|
            0 <= i < items.len() && names_manifest(#[trigger] items[i], label),
        None => false,
    }
}

/// The URI of `entry`, a text or a hashed-URI map, lies inside the manifest
/// `label`.
pub open spec fn names_manifest(entry: Value, label: Seq<char>) -> bool {
    match redaction::uri_of(entry) {
        Some(url) => labels::manifest_of_uri(url) == Some(label),
        None => false,
    }
}

/// The URL of a reference, or the one to report where it has none.
pub open spec fn url_or(reference: Value, fallback: Seq<char>) -> Seq<char> {
    match reference.text_field("url"@) {
        Some(url) => url,
        None => fallback,
    }
}

/// The digest of the claim-signature box around `cose`.
pub open spec fn signature_digest(alg: Seq<char>, cose: Seq<u8>) -> Option<Seq<u8>> {
    if cose.len() + 8 <= u32::MAX || cose.len() + 16 <= usize::MAX {
        hash::named_digest(alg, hash::claim_signature_payload(cose))
    } else {
        None
    }
}

/// An `activeManifest` reference: the results, and whether the child has to be
/// authenticated through its claim signature instead.
pub open spec fn active_manifest_outcome(
    reference: Value,
    claim: Value,
    manifests: Seq<ParsedManifest>,
    hashes: Seq<Recorded>,
    fallback: Seq<char>,
    r: Results,
) -> (bool, Results) {
    let url = url_or(reference, fallback);
    match labels::named_manifest(url, None) {
        None => (
            false,
            r.fail(
                INGREDIENT_MANIFEST_MISSING@,
                url,
                "ingredient activeManifest does not resolve to a manifest"@,
            ),
        ),
        Some(label) => match manifest::manifest_from(manifests, label, 0) {
            None => (
                false,
                r.fail(
                    INGREDIENT_MANIFEST_MISSING@,
                    url,
                    "ingredient references manifest '"@ + label + "' not in store"@,
                ),
            ),
            Some(m) => match labels::algorithm_for(reference, claim) {
                None => (
                    false,
                    r.fail(
                        ALGORITHM_UNSUPPORTED@,
                        url,
                        "ingredient manifest reference has no hash algorithm"@,
                    ),
                ),
                Some(name) => match hash::algorithm_named(name) {
                    None => (
                        false,
                        r.fail(
                            ALGORITHM_UNSUPPORTED@,
                            url,
                            "ingredient manifest uses unsupported hash algorithm '"@ + name + "'"@,
                        ),
                    ),
                    Some(alg) => {
                        let expected = reference.bytes_field("hash"@);
                        if expected is Some && manifest_has_digest(hashes, m, alg, expected->0) {
                            (
                                false,
                                r.pass(
                                    INGREDIENT_MANIFEST_VALIDATED@,
                                    url,
                                    "ingredient manifest hash matched"@,
                                ),
                            )
                        } else if redacts(claim, label) {
                            (true, r)
                        } else {
                            (
                                false,
                                r.fail(
                                    INGREDIENT_MANIFEST_MISMATCH@,
                                    url,
                                    "ingredient manifest hash mismatch"@,
                                ),
                            )
                        }
                    },
                },
            },
        },
    }
}

/// The claim signature of the manifest `label`.
pub open spec fn signature_of(manifests: Seq<ParsedManifest>, label: Seq<char>) -> Option<Seq<u8>> {
    match manifest::manifest_from(manifests, label, 0) {
        Some(m) => match m.signature_cose {
            Some(cose) => Some(cose@),
            None => None,
        },
        None => None,
    }
}

/// A `claimSignature` reference.
pub open spec fn claim_signature_outcome(
    reference: Value,
    claim: Value,
    manifests: Seq<ParsedManifest>,
    fallback: Seq<char>,
    r: Results,
) -> Results {
    let url = url_or(reference, fallback);
    match labels::named_manifest(url, Some("/c2pa.signature"@)) {
        None => r.fail(
            INGREDIENT_CLAIM_SIGNATURE_MISSING@,
            url,
            "ingredient claimSignature does not resolve to a claim-signature box"@,
        ),
        Some(label) => match signature_of(manifests, label) {
            None => r.fail(
                INGREDIENT_CLAIM_SIGNATURE_MISSING@,
                url,
                "ingredient references missing claim signature in manifest '"@ + label + "'"@,
            ),
            Some(cose) => match labels::algorithm_for(reference, claim) {
                None => r.fail(
                    ALGORITHM_UNSUPPORTED@,
                    url,
                    "ingredient claim signature reference has no hash algorithm"@,
                ),
                Some(name) => match signature_digest(name, cose) {
                    None => r.fail(
                        ALGORITHM_UNSUPPORTED@,
                        url,
                        "ingredient claim signature uses unsupported hash algorithm '"@ + name
                            + "'"@,
                    ),
                    Some(digest) => if reference.bytes_field("hash"@) == Some(digest) {
                        r.pass(
                            INGREDIENT_CLAIM_SIGNATURE_VALIDATED@,
                            url,
                            "ingredient claim signature hash matched"@,
                        )
                    } else {
                        r.fail(
                            INGREDIENT_CLAIM_SIGNATURE_MISMATCH@,
                            url,
                            "ingredient claim signature hash mismatch"@,
                        )
                    },
                },
            },
        },
    }
}

/// One ingredient assertion.
pub open spec fn ingredient_outcome(
    ingredient: Value,
    claim: Value,
    manifests: Seq<ParsedManifest>,
    hashes: Seq<Recorded>,
    sig_url: Seq<char>,
    r: Results,
) -> Results {
    match ingredient.field("activeManifest"@) {
        None => r,
        Some(active) => {
            let (by_signature, after) = active_manifest_outcome(
                active,
                claim,
                manifests,
                hashes,
                sig_url,
                r,
            );
            if !by_signature {
                after
            } else {
                match ingredient.field("claimSignature"@) {
                    Some(reference) => claim_signature_outcome(
                        reference,
                        claim,
                        manifests,
                        sig_url,
                        after,
                    ),
                    None => after.fail(
                        INGREDIENT_CLAIM_SIGNATURE_MISSING@,
                        sig_url,
                        "redacted ingredient is missing claimSignature"@,
                    ),
                }
            }
        },
    }
}

/// The decoded ingredient assertion that a reference names.
pub open spec fn referenced_ingredient(refs: Refs, label: Option<Seq<char>>) -> Option<Value> {
    match label {
        Some(l) => if text::is_prefix("c2pa.ingredient"@, l) {
            refs.decoded(l)
        } else {
            None
        },
        None => None,
    }
}

/// The first `k` references of a claim.
pub open spec fn after_ingredients(
    refs: Refs,
    k: int,
    claim: Value,
    manifests: Seq<ParsedManifest>,
    hashes: Seq<Recorded>,
    sig_url: Seq<char>,
    r: Results,
) -> Results
    decreases k,
{
    if k <= 0 {
        r
    } else {
        let before = after_ingredients(refs, k - 1, claim, manifests, hashes, sig_url, r);
        match referenced_ingredient(refs, refs.references[k - 1].label) {
            Some(ingredient) => ingredient_outcome(
                ingredient,
                claim,
                manifests,
                hashes,
                sig_url,
                before,
            ),
            None => before,
        }
    }
}

// ---------------------------------------------------------------------------
// Digest cache
// ---------------------------------------------------------------------------

/// A computed manifest digest.
pub struct CachedDigest<'a> {
    pub label: &'a str,
    pub alg: HashAlgorithm,
    pub digest: Vec<u8>,
}

/// Digests of child manifests, each computed once per manifest and algorithm.
pub struct IngredientManifestDigestCache<'a> {
    pub manifests: &'a [ParsedManifest],
    pub manifest_hashes: &'a [ManifestHash],
    pub digests: Vec<CachedDigest<'a>>,
}

/// The entry is the digest of the store's manifest under its label.
pub open spec fn cached_digest_valid(manifests: Seq<ParsedManifest>, entry: CachedDigest) -> bool {
    match manifest::manifest_from(manifests, entry.label@, 0) {
        Some(m) => entry.digest@ == hash::digest_of(entry.alg, m.manifest_jumbf@),
        None => false,
    }
}

impl<'a> IngredientManifestDigestCache<'a> {
    /// Every entry is the digest of the store's manifest under its label.
    pub open spec fn wf(self) -> bool {
        forall|i: int|
            0 <= i < self.digests@.len() ==> cached_digest_valid(
                self.manifests@,
                #[trigger] self.digests@[i],
            )
    }

    /// An empty cache over a store.
    pub fn new(store: &StoreContext<'a>) -> (r: IngredientManifestDigestCache<'a>)
        ensures
            r.wf(),
            r.manifests == store.manifests,
            r.manifest_hashes == store.manifest_hashes,
            r.digests@.len() == 0,
    {
        IngredientManifestDigestCache {
            manifests: store.manifests,
            manifest_hashes: store.manifest_hashes,
            digests: Vec::new(),
        }
    }

    fn position(&self, label: &str, alg: HashAlgorithm) -> (r: Option<usize>)
        ensures
            match r {
                Some(i) => i < self.digests@.len() && self.digests@[i as int].label@ == label@
                    && self.digests@[i as int].alg == alg,
                None => forall|i: int|
                    0 <= i < self.digests@.len() ==> !((#[trigger] self.digests@[i]).label@
                        == label@ && self.digests@[i].alg == alg),
            },
    {
        let mut i: usize = 0;
        while i < self.digests.len()
            invariant
                forall|k: int|
                    0 <= k < i && k < self.digests@.len() ==> !((
                    #[trigger] self.digests@[k]).label@ == label@ && self.digests@[k].alg == alg),
            decreases self.digests.len() - i,
        {
            if self.digests[i].alg == alg && str_eq(self.digests[i].label, label) {
                return Some(i);
            }
            i += 1;
        }
        None
    }

    /// Whether `m`, the store's manifest under its label, has the digest
    /// `expected`. A digest other than SHA-256 is computed at most once.
    pub fn matches(&mut self, m: &'a ParsedManifest, alg: HashAlgorithm, expected: &[u8]) -> (r:
        bool)
        requires
            old(self).wf(),
            manifest::manifest_from(old(self).manifests@, m.label@, 0) == Some(*m),
        ensures
            final(self).wf(),
            final(self).manifests == old(self).manifests,
            final(self).manifest_hashes == old(self).manifest_hashes,
            r == manifest_has_digest(manifest::recorded(old(self).manifest_hashes@), *m, alg, expected@),
            alg == HashAlgorithm::Sha256 ==> final(self).digests@ == old(self).digests@,
            alg != HashAlgorithm::Sha256 ==> final(self).digests@.len() == old(
                self,
            ).digests@.len() + if exists|i: int|
                0 <= i < old(self).digests@.len() && (#[trigger] old(self).digests@[i]).label@
                    == m.label@ && old(self).digests@[i].alg == alg {
                0int
            } else {
                1
            },
    {
        if alg == HashAlgorithm::Sha256 {
            return match find_hash(self.manifest_hashes, m.label.as_str()) {
                Some(d) => bytes_eq(d, expected),
                None => false,
            };
        }
        if let Some(i) = self.position(m.label.as_str(), alg) {
            assert(cached_digest_valid(self.manifests@, self.digests@[i as int]));
            return bytes_eq(self.digests[i].digest.as_slice(), expected);
        }
        let digest = alg.digest(m.manifest_jumbf.as_slice());
        let same = bytes_eq(digest.as_slice(), expected);
        self.digests.push(CachedDigest { label: m.label.as_str(), alg, digest });
        same
    }
}

// ---------------------------------------------------------------------------
// Verification
// ---------------------------------------------------------------------------

/// Whether the claim declares a redaction inside the manifest `label`.
pub fn claim_redacts_manifest(claim: &Value, label: &str) -> (r: bool)
    ensures
        r == redacts(*claim, label@),
{
    match claim.get_items("redacted_assertions") {
        Some(items) => {
            let mut i: usize = 0;
            while i < items.len()
                invariant
                    i <= items.len(),
                    claim.items_field("redacted_assertions"@) == Some(items@),
                    forall|k: int| 0 <= k < i ==> !names_manifest(#[trigger] items@[k], label@),
                decreases items.len() - i,
            {
                if let Some(url) = entry_url(&items[i]) {
                    if let Some(l) = extract_manifest_label(url) {
                        if str_eq(l, label) {
                            let ghost entries = claim.items_field("redacted_assertions"@)->0;
                            assert(names_manifest(entries[i as int], label@));
                            return true;
                        }
                    }
                }
                i += 1;
            }
            false
        },
        None => false,
    }
}

/// Validate `activeManifest`; true only when a redaction requires the caller to
/// authenticate the child through `claimSignature` instead.
pub fn verify_ingredient_manifest_reference<'a>(
    reference: &Value,
    claim: &Value,
    cache: &mut IngredientManifestDigestCache<'a>,
    fallback_url: &str,
    results: &mut ValidationResults,
) -> (r: bool)
    requires
        old(cache).wf(),
    ensures
        final(cache).wf(),
        final(cache).manifests == old(cache).manifests,
        final(cache).manifest_hashes == old(cache).manifest_hashes,
        (r, final(results)@) == active_manifest_outcome(
            *reference,
            *claim,
            old(cache).manifests@,
            manifest::recorded(old(cache).manifest_hashes@),
            fallback_url@,
            old(results)@,
        ),
{
    let url = match reference.get_text("url") {
        Some(url) => url,
        None => fallback_url,
    };
    let label = match ingredient_manifest_label(url, None) {
        Some(label) => label,
        None => {
            results.push_failure(
                INGREDIENT_MANIFEST_MISSING,
                url.to_owned(),
                "ingredient activeManifest does not resolve to a manifest".to_owned(),
            );
            return false;
        },
    };
    let manifests: &'a [ParsedManifest] = cache.manifests;
    let m = match find_manifest(manifests, label) {
        Some(m) => m,
        None => {
            results.push_failure(
                INGREDIENT_MANIFEST_MISSING,
                url.to_owned(),
                join3("ingredient references manifest '", label, "' not in store"),
            );
            return false;
        },
    };
    let name = match resolved_hash_algorithm(reference, claim) {
        Some(name) => name,
        None => {
            results.push_failure(
                ALGORITHM_UNSUPPORTED,
                url.to_owned(),
                "ingredient manifest reference has no hash algorithm".to_owned(),
            );
            return false;
        },
    };
    let alg = match HashAlgorithm::from_name(name) {
        Some(alg) => alg,
        None => {
            results.push_failure(
                ALGORITHM_UNSUPPORTED,
                url.to_owned(),
                join3("ingredient manifest uses unsupported hash algorithm '", name, "'"),
            );
            return false;
        },
    };
    proof {
        manifest::found_manifest_has_label(manifests@, label@, 0);
    }
    let matched = match reference.get_bytes("hash") {
        Some(expected) => cache.matches(m, alg, expected),
        None => false,
    };
    if matched {
        results.push_success(
            INGREDIENT_MANIFEST_VALIDATED,
            url.to_owned(),
            "ingredient manifest hash matched".to_owned(),
        );
        return false;
    }
    if claim_redacts_manifest(claim, label) {
        return true;
    }
    results.push_failure(
        INGREDIENT_MANIFEST_MISMATCH,
        url.to_owned(),
        "ingredient manifest hash mismatch".to_owned(),
    );
    false
}

/// Validate `claimSignature` against the child manifest's signature box.
pub fn verify_ingredient_signature_reference(
    reference: &Value,
    claim: &Value,
    manifests: &[ParsedManifest],
    fallback_url: &str,
    results: &mut ValidationResults,
)
    ensures
        final(results)@ == claim_signature_outcome(
            *reference,
            *claim,
            manifests@,
            fallback_url@,
            old(results)@,
        ),
{
    let url = match reference.get_text("url") {
        Some(url) => url,
        None => fallback_url,
    };
    let label = match ingredient_manifest_label(url, Some("/c2pa.signature")) {
        Some(label) => label,
        None => {
            results.push_failure(
                INGREDIENT_CLAIM_SIGNATURE_MISSING,
                url.to_owned(),
                "ingredient claimSignature does not resolve to a claim-signature box".to_owned(),
            );
            return;
        },
    };
    let signature: Option<&Vec<u8>> = match find_manifest(manifests, label) {
        Some(m) => match &m.signature_cose {
            Some(cose) => Some(cose),
            None => None,
        },
        None => None,
    };
    let cose = match signature {
        Some(cose) => cose,
        None => {
            results.push_failure(
                INGREDIENT_CLAIM_SIGNATURE_MISSING,
                url.to_owned(),
                join3("ingredient references missing claim signature in manifest '", label, "'"),
            );
            return;
        },
    };
    let name = match resolved_hash_algorithm(reference, claim) {
        Some(name) => name,
        None => {
            results.push_failure(
                ALGORITHM_UNSUPPORTED,
                url.to_owned(),
                "ingredient claim signature reference has no hash algorithm".to_owned(),
            );
            return;
        },
    };
    let digest = match hash_claim_signature_box(name, cose.as_slice()) {
        Some(digest) => digest,
        None => {
            results.push_failure(
                ALGORITHM_UNSUPPORTED,
                url.to_owned(),
                join3("ingredient claim signature uses unsupported hash algorithm '", name, "'"),
            );
            return;
        },
    };
    let same = match reference.get_bytes("hash") {
        Some(h) => bytes_eq(h, digest.as_slice()),
        None => false,
    };
    if same {
        results.push_success(
            INGREDIENT_CLAIM_SIGNATURE_VALIDATED,
            url.to_owned(),
            "ingredient claim signature hash matched".to_owned(),
        );
    } else {
        results.push_failure(
            INGREDIENT_CLAIM_SIGNATURE_MISMATCH,
            url.to_owned(),
            "ingredient claim signature hash mismatch".to_owned(),
        );
    }
}

fn verify_ingredient(
    ingredient: &Value,
    claim: &Value,
    cache: &mut IngredientManifestDigestCache,
    sig_url: &str,
    results: &mut ValidationResults,
)
    requires
        old(cache).wf(),
    ensures
        final(cache).wf(),
        final(cache).manifests == old(cache).manifests,
        final(cache).manifest_hashes == old(cache).manifest_hashes,
        final(results)@ == ingredient_outcome(
            *ingredient,
            *claim,
            old(cache).manifests@,
            manifest::recorded(old(cache).manifest_hashes@),
            sig_url@,
            old(results)@,
        ),
{
    let active = match ingredient.get("activeManifest") {
        Some(active) => active,
        None => {
            return;
        },
    };
    if verify_ingredient_manifest_reference(active, claim, cache, sig_url, results) {
        match ingredient.get("claimSignature") {
            Some(reference) => {
                verify_ingredient_signature_reference(
                    reference,
                    claim,
                    cache.manifests,
                    sig_url,
                    results,
                );
            },
            None => {
                results.push_failure(
                    INGREDIENT_CLAIM_SIGNATURE_MISSING,
                    sig_url.to_owned(),
                    "redacted ingredient is missing claimSignature".to_owned(),
                );
            },
        }
    }
}

/// Authenticate the provenance references of the claim's ingredient assertions.
///
/// An exact `activeManifest` hash authenticates the complete child manifest and
/// short-circuits `claimSignature`. Where the claim redacts assertions of that
/// child, the manifest must differ and `claimSignature` is the required binding.
pub fn verify_ingredient_references(
    refs: &ClaimAssertionRefs,
    claim: &Value,
    cache: &mut IngredientManifestDigestCache,
    sig_url: &str,
    results: &mut ValidationResults,
)
    requires
        old(cache).wf(),
    ensures
        final(cache).wf(),
        final(cache).manifests == old(cache).manifests,
        final(cache).manifest_hashes == old(cache).manifest_hashes,
        final(results)@ == after_ingredients(
            refs@,
            refs@.references.len() as int,
            *claim,
            old(cache).manifests@,
            manifest::recorded(old(cache).manifest_hashes@),
            sig_url@,
            old(results)@,
        ),
{
    let ghost rv = refs@;
    let mut i: usize = 0;
    while i < refs.references.len()
        invariant
            i <= refs.references.len(),
            rv == refs@,
            cache.wf(),
            cache.manifests == old(cache).manifests,
            cache.manifest_hashes == old(cache).manifest_hashes,
            results@ == after_ingredients(
                rv,
                i as int,
                *claim,
                old(cache).manifests@,
                manifest::recorded(old(cache).manifest_hashes@),
                sig_url@,
                old(results)@,
            ),
        decreases refs.references.len() - i,
    {
        assert(rv.references[i as int] == refs.references@[i as int]@);
        if let Some(label) = refs.references[i].label {
            if starts_with(label, "c2pa.ingredient") {
                if let Some(ingredient) = refs.decoded(label) {
                    verify_ingredient(ingredient, claim, cache, sig_url, results);
                }
            }
        }
        i += 1;
    }
}

// ---------------------------------------------------------------------------
// Laws
// ---------------------------------------------------------------------------

/// A child manifest that differs from its `activeManifest` hash is excused only
/// where the claim declares a redaction inside that manifest.
pub proof fn mismatch_is_excused_only_by_redaction(
    reference: Value,
    claim: Value,
    manifests: Seq<ParsedManifest>,
    hashes: Seq<Recorded>,
    fallback: Seq<char>,
    r: Results,
)
    ensures
        active_manifest_outcome(reference, claim, manifests, hashes, fallback, r).0
            ==> (labels::named_manifest(url_or(reference, fallback), None) matches Some(label)
            && redacts(claim, label)),
{
}

/// A matching `activeManifest` hash settles an ingredient: two ingredients that
/// name the same child by a matching hash come out alike, whatever they say of
/// its claim signature.
pub proof fn matching_manifest_settles_ingredient(
    a: Value,
    b: Value,
    claim: Value,
    manifests: Seq<ParsedManifest>,
    hashes: Seq<Recorded>,
    sig_url: Seq<char>,
    r: Results,
)
    requires
        a.field("activeManifest"@) == b.field("activeManifest"@),
        a.field("activeManifest"@) matches Some(active) && active_manifest_outcome(
            active,
            claim,
            manifests,
            hashes,
            sig_url,
            r,
        ).1.success.len() > r.success.len(),
    ensures
        ingredient_outcome(a, claim, manifests, hashes, sig_url, r) == ingredient_outcome(
            b,
            claim,
            manifests,
            hashes,
            sig_url,
            r,
        ),
{
}

/// The reference `active` names a manifest of the store that has the digest the
/// reference states.
pub open spec fn child_has_stated_digest(
    active: Value,
    claim: Value,
    manifests: Seq<ParsedManifest>,
    hashes: Seq<Recorded>,
) -> bool {
    exists|j: int|
        0 <= j < manifests.len() && active.text_field("url"@) is Some && labels::named_manifest(
            active.text_field("url"@)->0,
            None,
        ) == Some((#[trigger] manifests[j]).label@) && active.bytes_field("hash"@) is Some && (
        labels::algorithm_for(active, claim) == Some("sha256"@) && manifest::hash_among(
            hashes,
            manifests[j].label@,
        ) == active.bytes_field("hash"@) || labels::algorithm_for(active, claim) is Some
            && labels::algorithm_for(active, claim)->0 != "sha256"@ && hash::named_digest(
            labels::algorithm_for(active, claim)->0,
            manifests[j].manifest_jumbf@,
        ) == active.bytes_field("hash"@))
}

/// The reference `active` names a manifest of the store, the claim redacts a box
/// inside that manifest, and the `claimSignature` of the ingredient has the
/// digest of the claim signature that it names. A `claimSignature` without a URL
/// names the box at `sig_url`.
pub open spec fn child_is_excused(
    active: Value,
    ingredient: Value,
    claim: Value,
    manifests: Seq<ParsedManifest>,
    sig_url: Seq<char>,
) -> bool {
    &&& active.text_field("url"@) is Some
    &&& exists|j: int|
        0 <= j < manifests.len() && labels::named_manifest(active.text_field("url"@)->0, None)
            == Some((#[trigger] manifests[j]).label@)
    &&& claim.items_field("redacted_assertions"@) is Some
    &&& exists|i: int|
        0 <= i < claim.items_field("redacted_assertions"@)->0.len() && names_manifest(
            #[trigger] claim.items_field("redacted_assertions"@)->0[i],
            labels::named_manifest(active.text_field("url"@)->0, None)->0,
        )
    &&& ingredient.field("claimSignature"@) is Some
    &&& ({
        let reference = ingredient.field("claimSignature"@)->0;
        signature_has_stated_digest(
            reference,
            match reference.text_field("url"@) {
                Some(url) => url,
                None => sig_url,
            },
            claim,
            manifests,
        )
    })
}

/// `url` names the signature box of a manifest of the store, and the reference
/// states the digest of that box.
pub open spec fn signature_has_stated_digest(
    reference: Value,
    url: Seq<char>,
    claim: Value,
    manifests: Seq<ParsedManifest>,
) -> bool {
    exists|j: int|
        0 <= j < manifests.len() && labels::named_manifest(url, Some("/c2pa.signature"@)) == Some(
            (#[trigger] manifests[j]).label@,
        ) && manifests[j].signature_cose is Some && labels::algorithm_for(reference, claim) is Some
            && reference.bytes_field("hash"@) is Some && reference.bytes_field("hash"@)
            == hash::named_digest(
            labels::algorithm_for(reference, claim)->0,
            hash::claim_signature_payload(manifests[j].signature_cose->0@),
        )
}

/// An ingredient assertion with an `activeManifest` that adds no failure names a
/// manifest of the store that has the stated digest, or one that the claim
/// redacts inside of while the claim signature has the stated digest. The place
/// that a reference without a URL is reported at is no manifest.
pub proof fn unfaulted_ingredients_are_authenticated(
    ingredient: Value,
    active: Value,
    claim: Value,
    manifests: Seq<ParsedManifest>,
    hashes: Seq<Recorded>,
    sig_url: Seq<char>,
    r: Results,
)
    requires
        ingredient.field("activeManifest"@) == Some(active),
        labels::named_manifest(sig_url, None) is None,
        ingredient_outcome(ingredient, claim, manifests, hashes, sig_url, r).failure == r.failure,
    ensures
        child_has_stated_digest(active, claim, manifests, hashes) || child_is_excused(
            active,
            ingredient,
            claim,
            manifests,
            sig_url,
        ),
{
    let out = ingredient_outcome(ingredient, claim, manifests, hashes, sig_url, r);
    assert(out.failure.len() == r.failure.len());
    let url = url_or(active, sig_url);
    let label = labels::named_manifest(url, None)->0;
    lemma_found_in_store(manifests, label, 0);
    let at = choose|j: int|
        0 <= j < manifests.len() && (#[trigger] manifests[j]).label@ == label
            && manifest::manifest_from(manifests, label, 0) == Some(manifests[j]);
    assert(manifests[at].label@ == label);
    reveal_strlit("sha256");
    reveal_strlit("sha384");
    reveal_strlit("sha512");
    if active_manifest_outcome(active, claim, manifests, hashes, sig_url, r).0 {
        let reference = ingredient.field("claimSignature"@)->0;
        let named = url_or(reference, sig_url);
        let child = labels::named_manifest(named, Some("/c2pa.signature"@))->0;
        lemma_found_in_store(manifests, child, 0);
        let j = choose|j: int|
            0 <= j < manifests.len() && (#[trigger] manifests[j]).label@ == child
                && manifest::manifest_from(manifests, child, 0) == Some(manifests[j]);
        assert(manifests[j].label@ == child);
        assert(signature_has_stated_digest(reference, named, claim, manifests));
    } else {
        assert(child_has_stated_digest(active, claim, manifests, hashes));
    }
}

/// Every reference of a claim to an ingredient assertion is held to the store:
/// where the references together add no failure, each whose label begins with
/// `c2pa.ingredient`, a numbered instance as well as the plain label, and whose
/// assertion is decoded and carries `activeManifest`, is authenticated.
pub proof fn every_unfaulted_ingredient_is_authenticated(
    refs: Refs,
    claim: Value,
    manifests: Seq<ParsedManifest>,
    hashes: Seq<Recorded>,
    sig_url: Seq<char>,
    r: Results,
    i: int,
    label: Seq<char>,
    active: Value,
)
    requires
        labels::named_manifest(sig_url, None) is None,
        after_ingredients(
            refs,
            refs.references.len() as int,
            claim,
            manifests,
            hashes,
            sig_url,
            r,
        ).failure == r.failure,
        0 <= i < refs.references.len(),
        refs.references[i].label == Some(label),
        label.len() >= 15,
        label.subrange(0, 15) == "c2pa.ingredient"@,
        refs.decoded(label) is Some,
        refs.decoded(label)->0.field("activeManifest"@) == Some(active),
    ensures
        child_has_stated_digest(active, claim, manifests, hashes) || child_is_excused(
            active,
            refs.decoded(label)->0,
            claim,
            manifests,
            sig_url,
        ),
{
    reveal_strlit("c2pa.ingredient");
    let n = refs.references.len() as int;
    lemma_only_grows(refs, i, claim, manifests, hashes, sig_url, r, 0);
    lemma_only_grows(refs, n, claim, manifests, hashes, sig_url, r, i + 1);
    lemma_only_grows(refs, i + 1, claim, manifests, hashes, sig_url, r, i);
    let before = after_ingredients(refs, i, claim, manifests, hashes, sig_url, r);
    let after = after_ingredients(refs, i + 1, claim, manifests, hashes, sig_url, r);
    assert(after.failure =~= before.failure);
    unfaulted_ingredients_are_authenticated(
        refs.decoded(label)->0,
        active,
        claim,
        manifests,
        hashes,
        sig_url,
        before,
    );
}

proof fn lemma_only_grows(
    refs: Refs,
    k: int,
    claim: Value,
    manifests: Seq<ParsedManifest>,
    hashes: Seq<Recorded>,
    sig_url: Seq<char>,
    r: Results,
    from: int,
)
    requires
        0 <= from <= k,
    ensures
        status::starts(
            after_ingredients(refs, from, claim, manifests, hashes, sig_url, r).failure,
            after_ingredients(refs, k, claim, manifests, hashes, sig_url, r).failure,
        ),
    decreases k - from,
{
    if from < k {
        lemma_only_grows(refs, k - 1, claim, manifests, hashes, sig_url, r, from);
    }
}

proof fn lemma_found_in_store(manifests: Seq<ParsedManifest>, label: Seq<char>, i: int)
    requires
        0 <= i,
        manifest::manifest_from(manifests, label, i) is Some,
    ensures
        exists|j: int|
            i <= j < manifests.len() && (#[trigger] manifests[j]).label@ == label
                && manifest::manifest_from(manifests, label, i) == Some(manifests[j]),
    decreases manifests.len() - i,
{
    if manifests[i].label@ != label {
        lemma_found_in_store(manifests, label, i + 1);
    } else {
        assert(manifests[i].label@ == label);
    }
}

} // verus!
