//! What an accepted manifest guarantees: the laws that span the whole
//! verification of one manifest.
use vstd::prelude::*;
use crate::binding;
use crate::bmff;
use crate::bmff::{BmffFacts, FragmentFacts, Plan, ProofKey};
use crate::bmff_merkle;
use crate::bmff_merkle::{Scan, TrackKey, Walk};
use crate::boxes;
use crate::claim_refs;
use crate::claim_refs::{Reference, Refs};
use crate::collection;
use crate::compound;
use crate::credential;
use crate::hash;
use crate::ingredient;
use crate::labels;
use crate::manifest::{AssetFormat, ParsedManifest, Recorded};
use crate::multi_asset;
use crate::multi_asset::{Part, PartFacts};
use crate::online;
use crate::output::VersionVerdict;
use crate::pipeline;
use crate::pipeline::Subject;
use crate::profile;
use crate::profile::{ClaimGeneration, EngineProfile};
use crate::program;
use crate::redaction;
use crate::refs;
use crate::status;
use crate::status::{
    Results, ALGORITHM_UNSUPPORTED, ASSERTION_BMFF_HASH_MATCH, ASSERTION_BOXES_HASH_MATCH,
    ASSERTION_COLLECTION_HASH_MATCH, ASSERTION_COMPOUND_CONTENT_MATCH, ASSERTION_DATA_HASH_MATCH,
    ASSERTION_HASHED_URI_MATCH, ASSERTION_MULTI_ASSET_HASH_MATCH,
    INGREDIENT_CLAIM_SIGNATURE_VALIDATED, INGREDIENT_MANIFEST_VALIDATED,
    SIGNING_CREDENTIAL_TRUSTED, ASSERTION_ACTION_MALFORMED, ASSERTION_ACTION_REDACTED,
    ASSERTION_BMFF_HASH_MALFORMED, ASSERTION_BMFF_HASH_MISMATCH, ASSERTION_BOXES_HASH_MALFORMED,
    ASSERTION_BOXES_HASH_MISMATCH, ASSERTION_BOXES_HASH_UNKNOWN_BOX, ASSERTION_CBOR_INVALID,
    ASSERTION_COLLECTION_HASH_INCORRECT_FILE_COUNT, ASSERTION_COLLECTION_HASH_INVALID_URI,
    ASSERTION_COLLECTION_HASH_MALFORMED, ASSERTION_COLLECTION_HASH_MISMATCH,
    ASSERTION_COMPOUND_CONTENT_MALFORMED, ASSERTION_COMPOUND_CONTENT_MISMATCH,
    ASSERTION_DATA_HASH_MISMATCH, ASSERTION_HARD_BINDING_REDACTED, ASSERTION_HASHED_URI_MISMATCH,
    ASSERTION_MULTIPLE_HARD_BINDINGS, ASSERTION_MULTI_ASSET_HASH_MALFORMED,
    ASSERTION_MULTI_ASSET_HASH_MISMATCH, ASSERTION_MULTI_ASSET_HASH_MISSING_PART,
    ASSERTION_NOT_REDACTED, ASSERTION_SELF_REDACTED, ASSERTION_UNDECLARED, CLAIM_CBOR_INVALID,
    CLAIM_HARD_BINDINGS_MISSING, CLAIM_MALFORMED, CLAIM_MISSING, CLAIM_MULTIPLE,
    CLAIM_SIGNATURE_INSIDE_VALIDITY, CLAIM_SIGNATURE_MISMATCH, CLAIM_SIGNATURE_MISSING,
    CLAIM_SIGNATURE_OUTSIDE_VALIDITY, CLAIM_SIGNATURE_VALIDATED,
    HASHED_URI_MISMATCH, HASHED_URI_MISSING,
    INGREDIENT_CLAIM_SIGNATURE_MISMATCH, INGREDIENT_CLAIM_SIGNATURE_MISSING,
    INGREDIENT_MANIFEST_MISMATCH, INGREDIENT_MANIFEST_MISSING, SIGNING_CREDENTIAL_INVALID,
    SIGNING_CREDENTIAL_OCSP_NOT_REVOKED, SIGNING_CREDENTIAL_UNTRUSTED, TIME_STAMP_TRUSTED,
    TIME_STAMP_VALIDATED,
};
use crate::structure;
use crate::text;
use crate::value::Value;
use crate::verdict;
use crate::verdict::ValidationState;

verus! {

// ---------------------------------------------------------------------------
// Failures are never taken back
// ---------------------------------------------------------------------------

/// Every failure of `a` stands in `b`, at its place.
pub open spec fn keeps(a: Results, b: Results) -> bool {
    status::starts(a.failure, b.failure)
}

/// `b` keeps the successes of `a`, and none that it adds says that the signing
/// credential is trusted.
pub open spec fn adds_no_trust(a: Results, b: Results) -> bool {
    &&& status::starts(a.success, b.success)
    &&& forall|i: int|
        a.success.len() <= i < b.success.len() ==> (#[trigger] b.success[i]).code
            != SIGNING_CREDENTIAL_TRUSTED@
}

/// `b` keeps the failures of `a`, every failure that it adds breaks construction
/// integrity, and nothing that it adds says that the credential is trusted.
pub open spec fn hardens(a: Results, b: Results) -> bool {
    &&& keeps(a, b)
    &&& adds_no_trust(a, b)
    &&& forall|i: int|
        a.failure.len() <= i < b.failure.len() ==> verdict::construction_invalidating(
            (#[trigger] b.failure[i]).code,
        )
}

/// A code that begins with none of the letters that a caveat begins with breaks
/// construction integrity.
proof fn lemma_first_letter(code: Seq<char>)
    requires
        code.len() > 0,
        code[0] != 's' && code[0] != 'c' && code[0] != 't',
    ensures
        verdict::construction_invalidating(code),
{
    reveal_strlit("cawg.");
    reveal_strlit("signingCredential.untrusted");
    reveal_strlit("claimSignature.outsideValidity");
    reveal_strlit("signingCredential.ocsp.skipped");
    reveal_strlit("signingCredential.ocsp.revoked");
    reveal_strlit("timeStamp.untrusted");
    reveal_strlit("timeStamp.outsideValidity");
    reveal_strlit("timeStamp.missing");
    reveal_strlit("conformanceScope.outOfScope");
    reveal_strlit("conformanceScope.specVersion.nonConformant");
    reveal_strlit("com.encypher.conformance.revocationInformationMissing");
    reveal_strlit("com.encypher.conformance.trustedTimeStampMissing");
    if verdict::identity_scoped(code) {
        assert(code.subrange(0, "cawg."@.len() as int)[0] == 'c');
    }
}

/// A claim code is no caveat unless it is the one on the validity window.
proof fn lemma_claim_code(code: Seq<char>)
    requires
        code.len() > 0,
        code.len() != 30,
        code[0] == 'c' && code[1] == 'l',
    ensures
        verdict::construction_invalidating(code),
{
    reveal_strlit("cawg.");
    reveal_strlit("signingCredential.untrusted");
    reveal_strlit("claimSignature.outsideValidity");
    reveal_strlit("signingCredential.ocsp.skipped");
    reveal_strlit("signingCredential.ocsp.revoked");
    reveal_strlit("timeStamp.untrusted");
    reveal_strlit("timeStamp.outsideValidity");
    reveal_strlit("timeStamp.missing");
    reveal_strlit("conformanceScope.outOfScope");
    reveal_strlit("conformanceScope.specVersion.nonConformant");
    reveal_strlit("com.encypher.conformance.revocationInformationMissing");
    reveal_strlit("com.encypher.conformance.trustedTimeStampMissing");
    if verdict::identity_scoped(code) {
        assert(code.subrange(0, "cawg."@.len() as int)[1] == 'a');
    }
}

spec fn claim_codes_break() -> bool {
    &&& verdict::construction_invalidating(CLAIM_MISSING@)
    &&& verdict::construction_invalidating(CLAIM_CBOR_INVALID@)
    &&& verdict::construction_invalidating(CLAIM_MULTIPLE@)
    &&& verdict::construction_invalidating(CLAIM_MALFORMED@)
    &&& verdict::construction_invalidating(CLAIM_HARD_BINDINGS_MISSING@)
    &&& verdict::construction_invalidating(CLAIM_SIGNATURE_MISSING@)
    &&& verdict::construction_invalidating(CLAIM_SIGNATURE_MISMATCH@)
    &&& verdict::construction_invalidating(SIGNING_CREDENTIAL_INVALID@)
}

proof fn lemma_claim_codes()
    ensures
        claim_codes_break(),
{
    reveal_strlit("claim.missing");
    reveal_strlit("claim.cbor.invalid");
    reveal_strlit("claim.multiple");
    reveal_strlit("claim.malformed");
    reveal_strlit("claim.hardBindings.missing");
    reveal_strlit("claimSignature.missing");
    reveal_strlit("claimSignature.mismatch");
    lemma_claim_code(CLAIM_MISSING@);
    lemma_claim_code(CLAIM_CBOR_INVALID@);
    lemma_claim_code(CLAIM_MULTIPLE@);
    lemma_claim_code(CLAIM_MALFORMED@);
    lemma_claim_code(CLAIM_HARD_BINDINGS_MISSING@);
    lemma_claim_code(CLAIM_SIGNATURE_MISSING@);
    lemma_claim_code(CLAIM_SIGNATURE_MISMATCH@);
    reveal_strlit("signingCredential.invalid");
    reveal_strlit("cawg.");
    reveal_strlit("signingCredential.untrusted");
    reveal_strlit("claimSignature.outsideValidity");
    reveal_strlit("signingCredential.ocsp.skipped");
    reveal_strlit("signingCredential.ocsp.revoked");
    reveal_strlit("timeStamp.untrusted");
    reveal_strlit("timeStamp.outsideValidity");
    reveal_strlit("timeStamp.missing");
    reveal_strlit("conformanceScope.outOfScope");
    reveal_strlit("conformanceScope.specVersion.nonConformant");
    reveal_strlit("com.encypher.conformance.revocationInformationMissing");
    reveal_strlit("com.encypher.conformance.trustedTimeStampMissing");
    let code = SIGNING_CREDENTIAL_INVALID@;
    assert(code[0] == 's');
    assert(code.len() == 25);
    assert("timeStamp.outsideValidity"@[0] == 't');
    if verdict::identity_scoped(code) {
        assert(code.subrange(0, "cawg."@.len() as int)[0] == 'c');
    }
}

spec fn match_codes_are_no_trust() -> bool {
    &&& ASSERTION_HASHED_URI_MATCH@ != SIGNING_CREDENTIAL_TRUSTED@
    &&& ASSERTION_DATA_HASH_MATCH@ != SIGNING_CREDENTIAL_TRUSTED@
    &&& ASSERTION_BMFF_HASH_MATCH@ != SIGNING_CREDENTIAL_TRUSTED@
    &&& ASSERTION_BOXES_HASH_MATCH@ != SIGNING_CREDENTIAL_TRUSTED@
    &&& ASSERTION_COLLECTION_HASH_MATCH@ != SIGNING_CREDENTIAL_TRUSTED@
    &&& ASSERTION_MULTI_ASSET_HASH_MATCH@ != SIGNING_CREDENTIAL_TRUSTED@
    &&& ASSERTION_COMPOUND_CONTENT_MATCH@ != SIGNING_CREDENTIAL_TRUSTED@
    &&& INGREDIENT_MANIFEST_VALIDATED@ != SIGNING_CREDENTIAL_TRUSTED@
    &&& INGREDIENT_CLAIM_SIGNATURE_VALIDATED@ != SIGNING_CREDENTIAL_TRUSTED@
}

proof fn lemma_match_codes()
    ensures
        match_codes_are_no_trust(),
{
    reveal_strlit("signingCredential.trusted");
    assert(SIGNING_CREDENTIAL_TRUSTED@[0] == 's');
    reveal_strlit("assertion.hashedURI.match");
    assert(ASSERTION_HASHED_URI_MATCH@[0] == 'a');
    reveal_strlit("assertion.dataHash.match");
    assert(ASSERTION_DATA_HASH_MATCH@[0] == 'a');
    reveal_strlit("assertion.bmffHash.match");
    assert(ASSERTION_BMFF_HASH_MATCH@[0] == 'a');
    reveal_strlit("assertion.boxesHash.match");
    assert(ASSERTION_BOXES_HASH_MATCH@[0] == 'a');
    reveal_strlit("assertion.collectionHash.match");
    assert(ASSERTION_COLLECTION_HASH_MATCH@[0] == 'a');
    reveal_strlit("assertion.multiAssetHash.match");
    assert(ASSERTION_MULTI_ASSET_HASH_MATCH@[0] == 'a');
    reveal_strlit("assertion.compoundContent.match");
    assert(ASSERTION_COMPOUND_CONTENT_MATCH@[0] == 'a');
    reveal_strlit("ingredient.manifest.validated");
    assert(INGREDIENT_MANIFEST_VALIDATED@[0] == 'i');
    reveal_strlit("ingredient.claimSignature.validated");
    assert(INGREDIENT_CLAIM_SIGNATURE_VALIDATED@[0] == 'i');
}

spec fn binding_codes_break() -> bool {
    &&& verdict::construction_invalidating(ASSERTION_HASHED_URI_MISMATCH@)
    &&& verdict::construction_invalidating(ASSERTION_DATA_HASH_MISMATCH@)
    &&& verdict::construction_invalidating(ASSERTION_BMFF_HASH_MISMATCH@)
    &&& verdict::construction_invalidating(ASSERTION_BMFF_HASH_MALFORMED@)
    &&& verdict::construction_invalidating(ASSERTION_BOXES_HASH_MISMATCH@)
    &&& verdict::construction_invalidating(ASSERTION_BOXES_HASH_MALFORMED@)
    &&& verdict::construction_invalidating(ASSERTION_BOXES_HASH_UNKNOWN_BOX@)
    &&& verdict::construction_invalidating(ASSERTION_COLLECTION_HASH_MISMATCH@)
    &&& verdict::construction_invalidating(ASSERTION_COLLECTION_HASH_MALFORMED@)
    &&& verdict::construction_invalidating(ASSERTION_COLLECTION_HASH_INVALID_URI@)
    &&& verdict::construction_invalidating(ASSERTION_COLLECTION_HASH_INCORRECT_FILE_COUNT@)
    &&& verdict::construction_invalidating(ASSERTION_MULTI_ASSET_HASH_MISMATCH@)
    &&& verdict::construction_invalidating(ASSERTION_MULTI_ASSET_HASH_MISSING_PART@)
    &&& verdict::construction_invalidating(ASSERTION_MULTI_ASSET_HASH_MALFORMED@)
    &&& verdict::construction_invalidating(ASSERTION_MULTIPLE_HARD_BINDINGS@)
    &&& verdict::construction_invalidating(ALGORITHM_UNSUPPORTED@)
    &&& verdict::construction_invalidating(ASSERTION_CBOR_INVALID@)
    &&& verdict::construction_invalidating(ASSERTION_UNDECLARED@)
    &&& verdict::construction_invalidating(ASSERTION_ACTION_MALFORMED@)
    &&& verdict::construction_invalidating(HASHED_URI_MISSING@)
    &&& verdict::construction_invalidating(HASHED_URI_MISMATCH@)
    &&& verdict::construction_invalidating(ASSERTION_SELF_REDACTED@)
    &&& verdict::construction_invalidating(ASSERTION_ACTION_REDACTED@)
    &&& verdict::construction_invalidating(ASSERTION_HARD_BINDING_REDACTED@)
    &&& verdict::construction_invalidating(ASSERTION_NOT_REDACTED@)
    &&& verdict::construction_invalidating(INGREDIENT_MANIFEST_MISSING@)
    &&& verdict::construction_invalidating(INGREDIENT_MANIFEST_MISMATCH@)
    &&& verdict::construction_invalidating(INGREDIENT_CLAIM_SIGNATURE_MISSING@)
    &&& verdict::construction_invalidating(INGREDIENT_CLAIM_SIGNATURE_MISMATCH@)
    &&& verdict::construction_invalidating(ASSERTION_COMPOUND_CONTENT_MISMATCH@)
    &&& verdict::construction_invalidating(ASSERTION_COMPOUND_CONTENT_MALFORMED@)
}

proof fn lemma_binding_codes()
    ensures
        binding_codes_break(),
        match_codes_are_no_trust(),
{
    lemma_match_codes();
    reveal_strlit("assertion.hashedURI.mismatch");
    lemma_first_letter(ASSERTION_HASHED_URI_MISMATCH@);
    reveal_strlit("assertion.dataHash.mismatch");
    lemma_first_letter(ASSERTION_DATA_HASH_MISMATCH@);
    reveal_strlit("assertion.bmffHash.mismatch");
    lemma_first_letter(ASSERTION_BMFF_HASH_MISMATCH@);
    reveal_strlit("assertion.bmffHash.malformed");
    lemma_first_letter(ASSERTION_BMFF_HASH_MALFORMED@);
    reveal_strlit("assertion.boxesHash.mismatch");
    lemma_first_letter(ASSERTION_BOXES_HASH_MISMATCH@);
    reveal_strlit("assertion.boxesHash.malformed");
    lemma_first_letter(ASSERTION_BOXES_HASH_MALFORMED@);
    reveal_strlit("assertion.boxesHash.unknownBox");
    lemma_first_letter(ASSERTION_BOXES_HASH_UNKNOWN_BOX@);
    reveal_strlit("assertion.collectionHash.mismatch");
    lemma_first_letter(ASSERTION_COLLECTION_HASH_MISMATCH@);
    reveal_strlit("assertion.collectionHash.malformed");
    lemma_first_letter(ASSERTION_COLLECTION_HASH_MALFORMED@);
    reveal_strlit("assertion.collectionHash.invalidURI");
    lemma_first_letter(ASSERTION_COLLECTION_HASH_INVALID_URI@);
    reveal_strlit("assertion.collectionHash.incorrectFileCount");
    lemma_first_letter(ASSERTION_COLLECTION_HASH_INCORRECT_FILE_COUNT@);
    reveal_strlit("assertion.multiAssetHash.mismatch");
    lemma_first_letter(ASSERTION_MULTI_ASSET_HASH_MISMATCH@);
    reveal_strlit("assertion.multiAssetHash.missingPart");
    lemma_first_letter(ASSERTION_MULTI_ASSET_HASH_MISSING_PART@);
    reveal_strlit("assertion.multiAssetHash.malformed");
    lemma_first_letter(ASSERTION_MULTI_ASSET_HASH_MALFORMED@);
    reveal_strlit("assertion.multipleHardBindings");
    lemma_first_letter(ASSERTION_MULTIPLE_HARD_BINDINGS@);
    reveal_strlit("algorithm.unsupported");
    lemma_first_letter(ALGORITHM_UNSUPPORTED@);
    reveal_strlit("assertion.cbor.invalid");
    lemma_first_letter(ASSERTION_CBOR_INVALID@);
    reveal_strlit("assertion.undeclared");
    lemma_first_letter(ASSERTION_UNDECLARED@);
    reveal_strlit("assertion.action.malformed");
    lemma_first_letter(ASSERTION_ACTION_MALFORMED@);
    reveal_strlit("hashedURI.missing");
    lemma_first_letter(HASHED_URI_MISSING@);
    reveal_strlit("hashedURI.mismatch");
    lemma_first_letter(HASHED_URI_MISMATCH@);
    reveal_strlit("assertion.selfRedacted");
    lemma_first_letter(ASSERTION_SELF_REDACTED@);
    reveal_strlit("assertion.action.redacted");
    lemma_first_letter(ASSERTION_ACTION_REDACTED@);
    reveal_strlit("assertion.hardBinding.redacted");
    lemma_first_letter(ASSERTION_HARD_BINDING_REDACTED@);
    reveal_strlit("assertion.notRedacted");
    lemma_first_letter(ASSERTION_NOT_REDACTED@);
    reveal_strlit("ingredient.manifest.missing");
    lemma_first_letter(INGREDIENT_MANIFEST_MISSING@);
    reveal_strlit("ingredient.manifest.mismatch");
    lemma_first_letter(INGREDIENT_MANIFEST_MISMATCH@);
    reveal_strlit("ingredient.claimSignature.missing");
    lemma_first_letter(INGREDIENT_CLAIM_SIGNATURE_MISSING@);
    reveal_strlit("ingredient.claimSignature.mismatch");
    lemma_first_letter(INGREDIENT_CLAIM_SIGNATURE_MISMATCH@);
    reveal_strlit("assertion.compoundContent.mismatch");
    lemma_first_letter(ASSERTION_COMPOUND_CONTENT_MISMATCH@);
    reveal_strlit("assertion.compoundContent.malformed");
    lemma_first_letter(ASSERTION_COMPOUND_CONTENT_MALFORMED@);
}

proof fn lemma_references(list: Seq<Reference>, k: int, sig_url: Seq<char>, r: Results)
    ensures
        hardens(r, structure::after_references(list, k, sig_url, r)),
    decreases k,
{
    lemma_claim_codes();
    lemma_binding_codes();
    if k > 0 {
        lemma_references(list, k - 1, sig_url, r);
    }
}

proof fn lemma_undeclared(list: Seq<Seq<char>>, k: int, manifest: Seq<char>, r: Results)
    ensures
        hardens(r, structure::after_undeclared(list, k, manifest, r)),
    decreases k,
{
    lemma_claim_codes();
    lemma_binding_codes();
    if k > 0 {
        lemma_undeclared(list, k - 1, manifest, r);
    }
}

proof fn lemma_algorithms(
    list: Seq<Reference>,
    claim: Value,
    k: int,
    sig_url: Seq<char>,
    r: Results,
)
    ensures
        hardens(r, structure::after_algorithms(list, claim, k, sig_url, r)),
    decreases k,
{
    lemma_claim_codes();
    lemma_binding_codes();
    if k > 0 {
        lemma_algorithms(list, claim, k - 1, sig_url, r);
    }
}

proof fn lemma_invalid(list: Seq<Seq<char>>, k: int, manifest: Seq<char>, r: Results)
    ensures
        hardens(r, structure::after_invalid(list, k, manifest, r)),
    decreases k,
{
    lemma_claim_codes();
    lemma_binding_codes();
    if k > 0 {
        lemma_invalid(list, k - 1, manifest, r);
    }
}

proof fn lemma_redactions(
    entries: Seq<Value>,
    k: int,
    declaring: Seq<char>,
    manifests: Seq<ParsedManifest>,
    r: Results,
)
    ensures
        hardens(r, redaction::after_entries(entries, k, declaring, manifests, r)),
    decreases k,
{
    lemma_claim_codes();
    lemma_binding_codes();
    if k > 0 {
        lemma_redactions(entries, k - 1, declaring, manifests, r);
    }
}

proof fn lemma_locations(
    found: Seq<refs::Location>,
    k: int,
    label: Seq<char>,
    at: Seq<char>,
    generation: ClaimGeneration,
    manifest_label: Seq<char>,
    manifests: Seq<ParsedManifest>,
    inherited: Option<Seq<char>>,
    r: Results,
)
    ensures
        hardens(
            r,
            refs::after_locations(
                found,
                k,
                label,
                at,
                generation,
                manifest_label,
                manifests,
                inherited,
                r,
            ),
        ),
    decreases k,
{
    lemma_claim_codes();
    lemma_binding_codes();
    if k > 0 {
        lemma_locations(
            found,
            k - 1,
            label,
            at,
            generation,
            manifest_label,
            manifests,
            inherited,
            r,
        );
    }
}

proof fn lemma_walk(
    claim: Value,
    rv: Refs,
    i: int,
    seen: Seq<Seq<char>>,
    examined: nat,
    generation: ClaimGeneration,
    manifest_label: Seq<char>,
    manifests: Seq<ParsedManifest>,
    r: Results,
)
    ensures
        hardens(
            r,
            refs::walk_from(
                claim,
                rv,
                i,
                seen,
                examined,
                generation,
                manifest_label,
                manifests,
                r,
            ),
        ),
    decreases rv.references.len() - i,
{
    lemma_claim_codes();
    lemma_binding_codes();
    if 0 <= i < rv.references.len() {
        match rv.references[i].label {
            None => {
                lemma_walk(
                    claim,
                    rv,
                    i + 1,
                    seen,
                    examined,
                    generation,
                    manifest_label,
                    manifests,
                    r,
                );
            },
            Some(label) => {
                let fields = refs::declared_fields(label);
                if seen.contains(label) {
                    lemma_walk(
                        claim,
                        rv,
                        i + 1,
                        seen,
                        examined,
                        generation,
                        manifest_label,
                        manifests,
                        r,
                    );
                } else if fields.len() == 0 || rv.decoded(label) is None {
                    lemma_walk(
                        claim,
                        rv,
                        i + 1,
                        seen.push(label),
                        examined,
                        generation,
                        manifest_label,
                        manifests,
                        r,
                    );
                } else {
                    let assertion = rv.decoded(label)->0;
                    let at = structure::assertion_url(manifest_label, label);
                    let (capped, found) = refs::gathered(
                        assertion,
                        fields,
                        0,
                        examined,
                        Seq::empty(),
                    );
                    let inherited = refs::inherited_algorithm(assertion, claim);
                    let n = found.len() as int;
                    lemma_locations(
                        found,
                        n,
                        label,
                        at,
                        generation,
                        manifest_label,
                        manifests,
                        inherited,
                        r,
                    );
                    if !capped {
                        lemma_walk(
                            claim,
                            rv,
                            i + 1,
                            seen.push(label),
                            examined + found.len(),
                            generation,
                            manifest_label,
                            manifests,
                            refs::after_locations(
                                found,
                                n,
                                label,
                                at,
                                generation,
                                manifest_label,
                                manifests,
                                inherited,
                                r,
                            ),
                        );
                    }
                }
            },
        }
    }
}

proof fn lemma_bindings(
    rv: Refs,
    k: int,
    claim: Value,
    generation: ClaimGeneration,
    manifest: Seq<char>,
    r: Results,
)
    ensures
        hardens(r, binding::after_assertion_bindings(rv, k, claim, generation, manifest, r)),
    decreases k,
{
    lemma_claim_codes();
    lemma_binding_codes();
    if k > 0 {
        lemma_bindings(rv, k - 1, claim, generation, manifest, r);
    }
}

proof fn lemma_ingredients(
    rv: Refs,
    k: int,
    claim: Value,
    manifests: Seq<ParsedManifest>,
    hashes: Seq<Recorded>,
    sig_url: Seq<char>,
    r: Results,
)
    ensures
        hardens(r, ingredient::after_ingredients(rv, k, claim, manifests, hashes, sig_url, r)),
    decreases k,
{
    lemma_claim_codes();
    lemma_binding_codes();
    if k > 0 {
        lemma_ingredients(rv, k - 1, claim, manifests, hashes, sig_url, r);
    }
}

proof fn lemma_fragments(
    entries: Seq<Value>,
    alg: Seq<char>,
    trees: Map<TrackKey, usize>,
    fragments: Seq<FragmentFacts>,
    i: int,
    url: Seq<char>,
    w: Walk,
)
    ensures
        hardens(
            w.results,
            bmff_merkle::fragments_from(entries, alg, trees, fragments, i, url, w).1,
        ),
    decreases fragments.len() - i,
{
    lemma_claim_codes();
    lemma_binding_codes();
    if 0 <= i < fragments.len() {
        match bmff_merkle::fragment_step(entries, alg, trees, fragments[i], i as nat, url, w) {
            Ok(next) => {
                lemma_fragments(entries, alg, trees, fragments, i + 1, url, next);
            },
            Err(_) => {},
        }
    }
}

proof fn lemma_scan(
    entries: Seq<Value>,
    i: int,
    alg: Seq<char>,
    facts: BmffFacts,
    plans: Seq<Plan>,
    index: Option<Map<ProofKey, usize>>,
    url: Seq<char>,
    s: Scan,
)
    ensures
        match bmff_merkle::scan_from(entries, i, alg, facts, plans, index, url, s) {
            Ok(t) => hardens(s.results, t.results),
            Err(r) => hardens(s.results, r) && r.failure.len() > s.results.failure.len(),
        },
    decreases entries.len() - i,
{
    lemma_claim_codes();
    lemma_binding_codes();
    if 0 <= i < entries.len() {
        match bmff_merkle::scan_entry(entries[i], alg, facts, plans, index, url, s) {
            Ok(next) => {
                lemma_scan(entries, i + 1, alg, facts, plans, index, url, next);
            },
            Err(_) => {},
        }
    }
}

proof fn lemma_merkle(
    hash_data: Value,
    alg: Seq<char>,
    data: Seq<u8>,
    facts: BmffFacts,
    fragments: Seq<FragmentFacts>,
    url: Seq<char>,
    compromised: bool,
    r: Results,
)
    ensures
        hardens(
            r,
            bmff_merkle::merkle_outcome(hash_data, alg, data, facts, fragments, url, compromised, r),
        ),
{
    lemma_claim_codes();
    lemma_binding_codes();
    assert forall|
        entries: Seq<Value>,
        plans: Seq<Plan>,
        index: Option<Map<ProofKey, usize>>,
        s: Scan,
    | true implies match #[trigger] bmff_merkle::scan_from(
        entries,
        0,
        alg,
        facts,
        plans,
        index,
        url,
        s,
    ) {
        Ok(t) => hardens(s.results, t.results),
        Err(e) => hardens(s.results, e),
    } by {
        lemma_scan(entries, 0, alg, facts, plans, index, url, s);
    }
    assert forall|entries: Seq<Value>, trees: Map<TrackKey, usize>, w: Walk| true implies hardens(
        w.results,
        #[trigger] bmff_merkle::fragments_from(entries, alg, trees, fragments, 0, url, w).1,
    ) by {
        lemma_fragments(entries, alg, trees, fragments, 0, url, w);
    }
}

proof fn lemma_parts(
    parts: Seq<Part>,
    k: int,
    facts: Seq<PartFacts>,
    claim: Value,
    data: Seq<u8>,
    manifest: Seq<char>,
    url: Seq<char>,
    r: Results,
)
    ensures
        hardens(r, multi_asset::after_parts(parts, k, facts, claim, data, manifest, url, r)),
    decreases k,
{
    lemma_claim_codes();
    lemma_binding_codes();
    if k > 0 {
        lemma_parts(parts, k - 1, facts, claim, data, manifest, url, r);
    }
}

proof fn lemma_located(
    parts: Seq<Value>,
    i: int,
    ranges: Seq<Vec<(usize, usize)>>,
    at: int,
    f: multi_asset::Frame,
)
    ensures
        multi_asset::locate_from(parts, i, ranges, at, f) matches Err(fault)
            ==> verdict::construction_invalidating(fault.code),
    decreases parts.len() - i,
{
    lemma_binding_codes();
    if 0 <= i < parts.len() {
        match multi_asset::locate_part(parts[i], multi_asset::ranges_at(ranges, at), f) {
            Ok(p) => {
                lemma_located(
                    parts,
                    i + 1,
                    ranges,
                    if p.place.path is Some {
                        at + 1
                    } else {
                        at
                    },
                    f,
                );
            },
            Err(_) => {},
        }
    }
}

proof fn lemma_coverage(parts: Seq<Part>, i: int, at: nat)
    ensures
        multi_asset::coverage_from(parts, i, at) matches Err(fault)
            ==> verdict::construction_invalidating(fault.code),
    decreases parts.len() - i,
{
    lemma_binding_codes();
    if 0 <= i < parts.len() {
        let p = parts[i];
        if p.place.start == at && p.place.start + p.place.length <= usize::MAX {
            lemma_coverage(parts, i + 1, (p.place.start + p.place.length) as nat);
        }
    }
}

proof fn lemma_box_entries(
    entries: Seq<Value>,
    i: int,
    default: Option<Seq<char>>,
    spans: Seq<boxes::BoxSpan>,
    data: Seq<u8>,
    s: boxes::BoxScan,
)
    ensures
        boxes::box_entries_from(entries, i, default, spans, data, s) matches Err(fault)
            ==> verdict::construction_invalidating(fault.code),
    decreases entries.len() - i,
{
    lemma_binding_codes();
    if 0 <= i < entries.len() {
        match boxes::box_entry(entries[i], default, spans, data, s) {
            Ok(next) => {
                lemma_box_entries(entries, i + 1, default, spans, data, next);
            },
            Err(_) => {},
        }
    }
}

proof fn lemma_boxes(
    entries: Seq<Value>,
    default: Option<Seq<char>>,
    spans: Seq<boxes::BoxSpan>,
    data: Seq<u8>,
)
    ensures
        boxes::boxes_fault(entries, default, spans, data) matches Some(fault)
            ==> verdict::construction_invalidating(fault.code),
{
    lemma_binding_codes();
    lemma_box_entries(
        entries,
        0,
        default,
        spans,
        data,
        boxes::BoxScan { at: 0, mismatched: false, c2pa_seen: false },
    );
}

proof fn lemma_uris(
    items: Seq<Value>,
    i: int,
    alg: Seq<char>,
    data: Seq<u8>,
    entries: Seq<collection::ZipEntry>,
)
    ensures
        collection::uris_fault(items, i, alg, data, entries) matches Some(fault)
            ==> verdict::construction_invalidating(fault.code),
    decreases items.len() - i,
{
    lemma_binding_codes();
    if 0 <= i < items.len() {
        lemma_uris(items, i + 1, alg, data, entries);
    }
}

proof fn lemma_collection(map: Option<Value>, data: Seq<u8>, facts: collection::ZipFacts)
    ensures
        collection::collection_fault(map, data, facts) matches Some(fault)
            ==> verdict::construction_invalidating(fault.code),
{
    lemma_binding_codes();
    if let Some(m) = map {
        if let (Some(uris), Some(alg)) = (m.items_field("uris"@), m.text_field("alg"@)) {
            lemma_uris(uris, 0, alg, data, facts.entries@);
        }
    }
}

proof fn lemma_multi_asset(
    ma: Option<Value>,
    claim: Value,
    rv: Refs,
    data: Seq<u8>,
    format: AssetFormat,
    manifest: Seq<char>,
    facts: multi_asset::MultiAssetFacts,
    r: Results,
)
    ensures
        hardens(r, multi_asset::multi_asset_outcome(ma, claim, rv, data, format, manifest, facts, r)),
{
    lemma_claim_codes();
    lemma_binding_codes();
    let url = structure::assertion_url(manifest, "c2pa.hash.multi-asset"@);
    assert forall|parts: Seq<Value>, ranges: Seq<Vec<(usize, usize)>>, f: multi_asset::Frame|
        true implies #[trigger] multi_asset::locate_from(parts, 0, ranges, 0, f) matches Err(fault)
        ==> verdict::construction_invalidating(fault.code) by {
        lemma_located(parts, 0, ranges, 0, f);
    }
    match multi_asset::located(ma, claim, rv, data, format, manifest, facts.locator_ranges) {
        Ok(parts) => {
            lemma_coverage(parts, 0, 0);
            lemma_parts(
                parts,
                parts.len() as int,
                facts.parts@,
                claim,
                data,
                manifest,
                url,
                r,
            );
        },
        Err(_) => {},
    }
}

proof fn lemma_primary(
    claim: Value,
    rv: Refs,
    data: Seq<u8>,
    format: AssetFormat,
    facts: binding::AssetFacts,
    manifest: Seq<char>,
    r: Results,
)
    ensures
        hardens(r, binding::primary_outcome(claim, rv, data, format, facts, manifest, r)),
{
    lemma_claim_codes();
    lemma_binding_codes();
    assert forall|entries: Seq<Value>, default: Option<Seq<char>>, spans: Seq<boxes::BoxSpan>|
        true implies #[trigger] boxes::boxes_fault(entries, default, spans, data) matches Some(
        fault,
    ) ==> verdict::construction_invalidating(fault.code) by {
        lemma_boxes(entries, default, spans, data);
    }
    assert forall|map: Option<Value>|
        true implies #[trigger] collection::collection_fault(map, data, facts.zip) matches Some(
        fault,
    ) ==> verdict::construction_invalidating(fault.code) by {
        lemma_collection(map, data, facts.zip);
    }
    assert forall|hash_data: Value, alg: Seq<char>, url: Seq<char>, compromised: bool|
        true implies hardens(
        r,
        #[trigger] bmff_merkle::merkle_outcome(
            hash_data,
            alg,
            data,
            facts.bmff,
            facts.fragments@,
            url,
            compromised,
            r,
        ),
    ) by {
        lemma_merkle(
            hash_data,
            alg,
            data,
            facts.bmff,
            facts.fragments@,
            url,
            compromised,
            r,
        );
    }
}

proof fn lemma_data_hash(
    claim: Value,
    rv: Refs,
    data: Seq<u8>,
    format: AssetFormat,
    facts: binding::AssetFacts,
    manifest: Seq<char>,
    r: Results,
)
    ensures
        hardens(r, binding::data_hash_outcome(claim, rv, data, format, facts, manifest, r).1),
{
    lemma_claim_codes();
    lemma_binding_codes();
    lemma_primary(claim, rv, data, format, facts, manifest, r);
    let after = binding::primary_outcome(claim, rv, data, format, facts, manifest, r);
    let taken = Results { failure: after.failure.take(r.failure.len() as int), ..after };
    assert(hardens(r, taken));
    if let Some(p) = binding::fallback_payload(rv) {
        lemma_multi_asset(p.value, claim, rv, data, format, manifest, facts.multi_asset, taken);
    }
}

proof fn lemma_components(
    components: Seq<Value>,
    i: int,
    rv: Refs,
    manifest_label: Seq<char>,
    hashes: Seq<Recorded>,
)
    ensures
        compound::components_fault(components, i, rv, manifest_label, hashes) matches Some(fault)
            ==> verdict::construction_invalidating(fault.code),
    decreases components.len() - i,
{
    lemma_binding_codes();
    lemma_claim_codes();
    if 0 <= i < components.len() {
        lemma_components(components, i + 1, rv, manifest_label, hashes);
    }
}

proof fn lemma_compound(rv: Refs, manifest_label: Seq<char>, hashes: Seq<Recorded>, r: Results)
    ensures
        hardens(r, compound::compound_outcome(rv, manifest_label, hashes, r)),
{
    lemma_binding_codes();
    if let Some(data) = rv.decoded(compound::COMPOUND_CONTENT_LABEL@) {
        if let Some(components) = data.items_field("components"@) {
            lemma_components(components, 0, rv, manifest_label, hashes);
        }
    }
}

proof fn lemma_prehashed(
    claim: Value,
    rv: Refs,
    digest: Seq<u8>,
    manifest: Seq<char>,
    r: Results,
)
    ensures
        hardens(r, binding::prehashed_outcome(claim, rv, digest, manifest, r).1),
{
    lemma_binding_codes();
    lemma_claim_codes();
}

// ---------------------------------------------------------------------------
// Structure
// ---------------------------------------------------------------------------

/// A break stays one, whatever is added behind it.
proof fn lemma_stays_broken(a: Results, b: Results)
    requires
        keeps(a, b),
        verdict::construction_failure(a),
    ensures
        verdict::construction_failure(b),
{
    let i = choose|i: int|
        0 <= i < a.failure.len() && verdict::construction_invalidating(
            (#[trigger] a.failure[i]).code,
        );
    assert(verdict::construction_invalidating(b.failure[i].code));
}

/// Where nothing breaks, a step that only adds breaks added nothing.
proof fn lemma_quiet(a: Results, b: Results)
    requires
        hardens(a, b),
        !verdict::construction_failure(b),
    ensures
        a.failure == b.failure,
        !verdict::construction_failure(a),
{
    if verdict::construction_failure(a) {
        lemma_stays_broken(a, b);
    }
    if a.failure.len() < b.failure.len() {
        let i = a.failure.len() as int;
        assert(verdict::construction_invalidating(b.failure[i].code));
    }
    assert(a.failure =~= b.failure);
}

/// Manifests that break are invalid under every profile.
proof fn lemma_broken_is_invalid(r: Results, p: EngineProfile)
    requires
        verdict::state_of(r, p) != ValidationState::Invalid,
    ensures
        !verdict::construction_failure(r),
{
    if verdict::construction_failure(r) {
        let i = choose|i: int|
            0 <= i < r.failure.len() && verdict::construction_invalidating(
                (#[trigger] r.failure[i]).code,
            );
        assert(verdict::invalidating(r.failure[i].code, p));
    }
}

proof fn lemma_malformed(list: Seq<Reference>, k: int, sig_url: Seq<char>, r: Results)
    requires
        0 <= k,
        structure::malformed_reference(list, k),
    ensures
        structure::after_references(list, k, sig_url, r).failure.len() > r.failure.len(),
    decreases k,
{
    lemma_references(list, k - 1, sig_url, r);
    let i = choose|i: int|
        0 <= i < k && (!structure::complete_hashed_uri((#[trigger] list[i]).value)
            || structure::misplaced_icon(list[i]));
    if i < k - 1 {
        assert(structure::malformed_reference(list, k - 1));
        lemma_malformed(list, k - 1, sig_url, r);
    }
}

/// Complete declarations are held to by failures alone, and where they are
/// unsound or carry no primary hard binding, by at least one.
proof fn lemma_declarations(
    m: ParsedManifest,
    claim: Value,
    generation: ClaimGeneration,
    rv: Refs,
    format: AssetFormat,
    sig_url: Seq<char>,
    r: Results,
)
    ensures
        hardens(r, structure::after_declarations(m, claim, generation, rv, format, sig_url, r)),
        structure::after_declarations(
            m,
            claim,
            generation,
            rv,
            format,
            sig_url,
            r,
        ).failure.len() == r.failure.len() ==> {
            &&& !structure::malformed_reference(rv.references, rv.references.len() as int)
            &&& rv.duplicate_label is None
            &&& rv.undeclared_labels.len() == 0
            &&& rv.hash_work_bytes is Some
            &&& !rv.decode_budget_exhausted
            &&& claim_refs::primary_count(rv.binding_labels, format == AssetFormat::C2paStore) == 1
            &&& claim_refs::multi_asset_count(rv.binding_labels) <= 1
        },
{
    lemma_claim_codes();
    lemma_binding_codes();
    let n = rv.references.len() as int;
    lemma_references(rv.references, n, sig_url, r);
    if structure::malformed_reference(rv.references, n) {
        lemma_malformed(rv.references, n, sig_url, r);
    }
    let shaped = structure::after_duplicate(
        rv.duplicate_label,
        sig_url,
        structure::after_references(rv.references, n, sig_url, r),
    );
    let u = rv.undeclared_labels.len() as int;
    lemma_undeclared(rv.undeclared_labels, u, m.label@, shaped);
    let declared = structure::after_undeclared(rv.undeclared_labels, u, m.label@, shaped);
    if u > 0 {
        lemma_undeclared(rv.undeclared_labels, u - 1, m.label@, shaped);
    }
    let bound = structure::after_bindings(
        rv,
        format == AssetFormat::C2paStore,
        m.label@,
        sig_url,
        structure::after_bounds(rv, sig_url, declared),
    );
    lemma_algorithms(rv.references, claim, n, sig_url, bound);
    let known = structure::after_algorithms(rv.references, claim, n, sig_url, bound);
    let v = rv.invalid_cbor_labels.len() as int;
    lemma_invalid(rv.invalid_cbor_labels, v, m.label@, known);
}

/// The results up to the structural checks.
pub open spec fn results_after_version(s: Subject, claim: Value, version: VersionVerdict) -> Results {
    pipeline::after_version(version, s.engine, s.refs(claim), s.sig_url(), Results::empty())
}

/// The results up to the redactions of the claim.
pub open spec fn results_after_structure(s: Subject, claim: Value, version: VersionVerdict) -> Results {
    let b = structure::after_structure(
        s.m,
        s.manifests,
        claim,
        s.m.generation,
        s.refs(claim),
        s.format,
        s.sig_url(),
        results_after_version(s, claim, version),
    );
    if pipeline::evidence_excess(s) {
        b.fail(
            CLAIM_MALFORMED@,
            s.sig_url(),
            "store-wide certificate-status evidence exceeds verifier bounds"@,
        )
    } else {
        b
    }
}

/// The results up to the nested references of the claim.
pub open spec fn results_after_redactions(s: Subject, claim: Value, version: VersionVerdict) -> Results {
    redaction::redaction_outcome(
        s.m.label@,
        claim,
        s.manifests,
        results_after_structure(s, claim, version),
    )
}

/// Neither the structural checks nor the redactions nor the nested references
/// add a failure.
pub open spec fn structure_adds_nothing(s: Subject, claim: Value, version: VersionVerdict) -> bool {
    &&& !pipeline::evidence_excess(s)
    &&& results_after_structure(s, claim, version).failure == results_after_version(
        s,
        claim,
        version,
    ).failure
    &&& results_after_redactions(s, claim, version).failure == results_after_structure(
        s,
        claim,
        version,
    ).failure
    &&& pipeline::structural_results(s, claim, version).failure == results_after_redactions(
        s,
        claim,
        version,
    ).failure
}

proof fn lemma_structure(s: Subject, claim: Value, version: VersionVerdict)
    ensures
        keeps(Results::empty(), pipeline::structural_results(s, claim, version)),
        pipeline::structural_results(s, claim, version).success.len() > 0 ==> adds_no_trust(
            Results::empty(),
            pipeline::structural_results(s, claim, version),
        ),
        !verdict::construction_failure(pipeline::structural_results(s, claim, version)) ==> {
            &&& structure_adds_nothing(s, claim, version)
            &&& pipeline::structure_sound(s, claim)
            &&& claim_refs::primary_count(
                s.refs(claim).binding_labels,
                s.format == AssetFormat::C2paStore,
            ) == 1
        },
{
    lemma_claim_codes();
    lemma_binding_codes();
    let rv = s.refs(claim);
    let url = s.sig_url();
    let generation = s.m.generation;
    let a = pipeline::after_version(version, s.engine, rv, url, Results::empty());
    let p = structure::after_preamble(s.m, s.manifests, claim, generation, url, a);
    assert(hardens(a, p));
    lemma_declarations(s.m, claim, generation, rv, s.format, url, p);
    let b = structure::after_structure(
        s.m,
        s.manifests,
        claim,
        generation,
        rv,
        s.format,
        url,
        a,
    );
    assert(hardens(a, b));
    let c = if pipeline::evidence_excess(s) {
        b.fail(
            CLAIM_MALFORMED@,
            url,
            "store-wide certificate-status evidence exceeds verifier bounds"@,
        )
    } else {
        b
    };
    assert(hardens(b, c));
    let d = redaction::redaction_outcome(s.m.label@, claim, s.manifests, c);
    if let Some(entries) = claim.items_field("redacted_assertions"@) {
        lemma_redactions(entries, entries.len() as int, s.m.label@, s.manifests, c);
    }
    assert(hardens(c, d));
    let e = pipeline::structural_results(s, claim, version);
    lemma_walk(claim, rv, 0, Seq::empty(), 0, generation, s.m.label@, s.manifests, d);
    assert(hardens(d, e));
    assert(a.success.len() == 0);
    if !verdict::construction_failure(e) {
        lemma_quiet(d, e);
        lemma_quiet(c, d);
        lemma_quiet(b, c);
        lemma_quiet(a, b);
    }
}

// ---------------------------------------------------------------------------
// Laws
// ---------------------------------------------------------------------------

/// A claim reference resolves inside its manifest, and the assertion has the
/// digest that the claim was signed over.
pub open spec fn reference_bound(
    reference: Reference,
    rv: Refs,
    claim: Value,
    generation: ClaimGeneration,
) -> bool {
    &&& reference.value.text_field("url"@) is Some
    &&& reference.label is Some
    &&& labels::algorithm_for(reference.value, claim) is Some
    &&& ({
        let a = rv.indexed(reference.label->0);
        let alg = labels::algorithm_for(reference.value, claim)->0;
        let expected = reference.value.bytes_field("hash"@);
        binding::content_bound(a, alg, expected) || (generation == ClaimGeneration::V1
            && binding::payload_bound(a, alg, expected))
    })
}

proof fn lemma_bound(
    rv: Refs,
    k: int,
    claim: Value,
    generation: ClaimGeneration,
    manifest: Seq<char>,
    r: Results,
)
    requires
        0 <= k <= rv.references.len(),
        binding::after_assertion_bindings(
            rv,
            k,
            claim,
            generation,
            manifest,
            r,
        ).failure.len() == r.failure.len(),
    ensures
        forall|i: int|
            0 <= i < k ==> reference_bound(#[trigger] rv.references[i], rv, claim, generation),
    decreases k,
{
    if k > 0 {
        lemma_bindings(rv, k - 1, claim, generation, manifest, r);
        lemma_bound(rv, k - 1, claim, generation, manifest, r);
    }
}

/// The results up to the references of the claim.
pub open spec fn results_after_references(s: Subject, claim: Value, version: VersionVerdict) -> Results {
    let rv = s.refs(claim);
    let n = rv.references.len() as int;
    let stamped = credential::timestamp_outcome(
        s.facts.timestamp,
        s.sig_url(),
        pipeline::structural_results(s, claim, version),
    ).1;
    let signed = credential::after_signature(
        s.facts.has_leaf(),
        s.facts.chain_error,
        s.facts.credential,
        pipeline::structure_sound(s, claim),
        profile::generous(s.engine),
        s.sig_url(),
        stamped,
    );
    binding::after_assertion_bindings(rv, n, claim, s.m.generation, s.m.label@, signed)
}

/// The results up to the hard binding.
pub open spec fn results_before_binding(s: Subject, claim: Value, version: VersionVerdict) -> Results {
    let rv = s.refs(claim);
    let n = rv.references.len() as int;
    let a = results_after_references(s, claim, version);
    ingredient::after_ingredients(rv, n, claim, s.manifests, s.hashes, s.sig_url(), a)
}

/// The hard binding of a manifest, held to the asset or to a caller's digest.
pub open spec fn results_after_binding(s: Subject, claim: Value, version: VersionVerdict) -> Results {
    let rv = s.refs(claim);
    let b = results_before_binding(s, claim, version);
    match s.prehashed {
        Some(digest) => binding::prehashed_outcome(claim, rv, digest, s.m.label@, b).1,
        None => binding::data_hash_outcome(
            claim,
            rv,
            s.data,
            s.format,
            s.facts.asset,
            s.m.label@,
            b,
        ).1,
    }
}

/// What an accepted manifest has: a claim with a signature of its own that
/// verifies under an acceptable certificate, sound declarations with exactly
/// one primary hard binding, every reference bound, and ingredients and a hard
/// binding that added no failure.
pub open spec fn signed_and_bound(s: Subject, claim: Value, version: VersionVerdict) -> bool {
    let rv = s.refs(claim);
    &&& s.m.signature_cose is Some
    &&& pipeline::names_own_signature(claim, s.m.label@)
    &&& structure_adds_nothing(s, claim, version)
    &&& pipeline::structure_sound(s, claim)
    &&& claim_refs::primary_count(rv.binding_labels, s.format == AssetFormat::C2paStore) == 1
    &&& credential::acceptable(s.facts.has_leaf(), s.facts.credential)
    &&& credential::usable(
        s.facts.has_leaf(),
        s.facts.credential,
        pipeline::structure_sound(s, claim),
        profile::generous(s.engine),
    )
    &&& forall|i: int|
        0 <= i < rv.references.len() ==> reference_bound(
            #[trigger] rv.references[i],
            rv,
            claim,
            s.m.generation,
        )
    &&& results_before_binding(s, claim, version).failure == results_after_references(
        s,
        claim,
        version,
    ).failure
    &&& results_after_binding(s, claim, version).failure == results_before_binding(
        s,
        claim,
        version,
    ).failure
}

/// A signature that does not verify, or whose certificate may not sign claims,
/// breaks; one outside the validity window is recorded.
proof fn lemma_signature(
    has_leaf: bool,
    chain_error: Option<String>,
    c: credential::CredentialFacts,
    sound: bool,
    generous: bool,
    url: Seq<char>,
    r: Results,
)
    ensures
        ({
            let signed = credential::after_signature(
                has_leaf,
                chain_error,
                c,
                sound,
                generous,
                url,
                r,
            );
            &&& keeps(r, signed)
            &&& !verdict::construction_failure(signed) ==> credential::acceptable(has_leaf, c)
                && credential::signature_ok(has_leaf, c)
            &&& has_leaf && !credential::in_validity(has_leaf, c) ==> signed.failure.len() > 0
                && signed.failure.last().code == CLAIM_SIGNATURE_OUTSIDE_VALIDITY@
        }),
{
    lemma_claim_codes();
    lemma_binding_codes();
    let signed = credential::after_signature(has_leaf, chain_error, c, sound, generous, url, r);
    let at = r.failure.len() as int;
    if !has_leaf || !credential::acceptable(has_leaf, c) {
        assert(signed.failure[at].code == SIGNING_CREDENTIAL_INVALID@);
    } else if !credential::signature_ok(has_leaf, c) {
        assert(signed.failure[at].code == CLAIM_SIGNATURE_MISMATCH@ || signed.failure[at].code
            == ALGORITHM_UNSUPPORTED@);
    }
}

/// What comes behind the bindings keeps their failures.
proof fn lemma_conclusion(s: Subject, claim: Value, bound: Results)
    ensures
        keeps(
            bound,
            program::program_upgraded(
                credential::after_trust(
                    s.facts.leaf(),
                    s.facts.credential,
                    pipeline::structure_sound(s, claim),
                    pipeline::revocation_finding(s).blocking(),
                    s.sig_url(),
                    online::after_revocation(
                        pipeline::revocation_finding(s),
                        pipeline::embedded_revocation(s).1,
                        s.sig_url(),
                        bound,
                    ),
                ),
                s.engine.compliance,
                s.sig_url(),
            ),
        ),
{
}

/// The checks that build on a usable signature add nothing but breaks, but for
/// what is known of the identity assertions.
proof fn lemma_bound_results(s: Subject, claim: Value, signed: Results)
    ensures
        keeps(signed, pipeline::bound_results(s, claim, signed)),
        !s.facts.identity.statuses@.succeeded(SIGNING_CREDENTIAL_TRUSTED@) ==> adds_no_trust(
            signed,
            pipeline::bound_results(s, claim, signed),
        ),
        !verdict::construction_failure(pipeline::bound_results(s, claim, signed)) ==> ({
            let rv = s.refs(claim);
            let n = rv.references.len() as int;
            let a = binding::after_assertion_bindings(
                rv,
                n,
                claim,
                s.m.generation,
                s.m.label@,
                signed,
            );
            let b = ingredient::after_ingredients(
                rv,
                n,
                claim,
                s.manifests,
                s.hashes,
                s.sig_url(),
                a,
            );
            let c = match s.prehashed {
                Some(digest) => binding::prehashed_outcome(claim, rv, digest, s.m.label@, b).1,
                None => binding::data_hash_outcome(
                    claim,
                    rv,
                    s.data,
                    s.format,
                    s.facts.asset,
                    s.m.label@,
                    b,
                ).1,
            };
            a.failure == signed.failure && b.failure == a.failure && c.failure == b.failure
        }),
{
    let rv = s.refs(claim);
    let n = rv.references.len() as int;
    lemma_bindings(rv, n, claim, s.m.generation, s.m.label@, signed);
    let a = binding::after_assertion_bindings(rv, n, claim, s.m.generation, s.m.label@, signed);
    lemma_ingredients(rv, n, claim, s.manifests, s.hashes, s.sig_url(), a);
    let b = ingredient::after_ingredients(rv, n, claim, s.manifests, s.hashes, s.sig_url(), a);
    let c = match s.prehashed {
        Some(digest) => binding::prehashed_outcome(claim, rv, digest, s.m.label@, b).1,
        None => binding::data_hash_outcome(
            claim,
            rv,
            s.data,
            s.format,
            s.facts.asset,
            s.m.label@,
            b,
        ).1,
    };
    match s.prehashed {
        Some(digest) => {
            lemma_prehashed(claim, rv, digest, s.m.label@, b);
        },
        None => {
            lemma_data_hash(claim, rv, s.data, s.format, s.facts.asset, s.m.label@, b);
        },
    }
    let d = if s.format == AssetFormat::C2paStore {
        compound::compound_outcome(rv, s.m.label@, s.hashes, c)
    } else {
        c
    };
    lemma_compound(rv, s.m.label@, s.hashes, c);
    let bound = pipeline::bound_results(s, claim, signed);
    assert(keeps(d, bound));
    assert(adds_no_trust(signed, d));
    if !s.facts.identity.statuses@.succeeded(SIGNING_CREDENTIAL_TRUSTED@) {
        let more = s.facts.identity.statuses@.success;
        assert forall|i: int| d.success.len() <= i < bound.success.len() implies (
        #[trigger] bound.success[i]).code != SIGNING_CREDENTIAL_TRUSTED@ by {
            assert(bound.success[i] == more[i - d.success.len()]);
        }
    }
    if !verdict::construction_failure(bound) {
        if verdict::construction_failure(d) {
            lemma_stays_broken(d, bound);
        }
        lemma_quiet(c, d);
        lemma_quiet(b, c);
        lemma_quiet(a, b);
        lemma_quiet(signed, a);
    }
}

proof fn lemma_signed(s: Subject, claim: Value, version: VersionVerdict)
    requires
        s.m.signature_cose is Some,
        pipeline::names_own_signature(claim, s.m.label@),
        verdict::state_of(pipeline::signed_results(s, claim, version), s.engine)
            != ValidationState::Invalid,
    ensures
        signed_and_bound(s, claim, version),
{
    let all = pipeline::signed_results(s, claim, version);
    lemma_broken_is_invalid(all, s.engine);
    lemma_structure(s, claim, version);
    let structured = pipeline::structural_results(s, claim, version);
    let sound = pipeline::structure_sound(s, claim);
    let generous = profile::generous(s.engine);
    let c = s.facts.credential;
    let has_leaf = s.facts.has_leaf();
    let stamped = credential::timestamp_outcome(s.facts.timestamp, s.sig_url(), structured).1;
    assert(keeps(structured, stamped));
    let signed = credential::after_signature(
        has_leaf,
        s.facts.chain_error,
        c,
        sound,
        generous,
        s.sig_url(),
        stamped,
    );
    lemma_signature(has_leaf, s.facts.chain_error, c, sound, generous, s.sig_url(), stamped);
    let good = credential::usable(has_leaf, c, sound, generous);
    let bound = if good {
        pipeline::bound_results(s, claim, signed)
    } else {
        signed
    };
    lemma_bound_results(s, claim, signed);
    lemma_conclusion(s, claim, bound);
    assert(keeps(bound, all));
    if verdict::construction_failure(bound) {
        lemma_stays_broken(bound, all);
    }
    if verdict::construction_failure(signed) {
        lemma_stays_broken(signed, bound);
    }
    if verdict::construction_failure(stamped) {
        lemma_stays_broken(stamped, signed);
    }
    if verdict::construction_failure(structured) {
        lemma_stays_broken(structured, stamped);
    }
    if !generous && !credential::in_validity(has_leaf, c) {
        let last = signed.failure.len() - 1;
        lemma_window_is_no_excuse();
        assert(keeps(signed, bound));
        assert(bound.failure[last] == signed.failure[last]);
        assert(all.failure[last] == bound.failure[last]);
        assert(verdict::invalidating(all.failure[last].code, s.engine));
    }
    let rv = s.refs(claim);
    lemma_bound(
        rv,
        rv.references.len() as int,
        claim,
        s.m.generation,
        s.m.label@,
        signed,
    );
}

proof fn lemma_window_is_no_excuse()
    ensures
        CLAIM_SIGNATURE_OUTSIDE_VALIDITY@ != SIGNING_CREDENTIAL_UNTRUSTED@,
        !verdict::identity_scoped(CLAIM_SIGNATURE_OUTSIDE_VALIDITY@),
{
    reveal_strlit("cawg.");
    reveal_strlit("signingCredential.untrusted");
    reveal_strlit("claimSignature.outsideValidity");
    let code = CLAIM_SIGNATURE_OUTSIDE_VALIDITY@;
    assert(code[0] == 'c' && code[1] == 'l');
    assert("signingCredential.untrusted"@[0] == 's');
    if verdict::identity_scoped(code) {
        assert(code.subrange(0, "cawg."@.len() as int)[1] == 'a');
    }
}

/// A manifest that is not invalid carries a claim whose own signature verifies
/// under an acceptable certificate; its declarations are sound, with exactly one
/// primary hard binding; every assertion it references has the digest that was
/// signed; and the hard binding found nothing amiss.
pub proof fn accepted_manifests_are_signed_and_bound(
    s: Subject,
    version: VersionVerdict,
    left: nat,
)
    requires
        pipeline::manifest_output(s, version, left).state != ValidationState::Invalid,
    ensures
        s.claim() is Some,
        signed_and_bound(s, s.claim()->0, version),
{
    lemma_claim_codes();
    let results = pipeline::manifest_output(s, version, left).results;
    lemma_broken_is_invalid(results, s.engine);
    match s.claim() {
        None => {
            assert(verdict::construction_invalidating(results.failure[0].code));
        },
        Some(claim) => {
            if s.m.signature_cose is None || !pipeline::names_own_signature(claim, s.m.label@) {
                let at = pipeline::structural_results(s, claim, version).failure.len() as int;
                assert(results.failure[at].code == CLAIM_SIGNATURE_MISSING@);
            } else {
                lemma_signed(s, claim, version);
            }
        },
    }
}

/// The asset bytes outside the excluded ranges have the digest that the data
/// hash `label` commits to.
pub open spec fn data_hash_holds(s: Subject, claim: Value, label: Seq<char>) -> bool {
    let rv = s.refs(claim);
    &&& rv.indexed(label) is Some
    &&& rv.indexed(label)->0.decoded is Some
    &&& ({
        let h = rv.indexed(label)->0.decoded->0;
        &&& labels::algorithm_for(h, claim) is Some
        &&& h.bytes_field("hash"@) is Some
        &&& hash::named_digest(
            labels::algorithm_for(h, claim)->0,
            hash::retained(s.data, binding::effective_ranges(h, s.facts.asset.carriers)),
        ) == h.bytes_field("hash"@)
    })
}

/// The parts of the claim's multi-asset assertion lie side by side from the
/// first byte to the last, and nothing is wrong with any of them.
pub open spec fn multi_asset_holds(s: Subject, claim: Value) -> bool {
    let rv = s.refs(claim);
    let url = structure::assertion_url(s.m.label@, "c2pa.hash.multi-asset"@);
    let facts = s.facts.asset.multi_asset;
    &&& binding::fallback_payload(rv) is Some
    &&& ({
        let parts = multi_asset::located(
            binding::fallback_payload(rv)->0.value,
            claim,
            rv,
            s.data,
            s.format,
            s.m.label@,
            facts.locator_ranges,
        );
        &&& parts is Ok
        &&& multi_asset::coverage_from(parts->Ok_0, 0, 0) is Ok
        &&& multi_asset::coverage_from(parts->Ok_0, 0, 0)->Ok_0 >= s.data.len()
        &&& !multi_asset::any_part_fault(
            parts->Ok_0,
            parts->Ok_0.len() as int,
            facts.parts@,
            claim,
            s.data,
            s.m.label@,
            url,
        )
    })
}

proof fn lemma_primary_is_referenced(list: Seq<Reference>, compound_ok: bool, i: int)
    requires
        0 <= i,
    ensures
        claim_refs::primary_from(list, compound_ok, i) matches Some(p) ==> p.label is Some
            && exists|j: int| 0 <= j < list.len() && #[trigger] list[j] == p,
    decreases list.len() - i,
{
    if i < list.len() {
        lemma_primary_is_referenced(list, compound_ok, i + 1);
    }
}

/// Where an accepted manifest is bound by a data hash, the asset bytes have the
/// digest that was signed, or else the multi-asset assertion of the claim
/// accounts for every byte of the asset.
pub proof fn accepted_data_hashes_match_the_asset(
    s: Subject,
    version: VersionVerdict,
    left: nat,
    primary: Reference,
)
    requires
        pipeline::manifest_output(s, version, left).state != ValidationState::Invalid,
        s.prehashed is None,
        s.refs(s.claim()->0).primary(s.format == AssetFormat::C2paStore) == Some(primary),
        primary.label == Some("c2pa.hash.data"@),
    ensures
        data_hash_holds(s, s.claim()->0, "c2pa.hash.data"@) || multi_asset_holds(
            s,
            s.claim()->0,
        ),
{
    accepted_manifests_are_signed_and_bound(s, version, left);
    let claim = s.claim()->0;
    let rv = s.refs(claim);
    let label = "c2pa.hash.data"@;
    reveal_strlit("c2pa.hash.data");
    reveal_strlit("c2pa.hash.boxes");
    reveal_strlit("c2pa.hash.collection.data");
    reveal_strlit("c2pa.compound.content");
    reveal_strlit("c2pa.hash.bmff.v2");
    reveal_strlit("c2pa.hash.bmff.v3");
    assert(label.len() == 14);
    assert("c2pa.hash.bmff.v2"@.len() == 17);
    assert("c2pa.hash.bmff.v3"@.len() == 17);
    assert("c2pa.hash.boxes"@.len() == 15);
    assert("c2pa.hash.collection.data"@.len() == 25);
    assert("c2pa.compound.content"@.len() == 21);
    assert(!labels::bmff_hash_label(label));
    lemma_primary_is_referenced(rv.references, s.format == AssetFormat::C2paStore, 0);
    let j = choose|j: int|
        0 <= j < rv.references.len() && #[trigger] rv.references[j] == primary;
    assert(reference_bound(rv.references[j], rv, claim, s.m.generation));
    let r = results_before_binding(s, claim, version);
    let after = binding::primary_outcome(
        claim,
        rv,
        s.data,
        s.format,
        s.facts.asset,
        s.m.label@,
        r,
    );
    lemma_primary(claim, rv, s.data, s.format, s.facts.asset, s.m.label@, r);
    if after.failure.len() > r.failure.len() {
        let taken = Results { failure: after.failure.take(r.failure.len() as int), ..after };
        assert(binding::fallback_payload(rv) is Some);
        let p = binding::fallback_payload(rv)->0;
        lemma_multi_asset(
            p.value,
            claim,
            rv,
            s.data,
            s.format,
            s.m.label@,
            s.facts.asset.multi_asset,
            taken,
        );
        lemma_parts_quiet(s, claim, p.value, taken);
    }
}

/// The proofs that the trees of a BMFF hash are climbed by.
pub open spec fn proofs_of(entries: Seq<Value>, facts: BmffFacts) -> Option<Map<ProofKey, usize>> {
    if bmff_merkle::any_upper_row(entries) {
        match bmff::proof_index_of(facts.merkle_boxes) {
            Ok(m) => Some(m),
            Err(_) => None,
        }
    } else {
        None
    }
}

/// The entry is a fragment tree whose `initHash` is the digest of the
/// initialization scope, or a tree over media data.
pub open spec fn init_hash_holds(entry: Value, alg: Seq<char>, facts: BmffFacts) -> bool {
    match entry.field("initHash"@) {
        None => true,
        Some(Value::Bytes(h)) => bmff_merkle::init_defect(entry, h@, alg, facts) is None,
        Some(_) => false,
    }
}

/// How many of the entries from `i` on are trees over media data.
pub open spec fn media_trees(entries: Seq<Value>, i: int) -> nat
    decreases entries.len() - i,
{
    if i < 0 || i >= entries.len() {
        0
    } else if entries[i].field("initHash"@) is None {
        1 + media_trees(entries, i + 1)
    } else {
        media_trees(entries, i + 1)
    }
}

/// The Merkle trees of a BMFF hash hold: every `initHash` is the digest of the
/// initialization scope, no tree over media data has a defect, and the leaf of
/// every supplied fragment is stored.
pub open spec fn trees_hold(
    hash_data: Value,
    alg: Seq<char>,
    data: Seq<u8>,
    facts: BmffFacts,
    fragments: Seq<FragmentFacts>,
) -> bool {
    &&& hash_data.items_field("merkle"@) is Some
    &&& ({
        let entries = hash_data.items_field("merkle"@)->0;
        let plans = bmff::monolithic_plans(entries, alg, data, bmff::spans_opt(facts.mdats));
        let trees = bmff_merkle::trees_from(entries, 0, Map::empty());
        &&& entries.len() > 0
        &&& plans is Ok
        &&& media_trees(entries, 0) <= plans->Ok_0.len()
        &&& forall|i: int|
            0 <= i < entries.len() ==> init_hash_holds(#[trigger] entries[i], alg, facts)
        &&& forall|j: int|
            0 <= j < media_trees(entries, 0) ==> bmff::monolithic_defect(
                #[trigger] plans->Ok_0[j],
                bmff_merkle::boxes_of(facts.merkle_boxes),
                proofs_of(entries, facts),
            ) is None
        &&& bmff_merkle::any_init_hash(entries) && fragments.len() > 0 ==> trees is Ok && forall|
            i: int,
        |
            0 <= i < fragments.len() ==> bmff_merkle::leaf_stored(
                entries,
                alg,
                trees->Ok_0,
                #[trigger] fragments[i],
            )
    })
}

/// The asset has the structural digest that the BMFF hash `label` commits to,
/// and the Merkle trees that it commits to hold.
pub open spec fn bmff_hash_holds(s: Subject, claim: Value, label: Seq<char>) -> bool {
    let rv = s.refs(claim);
    let facts = s.facts.asset;
    &&& rv.indexed(label) is Some
    &&& rv.indexed(label)->0.decoded is Some
    &&& ({
        let h = rv.indexed(label)->0.decoded->0;
        let alg = labels::algorithm_for(h, claim);
        &&& alg is Some
        &&& h.bytes_field("hash"@) is Some || h.field("merkle"@) is Some
        &&& h.bytes_field("hash"@) is Some ==> facts.bmff.structural.named(alg->0) == Some(
            Ok::<Seq<u8>, Seq<char>>(h.bytes_field("hash"@)->0),
        )
        &&& h.field("merkle"@) is Some ==> trees_hold(
            h,
            alg->0,
            s.data,
            facts.bmff,
            facts.fragments@,
        )
    })
}

proof fn lemma_scan_holds(
    entries: Seq<Value>,
    i: int,
    alg: Seq<char>,
    facts: BmffFacts,
    plans: Seq<Plan>,
    index: Option<Map<ProofKey, usize>>,
    url: Seq<char>,
    s: Scan,
)
    requires
        0 <= i <= entries.len(),
        bmff_merkle::scan_from(entries, i, alg, facts, plans, index, url, s) matches Ok(t)
            && t.results.failure.len() == s.results.failure.len(),
    ensures
        ({
            let t = bmff_merkle::scan_from(entries, i, alg, facts, plans, index, url, s)->Ok_0;
            &&& forall|j: int|
                i <= j < entries.len() ==> init_hash_holds(#[trigger] entries[j], alg, facts)
            &&& t.monolithic == s.monolithic + media_trees(entries, i)
            &&& t.monolithic <= plans.len() || t.monolithic == s.monolithic
            &&& forall|j: int|
                s.monolithic <= j < t.monolithic ==> bmff::monolithic_defect(
                    #[trigger] plans[j],
                    bmff_merkle::boxes_of(facts.merkle_boxes),
                    index,
                ) is None
            &&& t.tracks >= s.tracks
            &&& (exists|j: int|
                i <= j < entries.len() && (#[trigger] entries[j]).field("initHash"@) is Some)
                ==> t.tracks > s.tracks
        }),
    decreases entries.len() - i,
{
    if i < entries.len() {
        match bmff_merkle::scan_entry(entries[i], alg, facts, plans, index, url, s) {
            Ok(next) => {
                lemma_scan(entries, i + 1, alg, facts, plans, index, url, next);
                lemma_scan_holds(entries, i + 1, alg, facts, plans, index, url, next);
            },
            Err(_) => {},
        }
    }
}

proof fn lemma_merkle_holds(
    hash_data: Value,
    alg: Seq<char>,
    data: Seq<u8>,
    facts: BmffFacts,
    fragments: Seq<FragmentFacts>,
    url: Seq<char>,
    compromised: bool,
    r: Results,
)
    requires
        bmff_merkle::merkle_outcome(
            hash_data,
            alg,
            data,
            facts,
            fragments,
            url,
            compromised,
            r,
        ).failure.len() == r.failure.len(),
    ensures
        trees_hold(hash_data, alg, data, facts, fragments),
{
    let entries = hash_data.items_field("merkle"@)->0;
    let plans = bmff::monolithic_plans(entries, alg, data, bmff::spans_opt(facts.mdats))->Ok_0;
    let index = proofs_of(entries, facts);
    let start = Scan { results: r, tracks: 0, trees: 0, monolithic: 0, monolithic_ok: 0 };
    lemma_scan(entries, 0, alg, facts, plans, index, url, start);
    let scanned = bmff_merkle::scan_from(entries, 0, alg, facts, plans, index, url, start);
    assert(scanned is Ok);
    let t = scanned->Ok_0;
    let (ok, after) = bmff_merkle::fragments_outcome(entries, alg, fragments, url, t.results);
    match bmff_merkle::trees_from(entries, 0, Map::empty()) {
        Ok(trees) => {
            let w = bmff_merkle::fresh_walk(t.results);
            lemma_fragments(entries, alg, trees, fragments, 0, url, w);
            if after.failure.len() == t.results.failure.len() {
                lemma_walk_counts(entries, alg, trees, fragments, 0, url, w);
            }
        },
        Err(_) => {},
    }
    lemma_scan_holds(entries, 0, alg, facts, plans, index, url, start);
    if bmff_merkle::any_init_hash(entries) && fragments.len() > 0 {
        assert(t.tracks > 0);
        bmff_merkle::accepted_fragments_have_stored_leaves(
            entries,
            alg,
            fragments,
            url,
            t.results,
        );
    }
}

/// A walk that adds no failure matches every fragment.
proof fn lemma_walk_counts(
    entries: Seq<Value>,
    alg: Seq<char>,
    trees: Map<TrackKey, usize>,
    fragments: Seq<FragmentFacts>,
    i: int,
    url: Seq<char>,
    w: Walk,
)
    requires
        0 <= i <= fragments.len(),
        w.matched == i,
        bmff_merkle::fragments_from(entries, alg, trees, fragments, i, url, w).1.failure.len()
            == w.results.failure.len(),
    ensures
        fragments.len() > 0 ==> bmff_merkle::fragments_from(
            entries,
            alg,
            trees,
            fragments,
            i,
            url,
            w,
        ).0,
    decreases fragments.len() - i,
{
    if i < fragments.len() {
        match bmff_merkle::fragment_step(entries, alg, trees, fragments[i], i as nat, url, w) {
            Ok(next) => {
                lemma_fragments(entries, alg, trees, fragments, i + 1, url, next);
                lemma_walk_counts(entries, alg, trees, fragments, i + 1, url, next);
            },
            Err(_) => {},
        }
    }
}

/// Where an accepted manifest is bound by a BMFF hash, the asset has the
/// structural digest that was signed and every signed Merkle tree holds, down to
/// the leaf of each supplied fragment; or else the multi-asset assertion of the
/// claim accounts for every byte of the asset.
pub proof fn accepted_bmff_hashes_match_the_asset(
    s: Subject,
    version: VersionVerdict,
    left: nat,
    primary: Reference,
    label: Seq<char>,
)
    requires
        pipeline::manifest_output(s, version, left).state != ValidationState::Invalid,
        s.prehashed is None,
        s.refs(s.claim()->0).primary(s.format == AssetFormat::C2paStore) == Some(primary),
        primary.label == Some(label),
        labels::bmff_hash_label(label),
    ensures
        bmff_hash_holds(s, s.claim()->0, label) || multi_asset_holds(s, s.claim()->0),
{
    accepted_manifests_are_signed_and_bound(s, version, left);
    let claim = s.claim()->0;
    let rv = s.refs(claim);
    reveal_strlit("c2pa.hash.boxes");
    reveal_strlit("c2pa.hash.collection.data");
    reveal_strlit("c2pa.compound.content");
    reveal_strlit("c2pa.hash.bmff.v2");
    reveal_strlit("c2pa.hash.bmff.v3");
    assert(label.len() == 17 && label[10] == 'b');
    lemma_primary_is_referenced(rv.references, s.format == AssetFormat::C2paStore, 0);
    let j = choose|j: int|
        0 <= j < rv.references.len() && #[trigger] rv.references[j] == primary;
    assert(reference_bound(rv.references[j], rv, claim, s.m.generation));
    let r = results_before_binding(s, claim, version);
    let after = binding::primary_outcome(
        claim,
        rv,
        s.data,
        s.format,
        s.facts.asset,
        s.m.label@,
        r,
    );
    lemma_primary(claim, rv, s.data, s.format, s.facts.asset, s.m.label@, r);
    if after.failure.len() > r.failure.len() {
        let taken = Results { failure: after.failure.take(r.failure.len() as int), ..after };
        assert(binding::fallback_payload(rv) is Some);
        let p = binding::fallback_payload(rv)->0;
        lemma_multi_asset(
            p.value,
            claim,
            rv,
            s.data,
            s.format,
            s.m.label@,
            s.facts.asset.multi_asset,
            taken,
        );
        lemma_parts_quiet(s, claim, p.value, taken);
    } else {
        let h = rv.indexed(label)->0.decoded->0;
        let alg = labels::algorithm_for(h, claim)->0;
        if h.field("merkle"@) is Some {
            lemma_merkle_holds(
                h,
                alg,
                s.data,
                s.facts.asset.bmff,
                s.facts.asset.fragments@,
                structure::assertion_url(s.m.label@, label),
                binding::compromised(r),
                r,
            );
        }
    }
}

proof fn lemma_part_faults(
    parts: Seq<Part>,
    k: int,
    facts: Seq<PartFacts>,
    claim: Value,
    data: Seq<u8>,
    manifest: Seq<char>,
    url: Seq<char>,
    r: Results,
)
    requires
        0 <= k,
        multi_asset::any_part_fault(parts, k, facts, claim, data, manifest, url),
    ensures
        multi_asset::after_parts(parts, k, facts, claim, data, manifest, url, r).failure.len()
            > r.failure.len(),
    decreases k,
{
    lemma_parts(parts, k - 1, facts, claim, data, manifest, url, r);
    let i = choose|i: int|
        0 <= i < k && multi_asset::part_fault(
            #[trigger] parts[i],
            facts[i],
            claim,
            data,
            manifest,
            url,
        ) is Some;
    if i < k - 1 {
        assert(multi_asset::any_part_fault(parts, k - 1, facts, claim, data, manifest, url));
        lemma_part_faults(parts, k - 1, facts, claim, data, manifest, url, r);
    }
}

proof fn lemma_parts_quiet(s: Subject, claim: Value, ma: Option<Value>, r: Results)
    requires
        binding::fallback_payload(s.refs(claim)) matches Some(p) && p.value == ma,
        multi_asset::multi_asset_outcome(
            ma,
            claim,
            s.refs(claim),
            s.data,
            s.format,
            s.m.label@,
            s.facts.asset.multi_asset,
            r,
        ).failure.len() == r.failure.len(),
    ensures
        multi_asset_holds(s, claim),
{
    let facts = s.facts.asset.multi_asset;
    let url = structure::assertion_url(s.m.label@, "c2pa.hash.multi-asset"@);
    match multi_asset::located(
        ma,
        claim,
        s.refs(claim),
        s.data,
        s.format,
        s.m.label@,
        facts.locator_ranges,
    ) {
        Ok(parts) => {
            let n = parts.len() as int;
            lemma_parts(parts, n, facts.parts@, claim, s.data, s.m.label@, url, r);
            if multi_asset::any_part_fault(
                parts,
                n,
                facts.parts@,
                claim,
                s.data,
                s.m.label@,
                url,
            ) {
                lemma_part_faults(parts, n, facts.parts@, claim, s.data, s.m.label@, url, r);
            }
        },
        Err(_) => {},
    }
}

proof fn lemma_fragments_quiet(
    entries: Seq<Value>,
    alg: Seq<char>,
    trees: Map<TrackKey, usize>,
    fragments: Seq<FragmentFacts>,
    i: int,
    url: Seq<char>,
    w: Walk,
)
    ensures
        bmff_merkle::fragments_from(entries, alg, trees, fragments, i, url, w).1.success
            == w.results.success,
    decreases fragments.len() - i,
{
    if 0 <= i < fragments.len() {
        match bmff_merkle::fragment_step(entries, alg, trees, fragments[i], i as nat, url, w) {
            Ok(next) => {
                lemma_fragments_quiet(entries, alg, trees, fragments, i + 1, url, next);
            },
            Err(_) => {},
        }
    }
}

proof fn lemma_scan_quiet(
    entries: Seq<Value>,
    i: int,
    alg: Seq<char>,
    facts: BmffFacts,
    plans: Seq<Plan>,
    index: Option<Map<ProofKey, usize>>,
    url: Seq<char>,
    s: Scan,
)
    ensures
        match bmff_merkle::scan_from(entries, i, alg, facts, plans, index, url, s) {
            Ok(t) => t.results.success == s.results.success,
            Err(r) => r.success == s.results.success,
        },
    decreases entries.len() - i,
{
    if 0 <= i < entries.len() {
        match bmff_merkle::scan_entry(entries[i], alg, facts, plans, index, url, s) {
            Ok(next) => {
                lemma_scan_quiet(entries, i + 1, alg, facts, plans, index, url, next);
            },
            Err(_) => {},
        }
    }
}

proof fn lemma_merkle_quiet(
    hash_data: Value,
    alg: Seq<char>,
    data: Seq<u8>,
    facts: BmffFacts,
    fragments: Seq<FragmentFacts>,
    url: Seq<char>,
    r: Results,
)
    ensures
        bmff_merkle::merkle_outcome(
            hash_data,
            alg,
            data,
            facts,
            fragments,
            url,
            true,
            r,
        ).success == r.success,
{
    assert forall|
        entries: Seq<Value>,
        plans: Seq<Plan>,
        index: Option<Map<ProofKey, usize>>,
        s: Scan,
    | true implies match #[trigger] bmff_merkle::scan_from(
        entries,
        0,
        alg,
        facts,
        plans,
        index,
        url,
        s,
    ) {
        Ok(t) => t.results.success == s.results.success,
        Err(e) => e.success == s.results.success,
    } by {
        lemma_scan_quiet(entries, 0, alg, facts, plans, index, url, s);
    }
    assert forall|entries: Seq<Value>, trees: Map<TrackKey, usize>, w: Walk| true implies (
    #[trigger] bmff_merkle::fragments_from(
        entries,
        alg,
        trees,
        fragments,
        0,
        url,
        w,
    ).1).success == w.results.success by {
        lemma_fragments_quiet(entries, alg, trees, fragments, 0, url, w);
    }
}

/// Where a referenced assertion was altered or is missing, nothing positive is
/// reported of the hard binding, whatever the asset bytes hash to.
pub proof fn altered_assertions_bind_nothing(
    claim: Value,
    rv: Refs,
    data: Seq<u8>,
    format: AssetFormat,
    facts: binding::AssetFacts,
    manifest: Seq<char>,
    r: Results,
)
    requires
        binding::compromised(r),
    ensures
        binding::data_hash_outcome(claim, rv, data, format, facts, manifest, r).0 is None,
        binding::data_hash_outcome(claim, rv, data, format, facts, manifest, r).1.success
            == r.success,
{
    assert forall|hash_data: Value, alg: Seq<char>, url: Seq<char>| true implies (
    #[trigger] bmff_merkle::merkle_outcome(
        hash_data,
        alg,
        data,
        facts.bmff,
        facts.fragments@,
        url,
        true,
        r,
    )).success == r.success by {
        lemma_merkle_quiet(hash_data, alg, data, facts.bmff, facts.fragments@, url, r);
    }
    let after = binding::primary_outcome(claim, rv, data, format, facts, manifest, r);
    assert(after.success == r.success);
    let taken = Results { failure: after.failure.take(r.failure.len() as int), ..after };
    if let Some(p) = binding::fallback_payload(rv) {
        lemma_multi_asset_success(
            p.value,
            claim,
            rv,
            data,
            format,
            manifest,
            facts.multi_asset,
            taken,
        );
    }
}

proof fn lemma_parts_success(
    parts: Seq<Part>,
    k: int,
    facts: Seq<PartFacts>,
    claim: Value,
    data: Seq<u8>,
    manifest: Seq<char>,
    url: Seq<char>,
    r: Results,
)
    ensures
        multi_asset::after_parts(parts, k, facts, claim, data, manifest, url, r).success
            == r.success,
    decreases k,
{
    if k > 0 {
        lemma_parts_success(parts, k - 1, facts, claim, data, manifest, url, r);
    }
}

proof fn lemma_multi_asset_success(
    ma: Option<Value>,
    claim: Value,
    rv: Refs,
    data: Seq<u8>,
    format: AssetFormat,
    manifest: Seq<char>,
    facts: multi_asset::MultiAssetFacts,
    r: Results,
)
    ensures
        binding::first_statuses(
            multi_asset::multi_asset_outcome(
                ma,
                claim,
                rv,
                data,
                format,
                manifest,
                facts,
                r,
            ).success,
            r.success.len(),
        ) == r.success,
{
    let url = structure::assertion_url(manifest, "c2pa.hash.multi-asset"@);
    let after = multi_asset::multi_asset_outcome(ma, claim, rv, data, format, manifest, facts, r);
    match multi_asset::located(ma, claim, rv, data, format, manifest, facts.locator_ranges) {
        Ok(parts) => {
            lemma_parts_success(
                parts,
                parts.len() as int,
                facts.parts@,
                claim,
                data,
                manifest,
                url,
                r,
            );
        },
        Err(_) => {},
    }
    assert(binding::first_statuses(after.success, r.success.len()) =~= r.success);
}

// ---------------------------------------------------------------------------
// Ingredients, trust and boxes of an accepted manifest
// ---------------------------------------------------------------------------

/// The signature box of a manifest is no manifest.
proof fn lemma_signature_box_is_no_manifest(s: Subject)
    ensures
        labels::named_manifest(s.sig_url(), None) is None,
{
    reveal_strlit("self#jumbf=/c2pa/");
    reveal_strlit("/c2pa.signature");
    let url = s.sig_url();
    let prefix = "self#jumbf=/c2pa/"@;
    let n = prefix.len() as int;
    if let Some(rest) = text::after_prefix(url, prefix) {
        let at = s.m.label@.len() as int;
        assert(rest[at] == url[n + at]);
        assert(url[n + at] == "/c2pa.signature"@[0]);
        assert("/c2pa.signature"@[0] == '/');
        assert(rest.contains('/'));
    }
}

/// In a manifest that is not invalid, every ingredient that the claim references
/// is authenticated. Each reference whose label begins with `c2pa.ingredient`,
/// a numbered instance as well as the plain label, and whose assertion is decoded
/// and carries `activeManifest`, names a manifest of the store that has the
/// stated digest, or one that the claim redacts inside of while its claim
/// signature has the stated digest.
pub proof fn accepted_ingredients_are_authenticated(
    s: Subject,
    version: VersionVerdict,
    left: nat,
    i: int,
    label: Seq<char>,
    active: Value,
)
    requires
        pipeline::manifest_output(s, version, left).state != ValidationState::Invalid,
        0 <= i < s.refs(s.claim()->0).references.len(),
        s.refs(s.claim()->0).references[i].label == Some(label),
        label.len() >= 15,
        label.subrange(0, 15) == "c2pa.ingredient"@,
        s.refs(s.claim()->0).decoded(label) is Some,
        s.refs(s.claim()->0).decoded(label)->0.field("activeManifest"@) == Some(active),
    ensures
        ingredient::child_has_stated_digest(active, s.claim()->0, s.manifests, s.hashes)
            || ingredient::child_is_excused(
            active,
            s.refs(s.claim()->0).decoded(label)->0,
            s.claim()->0,
            s.manifests,
            s.sig_url(),
        ),
{
    accepted_manifests_are_signed_and_bound(s, version, left);
    lemma_signature_box_is_no_manifest(s);
    let claim = s.claim()->0;
    ingredient::every_unfaulted_ingredient_is_authenticated(
        s.refs(claim),
        claim,
        s.manifests,
        s.hashes,
        s.sig_url(),
        results_after_references(s, claim, version),
        i,
        label,
        active,
    );
}

proof fn lemma_signing_codes()
    ensures
        TIME_STAMP_VALIDATED@ != SIGNING_CREDENTIAL_TRUSTED@,
        TIME_STAMP_TRUSTED@ != SIGNING_CREDENTIAL_TRUSTED@,
        CLAIM_SIGNATURE_VALIDATED@ != SIGNING_CREDENTIAL_TRUSTED@,
        CLAIM_SIGNATURE_INSIDE_VALIDITY@ != SIGNING_CREDENTIAL_TRUSTED@,
        SIGNING_CREDENTIAL_OCSP_NOT_REVOKED@ != SIGNING_CREDENTIAL_TRUSTED@,
{
    reveal_strlit("signingCredential.trusted");
    reveal_strlit("timeStamp.validated");
    reveal_strlit("timeStamp.trusted");
    reveal_strlit("claimSignature.validated");
    reveal_strlit("claimSignature.insideValidity");
    reveal_strlit("signingCredential.ocsp.notRevoked");
    assert(SIGNING_CREDENTIAL_TRUSTED@.len() == 25);
    assert(TIME_STAMP_VALIDATED@.len() == 19);
    assert(TIME_STAMP_TRUSTED@.len() == 17);
    assert(CLAIM_SIGNATURE_VALIDATED@.len() == 24);
    assert(CLAIM_SIGNATURE_INSIDE_VALIDITY@.len() == 29);
    assert(SIGNING_CREDENTIAL_OCSP_NOT_REVOKED@.len() == 33);
}

/// What is recorded before trust is judged.
spec fn results_before_trust(s: Subject, claim: Value, version: VersionVerdict) -> Results {
    let sound = pipeline::structure_sound(s, claim);
    let generous = profile::generous(s.engine);
    let stamped = credential::timestamp_outcome(
        s.facts.timestamp,
        s.sig_url(),
        pipeline::structural_results(s, claim, version),
    ).1;
    let signed = credential::after_signature(
        s.facts.has_leaf(),
        s.facts.chain_error,
        s.facts.credential,
        sound,
        generous,
        s.sig_url(),
        stamped,
    );
    let bound = if credential::usable(s.facts.has_leaf(), s.facts.credential, sound, generous) {
        pipeline::bound_results(s, claim, signed)
    } else {
        signed
    };
    online::after_revocation(
        pipeline::revocation_finding(s),
        pipeline::embedded_revocation(s).1,
        s.sig_url(),
        bound,
    )
}

proof fn lemma_no_trust_before(s: Subject, claim: Value, version: VersionVerdict)
    requires
        !s.facts.identity.statuses@.succeeded(SIGNING_CREDENTIAL_TRUSTED@),
    ensures
        !results_before_trust(s, claim, version).succeeded(SIGNING_CREDENTIAL_TRUSTED@),
{
    lemma_signing_codes();
    lemma_structure(s, claim, version);
    let sound = pipeline::structure_sound(s, claim);
    let generous = profile::generous(s.engine);
    let structured = pipeline::structural_results(s, claim, version);
    let stamped = credential::timestamp_outcome(s.facts.timestamp, s.sig_url(), structured).1;
    assert(adds_no_trust(structured, stamped));
    let signed = credential::after_signature(
        s.facts.has_leaf(),
        s.facts.chain_error,
        s.facts.credential,
        sound,
        generous,
        s.sig_url(),
        stamped,
    );
    assert(adds_no_trust(stamped, signed));
    lemma_bound_results(s, claim, signed);
    let bound = if credential::usable(s.facts.has_leaf(), s.facts.credential, sound, generous) {
        pipeline::bound_results(s, claim, signed)
    } else {
        signed
    };
    assert(adds_no_trust(signed, bound));
    let checked = results_before_trust(s, claim, version);
    assert(adds_no_trust(bound, checked));
    if checked.succeeded(SIGNING_CREDENTIAL_TRUSTED@) {
        let i = choose|i: int|
            0 <= i < checked.success.len() && (#[trigger] checked.success[i]).code
                == SIGNING_CREDENTIAL_TRUSTED@;
        assert(i < bound.success.len());
        assert(bound.success[i] == checked.success[i]);
        assert(i < signed.success.len());
        assert(signed.success[i] == bound.success[i]);
        assert(i < stamped.success.len());
        assert(stamped.success[i] == signed.success[i]);
        assert(i < structured.success.len());
        assert(structured.success[i] == stamped.success[i]);
    }
}

/// A manifest is trusted only on a chain to a supplied anchor or on a leaf that
/// the caller listed: in a trusted manifest either the chain was judged trusted
/// against the supplied trust list with an acceptable leaf, or the leaf is on the
/// supplied allowed list, acceptable and in its validity window; its structure is
/// sound, and no revocation stands in the way. A manifest that is neither invalid
/// nor trusted, although a list was supplied, reports
/// `signingCredential.untrusted`. What the host knows of identity assertions
/// never speaks of the signing credential.
pub proof fn trusted_manifests_are_anchored_or_listed(
    s: Subject,
    version: VersionVerdict,
    left: nat,
)
    requires
        !s.facts.identity.statuses@.succeeded(SIGNING_CREDENTIAL_TRUSTED@),
    ensures
        ({
            let out = pipeline::manifest_output(s, version, left);
            let c = s.facts.credential;
            let earned = credential::anchored(c) || credential::directly_trusted(
                s.facts.leaf(),
                c,
            );
            &&& out.state == ValidationState::Trusted ==> s.claim() is Some && earned
                && s.facts.leaf() is Some && pipeline::structure_sound(s, s.claim()->0)
                && !pipeline::revocation_finding(s).blocking() && credential::signature_ok(
                s.facts.has_leaf(),
                c,
            )
            &&& out.state == ValidationState::Valid && s.facts.leaf() is Some && (c.chain is Some
                || c.allowed is Some) ==> (!earned || pipeline::revocation_finding(s).blocking())
                && out.results.failed(SIGNING_CREDENTIAL_UNTRUSTED@)
        }),
{
    let out = pipeline::manifest_output(s, version, left);
    if out.state != ValidationState::Invalid {
        accepted_manifests_are_signed_and_bound(s, version, left);
        let claim = s.claim()->0;
        lemma_no_trust_before(s, claim, version);
        let before = results_before_trust(s, claim, version);
        let sound = pipeline::structure_sound(s, claim);
        let blocking = pipeline::revocation_finding(s).blocking();
        credential::trust_is_recorded_exactly_where_earned(
            s.facts.leaf(),
            s.facts.credential,
            sound,
            blocking,
            s.sig_url(),
            before,
        );
        let judged = credential::after_trust(
            s.facts.leaf(),
            s.facts.credential,
            sound,
            blocking,
            s.sig_url(),
            before,
        );
        program::upgrades_only_add_failures(judged, s.engine.compliance, s.sig_url());
        assert(out.results == program::program_upgraded(judged, s.engine.compliance, s.sig_url()));
        assert(out.results.success == judged.success);
        if judged.failed(SIGNING_CREDENTIAL_UNTRUSTED@) {
            let i = choose|i: int|
                0 <= i < judged.failure.len() && (#[trigger] judged.failure[i]).code
                    == SIGNING_CREDENTIAL_UNTRUSTED@;
            assert(out.results.failure[i].code == SIGNING_CREDENTIAL_UNTRUSTED@);
        }
    }
}

/// Where an accepted manifest is bound by a general box hash over a segmented
/// asset, the entries of the hash cover every box of the asset with the digests
/// that were signed; or else the multi-asset assertion of the claim accounts for
/// every byte of the asset.
pub proof fn accepted_box_hashes_match_the_asset(
    s: Subject,
    version: VersionVerdict,
    left: nat,
    primary: Reference,
    spans: Vec<boxes::BoxSpan>,
)
    requires
        pipeline::manifest_output(s, version, left).state != ValidationState::Invalid,
        s.prehashed is None,
        s.refs(s.claim()->0).primary(s.format == AssetFormat::C2paStore) == Some(primary),
        primary.label == Some("c2pa.hash.boxes"@),
        s.refs(s.claim()->0).indexed("c2pa.hash.boxes"@)->0.payload is Some,
        s.facts.asset.spans == boxes::SpanReport::Segmented(spans),
    ensures
        ({
            let claim = s.claim()->0;
            let h = s.refs(claim).indexed("c2pa.hash.boxes"@)->0.payload->0.value;
            multi_asset_holds(s, claim) || (h is Some && h->0.items_field("boxes"@) is Some
                && boxes::covered(
                h->0.items_field("boxes"@)->0,
                labels::algorithm_for(h->0, claim),
                spans@,
                s.data,
            ))
        }),
{
    accepted_manifests_are_signed_and_bound(s, version, left);
    let claim = s.claim()->0;
    let rv = s.refs(claim);
    let label = "c2pa.hash.boxes"@;
    reveal_strlit("c2pa.hash.boxes");
    reveal_strlit("c2pa.compound.content");
    assert(label.len() == 15);
    assert("c2pa.compound.content"@.len() == 21);
    lemma_primary_is_referenced(rv.references, s.format == AssetFormat::C2paStore, 0);
    let j = choose|j: int|
        0 <= j < rv.references.len() && #[trigger] rv.references[j] == primary;
    assert(reference_bound(rv.references[j], rv, claim, s.m.generation));
    let r = results_before_binding(s, claim, version);
    let after = binding::primary_outcome(
        claim,
        rv,
        s.data,
        s.format,
        s.facts.asset,
        s.m.label@,
        r,
    );
    lemma_primary(claim, rv, s.data, s.format, s.facts.asset, s.m.label@, r);
    if after.failure.len() > r.failure.len() {
        let taken = Results { failure: after.failure.take(r.failure.len() as int), ..after };
        assert(binding::fallback_payload(rv) is Some);
        let p = binding::fallback_payload(rv)->0;
        lemma_multi_asset(
            p.value,
            claim,
            rv,
            s.data,
            s.format,
            s.m.label@,
            s.facts.asset.multi_asset,
            taken,
        );
        lemma_parts_quiet(s, claim, p.value, taken);
    } else {
        let h = rv.indexed(label)->0.payload->0.value->0;
        boxes::faultless_entries_cover_every_box(
            h.items_field("boxes"@)->0,
            labels::algorithm_for(h, claim),
            spans@,
            s.data,
        );
    }
}

/// A manifest that is not invalid has a sound structure: one claim, no ambiguous
/// label, every required field, every reference complete and under a supported
/// algorithm, every assertion declared once, decoded and within the bounds, one
/// primary binding, and actions in order.
pub proof fn accepted_manifests_have_a_sound_structure(
    s: Subject,
    version: VersionVerdict,
    left: nat,
)
    requires
        pipeline::manifest_output(s, version, left).state != ValidationState::Invalid,
    ensures
        structure::sound_structure(
            s.m,
            s.manifests,
            s.claim()->0,
            s.m.generation,
            s.refs(s.claim()->0),
            s.format,
        ),
{
    accepted_manifests_are_signed_and_bound(s, version, left);
    let claim = s.claim()->0;
    structure::structures_pass_exactly_where_sound(
        s.m,
        s.manifests,
        claim,
        s.m.generation,
        s.refs(claim),
        s.format,
        s.sig_url(),
        results_after_version(s, claim, version),
    );
}

/// In a manifest that is not invalid every redaction that the claim declares is
/// lawful: it names, in another manifest, an assertion that may be redacted and of
/// which the store holds nothing but zeroes.
pub proof fn accepted_redactions_are_lawful(
    s: Subject,
    version: VersionVerdict,
    left: nat,
    i: int,
)
    requires
        pipeline::manifest_output(s, version, left).state != ValidationState::Invalid,
        s.claim()->0.items_field("redacted_assertions"@) is Some,
        0 <= i < s.claim()->0.items_field("redacted_assertions"@)->0.len(),
    ensures
        exists|target: Seq<char>, assertion: Seq<char>| #[trigger]
            redaction::lawfully_gone(
                s.claim()->0.items_field("redacted_assertions"@)->0[i],
                s.m.label@,
                s.manifests,
                target,
                assertion,
            ),
{
    accepted_manifests_are_signed_and_bound(s, version, left);
    let claim = s.claim()->0;
    redaction::unfaulted_redactions_are_all_lawful(
        s.m.label@,
        claim,
        s.manifests,
        results_after_structure(s, claim, version),
        i,
    );
}

/// In a manifest that is not invalid, but for a claim of the first generation in
/// the generous posture, the nested references of its assertions add no failure;
/// so every one of them is bound.
pub proof fn accepted_nested_references_are_bound(
    s: Subject,
    version: VersionVerdict,
    left: nat,
)
    requires
        pipeline::manifest_output(s, version, left).state != ValidationState::Invalid,
        s.m.generation == ClaimGeneration::V2 || !profile::generous(s.engine),
    ensures
        ({
            let claim = s.claim()->0;
            let r = results_after_redactions(s, claim, version);
            refs::walk_from(
                claim,
                s.refs(claim),
                0,
                Seq::empty(),
                0,
                s.m.generation,
                s.m.label@,
                s.manifests,
                r,
            ).failure == r.failure
        }),
{
    accepted_manifests_are_signed_and_bound(s, version, left);
}

/// In a manifest that is not invalid, but for a claim of the first generation in
/// the generous posture, the thumbnail of every decoded ingredient assertion that
/// the claim references is bound to its digest, and so is the data of one of the
/// later revisions, unless it lies outside the store.
pub proof fn accepted_ingredient_thumbnails_are_bound(
    s: Subject,
    version: VersionVerdict,
    left: nat,
    at: int,
    label: Seq<char>,
    x: Value,
)
    requires
        pipeline::manifest_output(s, version, left).state != ValidationState::Invalid,
        s.m.generation == ClaimGeneration::V2 || !profile::generous(s.engine),
        0 <= at < s.refs(s.claim()->0).references.len(),
        s.refs(s.claim()->0).references[at].label == Some(label),
        s.refs(s.claim()->0).decoded(label) is Some,
    ensures
        ({
            let claim = s.claim()->0;
            let v = s.refs(claim).decoded(label)->0;
            let base = redaction::base_of(label);
            &&& (base == "c2pa.ingredient"@ || base == "c2pa.ingredient.v2"@ || base
                == "c2pa.ingredient.v3"@) && v.field("thumbnail"@) == Some(x) ==> refs::nested_bound(
                x,
                refs::Kind::Internal,
                v,
                claim,
                s.m.label@,
                s.m.generation,
                s.manifests,
            )
            &&& (base == "c2pa.ingredient.v2"@ || base == "c2pa.ingredient.v3"@) && v.field(
                "data"@,
            ) == Some(x) ==> refs::nested_bound(
                x,
                refs::Kind::Either,
                v,
                claim,
                s.m.label@,
                s.m.generation,
                s.manifests,
            )
        }),
{
    accepted_nested_references_are_bound(s, version, left);
    let claim = s.claim()->0;
    refs::ingredient_references_are_bound(
        claim,
        s.refs(claim),
        s.m.generation,
        s.m.label@,
        s.manifests,
        results_after_redactions(s, claim, version),
        at,
        label,
        x,
    );
}

/// Where an accepted manifest is bound by a collection hash, every file that the
/// hash lists is in the archive with the stated digest, and so is the central
/// directory; or else the multi-asset assertion of the claim accounts for every
/// byte of the asset.
pub proof fn accepted_collection_hashes_match_the_asset(
    s: Subject,
    version: VersionVerdict,
    left: nat,
    primary: Reference,
)
    requires
        pipeline::manifest_output(s, version, left).state != ValidationState::Invalid,
        s.prehashed is None,
        s.refs(s.claim()->0).primary(s.format == AssetFormat::C2paStore) == Some(primary),
        primary.label == Some("c2pa.hash.collection.data"@),
        s.refs(s.claim()->0).indexed("c2pa.hash.collection.data"@)->0.payload is Some,
    ensures
        ({
            let claim = s.claim()->0;
            let h = s.refs(claim).indexed("c2pa.hash.collection.data"@)->0.payload->0.value;
            multi_asset_holds(s, claim) || (h is Some && collection::collection_fault(
                h,
                s.data,
                s.facts.asset.zip,
            ) is None)
        }),
{
    accepted_manifests_are_signed_and_bound(s, version, left);
    let claim = s.claim()->0;
    let rv = s.refs(claim);
    let label = "c2pa.hash.collection.data"@;
    reveal_strlit("c2pa.hash.boxes");
    reveal_strlit("c2pa.hash.collection.data");
    reveal_strlit("c2pa.compound.content");
    assert(label.len() == 25);
    assert("c2pa.hash.boxes"@.len() == 15);
    assert("c2pa.compound.content"@.len() == 21);
    lemma_primary_is_referenced(rv.references, s.format == AssetFormat::C2paStore, 0);
    let j = choose|j: int|
        0 <= j < rv.references.len() && #[trigger] rv.references[j] == primary;
    assert(reference_bound(rv.references[j], rv, claim, s.m.generation));
    let r = results_before_binding(s, claim, version);
    let after = binding::primary_outcome(
        claim,
        rv,
        s.data,
        s.format,
        s.facts.asset,
        s.m.label@,
        r,
    );
    lemma_primary(claim, rv, s.data, s.format, s.facts.asset, s.m.label@, r);
    if after.failure.len() > r.failure.len() {
        let taken = Results { failure: after.failure.take(r.failure.len() as int), ..after };
        assert(binding::fallback_payload(rv) is Some);
        let p = binding::fallback_payload(rv)->0;
        lemma_multi_asset(
            p.value,
            claim,
            rv,
            s.data,
            s.format,
            s.m.label@,
            s.facts.asset.multi_asset,
            taken,
        );
        lemma_parts_quiet(s, claim, p.value, taken);
    }
}

} // verus!
