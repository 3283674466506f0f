//! The host-less compound-content binding.
//!
//! A compound parent manifest has no host asset. It binds to its children
//! through a `c2pa.compound.content` assertion: each component names an
//! ingredient assertion of the same manifest by hash, and each ingredient
//! assertion names its child manifest by hash.
use vstd::prelude::*;
use crate::boxes;
use crate::boxes::Fault;
use crate::claim_refs::{ClaimAssertionRefs, Refs};
use crate::hash;
use crate::hash::HashAlgorithm;
use crate::labels;
use crate::labels::{assertion_label_for_manifest, extract_manifest_label, numbered_instance};
use crate::manifest;
use crate::manifest::{find_hash, ManifestHash, Recorded};
use crate::multi_asset;
use crate::multi_asset::FaultText;
use crate::status::{
    Results, ValidationResults, ASSERTION_COMPOUND_CONTENT_MALFORMED,
    ASSERTION_COMPOUND_CONTENT_MATCH, ASSERTION_COMPOUND_CONTENT_MISMATCH,
};
use crate::structure;
use crate::structure::assertion_uri;
use crate::text;
use crate::text::{bytes_eq, debug_string, decimal_string, join2, join3, str_eq};
use crate::value::Value;

verus! {

/// The label of the compound-content assertion.
pub const COMPOUND_CONTENT_LABEL: &'static str = "c2pa.compound.content";

// ---------------------------------------------------------------------------
// Model
// ---------------------------------------------------------------------------

pub open spec fn component_prefix(idx: nat) -> Seq<char> {
    "compound component "@ + text::decimal(idx)
}

/// A fault of component `idx` in the shape of the assertion.
pub open spec fn misshapen(idx: nat, why: Seq<char>) -> Fault {
    boxes::fault(ASSERTION_COMPOUND_CONTENT_MALFORMED@, component_prefix(idx) + why)
}

/// A fault of component `idx` in what it is bound to.
pub open spec fn unbound(idx: nat, why: Seq<char>) -> Fault {
    boxes::fault(ASSERTION_COMPOUND_CONTENT_MISMATCH@, component_prefix(idx) + why)
}

/// The label is the ingredient assertion's or that of a numbered instance.
pub open spec fn ingredient_v3(label: Seq<char>) -> bool {
    label == "c2pa.ingredient.v3"@ || labels::is_numbered_instance(label, "c2pa.ingredient.v3"@)
}

/// A hashed URI with all three of its fields: URL, digest, algorithm.
pub open spec fn full_reference(v: Value) -> Option<(Seq<char>, Seq<u8>, Seq<char>)> {
    match (v.text_field("url"@), v.bytes_field("hash"@), v.text_field("alg"@)) {
        (Some(url), Some(digest), Some(alg)) => Some((url, digest, alg)),
        _ => None,
    }
}

/// The store holds the manifest that `url` names, with the digest `digest`.
pub open spec fn child_bound(url: Seq<char>, digest: Seq<u8>, hashes: Seq<Recorded>) -> bool {
    match labels::manifest_of_uri(url) {
        Some(label) => manifest::hash_among(hashes, label) == Some(digest),
        None => false,
    }
}

/// What is wrong with the child manifest that the ingredient assertion names.
pub open spec fn child_fault(
    ingredient: Value,
    label: Seq<char>,
    idx: nat,
    hashes: Seq<Recorded>,
) -> Option<Fault> {
    if ingredient.text_field("relationship"@) != Some("componentOf"@) {
        Some(unbound(idx, " ingredient '"@ + label + "' is not componentOf"@))
    } else {
        let child = match ingredient.field("activeManifest"@) {
            Some(a) => full_reference(a),
            None => None,
        };
        match child {
            None => Some(unbound(idx, " ingredient '"@ + label + "' has no valid activeManifest"@)),
            Some((url, digest, alg)) => if alg != "sha256"@ {
                Some(misshapen(idx, " activeManifest unsupported alg "@ + text::debug_of(alg)))
            } else if !child_bound(url, digest, hashes) {
                Some(
                    unbound(
                        idx,
                        " child manifest absent or hash mismatch (tampered/substituted child)"@,
                    ),
                )
            } else {
                None
            },
        }
    }
}

/// What is wrong with the ingredient assertion `label` that a component binds.
pub open spec fn ingredient_fault(
    label: Seq<char>,
    expected: Seq<u8>,
    idx: nat,
    refs: Refs,
    hashes: Seq<Recorded>,
) -> Option<Fault> {
    let content = match refs.indexed(label) {
        Some(a) => a.jumbf,
        None => None,
    };
    match content {
        None => Some(unbound(idx, " ingredient assertion '"@ + label + "' not present"@)),
        Some(content) => if hash::digest_of(HashAlgorithm::Sha256, content) != expected {
            Some(unbound(idx, " ingredientRef hash did not match '"@ + label + "'"@))
        } else {
            match refs.decoded(label) {
                None => Some(misshapen(idx, " ingredient '"@ + label + "' CBOR invalid"@)),
                Some(ingredient) => child_fault(ingredient, label, idx, hashes),
            }
        },
    }
}

/// What is wrong with component `idx`.
pub open spec fn component_fault(
    component: Value,
    idx: nat,
    refs: Refs,
    manifest_label: Seq<char>,
    hashes: Seq<Recorded>,
) -> Option<Fault> {
    match component.field("ingredientRef"@) {
        None => Some(misshapen(idx, " has no ingredientRef"@)),
        Some(reference) => match full_reference(reference) {
            None => Some(misshapen(idx, " ingredientRef missing url/hash/alg"@)),
            Some((url, expected, alg)) => if alg != "sha256"@ {
                Some(misshapen(idx, " ingredientRef unsupported alg "@ + text::debug_of(alg)))
            } else {
                match labels::local_assertion_label(url, manifest_label) {
                    None => Some(
                        misshapen(idx, " ingredientRef url is not a local assertion ref"@),
                    ),
                    Some(label) => if !ingredient_v3(label) {
                        Some(
                            misshapen(
                                idx,
                                " does not reference a c2pa.ingredient.v3 assertion ("@ + label
                                    + ")"@,
                            ),
                        )
                    } else {
                        ingredient_fault(label, expected, idx, refs, hashes)
                    },
                }
            },
        },
    }
}

/// The first fault among the components at or behind `i`.
pub open spec fn components_fault(
    components: Seq<Value>,
    i: int,
    refs: Refs,
    manifest_label: Seq<char>,
    hashes: Seq<Recorded>,
) -> Option<Fault>
    decreases components.len() - i,
{
    if i < 0 || i >= components.len() {
        None
    } else {
        match component_fault(components[i], i as nat, refs, manifest_label, hashes) {
            Some(f) => Some(f),
            None => components_fault(components, i + 1, refs, manifest_label, hashes),
        }
    }
}

/// The primary binding of a host-less manifest is the compound content.
pub open spec fn compound_is_primary(refs: Refs) -> bool {
    match refs.primary(true) {
        Some(reference) => reference.label == Some(COMPOUND_CONTENT_LABEL@),
        None => false,
    }
}

/// The results of verifying the compound-content binding.
pub open spec fn compound_outcome(
    refs: Refs,
    manifest_label: Seq<char>,
    hashes: Seq<Recorded>,
    r: Results,
) -> Results {
    let url = structure::assertion_url(manifest_label, COMPOUND_CONTENT_LABEL@);
    if !compound_is_primary(refs) {
        r
    } else {
        match refs.decoded(COMPOUND_CONTENT_LABEL@) {
            None => r.fail(
                ASSERTION_COMPOUND_CONTENT_MALFORMED@,
                url,
                "c2pa.compound.content CBOR could not be decoded"@,
            ),
            Some(data) => match data.items_field("components"@) {
                None => r.fail(
                    ASSERTION_COMPOUND_CONTENT_MALFORMED@,
                    url,
                    "c2pa.compound.content has no components array"@,
                ),
                Some(components) => if components.len() == 0 {
                    r.fail(
                        ASSERTION_COMPOUND_CONTENT_MALFORMED@,
                        url,
                        "c2pa.compound.content components array is empty"@,
                    )
                } else {
                    match components_fault(components, 0, refs, manifest_label, hashes) {
                        Some(f) => r.fail(f.code, url, f.why),
                        None => r.pass(
                            ASSERTION_COMPOUND_CONTENT_MATCH@,
                            url,
                            "compound binding verified: "@ + text::decimal(components.len())
                                + " component(s)"@,
                        ),
                    }
                },
            },
        }
    }
}

// ---------------------------------------------------------------------------
// Verification
// ---------------------------------------------------------------------------

fn misshapen_text(idx: usize, why: &str) -> (r: FaultText)
    ensures
        multi_asset::fault_view(r) == misshapen(idx as nat, why@),
{
    let n = decimal_string(idx as u64);
    (ASSERTION_COMPOUND_CONTENT_MALFORMED, join3("compound component ", n.as_str(), why))
}

fn unbound_text(idx: usize, why: &str) -> (r: FaultText)
    ensures
        multi_asset::fault_view(r) == unbound(idx as nat, why@),
{
    let n = decimal_string(idx as u64);
    (ASSERTION_COMPOUND_CONTENT_MISMATCH, join3("compound component ", n.as_str(), why))
}

/// A fault of a component, where there is one.
pub open spec fn fault_text_opt(f: Option<FaultText>) -> Option<Fault> {
    match f {
        Some(f) => Some(multi_asset::fault_view(f)),
        None => None,
    }
}

pub open spec fn reference_triple(r: Option<(&str, &[u8], &str)>) -> Option<
    (Seq<char>, Seq<u8>, Seq<char>),
> {
    match r {
        Some(t) => Some((t.0@, t.1@, t.2@)),
        None => None,
    }
}

fn full_reference_of<'a>(v: &'a Value) -> (r: Option<(&'a str, &'a [u8], &'a str)>)
    ensures
        reference_triple(r) == full_reference(*v),
{
    match (v.get_text("url"), v.get_bytes("hash"), v.get_text("alg")) {
        (Some(url), Some(digest), Some(alg)) => Some((url, digest, alg)),
        _ => None,
    }
}

fn check_child(ingredient: &Value, label: &str, idx: usize, hashes: &[ManifestHash]) -> (r: Option<
    FaultText,
>)
    ensures
        fault_text_opt(r) == child_fault(*ingredient, label@, idx as nat, manifest::recorded(hashes@)),
{
    let component_of = match ingredient.get_text("relationship") {
        Some(t) => str_eq(t, "componentOf"),
        None => false,
    };
    if !component_of {
        let why = join3(" ingredient '", label, "' is not componentOf");
        return Some(unbound_text(idx, why.as_str()));
    }
    let child = match ingredient.get("activeManifest") {
        Some(a) => full_reference_of(a),
        None => None,
    };
    match child {
        None => {
            let why = join3(" ingredient '", label, "' has no valid activeManifest");
            Some(unbound_text(idx, why.as_str()))
        },
        Some((url, digest, alg)) => {
            if !str_eq(alg, "sha256") {
                let shown = debug_string(alg);
                let why = join2(" activeManifest unsupported alg ", shown.as_str());
                return Some(misshapen_text(idx, why.as_str()));
            }
            let recorded = match extract_manifest_label(url) {
                Some(l) => find_hash(hashes, l),
                None => None,
            };
            let bound = match recorded {
                Some(h) => bytes_eq(h, digest),
                None => false,
            };
            if bound {
                None
            } else {
                Some(
                    unbound_text(
                        idx,
                        " child manifest absent or hash mismatch (tampered/substituted child)",
                    ),
                )
            }
        },
    }
}

/// Digests of ingredient assertions that were computed here.
struct LocalDigests<'a> {
    entries: Vec<(&'a str, Vec<u8>)>,
}

impl<'a> LocalDigests<'a> {
    /// Every entry is the digest of the assertion under its label.
    spec fn wf(self, refs: Refs) -> bool {
        forall|i: int|
            0 <= i < self.entries@.len() ==> assertion_digest(
                refs,
                (#[trigger] self.entries@[i]).0@,
            ) == Some(self.entries@[i].1@)
    }
}

/// The digest of the content of the assertion under `label`.
pub open spec fn assertion_digest(refs: Refs, label: Seq<char>) -> Option<Seq<u8>> {
    match refs.indexed(label) {
        Some(a) => match a.jumbf {
            Some(c) => Some(hash::digest_of(HashAlgorithm::Sha256, c)),
            None => None,
        },
        None => None,
    }
}

/// The position of the digest that was computed for `label`, where one was.
fn position_in(local: &LocalDigests, label: &str, refs: Ghost<Refs>) -> (r: Option<usize>)
    requires
        local.wf(refs@),
    ensures
        match r {
            Some(i) => i < local.entries@.len() && local.entries@[i as int].0@ == label@
                && assertion_digest(refs@, label@) == Some(local.entries@[i as int].1@) && forall|
                j: int,
            |
                0 <= j < i ==> (#[trigger] local.entries@[j]).0@ != label@,
            None => forall|j: int|
                0 <= j < local.entries@.len() ==> (#[trigger] local.entries@[j]).0@ != label@,
        },
{
    let mut i: usize = 0;
    while i < local.entries.len()
        invariant
            i <= local.entries.len(),
            local.wf(refs@),
            forall|j: int| 0 <= j < i ==> (#[trigger] local.entries@[j]).0@ != label@,
        decreases local.entries.len() - i,
    {
        if str_eq(local.entries[i].0, label) {
            return Some(i);
        }
        i += 1;
    }
    None
}

/// Whether the content under `label` has the digest `expected`; nothing where
/// there is no content. A digest is computed once per label.
fn content_matches<'a>(
    label: &'a str,
    expected: &[u8],
    refs: &ClaimAssertionRefs,
    local: &mut LocalDigests<'a>,
) -> (r: Option<bool>)
    requires
        refs.wf(),
        old(local).wf(refs@),
    ensures
        final(local).wf(refs@),
        r == match assertion_digest(refs@, label@) {
            Some(d) => Some(d == expected@),
            None => None,
        },
{
    if let Some(d) = refs.jumbf_digest(label, "sha256") {
        return Some(bytes_eq(d, expected));
    }
    if let Some(i) = position_in(local, label, Ghost(refs@)) {
        return Some(bytes_eq(local.entries[i].1.as_slice(), expected));
    }
    match refs.indexed(label) {
        Some(a) => match a.jumbf {
            Some(content) => {
                let d = HashAlgorithm::Sha256.digest(content);
                let same = bytes_eq(d.as_slice(), expected);
                local.entries.push((label, d));
                Some(same)
            },
            None => None,
        },
        None => None,
    }
}

fn check_ingredient<'a>(
    label: &'a str,
    expected: &[u8],
    idx: usize,
    refs: &ClaimAssertionRefs,
    hashes: &[ManifestHash],
    local: &mut LocalDigests<'a>,
) -> (r: Option<FaultText>)
    requires
        refs.wf(),
        old(local).wf(refs@),
    ensures
        final(local).wf(refs@),
        fault_text_opt(r) == ingredient_fault(label@, expected@, idx as nat, refs@, manifest::recorded(hashes@)),
{
    match content_matches(label, expected, refs, local) {
        None => {
            let why = join3(" ingredient assertion '", label, "' not present");
            Some(unbound_text(idx, why.as_str()))
        },
        Some(false) => {
            let why = join3(" ingredientRef hash did not match '", label, "'");
            Some(unbound_text(idx, why.as_str()))
        },
        Some(true) => match refs.decoded(label) {
            None => {
                let why = join3(" ingredient '", label, "' CBOR invalid");
                Some(misshapen_text(idx, why.as_str()))
            },
            Some(ingredient) => check_child(ingredient, label, idx, hashes),
        },
    }
}

fn check_component<'a>(
    component: &'a Value,
    idx: usize,
    refs: &ClaimAssertionRefs,
    manifest_label: &str,
    hashes: &[ManifestHash],
    local: &mut LocalDigests<'a>,
) -> (r: Option<FaultText>)
    requires
        refs.wf(),
        old(local).wf(refs@),
    ensures
        final(local).wf(refs@),
        fault_text_opt(r) == component_fault(
            *component,
            idx as nat,
            refs@,
            manifest_label@,
            manifest::recorded(hashes@),
        ),
{
    let reference = match component.get("ingredientRef") {
        Some(reference) => reference,
        None => {
            return Some(misshapen_text(idx, " has no ingredientRef"));
        },
    };
    let (url, expected, alg) = match full_reference_of(reference) {
        Some(t) => t,
        None => {
            return Some(misshapen_text(idx, " ingredientRef missing url/hash/alg"));
        },
    };
    if !str_eq(alg, "sha256") {
        let shown = debug_string(alg);
        let why = join2(" ingredientRef unsupported alg ", shown.as_str());
        return Some(misshapen_text(idx, why.as_str()));
    }
    let label = match assertion_label_for_manifest(url, manifest_label) {
        Some(label) => label,
        None => {
            return Some(misshapen_text(idx, " ingredientRef url is not a local assertion ref"));
        },
    };
    if !str_eq(label, "c2pa.ingredient.v3") && !numbered_instance(label, "c2pa.ingredient.v3") {
        let why = join3(" does not reference a c2pa.ingredient.v3 assertion (", label, ")");
        return Some(misshapen_text(idx, why.as_str()));
    }
    check_ingredient(label, expected, idx, refs, hashes, local)
}

fn check_components(
    components: &[Value],
    refs: &ClaimAssertionRefs,
    manifest_label: &str,
    hashes: &[ManifestHash],
) -> (r: Option<FaultText>)
    requires
        refs.wf(),
    ensures
        fault_text_opt(r) == components_fault(components@, 0, refs@, manifest_label@, manifest::recorded(hashes@)),
{
    let mut local = LocalDigests { entries: Vec::new() };
    let mut i: usize = 0;
    while i < components.len()
        invariant
            i <= components.len(),
            refs.wf(),
            local.wf(refs@),
            components_fault(components@, i as int, refs@, manifest_label@, manifest::recorded(hashes@))
                == components_fault(components@, 0, refs@, manifest_label@, manifest::recorded(hashes@)),
        decreases components.len() - i,
    {
        let fault = check_component(&components[i], i, refs, manifest_label, hashes, &mut local);
        if fault.is_some() {
            return fault;
        }
        i += 1;
    }
    None
}

/// Verify the host-less compound-content hard binding. Nothing happens for a
/// manifest whose primary binding is another one.
pub fn verify_compound_content(
    refs: &ClaimAssertionRefs,
    manifest_label: &str,
    hashes: &[ManifestHash],
    results: &mut ValidationResults,
)
    requires
        refs.wf(),
    ensures
        final(results)@ == compound_outcome(refs@, manifest_label@, manifest::recorded(hashes@), old(results)@),
{
    let plan = refs.binding_plan(true);
    let is_primary = match plan.primary() {
        Some(reference) => match reference.label {
            Some(label) => str_eq(label, COMPOUND_CONTENT_LABEL),
            None => false,
        },
        None => false,
    };
    if !is_primary {
        return;
    }
    let url = assertion_uri(manifest_label, COMPOUND_CONTENT_LABEL);
    let data = match refs.decoded(COMPOUND_CONTENT_LABEL) {
        Some(data) => data,
        None => {
            results.push_failure(
                ASSERTION_COMPOUND_CONTENT_MALFORMED,
                url,
                "c2pa.compound.content CBOR could not be decoded".to_owned(),
            );
            return;
        },
    };
    let components = match data.get_items("components") {
        Some(components) => components,
        None => {
            results.push_failure(
                ASSERTION_COMPOUND_CONTENT_MALFORMED,
                url,
                "c2pa.compound.content has no components array".to_owned(),
            );
            return;
        },
    };
    if components.len() == 0 {
        results.push_failure(
            ASSERTION_COMPOUND_CONTENT_MALFORMED,
            url,
            "c2pa.compound.content components array is empty".to_owned(),
        );
        return;
    }
    match check_components(components, refs, manifest_label, hashes) {
        Some((code, why)) => {
            results.push_failure(code, url, why);
        },
        None => {
            let n = decimal_string(components.len() as u64);
            results.push_success(
                ASSERTION_COMPOUND_CONTENT_MATCH,
                url,
                join3("compound binding verified: ", n.as_str(), " component(s)"),
            );
        },
    }
}

// ---------------------------------------------------------------------------
// Laws
// ---------------------------------------------------------------------------

/// The component names an ingredient assertion of this manifest by the digest
/// of its content, and that assertion names a child manifest of the store by
/// its digest.
pub open spec fn binds_child(
    component: Value,
    refs: Refs,
    manifest_label: Seq<char>,
    hashes: Seq<Recorded>,
) -> bool {
    &&& component.field("ingredientRef"@) matches Some(reference)
    &&& full_reference(reference) matches Some(named)
    &&& labels::local_assertion_label(named.0, manifest_label) matches Some(label)
    &&& assertion_digest(refs, label) == Some(named.1)
    &&& refs.decoded(label) matches Some(ingredient)
    &&& ingredient.field("activeManifest"@) matches Some(active)
    &&& full_reference(active) matches Some(child)
    &&& child_bound(child.0, child.1, hashes)
}

/// A component without a fault is bound to a child manifest of the store.
pub proof fn sound_component_binds_its_child(
    component: Value,
    idx: nat,
    refs: Refs,
    manifest_label: Seq<char>,
    hashes: Seq<Recorded>,
)
    requires
        component_fault(component, idx, refs, manifest_label, hashes) is None,
    ensures
        binds_child(component, refs, manifest_label, hashes),
{
}

/// Components without a fault among them are each without a fault.
proof fn no_fault_behind(
    components: Seq<Value>,
    i: int,
    k: int,
    refs: Refs,
    manifest_label: Seq<char>,
    hashes: Seq<Recorded>,
)
    requires
        0 <= i <= k < components.len(),
        components_fault(components, i, refs, manifest_label, hashes) is None,
    ensures
        component_fault(components[k], k as nat, refs, manifest_label, hashes) is None,
    decreases k - i,
{
    if i < k {
        no_fault_behind(components, i + 1, k, refs, manifest_label, hashes);
    }
}

/// A compound-content match is reported only where every component is bound to
/// a child manifest of the store: replacing one child, or leaving it out, takes
/// the match away.
pub proof fn compound_match_binds_every_child(
    refs: Refs,
    manifest_label: Seq<char>,
    hashes: Seq<Recorded>,
    r: Results,
)
    requires
        !r.succeeded(ASSERTION_COMPOUND_CONTENT_MATCH@),
        compound_outcome(refs, manifest_label, hashes, r).succeeded(
            ASSERTION_COMPOUND_CONTENT_MATCH@,
        ),
    ensures
        ({
            &&& refs.decoded(COMPOUND_CONTENT_LABEL@) matches Some(data)
            &&& data.items_field("components"@) matches Some(components)
            &&& components.len() > 0
            &&& forall|k: int|
                0 <= k < components.len() ==> binds_child(
                    #[trigger] components[k],
                    refs,
                    manifest_label,
                    hashes,
                )
        }),
{
    let components = refs.decoded(COMPOUND_CONTENT_LABEL@)->0.items_field("components"@)->0;
    assert forall|k: int| 0 <= k < components.len() implies binds_child(
        #[trigger] components[k],
        refs,
        manifest_label,
        hashes,
    ) by {
        no_fault_behind(components, 0, k, refs, manifest_label, hashes);
        sound_component_binds_its_child(components[k], k as nat, refs, manifest_label, hashes);
    }
}

/// The component is bound, step by step: its `ingredientRef` names, with a
/// SHA-256 digest, an ingredient assertion of this manifest, in its third
/// revision or a numbered instance of it; the digest is that of the assertion's
/// content; the assertion declares its child a component, and names it by a
/// SHA-256 digest; and the store holds the child under that very digest.
pub open spec fn component_bound(
    component: Value,
    refs: Refs,
    manifest_label: Seq<char>,
    hashes: Seq<Recorded>,
) -> bool {
    let reference = component.field("ingredientRef"@)->0;
    let label = labels::local_assertion_label(reference.text_field("url"@)->0, manifest_label)->0;
    let ingredient = refs.decoded(label)->0;
    let active = ingredient.field("activeManifest"@)->0;
    let child = labels::manifest_of_uri(active.text_field("url"@)->0);
    &&& component.field("ingredientRef"@) is Some
    &&& reference.text_field("url"@) is Some
    &&& reference.text_field("alg"@) == Some("sha256"@)
    &&& labels::local_assertion_label(reference.text_field("url"@)->0, manifest_label) is Some
    &&& label == "c2pa.ingredient.v3"@ || labels::is_numbered_instance(
        label,
        "c2pa.ingredient.v3"@,
    )
    &&& refs.indexed(label) is Some
    &&& refs.indexed(label)->0.jumbf is Some
    &&& reference.bytes_field("hash"@) == Some(
        hash::sha256_of(refs.indexed(label)->0.jumbf->0),
    )
    &&& refs.decoded(label) is Some
    &&& ingredient.text_field("relationship"@) == Some("componentOf"@)
    &&& ingredient.field("activeManifest"@) is Some
    &&& active.text_field("url"@) is Some
    &&& active.text_field("alg"@) == Some("sha256"@)
    &&& active.bytes_field("hash"@) is Some
    &&& child is Some
    &&& manifest::hash_among(hashes, child->0) == active.bytes_field("hash"@)
}

/// A component has no fault exactly where it is bound.
pub proof fn components_pass_exactly_where_bound(
    component: Value,
    idx: nat,
    refs: Refs,
    manifest_label: Seq<char>,
    hashes: Seq<Recorded>,
)
    ensures
        component_fault(component, idx, refs, manifest_label, hashes) is None == component_bound(
            component,
            refs,
            manifest_label,
            hashes,
        ),
{
}

proof fn lemma_no_fault(
    components: Seq<Value>,
    i: int,
    refs: Refs,
    manifest_label: Seq<char>,
    hashes: Seq<Recorded>,
)
    requires
        0 <= i,
    ensures
        components_fault(components, i, refs, manifest_label, hashes) is None == (forall|k: int|
            i <= k < components.len() ==> component_bound(
                #[trigger] components[k],
                refs,
                manifest_label,
                hashes,
            )),
    decreases components.len() - i,
{
    if i < components.len() {
        components_pass_exactly_where_bound(components[i], i as nat, refs, manifest_label, hashes);
        lemma_no_fault(components, i + 1, refs, manifest_label, hashes);
    }
}

/// A compound binding passes exactly where it lists components and each of them
/// is bound, and adds a failure exactly where it does not. Where another binding
/// is the primary one, it changes nothing.
pub proof fn compound_bindings_pass_exactly_where_bound(
    refs: Refs,
    manifest_label: Seq<char>,
    hashes: Seq<Recorded>,
    r: Results,
)
    ensures
        ({
            let after = compound_outcome(refs, manifest_label, hashes, r);
            let data = refs.decoded("c2pa.compound.content"@);
            let components = data->0.items_field("components"@)->0;
            let sound = data is Some && data->0.items_field("components"@) is Some
                && components.len() > 0 && forall|k: int|
                0 <= k < components.len() ==> component_bound(
                    #[trigger] components[k],
                    refs,
                    manifest_label,
                    hashes,
                );
            &&& !compound_is_primary(refs) ==> after == r
            &&& compound_is_primary(refs) ==> (after.success.len() > r.success.len()) == sound && (
            after.failure.len() > r.failure.len()) == !sound
        }),
{
    if let Some(data) = refs.decoded("c2pa.compound.content"@) {
        if let Some(components) = data.items_field("components"@) {
            lemma_no_fault(components, 0, refs, manifest_label, hashes);
        }
    }
}

} // verus!
