//! Structural validation of a claim and of its action assertions.
use vstd::prelude::*;
use vstd::string::StringExecFns;
use crate::claim_fields;
use crate::claim_fields::missing_fields;
use crate::claim_refs;
use crate::claim_refs::{
    ClaimAssertionReference, ClaimAssertionRefs, RefField, Reference, Refs,
    MAX_ASSERTION_DECODED_VALUE_NODES, MAX_ASSERTION_HASH_WORK_BYTES,
    MAX_CLAIM_ASSERTION_REFERENCES,
};
use crate::hash;
use crate::hash::HashAlgorithm;
use crate::labels;
use crate::labels::{is_generator_icon_label, manifest_label_conformant, resolved_hash_algorithm};
use crate::manifest::{AssetFormat, JumbfBox, ParsedManifest, StoreContext};
use crate::profile::ClaimGeneration;
use crate::status::{
    Results, ValidationResults, ALGORITHM_UNSUPPORTED, ASSERTION_ACTION_MALFORMED,
    ASSERTION_CBOR_INVALID, ASSERTION_MULTIPLE_HARD_BINDINGS, ASSERTION_MULTI_ASSET_HASH_MALFORMED,
    ASSERTION_UNDECLARED, CLAIM_HARD_BINDINGS_MISSING, CLAIM_MALFORMED, CLAIM_MULTIPLE,
};
use crate::text;
use crate::text::{decimal_string, join2, join3, join4, join5, starts_with, str_eq};
use crate::value;
use crate::value::Value;

verus! {

/// The URI of an assertion inside a manifest.
pub open spec fn assertion_url(manifest: Seq<char>, label: Seq<char>) -> Seq<char> {
    "self#jumbf=/c2pa/"@ + manifest + "/c2pa.assertions/"@ + label
}

/// The URI of an assertion inside a manifest.
pub fn assertion_uri(manifest: &str, label: &str) -> (r: String)
    ensures
        r@ == assertion_url(manifest@, label@),
{
    join4("self#jumbf=/c2pa/", manifest, "/c2pa.assertions/", label)
}

// ---------------------------------------------------------------------------
// Store-wide label ambiguity
// ---------------------------------------------------------------------------

/// Some entry repeats an earlier one.
pub open spec fn repeats(s: Seq<Seq<char>>) -> bool {
    exists|i: int, j: int| 0 <= i < j < s.len() && #[trigger] s[i] == #[trigger] s[j]
}

pub open spec fn manifest_labels(manifests: Seq<ParsedManifest>) -> Seq<Seq<char>> {
    manifests.map_values(|m: ParsedManifest| m.label@)
}

pub open spec fn box_labels(boxes: Seq<JumbfBox>) -> Seq<Seq<char>> {
    boxes.map_values(|b: JumbfBox| b.label@)
}

fn any_repeats(list: &Vec<&str>) -> (r: bool)
    ensures
        r == repeats(text::views(list@)),
{
    let ghost v = text::views(list@);
    let mut i: usize = 0;
    while i < list.len()
        invariant
            i <= list.len(),
            v == text::views(list@),
            forall|a: int, b: int| 0 <= a < b < v.len() && a < i ==> v[a] != v[b],
        decreases list.len() - i,
    {
        let mut j: usize = i + 1;
        while j < list.len()
            invariant
                i < j <= list.len(),
                v == text::views(list@),
                forall|b: int| i < b < j ==> v[i as int] != v[b],
            decreases list.len() - j,
        {
            if str_eq(list[i], list[j]) {
                assert(v[i as int] == v[j as int]);
                return true;
            }
            j += 1;
        }
        i += 1;
    }
    false
}

fn manifests_repeat(manifests: &[ParsedManifest]) -> (r: bool)
    ensures
        r == repeats(manifest_labels(manifests@)),
{
    let mut list: Vec<&str> = Vec::new();
    let mut i: usize = 0;
    while i < manifests.len()
        invariant
            i <= manifests.len(),
            list@.len() == i,
            forall|k: int| 0 <= k < i ==> (#[trigger] list@[k])@ == manifests@[k].label@,
        decreases manifests.len() - i,
    {
        list.push(manifests[i].label.as_str());
        i += 1;
    }
    assert(text::views(list@) =~= manifest_labels(manifests@));
    any_repeats(&list)
}

fn boxes_repeat(boxes: &Vec<JumbfBox>) -> (r: bool)
    ensures
        r == repeats(box_labels(boxes@)),
{
    let mut list: Vec<&str> = Vec::new();
    let mut i: usize = 0;
    while i < boxes.len()
        invariant
            i <= boxes.len(),
            list@.len() == i,
            forall|k: int| 0 <= k < i ==> (#[trigger] list@[k])@ == boxes@[k].label@,
        decreases boxes.len() - i,
    {
        list.push(boxes[i].label.as_str());
        i += 1;
    }
    assert(text::views(list@) =~= box_labels(boxes@));
    any_repeats(&list)
}

// ---------------------------------------------------------------------------
// Single conditions
// ---------------------------------------------------------------------------

/// The strings joined with a comma and a space.
pub open spec fn listed(s: Seq<Seq<char>>) -> Seq<char>
    decreases s.len(),
{
    if s.len() == 0 {
        Seq::empty()
    } else if s.len() == 1 {
        s[0]
    } else {
        listed(s.drop_last()) + ", "@ + s.last()
    }
}

fn list_names(names: &Vec<&'static str>) -> (r: String)
    ensures
        r@ == listed(text::views(names@)),
{
    let ghost all = text::views(names@);
    let mut out = String::new();
    let mut i: usize = 0;
    assert(all.subrange(0, 0) =~= Seq::<Seq<char>>::empty());
    while i < names.len()
        invariant
            i <= names.len(),
            all == text::views(names@),
            out@ == listed(all.subrange(0, i as int)),
        decreases names.len() - i,
    {
        assert(all.subrange(0, i + 1).drop_last() =~= all.subrange(0, i as int));
        assert(all.subrange(0, i + 1).last() == names@[i as int]@);
        if i > 0 {
            out.append(", ");
        } else {
            assert(Seq::<char>::empty() + all[0] =~= all[0]);
        }
        out.append(names[i]);
        i += 1;
    }
    assert(all.subrange(0, i as int) =~= all);
    out
}

pub open spec fn after_claim_count(count: usize, sig_url: Seq<char>, r: Results) -> Results {
    if count > 1 {
        r.fail(
            CLAIM_MULTIPLE@,
            sig_url,
            text::decimal(count as nat) + " claim boxes in manifest (expected 1)"@,
        )
    } else {
        r
    }
}

pub open spec fn after_ambiguity(
    m: ParsedManifest,
    manifests: Seq<ParsedManifest>,
    sig_url: Seq<char>,
    r: Results,
) -> Results {
    let s = if repeats(manifest_labels(manifests)) {
        r.fail(
            CLAIM_MALFORMED@,
            sig_url,
            "manifest store contains duplicate labels; internal JUMBF references are ambiguous"@,
        )
    } else {
        r
    };
    if repeats(box_labels(m.assertion_jumbf@)) {
        s.fail(
            CLAIM_MALFORMED@,
            sig_url,
            "manifest contains duplicate assertion labels; internal JUMBF references are ambiguous"@,
        )
    } else {
        s
    }
}

pub open spec fn after_fields(missing: Seq<Seq<char>>, sig_url: Seq<char>, r: Results) -> Results {
    if missing.len() > 0 {
        r.fail(CLAIM_MALFORMED@, sig_url, "claim missing required field(s): "@ + listed(missing))
    } else {
        r
    }
}

pub open spec fn after_manifest_label(
    label: Seq<char>,
    generation: ClaimGeneration,
    sig_url: Seq<char>,
    r: Results,
) -> Results {
    if generation == ClaimGeneration::V2 && !labels::conformant_manifest_label(label) {
        r.fail(CLAIM_MALFORMED@, sig_url, "claim box label invalid: "@ + label)
    } else {
        r
    }
}

// ---------------------------------------------------------------------------
// References
// ---------------------------------------------------------------------------

/// A hashed-URI map with a textual `url` and a byte-string `hash`.
pub open spec fn complete_hashed_uri(v: Value) -> bool {
    v is Dict && v.text_field("url"@) is Some && v.bytes_field("hash"@) is Some
}

/// A generator icon reference that does not name an icon assertion.
pub open spec fn misplaced_icon(reference: Reference) -> bool {
    reference.field == RefField::GeneratorIcon && !(reference.label is Some && labels::icon_label(
        reference.label->0,
    ))
}

/// The shape of the first `k` references.
pub open spec fn after_references(
    refs: Seq<Reference>,
    k: int,
    sig_url: Seq<char>,
    r: Results,
) -> Results
    decreases k,
{
    if k <= 0 {
        r
    } else {
        let before = after_references(refs, k - 1, sig_url, r);
        let shaped = if complete_hashed_uri(refs[k - 1].value) {
            before
        } else {
            before.fail(
                CLAIM_MALFORMED@,
                sig_url,
                "claim assertion reference is not a complete HashedUriMap"@,
            )
        };
        if misplaced_icon(refs[k - 1]) {
            shaped.fail(
                CLAIM_MALFORMED@,
                sig_url,
                "claim generator icon must reference a c2pa.icon assertion"@,
            )
        } else {
            shaped
        }
    }
}

/// One of the first `k` references is malformed.
pub open spec fn malformed_reference(refs: Seq<Reference>, k: int) -> bool {
    exists|i: int|
        0 <= i < k && (!complete_hashed_uri((#[trigger] refs[i]).value) || misplaced_icon(refs[i]))
}

fn check_references(
    refs: &Vec<ClaimAssertionReference>,
    sig_url: &str,
    results: &mut ValidationResults,
) -> (fatal: bool)
    ensures
        fatal == malformed_reference(claim_refs::reference_views(refs@), refs@.len() as int),
        final(results)@ == after_references(
            claim_refs::reference_views(refs@),
            refs@.len() as int,
            sig_url@,
            old(results)@,
        ),
{
    let ghost rv = claim_refs::reference_views(refs@);
    let ghost r0 = results@;
    let mut fatal = false;
    let mut i: usize = 0;
    while i < refs.len()
        invariant
            i <= refs.len(),
            rv == claim_refs::reference_views(refs@),
            r0 == old(results)@,
            results@ == after_references(rv, i as int, sig_url@, r0),
            fatal == malformed_reference(rv, i as int),
        decreases refs.len() - i,
    {
        let v = refs[i].value;
        assert(rv[i as int] == refs@[i as int]@);
        let is_map = match v {
            Value::Dict(_) => true,
            _ => false,
        };
        let mut bad = false;
        if !(is_map && v.get_text("url").is_some() && v.get_bytes("hash").is_some()) {
            results.push_failure(
                CLAIM_MALFORMED,
                sig_url.to_owned(),
                "claim assertion reference is not a complete HashedUriMap".to_owned(),
            );
            bad = true;
        }
        if refs[i].field == RefField::GeneratorIcon {
            let named = match refs[i].label {
                Some(l) => is_generator_icon_label(l),
                None => false,
            };
            if !named {
                results.push_failure(
                    CLAIM_MALFORMED,
                    sig_url.to_owned(),
                    "claim generator icon must reference a c2pa.icon assertion".to_owned(),
                );
                bad = true;
            }
        }
        proof {
            if bad {
                assert(!complete_hashed_uri(rv[i as int].value) || misplaced_icon(rv[i as int]));
                assert(malformed_reference(rv, i + 1));
            } else if fatal {
                let j = choose|j: int|
                    0 <= j < i && (!complete_hashed_uri((#[trigger] rv[j]).value)
                        || misplaced_icon(rv[j]));
                assert(malformed_reference(rv, i + 1));
            } else {
                assert(!malformed_reference(rv, i + 1)) by {
                    if malformed_reference(rv, i + 1) {
                        let j = choose|j: int|
                            0 <= j < i + 1 && (!complete_hashed_uri((#[trigger] rv[j]).value)
                                || misplaced_icon(rv[j]));
                        assert(j < i || j == i);
                        assert(j < i ==> malformed_reference(rv, i as int));
                    }
                }
            }
        }
        fatal = fatal || bad;
        i += 1;
    }
    fatal
}

pub open spec fn after_duplicate(dup: Option<Seq<char>>, sig_url: Seq<char>, r: Results) -> Results {
    match dup {
        Some(label) => r.fail(
            CLAIM_MALFORMED@,
            sig_url,
            "claim declares assertion '"@ + label + "' more than once"@,
        ),
        None => r,
    }
}

/// The first `k` undeclared boxes, each a failure under its own URI.
pub open spec fn after_undeclared(
    list: Seq<Seq<char>>,
    k: int,
    manifest: Seq<char>,
    r: Results,
) -> Results
    decreases k,
{
    if k <= 0 {
        r
    } else {
        after_undeclared(list, k - 1, manifest, r).fail(
            ASSERTION_UNDECLARED@,
            assertion_url(manifest, list[k - 1]),
            "assertion '"@ + list[k - 1]
                + "' is present in the assertion store but absent from the claim"@,
        )
    }
}

fn report_undeclared(list: &Vec<&str>, manifest: &str, results: &mut ValidationResults)
    ensures
        final(results)@ == after_undeclared(
            text::views(list@),
            list@.len() as int,
            manifest@,
            old(results)@,
        ),
{
    let ghost v = text::views(list@);
    let mut i: usize = 0;
    while i < list.len()
        invariant
            i <= list.len(),
            v == text::views(list@),
            results@ == after_undeclared(v, i as int, manifest@, old(results)@),
        decreases list.len() - i,
    {
        assert(v[i as int] == list@[i as int]@);
        results.push_failure(
            ASSERTION_UNDECLARED,
            assertion_uri(manifest, list[i]),
            join3(
                "assertion '",
                list[i],
                "' is present in the assertion store but absent from the claim",
            ),
        );
        i += 1;
    }
}

/// The work and decoding bounds.
pub open spec fn after_bounds(refs: Refs, sig_url: Seq<char>, r: Results) -> Results {
    let s = if refs.hash_work_bytes is None {
        r.fail(
            CLAIM_MALFORMED@,
            sig_url,
            "aggregate assertion digest work exceeds verifier bound ("@ + text::decimal(
                MAX_ASSERTION_HASH_WORK_BYTES as nat,
            ) + " bytes)"@,
        )
    } else {
        r
    };
    if refs.decode_budget_exhausted {
        s.fail(
            CLAIM_MALFORMED@,
            sig_url,
            "aggregate decoded assertion values exceed verifier bound ("@ + text::decimal(
                MAX_ASSERTION_DECODED_VALUE_NODES as nat,
            ) + " nodes; "@ + text::decimal(refs.decoded_value_nodes as nat) + " nodes consumed)"@,
        )
    } else {
        s
    }
}

/// Exactly one primary binding and at most one multi-asset fallback.
pub open spec fn after_bindings(
    refs: Refs,
    compound_ok: bool,
    manifest: Seq<char>,
    sig_url: Seq<char>,
    r: Results,
) -> Results {
    let n = claim_refs::primary_count(refs.binding_labels, compound_ok);
    let s = if n == 0 {
        r.fail(
            CLAIM_HARD_BINDINGS_MISSING@,
            sig_url,
            "claim references no supported primary hard binding"@,
        )
    } else if n == 1 {
        r
    } else {
        r.fail(
            ASSERTION_MULTIPLE_HARD_BINDINGS@,
            "self#jumbf=/c2pa/"@ + manifest + "/c2pa.assertions"@,
            "claim declares more than one supported primary hard binding"@,
        )
    };
    if claim_refs::multi_asset_count(refs.binding_labels) > 1 {
        s.fail(
            ASSERTION_MULTI_ASSET_HASH_MALFORMED@,
            assertion_url(manifest, "c2pa.hash.multi-asset"@),
            "claim declares more than one c2pa.hash.multi-asset fallback"@,
        )
    } else {
        s
    }
}

/// The effective algorithm of the first `k` references.
pub open spec fn after_algorithms(
    refs: Seq<Reference>,
    claim: Value,
    k: int,
    sig_url: Seq<char>,
    r: Results,
) -> Results
    decreases k,
{
    if k <= 0 {
        r
    } else {
        let before = after_algorithms(refs, claim, k - 1, sig_url, r);
        match labels::algorithm_for(refs[k - 1].value, claim) {
            Some(alg) => if hash::algorithm_named(alg) is None {
                before.fail(
                    ALGORITHM_UNSUPPORTED@,
                    sig_url,
                    "unsupported hash algorithm in hashed-URI reference: "@ + alg,
                )
            } else {
                before
            },
            None => before,
        }
    }
}

fn check_algorithms(
    refs: &Vec<ClaimAssertionReference>,
    claim: &Value,
    sig_url: &str,
    results: &mut ValidationResults,
)
    ensures
        final(results)@ == after_algorithms(
            claim_refs::reference_views(refs@),
            *claim,
            refs@.len() as int,
            sig_url@,
            old(results)@,
        ),
{
    let ghost rv = claim_refs::reference_views(refs@);
    let mut i: usize = 0;
    while i < refs.len()
        invariant
            i <= refs.len(),
            rv == claim_refs::reference_views(refs@),
            results@ == after_algorithms(rv, *claim, i as int, sig_url@, old(results)@),
        decreases refs.len() - i,
    {
        assert(rv[i as int] == refs@[i as int]@);
        if let Some(alg) = resolved_hash_algorithm(refs[i].value, claim) {
            if HashAlgorithm::from_name(alg).is_none() {
                results.push_failure(
                    ALGORITHM_UNSUPPORTED,
                    sig_url.to_owned(),
                    join2("unsupported hash algorithm in hashed-URI reference: ", alg),
                );
            }
        }
        i += 1;
    }
}

/// The first `k` declared assertions that could not be decoded.
pub open spec fn after_invalid(
    list: Seq<Seq<char>>,
    k: int,
    manifest: Seq<char>,
    r: Results,
) -> Results
    decreases k,
{
    if k <= 0 {
        r
    } else {
        after_invalid(list, k - 1, manifest, r).fail(
            ASSERTION_CBOR_INVALID@,
            assertion_url(manifest, list[k - 1]),
            "assertion '"@ + list[k - 1] + "' CBOR could not be decoded"@,
        )
    }
}

fn report_invalid(list: &Vec<&str>, manifest: &str, results: &mut ValidationResults)
    ensures
        final(results)@ == after_invalid(
            text::views(list@),
            list@.len() as int,
            manifest@,
            old(results)@,
        ),
{
    let ghost v = text::views(list@);
    let mut i: usize = 0;
    while i < list.len()
        invariant
            i <= list.len(),
            v == text::views(list@),
            results@ == after_invalid(v, i as int, manifest@, old(results)@),
        decreases list.len() - i,
    {
        assert(v[i as int] == list@[i as int]@);
        results.push_failure(
            ASSERTION_CBOR_INVALID,
            assertion_uri(manifest, list[i]),
            join3("assertion '", list[i], "' CBOR could not be decoded"),
        );
        i += 1;
    }
}

// ---------------------------------------------------------------------------
// Actions
// ---------------------------------------------------------------------------

/// The decoded actions assertions among the first `k` references of a field.
pub open spec fn action_assertions(refs: Refs, field: RefField, k: int) -> Seq<(Seq<char>, Value)>
    decreases k,
{
    if k <= 0 {
        Seq::empty()
    } else {
        let before = action_assertions(refs, field, k - 1);
        let reference = refs.references[k - 1];
        if reference.field == field && reference.label is Some && text::is_prefix(
            "c2pa.actions"@,
            reference.label->0,
        ) && refs.decoded(reference.label->0) is Some {
            before.push((reference.label->0, refs.decoded(reference.label->0)->0))
        } else {
            before
        }
    }
}

pub open spec fn named_values(s: Seq<(&str, &Value)>) -> Seq<(Seq<char>, Value)> {
    s.map_values(|p: (&str, &Value)| (p.0@, *p.1))
}

/// The decoded actions assertions that a reference field declares, in order.
pub fn referenced_action_assertions<'a>(refs: &ClaimAssertionRefs<'a>, field: RefField) -> (r: Vec<
    (&'a str, &'a Value),
>)
    ensures
        named_values(r@) == action_assertions(refs@, field, refs@.references.len() as int),
{
    let mut out: Vec<(&'a str, &'a Value)> = Vec::new();
    let ghost rv = refs@.references;
    assert(named_values(out@) =~= Seq::<(Seq<char>, Value)>::empty());
    let mut i: usize = 0;
    while i < refs.references.len()
        invariant
            i <= refs.references.len(),
            rv == refs@.references,
            rv.len() == refs.references@.len(),
            named_values(out@) == action_assertions(refs@, field, i as int),
        decreases refs.references.len() - i,
    {
        assert(rv[i as int] == refs.references@[i as int]@);
        if refs.references[i].field == field {
            if let Some(label) = refs.references[i].label {
                if starts_with(label, "c2pa.actions") {
                    if let Some(v) = refs.decoded(label) {
                        let ghost before = out@;
                        out.push((label, v));
                        assert(named_values(out@) =~= named_values(before).push((label@, *v)));
                    }
                }
            }
        }
        i += 1;
    }
    out
}

/// An action that begins an asset's history.
pub open spec fn is_inception(kind: Seq<char>) -> bool {
    kind == "c2pa.created"@ || kind == "c2pa.opened"@
}

fn inception(kind: &str) -> (r: bool)
    ensures
        r == is_inception(kind@),
{
    str_eq(kind, "c2pa.created") || str_eq(kind, "c2pa.opened")
}

/// The first defect at or behind action `j` of the `i`-th actions assertion.
pub open spec fn action_defect(
    label: Seq<char>,
    actions: Seq<Value>,
    i: int,
    j: int,
) -> Option<Seq<char>>
    decreases actions.len() - j,
{
    if j < 0 || j >= actions.len() {
        None
    } else {
        match actions[j].text_field("action"@) {
            None => Some(label + " action "@ + text::decimal(j as nat) + " has no action"@),
            Some(kind) => if is_inception(kind) && (i != 0 || j != 0) {
                Some("c2pa.created or c2pa.opened may occur only as the first action"@)
            } else {
                action_defect(label, actions, i, j + 1)
            },
        }
    }
}

/// The defect of the `i`-th actions assertion.
pub open spec fn assertion_defect(entry: (Seq<char>, Value), i: int) -> Option<Seq<char>> {
    match entry.1.items_field("actions"@) {
        None => Some(entry.0 + " has no actions array"@),
        Some(actions) => if actions.len() == 0 {
            Some(entry.0 + " has an empty actions array"@)
        } else {
            action_defect(entry.0, actions, i, 0)
        },
    }
}

/// The first defect at or behind the `i`-th actions assertion.
pub open spec fn list_defect(list: Seq<(Seq<char>, Value)>, i: int) -> Option<Seq<char>>
    decreases list.len() - i,
{
    if i < 0 || i >= list.len() {
        None
    } else {
        match assertion_defect(list[i], i) {
            Some(why) => Some(why),
            None => list_defect(list, i + 1),
        }
    }
}

/// What is wrong with the first action of the first created actions assertion.
pub open spec fn first_action_defect(created: Seq<(Seq<char>, Value)>) -> Option<Seq<char>> {
    if created.len() == 0 {
        Some("standard manifest has no created actions assertion"@)
    } else {
        match created[0].1.items_field("actions"@) {
            None => Some("first actions assertion has no actions array"@),
            Some(actions) => if actions.len() == 0 {
                Some("first actions assertion has an empty actions array"@)
            } else {
                let kind = actions[0].text_field("action"@);
                if !(kind is Some && is_inception(kind->0)) {
                    Some("first action must be c2pa.created or c2pa.opened"@)
                } else if kind == Some("c2pa.created"@) && actions[0].text_field(
                    "digitalSourceType"@,
                ) is None {
                    Some("c2pa.created action has no digitalSourceType"@)
                } else {
                    None
                }
            },
        }
    }
}

/// What is wrong with a claim's actions; v1 claims are not held to this.
pub open spec fn actions_defect(refs: Refs, generation: ClaimGeneration) -> Option<Seq<char>> {
    if generation == ClaimGeneration::V1 {
        None
    } else {
        let n = refs.references.len() as int;
        let created = action_assertions(refs, RefField::CreatedAssertions, n);
        let gathered = action_assertions(refs, RefField::GatheredAssertions, n);
        match first_action_defect(created) {
            Some(why) => Some(why),
            None => list_defect(created + gathered, 0),
        }
    }
}

pub open spec fn after_actions(
    refs: Refs,
    generation: ClaimGeneration,
    sig_url: Seq<char>,
    r: Results,
) -> Results {
    match actions_defect(refs, generation) {
        Some(why) => r.fail(ASSERTION_ACTION_MALFORMED@, sig_url, why),
        None => r,
    }
}

pub open spec fn string_opt(r: Option<String>) -> Option<Seq<char>> {
    match r {
        Some(s) => Some(s@),
        None => None,
    }
}

fn find_action_defect(label: &str, actions: &[Value], i: usize) -> (r: Option<String>)
    ensures
        string_opt(r) == action_defect(label@, actions@, i as int, 0),
{
    let mut j: usize = 0;
    while j < actions.len()
        invariant
            j <= actions.len(),
            action_defect(label@, actions@, i as int, j as int) == action_defect(
                label@,
                actions@,
                i as int,
                0,
            ),
        decreases actions.len() - j,
    {
        match actions[j].get_text("action") {
            None => {
                let n = decimal_string(j as u64);
                return Some(join4(label, " action ", n.as_str(), " has no action"));
            },
            Some(kind) => {
                if inception(kind) && (i != 0 || j != 0) {
                    return Some(
                        "c2pa.created or c2pa.opened may occur only as the first action".to_owned(),
                    );
                }
            },
        }
        j += 1;
    }
    None
}

fn find_assertion_defect(label: &str, v: &Value, i: usize) -> (r: Option<String>)
    ensures
        string_opt(r) == assertion_defect((label@, *v), i as int),
{
    match v.get_items("actions") {
        None => Some(join2(label, " has no actions array")),
        Some(actions) => {
            if actions.len() == 0 {
                Some(join2(label, " has an empty actions array"))
            } else {
                find_action_defect(label, actions, i)
            }
        },
    }
}

fn find_first_action_defect(created: &Vec<(&str, &Value)>) -> (r: Option<String>)
    ensures
        string_opt(r) == first_action_defect(named_values(created@)),
{
    if created.len() == 0 {
        return Some("standard manifest has no created actions assertion".to_owned());
    }
    assert(named_values(created@)[0] == (created@[0].0@, *created@[0].1));
    let actions = match created[0].1.get_items("actions") {
        None => {
            return Some("first actions assertion has no actions array".to_owned());
        },
        Some(actions) => actions,
    };
    if actions.len() == 0 {
        return Some("first actions assertion has an empty actions array".to_owned());
    }
    let kind = match actions[0].get_text("action") {
        Some(kind) => kind,
        None => {
            return Some("first action must be c2pa.created or c2pa.opened".to_owned());
        },
    };
    if !inception(kind) {
        return Some("first action must be c2pa.created or c2pa.opened".to_owned());
    }
    if str_eq(kind, "c2pa.created") && actions[0].get_text("digitalSourceType").is_none() {
        return Some("c2pa.created action has no digitalSourceType".to_owned());
    }
    None
}

fn find_actions_defect(refs: &ClaimAssertionRefs, generation: ClaimGeneration) -> (r: Option<
    String,
>)
    ensures
        string_opt(r) == actions_defect(refs@, generation),
{
    if generation == ClaimGeneration::V1 {
        return None;
    }
    let mut list = referenced_action_assertions(refs, RefField::CreatedAssertions);
    let mut gathered = referenced_action_assertions(refs, RefField::GatheredAssertions);
    let first = find_first_action_defect(&list);
    if first.is_some() {
        return first;
    }
    let ghost created_view = named_values(list@);
    let ghost gathered_view = named_values(gathered@);
    list.append(&mut gathered);
    let ghost all = created_view + gathered_view;
    assert(named_values(list@) =~= all);
    let mut i: usize = 0;
    while i < list.len()
        invariant
            i <= list.len(),
            all == named_values(list@),
            actions_defect(refs@, generation) == list_defect(all, 0),
            list_defect(all, i as int) == list_defect(all, 0),
        decreases list.len() - i,
    {
        assert(all[i as int] == (list@[i as int].0@, *list@[i as int].1));
        let found = find_assertion_defect(list[i].0, list[i].1, i);
        if found.is_some() {
            return found;
        }
        i += 1;
    }
    None
}

/// Check that a v2 claim's actions begin with one inception action and hold no other.
pub fn verify_action_assertions(
    refs: &ClaimAssertionRefs,
    generation: ClaimGeneration,
    sig_url: &str,
    results: &mut ValidationResults,
)
    ensures
        final(results)@ == after_actions(refs@, generation, sig_url@, old(results)@),
{
    if let Some(why) = find_actions_defect(refs, generation) {
        results.push_failure(ASSERTION_ACTION_MALFORMED, sig_url.to_owned(), why);
    }
}

proof fn lemma_no_action_defect(label: Seq<char>, actions: Seq<Value>, i: int, j: int, k: int)
    requires
        0 <= j <= k < actions.len(),
        action_defect(label, actions, i, j) is None,
    ensures
        actions[k].text_field("action"@) is Some,
        is_inception(actions[k].text_field("action"@)->0) ==> i == 0 && k == 0,
    decreases k - j,
{
    if j < k {
        lemma_no_action_defect(label, actions, i, j + 1, k);
    }
}

proof fn lemma_no_list_defect(list: Seq<(Seq<char>, Value)>, i: int, k: int)
    requires
        0 <= i <= k < list.len(),
        list_defect(list, i) is None,
    ensures
        assertion_defect(list[k], k) is None,
    decreases k - i,
{
    if i < k {
        lemma_no_list_defect(list, i + 1, k);
    }
}

/// A v2 claim whose actions are accepted has exactly one inception action: the
/// first action of its first created actions assertion.
pub proof fn accepted_actions_have_one_inception(refs: Refs, i: int, j: int)
    requires
        actions_defect(refs, ClaimGeneration::V2) is None,
    ensures
        ({
            let n = refs.references.len() as int;
            let all = action_assertions(refs, RefField::CreatedAssertions, n) + action_assertions(
                refs,
                RefField::GatheredAssertions,
                n,
            );
            let actions = all[i].1.items_field("actions"@);
            0 <= i < all.len() && 0 <= j < actions->0.len() ==> {
                &&& actions is Some
                &&& actions->0[j].text_field("action"@) is Some
                &&& is_inception(actions->0[j].text_field("action"@)->0) <==> (i == 0 && j == 0)
            }
        }),
{
    let n = refs.references.len() as int;
    let created = action_assertions(refs, RefField::CreatedAssertions, n);
    let all = created + action_assertions(refs, RefField::GatheredAssertions, n);
    let actions = all[i].1.items_field("actions"@);
    if 0 <= i < all.len() && 0 <= j < actions->0.len() {
        lemma_no_list_defect(all, 0, i);
        lemma_no_action_defect(all[i].0, actions->0, i, 0, j);
        assert(all[0] == created[0]);
    }
}

// ---------------------------------------------------------------------------
// Structure as a whole
// ---------------------------------------------------------------------------

/// A defect that keeps the claim signature from being reported as validated.
pub open spec fn fatal_structure(
    m: ParsedManifest,
    manifests: Seq<ParsedManifest>,
    claim: Value,
    generation: ClaimGeneration,
    refs: Refs,
    format: AssetFormat,
) -> bool {
    ||| m.claim_count > 1
    ||| repeats(manifest_labels(manifests))
    ||| repeats(box_labels(m.assertion_jumbf@))
    ||| claim_fields::missing(claim, generation).len() > 0
    ||| !refs.complete
    ||| malformed_reference(refs.references, refs.references.len() as int)
    ||| refs.duplicate_label is Some
    ||| refs.undeclared_labels.len() > 0
    ||| refs.hash_work_bytes is None
    ||| refs.decode_budget_exhausted
    ||| claim_refs::primary_count(refs.binding_labels, format == AssetFormat::C2paStore) > 1
    ||| claim_refs::multi_asset_count(refs.binding_labels) > 1
}

/// The checks that come before the declarations are looked at.
pub open spec fn after_preamble(
    m: ParsedManifest,
    manifests: Seq<ParsedManifest>,
    claim: Value,
    generation: ClaimGeneration,
    sig_url: Seq<char>,
    r: Results,
) -> Results {
    after_manifest_label(
        m.label@,
        generation,
        sig_url,
        after_fields(
            claim_fields::missing(claim, generation),
            sig_url,
            after_ambiguity(m, manifests, sig_url, after_claim_count(m.claim_count, sig_url, r)),
        ),
    )
}

/// The checks on complete declarations.
pub open spec fn after_declarations(
    m: ParsedManifest,
    claim: Value,
    generation: ClaimGeneration,
    refs: Refs,
    format: AssetFormat,
    sig_url: Seq<char>,
    r: Results,
) -> Results {
    let n = refs.references.len() as int;
    let shaped = after_duplicate(
        refs.duplicate_label,
        sig_url,
        after_references(refs.references, n, sig_url, r),
    );
    let declared = after_undeclared(
        refs.undeclared_labels,
        refs.undeclared_labels.len() as int,
        m.label@,
        shaped,
    );
    let bound = after_bindings(
        refs,
        format == AssetFormat::C2paStore,
        m.label@,
        sig_url,
        after_bounds(refs, sig_url, declared),
    );
    let decoded = after_invalid(
        refs.invalid_cbor_labels,
        refs.invalid_cbor_labels.len() as int,
        m.label@,
        after_algorithms(refs.references, claim, n, sig_url, bound),
    );
    after_actions(refs, generation, sig_url, decoded)
}

/// The outcome of the structural gate.
pub open spec fn after_structure(
    m: ParsedManifest,
    manifests: Seq<ParsedManifest>,
    claim: Value,
    generation: ClaimGeneration,
    refs: Refs,
    format: AssetFormat,
    sig_url: Seq<char>,
    r: Results,
) -> Results {
    let p = after_preamble(m, manifests, claim, generation, sig_url, r);
    if refs.complete {
        after_declarations(m, claim, generation, refs, format, sig_url, p)
    } else {
        p.fail(
            CLAIM_MALFORMED@,
            sig_url,
            "claim assertion-reference count exceeds verifier bound ("@ + text::decimal(
                MAX_CLAIM_ASSERTION_REFERENCES as nat,
            ) + ")"@,
        )
    }
}

fn check_preamble(
    m: &ParsedManifest,
    store: &StoreContext,
    claim: &Value,
    generation: ClaimGeneration,
    sig_url: &str,
    results: &mut ValidationResults,
) -> (fatal: bool)
    ensures
        fatal == (m.claim_count > 1 || repeats(manifest_labels(store.manifests@)) || repeats(
            box_labels(m.assertion_jumbf@),
        ) || claim_fields::missing(*claim, generation).len() > 0),
        final(results)@ == after_preamble(
            *m,
            store.manifests@,
            *claim,
            generation,
            sig_url@,
            old(results)@,
        ),
{
    let mut fatal = false;
    if m.claim_count > 1 {
        let n = decimal_string(m.claim_count as u64);
        results.push_failure(
            CLAIM_MULTIPLE,
            sig_url.to_owned(),
            join2(n.as_str(), " claim boxes in manifest (expected 1)"),
        );
        fatal = true;
    }
    if manifests_repeat(store.manifests) {
        results.push_failure(
            CLAIM_MALFORMED,
            sig_url.to_owned(),
            "manifest store contains duplicate labels; internal JUMBF references are ambiguous".to_owned(),
        );
        fatal = true;
    }
    if boxes_repeat(&m.assertion_jumbf) {
        results.push_failure(
            CLAIM_MALFORMED,
            sig_url.to_owned(),
            "manifest contains duplicate assertion labels; internal JUMBF references are ambiguous".to_owned(),
        );
        fatal = true;
    }
    let missing = missing_fields(claim, generation);
    assert(text::views(missing@).len() == missing@.len());
    if missing.len() > 0 {
        let names = list_names(&missing);
        results.push_failure(
            CLAIM_MALFORMED,
            sig_url.to_owned(),
            join2("claim missing required field(s): ", names.as_str()),
        );
        fatal = true;
    }
    if generation == ClaimGeneration::V2 && !manifest_label_conformant(m.label.as_str()) {
        results.push_failure(
            CLAIM_MALFORMED,
            sig_url.to_owned(),
            join2("claim box label invalid: ", m.label.as_str()),
        );
    }
    fatal
}

fn check_bounds(refs: &ClaimAssertionRefs, sig_url: &str, results: &mut ValidationResults)
    ensures
        final(results)@ == after_bounds(refs@, sig_url@, old(results)@),
{
    if refs.hash_work_bytes.is_none() {
        let n = decimal_string(MAX_ASSERTION_HASH_WORK_BYTES as u64);
        results.push_failure(
            CLAIM_MALFORMED,
            sig_url.to_owned(),
            join3(
                "aggregate assertion digest work exceeds verifier bound (",
                n.as_str(),
                " bytes)",
            ),
        );
    }
    if refs.decode_budget_exhausted {
        let n = decimal_string(MAX_ASSERTION_DECODED_VALUE_NODES as u64);
        let used = decimal_string(refs.decoded_value_nodes as u64);
        results.push_failure(
            CLAIM_MALFORMED,
            sig_url.to_owned(),
            join5(
                "aggregate decoded assertion values exceed verifier bound (",
                n.as_str(),
                " nodes; ",
                used.as_str(),
                " nodes consumed)",
            ),
        );
    }
}

fn check_bindings(
    refs: &ClaimAssertionRefs,
    compound_ok: bool,
    manifest: &str,
    sig_url: &str,
    results: &mut ValidationResults,
) -> (fatal: bool)
    ensures
        fatal == (claim_refs::primary_count(refs@.binding_labels, compound_ok) > 1
            || claim_refs::multi_asset_count(refs@.binding_labels) > 1),
        final(results)@ == after_bindings(
            refs@,
            compound_ok,
            manifest@,
            sig_url@,
            old(results)@,
        ),
{
    let plan = refs.binding_plan(compound_ok);
    let mut fatal = false;
    if plan.primary_count == 0 {
        results.push_failure(
            CLAIM_HARD_BINDINGS_MISSING,
            sig_url.to_owned(),
            "claim references no supported primary hard binding".to_owned(),
        );
    } else if plan.primary_count != 1 {
        results.push_failure(
            ASSERTION_MULTIPLE_HARD_BINDINGS,
            join3("self#jumbf=/c2pa/", manifest, "/c2pa.assertions"),
            "claim declares more than one supported primary hard binding".to_owned(),
        );
        fatal = true;
    }
    if plan.multi_asset_count > 1 {
        results.push_failure(
            ASSERTION_MULTI_ASSET_HASH_MALFORMED,
            assertion_uri(manifest, "c2pa.hash.multi-asset"),
            "claim declares more than one c2pa.hash.multi-asset fallback".to_owned(),
        );
        fatal = true;
    }
    fatal
}

/// Validate the structure of a claim: one claim box, unambiguous labels, the
/// required fields of its generation in their required shape, complete and
/// unique declarations within the verifier's bounds, one primary hard binding,
/// supported algorithms, decodable assertions and well-formed actions.
///
/// Returns whether a defect keeps the claim signature from being reported as
/// validated.
pub fn verify_claim_structure(
    m: &ParsedManifest,
    store: &StoreContext,
    claim: &Value,
    generation: ClaimGeneration,
    refs: &ClaimAssertionRefs,
    format: AssetFormat,
    sig_url: &str,
    results: &mut ValidationResults,
) -> (fatal: bool)
    ensures
        fatal == fatal_structure(*m, store.manifests@, *claim, generation, refs@, format),
        final(results)@ == after_structure(
            *m,
            store.manifests@,
            *claim,
            generation,
            refs@,
            format,
            sig_url@,
            old(results)@,
        ),
{
    let mut fatal = check_preamble(m, store, claim, generation, sig_url, results);
    if !refs.complete {
        let n = decimal_string(MAX_CLAIM_ASSERTION_REFERENCES as u64);
        results.push_failure(
            CLAIM_MALFORMED,
            sig_url.to_owned(),
            join3("claim assertion-reference count exceeds verifier bound (", n.as_str(), ")"),
        );
        return true;
    }
    if check_references(&refs.references, sig_url, results) {
        fatal = true;
    }
    if let Some(label) = refs.duplicate_label {
        results.push_failure(
            CLAIM_MALFORMED,
            sig_url.to_owned(),
            join3("claim declares assertion '", label, "' more than once"),
        );
        fatal = true;
    }
    report_undeclared(&refs.undeclared_labels, m.label.as_str(), results);
    if refs.undeclared_labels.len() > 0 {
        fatal = true;
    }
    check_bounds(refs, sig_url, results);
    if refs.hash_work_bytes.is_none() || refs.decode_budget_exhausted {
        fatal = true;
    }
    if check_bindings(refs, format == AssetFormat::C2paStore, m.label.as_str(), sig_url, results) {
        fatal = true;
    }
    check_algorithms(&refs.references, claim, sig_url, results);
    report_invalid(&refs.invalid_cbor_labels, m.label.as_str(), results);
    verify_action_assertions(refs, generation, sig_url, results);
    fatal
}

// ---------------------------------------------------------------------------
// Laws
// ---------------------------------------------------------------------------


/// The reference `i` declares, in `field`, an actions assertion that is decoded.
pub open spec fn declares_actions(refs: Refs, field: RefField, i: int) -> bool {
    let reference = refs.references[i];
    &&& reference.field == field
    &&& reference.label is Some
    &&& reference.label->0.len() >= 12
    &&& reference.label->0.subrange(0, 12) == "c2pa.actions"@
    &&& refs.decoded(reference.label->0) is Some
}

/// The actions that the reference `i` declares.
pub open spec fn declared_actions(refs: Refs, i: int) -> Option<Seq<Value>> {
    refs.decoded(refs.references[i].label->0)->0.items_field("actions"@)
}

/// The entry is that of a reference among the first `k`, with `t` before it.
spec fn listed_from(
    refs: Refs,
    field: RefField,
    k: int,
    t: int,
    entry: (Seq<char>, Value),
) -> bool {
    exists|i: int|
        0 <= i < k && #[trigger] declares_actions(refs, field, i) && action_assertions(
            refs,
            field,
            i,
        ).len() == t && entry == (
            refs.references[i].label->0,
            refs.decoded(refs.references[i].label->0)->0,
        )
}

proof fn lemma_actions_listed(refs: Refs, field: RefField, k: int)
    requires
        0 <= k <= refs.references.len(),
    ensures
        ({
            let list = action_assertions(refs, field, k);
            &&& forall|i: int|
                0 <= i < k && #[trigger] declares_actions(refs, field, i) ==> {
                    let t = action_assertions(refs, field, i).len() as int;
                    &&& t < list.len()
                    &&& list[t] == (
                        refs.references[i].label->0,
                        refs.decoded(refs.references[i].label->0)->0,
                    )
                }
            &&& forall|t: int|
                0 <= t < list.len() ==> listed_from(refs, field, k, t, #[trigger] list[t])
        }),
    decreases k,
{
    reveal_strlit("c2pa.actions");
    assert("c2pa.actions"@.len() == 12);
    if k > 0 {
        lemma_actions_listed(refs, field, k - 1);
        let before = action_assertions(refs, field, k - 1);
        let list = action_assertions(refs, field, k);
        assert(declares_actions(refs, field, k - 1) == (list.len() == before.len() + 1));
        assert forall|i: int| 0 <= i < k && #[trigger] declares_actions(refs, field, i) implies {
            let t = action_assertions(refs, field, i).len() as int;
            &&& t < list.len()
            &&& list[t] == (
                refs.references[i].label->0,
                refs.decoded(refs.references[i].label->0)->0,
            )
        } by {
            if i < k - 1 {
                let t = action_assertions(refs, field, i).len() as int;
                assert(list[t] == before[t]);
            }
        }
        assert forall|t: int| 0 <= t < list.len() implies listed_from(
            refs,
            field,
            k,
            t,
            #[trigger] list[t],
        ) by {
            if t < before.len() {
                assert(list[t] == before[t]);
                assert(listed_from(refs, field, k - 1, t, before[t]));
                let i = choose|i: int|
                    0 <= i < k - 1 && #[trigger] declares_actions(refs, field, i)
                        && action_assertions(refs, field, i).len() == t && before[t] == (
                        refs.references[i].label->0,
                        refs.decoded(refs.references[i].label->0)->0,
                    );
                assert(declares_actions(refs, field, i));
            } else {
                assert(declares_actions(refs, field, k - 1));
            }
        }
    }
}

proof fn lemma_actions_before(refs: Refs, field: RefField, k: int)
    requires
        0 <= k <= refs.references.len(),
    ensures
        (action_assertions(refs, field, k).len() == 0) == (forall|i: int|
            0 <= i < k ==> !#[trigger] declares_actions(refs, field, i)),
    decreases k,
{
    reveal_strlit("c2pa.actions");
    assert("c2pa.actions"@.len() == 12);
    if k > 0 {
        lemma_actions_before(refs, field, k - 1);
        let before = action_assertions(refs, field, k - 1);
        let list = action_assertions(refs, field, k);
        assert(declares_actions(refs, field, k - 1) == (list.len() == before.len() + 1));
    }
}

proof fn lemma_action_defect(label: Seq<char>, actions: Seq<Value>, i: int, j: int)
    requires
        0 <= j,
    ensures
        action_defect(label, actions, i, j) is None == (forall|k: int|
            j <= k < actions.len() ==> (#[trigger] actions[k]).text_field("action"@) is Some && (
            actions[k].text_field("action"@)->0 == "c2pa.created"@ || actions[k].text_field(
                "action"@,
            )->0 == "c2pa.opened"@ ==> i == 0 && k == 0)),
    decreases actions.len() - j,
{
    if j < actions.len() {
        lemma_action_defect(label, actions, i, j + 1);
    }
}

proof fn lemma_list_defect(list: Seq<(Seq<char>, Value)>, i: int)
    requires
        0 <= i,
    ensures
        list_defect(list, i) is None == (forall|k: int|
            i <= k < list.len() ==> assertion_defect(#[trigger] list[k], k) is None),
    decreases list.len() - i,
{
    if i < list.len() {
        lemma_list_defect(list, i + 1);
    }
}

/// The actions that the reference `i` declares are a list that is not empty, and
/// each has a kind; an action that begins the history of the asset stands
/// nowhere but at the front of the reference `first`.
pub open spec fn actions_in_order(refs: Refs, i: int, first: int) -> bool {
    &&& declared_actions(refs, i) is Some
    &&& declared_actions(refs, i)->0.len() > 0
    &&& forall|j: int|
        0 <= j < declared_actions(refs, i)->0.len() ==> {
            let kind = (#[trigger] declared_actions(refs, i)->0[j]).text_field("action"@);
            &&& kind is Some
            &&& kind->0 == "c2pa.created"@ || kind->0 == "c2pa.opened"@ ==> i == first && j == 0
        }
}

/// The actions of a claim of the second generation are sound exactly where its
/// first created actions assertion begins with a created or an opened action, a
/// created one with its digital source type, and in no actions assertion, created
/// or gathered, such an action stands anywhere else, the list is empty or an
/// action lacks its kind. A claim of the first generation is not held to this.
pub proof fn histories_begin_once(refs: Refs, generation: ClaimGeneration)
    ensures
        generation == ClaimGeneration::V1 ==> actions_defect(refs, generation) is None,
        generation == ClaimGeneration::V2 ==> actions_defect(refs, generation) is None == (exists|
            first: int,
        |
            {
                let n = refs.references.len() as int;
                &&& 0 <= first < n
                &&& #[trigger] declares_actions(refs, RefField::CreatedAssertions, first)
                &&& forall|i: int|
                    0 <= i < first ==> !#[trigger] declares_actions(
                        refs,
                        RefField::CreatedAssertions,
                        i,
                    )
                &&& declared_actions(refs, first) is Some
                &&& declared_actions(refs, first)->0.len() > 0
                &&& declared_actions(refs, first)->0[0].text_field("action"@) == Some(
                    "c2pa.opened"@,
                ) || (declared_actions(refs, first)->0[0].text_field("action"@) == Some(
                    "c2pa.created"@,
                ) && declared_actions(refs, first)->0[0].text_field("digitalSourceType"@) is Some)
                &&& forall|i: int|
                    0 <= i < n && #[trigger] declares_actions(refs, RefField::CreatedAssertions, i)
                        ==> actions_in_order(refs, i, first)
                &&& forall|i: int|
                    0 <= i < n && #[trigger] declares_actions(
                        refs,
                        RefField::GatheredAssertions,
                        i,
                    ) ==> actions_in_order(refs, i, first)
            }),
{
    if generation == ClaimGeneration::V2 {
        let n = refs.references.len() as int;
        let c = RefField::CreatedAssertions;
        let g = RefField::GatheredAssertions;
        let created = action_assertions(refs, c, n);
        let gathered = action_assertions(refs, g, n);
        let all = created + gathered;
        reveal_strlit("c2pa.created");
        reveal_strlit("c2pa.opened");
        assert("c2pa.created"@.len() != "c2pa.opened"@.len());
        lemma_actions_listed(refs, c, n);
        lemma_actions_listed(refs, g, n);
        lemma_list_defect(all, 0);
        if actions_defect(refs, generation) is None {
            assert(created[0] == all[0]);
            assert(listed_from(refs, c, n, 0, created[0]));
            let first = choose|i: int|
                0 <= i < n && #[trigger] declares_actions(refs, c, i) && action_assertions(
                    refs,
                    c,
                    i,
                ).len() == 0 && created[0] == (
                    refs.references[i].label->0,
                    refs.decoded(refs.references[i].label->0)->0,
                );
            assert(declares_actions(refs, c, first));
            lemma_actions_before(refs, c, first);
            assert forall|i: int| 0 <= i < n && #[trigger] declares_actions(refs, c, i) implies actions_in_order(
            refs, i, first) by {
                let t = action_assertions(refs, c, i).len() as int;
                assert(all[t] == created[t]);
                assert(assertion_defect(all[t], t) is None);
                lemma_action_defect(all[t].0, declared_actions(refs, i)->0, t, 0);
                if t == 0 {
                    lemma_actions_before(refs, c, i);
                    assert(i == first) by {
                        if i < first {
                            assert(!declares_actions(refs, c, i));
                        }
                        if first < i {
                            assert(!declares_actions(refs, c, first));
                        }
                    }
                }
            }
            assert forall|i: int| 0 <= i < n && #[trigger] declares_actions(refs, g, i) implies actions_in_order(
            refs, i, first) by {
                let t = action_assertions(refs, g, i).len() as int;
                assert(all[created.len() + t] == gathered[t]);
                assert(assertion_defect(all[created.len() + t], created.len() + t) is None);
                lemma_action_defect(
                    gathered[t].0,
                    declared_actions(refs, i)->0,
                    created.len() + t,
                    0,
                );
            }
        }
        if exists|first: int|
            {
                &&& 0 <= first < n
                &&& #[trigger] declares_actions(refs, c, first)
                &&& forall|i: int| 0 <= i < first ==> !#[trigger] declares_actions(refs, c, i)
                &&& declared_actions(refs, first) is Some
                &&& declared_actions(refs, first)->0.len() > 0
                &&& declared_actions(refs, first)->0[0].text_field("action"@) == Some(
                    "c2pa.opened"@,
                ) || (declared_actions(refs, first)->0[0].text_field("action"@) == Some(
                    "c2pa.created"@,
                ) && declared_actions(refs, first)->0[0].text_field("digitalSourceType"@) is Some)
                &&& forall|i: int|
                    0 <= i < n && #[trigger] declares_actions(refs, c, i) ==> actions_in_order(
                        refs,
                        i,
                        first,
                    )
                &&& forall|i: int|
                    0 <= i < n && #[trigger] declares_actions(refs, g, i) ==> actions_in_order(
                        refs,
                        i,
                        first,
                    )
            } {
            let first = choose|first: int|
                {
                    &&& 0 <= first < n
                    &&& #[trigger] declares_actions(refs, c, first)
                    &&& forall|i: int| 0 <= i < first ==> !#[trigger] declares_actions(refs, c, i)
                    &&& declared_actions(refs, first) is Some
                    &&& declared_actions(refs, first)->0.len() > 0
                    &&& declared_actions(refs, first)->0[0].text_field("action"@) == Some(
                        "c2pa.opened"@,
                    ) || (declared_actions(refs, first)->0[0].text_field("action"@) == Some(
                        "c2pa.created"@,
                    ) && declared_actions(refs, first)->0[0].text_field("digitalSourceType"@)
                        is Some)
                    &&& forall|i: int|
                        0 <= i < n && #[trigger] declares_actions(refs, c, i) ==> actions_in_order(
                            refs,
                            i,
                            first,
                        )
                    &&& forall|i: int|
                        0 <= i < n && #[trigger] declares_actions(refs, g, i) ==> actions_in_order(
                            refs,
                            i,
                            first,
                        )
                };
            lemma_actions_before(refs, c, first);
            assert(created[0] == (
                refs.references[first].label->0,
                refs.decoded(refs.references[first].label->0)->0,
            ));
            assert(first_action_defect(created) is None);
            assert forall|t: int| 0 <= t < all.len() implies assertion_defect(
                #[trigger] all[t],
                t,
            ) is None by {
                if t < created.len() {
                    assert(all[t] == created[t]);
                    assert(listed_from(refs, c, n, t, created[t]));
                    let i = choose|i: int|
                        0 <= i < n && #[trigger] declares_actions(refs, c, i) && action_assertions(
                            refs,
                            c,
                            i,
                        ).len() == t && created[t] == (
                            refs.references[i].label->0,
                            refs.decoded(refs.references[i].label->0)->0,
                        );
                    assert(declares_actions(refs, c, i));
                    lemma_action_defect(all[t].0, declared_actions(refs, i)->0, t, 0);
                } else {
                    assert(all[t] == gathered[t - created.len()]);
                    assert(listed_from(
                        refs,
                        g,
                        n,
                        t - created.len(),
                        gathered[t - created.len()],
                    ));
                    let i = choose|i: int|
                        0 <= i < n && #[trigger] declares_actions(refs, g, i) && action_assertions(
                            refs,
                            g,
                            i,
                        ).len() == t - created.len() && gathered[t - created.len()] == (
                            refs.references[i].label->0,
                            refs.decoded(refs.references[i].label->0)->0,
                        );
                    assert(declares_actions(refs, g, i));
                    assert(i != first);
                    lemma_action_defect(all[t].0, declared_actions(refs, i)->0, t, 0);
                }
            }
        }
    }
}

/// What a sound structure is: one claim box, labels that nothing in the store or
/// in the assertion store shares, every required field in its shape, a conformant
/// manifest label in the second generation; every reference a complete hashed
/// URI under a supported algorithm, an icon reference only to an icon assertion;
/// no label declared twice and no box undeclared; work and decoding within their
/// bounds, and everything decoded; one primary binding and at most one
/// multi-asset fallback; and sound actions.
pub open spec fn sound_structure(
    m: ParsedManifest,
    manifests: Seq<ParsedManifest>,
    claim: Value,
    generation: ClaimGeneration,
    refs: Refs,
    format: AssetFormat,
) -> bool {
    &&& m.claim_count <= 1
    &&& forall|i: int, j: int|
        0 <= i < j < manifests.len() ==> (#[trigger] manifests[i]).label@ != (
        #[trigger] manifests[j]).label@
    &&& forall|i: int, j: int|
        0 <= i < j < m.assertion_jumbf@.len() ==> (#[trigger] m.assertion_jumbf@[i]).label@ != (
        #[trigger] m.assertion_jumbf@[j]).label@
    &&& claim_fields::missing(claim, generation).len() == 0
    &&& generation == ClaimGeneration::V2 ==> labels::conformant_manifest_label(m.label@)
    &&& refs.complete
    &&& forall|i: int|
        0 <= i < refs.references.len() ==> {
            let reference = #[trigger] refs.references[i];
            &&& reference.value is Dict
            &&& reference.value.text_field("url"@) is Some
            &&& reference.value.bytes_field("hash"@) is Some
            &&& reference.field == RefField::GeneratorIcon ==> reference.label is Some
                && labels::icon_label(reference.label->0)
            &&& labels::algorithm_for(reference.value, claim) is Some ==> hash::algorithm_named(
                labels::algorithm_for(reference.value, claim)->0,
            ) is Some
        }
    &&& refs.duplicate_label is None
    &&& refs.undeclared_labels.len() == 0
    &&& refs.hash_work_bytes is Some
    &&& !refs.decode_budget_exhausted
    &&& refs.invalid_cbor_labels.len() == 0
    &&& claim_refs::primary_count(refs.binding_labels, format == AssetFormat::C2paStore) == 1
    &&& claim_refs::multi_asset_count(refs.binding_labels) <= 1
    &&& actions_defect(refs, generation) is None
}

proof fn lemma_references_count(refs: Seq<Reference>, k: int, sig_url: Seq<char>, r: Results)
    requires
        0 <= k <= refs.len(),
    ensures
        after_references(refs, k, sig_url, r).failure.len() >= r.failure.len(),
        (after_references(refs, k, sig_url, r).failure.len() == r.failure.len()) == (forall|i: int|
            0 <= i < k ==> complete_hashed_uri((#[trigger] refs[i]).value) && !misplaced_icon(
                refs[i],
            )),
        after_references(refs, k, sig_url, r).failure.len() == r.failure.len()
            ==> after_references(refs, k, sig_url, r) == r,
    decreases k,
{
    if k > 0 {
        lemma_references_count(refs, k - 1, sig_url, r);
        assert(refs[k - 1] == refs[k - 1]);
    }
}

proof fn lemma_undeclared_count(list: Seq<Seq<char>>, k: int, manifest: Seq<char>, r: Results)
    requires
        0 <= k,
    ensures
        after_undeclared(list, k, manifest, r).failure.len() == r.failure.len() + k,
        k == 0 ==> after_undeclared(list, k, manifest, r) == r,
    decreases k,
{
    if k > 0 {
        lemma_undeclared_count(list, k - 1, manifest, r);
    }
}

proof fn lemma_invalid_count(list: Seq<Seq<char>>, k: int, manifest: Seq<char>, r: Results)
    requires
        0 <= k,
    ensures
        after_invalid(list, k, manifest, r).failure.len() == r.failure.len() + k,
        k == 0 ==> after_invalid(list, k, manifest, r) == r,
    decreases k,
{
    if k > 0 {
        lemma_invalid_count(list, k - 1, manifest, r);
    }
}

proof fn lemma_algorithms_count(
    refs: Seq<Reference>,
    claim: Value,
    k: int,
    sig_url: Seq<char>,
    r: Results,
)
    requires
        0 <= k <= refs.len(),
    ensures
        after_algorithms(refs, claim, k, sig_url, r).failure.len() >= r.failure.len(),
        (after_algorithms(refs, claim, k, sig_url, r).failure.len() == r.failure.len()) == (forall|
            i: int,
        |
            0 <= i < k ==> (labels::algorithm_for((#[trigger] refs[i]).value, claim) is Some
                ==> hash::algorithm_named(labels::algorithm_for(refs[i].value, claim)->0)
                is Some)),
        after_algorithms(refs, claim, k, sig_url, r).failure.len() == r.failure.len()
            ==> after_algorithms(refs, claim, k, sig_url, r) == r,
    decreases k,
{
    if k > 0 {
        lemma_algorithms_count(refs, claim, k - 1, sig_url, r);
        assert(refs[k - 1] == refs[k - 1]);
    }
}

proof fn lemma_repeats(manifests: Seq<ParsedManifest>, boxes: Seq<JumbfBox>)
    ensures
        repeats(manifest_labels(manifests)) == !(forall|i: int, j: int|
            0 <= i < j < manifests.len() ==> (#[trigger] manifests[i]).label@ != (
            #[trigger] manifests[j]).label@),
        repeats(box_labels(boxes)) == !(forall|i: int, j: int|
            0 <= i < j < boxes.len() ==> (#[trigger] boxes[i]).label@ != (
            #[trigger] boxes[j]).label@),
{
    let a = manifest_labels(manifests);
    if !(forall|i: int, j: int|
        0 <= i < j < manifests.len() ==> (#[trigger] manifests[i]).label@ != (
        #[trigger] manifests[j]).label@) {
        let (i, j) = choose|i: int, j: int|
            0 <= i < j < manifests.len() && (#[trigger] manifests[i]).label@ == (
            #[trigger] manifests[j]).label@;
        assert(a[i] == a[j]);
    }
    if repeats(a) {
        let (i, j) = choose|i: int, j: int|
            0 <= i < j < a.len() && #[trigger] a[i] == #[trigger] a[j];
        assert(manifests[i].label@ == manifests[j].label@);
    }
    let b = box_labels(boxes);
    if !(forall|i: int, j: int|
        0 <= i < j < boxes.len() ==> (#[trigger] boxes[i]).label@ != (#[trigger] boxes[j]).label@) {
        let (i, j) = choose|i: int, j: int|
            0 <= i < j < boxes.len() && (#[trigger] boxes[i]).label@ == (
            #[trigger] boxes[j]).label@;
        assert(b[i] == b[j]);
    }
    if repeats(b) {
        let (i, j) = choose|i: int, j: int|
            0 <= i < j < b.len() && #[trigger] b[i] == #[trigger] b[j];
        assert(boxes[i].label@ == boxes[j].label@);
    }
}

/// The structural checks add no failure exactly to a sound structure, and then
/// they leave the results as they are.
pub proof fn structures_pass_exactly_where_sound(
    m: ParsedManifest,
    manifests: Seq<ParsedManifest>,
    claim: Value,
    generation: ClaimGeneration,
    refs: Refs,
    format: AssetFormat,
    sig_url: Seq<char>,
    r: Results,
)
    ensures
        (after_structure(m, manifests, claim, generation, refs, format, sig_url, r).failure
            == r.failure) == sound_structure(m, manifests, claim, generation, refs, format),
        sound_structure(m, manifests, claim, generation, refs, format) ==> after_structure(
            m,
            manifests,
            claim,
            generation,
            refs,
            format,
            sig_url,
            r,
        ) == r,
{
    lemma_repeats(manifests, m.assertion_jumbf@);
    let after = after_structure(m, manifests, claim, generation, refs, format, sig_url, r);
    let p = after_preamble(m, manifests, claim, generation, sig_url, r);
    assert(p.failure.len() >= r.failure.len());
    assert(p.failure.len() == r.failure.len() ==> p == r);
    if refs.complete {
        let n = refs.references.len() as int;
        lemma_references_count(refs.references, n, sig_url, p);
        let a = after_references(refs.references, n, sig_url, p);
        let b = after_duplicate(refs.duplicate_label, sig_url, a);
        lemma_undeclared_count(
            refs.undeclared_labels,
            refs.undeclared_labels.len() as int,
            m.label@,
            b,
        );
        let c = after_undeclared(
            refs.undeclared_labels,
            refs.undeclared_labels.len() as int,
            m.label@,
            b,
        );
        let d = after_bounds(refs, sig_url, c);
        let e = after_bindings(refs, format == AssetFormat::C2paStore, m.label@, sig_url, d);
        lemma_algorithms_count(refs.references, claim, n, sig_url, e);
        let f = after_algorithms(refs.references, claim, n, sig_url, e);
        lemma_invalid_count(
            refs.invalid_cbor_labels,
            refs.invalid_cbor_labels.len() as int,
            m.label@,
            f,
        );
        let g = after_invalid(
            refs.invalid_cbor_labels,
            refs.invalid_cbor_labels.len() as int,
            m.label@,
            f,
        );
        assert(after == after_actions(refs, generation, sig_url, g));
        if after.failure.len() == r.failure.len() {
            assert forall|i: int| 0 <= i < n implies {
                let reference = #[trigger] refs.references[i];
                &&& reference.value is Dict
                &&& reference.value.text_field("url"@) is Some
                &&& reference.value.bytes_field("hash"@) is Some
                &&& reference.field == RefField::GeneratorIcon ==> reference.label is Some
                    && labels::icon_label(reference.label->0)
                &&& labels::algorithm_for(reference.value, claim) is Some ==> hash::algorithm_named(
                    labels::algorithm_for(reference.value, claim)->0,
                ) is Some
            } by {
                assert(complete_hashed_uri(refs.references[i].value));
            }
        }
    }
}

} // verus!
