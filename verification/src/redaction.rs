//! Redactions that a claim declares of assertions in its ingredients.
//!
//! A redaction states that an assertion of an ingredient's manifest was removed
//! from the store. A claim may not redact assertions of its own manifest, an
//! actions assertion or a hard binding, and what it declares redacted must be
//! gone or emptied in place. A target manifest that the store no longer carries
//! is not a defect.
use vstd::prelude::*;
use crate::manifest;
use crate::manifest::{find_manifest, ParsedManifest};
use crate::status;
use crate::status::{
    Results, ValidationResults, ASSERTION_ACTION_REDACTED, ASSERTION_HARD_BINDING_REDACTED,
    ASSERTION_NOT_REDACTED, ASSERTION_SELF_REDACTED, CLAIM_MALFORMED,
};
use crate::text;
use crate::text::{
    contains_char, decimal_string, is_all_digits, join3, join5, split_once, starts_with, str_eq,
    strip_prefix,
};
use crate::value;
use crate::value::Value;

verus! {

/// Ceiling on the `redacted_assertions` entries examined for one claim.
pub const MAX_REDACTED_ASSERTIONS: usize = 4096;

// ---------------------------------------------------------------------------
// Labels
// ---------------------------------------------------------------------------

/// `label` without the `__N` suffix of a repeated assertion.
pub open spec fn base_of(label: Seq<char>) -> Seq<char> {
    match text::split_at_first(label, "__"@) {
        Some((base, instance)) => if instance.len() > 0 && text::all_digits(instance) {
            base
        } else {
            label
        },
        None => label,
    }
}

/// Strip the `__N` multi-instance suffix.
pub fn base_label<'a>(label: &'a str) -> (r: &'a str)
    ensures
        r@ == base_of(label@),
{
    match split_once(label, "__") {
        Some((base, instance)) => if !is_empty_text(instance) && is_all_digits(instance) {
            base
        } else {
            label
        },
        None => label,
    }
}

/// The failure code for an assertion that may never be redacted.
pub open spec fn protected_code(label: Seq<char>) -> Option<Seq<char>> {
    let base = base_of(label);
    if base == "c2pa.actions"@ || base == "c2pa.actions.v2"@ {
        Some(ASSERTION_ACTION_REDACTED@)
    } else if text::is_prefix("c2pa.hash."@, base) {
        Some(ASSERTION_HARD_BINDING_REDACTED@)
    } else {
        None
    }
}

/// The failure code for an assertion that may never be redacted, if any.
pub fn non_redactable(label: &str) -> (r: Option<&'static str>)
    ensures
        value::chars_opt(r) == protected_code(label@),
{
    let base = base_label(label);
    if str_eq(base, "c2pa.actions") || str_eq(base, "c2pa.actions.v2") {
        return Some(ASSERTION_ACTION_REDACTED);
    }
    if starts_with(base, "c2pa.hash.") {
        return Some(ASSERTION_HARD_BINDING_REDACTED);
    }
    None
}

// ---------------------------------------------------------------------------
// Entries
// ---------------------------------------------------------------------------

/// How a `redacted_assertions` entry reads.
pub enum Entry<'a> {
    /// An absolute URI naming an assertion box in another manifest.
    Absolute { manifest: &'a str, assertion: &'a str },
    /// A URI that can only mean the declaring manifest's own assertion store.
    SelfScoped,
    /// Not a JUMBF assertion URI at all.
    Malformed,
}

/// An entry as the contracts see it.
pub enum Reading {
    Absolute { manifest: Seq<char>, assertion: Seq<char> },
    SelfScoped,
    Malformed,
}

impl<'a> View for Entry<'a> {
    type V = Reading;

    open spec fn view(&self) -> Reading {
        match self {
            Entry::Absolute { manifest, assertion } => Reading::Absolute {
                manifest: manifest@,
                assertion: assertion@,
            },
            Entry::SelfScoped => Reading::SelfScoped,
            Entry::Malformed => Reading::Malformed,
        }
    }
}

/// A non-empty label without a slash.
pub open spec fn leaf(label: Seq<char>) -> bool {
    label.len() > 0 && !label.contains('/')
}

/// How `url` reads in a claim of the manifest `declaring`.
pub open spec fn reading(url: Seq<char>, declaring: Seq<char>) -> Reading {
    match text::after_prefix(url, "self#jumbf="@) {
        None => Reading::Malformed,
        Some(rest) => match text::after_prefix(rest, "/c2pa/"@) {
            None => match text::after_prefix(rest, "c2pa.assertions/"@) {
                Some(assertion) => if leaf(assertion) {
                    Reading::SelfScoped
                } else {
                    Reading::Malformed
                },
                None => Reading::Malformed,
            },
            Some(absolute) => match text::split_at_first(absolute, "/c2pa.assertions/"@) {
                None => Reading::Malformed,
                Some((manifest, assertion)) => if manifest.len() == 0 || !leaf(assertion) {
                    Reading::Malformed
                } else if manifest == declaring {
                    Reading::SelfScoped
                } else {
                    Reading::Absolute { manifest, assertion }
                },
            },
        },
    }
}

fn is_empty_text(s: &str) -> (r: bool)
    ensures
        r == (s@.len() == 0),
{
    proof {
        reveal_strlit("");
        assert(s@.len() == 0 ==> s@ =~= ""@);
    }
    str_eq(s, "")
}

/// Read one `redacted_assertions` entry.
pub fn read_entry<'a>(url: &'a str, declaring_label: &str) -> (r: Entry<'a>)
    ensures
        r@ == reading(url@, declaring_label@),
{
    let rest = match strip_prefix(url, "self#jumbf=") {
        Some(rest) => rest,
        None => {
            return Entry::Malformed;
        },
    };
    let absolute = match strip_prefix(rest, "/c2pa/") {
        Some(absolute) => absolute,
        None => {
            return match strip_prefix(rest, "c2pa.assertions/") {
                Some(assertion) => if !is_empty_text(assertion) && !contains_char(assertion, '/') {
                    Entry::SelfScoped
                } else {
                    Entry::Malformed
                },
                None => Entry::Malformed,
            };
        },
    };
    let (manifest, assertion) = match split_once(absolute, "/c2pa.assertions/") {
        Some(pair) => pair,
        None => {
            return Entry::Malformed;
        },
    };
    if is_empty_text(manifest) || is_empty_text(assertion) || contains_char(assertion, '/') {
        return Entry::Malformed;
    }
    if str_eq(manifest, declaring_label) {
        return Entry::SelfScoped;
    }
    Entry::Absolute { manifest, assertion }
}

/// The URI of an entry: its text, or the `url` of a hashed-URI map.
pub open spec fn uri_of(entry: Value) -> Option<Seq<char>> {
    match value::text_of(Some(entry)) {
        Some(t) => Some(t),
        None => entry.text_field("url"@),
    }
}

/// The textual JUMBF URI of a `redacted_assertions` entry.
pub fn entry_url<'a>(entry: &'a Value) -> (r: Option<&'a str>)
    ensures
        value::chars_opt(r) == uri_of(*entry),
{
    match entry.as_text() {
        Some(t) => Some(t),
        None => entry.get_text("url"),
    }
}

// ---------------------------------------------------------------------------
// Validation
// ---------------------------------------------------------------------------

/// The store still carries content of the redacted assertion.
pub open spec fn still_present(
    manifests: Seq<ParsedManifest>,
    label: Seq<char>,
    assertion: Seq<char>,
) -> bool {
    match manifest::manifest_from(manifests, label, 0) {
        Some(m) => manifest::zeroed_content(m.assertion_jumbf@, assertion) == Some(false),
        None => false,
    }
}

/// One entry.
pub open spec fn after_entry(
    entry: Value,
    declaring: Seq<char>,
    manifests: Seq<ParsedManifest>,
    r: Results,
) -> Results {
    let claim_url = "self#jumbf=/c2pa/"@ + declaring + "/c2pa.claim.v2"@;
    match uri_of(entry) {
        None => r.fail(
            CLAIM_MALFORMED@,
            claim_url,
            "redacted_assertions entry is not a JUMBF URI"@,
        ),
        Some(url) => match reading(url, declaring) {
            Reading::SelfScoped => r.fail(
                ASSERTION_SELF_REDACTED@,
                claim_url,
                "claim redacts an assertion of its own manifest: '"@ + url + "'"@,
            ),
            Reading::Malformed => r.fail(
                CLAIM_MALFORMED@,
                claim_url,
                "redacted_assertions entry '"@ + url + "' is not an absolute JUMBF assertion URI"@,
            ),
            Reading::Absolute { manifest, assertion } => match protected_code(assertion) {
                Some(code) => r.fail(
                    code,
                    url,
                    "assertion '"@ + assertion + "' in manifest '"@ + manifest
                        + "' may not be redacted"@,
                ),
                None => if still_present(manifests, manifest, assertion) {
                    r.fail(
                        ASSERTION_NOT_REDACTED@,
                        url,
                        "assertion '"@ + assertion
                            + "' is declared redacted but is still present in manifest '"@
                            + manifest + "'"@,
                    )
                } else {
                    r
                },
            },
        },
    }
}

/// The first `k` entries.
pub open spec fn after_entries(
    entries: Seq<Value>,
    k: int,
    declaring: Seq<char>,
    manifests: Seq<ParsedManifest>,
    r: Results,
) -> Results
    decreases k,
{
    if k <= 0 {
        r
    } else {
        after_entry(
            entries[k - 1],
            declaring,
            manifests,
            after_entries(entries, k - 1, declaring, manifests, r),
        )
    }
}

/// The redactions of one claim.
pub open spec fn redaction_outcome(
    declaring: Seq<char>,
    claim: Value,
    manifests: Seq<ParsedManifest>,
    r: Results,
) -> Results {
    match claim.items_field("redacted_assertions"@) {
        None => r,
        Some(entries) => if entries.len() > MAX_REDACTED_ASSERTIONS {
            r.fail(
                CLAIM_MALFORMED@,
                "self#jumbf=/c2pa/"@ + declaring + "/c2pa.claim.v2"@,
                "redacted_assertions count exceeds verifier bound ("@ + text::decimal(
                    MAX_REDACTED_ASSERTIONS as nat,
                ) + ")"@,
            )
        } else {
            after_entries(entries, entries.len() as int, declaring, manifests, r)
        },
    }
}

fn check_entry(
    entry: &Value,
    declaring_label: &str,
    manifests: &[ParsedManifest],
    results: &mut ValidationResults,
)
    ensures
        final(results)@ == after_entry(*entry, declaring_label@, manifests@, old(results)@),
{
    let claim_url = join3("self#jumbf=/c2pa/", declaring_label, "/c2pa.claim.v2");
    let url = match entry_url(entry) {
        Some(url) => url,
        None => {
            results.push_failure(
                CLAIM_MALFORMED,
                claim_url,
                "redacted_assertions entry is not a JUMBF URI".to_owned(),
            );
            return;
        },
    };
    match read_entry(url, declaring_label) {
        Entry::SelfScoped => {
            results.push_failure(
                ASSERTION_SELF_REDACTED,
                claim_url,
                join3("claim redacts an assertion of its own manifest: '", url, "'"),
            );
        },
        Entry::Malformed => {
            results.push_failure(
                CLAIM_MALFORMED,
                claim_url,
                join3(
                    "redacted_assertions entry '",
                    url,
                    "' is not an absolute JUMBF assertion URI",
                ),
            );
        },
        Entry::Absolute { manifest, assertion } => {
            if let Some(code) = non_redactable(assertion) {
                results.push_failure(
                    code,
                    url.to_owned(),
                    join5(
                        "assertion '",
                        assertion,
                        "' in manifest '",
                        manifest,
                        "' may not be redacted",
                    ),
                );
                return;
            }
            let carried = match find_manifest(manifests, manifest) {
                Some(m) => m.assertion_content_is_zeroed(assertion),
                None => None,
            };
            if let Some(false) = carried {
                results.push_failure(
                    ASSERTION_NOT_REDACTED,
                    url.to_owned(),
                    join5(
                        "assertion '",
                        assertion,
                        "' is declared redacted but is still present in manifest '",
                        manifest,
                        "'",
                    ),
                );
            }
        },
    }
}

/// Validate one claim's `redacted_assertions` field.
///
/// The codes stand on the declaring manifest: it is that claim which is
/// rejected when a redaction is illegal.
pub fn verify_claim_redactions(
    declaring_label: &str,
    claim: &Value,
    manifests: &[ParsedManifest],
    results: &mut ValidationResults,
)
    ensures
        final(results)@ == redaction_outcome(declaring_label@, *claim, manifests@, old(results)@),
{
    let entries = match claim.get_items("redacted_assertions") {
        Some(entries) => entries,
        None => {
            return;
        },
    };
    if entries.len() > MAX_REDACTED_ASSERTIONS {
        let cap = decimal_string(MAX_REDACTED_ASSERTIONS as u64);
        results.push_failure(
            CLAIM_MALFORMED,
            join3("self#jumbf=/c2pa/", declaring_label, "/c2pa.claim.v2"),
            join3("redacted_assertions count exceeds verifier bound (", cap.as_str(), ")"),
        );
        return;
    }
    let mut i: usize = 0;
    while i < entries.len()
        invariant
            i <= entries.len(),
            results@ == after_entries(
                entries@,
                i as int,
                declaring_label@,
                manifests@,
                old(results)@,
            ),
        decreases entries.len() - i,
    {
        check_entry(&entries[i], declaring_label, manifests, results);
        i += 1;
    }
}

// ---------------------------------------------------------------------------
// Lawful redactions
// ---------------------------------------------------------------------------

/// The entry lawfully redacts an assertion of the manifest `label`.
pub open spec fn lawful_entry(entry: Value, label: Seq<char>) -> bool {
    match uri_of(entry) {
        Some(url) => match reading(url, ""@) {
            Reading::Absolute { manifest, assertion } => manifest == label && protected_code(
                assertion,
            ) is None,
            _ => false,
        },
        None => false,
    }
}

/// One of the first entries of the claim lawfully redacts an assertion of `label`.
pub open spec fn lawfully_redacts(claim: Value, label: Seq<char>) -> bool {
    match claim.items_field("redacted_assertions"@) {
        Some(entries) => exists|i: int|
            0 <= i < entries.len() && i < MAX_REDACTED_ASSERTIONS && lawful_entry(
                #[trigger] entries[i],
                label,
            ),
        None => false,
    }
}

/// Whether `claim` lawfully redacts at least one assertion of `manifest_label`.
///
/// An unlawful declaration (self-redaction, an actions assertion, a hard
/// binding) is not a redaction. Ingredient validation goes by every declaration
/// that names the ingredient's manifest, lawful or not; an unlawful one is
/// reported as a failure of the claim by [`verify_claim_redactions`].
pub fn redacts_manifest(claim: &Value, manifest_label: &str) -> (r: bool)
    ensures
        r == lawfully_redacts(*claim, manifest_label@),
{
    let entries = match claim.get_items("redacted_assertions") {
        Some(entries) => entries,
        None => {
            return false;
        },
    };
    let mut i: usize = 0;
    while i < entries.len() && i < MAX_REDACTED_ASSERTIONS
        invariant
            claim.items_field("redacted_assertions"@) == Some(entries@),
            forall|k: int|
                0 <= k < i && k < entries@.len() ==> !lawful_entry(
                    #[trigger] entries@[k],
                    manifest_label@,
                ),
        decreases entries.len() - i,
    {
        if let Some(url) = entry_url(&entries[i]) {
            if let Entry::Absolute { manifest, assertion } = read_entry(url, "") {
                if str_eq(manifest, manifest_label) && non_redactable(assertion).is_none() {
                    let ghost declared = claim.items_field("redacted_assertions"@)->0;
                    assert(lawful_entry(declared[i as int], manifest_label@));
                    return true;
                }
            }
        }
        i += 1;
    }
    false
}

// ---------------------------------------------------------------------------
// Laws
// ---------------------------------------------------------------------------

/// A claim that redacts an assertion of its own manifest is rejected, in the
/// absolute and in the relative spelling.
pub proof fn own_assertions_are_never_redactable(
    entry: Value,
    declaring: Seq<char>,
    manifests: Seq<ParsedManifest>,
    r: Results,
)
    requires
        uri_of(entry) matches Some(url) && reading(url, declaring) is SelfScoped,
    ensures
        after_entry(entry, declaring, manifests, r).failed(ASSERTION_SELF_REDACTED@),
{
    let after = after_entry(entry, declaring, manifests, r);
    assert(after.failure[r.failure.len() as int].code == ASSERTION_SELF_REDACTED@);
}

/// An entry that adds no failure either redacts an assertion that may be
/// redacted and is gone or emptied, or names a manifest that is gone.
pub proof fn accepted_entry_is_lawful(
    entry: Value,
    declaring: Seq<char>,
    manifests: Seq<ParsedManifest>,
    r: Results,
)
    requires
        after_entry(entry, declaring, manifests, r) == r,
    ensures
        ({
            &&& uri_of(entry) matches Some(url)
            &&& reading(url, declaring) matches Reading::Absolute { manifest, assertion }
            &&& manifest != declaring
            &&& protected_code(assertion) is None
            &&& !still_present(manifests, manifest, assertion)
        }),
{
    assert(forall|code: Seq<char>, url: Seq<char>, why: Seq<char>|
        (#[trigger] r.fail(code, url, why)).failure.len() == r.failure.len() + 1);
}

/// The entry names an assertion of another manifest, in the absolute spelling,
/// that may be redacted, and of which the store holds nothing but zeroes.
pub open spec fn lawfully_gone(
    entry: Value,
    declaring: Seq<char>,
    manifests: Seq<ParsedManifest>,
    target: Seq<char>,
    assertion: Seq<char>,
) -> bool {
    &&& uri_of(entry) == Some(
        "self#jumbf=/c2pa/"@ + (target + ("/c2pa.assertions/"@ + assertion)),
    )
    &&& target.len() > 0
    &&& target != declaring
    &&& assertion.len() > 0
    &&& !assertion.contains('/')
    &&& base_of(assertion) != "c2pa.actions"@
    &&& base_of(assertion) != "c2pa.actions.v2"@
    &&& !text::is_prefix("c2pa.hash."@, base_of(assertion))
    &&& match manifest::manifest_from(manifests, target, 0) {
        Some(m) => forall|i: int|
            0 <= i < m.assertion_jumbf@.len() && (#[trigger] m.assertion_jumbf@[i]).label@
                == assertion ==> m.assertion_jumbf@[i].zeroed,
        None => true,
    }
}

/// An entry that adds no failure names, in the absolute spelling, an assertion of
/// another manifest; it is no actions assertion and no hash assertion, in any
/// numbered instance, and the store holds nothing of it but zeroes.
pub proof fn unfaulted_entries_are_lawfully_gone(
    entry: Value,
    declaring: Seq<char>,
    manifests: Seq<ParsedManifest>,
    r: Results,
)
    requires
        after_entry(entry, declaring, manifests, r).failure == r.failure,
    ensures
        exists|target: Seq<char>, assertion: Seq<char>| #[trigger]
            lawfully_gone(entry, declaring, manifests, target, assertion),
{
    let after = after_entry(entry, declaring, manifests, r);
    assert(after.failure.len() == r.failure.len());
    let url = uri_of(entry)->0;
    let a = "self#jumbf="@;
    let b = "/c2pa/"@;
    let sep = "/c2pa.assertions/"@;
    let rest = text::after_prefix(url, a)->0;
    let absolute = text::after_prefix(rest, b)->0;
    text::stripping_undoes_joining(url, a, rest);
    text::stripping_undoes_joining(rest, b, absolute);
    text::splitting_takes_the_first_separator(absolute, sep);
    let (target, assertion) = text::split_at_first(absolute, sep)->0;
    lemma_prefix();
    assert(url =~= "self#jumbf=/c2pa/"@ + (target + (sep + assertion)));
    if let Some(m) = manifest::manifest_from(manifests, target, 0) {
        let boxes = m.assertion_jumbf@;
        assert forall|i: int|
            0 <= i < boxes.len() && (#[trigger] boxes[i]).label@ == assertion implies boxes[i].zeroed by {
            assert(manifest::box_present(boxes, assertion));
            if !boxes[i].zeroed {
                assert(manifest::box_holds_content(boxes, assertion));
            }
        }
    }
    assert(lawfully_gone(entry, declaring, manifests, target, assertion));
}

proof fn lemma_prefix()
    ensures
        "self#jumbf=/c2pa/"@ == "self#jumbf="@ + "/c2pa/"@,
{
    reveal_strlit("self#jumbf=/c2pa/");
    reveal_strlit("self#jumbf=");
    reveal_strlit("/c2pa/");
    assert("self#jumbf=/c2pa/"@ =~= "self#jumbf="@ + "/c2pa/"@);
}

/// An entry that lawfully redacts an assertion, of a manifest whose label is no
/// path, is accepted.
pub proof fn lawfully_gone_assertions_are_accepted(
    entry: Value,
    declaring: Seq<char>,
    manifests: Seq<ParsedManifest>,
    target: Seq<char>,
    assertion: Seq<char>,
    r: Results,
)
    requires
        !target.contains('/'),
        lawfully_gone(entry, declaring, manifests, target, assertion),
    ensures
        after_entry(entry, declaring, manifests, r) == r,
{
    let url = uri_of(entry)->0;
    let a = "self#jumbf="@;
    let b = "/c2pa/"@;
    let sep = "/c2pa.assertions/"@;
    let absolute = target + (sep + assertion);
    lemma_prefix();
    assert(url =~= a + (b + absolute));
    text::stripping_undoes_joining(url, a, b + absolute);
    text::stripping_undoes_joining(b + absolute, b, absolute);
    reveal_strlit("/c2pa.assertions/");
    assert(sep[0] == '/');
    text::joined_texts_split_again(target, sep, assertion);
    if let Some(m) = manifest::manifest_from(manifests, target, 0) {
        let boxes = m.assertion_jumbf@;
        if manifest::box_holds_content(boxes, assertion) {
            let i = choose|i: int|
                0 <= i < boxes.len() && (#[trigger] boxes[i]).label@ == assertion
                    && !boxes[i].zeroed;
            assert(boxes[i].zeroed);
        }
    }
}

/// A numbered instance has the base of the plain label, which is its own base.
pub proof fn numbered_instances_share_their_base(base: Seq<char>, n: nat)
    requires
        !base.contains('_'),
    ensures
        base_of(base + ("__"@ + text::decimal(n))) == base,
        base_of(base) == base,
{
    let sep = "__"@;
    reveal_strlit("__");
    assert(sep[0] == '_');
    let digits = text::decimal(n);
    text::decimal_reads_back(n);
    text::joined_texts_split_again(base, sep, digits);
    text::splitting_takes_the_first_separator(base, sep);
    if let Some((x, y)) = text::split_at_first(base, sep) {
        let k = x.len() as int;
        assert(base[k] == '_');
        assert(base.contains('_'));
    }
}

/// Where a claim's redactions add no failure, each of them is lawful.
pub proof fn unfaulted_redactions_are_all_lawful(
    label: Seq<char>,
    claim: Value,
    manifests: Seq<ParsedManifest>,
    r: Results,
    i: int,
)
    requires
        redaction_outcome(label, claim, manifests, r).failure == r.failure,
        claim.items_field("redacted_assertions"@) is Some,
        0 <= i < claim.items_field("redacted_assertions"@)->0.len(),
    ensures
        exists|target: Seq<char>, assertion: Seq<char>| #[trigger]
            lawfully_gone(
                claim.items_field("redacted_assertions"@)->0[i],
                label,
                manifests,
                target,
                assertion,
            ),
{
    let entries = claim.items_field("redacted_assertions"@)->0;
    let n = entries.len() as int;
    lemma_entries_grow(entries, 0, i, label, manifests, r);
    lemma_entries_grow(entries, i, i + 1, label, manifests, r);
    lemma_entries_grow(entries, i + 1, n, label, manifests, r);
    let before = after_entries(entries, i, label, manifests, r);
    let after = after_entries(entries, i + 1, label, manifests, r);
    assert(after.failure =~= before.failure);
    unfaulted_entries_are_lawfully_gone(entries[i], label, manifests, before);
}

proof fn lemma_entries_grow(
    entries: Seq<Value>,
    from: int,
    to: int,
    label: Seq<char>,
    manifests: Seq<ParsedManifest>,
    r: Results,
)
    requires
        0 <= from <= to,
    ensures
        status::starts(
            after_entries(entries, from, label, manifests, r).failure,
            after_entries(entries, to, label, manifests, r).failure,
        ),
    decreases to - from,
{
    if from < to {
        lemma_entries_grow(entries, from, to - 1, label, manifests, r);
    }
}

} // verus!
