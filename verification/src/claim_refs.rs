//! The bounded, exactly resolved view of a claim's assertion declarations.
//!
//! References are kept once in claim order, assertion payloads are indexed
//! once, and only declared assertion-store boxes are decoded or exposed to the
//! checks that follow.
use vstd::prelude::*;
use crate::hash;
use crate::hash::HashAlgorithm;
use crate::labels;
use crate::labels::{
    assertion_label_for_manifest, is_multi_asset_binding_label, is_supported_hard_binding_label,
};
use crate::manifest;
use crate::manifest::{JumbfBox, ParsedManifest, Payload};
use crate::profile::ClaimGeneration;
use crate::text;
use crate::text::str_eq;
use crate::value;
use crate::value::Value;

verus! {

pub const MAX_CLAIM_ASSERTION_REFERENCES: usize = 4_096;

pub const MAX_ASSERTION_HASH_WORK_BYTES: usize = 268_435_456;

pub const MAX_ASSERTION_DECODED_VALUE_NODES: usize = 1_048_576;

/// The claim field that a reference was read from.
#[derive(Debug, Clone, Copy, PartialEq, Eq, Structural)]
pub enum RefField {
    Assertions,
    CreatedAssertions,
    GatheredAssertions,
    GeneratorIcon,
}

/// One declaration of a claim with the assertion label that it resolves to.
pub struct ClaimAssertionReference<'a> {
    pub field: RefField,
    pub value: &'a Value,
    pub label: Option<&'a str>,
}

/// A reference as the contracts see it.
pub struct Reference {
    pub field: RefField,
    pub value: Value,
    pub label: Option<Seq<char>>,
}

impl<'a> View for ClaimAssertionReference<'a> {
    type V = Reference;

    open spec fn view(&self) -> Reference {
        Reference { field: self.field, value: *self.value, label: value::chars_opt(self.label) }
    }
}

/// One memoized digest for each supported algorithm.
pub struct DigestSlots {
    pub sha256: Option<Vec<u8>>,
    pub sha384: Option<Vec<u8>>,
    pub sha512: Option<Vec<u8>>,
}

impl DigestSlots {
    pub open spec fn slot(self, alg: HashAlgorithm) -> Option<Vec<u8>> {
        match alg {
            HashAlgorithm::Sha256 => self.sha256,
            HashAlgorithm::Sha384 => self.sha384,
            HashAlgorithm::Sha512 => self.sha512,
        }
    }

    /// Every memoized digest is the digest of `content`.
    pub open spec fn valid_for(self, content: Option<Seq<u8>>) -> bool {
        forall|alg: HashAlgorithm|
            (#[trigger] self.slot(alg)) is Some ==> content is Some && self.slot(alg)->0@
                == hash::digest_of(alg, content->0)
    }
}

/// One declared assertion with what the store holds under its label.
pub struct IndexedAssertion<'a> {
    pub label: &'a str,
    pub jumbf: Option<&'a [u8]>,
    pub payload: Option<&'a Payload>,
    pub decoded: Option<&'a Value>,
    pub jumbf_digests: DigestSlots,
}

/// An indexed assertion as the contracts see it.
pub struct Indexed {
    pub label: Seq<char>,
    pub jumbf: Option<Seq<u8>>,
    pub payload: Option<Payload>,
    pub decoded: Option<Value>,
}

impl<'a> View for IndexedAssertion<'a> {
    type V = Indexed;

    open spec fn view(&self) -> Indexed {
        Indexed {
            label: self.label@,
            jumbf: value::bytes_opt(self.jumbf),
            payload: value::pointee(self.payload),
            decoded: value::pointee(self.decoded),
        }
    }
}

impl<'a> IndexedAssertion<'a> {
    pub open spec fn wf(self) -> bool {
        self.jumbf_digests.valid_for(value::bytes_opt(self.jumbf))
    }
}

/// A claim's declarations as the contracts see them.
#[verifier::ext_equal]
pub struct Refs {
    pub complete: bool,
    pub duplicate_label: Option<Seq<char>>,
    pub references: Seq<Reference>,
    pub binding_labels: Seq<Seq<char>>,
    pub declared_labels: Seq<Seq<char>>,
    pub assertions: Seq<Indexed>,
    pub undeclared_labels: Seq<Seq<char>>,
    pub invalid_cbor_labels: Seq<Seq<char>>,
    pub hash_work_bytes: Option<usize>,
    pub decode_budget_exhausted: bool,
    pub decoded_value_nodes: usize,
}

/// The first indexed assertion at or behind `i` under `label`.
pub open spec fn indexed_from(s: Seq<Indexed>, label: Seq<char>, i: int) -> Option<Indexed>
    decreases s.len() - i,
{
    if i < 0 || i >= s.len() {
        None
    } else if s[i].label == label {
        Some(s[i])
    } else {
        indexed_from(s, label, i + 1)
    }
}

/// The position of the first indexed assertion at or behind `i` under `label`.
pub open spec fn position_from(s: Seq<Indexed>, label: Seq<char>, i: int) -> Option<int>
    decreases s.len() - i,
{
    if i < 0 || i >= s.len() {
        None
    } else if s[i].label == label {
        Some(i)
    } else {
        position_from(s, label, i + 1)
    }
}

/// How many of the labels are primary hard bindings.
pub open spec fn primary_count(s: Seq<Seq<char>>, compound_ok: bool) -> nat
    decreases s.len(),
{
    if s.len() == 0 {
        0
    } else {
        primary_count(s.drop_last(), compound_ok) + if labels::primary_label(
            s.last(),
            compound_ok,
        ) {
            1nat
        } else {
            0nat
        }
    }
}

/// How many of the labels are multi-asset bindings.
pub open spec fn multi_asset_count(s: Seq<Seq<char>>) -> nat
    decreases s.len(),
{
    if s.len() == 0 {
        0
    } else {
        multi_asset_count(s.drop_last()) + if labels::multi_asset_label(s.last()) {
            1nat
        } else {
            0nat
        }
    }
}

/// The first reference at or behind `i` that resolves to a primary hard binding.
pub open spec fn primary_from(s: Seq<Reference>, compound_ok: bool, i: int) -> Option<Reference>
    decreases s.len() - i,
{
    if i < 0 || i >= s.len() {
        None
    } else if s[i].label is Some && labels::primary_label(s[i].label->0, compound_ok) {
        Some(s[i])
    } else {
        primary_from(s, compound_ok, i + 1)
    }
}

/// The first reference at or behind `i` that resolves to a multi-asset binding.
pub open spec fn multi_asset_from(s: Seq<Reference>, i: int) -> Option<Reference>
    decreases s.len() - i,
{
    if i < 0 || i >= s.len() {
        None
    } else if s[i].label is Some && labels::multi_asset_label(s[i].label->0) {
        Some(s[i])
    } else {
        multi_asset_from(s, i + 1)
    }
}

impl Refs {
    pub open spec fn indexed(self, label: Seq<char>) -> Option<Indexed> {
        indexed_from(self.assertions, label, 0)
    }

    /// The decoded payload of a declared assertion.
    pub open spec fn decoded(self, label: Seq<char>) -> Option<Value> {
        match self.indexed(label) {
            Some(a) => a.decoded,
            None => None,
        }
    }

    /// The one primary binding, where exactly one is declared.
    pub open spec fn primary(self, compound_ok: bool) -> Option<Reference> {
        if primary_count(self.binding_labels, compound_ok) == 1 {
            primary_from(self.references, compound_ok, 0)
        } else {
            None
        }
    }

    /// The one multi-asset fallback, where exactly one is declared.
    pub open spec fn multi_asset(self) -> Option<Reference> {
        if multi_asset_count(self.binding_labels) == 1 {
            multi_asset_from(self.references, 0)
        } else {
            None
        }
    }

    /// The declarations of a claim with too many references.
    pub open spec fn incomplete() -> Refs {
        Refs {
            complete: false,
            duplicate_label: None,
            references: Seq::empty(),
            binding_labels: Seq::empty(),
            declared_labels: Seq::empty(),
            assertions: Seq::empty(),
            undeclared_labels: Seq::empty(),
            invalid_cbor_labels: Seq::empty(),
            hash_work_bytes: None,
            decode_budget_exhausted: false,
            decoded_value_nodes: 0,
        }
    }
}

/// The icon references of the generator entries from `i` on.
pub open spec fn entry_icons(entries: Seq<Value>, i: int) -> Seq<Value>
    decreases entries.len() - i,
{
    if i < 0 || i >= entries.len() {
        Seq::empty()
    } else {
        (match entries[i].field("icon"@) {
            Some(icon) => seq![icon],
            None => Seq::empty(),
        }) + entry_icons(entries, i + 1)
    }
}

/// The icon references of a claim's generator information: one in each entry
/// of the v1 array, one in the v2 map.
pub open spec fn generator_icons(claim: Value, generation: ClaimGeneration) -> Seq<Value> {
    match claim.field("claim_generator_info"@) {
        Some(info) => match generation {
            ClaimGeneration::V1 => match info {
                Value::Array(entries) => entry_icons(entries@, 0),
                _ => Seq::empty(),
            },
            ClaimGeneration::V2 => match info.field("icon"@) {
                Some(icon) => seq![icon],
                None => Seq::empty(),
            },
        },
        None => Seq::empty(),
    }
}

/// The items under a claim's reference field.
pub open spec fn field_items(claim: Value, key: Seq<char>) -> Seq<Value> {
    match claim.items_field(key) {
        Some(items) => items,
        None => Seq::empty(),
    }
}

pub open spec fn tagged(field: RefField, items: Seq<Value>) -> Seq<(RefField, Value)> {
    items.map_values(|v: Value| (field, v))
}

/// The items of a claim's assertion reference fields, in order.
pub open spec fn field_candidates(
    claim: Value,
    generation: ClaimGeneration,
) -> Seq<(RefField, Value)> {
    match generation {
        ClaimGeneration::V1 => tagged(RefField::Assertions, field_items(claim, "assertions"@)),
        ClaimGeneration::V2 => tagged(
            RefField::CreatedAssertions,
            field_items(claim, "created_assertions"@),
        ) + tagged(RefField::GatheredAssertions, field_items(claim, "gathered_assertions"@)),
    }
}

/// Every reference that a claim declares, in order: its assertion reference
/// fields, then its generator icons.
pub open spec fn candidates(claim: Value, generation: ClaimGeneration) -> Seq<(RefField, Value)> {
    field_candidates(claim, generation) + tagged(
        RefField::GeneratorIcon,
        generator_icons(claim, generation),
    )
}

/// The assertion label that a declaration resolves to inside `manifest`.
pub open spec fn resolved_label(v: Value, manifest: Seq<char>) -> Option<Seq<char>> {
    match v.text_field("url"@) {
        Some(url) => labels::local_assertion_label(url, manifest),
        None => None,
    }
}

/// What has been gathered from a claim's declarations.
#[verifier::ext_equal]
pub struct Collected {
    pub references: Seq<Reference>,
    pub declared: Seq<Seq<char>>,
    pub duplicate: Option<Seq<char>>,
    pub bindings: Seq<Seq<char>>,
}

/// The first `k` declarations, gathered: a label is declared once, the first
/// label that repeats is remembered, and hard bindings are listed with their
/// repetitions.
pub open spec fn collect(
    c: Seq<(RefField, Value)>,
    manifest: Seq<char>,
    k: int,
) -> Collected
    decreases k,
{
    if k <= 0 {
        Collected {
            references: Seq::empty(),
            declared: Seq::empty(),
            duplicate: None,
            bindings: Seq::empty(),
        }
    } else {
        let before = collect(c, manifest, k - 1);
        let (field, v) = c[k - 1];
        let label = resolved_label(v, manifest);
        let reference = Reference { field, value: v, label };
        match label {
            None => Collected { references: before.references.push(reference), ..before },
            Some(l) => {
                let bindings = if field != RefField::GeneratorIcon && (labels::primary_label(l, true)
                    || labels::multi_asset_label(l)) {
                    before.bindings.push(l)
                } else {
                    before.bindings
                };
                if before.declared.contains(l) {
                    Collected {
                        duplicate: match before.duplicate {
                            Some(d) => Some(d),
                            None => Some(l),
                        },
                        bindings,
                        ..before
                    }
                } else {
                    Collected {
                        references: before.references.push(reference),
                        declared: before.declared.push(l),
                        duplicate: before.duplicate,
                        bindings,
                    }
                }
            },
        }
    }
}

/// The bytes that may be hashed or decoded for one declared label: its JUMBF
/// content twice and its payload once.
pub open spec fn label_work(m: ParsedManifest, label: Seq<char>) -> nat {
    let content = match manifest::content_among(m.assertion_jumbf@, label) {
        Some(c) => c.len(),
        None => 0,
    };
    let payload = match manifest::payload_among(m.assertions@, label) {
        Some(p) => p.bytes@.len(),
        None => 0,
    };
    content + content + payload
}

/// The work of the first `k` labels.
pub open spec fn total_work(m: ParsedManifest, declared: Seq<Seq<char>>, k: int) -> nat
    decreases k,
{
    if k <= 0 {
        0
    } else {
        total_work(m, declared, k - 1) + label_work(m, declared[k - 1])
    }
}

/// The declared work, where it stays within the bound.
pub open spec fn bounded_work(total: nat) -> Option<usize> {
    if total <= MAX_ASSERTION_HASH_WORK_BYTES {
        Some(total as usize)
    } else {
        None
    }
}

/// The sum of the first `k` lengths.
pub open spec fn sum_lengths(lengths: Seq<usize>, k: int) -> nat
    decreases k,
{
    if k <= 0 {
        0
    } else {
        sum_lengths(lengths, k - 1) + lengths[k - 1] as nat
    }
}

proof fn lemma_sum_grows(lengths: Seq<usize>, j: int, k: int)
    requires
        0 <= j <= k,
    ensures
        sum_lengths(lengths, j) <= sum_lengths(lengths, k),
    decreases k - j,
{
    if j < k {
        lemma_sum_grows(lengths, j, k - 1);
    }
}

/// The total of the lengths, where it stays within the work bound.
pub fn checked_hash_work_total(lengths: &[usize]) -> (r: Option<usize>)
    ensures
        r == bounded_work(sum_lengths(lengths@, lengths@.len() as int)),
{
    let mut total: usize = 0;
    let mut i: usize = 0;
    while i < lengths.len()
        invariant
            i <= lengths.len(),
            total == sum_lengths(lengths@, i as int),
            total <= MAX_ASSERTION_HASH_WORK_BYTES,
        decreases lengths.len() - i,
    {
        proof {
            lemma_sum_grows(lengths@, i + 1, lengths@.len() as int);
        }
        match total.checked_add(lengths[i]) {
            Some(next) => {
                if next > MAX_ASSERTION_HASH_WORK_BYTES {
                    return None;
                }
                total = next;
            },
            None => {
                return None;
            },
        }
        i += 1;
    }
    Some(total)
}

/// What decoding the declared payloads has come to.
#[verifier::ext_equal]
pub struct Decoding {
    pub remaining: nat,
    pub exhausted: bool,
    pub invalid: Seq<Seq<char>>,
    pub index: Seq<Indexed>,
}

/// Decoding the payloads of the first `k` references: one node budget spans
/// all of them, and nothing is decoded where `allowed` is not given or once
/// the budget is exhausted.
pub open spec fn decode_all(
    m: ParsedManifest,
    references: Seq<Reference>,
    allowed: bool,
    k: int,
) -> Decoding
    decreases k,
{
    if k <= 0 {
        Decoding {
            remaining: MAX_ASSERTION_DECODED_VALUE_NODES as nat,
            exhausted: false,
            invalid: Seq::empty(),
            index: Seq::empty(),
        }
    } else {
        let before = decode_all(m, references, allowed, k - 1);
        match references[k - 1].label {
            None => before,
            Some(l) => {
                let payload = manifest::payload_among(m.assertions@, l);
                let jumbf = manifest::content_among(m.assertion_jumbf@, l);
                let bare = Indexed { label: l, jumbf, payload, decoded: None };
                match payload {
                    Some(p) => if !allowed || before.exhausted {
                        Decoding { index: before.index.push(bare), ..before }
                    } else if p.nodes > before.remaining {
                        Decoding {
                            remaining: 0,
                            exhausted: true,
                            index: before.index.push(bare),
                            ..before
                        }
                    } else {
                        let remaining = (before.remaining - p.nodes) as nat;
                        match p.value {
                            Some(v) => Decoding {
                                remaining,
                                index: before.index.push(Indexed { decoded: Some(v), ..bare }),
                                ..before
                            },
                            None => Decoding {
                                remaining,
                                invalid: before.invalid.push(l),
                                index: before.index.push(bare),
                                ..before
                            },
                        }
                    },
                    None => Decoding { index: before.index.push(bare), ..before },
                }
            },
        }
    }
}

/// The labels of store boxes that no declaration names, in store order.
pub open spec fn undeclared(boxes: Seq<JumbfBox>, declared: Seq<Seq<char>>, k: int) -> Seq<Seq<char>>
    decreases k,
{
    if k <= 0 {
        Seq::empty()
    } else if declared.contains(boxes[k - 1].label@) {
        undeclared(boxes, declared, k - 1)
    } else {
        undeclared(boxes, declared, k - 1).push(boxes[k - 1].label@)
    }
}

/// The declarations of `claim` inside `m`.
pub open spec fn refs_of(m: ParsedManifest, claim: Value, generation: ClaimGeneration) -> Refs {
    let c = candidates(claim, generation);
    if c.len() > MAX_CLAIM_ASSERTION_REFERENCES {
        Refs::incomplete()
    } else {
        let g = collect(c, m.label@, c.len() as int);
        let work = bounded_work(total_work(m, g.declared, g.declared.len() as int));
        let d = decode_all(m, g.references, work is Some, g.references.len() as int);
        Refs {
            complete: true,
            duplicate_label: g.duplicate,
            references: g.references,
            binding_labels: g.bindings,
            declared_labels: g.declared,
            assertions: d.index,
            undeclared_labels: undeclared(
                m.assertion_jumbf@,
                g.declared,
                m.assertion_jumbf@.len() as int,
            ),
            invalid_cbor_labels: d.invalid,
            hash_work_bytes: work,
            decode_budget_exhausted: d.exhausted,
            decoded_value_nodes: (MAX_ASSERTION_DECODED_VALUE_NODES - d.remaining) as usize,
        }
    }
}

/// A claim's assertion declarations, resolved and indexed.
pub struct ClaimAssertionRefs<'a> {
    pub complete: bool,
    pub duplicate_label: Option<&'a str>,
    pub references: Vec<ClaimAssertionReference<'a>>,
    pub binding_labels: Vec<&'a str>,
    pub declared_labels: Vec<&'a str>,
    pub assertions: Vec<IndexedAssertion<'a>>,
    pub undeclared_labels: Vec<&'a str>,
    pub invalid_cbor_labels: Vec<&'a str>,
    pub hash_work_bytes: Option<usize>,
    pub decode_budget_exhausted: bool,
    pub decoded_value_nodes: usize,
}

pub open spec fn reference_views(s: Seq<ClaimAssertionReference>) -> Seq<Reference> {
    s.map_values(|r: ClaimAssertionReference| r@)
}

pub open spec fn indexed_views(s: Seq<IndexedAssertion>) -> Seq<Indexed> {
    s.map_values(|r: IndexedAssertion| r@)
}

impl<'a> View for ClaimAssertionRefs<'a> {
    type V = Refs;

    open spec fn view(&self) -> Refs {
        Refs {
            complete: self.complete,
            duplicate_label: value::chars_opt(self.duplicate_label),
            references: reference_views(self.references@),
            binding_labels: text::views(self.binding_labels@),
            declared_labels: text::views(self.declared_labels@),
            assertions: indexed_views(self.assertions@),
            undeclared_labels: text::views(self.undeclared_labels@),
            invalid_cbor_labels: text::views(self.invalid_cbor_labels@),
            hash_work_bytes: self.hash_work_bytes,
            decode_budget_exhausted: self.decode_budget_exhausted,
            decoded_value_nodes: self.decoded_value_nodes,
        }
    }
}

/// Whether one of the strings is `s`.
pub fn str_among(list: &Vec<&str>, s: &str) -> (r: bool)
    ensures
        r == text::views(list@).contains(s@),
{
    let mut i: usize = 0;
    while i < list.len()
        invariant
            i <= list.len(),
            forall|k: int| 0 <= k < i ==> (#[trigger] text::views(list@)[k]) != s@,
        decreases list.len() - i,
    {
        if str_eq(list[i], s) {
            assert(text::views(list@)[i as int] == s@);
            return true;
        }
        i += 1;
    }
    false
}

/// The value references of `s`.
pub open spec fn targets(s: Seq<&Value>) -> Seq<Value> {
    s.map_values(|v: &Value| *v)
}

/// The icon references of a claim's generator information, in order.
pub fn generator_icon_references<'a>(claim: &'a Value, generation: ClaimGeneration) -> (r: Vec<
    &'a Value,
>)
    ensures
        targets(r@) == generator_icons(*claim, generation),
{
    let mut out: Vec<&'a Value> = Vec::new();
    assert(targets(out@) =~= Seq::<Value>::empty());
    if let Some(info) = claim.get("claim_generator_info") {
        match generation {
            ClaimGeneration::V1 => {
                if let Value::Array(entries) = info {
                    let mut i: usize = 0;
                    while i < entries.len()
                        invariant
                            i <= entries.len(),
                            targets(out@) + entry_icons(entries@, i as int) == entry_icons(
                                entries@,
                                0,
                            ),
                        decreases entries.len() - i,
                    {
                        let ghost before = out@;
                        if let Some(icon) = entries[i].get("icon") {
                            out.push(icon);
                            assert(targets(out@) =~= targets(before) + seq![*icon]);
                            assert(targets(out@) + entry_icons(entries@, i + 1) =~= targets(before)
                                + (seq![*icon] + entry_icons(entries@, i + 1)));
                        } else {
                            assert(targets(out@) + entry_icons(entries@, i + 1) =~= targets(before)
                                + (Seq::<Value>::empty() + entry_icons(entries@, i + 1)));
                        }
                        i += 1;
                    }
                    assert(targets(out@) + Seq::<Value>::empty() =~= targets(out@));
                }
            },
            ClaimGeneration::V2 => {
                if let Some(icon) = info.get("icon") {
                    out.push(icon);
                    assert(targets(out@) =~= seq![*icon]);
                }
            },
        }
    }
    out
}

pub open spec fn tagged_targets(s: Seq<(RefField, &Value)>) -> Seq<(RefField, Value)> {
    s.map_values(|p: (RefField, &Value)| (p.0, *p.1))
}

fn append_field<'a>(
    out: &mut Vec<(RefField, &'a Value)>,
    field: RefField,
    items: Option<&'a [Value]>,
)
    ensures
        tagged_targets(final(out)@) == tagged_targets(old(out)@) + tagged(
            field,
            (match items {
                Some(s) => s@,
                None => Seq::empty(),
            }),
        ),
{
    match items {
        Some(s) => {
            let mut i: usize = 0;
            assert(s@.subrange(0, 0) =~= Seq::<Value>::empty());
            assert(tagged_targets(out@) =~= tagged_targets(old(out)@) + tagged(
                field,
                s@.subrange(0, 0),
            ));
            while i < s.len()
                invariant
                    i <= s.len(),
                    tagged_targets(out@) == tagged_targets(old(out)@) + tagged(
                        field,
                        s@.subrange(0, i as int),
                    ),
                decreases s.len() - i,
            {
                let ghost before = out@;
                out.push((field, &s[i]));
                assert(tagged_targets(out@) =~= tagged_targets(before).push((field, s@[i as int])));
                assert(tagged(field, s@.subrange(0, i + 1)) =~= tagged(
                    field,
                    s@.subrange(0, i as int),
                ).push((field, s@[i as int])));
                i += 1;
                assert(tagged_targets(out@) =~= tagged_targets(old(out)@) + tagged(
                    field,
                    s@.subrange(0, i as int),
                ));
            }
            assert(s@.subrange(0, i as int) =~= s@);
        },
        None => {
            assert(tagged_targets(out@) =~= tagged_targets(old(out)@) + tagged(
                field,
                Seq::<Value>::empty(),
            ));
        },
    }
}

/// The items of a claim's assertion reference fields, in order.
pub fn field_references<'a>(claim: &'a Value, generation: ClaimGeneration) -> (r: Vec<
    (RefField, &'a Value),
>)
    ensures
        tagged_targets(r@) == field_candidates(*claim, generation),
        r@.len() == field_candidates(*claim, generation).len(),
{
    let mut out: Vec<(RefField, &'a Value)> = Vec::new();
    assert(tagged_targets(out@) =~= Seq::<(RefField, Value)>::empty());
    match generation {
        ClaimGeneration::V1 => {
            append_field(&mut out, RefField::Assertions, claim.get_items("assertions"));
        },
        ClaimGeneration::V2 => {
            append_field(
                &mut out,
                RefField::CreatedAssertions,
                claim.get_items("created_assertions"),
            );
            append_field(
                &mut out,
                RefField::GatheredAssertions,
                claim.get_items("gathered_assertions"),
            );
        },
    }
    assert(tagged_targets(out@) =~= field_candidates(*claim, generation));
    assert(tagged_targets(out@).len() == out@.len());
    out
}

/// Every reference that a claim declares, where their number stays within the bound.
fn bounded_candidates<'a>(claim: &'a Value, generation: ClaimGeneration) -> (r: Option<
    Vec<(RefField, &'a Value)>,
>)
    ensures
        match r {
            Some(c) => tagged_targets(c@) == candidates(*claim, generation) && c@.len()
                <= MAX_CLAIM_ASSERTION_REFERENCES,
            None => candidates(*claim, generation).len() > MAX_CLAIM_ASSERTION_REFERENCES,
        },
{
    let mut out = field_references(claim, generation);
    let ghost fields = tagged_targets(out@);
    let icons = generator_icon_references(claim, generation);
    let mut i: usize = 0;
    assert(tagged_targets(out@) =~= fields + tagged(
        RefField::GeneratorIcon,
        targets(icons@).subrange(0, 0),
    ));
    while i < icons.len()
        invariant
            i <= icons.len(),
            targets(icons@).len() == icons@.len(),
            tagged_targets(out@) == fields + tagged(
                RefField::GeneratorIcon,
                targets(icons@).subrange(0, i as int),
            ),
        decreases icons.len() - i,
    {
        let ghost before = out@;
        out.push((RefField::GeneratorIcon, icons[i]));
        assert(tagged_targets(out@) =~= tagged_targets(before).push(
            (RefField::GeneratorIcon, *icons@[i as int]),
        ));
        assert(tagged(RefField::GeneratorIcon, targets(icons@).subrange(0, i + 1)) =~= tagged(
            RefField::GeneratorIcon,
            targets(icons@).subrange(0, i as int),
        ).push((RefField::GeneratorIcon, *icons@[i as int])));
        i += 1;
        assert(tagged_targets(out@) =~= fields + tagged(
            RefField::GeneratorIcon,
            targets(icons@).subrange(0, i as int),
        ));
    }
    assert(targets(icons@).subrange(0, i as int) =~= targets(icons@));
    assert(tagged_targets(out@).len() == out@.len());
    if out.len() > MAX_CLAIM_ASSERTION_REFERENCES {
        None
    } else {
        Some(out)
    }
}

struct Gathered<'a> {
    references: Vec<ClaimAssertionReference<'a>>,
    declared: Vec<&'a str>,
    duplicate: Option<&'a str>,
    bindings: Vec<&'a str>,
}

impl<'a> View for Gathered<'a> {
    type V = Collected;

    closed spec fn view(&self) -> Collected {
        Collected {
            references: reference_views(self.references@),
            declared: text::views(self.declared@),
            duplicate: value::chars_opt(self.duplicate),
            bindings: text::views(self.bindings@),
        }
    }
}

fn gather<'a>(c: &Vec<(RefField, &'a Value)>, manifest_label: &str) -> (r: Gathered<'a>)
    ensures
        r@ == collect(tagged_targets(c@), manifest_label@, c@.len() as int),
        r.references@.len() <= c@.len(),
{
    let mut g = Gathered {
        references: Vec::new(),
        declared: Vec::new(),
        duplicate: None,
        bindings: Vec::new(),
    };
    let ghost tc = tagged_targets(c@);
    assert(g@ =~= collect(tc, manifest_label@, 0));
    let mut i: usize = 0;
    while i < c.len()
        invariant
            i <= c.len(),
            tc == tagged_targets(c@),
            g@ == collect(tc, manifest_label@, i as int),
            g.references@.len() <= i,
        decreases c.len() - i,
    {
        let (field, v) = c[i];
        let ghost before = g@;
        assert(tc[i as int] == (field, *v));
        let label: Option<&'a str> = match v.get_text("url") {
            Some(url) => assertion_label_for_manifest(url, manifest_label),
            None => None,
        };
        let mut repeated = false;
        if let Some(l) = label {
            if field != RefField::GeneratorIcon && (is_supported_hard_binding_label(l, true)
                || is_multi_asset_binding_label(l)) {
                let ghost old_bindings = g.bindings@;
                g.bindings.push(l);
                assert(text::views(g.bindings@) =~= text::views(old_bindings).push(l@));
            }
            if str_among(&g.declared, l) {
                if g.duplicate.is_none() {
                    g.duplicate = Some(l);
                }
                repeated = true;
            } else {
                let ghost old_declared = g.declared@;
                g.declared.push(l);
                assert(text::views(g.declared@) =~= text::views(old_declared).push(l@));
            }
        }
        if !repeated {
            let ghost old_references = g.references@;
            g.references.push(ClaimAssertionReference { field, value: v, label });
            assert(reference_views(g.references@) =~= reference_views(old_references).push(
                Reference { field, value: *v, label: value::chars_opt(label) },
            ));
        }
        i += 1;
        assert(g@ =~= collect(tc, manifest_label@, i as int));
    }
    g
}

fn declared_work(m: &ParsedManifest, declared: &Vec<&str>) -> (r: Option<usize>)
    ensures
        r == bounded_work(
            total_work(*m, text::views(declared@), text::views(declared@).len() as int),
        ),
{
    let mut lengths: Vec<usize> = Vec::new();
    let mut i: usize = 0;
    let ghost d = text::views(declared@);
    while i < declared.len()
        invariant
            i <= declared.len(),
            d == text::views(declared@),
            lengths@.len() == 3 * i,
            sum_lengths(lengths@, lengths@.len() as int) == total_work(*m, d, i as int),
        decreases declared.len() - i,
    {
        let content: usize = match m.jumbf_of(declared[i]) {
            Some(c) => c.len(),
            None => 0,
        };
        let payload: usize = match m.payload_of(declared[i]) {
            Some(p) => p.bytes.len(),
            None => 0,
        };
        let ghost before = lengths@;
        assert(d[i as int] == declared@[i as int]@);
        lengths.push(content);
        lengths.push(content);
        lengths.push(payload);
        proof {
            let n = before.len() as int;
            lemma_sum_prefix(before, lengths@, n);
            assert(sum_lengths(lengths@, n + 1) == sum_lengths(lengths@, n) + content);
            assert(sum_lengths(lengths@, n + 2) == sum_lengths(lengths@, n + 1) + content);
            assert(sum_lengths(lengths@, n + 3) == sum_lengths(lengths@, n + 2) + payload);
        }
        i += 1;
    }
    checked_hash_work_total(lengths.as_slice())
}

proof fn lemma_sum_prefix(a: Seq<usize>, b: Seq<usize>, k: int)
    requires
        0 <= k <= a.len() <= b.len(),
        forall|i: int| 0 <= i < a.len() ==> a[i] == b[i],
    ensures
        sum_lengths(a, k) == sum_lengths(b, k),
    decreases k,
{
    if k > 0 {
        lemma_sum_prefix(a, b, k - 1);
    }
}

struct DecodedIndex<'a> {
    remaining: usize,
    exhausted: bool,
    invalid: Vec<&'a str>,
    index: Vec<IndexedAssertion<'a>>,
}

impl<'a> View for DecodedIndex<'a> {
    type V = Decoding;

    closed spec fn view(&self) -> Decoding {
        Decoding {
            remaining: self.remaining as nat,
            exhausted: self.exhausted,
            invalid: text::views(self.invalid@),
            index: indexed_views(self.index@),
        }
    }
}

fn decode_declared<'a>(
    m: &'a ParsedManifest,
    references: &Vec<ClaimAssertionReference<'a>>,
    allowed: bool,
) -> (r: DecodedIndex<'a>)
    ensures
        r@ == decode_all(
            *m,
            reference_views(references@),
            allowed,
            references@.len() as int,
        ),
        r.remaining <= MAX_ASSERTION_DECODED_VALUE_NODES,
        forall|i: int| 0 <= i < r.index@.len() ==> (#[trigger] r.index@[i]).wf(),
{
    let mut d = DecodedIndex {
        remaining: MAX_ASSERTION_DECODED_VALUE_NODES,
        exhausted: false,
        invalid: Vec::new(),
        index: Vec::new(),
    };
    let ghost rv = reference_views(references@);
    assert(d@ =~= decode_all(*m, rv, allowed, 0));
    let mut i: usize = 0;
    while i < references.len()
        invariant
            i <= references.len(),
            rv == reference_views(references@),
            d@ == decode_all(*m, rv, allowed, i as int),
            d.remaining <= MAX_ASSERTION_DECODED_VALUE_NODES,
            forall|k: int| 0 <= k < d.index@.len() ==> (#[trigger] d.index@[k]).wf(),
        decreases references.len() - i,
    {
        assert(rv[i as int] == references@[i as int]@);
        if let Some(l) = references[i].label {
            let payload = m.payload_of(l);
            let mut decoded: Option<&'a Value> = None;
            if allowed && !d.exhausted {
                if let Some(p) = payload {
                    if p.nodes > d.remaining {
                        d.exhausted = true;
                        d.remaining = 0;
                    } else {
                        d.remaining = d.remaining - p.nodes;
                        match &p.value {
                            Some(v) => {
                                decoded = Some(v);
                            },
                            None => {
                                let ghost before = d.invalid@;
                                d.invalid.push(l);
                                assert(text::views(d.invalid@) =~= text::views(before).push(l@));
                            },
                        }
                    }
                }
            }
            let ghost before = d.index@;
            let entry = IndexedAssertion {
                label: l,
                jumbf: m.jumbf_of(l),
                payload,
                decoded,
                jumbf_digests: DigestSlots { sha256: None, sha384: None, sha512: None },
            };
            let ghost seen = entry@;
            assert(entry.wf());
            d.index.push(entry);
            assert(indexed_views(d.index@) =~= indexed_views(before).push(seen));
        }
        i += 1;
        assert(d@ =~= decode_all(*m, rv, allowed, i as int));
    }
    d
}

fn undeclared_boxes<'a>(m: &'a ParsedManifest, declared: &Vec<&str>) -> (r: Vec<&'a str>)
    ensures
        text::views(r@) == undeclared(
            m.assertion_jumbf@,
            text::views(declared@),
            m.assertion_jumbf@.len() as int,
        ),
{
    let mut out: Vec<&'a str> = Vec::new();
    let mut i: usize = 0;
    assert(text::views(out@) =~= Seq::<Seq<char>>::empty());
    while i < m.assertion_jumbf.len()
        invariant
            i <= m.assertion_jumbf.len(),
            text::views(out@) == undeclared(m.assertion_jumbf@, text::views(declared@), i as int),
        decreases m.assertion_jumbf.len() - i,
    {
        let l = m.assertion_jumbf[i].label.as_str();
        if !str_among(declared, l) {
            let ghost before = out@;
            out.push(l);
            assert(text::views(out@) =~= text::views(before).push(l@));
        }
        i += 1;
    }
    out
}

/// The one primary binding and the optional multi-asset fallback of a claim.
pub struct BindingPlan<'i, 'a> {
    pub primary_candidate: Option<&'i ClaimAssertionReference<'a>>,
    pub primary_count: usize,
    pub multi_asset_candidate: Option<&'i ClaimAssertionReference<'a>>,
    pub multi_asset_count: usize,
}

/// An optional reference as the contracts see it.
pub open spec fn reference_opt(r: Option<&ClaimAssertionReference>) -> Option<Reference> {
    match r {
        Some(x) => Some(x@),
        None => None,
    }
}

impl<'i, 'a> BindingPlan<'i, 'a> {
    /// The primary binding, where exactly one is declared.
    pub fn primary(&self) -> (r: Option<&'i ClaimAssertionReference<'a>>)
        ensures
            r == if self.primary_count == 1 {
                self.primary_candidate
            } else {
                None
            },
    {
        if self.primary_count == 1 {
            self.primary_candidate
        } else {
            None
        }
    }

    /// The multi-asset fallback, where exactly one is declared.
    pub fn multi_asset(&self) -> (r: Option<&'i ClaimAssertionReference<'a>>)
        ensures
            r == if self.multi_asset_count == 1 {
                self.multi_asset_candidate
            } else {
                None
            },
    {
        if self.multi_asset_count == 1 {
            self.multi_asset_candidate
        } else {
            None
        }
    }
}

impl<'a> ClaimAssertionRefs<'a> {
    /// Every memoized digest is the digest of its assertion's content.
    pub open spec fn wf(self) -> bool {
        forall|i: int| 0 <= i < self.assertions@.len() ==> (#[trigger] self.assertions@[i]).wf()
    }

    /// Resolve and index the declarations of `claim` inside `m`.
    pub fn build(m: &'a ParsedManifest, claim: &'a Value, generation: ClaimGeneration) -> (r:
        ClaimAssertionRefs<'a>)
        ensures
            r@ == refs_of(*m, *claim, generation),
            r.wf(),
    {
        let c = match bounded_candidates(claim, generation) {
            Some(c) => c,
            None => {
                return ClaimAssertionRefs::incomplete();
            },
        };
        assert(tagged_targets(c@).len() == c@.len());
        let g = gather(&c, m.label.as_str());
        let hash_work_bytes = declared_work(m, &g.declared);
        let d = decode_declared(m, &g.references, hash_work_bytes.is_some());
        let undeclared_labels = undeclared_boxes(m, &g.declared);
        let r = ClaimAssertionRefs {
            complete: true,
            duplicate_label: g.duplicate,
            references: g.references,
            binding_labels: g.bindings,
            declared_labels: g.declared,
            assertions: d.index,
            undeclared_labels,
            invalid_cbor_labels: d.invalid,
            hash_work_bytes,
            decode_budget_exhausted: d.exhausted,
            decoded_value_nodes: MAX_ASSERTION_DECODED_VALUE_NODES - d.remaining,
        };
        assert(r@ =~= refs_of(*m, *claim, generation));
        r
    }

    /// The declarations of a claim with too many references.
    pub fn incomplete() -> (r: ClaimAssertionRefs<'a>)
        ensures
            r@ == Refs::incomplete(),
            r.wf(),
    {
        let r = ClaimAssertionRefs {
            complete: false,
            duplicate_label: None,
            references: Vec::new(),
            binding_labels: Vec::new(),
            declared_labels: Vec::new(),
            assertions: Vec::new(),
            undeclared_labels: Vec::new(),
            invalid_cbor_labels: Vec::new(),
            hash_work_bytes: None,
            decode_budget_exhausted: false,
            decoded_value_nodes: 0,
        };
        assert(r@ =~= Refs::incomplete());
        r
    }

    /// The position of the indexed assertion under `label`.
    pub fn position(&self, label: &str) -> (r: Option<usize>)
        ensures
            match r {
                Some(i) => i < self.assertions@.len() && position_from(
                    self@.assertions,
                    label@,
                    0,
                ) == Some(i as int) && self@.indexed(label@) == Some(self.assertions@[i as int]@),
                None => position_from(self@.assertions, label@, 0) is None && self@.indexed(label@)
                    is None,
            },
    {
        let ghost iv = indexed_views(self.assertions@);
        let mut i: usize = 0;
        while i < self.assertions.len()
            invariant
                i <= self.assertions.len(),
                iv == indexed_views(self.assertions@),
                indexed_from(iv, label@, i as int) == indexed_from(iv, label@, 0),
                position_from(iv, label@, i as int) == position_from(iv, label@, 0),
            decreases self.assertions.len() - i,
        {
            assert(iv[i as int] == self.assertions@[i as int]@);
            if str_eq(self.assertions[i].label, label) {
                return Some(i);
            }
            i += 1;
        }
        None
    }

    /// The indexed assertion under `label`.
    pub fn indexed(&self, label: &str) -> (r: Option<&IndexedAssertion<'a>>)
        ensures
            match r {
                Some(a) => self@.indexed(label@) == Some(a@) && (self.wf() ==> a.wf()),
                None => self@.indexed(label@) is None,
            },
    {
        match self.position(label) {
            Some(i) => Some(&self.assertions[i]),
            None => None,
        }
    }

    /// The decoded payload of the declared assertion under `label`.
    pub fn decoded(&self, label: &str) -> (r: Option<&'a Value>)
        ensures
            value::pointee(r) == self@.decoded(label@),
    {
        match self.indexed(label) {
            Some(a) => a.decoded,
            None => None,
        }
    }

    /// What is memoized under an algorithm's name for the content of the
    /// assertion under `label`: nothing where the name stands for no algorithm,
    /// no such assertion is indexed, or its digest has not been computed.
    pub open spec fn memo(self, label: Seq<char>, algorithm: Seq<char>) -> Option<Seq<u8>> {
        match (hash::algorithm_named(algorithm), position_from(self@.assertions, label, 0)) {
            (Some(alg), Some(i)) => match self.assertions@[i].jumbf_digests.slot(alg) {
                Some(d) => Some(d@),
                None => None,
            },
            _ => None,
        }
    }

    /// The memoized digest of an assertion's content, where it has been computed.
    pub fn jumbf_digest(&self, label: &str, algorithm: &str) -> (r: Option<&[u8]>)
        requires
            self.wf(),
        ensures
            value::bytes_opt(r) == self.memo(label@, algorithm@),
            r matches Some(d) ==> self@.indexed(label@) is Some && self@.indexed(label@)->0.jumbf
                is Some && hash::named_digest(algorithm@, self@.indexed(label@)->0.jumbf->0)
                == Some(d@),
    {
        let alg = match HashAlgorithm::from_name(algorithm) {
            Some(a) => a,
            None => {
                return None;
            },
        };
        match self.position(label) {
            Some(i) => {
                let a = &self.assertions[i];
                assert(a.wf());
                assert(a.jumbf_digests.slot(alg) is Some ==> hash::digest_of(
                    alg,
                    value::bytes_opt(a.jumbf)->0,
                ) == a.jumbf_digests.slot(alg)->0@);
                let slot = match alg {
                    HashAlgorithm::Sha256 => &a.jumbf_digests.sha256,
                    HashAlgorithm::Sha384 => &a.jumbf_digests.sha384,
                    HashAlgorithm::Sha512 => &a.jumbf_digests.sha512,
                };
                match slot {
                    Some(d) => Some(d.as_slice()),
                    None => None,
                }
            },
            None => None,
        }
    }

    /// Separate the primary binding from the multi-asset fallback.
    pub fn binding_plan(&self, compound_ok: bool) -> (r: BindingPlan<'_, 'a>)
        ensures
            r.primary_count == primary_count(self@.binding_labels, compound_ok),
            r.multi_asset_count == multi_asset_count(self@.binding_labels),
            reference_opt(r.primary_candidate) == primary_from(self@.references, compound_ok, 0),
            reference_opt(r.multi_asset_candidate) == multi_asset_from(self@.references, 0),
    {
        let ghost bv = text::views(self.binding_labels@);
        let mut primary: usize = 0;
        let mut multi: usize = 0;
        let mut i: usize = 0;
        assert(bv.subrange(0, 0) =~= Seq::<Seq<char>>::empty());
        while i < self.binding_labels.len()
            invariant
                i <= self.binding_labels.len(),
                bv == text::views(self.binding_labels@),
                primary <= i,
                multi <= i,
                primary == primary_count(bv.subrange(0, i as int), compound_ok),
                multi == multi_asset_count(bv.subrange(0, i as int)),
            decreases self.binding_labels.len() - i,
        {
            let l = self.binding_labels[i];
            assert(bv.subrange(0, i + 1).drop_last() =~= bv.subrange(0, i as int));
            assert(bv.subrange(0, i + 1).last() == l@);
            if is_supported_hard_binding_label(l, compound_ok) {
                primary += 1;
            }
            if is_multi_asset_binding_label(l) {
                multi += 1;
            }
            i += 1;
        }
        assert(bv.subrange(0, i as int) =~= bv);
        BindingPlan {
            primary_candidate: self.find_primary(compound_ok),
            primary_count: primary,
            multi_asset_candidate: self.find_multi_asset(),
            multi_asset_count: multi,
        }
    }

    fn find_primary(&self, compound_ok: bool) -> (r: Option<&ClaimAssertionReference<'a>>)
        ensures
            reference_opt(r) == primary_from(self@.references, compound_ok, 0),
    {
        let ghost rv = reference_views(self.references@);
        let mut i: usize = 0;
        while i < self.references.len()
            invariant
                i <= self.references.len(),
                rv == reference_views(self.references@),
                primary_from(rv, compound_ok, i as int) == primary_from(rv, compound_ok, 0),
            decreases self.references.len() - i,
        {
            assert(rv[i as int] == self.references@[i as int]@);
            if let Some(l) = self.references[i].label {
                if is_supported_hard_binding_label(l, compound_ok) {
                    return Some(&self.references[i]);
                }
            }
            i += 1;
        }
        None
    }

    fn find_multi_asset(&self) -> (r: Option<&ClaimAssertionReference<'a>>)
        ensures
            reference_opt(r) == multi_asset_from(self@.references, 0),
    {
        let ghost rv = reference_views(self.references@);
        let mut i: usize = 0;
        while i < self.references.len()
            invariant
                i <= self.references.len(),
                rv == reference_views(self.references@),
                multi_asset_from(rv, i as int) == multi_asset_from(rv, 0),
            decreases self.references.len() - i,
        {
            assert(rv[i as int] == self.references@[i as int]@);
            if let Some(l) = self.references[i].label {
                if is_multi_asset_binding_label(l) {
                    return Some(&self.references[i]);
                }
            }
            i += 1;
        }
        None
    }
}

// ---------------------------------------------------------------------------
// Laws
// ---------------------------------------------------------------------------


/// The declarations of a claim are its assertion lists, in order, and its
/// generator icons. A claim of the second generation declares its created
/// assertions, then its gathered ones, then the icon of its generator; one of the
/// first generation declares its assertions and the icon of each of its
/// generators. Nothing is left out and nothing else is declared.
pub proof fn declarations_are_the_listed_references(claim: Value)
    ensures
        ({
            let created = field_items(claim, "created_assertions"@);
            let gathered = field_items(claim, "gathered_assertions"@);
            let all = candidates(claim, ClaimGeneration::V2);
            let icon = match claim.field("claim_generator_info"@) {
                Some(info) => info.field("icon"@),
                None => None,
            };
            &&& all.len() == created.len() + gathered.len() + if icon is Some {
                1int
            } else {
                0
            }
            &&& forall|i: int|
                0 <= i < created.len() ==> #[trigger] all[i] == (
                    RefField::CreatedAssertions,
                    created[i],
                )
            &&& forall|i: int|
                0 <= i < gathered.len() ==> all[created.len() + i] == (
                    RefField::GatheredAssertions,
                    #[trigger] gathered[i],
                )
            &&& icon is Some ==> all[created.len() as int + gathered.len()] == (
                RefField::GeneratorIcon,
                icon->0,
            )
        }),
        ({
            let list = field_items(claim, "assertions"@);
            let all = candidates(claim, ClaimGeneration::V1);
            &&& all.len() >= list.len()
            &&& forall|i: int|
                0 <= i < list.len() ==> #[trigger] all[i] == (RefField::Assertions, list[i])
            &&& claim.items_field("claim_generator_info"@) matches Some(entries) ==> forall|
                i: int,
            |
                0 <= i < entries.len() && (#[trigger] entries[i]).field("icon"@) is Some
                    ==> all.contains(
                    (RefField::GeneratorIcon, entries[i].field("icon"@)->0),
                )
        }),
{
    let created = tagged(RefField::CreatedAssertions, field_items(claim, "created_assertions"@));
    let gathered = tagged(
        RefField::GatheredAssertions,
        field_items(claim, "gathered_assertions"@),
    );
    let icons = tagged(
        RefField::GeneratorIcon,
        generator_icons(claim, ClaimGeneration::V2),
    );
    let all = candidates(claim, ClaimGeneration::V2);
    assert(all == created + gathered + icons);
    assert forall|i: int| 0 <= i < gathered.len() implies all[created.len() + i] == (
        RefField::GatheredAssertions,
        #[trigger] field_items(claim, "gathered_assertions"@)[i],
    ) by {
        assert(gathered[i] == (
            RefField::GatheredAssertions,
            field_items(claim, "gathered_assertions"@)[i],
        ));
    }
    let old_all = candidates(claim, ClaimGeneration::V1);
    let list = tagged(RefField::Assertions, field_items(claim, "assertions"@));
    let old_icons = generator_icons(claim, ClaimGeneration::V1);
    assert(old_all == list + tagged(RefField::GeneratorIcon, old_icons));
    if let Some(entries) = claim.items_field("claim_generator_info"@) {
        assert(old_icons == entry_icons(entries, 0));
        assert forall|i: int|
            0 <= i < entries.len() && (#[trigger] entries[i]).field("icon"@) is Some implies old_all.contains(
        (RefField::GeneratorIcon, entries[i].field("icon"@)->0)) by {
            let icon = entries[i].field("icon"@)->0;
            lemma_icon_listed(entries, 0, i);
            let j = choose|j: int| 0 <= j < old_icons.len() && old_icons[j] == icon;
            assert(old_all[list.len() + j] == (RefField::GeneratorIcon, icon));
        }
    }
}

proof fn lemma_icon_listed(entries: Seq<Value>, from: int, i: int)
    requires
        0 <= from <= i < entries.len(),
        entries[i].field("icon"@) is Some,
    ensures
        exists|j: int|
            0 <= j < entry_icons(entries, from).len() && entry_icons(entries, from)[j]
                == entries[i].field("icon"@)->0,
    decreases i - from,
{
    let all = entry_icons(entries, from);
    let rest = entry_icons(entries, from + 1);
    if from == i {
        assert(all[0] == entries[i].field("icon"@)->0);
    } else {
        lemma_icon_listed(entries, from + 1, i);
        let j = choose|j: int|
            0 <= j < rest.len() && rest[j] == entries[i].field("icon"@)->0;
        let skipped = all.len() - rest.len();
        assert(all[skipped + j] == rest[j]);
    }
}

proof fn lemma_collected(c: Seq<(RefField, Value)>, manifest: Seq<char>, k: int)
    requires
        0 <= k <= c.len(),
    ensures
        ({
            let g = collect(c, manifest, k);
            &&& g.declared.no_duplicates()
            &&& forall|l: Seq<char>| #[trigger]
                g.declared.contains(l) == exists|i: int|
                    0 <= i < k && resolved_label((#[trigger] c[i]).1, manifest) == Some(l)
            &&& g.duplicate is None == (forall|i: int, j: int|
                0 <= i < j < k && resolved_label((#[trigger] c[i]).1, manifest) is Some
                    ==> resolved_label((#[trigger] c[j]).1, manifest) != resolved_label(
                    c[i].1,
                    manifest,
                ))
            &&& g.duplicate is None ==> g.references.len() == k && forall|i: int|
                0 <= i < k ==> #[trigger] g.references[i] == (Reference {
                    field: c[i].0,
                    value: c[i].1,
                    label: resolved_label(c[i].1, manifest),
                })
            &&& forall|l: Seq<char>| #[trigger]
                g.bindings.contains(l) == exists|i: int|
                    0 <= i < k && (#[trigger] c[i]).0 != RefField::GeneratorIcon && resolved_label(
                        c[i].1,
                        manifest,
                    ) == Some(l) && (labels::primary_label(l, true) || labels::multi_asset_label(
                        l,
                    ))
        }),
    decreases k,
{
    if k > 0 {
        lemma_collected(c, manifest, k - 1);
        let before = collect(c, manifest, k - 1);
        let g = collect(c, manifest, k);
        let last = resolved_label(c[k - 1].1, manifest);
        assert forall|l: Seq<char>| #[trigger] g.declared.contains(l) == exists|i: int|
            0 <= i < k && resolved_label((#[trigger] c[i]).1, manifest) == Some(l) by {
            lemma_contains_pushed(before.declared, g.declared, l);
            if before.declared.contains(l) {
                let i = choose|i: int|
                    0 <= i < k - 1 && resolved_label((#[trigger] c[i]).1, manifest) == Some(l);
                assert(resolved_label(c[i].1, manifest) == Some(l));
            }
            if last == Some(l) {
                assert(resolved_label(c[k - 1].1, manifest) == Some(l));
            }
        }
        assert forall|l: Seq<char>| #[trigger] g.bindings.contains(l) == exists|i: int|
            0 <= i < k && (#[trigger] c[i]).0 != RefField::GeneratorIcon && resolved_label(
                c[i].1,
                manifest,
            ) == Some(l) && (labels::primary_label(l, true) || labels::multi_asset_label(l)) by {
            lemma_contains_pushed(before.bindings, g.bindings, l);
            if before.bindings.contains(l) {
                let i = choose|i: int|
                    0 <= i < k - 1 && (#[trigger] c[i]).0 != RefField::GeneratorIcon
                        && resolved_label(c[i].1, manifest) == Some(l) && (labels::primary_label(
                        l,
                        true,
                    ) || labels::multi_asset_label(l));
                assert(c[i].0 != RefField::GeneratorIcon);
            }
        }
        if before.duplicate is None && g.duplicate is Some {
            let l = last->0;
            assert(before.declared.contains(l));
            let i = choose|i: int|
                0 <= i < k - 1 && resolved_label((#[trigger] c[i]).1, manifest) == Some(l);
            assert(resolved_label(c[i].1, manifest) == resolved_label(c[k - 1].1, manifest));
        }
        if g.duplicate is None {
            assert(before.duplicate is None);
            assert forall|i: int, j: int|
                0 <= i < j < k && resolved_label((#[trigger] c[i]).1, manifest) is Some implies resolved_label(
            (#[trigger] c[j]).1, manifest) != resolved_label(c[i].1, manifest) by {
                if j == k - 1 && last is Some {
                    assert(!before.declared.contains(last->0));
                }
            }
            assert forall|i: int| 0 <= i < k implies #[trigger] g.references[i] == (Reference {
                field: c[i].0,
                value: c[i].1,
                label: resolved_label(c[i].1, manifest),
            }) by {
                if i < k - 1 {
                    assert(g.references[i] == before.references[i]);
                }
            }
        }
    }
}

proof fn lemma_contains_pushed(a: Seq<Seq<char>>, b: Seq<Seq<char>>, l: Seq<char>)
    requires
        a == b || (b.len() == a.len() + 1 && forall|i: int|
            0 <= i < a.len() ==> #[trigger] b[i] == a[i]),
    ensures
        b.contains(l) == (a.contains(l) || (b.len() > a.len() && b.last() == l)),
{
    if a != b {
        if b.contains(l) {
            let i = choose|i: int| 0 <= i < b.len() && b[i] == l;
            if i < a.len() {
                assert(a[i] == b[i]);
            }
        }
        if a.contains(l) {
            let i = choose|i: int| 0 <= i < a.len() && a[i] == l;
            assert(b[i] == a[i]);
        }
        assert(b[b.len() - 1] == b.last());
    }
}

/// The declared labels of a claim are exactly the assertion labels that its
/// references resolve to inside the manifest, each once. A duplicate is reported
/// exactly where two references resolve to one label; without one there is a
/// reference for each declaration, at its place. The hard bindings are the
/// binding labels among the declarations that are no generator icons. A box of
/// the assertion store is undeclared exactly where no reference resolves to it.
pub proof fn references_are_the_declarations(
    m: ParsedManifest,
    claim: Value,
    generation: ClaimGeneration,
    l: Seq<char>,
)
    requires
        candidates(claim, generation).len() <= MAX_CLAIM_ASSERTION_REFERENCES,
    ensures
        ({
            let c = candidates(claim, generation);
            let rv = refs_of(m, claim, generation);
            &&& rv.complete
            &&& rv.declared_labels.no_duplicates()
            &&& rv.declared_labels.contains(l) == exists|i: int|
                0 <= i < c.len() && resolved_label((#[trigger] c[i]).1, m.label@) == Some(l)
            &&& rv.duplicate_label is None == (forall|i: int, j: int|
                0 <= i < j < c.len() && resolved_label((#[trigger] c[i]).1, m.label@) is Some
                    ==> resolved_label((#[trigger] c[j]).1, m.label@) != resolved_label(
                    c[i].1,
                    m.label@,
                ))
            &&& rv.duplicate_label is None ==> rv.references.len() == c.len() && forall|i: int|
                0 <= i < c.len() ==> #[trigger] rv.references[i] == (Reference {
                    field: c[i].0,
                    value: c[i].1,
                    label: resolved_label(c[i].1, m.label@),
                })
            &&& rv.binding_labels.contains(l) == exists|i: int|
                0 <= i < c.len() && (#[trigger] c[i]).0 != RefField::GeneratorIcon
                    && resolved_label(c[i].1, m.label@) == Some(l) && (labels::primary_label(
                    l,
                    true,
                ) || labels::multi_asset_label(l))
            &&& rv.undeclared_labels.contains(l) == (!rv.declared_labels.contains(l) && exists|
                i: int,
            |
                0 <= i < m.assertion_jumbf@.len() && (#[trigger] m.assertion_jumbf@[i]).label@
                    == l)
        }),
{
    let c = candidates(claim, generation);
    lemma_collected(c, m.label@, c.len() as int);
    let g = collect(c, m.label@, c.len() as int);
    assert(g.declared.contains(l) || !g.declared.contains(l));
    assert(g.bindings.contains(l) || !g.bindings.contains(l));
    lemma_undeclared(m.assertion_jumbf@, g.declared, m.assertion_jumbf@.len() as int, l);
}

proof fn lemma_undeclared(boxes: Seq<JumbfBox>, declared: Seq<Seq<char>>, k: int, l: Seq<char>)
    requires
        0 <= k <= boxes.len(),
    ensures
        undeclared(boxes, declared, k).contains(l) == (!declared.contains(l) && exists|i: int|
            0 <= i < k && (#[trigger] boxes[i]).label@ == l),
    decreases k,
{
    if k > 0 {
        lemma_undeclared(boxes, declared, k - 1, l);
        let before = undeclared(boxes, declared, k - 1);
        let after = undeclared(boxes, declared, k);
        lemma_contains_pushed(before, after, l);
        if exists|i: int| 0 <= i < k - 1 && (#[trigger] boxes[i]).label@ == l {
            let i = choose|i: int| 0 <= i < k - 1 && (#[trigger] boxes[i]).label@ == l;
            assert(boxes[i].label@ == l);
        }
        if exists|i: int| 0 <= i < k && (#[trigger] boxes[i]).label@ == l {
            let i = choose|i: int| 0 <= i < k && (#[trigger] boxes[i]).label@ == l;
            if i < k - 1 {
                assert(boxes[i].label@ == l);
            }
        }
        if boxes[k - 1].label@ == l {
            assert(0 <= k - 1 < k && boxes[k - 1].label@ == l);
        }
    }
}

/// A label that binds the asset: a data hash, a BMFF hash of a supported
/// revision, a box hash or a collection hash; a compound binding only where it is
/// allowed.
pub open spec fn binds_the_asset(label: Seq<char>, compound_ok: bool) -> bool {
    ||| label == "c2pa.hash.data"@
    ||| label == "c2pa.hash.bmff.v2"@
    ||| label == "c2pa.hash.bmff.v3"@
    ||| label == "c2pa.hash.boxes"@
    ||| label == "c2pa.hash.collection.data"@
    ||| compound_ok && label == "c2pa.compound.content"@
}

/// The primary bindings of a claim are counted by the labels that bind the asset,
/// with their repetitions, and the multi-asset fallbacks by theirs.
pub proof fn bindings_are_counted_by_their_labels(s: Seq<Seq<char>>, compound_ok: bool)
    ensures
        primary_count(s, compound_ok) == s.filter(
            |l: Seq<char>| binds_the_asset(l, compound_ok),
        ).len(),
        multi_asset_count(s) == s.filter(|l: Seq<char>| l == "c2pa.hash.multi-asset"@).len(),
    decreases s.len(),
{
    reveal(Seq::filter);
    if s.len() > 0 {
        bindings_are_counted_by_their_labels(s.drop_last(), compound_ok);
    }
}

proof fn lemma_decoded(m: ParsedManifest, list: Seq<Reference>, allowed: bool, k: int)
    requires
        0 <= k <= list.len(),
    ensures
        ({
            let d = decode_all(m, list, allowed, k);
            &&& forall|i: int|
                0 <= i < d.index.len() ==> {
                    let a = #[trigger] d.index[i];
                    &&& a.payload == manifest::payload_among(m.assertions@, a.label)
                    &&& a.jumbf == manifest::content_among(m.assertion_jumbf@, a.label)
                    &&& a.decoded is Some ==> a.payload is Some && a.decoded == a.payload->0.value
                    &&& allowed && !d.exhausted ==> a.decoded == (match a.payload {
                        Some(p) => p.value,
                        None => None,
                    })
                }
            &&& forall|i: int|
                0 <= i < k && (#[trigger] list[i]).label is Some ==> exists|j: int|
                    0 <= j < d.index.len() && (#[trigger] d.index[j]).label == list[i].label->0
        }),
    decreases k,
{
    if k > 0 {
        lemma_decoded(m, list, allowed, k - 1);
        let before = decode_all(m, list, allowed, k - 1);
        let d = decode_all(m, list, allowed, k);
        assert forall|i: int| 0 <= i < k && (#[trigger] list[i]).label is Some implies exists|
            j: int,
        |
            0 <= j < d.index.len() && (#[trigger] d.index[j]).label == list[i].label->0 by {
            if i < k - 1 {
                let j = choose|j: int|
                    0 <= j < before.index.len() && (#[trigger] before.index[j]).label
                        == list[i].label->0;
                assert(d.index[j] == before.index[j]);
            } else {
                assert(d.index[before.index.len() as int].label == list[i].label->0);
            }
        }
        assert forall|i: int| 0 <= i < d.index.len() implies {
            let a = #[trigger] d.index[i];
            &&& a.payload == manifest::payload_among(m.assertions@, a.label)
            &&& a.jumbf == manifest::content_among(m.assertion_jumbf@, a.label)
            &&& a.decoded is Some ==> a.payload is Some && a.decoded == a.payload->0.value
            &&& allowed && !d.exhausted ==> a.decoded == (match a.payload {
                Some(p) => p.value,
                None => None,
            })
        } by {
            if i < before.index.len() {
                assert(d.index[i] == before.index[i]);
            }
        }
    }
}

proof fn lemma_indexed(s: Seq<Indexed>, label: Seq<char>, i: int)
    requires
        0 <= i,
    ensures
        match indexed_from(s, label, i) {
            Some(a) => exists|j: int| i <= j < s.len() && #[trigger] s[j] == a && a.label == label,
            None => forall|j: int| i <= j < s.len() ==> (#[trigger] s[j]).label != label,
        },
    decreases s.len() - i,
{
    if i < s.len() && s[i].label != label {
        lemma_indexed(s, label, i + 1);
    } else if i < s.len() {
        assert(s[i].label == label);
    }
}

/// Every reference that resolves to an assertion label is indexed, with the bytes
/// and the payload that the manifest holds under that label. A decoded value is
/// that of the payload, and within the bounds on work and on decoded nodes every
/// payload that can be decoded is.
pub proof fn references_index_what_the_manifest_holds(
    m: ParsedManifest,
    claim: Value,
    generation: ClaimGeneration,
    i: int,
)
    requires
        0 <= i < refs_of(m, claim, generation).references.len(),
        refs_of(m, claim, generation).references[i].label is Some,
    ensures
        ({
            let rv = refs_of(m, claim, generation);
            let l = rv.references[i].label->0;
            let payload = manifest::payload_among(m.assertions@, l);
            &&& rv.indexed(l) is Some
            &&& rv.indexed(l)->0.payload == payload
            &&& rv.indexed(l)->0.jumbf == manifest::content_among(m.assertion_jumbf@, l)
            &&& rv.decoded(l) is Some ==> payload is Some && rv.decoded(l) == payload->0.value
            &&& rv.hash_work_bytes is Some && !rv.decode_budget_exhausted && payload is Some
                ==> rv.decoded(l) == payload->0.value
        }),
{
    let rv = refs_of(m, claim, generation);
    let c = candidates(claim, generation);
    let g = collect(c, m.label@, c.len() as int);
    let work = bounded_work(total_work(m, g.declared, g.declared.len() as int));
    let n = g.references.len() as int;
    lemma_decoded(m, g.references, work is Some, n);
    let d = decode_all(m, g.references, work is Some, n);
    let l = rv.references[i].label->0;
    assert(g.references[i].label is Some);
    lemma_indexed(d.index, l, 0);
    let j = choose|j: int| 0 <= j < d.index.len() && (#[trigger] d.index[j]).label == l;
    assert(d.index[j].label == l);
    assert(indexed_from(d.index, l, 0) is Some);
    let a = indexed_from(d.index, l, 0)->0;
    let at = choose|at: int| 0 <= at < d.index.len() && #[trigger] d.index[at] == a && a.label == l;
    assert(d.index[at] == a);
}

} // verus!
