//! Hashed-URI validation for the reference fields of standard assertions.
//!
//! The fields are those that the assertion schemas declare as hashed URIs. A
//! map is walked because its field is declared a reference, never because it
//! happens to look like one, and nothing descends into a `metadata` field.
//! References resolve inside the store by exact manifest label and exact
//! assertion label; an external URL is left to external-data validation.
use vstd::prelude::*;
use crate::claim_refs::{str_among, ClaimAssertionRefs, Refs};
use crate::hash;
use crate::hash::{hash_bytes, HashAlgorithm};
use crate::labels;
use crate::manifest::{AssertionBox, JumbfBox, ParsedManifest};
use crate::profile;
use crate::profile::{is_generous, ClaimGeneration, EngineProfile};
use crate::redaction;
use crate::redaction::base_label;
use crate::status::{
    Results, ValidationResults, ALGORITHM_UNSUPPORTED, CLAIM_MALFORMED, HASHED_URI_MISMATCH,
    HASHED_URI_MISSING,
};
use crate::structure;
use crate::structure::assertion_uri;
use crate::text;
use crate::text::{
    bytes_eq, contains_char, decimal_string, join2, join3, join4, split_once, starts_with, str_eq,
    strip_prefix,
};
use crate::value;
use crate::value::Value;

verus! {

/// Ceiling on the nested references that one manifest walk examines.
pub const MAX_NESTED_REFERENCES: usize = 4096;

/// Ceiling on the nesting of `related` action items.
pub const MAX_RELATED_DEPTH: usize = 8;

// ---------------------------------------------------------------------------
// Reference fields
// ---------------------------------------------------------------------------

/// One step of a path from an assertion's root to a reference-bearing field.
#[derive(Debug, Clone, Copy)]
pub enum Step {
    /// Descend into a map field.
    Field(&'static str),
    /// Iterate every element of an array.
    Each,
    /// Apply the remaining steps at this action item and at every action item
    /// reachable through nested `related` arrays.
    EachRelated,
}

/// A step as the contracts see it.
pub enum PathStep {
    Field(Seq<char>),
    Each,
    EachRelated,
}

impl View for Step {
    type V = PathStep;

    open spec fn view(&self) -> PathStep {
        match self {
            Step::Field(name) => PathStep::Field(name@),
            Step::Each => PathStep::Each,
            Step::EachRelated => PathStep::EachRelated,
        }
    }
}

/// Which reference flavour a field is declared with.
#[derive(Debug, Clone, Copy, PartialEq, Eq, Structural)]
pub enum Kind {
    /// A `self#jumbf=` URI.
    Internal,
    /// The URL's own scheme decides between internal and external.
    Either,
}

/// A reference-bearing field of a standard assertion.
#[derive(Debug)]
pub struct RefField {
    pub path: Vec<Step>,
    pub kind: Kind,
}

/// A field as the contracts see it.
pub struct FieldPath {
    pub path: Seq<PathStep>,
    pub kind: Kind,
}

pub open spec fn steps_view(path: Seq<Step>) -> Seq<PathStep> {
    path.map_values(|s: Step| s@)
}

impl View for RefField {
    type V = FieldPath;

    open spec fn view(&self) -> FieldPath {
        FieldPath { path: steps_view(self.path@), kind: self.kind }
    }
}

pub open spec fn fields_view(fields: Seq<RefField>) -> Seq<FieldPath> {
    fields.map_values(|f: RefField| f@)
}

/// `name` of every action item.
pub open spec fn in_action(rest: Seq<PathStep>) -> Seq<PathStep> {
    seq![PathStep::Field("actions"@), PathStep::Each, PathStep::EachRelated] + rest
}

/// The thumbnail field of an ingredient.
pub open spec fn thumbnail_field() -> FieldPath {
    FieldPath { path: seq![PathStep::Field("thumbnail"@)], kind: Kind::Internal }
}

/// The data field of an ingredient.
pub open spec fn data_field() -> FieldPath {
    FieldPath { path: seq![PathStep::Field("data"@)], kind: Kind::Either }
}

/// The reference fields of an actions assertion.
pub open spec fn action_fields() -> Seq<FieldPath> {
    seq![
        FieldPath {
            path: in_action(seq![PathStep::Field("parameters"@), PathStep::Field("ingredient"@)]),
            kind: Kind::Internal,
        },
        FieldPath {
            path: in_action(
                seq![
                    PathStep::Field("parameters"@),
                    PathStep::Field("ingredients"@),
                    PathStep::Each,
                ],
            ),
            kind: Kind::Internal,
        },
        FieldPath {
            path: in_action(
                seq![
                    PathStep::Field("parameters"@),
                    PathStep::Field("relatedAssertions"@),
                    PathStep::Each,
                ],
            ),
            kind: Kind::Internal,
        },
        FieldPath {
            path: in_action(seq![PathStep::Field("softwareAgent"@), PathStep::Field("icon"@)]),
            kind: Kind::Either,
        },
        FieldPath {
            path: seq![
                PathStep::Field("softwareAgents"@),
                PathStep::Each,
                PathStep::Field("icon"@),
            ],
            kind: Kind::Either,
        },
        FieldPath {
            path: seq![PathStep::Field("templates"@), PathStep::Each, PathStep::Field("icon"@)],
            kind: Kind::Internal,
        },
    ]
}

/// The reference fields that are declared for an assertion `label`.
pub open spec fn declared_fields(label: Seq<char>) -> Seq<FieldPath> {
    let base = redaction::base_of(label);
    if base == "c2pa.ingredient"@ {
        seq![thumbnail_field()]
    } else if base == "c2pa.ingredient.v2"@ || base == "c2pa.ingredient.v3"@ {
        seq![thumbnail_field(), data_field()]
    } else if base == "c2pa.actions"@ || base == "c2pa.actions.v2"@ {
        action_fields()
    } else {
        Seq::empty()
    }
}

fn field1(a: Step, kind: Kind) -> (r: RefField)
    ensures
        r@.path == seq![a@],
        r@.kind == kind,
{
    let mut path: Vec<Step> = Vec::new();
    path.push(a);
    assert(steps_view(path@) =~= seq![a@]);
    RefField { path, kind }
}

fn field3(a: Step, b: Step, c: Step, kind: Kind) -> (r: RefField)
    ensures
        r@.path == seq![a@, b@, c@],
        r@.kind == kind,
{
    let mut path: Vec<Step> = Vec::new();
    path.push(a);
    path.push(b);
    path.push(c);
    assert(steps_view(path@) =~= seq![a@, b@, c@]);
    RefField { path, kind }
}

fn action_field(a: &'static str, b: &'static str, each: bool, kind: Kind) -> (r: RefField)
    ensures
        r@.path == in_action(
            if each {
                seq![PathStep::Field(a@), PathStep::Field(b@), PathStep::Each]
            } else {
                seq![PathStep::Field(a@), PathStep::Field(b@)]
            },
        ),
        r@.kind == kind,
{
    let mut path: Vec<Step> = Vec::new();
    path.push(Step::Field("actions"));
    path.push(Step::Each);
    path.push(Step::EachRelated);
    path.push(Step::Field(a));
    path.push(Step::Field(b));
    if each {
        path.push(Step::Each);
    }
    assert(steps_view(path@) =~= in_action(
        if each {
            seq![PathStep::Field(a@), PathStep::Field(b@), PathStep::Each]
        } else {
            seq![PathStep::Field(a@), PathStep::Field(b@)]
        },
    ));
    RefField { path, kind }
}

/// The reference-bearing fields declared for `label`.
///
/// A multi-instance label resolves to its base. A label with no entry
/// contributes nothing: an unknown assertion is never walked speculatively.
pub fn ref_fields(label: &str) -> (r: Vec<RefField>)
    ensures
        fields_view(r@) == declared_fields(label@),
{
    let base = base_label(label);
    let mut out: Vec<RefField> = Vec::new();
    if str_eq(base, "c2pa.ingredient") {
        out.push(field1(Step::Field("thumbnail"), Kind::Internal));
    } else if str_eq(base, "c2pa.ingredient.v2") || str_eq(base, "c2pa.ingredient.v3") {
        out.push(field1(Step::Field("thumbnail"), Kind::Internal));
        out.push(field1(Step::Field("data"), Kind::Either));
    } else if str_eq(base, "c2pa.actions") || str_eq(base, "c2pa.actions.v2") {
        out.push(action_field("parameters", "ingredient", false, Kind::Internal));
        out.push(action_field("parameters", "ingredients", true, Kind::Internal));
        out.push(action_field("parameters", "relatedAssertions", true, Kind::Internal));
        out.push(action_field("softwareAgent", "icon", false, Kind::Either));
        out.push(
            field3(Step::Field("softwareAgents"), Step::Each, Step::Field("icon"), Kind::Either),
        );
        out.push(
            field3(Step::Field("templates"), Step::Each, Step::Field("icon"), Kind::Internal),
        );
    }
    assert(fields_view(out@) =~= declared_fields(label@));
    out
}

// ---------------------------------------------------------------------------
// Locating references
// ---------------------------------------------------------------------------

/// One located reference: its flavour, its value and a readable path.
#[derive(Debug)]
pub struct Located<'v> {
    pub kind: Kind,
    pub value: &'v Value,
    pub path: String,
}

/// A located reference as the contracts see it.
pub struct Location {
    pub kind: Kind,
    pub value: Value,
    pub path: Seq<char>,
}

impl<'v> View for Located<'v> {
    type V = Location;

    open spec fn view(&self) -> Location {
        Location { kind: self.kind, value: *self.value, path: self.path@ }
    }
}

pub open spec fn locations(s: Seq<Located>) -> Seq<Location> {
    s.map_values(|l: Located| l@)
}

/// `path` extended by a field name.
pub open spec fn field_path(path: Seq<char>, name: Seq<char>) -> Seq<char> {
    if path.len() == 0 {
        name
    } else {
        path + "."@ + name
    }
}

/// `path` extended by an array position.
pub open spec fn item_path(path: Seq<char>, i: nat) -> Seq<char> {
    path + "["@ + text::decimal(i) + "]"@
}

/// `path` extended by a related action item.
pub open spec fn related_path(path: Seq<char>, i: nat) -> Seq<char> {
    path + ".related["@ + text::decimal(i) + "]"@
}

/// The items of an array; none for any other value.
pub open spec fn array_items(v: Option<Value>) -> Seq<Value> {
    match value::items_of(v) {
        Some(items) => items,
        None => Seq::empty(),
    }
}

/// Every reference that `steps` lead to from `v`, in order.
pub open spec fn reached(
    v: Value,
    kind: Kind,
    steps: Seq<PathStep>,
    depth: nat,
    path: Seq<char>,
) -> Seq<Location>
    decreases MAX_RELATED_DEPTH + 1 - depth, steps.len(), 0nat, 1nat,
{
    if steps.len() == 0 {
        seq![Location { kind, value: v, path }]
    } else {
        match steps[0] {
            PathStep::Field(name) => match v.field(name) {
                Some(child) => reached(
                    child,
                    kind,
                    steps.drop_first(),
                    depth,
                    field_path(path, name),
                ),
                None => Seq::empty(),
            },
            PathStep::Each => {
                let items = array_items(Some(v));
                reached_in_items(items, items.len(), kind, steps, depth, path)
            },
            PathStep::EachRelated => {
                let here = reached(v, kind, steps.drop_first(), depth, path);
                if depth >= MAX_RELATED_DEPTH {
                    here
                } else {
                    let items = array_items(v.field("related"@));
                    here + reached_in_related(items, items.len(), kind, steps, depth, path)
                }
            },
        }
    }
}

/// What the first `k` array items contribute.
pub open spec fn reached_in_items(
    items: Seq<Value>,
    k: nat,
    kind: Kind,
    steps: Seq<PathStep>,
    depth: nat,
    path: Seq<char>,
) -> Seq<Location>
    decreases MAX_RELATED_DEPTH + 1 - depth, steps.len(), 0nat, 0nat, k,
{
    if k == 0 || steps.len() == 0 {
        Seq::empty()
    } else {
        reached_in_items(items, (k - 1) as nat, kind, steps, depth, path) + reached(
            items[k - 1],
            kind,
            steps.drop_first(),
            depth,
            item_path(path, (k - 1) as nat),
        )
    }
}

/// What the first `k` related action items contribute.
pub open spec fn reached_in_related(
    items: Seq<Value>,
    k: nat,
    kind: Kind,
    steps: Seq<PathStep>,
    depth: nat,
    path: Seq<char>,
) -> Seq<Location>
    decreases MAX_RELATED_DEPTH + 1 - depth, steps.len(), 0nat, 0nat, k,
{
    if k == 0 || depth >= MAX_RELATED_DEPTH {
        Seq::empty()
    } else {
        reached_in_related(items, (k - 1) as nat, kind, steps, depth, path) + reached(
            items[k - 1],
            kind,
            steps,
            depth + 1,
            related_path(path, (k - 1) as nat),
        )
    }
}

/// `out` filled up with `more` until it holds `limit` references.
pub open spec fn filled(out: Seq<Location>, more: Seq<Location>, limit: nat) -> Seq<Location> {
    if out.len() >= limit {
        out
    } else if out.len() + more.len() <= limit {
        out + more
    } else {
        (out + more).take(limit as int)
    }
}

/// Filling up reached the limit.
pub open spec fn full(out: Seq<Location>, more: Seq<Location>, limit: nat) -> bool {
    out.len() + more.len() >= limit
}

proof fn lemma_fill_twice(out: Seq<Location>, a: Seq<Location>, b: Seq<Location>, limit: nat)
    ensures
        !full(out, a, limit) ==> filled(filled(out, a, limit), b, limit) == filled(
            out,
            a + b,
            limit,
        ) && full(filled(out, a, limit), b, limit) == full(out, a + b, limit),
        full(out, a, limit) ==> filled(out, a + b, limit) == filled(out, a, limit) && full(
            out,
            a + b,
            limit,
        ),
{
    if !full(out, a, limit) {
        assert((out + a) + b =~= out + (a + b));
    } else if out.len() < limit {
        assert((out + (a + b)).take(limit as int) =~= (out + a).take(limit as int));
        if out.len() + a.len() == limit {
            assert((out + a).take(limit as int) =~= out + a);
        }
        if out.len() + (a + b).len() == limit {
            assert(b =~= Seq::empty());
            assert(out + (a + b) =~= out + a);
        }
    }
}

fn child_path(path: &str, name: &str) -> (r: String)
    ensures
        r@ == field_path(path@, name@),
{
    proof {
        reveal_strlit("");
        assert(path@.len() == 0 ==> path@ =~= ""@);
    }
    if str_eq(path, "") {
        name.to_owned()
    } else {
        join3(path, ".", name)
    }
}

fn bracket_path(path: &str, open: &str, i: usize) -> (r: String)
    ensures
        r@ == path@ + open@ + text::decimal(i as nat) + "]"@,
{
    let n = decimal_string(i as u64);
    join4(path, open, n.as_str(), "]")
}

/// Walk `steps` from position `at` through `v`, collecting references until
/// `limit` is hit.
///
/// True when the cap was reached, which the caller treats as a resource ceiling
/// rather than first materializing an attacker-sized array.
pub fn locate<'v>(
    v: &'v Value,
    kind: Kind,
    steps: &Vec<Step>,
    at: usize,
    depth: usize,
    path: &str,
    out: &mut Vec<Located<'v>>,
    limit: usize,
) -> (r: bool)
    requires
        at <= steps@.len(),
        depth <= MAX_RELATED_DEPTH,
    ensures
        ({
            let more = reached(
                *v,
                kind,
                steps_view(steps@).skip(at as int),
                depth as nat,
                path@,
            );
            &&& locations(final(out)@) == filled(locations(old(out)@), more, limit as nat)
            &&& r == full(locations(old(out)@), more, limit as nat)
        }),
    decreases MAX_RELATED_DEPTH + 1 - depth, steps@.len() - at,
{
    let ghost sv = steps_view(steps@);
    let ghost rest = sv.skip(at as int);
    let ghost start = locations(out@);
    if out.len() >= limit {
        return true;
    }
    let n = steps.len();
    if at == n {
        out.push(Located { kind, value: v, path: path.to_owned() });
        assert(locations(out@) =~= start + seq![
            Location { kind, value: *v, path: path@ },
        ]);
        return out.len() >= limit;
    }
    assert(rest[0] == steps@[at as int]@);
    assert(rest.drop_first() =~= sv.skip(at + 1));
    match steps[at] {
        Step::Field(name) => {
            let child = match v.get(name) {
                Some(child) => child,
                None => {
                    assert(start + Seq::<Location>::empty() =~= start);
                    return false;
                },
            };
            let p = child_path(path, name);
            locate(child, kind, steps, at + 1, depth, p.as_str(), out, limit)
        },
        Step::Each => {
            let items = match v.as_items() {
                Some(items) => items,
                None => {
                    assert(array_items(Some(*v)) =~= Seq::empty());
                    assert(reached_in_items(
                        Seq::empty(),
                        0,
                        kind,
                        rest,
                        depth as nat,
                        path@,
                    ) =~= Seq::empty());
                    assert(start + Seq::<Location>::empty() =~= start);
                    return false;
                },
            };
            assert(array_items(Some(*v)) == items@);
            let mut i: usize = 0;
            assert(filled(start, Seq::empty(), limit as nat) =~= start);
            while i < items.len()
                invariant
                    i <= items.len(),
                    at < n == steps@.len(),
                    depth <= MAX_RELATED_DEPTH,
                    start == locations(old(out)@),
                    reached(*v, kind, rest, depth as nat, path@) == reached_in_items(
                        items@,
                        items@.len(),
                        kind,
                        rest,
                        depth as nat,
                        path@,
                    ),
                    sv == steps_view(steps@),
                    rest == sv.skip(at as int),
                    rest.drop_first() == sv.skip(at + 1),
                    rest.len() > 0,
                    start.len() < limit,
                    ({
                        let done = reached_in_items(
                            items@,
                            i as nat,
                            kind,
                            rest,
                            depth as nat,
                            path@,
                        );
                        &&& locations(out@) == filled(start, done, limit as nat)
                        &&& !full(start, done, limit as nat)
                    }),
                decreases items.len() - i,
            {
                let p = bracket_path(path, "[", i);
                let ghost done = reached_in_items(
                    items@,
                    i as nat,
                    kind,
                    rest,
                    depth as nat,
                    path@,
                );
                let ghost next = reached(
                    items@[i as int],
                    kind,
                    rest.drop_first(),
                    depth as nat,
                    p@,
                );
                let capped = locate(&items[i], kind, steps, at + 1, depth, p.as_str(), out, limit);
                proof {
                    lemma_fill_twice(start, done, next, limit as nat);
                    assert(done + next == reached_in_items(
                        items@,
                        (i + 1) as nat,
                        kind,
                        rest,
                        depth as nat,
                        path@,
                    ));
                }
                if capped {
                    proof {
                        lemma_items_prefix(
                            items@,
                            (i + 1) as nat,
                            kind,
                            rest,
                            depth as nat,
                            path@,
                            start,
                            limit as nat,
                        );
                    }
                    return true;
                }
                i += 1;
            }
            false
        },
        Step::EachRelated => {
            let ghost here = reached(*v, kind, rest.drop_first(), depth as nat, path@);
            if locate(v, kind, steps, at + 1, depth, path, out, limit) {
                proof {
                    let items = array_items(v.field("related"@));
                    let more = reached_in_related(
                        items,
                        items.len(),
                        kind,
                        rest,
                        depth as nat,
                        path@,
                    );
                    lemma_fill_twice(start, here, more, limit as nat);
                }
                return true;
            }
            if depth >= MAX_RELATED_DEPTH {
                return false;
            }
            let items = match v.get_items("related") {
                Some(items) => items,
                None => {
                    assert(array_items(v.field("related"@)) =~= Seq::empty());
                    assert(reached_in_related(
                        Seq::empty(),
                        0,
                        kind,
                        rest,
                        depth as nat,
                        path@,
                    ) =~= Seq::empty());
                    assert(here + Seq::<Location>::empty() =~= here);
                    return false;
                },
            };
            assert(array_items(v.field("related"@)) == items@);
            let ghost mid = locations(out@);
            let mut i: usize = 0;
            assert(filled(mid, Seq::empty(), limit as nat) =~= mid);
            while i < items.len()
                invariant
                    i <= items.len(),
                    at < n == steps@.len(),
                    depth < MAX_RELATED_DEPTH,
                    start == locations(old(out)@),
                    sv == steps_view(steps@),
                    rest == sv.skip(at as int),
                    mid.len() < limit,
                    ({
                        let done = reached_in_related(
                            items@,
                            i as nat,
                            kind,
                            rest,
                            depth as nat,
                            path@,
                        );
                        &&& locations(out@) == filled(mid, done, limit as nat)
                        &&& !full(mid, done, limit as nat)
                    }),
                    mid == filled(start, here, limit as nat),
                    !full(start, here, limit as nat),
                    items@ == array_items(v.field("related"@)),
                    reached(*v, kind, rest, depth as nat, path@) == here + reached_in_related(
                        items@,
                        items@.len(),
                        kind,
                        rest,
                        depth as nat,
                        path@,
                    ),
                decreases items.len() - i,
            {
                let p = bracket_path(path, ".related[", i);
                let ghost done = reached_in_related(
                    items@,
                    i as nat,
                    kind,
                    rest,
                    depth as nat,
                    path@,
                );
                let ghost next = reached(items@[i as int], kind, rest, (depth + 1) as nat, p@);
                let capped = locate(&items[i], kind, steps, at, depth + 1, p.as_str(), out, limit);
                proof {
                    lemma_fill_twice(mid, done, next, limit as nat);
                    assert(done + next == reached_in_related(
                        items@,
                        (i + 1) as nat,
                        kind,
                        rest,
                        depth as nat,
                        path@,
                    ));
                }
                if capped {
                    proof {
                        lemma_related_prefix(
                            items@,
                            (i + 1) as nat,
                            kind,
                            rest,
                            depth as nat,
                            path@,
                            mid,
                            limit as nat,
                        );
                        lemma_fill_twice(
                            start,
                            here,
                            reached_in_related(
                                items@,
                                items@.len(),
                                kind,
                                rest,
                                depth as nat,
                                path@,
                            ),
                            limit as nat,
                        );
                    }
                    return true;
                }
                i += 1;
            }
            proof {
                lemma_fill_twice(
                    start,
                    here,
                    reached_in_related(items@, items@.len(), kind, rest, depth as nat, path@),
                    limit as nat,
                );
            }
            false
        },
    }
}

/// Once the first `k` items fill up the list, the others add nothing.
proof fn lemma_items_prefix(
    items: Seq<Value>,
    k: nat,
    kind: Kind,
    steps: Seq<PathStep>,
    depth: nat,
    path: Seq<char>,
    start: Seq<Location>,
    limit: nat,
)
    requires
        k <= items.len(),
        steps.len() > 0,
        full(start, reached_in_items(items, k, kind, steps, depth, path), limit),
    ensures
        ({
            let all = reached_in_items(items, items.len(), kind, steps, depth, path);
            let some = reached_in_items(items, k, kind, steps, depth, path);
            &&& filled(start, all, limit) == filled(start, some, limit)
            &&& full(start, all, limit)
        }),
    decreases items.len() - k,
{
    if k < items.len() {
        let some = reached_in_items(items, k, kind, steps, depth, path);
        let next = reached(items[k as int], kind, steps.drop_first(), depth, item_path(path, k));
        lemma_fill_twice(start, some, next, limit);
        assert(reached_in_items(items, k + 1, kind, steps, depth, path) == some + next);
        lemma_items_prefix(items, k + 1, kind, steps, depth, path, start, limit);
    }
}

/// Once the first `k` related items fill up the list, the others add nothing.
proof fn lemma_related_prefix(
    items: Seq<Value>,
    k: nat,
    kind: Kind,
    steps: Seq<PathStep>,
    depth: nat,
    path: Seq<char>,
    start: Seq<Location>,
    limit: nat,
)
    requires
        k <= items.len(),
        depth < MAX_RELATED_DEPTH,
        full(start, reached_in_related(items, k, kind, steps, depth, path), limit),
    ensures
        ({
            let all = reached_in_related(items, items.len(), kind, steps, depth, path);
            let some = reached_in_related(items, k, kind, steps, depth, path);
            &&& filled(start, all, limit) == filled(start, some, limit)
            &&& full(start, all, limit)
        }),
    decreases items.len() - k,
{
    if k < items.len() {
        let some = reached_in_related(items, k, kind, steps, depth, path);
        let next = reached(items[k as int], kind, steps, depth + 1, related_path(path, k));
        lemma_fill_twice(start, some, next, limit);
        assert(reached_in_related(items, k + 1, kind, steps, depth, path) == some + next);
        lemma_related_prefix(items, k + 1, kind, steps, depth, path, start, limit);
    }
}

// ---------------------------------------------------------------------------
// Destinations
// ---------------------------------------------------------------------------

/// The position of the first `label` at or behind `i`.
pub open spec fn first_label(labels: Seq<Seq<char>>, label: Seq<char>, i: int) -> Option<int>
    decreases labels.len() - i,
{
    if i < 0 || i >= labels.len() {
        None
    } else if labels[i] == label {
        Some(i)
    } else {
        first_label(labels, label, i + 1)
    }
}

/// The position of the one `label`; nothing where there is none or more than
/// one. An ambiguous label does not resolve to bytes that were committed to.
pub open spec fn sole_label(labels: Seq<Seq<char>>, label: Seq<char>) -> Option<int> {
    match first_label(labels, label, 0) {
        Some(i) => if first_label(labels, label, i + 1) is None {
            Some(i)
        } else {
            None
        },
        None => None,
    }
}

pub open spec fn manifest_labels(s: Seq<ParsedManifest>) -> Seq<Seq<char>> {
    s.map_values(|m: ParsedManifest| m.label@)
}

pub open spec fn jumbf_labels(s: Seq<JumbfBox>) -> Seq<Seq<char>> {
    s.map_values(|b: JumbfBox| b.label@)
}

pub open spec fn assertion_labels(s: Seq<AssertionBox>) -> Seq<Seq<char>> {
    s.map_values(|b: AssertionBox| b.label@)
}

/// The bytes that an assertion URI names: the assertion's JUMBF content and its
/// bare payload, when it has one.
pub struct Destination<'a> {
    pub jumbf: &'a [u8],
    pub payload: Option<&'a [u8]>,
}

/// A destination as the contracts see it.
pub struct Target {
    pub jumbf: Seq<u8>,
    pub payload: Option<Seq<u8>>,
}

/// The manifest label and the assertion label that `url` names.
pub open spec fn target_labels(url: Seq<char>, manifest_label: Seq<char>) -> Option<
    (Seq<char>, Seq<char>),
> {
    match text::after_prefix(url, "self#jumbf="@) {
        None => None,
        Some(rest) => match text::after_prefix(rest, "/c2pa/"@) {
            Some(absolute) => text::split_at_first(absolute, "/c2pa.assertions/"@),
            None => match text::after_prefix(rest, "c2pa.assertions/"@) {
                Some(label) => Some((manifest_label, label)),
                None => None,
            },
        },
    }
}

/// What stands in the store under two labels.
pub open spec fn target_at(
    manifest_label: Seq<char>,
    label: Seq<char>,
    manifests: Seq<ParsedManifest>,
) -> Option<Target> {
    match sole_label(manifest_labels(manifests), manifest_label) {
        None => None,
        Some(k) => {
            let m = manifests[k];
            match sole_label(jumbf_labels(m.assertion_jumbf@), label) {
                None => None,
                Some(i) => Some(
                    Target {
                        jumbf: m.assertion_jumbf@[i].content@,
                        payload: match sole_label(assertion_labels(m.assertions@), label) {
                            Some(j) => Some(m.assertions@[j].payload.bytes@),
                            None => None,
                        },
                    },
                ),
            }
        },
    }
}

/// What `url` names.
pub open spec fn resolved(
    url: Seq<char>,
    manifest_label: Seq<char>,
    manifests: Seq<ParsedManifest>,
) -> Option<Target> {
    match target_labels(url, manifest_label) {
        Some((target, label)) => if redaction::leaf(label) {
            target_at(target, label, manifests)
        } else {
            None
        },
        None => None,
    }
}

pub open spec fn index_opt(i: Option<usize>) -> Option<int> {
    match i {
        Some(i) => Some(i as int),
        None => None,
    }
}

fn sole_manifest(manifests: &[ParsedManifest], label: &str) -> (r: Option<usize>)
    ensures
        index_opt(r) == sole_label(manifest_labels(manifests@), label@),
        r matches Some(i) ==> i < manifests@.len(),
{
    let ghost labels = manifest_labels(manifests@);
    let mut found: Option<usize> = None;
    let mut i: usize = 0;
    while i < manifests.len()
        invariant
            i <= manifests.len(),
            labels == manifest_labels(manifests@),
            match found {
                Some(k) => k < i && first_label(labels, label@, 0) == Some(k as int)
                    && first_label(labels, label@, k + 1) == first_label(labels, label@, i as int),
                None => first_label(labels, label@, 0) == first_label(labels, label@, i as int),
            },
        decreases manifests.len() - i,
    {
        assert(labels[i as int] == manifests@[i as int].label@);
        if str_eq(manifests[i].label.as_str(), label) {
            if found.is_some() {
                return None;
            }
            found = Some(i);
        }
        i += 1;
    }
    found
}

fn sole_jumbf(boxes: &Vec<JumbfBox>, label: &str) -> (r: Option<usize>)
    ensures
        index_opt(r) == sole_label(jumbf_labels(boxes@), label@),
        r matches Some(i) ==> i < boxes@.len(),
{
    let ghost labels = jumbf_labels(boxes@);
    let mut found: Option<usize> = None;
    let mut i: usize = 0;
    while i < boxes.len()
        invariant
            i <= boxes.len(),
            labels == jumbf_labels(boxes@),
            match found {
                Some(k) => k < i && first_label(labels, label@, 0) == Some(k as int)
                    && first_label(labels, label@, k + 1) == first_label(labels, label@, i as int),
                None => first_label(labels, label@, 0) == first_label(labels, label@, i as int),
            },
        decreases boxes.len() - i,
    {
        assert(labels[i as int] == boxes@[i as int].label@);
        if str_eq(boxes[i].label.as_str(), label) {
            if found.is_some() {
                return None;
            }
            found = Some(i);
        }
        i += 1;
    }
    found
}

fn sole_assertion(boxes: &Vec<AssertionBox>, label: &str) -> (r: Option<usize>)
    ensures
        index_opt(r) == sole_label(assertion_labels(boxes@), label@),
        r matches Some(i) ==> i < boxes@.len(),
{
    let ghost labels = assertion_labels(boxes@);
    let mut found: Option<usize> = None;
    let mut i: usize = 0;
    while i < boxes.len()
        invariant
            i <= boxes.len(),
            labels == assertion_labels(boxes@),
            match found {
                Some(k) => k < i && first_label(labels, label@, 0) == Some(k as int)
                    && first_label(labels, label@, k + 1) == first_label(labels, label@, i as int),
                None => first_label(labels, label@, 0) == first_label(labels, label@, i as int),
            },
        decreases boxes.len() - i,
    {
        assert(labels[i as int] == boxes@[i as int].label@);
        if str_eq(boxes[i].label.as_str(), label) {
            if found.is_some() {
                return None;
            }
            found = Some(i);
        }
        i += 1;
    }
    found
}

pub open spec fn destination_opt(d: Option<Destination>) -> Option<Target> {
    match d {
        Some(d) => Some(Target { jumbf: d.jumbf@, payload: value::bytes_opt(d.payload) }),
        None => None,
    }
}

/// The bytes that a `self#jumbf=` assertion URI names.
pub fn resolve<'a>(url: &str, manifest_label: &str, manifests: &'a [ParsedManifest]) -> (r: Option<
    Destination<'a>,
>)
    ensures
        destination_opt(r) == resolved(url@, manifest_label@, manifests@),
{
    let rest = match strip_prefix(url, "self#jumbf=") {
        Some(rest) => rest,
        None => {
            return None;
        },
    };
    let pair: Option<(&str, &str)> = match strip_prefix(rest, "/c2pa/") {
        Some(absolute) => split_once(absolute, "/c2pa.assertions/"),
        None => match strip_prefix(rest, "c2pa.assertions/") {
            Some(label) => Some((manifest_label, label)),
            None => None,
        },
    };
    let (target, label) = match pair {
        Some(pair) => pair,
        None => {
            return None;
        },
    };
    proof {
        reveal_strlit("");
        assert(label@.len() == 0 ==> label@ =~= ""@);
    }
    if str_eq(label, "") || contains_char(label, '/') {
        return None;
    }
    let k = match sole_manifest(manifests, target) {
        Some(k) => k,
        None => {
            return None;
        },
    };
    let m = &manifests[k];
    let i = match sole_jumbf(&m.assertion_jumbf, label) {
        Some(i) => i,
        None => {
            return None;
        },
    };
    let payload: Option<&'a [u8]> = match sole_assertion(&m.assertions, label) {
        Some(j) => Some(m.assertions[j].payload.bytes.as_slice()),
        None => None,
    };
    Some(Destination { jumbf: m.assertion_jumbf[i].content.as_slice(), payload })
}

// ---------------------------------------------------------------------------
// Validation
// ---------------------------------------------------------------------------

/// The name of a field in a message.
pub open spec fn field_name(label: Seq<char>, path: Seq<char>) -> Seq<char> {
    label + " field '"@ + path + "'"@
}

/// The destination has the digest `expected`. A v1 claim may also bind the bare
/// payload.
pub open spec fn target_bound(
    t: Target,
    alg: Seq<char>,
    expected: Option<Seq<u8>>,
    generation: ClaimGeneration,
) -> bool {
    expected is Some && (hash::named_digest(alg, t.jumbf) == expected || (generation
        == ClaimGeneration::V1 && t.payload is Some && hash::named_digest(alg, t.payload->0)
        == expected))
}

/// The algorithm of a reference: its own, or the inherited one.
pub open spec fn own_or(v: Value, inherited: Option<Seq<char>>) -> Option<Seq<char>> {
    match v.text_field("alg"@) {
        Some(alg) => Some(alg),
        None => inherited,
    }
}

/// One located reference.
pub open spec fn after_location(
    l: Location,
    label: Seq<char>,
    at: Seq<char>,
    generation: ClaimGeneration,
    manifest_label: Seq<char>,
    manifests: Seq<ParsedManifest>,
    inherited: Option<Seq<char>>,
    r: Results,
) -> Results {
    let name = field_name(label, l.path);
    match l.value.text_field("url"@) {
        None => r.fail(HASHED_URI_MISSING@, at, name + " is not a hashed URI: no url"@),
        Some(url) => if l.kind == Kind::Either && !text::is_prefix("self#jumbf="@, url) {
            r
        } else {
            match resolved(url, manifest_label, manifests) {
                None => r.fail(
                    HASHED_URI_MISSING@,
                    url,
                    name + " references '"@ + url + "', which cannot be located"@,
                ),
                Some(t) => match own_or(l.value, inherited) {
                    None => r.fail(ALGORITHM_UNSUPPORTED@, url, name + " has no hash algorithm"@),
                    Some(alg) => if hash::algorithm_named(alg) is None {
                        r.fail(
                            ALGORITHM_UNSUPPORTED@,
                            url,
                            name + " uses unsupported hash algorithm '"@ + alg + "'"@,
                        )
                    } else if !target_bound(t, alg, l.value.bytes_field("hash"@), generation) {
                        r.fail(HASHED_URI_MISMATCH@, url, name + " hashed uri mismatch: "@ + url)
                    } else {
                        r
                    },
                },
            }
        },
    }
}

/// The first `k` located references.
pub open spec fn after_locations(
    found: Seq<Location>,
    k: int,
    label: Seq<char>,
    at: Seq<char>,
    generation: ClaimGeneration,
    manifest_label: Seq<char>,
    manifests: Seq<ParsedManifest>,
    inherited: Option<Seq<char>>,
    r: Results,
) -> Results
    decreases k,
{
    if k <= 0 {
        r
    } else {
        after_location(
            found[k - 1],
            label,
            at,
            generation,
            manifest_label,
            manifests,
            inherited,
            after_locations(
                found,
                k - 1,
                label,
                at,
                generation,
                manifest_label,
                manifests,
                inherited,
                r,
            ),
        )
    }
}

/// What remains of the ceiling after `used` references.
pub open spec fn remaining(used: nat) -> nat {
    if used >= MAX_NESTED_REFERENCES {
        0
    } else {
        (MAX_NESTED_REFERENCES - used) as nat
    }
}

/// The references that the fields at or behind `j` lead to, added to `out`, and
/// whether the ceiling was reached.
pub open spec fn gathered(
    assertion: Value,
    fields: Seq<FieldPath>,
    j: int,
    examined: nat,
    out: Seq<Location>,
) -> (bool, Seq<Location>)
    decreases fields.len() - j,
{
    if j < 0 || j >= fields.len() {
        (false, out)
    } else {
        let limit = remaining(examined);
        let more = reached(assertion, fields[j].kind, fields[j].path, 0, Seq::empty());
        if full(out, more, limit) {
            (true, filled(out, more, limit))
        } else {
            gathered(assertion, fields, j + 1, examined, filled(out, more, limit))
        }
    }
}

/// The algorithm that an assertion's references inherit.
pub open spec fn inherited_algorithm(assertion: Value, claim: Value) -> Option<Seq<char>> {
    own_or(assertion, claim.text_field("alg"@))
}

/// The references of the claim at or behind `i`.
pub open spec fn walk_from(
    claim: Value,
    refs: Refs,
    i: int,
    seen: Seq<Seq<char>>,
    examined: nat,
    generation: ClaimGeneration,
    manifest_label: Seq<char>,
    manifests: Seq<ParsedManifest>,
    r: Results,
) -> Results
    decreases refs.references.len() - i,
{
    if i < 0 || i >= refs.references.len() {
        r
    } else {
        match refs.references[i].label {
            None => walk_from(
                claim,
                refs,
                i + 1,
                seen,
                examined,
                generation,
                manifest_label,
                manifests,
                r,
            ),
            Some(label) => if seen.contains(label) {
                walk_from(
                    claim,
                    refs,
                    i + 1,
                    seen,
                    examined,
                    generation,
                    manifest_label,
                    manifests,
                    r,
                )
            } else {
                let fields = declared_fields(label);
                if fields.len() == 0 || refs.decoded(label) is None {
                    walk_from(
                        claim,
                        refs,
                        i + 1,
                        seen.push(label),
                        examined,
                        generation,
                        manifest_label,
                        manifests,
                        r,
                    )
                } else {
                    let assertion = refs.decoded(label)->0;
                    let at = structure::assertion_url(manifest_label, label);
                    let (capped, found) = gathered(assertion, fields, 0, examined, Seq::empty());
                    let after = after_locations(
                        found,
                        found.len() as int,
                        label,
                        at,
                        generation,
                        manifest_label,
                        manifests,
                        inherited_algorithm(assertion, claim),
                        r,
                    );
                    if capped {
                        after.fail(
                            CLAIM_MALFORMED@,
                            at,
                            "assertion reference count exceeds verifier bound ("@ + text::decimal(
                                MAX_NESTED_REFERENCES as nat,
                            ) + ")"@,
                        )
                    } else {
                        walk_from(
                            claim,
                            refs,
                            i + 1,
                            seen.push(label),
                            examined + found.len(),
                            generation,
                            manifest_label,
                            manifests,
                            after,
                        )
                    }
                }
            },
        }
    }
}

/// The nested references of one claim.
pub open spec fn nested_outcome(
    claim: Value,
    refs: Refs,
    generation: ClaimGeneration,
    p: EngineProfile,
    manifest_label: Seq<char>,
    manifests: Seq<ParsedManifest>,
    r: Results,
) -> Results {
    if generation == ClaimGeneration::V1 && profile::generous(p) {
        r
    } else {
        walk_from(claim, refs, 0, Seq::empty(), 0, generation, manifest_label, manifests, r)
    }
}

fn matches_domain(bytes: &[u8], alg: &str, expected: &[u8]) -> (r: bool)
    ensures
        r == (hash::named_digest(alg@, bytes@) == Some(expected@)),
{
    match hash_bytes(alg, bytes) {
        Some(d) => bytes_eq(d.as_slice(), expected),
        None => false,
    }
}

fn target_matches(
    d: &Destination,
    alg: &str,
    expected: Option<&[u8]>,
    generation: ClaimGeneration,
) -> (r: bool)
    ensures
        r == target_bound(
            Target { jumbf: d.jumbf@, payload: value::bytes_opt(d.payload) },
            alg@,
            value::bytes_opt(expected),
            generation,
        ),
{
    match expected {
        None => false,
        Some(e) => matches_domain(d.jumbf, alg, e) || (generation == ClaimGeneration::V1
            && match d.payload {
            Some(p) => matches_domain(p, alg, e),
            None => false,
        }),
    }
}

fn validate_reference(
    located: &Located,
    label: &str,
    assertion_url: &str,
    generation: ClaimGeneration,
    manifest_label: &str,
    manifests: &[ParsedManifest],
    inherited_alg: Option<&str>,
    results: &mut ValidationResults,
)
    ensures
        final(results)@ == after_location(
            located@,
            label@,
            assertion_url@,
            generation,
            manifest_label@,
            manifests@,
            value::chars_opt(inherited_alg),
            old(results)@,
        ),
{
    let name = join4(label, " field '", located.path.as_str(), "'");
    let url = match located.value.get_text("url") {
        Some(url) => url,
        None => {
            results.push_failure(
                HASHED_URI_MISSING,
                assertion_url.to_owned(),
                join2(name.as_str(), " is not a hashed URI: no url"),
            );
            return;
        },
    };
    if located.kind == Kind::Either && !starts_with(url, "self#jumbf=") {
        return;
    }
    let destination = match resolve(url, manifest_label, manifests) {
        Some(destination) => destination,
        None => {
            results.push_failure(
                HASHED_URI_MISSING,
                url.to_owned(),
                join4(name.as_str(), " references '", url, "', which cannot be located"),
            );
            return;
        },
    };
    let own = located.value.get_text("alg");
    let chosen = if own.is_some() {
        own
    } else {
        inherited_alg
    };
    let alg = match chosen {
        Some(alg) => alg,
        None => {
            results.push_failure(
                ALGORITHM_UNSUPPORTED,
                url.to_owned(),
                join2(name.as_str(), " has no hash algorithm"),
            );
            return;
        },
    };
    if HashAlgorithm::from_name(alg).is_none() {
        results.push_failure(
            ALGORITHM_UNSUPPORTED,
            url.to_owned(),
            join4(name.as_str(), " uses unsupported hash algorithm '", alg, "'"),
        );
        return;
    }
    if !target_matches(&destination, alg, located.value.get_bytes("hash"), generation) {
        results.push_failure(
            HASHED_URI_MISMATCH,
            url.to_owned(),
            join3(name.as_str(), " hashed uri mismatch: ", url),
        );
    }
}

fn gather_references<'v>(assertion: &'v Value, fields: &Vec<RefField>, examined: usize) -> (r: (
    bool,
    Vec<Located<'v>>,
))
    requires
        examined <= MAX_NESTED_REFERENCES,
    ensures
        (r.0, locations(r.1@)) == gathered(
            *assertion,
            fields_view(fields@),
            0,
            examined as nat,
            Seq::empty(),
        ),
        examined + r.1@.len() <= MAX_NESTED_REFERENCES,
{
    let ghost fv = fields_view(fields@);
    let ghost whole = gathered(*assertion, fv, 0, examined as nat, Seq::empty());
    let mut out: Vec<Located<'v>> = Vec::new();
    assert(locations(out@) =~= Seq::empty());
    let mut j: usize = 0;
    while j < fields.len()
        invariant
            j <= fields.len(),
            fv == fields_view(fields@),
            examined + out@.len() <= MAX_NESTED_REFERENCES,
            whole == gathered(*assertion, fv, 0, examined as nat, Seq::empty()),
            gathered(*assertion, fv, j as int, examined as nat, locations(out@)) == whole,
        decreases fields.len() - j,
    {
        let limit: usize = MAX_NESTED_REFERENCES - examined;
        assert(fv[j as int] == fields@[j as int]@);
        proof {
            reveal_strlit("");
            assert(""@ =~= Seq::<char>::empty());
            assert(steps_view(fields@[j as int].path@).skip(0) =~= steps_view(
                fields@[j as int].path@,
            ));
        }
        let capped = locate(assertion, fields[j].kind, &fields[j].path, 0, 0, "", &mut out, limit);
        assert(locations(out@).len() == out@.len());
        if capped {
            return (true, out);
        }
        j += 1;
    }
    (false, out)
}

fn validate_located(
    found: &Vec<Located>,
    label: &str,
    assertion_url: &str,
    generation: ClaimGeneration,
    manifest_label: &str,
    manifests: &[ParsedManifest],
    inherited_alg: Option<&str>,
    results: &mut ValidationResults,
)
    ensures
        final(results)@ == after_locations(
            locations(found@),
            found@.len() as int,
            label@,
            assertion_url@,
            generation,
            manifest_label@,
            manifests@,
            value::chars_opt(inherited_alg),
            old(results)@,
        ),
{
    let mut i: usize = 0;
    while i < found.len()
        invariant
            i <= found.len(),
            results@ == after_locations(
                locations(found@),
                i as int,
                label@,
                assertion_url@,
                generation,
                manifest_label@,
                manifests@,
                value::chars_opt(inherited_alg),
                old(results)@,
            ),
        decreases found.len() - i,
    {
        assert(locations(found@)[i as int] == found@[i as int]@);
        validate_reference(
            &found[i],
            label,
            assertion_url,
            generation,
            manifest_label,
            manifests,
            inherited_alg,
            results,
        );
        i += 1;
    }
}

/// Validate every declared hashed-URI field of every standard assertion that
/// the claim declares.
///
/// A v1 claim is held to this rule only under strict conformance: earlier
/// generators wrote an action's ingredient hash before the assertion it names
/// was final.
pub fn verify_assertion_references(
    claim: &Value,
    refs: &ClaimAssertionRefs,
    generation: ClaimGeneration,
    engine: EngineProfile,
    manifest_label: &str,
    manifests: &[ParsedManifest],
    results: &mut ValidationResults,
)
    ensures
        final(results)@ == nested_outcome(
            *claim,
            refs@,
            generation,
            engine,
            manifest_label@,
            manifests@,
            old(results)@,
        ),
{
    if generation == ClaimGeneration::V1 && is_generous(engine) {
        return;
    }
    let claim_alg = claim.get_text("alg");
    let ghost rv = refs@;
    let ghost whole = walk_from(
        *claim,
        rv,
        0,
        Seq::empty(),
        0,
        generation,
        manifest_label@,
        manifests@,
        results@,
    );
    let mut seen: Vec<&str> = Vec::new();
    assert(text::views(seen@) =~= Seq::empty());
    let mut examined: usize = 0;
    let mut i: usize = 0;
    while i < refs.references.len()
        invariant
            i <= refs.references.len(),
            rv == refs@,
            examined <= MAX_NESTED_REFERENCES,
            value::chars_opt(claim_alg) == claim.text_field("alg"@),
            whole == nested_outcome(
                *claim,
                rv,
                generation,
                engine,
                manifest_label@,
                manifests@,
                old(results)@,
            ),
            walk_from(
                *claim,
                rv,
                i as int,
                text::views(seen@),
                examined as nat,
                generation,
                manifest_label@,
                manifests@,
                results@,
            ) == whole,
        decreases refs.references.len() - i,
    {
        assert(rv.references[i as int] == refs.references@[i as int]@);
        if let Some(label) = refs.references[i].label {
            if !str_among(&seen, label) {
                let ghost before = seen@;
                seen.push(label);
                assert(text::views(seen@) =~= text::views(before).push(label@));
                let fields = ref_fields(label);
                assert(fields_view(fields@).len() == fields@.len());
                if fields.len() > 0 {
                    if let Some(assertion) = refs.decoded(label) {
                        let at = assertion_uri(manifest_label, label);
                        let own = assertion.get_text("alg");
                        let inherited = if own.is_some() {
                            own
                        } else {
                            claim_alg
                        };
                        let (capped, found) = gather_references(assertion, &fields, examined);
                        assert(locations(found@).len() == found@.len());
                        validate_located(
                            &found,
                            label,
                            at.as_str(),
                            generation,
                            manifest_label,
                            manifests,
                            inherited,
                            results,
                        );
                        if capped {
                            let cap = decimal_string(MAX_NESTED_REFERENCES as u64);
                            results.push_failure(
                                CLAIM_MALFORMED,
                                at,
                                join3(
                                    "assertion reference count exceeds verifier bound (",
                                    cap.as_str(),
                                    ")",
                                ),
                            );
                            return;
                        }
                        examined = examined + found.len();
                    }
                }
            }
        }
        i += 1;
    }
}

// ---------------------------------------------------------------------------
// Laws
// ---------------------------------------------------------------------------


/// `url`, written in the manifest `here`, names the assertion `label` of the
/// manifest `target`: relative to its own manifest, or absolutely.
pub open spec fn names_box(
    url: Seq<char>,
    here: Seq<char>,
    target: Seq<char>,
    label: Seq<char>,
) -> bool {
    &&& label.len() > 0
    &&& !label.contains('/')
    &&& (target == here && url == "self#jumbf=c2pa.assertions/"@ + label) || url
        == "self#jumbf=/c2pa/"@ + (target + ("/c2pa.assertions/"@ + label))
}

/// The reference names box `i` of manifest `k`, the only ones of their labels,
/// and states the digest of the box; a claim of the first generation may state
/// that of the bare payload instead.
pub open spec fn box_bound(
    reference: Value,
    alg: Seq<char>,
    here: Seq<char>,
    generation: ClaimGeneration,
    manifests: Seq<ParsedManifest>,
    k: int,
    i: int,
) -> bool {
    let boxes = manifests[k].assertion_jumbf@;
    let expected = reference.bytes_field("hash"@);
    &&& 0 <= k < manifests.len()
    &&& 0 <= i < boxes.len()
    &&& reference.text_field("url"@) is Some
    &&& names_box(
        reference.text_field("url"@)->0,
        here,
        manifests[k].label@,
        boxes[i].label@,
    )
    &&& forall|j: int|
        0 <= j < manifests.len() && j != k ==> (#[trigger] manifests[j]).label@
            != manifests[k].label@
    &&& forall|j: int|
        0 <= j < boxes.len() && j != i ==> (#[trigger] boxes[j]).label@ != boxes[i].label@
    &&& expected is Some
    &&& expected == hash::named_digest(alg, boxes[i].content@) || (generation
        == ClaimGeneration::V1 && exists|j: int|
        0 <= j < manifests[k].assertions@.len() && (#[trigger] manifests[k].assertions@[j]).label@
            == boxes[i].label@ && expected == hash::named_digest(
            alg,
            manifests[k].assertions@[j].payload.bytes@,
        ))
}

/// The reference names one box of the store and states its digest.
pub open spec fn bound_in_store(
    reference: Value,
    alg: Seq<char>,
    here: Seq<char>,
    generation: ClaimGeneration,
    manifests: Seq<ParsedManifest>,
) -> bool {
    exists|k: int, i: int| #[trigger]
        box_bound(reference, alg, here, generation, manifests, k, i)
}

/// A nested reference is bound: it is a URL outside the store, where its field
/// allows one, or it names one box of the store and states its digest under the
/// algorithm of the reference, of its assertion or of the claim.
pub open spec fn nested_bound(
    reference: Value,
    kind: Kind,
    assertion: Value,
    claim: Value,
    here: Seq<char>,
    generation: ClaimGeneration,
    manifests: Seq<ParsedManifest>,
) -> bool {
    let alg = if reference.text_field("alg"@) is Some {
        reference.text_field("alg"@)
    } else if assertion.text_field("alg"@) is Some {
        assertion.text_field("alg"@)
    } else {
        claim.text_field("alg"@)
    };
    &&& reference.text_field("url"@) is Some
    &&& (kind == Kind::Either && !text::is_prefix(
        "self#jumbf="@,
        reference.text_field("url"@)->0,
    )) || (alg is Some && hash::algorithm_named(alg->0) is Some && bound_in_store(
        reference,
        alg->0,
        here,
        generation,
        manifests,
    ))
}

proof fn lemma_first_label(labels: Seq<Seq<char>>, label: Seq<char>, i: int)
    requires
        0 <= i,
    ensures
        match first_label(labels, label, i) {
            Some(k) => i <= k < labels.len() && labels[k] == label && forall|j: int|
                i <= j < k ==> #[trigger] labels[j] != label,
            None => forall|j: int| i <= j < labels.len() ==> #[trigger] labels[j] != label,
        },
    decreases labels.len() - i,
{
    if i < labels.len() && labels[i] != label {
        lemma_first_label(labels, label, i + 1);
    }
}

proof fn lemma_sole(labels: Seq<Seq<char>>, label: Seq<char>)
    ensures
        sole_label(labels, label) matches Some(k) ==> 0 <= k < labels.len() && labels[k] == label
            && forall|j: int| 0 <= j < labels.len() && j != k ==> #[trigger] labels[j] != label,
{
    lemma_first_label(labels, label, 0);
    if let Some(k) = first_label(labels, label, 0) {
        lemma_first_label(labels, label, k + 1);
    }
}

/// A located reference that adds no failure is bound.
pub proof fn unfaulted_references_are_bound(
    l: Location,
    label: Seq<char>,
    at: Seq<char>,
    generation: ClaimGeneration,
    here: Seq<char>,
    manifests: Seq<ParsedManifest>,
    assertion: Value,
    claim: Value,
    r: Results,
)
    requires
        after_location(
            l,
            label,
            at,
            generation,
            here,
            manifests,
            inherited_algorithm(assertion, claim),
            r,
        ).failure == r.failure,
    ensures
        nested_bound(l.value, l.kind, assertion, claim, here, generation, manifests),
{
    let after = after_location(
        l,
        label,
        at,
        generation,
        here,
        manifests,
        inherited_algorithm(assertion, claim),
        r,
    );
    assert(after.failure.len() == r.failure.len());
    let url = l.value.text_field("url"@)->0;
    if !(l.kind == Kind::Either && !text::is_prefix("self#jumbf="@, url)) {
        let (target, name) = target_labels(url, here)->0;
        lemma_target(url, here);
        let k = sole_label(manifest_labels(manifests), target)->0;
        lemma_sole(manifest_labels(manifests), target);
        let m = manifests[k];
        let boxes = m.assertion_jumbf@;
        lemma_sole(jumbf_labels(boxes), name);
        lemma_sole(assertion_labels(m.assertions@), name);
        let i = sole_label(jumbf_labels(boxes), name)->0;
        let alg = own_or(l.value, inherited_algorithm(assertion, claim))->0;
        assert(manifests[k].label@ == target);
        assert(boxes[i].label@ == name);
        assert forall|j: int| 0 <= j < manifests.len() && j != k implies (
        #[trigger] manifests[j]).label@ != target by {
            assert(manifest_labels(manifests)[j] == manifests[j].label@);
        }
        assert forall|j: int| 0 <= j < boxes.len() && j != i implies (#[trigger] boxes[j]).label@
            != name by {
            assert(jumbf_labels(boxes)[j] == boxes[j].label@);
        }
        if l.value.bytes_field("hash"@) != hash::named_digest(alg, boxes[i].content@) {
            let j = sole_label(assertion_labels(m.assertions@), name)->0;
            assert(m.assertions@[j].label@ == name);
        }
        assert(box_bound(l.value, alg, here, generation, manifests, k, i));
        let named = if l.value.text_field("alg"@) is Some {
            l.value.text_field("alg"@)
        } else if assertion.text_field("alg"@) is Some {
            assertion.text_field("alg"@)
        } else {
            claim.text_field("alg"@)
        };
        assert(named == Some(alg));
        assert(bound_in_store(l.value, alg, here, generation, manifests));
    }
}

proof fn lemma_target(url: Seq<char>, here: Seq<char>)
    requires
        target_labels(url, here) is Some,
    ensures
        ({
            let (target, name) = target_labels(url, here)->0;
            (target == here && url == "self#jumbf=c2pa.assertions/"@ + name) || url
                == "self#jumbf=/c2pa/"@ + (target + ("/c2pa.assertions/"@ + name))
        }),
{
    let a = "self#jumbf="@;
    let sep = "/c2pa.assertions/"@;
    let (target, name) = target_labels(url, here)->0;
    let rest = text::after_prefix(url, a)->0;
    text::stripping_undoes_joining(url, a, rest);
    reveal_strlit("self#jumbf=");
    reveal_strlit("/c2pa/");
    reveal_strlit("c2pa.assertions/");
    reveal_strlit("self#jumbf=c2pa.assertions/");
    reveal_strlit("self#jumbf=/c2pa/");
    assert("self#jumbf=/c2pa/"@ =~= "self#jumbf="@ + "/c2pa/"@);
    assert("self#jumbf=c2pa.assertions/"@ =~= "self#jumbf="@ + "c2pa.assertions/"@);
    match text::after_prefix(rest, "/c2pa/"@) {
        Some(absolute) => {
            text::stripping_undoes_joining(rest, "/c2pa/"@, absolute);
            text::splitting_takes_the_first_separator(absolute, sep);
            assert(url =~= "self#jumbf=/c2pa/"@ + (target + (sep + name)));
        },
        None => {
            text::stripping_undoes_joining(rest, "c2pa.assertions/"@, name);
            assert(url =~= "self#jumbf=c2pa.assertions/"@ + name);
        },
    }
}

/// `found` holds the value `x` of a field of the kind `kind`.
pub open spec fn holds(found: Seq<Location>, kind: Kind, x: Value) -> bool {
    exists|i: int| 0 <= i < found.len() && (#[trigger] found[i]).kind == kind && found[i].value == x
}

proof fn lemma_holds_sum(a: Seq<Location>, b: Seq<Location>, kind: Kind, x: Value)
    ensures
        holds(a, kind, x) ==> holds(a + b, kind, x),
        holds(b, kind, x) ==> holds(a + b, kind, x),
{
    if holds(a, kind, x) {
        let i = choose|i: int|
            0 <= i < a.len() && (#[trigger] a[i]).kind == kind && a[i].value == x;
        assert((a + b)[i] == a[i]);
    }
    if holds(b, kind, x) {
        let i = choose|i: int|
            0 <= i < b.len() && (#[trigger] b[i]).kind == kind && b[i].value == x;
        assert((a + b)[a.len() + i] == b[i]);
    }
}

/// What an item of an array leads to, the array leads to.
proof fn lemma_item_held(
    items: Seq<Value>,
    k: nat,
    kind: Kind,
    steps: Seq<PathStep>,
    depth: nat,
    path: Seq<char>,
    i: int,
    x: Value,
)
    requires
        0 <= i < k <= items.len(),
        steps.len() > 0,
        holds(
            reached(items[i], kind, steps.drop_first(), depth, item_path(path, i as nat)),
            kind,
            x,
        ),
    ensures
        holds(reached_in_items(items, k, kind, steps, depth, path), kind, x),
    decreases k,
{
    let before = reached_in_items(items, (k - 1) as nat, kind, steps, depth, path);
    let last = reached(
        items[k - 1],
        kind,
        steps.drop_first(),
        depth,
        item_path(path, (k - 1) as nat),
    );
    if i < k - 1 {
        lemma_item_held(items, (k - 1) as nat, kind, steps, depth, path, i, x);
    }
    lemma_holds_sum(before, last, kind, x);
}

/// What a related item leads to, the items it is related to lead to.
proof fn lemma_related_held(
    items: Seq<Value>,
    k: nat,
    kind: Kind,
    steps: Seq<PathStep>,
    depth: nat,
    path: Seq<char>,
    i: int,
    x: Value,
)
    requires
        0 <= i < k <= items.len(),
        depth < MAX_RELATED_DEPTH,
        holds(
            reached(items[i], kind, steps, depth + 1, related_path(path, i as nat)),
            kind,
            x,
        ),
    ensures
        holds(reached_in_related(items, k, kind, steps, depth, path), kind, x),
    decreases k,
{
    let before = reached_in_related(items, (k - 1) as nat, kind, steps, depth, path);
    let last = reached(items[k - 1], kind, steps, depth + 1, related_path(path, (k - 1) as nat));
    if i < k - 1 {
        lemma_related_held(items, (k - 1) as nat, kind, steps, depth, path, i, x);
    }
    lemma_holds_sum(before, last, kind, x);
}

/// The action item that stands at `j` of an actions assertion, or that the places
/// `ks` in `related` lists lead to from there.
pub open spec fn action_item(assertion: Value, j: int, ks: Seq<int>) -> Option<Value>
    decreases ks.len(),
{
    if ks.len() == 0 {
        match assertion.items_field("actions"@) {
            Some(items) => if 0 <= j < items.len() {
                Some(items[j])
            } else {
                None
            },
            None => None,
        }
    } else {
        match action_item(assertion, j, ks.drop_last()) {
            Some(item) => match item.items_field("related"@) {
                Some(items) => if 0 <= ks.last() < items.len() {
                    Some(items[ks.last()])
                } else {
                    None
                },
                None => None,
            },
            None => None,
        }
    }
}

/// Every path of field names that `rest` leads along from an action item ends
/// among what the whole assertion leads to.
proof fn lemma_action_item_held(
    assertion: Value,
    j: int,
    ks: Seq<int>,
    kind: Kind,
    rest: Seq<PathStep>,
    x: Value,
)
    requires
        ks.len() <= MAX_RELATED_DEPTH,
        action_item(assertion, j, ks) is Some,
        forall|path: Seq<char>| #[trigger]
            holds(
                reached(action_item(assertion, j, ks)->0, kind, rest, ks.len(), path),
                kind,
                x,
            ),
    ensures
        holds(reached(assertion, kind, in_action(rest), 0, Seq::empty()), kind, x),
{
    let steps = seq![PathStep::EachRelated] + rest;
    assert(steps.drop_first() =~= rest);
    let item = action_item(assertion, j, ks)->0;
    assert forall|path: Seq<char>| #[trigger]
        holds(reached(item, kind, steps, ks.len(), path), kind, x) by {
        let here = reached(item, kind, rest, ks.len(), path);
        assert(holds(here, kind, x));
        if ks.len() < MAX_RELATED_DEPTH {
            let items = array_items(item.field("related"@));
            lemma_holds_sum(
                here,
                reached_in_related(items, items.len(), kind, steps, ks.len(), path),
                kind,
                x,
            );
        }
    }
    lemma_chain(assertion, j, ks, kind, rest, steps, item, ks.len(), x);
}

proof fn lemma_chain(
    assertion: Value,
    j: int,
    ks: Seq<int>,
    kind: Kind,
    rest: Seq<PathStep>,
    steps: Seq<PathStep>,
    item: Value,
    depth: nat,
    x: Value,
)
    requires
        depth == ks.len(),
        depth <= MAX_RELATED_DEPTH,
        steps == seq![PathStep::EachRelated] + rest,
        action_item(assertion, j, ks) == Some(item),
        forall|path: Seq<char>| #[trigger]
            holds(reached(item, kind, steps, depth, path), kind, x),
    ensures
        holds(reached(assertion, kind, in_action(rest), 0, Seq::empty()), kind, x),
    decreases ks.len(),
{
    if ks.len() == 0 {
        let items = assertion.items_field("actions"@)->0;
        let list = assertion.field("actions"@)->0;
        let outer = in_action(rest);
        let inner = outer.drop_first();
        assert(inner[0] == PathStep::Each);
        assert(inner.drop_first() =~= steps);
        let path = field_path(Seq::empty(), "actions"@);
        assert(array_items(Some(list)) == items);
        assert(item == items[j]);
        assert(holds(reached(item, kind, steps, depth, item_path(path, j as nat)), kind, x));
        lemma_item_held(items, items.len(), kind, inner, 0, path, j, x);
        assert(reached(list, kind, inner, 0, path) == reached_in_items(
            items,
            items.len(),
            kind,
            inner,
            0,
            path,
        ));
        assert(outer[0] == PathStep::Field("actions"@));
        assert(reached(assertion, kind, outer, 0, Seq::empty()) == reached(
            list,
            kind,
            inner,
            0,
            path,
        ));
    } else {
        let before = ks.drop_last();
        let parent = action_item(assertion, j, before)->0;
        let items = parent.items_field("related"@)->0;
        let above = before.len();
        assert forall|path: Seq<char>| #[trigger]
            holds(reached(parent, kind, steps, above, path), kind, x) by {
            let k = ks.last();
            assert(array_items(parent.field("related"@)) == items);
            assert(item == items[k]);
            assert(holds(
                reached(item, kind, steps, depth, related_path(path, k as nat)),
                kind,
                x,
            ));
            assert(depth == above + 1);
            lemma_related_held(items, items.len(), kind, steps, above, path, k, x);
            lemma_holds_sum(
                reached(parent, kind, steps.drop_first(), above, path),
                reached_in_related(items, items.len(), kind, steps, above, path),
                kind,
                x,
            );
        }
        lemma_chain(assertion, j, before, kind, rest, steps, parent, above, x);
    }
}

/// Where the ceiling was not reached, everything that a declared field leads to
/// was gathered.
proof fn lemma_gathered(
    assertion: Value,
    fields: Seq<FieldPath>,
    j: int,
    examined: nat,
    out: Seq<Location>,
    f: int,
    kind: Kind,
    x: Value,
)
    requires
        0 <= j,
        !gathered(assertion, fields, j, examined, out).0,
        holds(out, kind, x) || (j <= f < fields.len() && kind == fields[f].kind && holds(
            reached(assertion, fields[f].kind, fields[f].path, 0, Seq::empty()),
            kind,
            x,
        )),
    ensures
        holds(gathered(assertion, fields, j, examined, out).1, kind, x),
    decreases fields.len() - j,
{
    if j < fields.len() {
        let limit = remaining(examined);
        let more = reached(assertion, fields[j].kind, fields[j].path, 0, Seq::empty());
        let next = filled(out, more, limit);
        lemma_holds_sum(out, more, kind, x);
        assert(next == out + more);
        lemma_gathered(assertion, fields, j + 1, examined, next, f, kind, x);
    }
}

proof fn lemma_locations_bound(
    found: Seq<Location>,
    k: int,
    label: Seq<char>,
    at: Seq<char>,
    generation: ClaimGeneration,
    here: Seq<char>,
    manifests: Seq<ParsedManifest>,
    assertion: Value,
    claim: Value,
    r: Results,
)
    requires
        0 <= k <= found.len(),
    ensures
        ({
            let after = after_locations(
                found,
                k,
                label,
                at,
                generation,
                here,
                manifests,
                inherited_algorithm(assertion, claim),
                r,
            );
            &&& after.failure.len() >= r.failure.len()
            &&& after.failure.len() == r.failure.len() ==> after.failure == r.failure && forall|
                i: int,
            |
                0 <= i < k ==> nested_bound(
                    (#[trigger] found[i]).value,
                    found[i].kind,
                    assertion,
                    claim,
                    here,
                    generation,
                    manifests,
                )
        }),
    decreases k,
{
    if k > 0 {
        lemma_locations_bound(
            found,
            k - 1,
            label,
            at,
            generation,
            here,
            manifests,
            assertion,
            claim,
            r,
        );
        let before = after_locations(
            found,
            k - 1,
            label,
            at,
            generation,
            here,
            manifests,
            inherited_algorithm(assertion, claim),
            r,
        );
        let after = after_locations(
            found,
            k,
            label,
            at,
            generation,
            here,
            manifests,
            inherited_algorithm(assertion, claim),
            r,
        );
        if after.failure.len() == r.failure.len() {
            assert(after.failure == before.failure);
            unfaulted_references_are_bound(
                found[k - 1],
                label,
                at,
                generation,
                here,
                manifests,
                assertion,
                claim,
                before,
            );
        }
    }
}

proof fn lemma_walk_bound(
    claim: Value,
    refs: Refs,
    i: int,
    seen: Seq<Seq<char>>,
    examined: nat,
    generation: ClaimGeneration,
    here: Seq<char>,
    manifests: Seq<ParsedManifest>,
    r: Results,
    at: int,
    f: int,
    x: Value,
)
    requires
        0 <= i <= refs.references.len(),
    ensures
        ({
            let after = walk_from(
                claim,
                refs,
                i,
                seen,
                examined,
                generation,
                here,
                manifests,
                r,
            );
            let label = refs.references[at].label->0;
            let fields = declared_fields(label);
            &&& after.failure.len() >= r.failure.len()
            &&& after.failure.len() == r.failure.len() && i <= at < refs.references.len()
                && refs.references[at].label is Some && !seen.contains(label) && refs.decoded(label)
                is Some && 0 <= f < fields.len() && holds(
                reached(refs.decoded(label)->0, fields[f].kind, fields[f].path, 0, Seq::empty()),
                fields[f].kind,
                x,
            ) ==> nested_bound(
                x,
                fields[f].kind,
                refs.decoded(label)->0,
                claim,
                here,
                generation,
                manifests,
            )
        }),
    decreases refs.references.len() - i,
{
    if i < refs.references.len() {
        match refs.references[i].label {
            None => {
                lemma_walk_bound(
                    claim,
                    refs,
                    i + 1,
                    seen,
                    examined,
                    generation,
                    here,
                    manifests,
                    r,
                    at,
                    f,
                    x,
                );
            },
            Some(label) => {
                let fields = declared_fields(label);
                let wanted = refs.references[at].label->0;
                assert(seen.push(label).contains(wanted) ==> seen.contains(wanted) || wanted
                    == label) by {
                    if seen.push(label).contains(wanted) {
                        let j = choose|j: int|
                            0 <= j < seen.push(label).len() && seen.push(label)[j] == wanted;
                        if j < seen.len() {
                            assert(seen[j] == wanted);
                        }
                    }
                }
                if seen.contains(label) {
                    lemma_walk_bound(
                        claim,
                        refs,
                        i + 1,
                        seen,
                        examined,
                        generation,
                        here,
                        manifests,
                        r,
                        at,
                        f,
                        x,
                    );
                } else if fields.len() == 0 || refs.decoded(label) is None {
                    lemma_walk_bound(
                        claim,
                        refs,
                        i + 1,
                        seen.push(label),
                        examined,
                        generation,
                        here,
                        manifests,
                        r,
                        at,
                        f,
                        x,
                    );
                } else {
                    let assertion = refs.decoded(label)->0;
                    let url = structure::assertion_url(here, label);
                    let (capped, found) = gathered(assertion, fields, 0, examined, Seq::empty());
                    let n = found.len() as int;
                    lemma_locations_bound(
                        found,
                        n,
                        label,
                        url,
                        generation,
                        here,
                        manifests,
                        assertion,
                        claim,
                        r,
                    );
                    let mid = after_locations(
                        found,
                        n,
                        label,
                        url,
                        generation,
                        here,
                        manifests,
                        inherited_algorithm(assertion, claim),
                        r,
                    );
                    if !capped {
                        lemma_walk_bound(
                            claim,
                            refs,
                            i + 1,
                            seen.push(label),
                            examined + found.len(),
                            generation,
                            here,
                            manifests,
                            mid,
                            at,
                            f,
                            x,
                        );
                        if wanted == label && refs.references[at].label is Some && 0 <= f
                            < fields.len() && holds(
                            reached(
                                assertion,
                                fields[f].kind,
                                fields[f].path,
                                0,
                                Seq::empty(),
                            ),
                            fields[f].kind,
                            x,
                        ) {
                            lemma_gathered(
                                assertion,
                                fields,
                                0,
                                examined,
                                Seq::empty(),
                                f,
                                fields[f].kind,
                                x,
                            );
                            let t = choose|t: int|
                                0 <= t < found.len() && (#[trigger] found[t]).kind
                                    == fields[f].kind && found[t].value == x;
                            assert(found[t].value == x);
                        }
                    }
                }
            },
        }
    }
}

proof fn lemma_field_bound(
    claim: Value,
    refs: Refs,
    generation: ClaimGeneration,
    here: Seq<char>,
    manifests: Seq<ParsedManifest>,
    r: Results,
    at: int,
    f: int,
    x: Value,
)
    requires
        walk_from(
            claim,
            refs,
            0,
            Seq::empty(),
            0,
            generation,
            here,
            manifests,
            r,
        ).failure == r.failure,
        0 <= at < refs.references.len(),
        refs.references[at].label is Some,
        refs.decoded(refs.references[at].label->0) is Some,
        ({
            let label = refs.references[at].label->0;
            let fields = declared_fields(label);
            &&& 0 <= f < fields.len()
            &&& holds(
                reached(refs.decoded(label)->0, fields[f].kind, fields[f].path, 0, Seq::empty()),
                fields[f].kind,
                x,
            )
        }),
    ensures
        nested_bound(
            x,
            declared_fields(refs.references[at].label->0)[f].kind,
            refs.decoded(refs.references[at].label->0)->0,
            claim,
            here,
            generation,
            manifests,
        ),
{
    lemma_walk_bound(
        claim,
        refs,
        0,
        Seq::empty(),
        0,
        generation,
        here,
        manifests,
        r,
        at,
        f,
        x,
    );
}

proof fn lemma_plain_field(v: Value, kind: Kind, name: Seq<char>, x: Value)
    requires
        v.field(name) == Some(x),
    ensures
        holds(reached(v, kind, seq![PathStep::Field(name)], 0, Seq::empty()), kind, x),
{
    let steps = seq![PathStep::Field(name)];
    let path = field_path(Seq::empty(), name);
    let found = reached(v, kind, steps, 0, Seq::empty());
    assert(steps.drop_first().len() == 0);
    assert(found == reached(x, kind, steps.drop_first(), 0, path));
    assert(found[0].value == x && found[0].kind == kind);
}

/// Where the nested references of a claim add no failure, the thumbnail of every
/// decoded ingredient assertion that the claim references is bound; so is the
/// data of one of the later revisions, unless it lies outside the store. Numbered
/// instances are held to it like the plain label.
pub proof fn ingredient_references_are_bound(
    claim: Value,
    refs: Refs,
    generation: ClaimGeneration,
    here: Seq<char>,
    manifests: Seq<ParsedManifest>,
    r: Results,
    at: int,
    label: Seq<char>,
    x: Value,
)
    requires
        walk_from(
            claim,
            refs,
            0,
            Seq::empty(),
            0,
            generation,
            here,
            manifests,
            r,
        ).failure == r.failure,
        0 <= at < refs.references.len(),
        refs.references[at].label == Some(label),
        refs.decoded(label) is Some,
    ensures
        (redaction::base_of(label) == "c2pa.ingredient"@ || redaction::base_of(label)
            == "c2pa.ingredient.v2"@ || redaction::base_of(label) == "c2pa.ingredient.v3"@)
            && refs.decoded(label)->0.field("thumbnail"@) == Some(x) ==> nested_bound(
            x,
            Kind::Internal,
            refs.decoded(label)->0,
            claim,
            here,
            generation,
            manifests,
        ),
        (redaction::base_of(label) == "c2pa.ingredient.v2"@ || redaction::base_of(label)
            == "c2pa.ingredient.v3"@) && refs.decoded(label)->0.field("data"@) == Some(x)
            ==> nested_bound(
            x,
            Kind::Either,
            refs.decoded(label)->0,
            claim,
            here,
            generation,
            manifests,
        ),
{
    let v = refs.decoded(label)->0;
    let base = redaction::base_of(label);
    reveal_strlit("c2pa.ingredient");
    reveal_strlit("c2pa.ingredient.v2");
    reveal_strlit("c2pa.ingredient.v3");
    assert("c2pa.ingredient"@.len() != "c2pa.ingredient.v2"@.len());
    assert("c2pa.ingredient"@.len() != "c2pa.ingredient.v3"@.len());
    if (base == "c2pa.ingredient"@ || base == "c2pa.ingredient.v2"@ || base
        == "c2pa.ingredient.v3"@) && v.field("thumbnail"@) == Some(x) {
        assert(declared_fields(label)[0] == thumbnail_field());
        lemma_plain_field(v, Kind::Internal, "thumbnail"@, x);
        lemma_field_bound(claim, refs, generation, here, manifests, r, at, 0, x);
    }
    if (base == "c2pa.ingredient.v2"@ || base == "c2pa.ingredient.v3"@) && v.field("data"@) == Some(
        x,
    ) {
        assert(declared_fields(label)[1] == data_field());
        lemma_plain_field(v, Kind::Either, "data"@, x);
        lemma_field_bound(claim, refs, generation, here, manifests, r, at, 1, x);
    }
}

/// Two field names in a row, the second perhaps the name of a list whose item is
/// taken, lead from an action item to the value that stands there.
proof fn lemma_item_field(
    item: Value,
    kind: Kind,
    a: Seq<char>,
    b: Seq<char>,
    pair: Seq<PathStep>,
    triple: Seq<PathStep>,
    depth: nat,
    x: Value,
    k: int,
)
    requires
        item.field(a) is Some,
        pair == seq![PathStep::Field(a), PathStep::Field(b)],
        triple == seq![PathStep::Field(a), PathStep::Field(b), PathStep::Each],
    ensures
        item.field(a)->0.field(b) == Some(x) ==> forall|path: Seq<char>| #[trigger]
            holds(reached(item, kind, pair, depth, path), kind, x),
        item.field(a)->0.items_field(b) is Some && 0 <= k < item.field(a)->0.items_field(
            b,
        )->0.len() && item.field(a)->0.items_field(b)->0[k] == x ==> forall|path: Seq<char>|
            #[trigger]
            holds(reached(item, kind, triple, depth, path), kind, x),
{
    let v = item.field(a)->0;
    if v.field(b) == Some(x) {
        let steps = pair;
        assert forall|path: Seq<char>| #[trigger]
            holds(reached(item, kind, steps, depth, path), kind, x) by {
            let p1 = field_path(path, a);
            let p2 = field_path(p1, b);
            assert(steps.drop_first()[0] == PathStep::Field(b));
            assert(steps.drop_first().drop_first().len() == 0);
            let found = reached(item, kind, steps, depth, path);
            assert(found == reached(v, kind, steps.drop_first(), depth, p1));
            assert(found == reached(x, kind, steps.drop_first().drop_first(), depth, p2));
            assert(found[0].value == x && found[0].kind == kind);
        }
    }
    if v.items_field(b) is Some && 0 <= k < v.items_field(b)->0.len() && v.items_field(b)->0[k]
        == x {
        let steps = triple;
        let items = v.items_field(b)->0;
        let list = v.field(b)->0;
        assert forall|path: Seq<char>| #[trigger]
            holds(reached(item, kind, steps, depth, path), kind, x) by {
            let p1 = field_path(path, a);
            let p2 = field_path(p1, b);
            let rest = steps.drop_first().drop_first();
            assert(steps.drop_first()[0] == PathStep::Field(b));
            assert(rest[0] == PathStep::Each);
            assert(rest.drop_first().len() == 0);
            let found = reached(item, kind, steps, depth, path);
            assert(found == reached(v, kind, steps.drop_first(), depth, p1));
            assert(found == reached(list, kind, rest, depth, p2));
            assert(array_items(Some(list)) == items);
            let last = reached(x, kind, rest.drop_first(), depth, item_path(p2, k as nat));
            assert(last[0].value == x && last[0].kind == kind);
            assert(holds(last, kind, x));
            lemma_item_held(items, items.len(), kind, rest, depth, p2, k, x);
        }
    }
}

proof fn lemma_listed_field(v: Value, kind: Kind, a: Seq<char>, k: int, b: Seq<char>, x: Value)
    requires
        v.items_field(a) is Some,
        0 <= k < v.items_field(a)->0.len(),
        v.items_field(a)->0[k].field(b) == Some(x),
    ensures
        holds(
            reached(
                v,
                kind,
                seq![PathStep::Field(a), PathStep::Each, PathStep::Field(b)],
                0,
                Seq::empty(),
            ),
            kind,
            x,
        ),
{
    let steps = seq![PathStep::Field(a), PathStep::Each, PathStep::Field(b)];
    let items = v.items_field(a)->0;
    let list = v.field(a)->0;
    let path = field_path(Seq::empty(), a);
    let rest = steps.drop_first();
    assert(rest[0] == PathStep::Each);
    assert(rest.drop_first()[0] == PathStep::Field(b));
    assert(rest.drop_first().drop_first().len() == 0);
    let p2 = item_path(path, k as nat);
    let last = reached(items[k], kind, rest.drop_first(), 0, p2);
    assert(last == reached(x, kind, rest.drop_first().drop_first(), 0, field_path(p2, b)));
    assert(last[0].value == x && last[0].kind == kind);
    assert(holds(last, kind, x));
    lemma_item_held(items, items.len(), kind, rest, 0, path, k, x);
    assert(array_items(Some(list)) == items);
    assert(reached(v, kind, steps, 0, Seq::empty()) == reached(list, kind, rest, 0, path));
}

/// Where the nested references of a claim add no failure, every reference in the
/// action items of every decoded actions assertion that the claim references is
/// bound: the ingredient, each of the ingredients and each of the related
/// assertions in the parameters of an item, and the icon of its software agent,
/// unless that icon lies outside the store. The items are those of the list and
/// those that `related` lists lead to from there, down to the depth limit.
pub proof fn action_references_are_bound(
    claim: Value,
    refs: Refs,
    generation: ClaimGeneration,
    here: Seq<char>,
    manifests: Seq<ParsedManifest>,
    r: Results,
    at: int,
    label: Seq<char>,
    j: int,
    ks: Seq<int>,
    k: int,
    x: Value,
)
    requires
        walk_from(
            claim,
            refs,
            0,
            Seq::empty(),
            0,
            generation,
            here,
            manifests,
            r,
        ).failure == r.failure,
        0 <= at < refs.references.len(),
        refs.references[at].label == Some(label),
        redaction::base_of(label) == "c2pa.actions"@ || redaction::base_of(label)
            == "c2pa.actions.v2"@,
        refs.decoded(label) is Some,
        ks.len() <= MAX_RELATED_DEPTH,
        action_item(refs.decoded(label)->0, j, ks) is Some,
    ensures
        ({
            let v = refs.decoded(label)->0;
            let item = action_item(v, j, ks)->0;
            let parameters = item.field("parameters"@);
            let agent = item.field("softwareAgent"@);
            let inside = nested_bound(
                x,
                Kind::Internal,
                v,
                claim,
                here,
                generation,
                manifests,
            );
            &&& parameters is Some && parameters->0.field("ingredient"@) == Some(x) ==> inside
            &&& parameters is Some && parameters->0.items_field("ingredients"@) is Some && 0 <= k
                < parameters->0.items_field("ingredients"@)->0.len()
                && parameters->0.items_field("ingredients"@)->0[k] == x ==> inside
            &&& parameters is Some && parameters->0.items_field("relatedAssertions"@) is Some && 0
                <= k < parameters->0.items_field("relatedAssertions"@)->0.len()
                && parameters->0.items_field("relatedAssertions"@)->0[k] == x ==> inside
            &&& agent is Some && agent->0.field("icon"@) == Some(x) ==> nested_bound(
                x,
                Kind::Either,
                v,
                claim,
                here,
                generation,
                manifests,
            )
        }),
{
    let v = refs.decoded(label)->0;
    let item = action_item(v, j, ks)->0;
    let depth = ks.len();
    lemma_action_labels(label);
    let fields = action_fields();
    assert(declared_fields(label) == fields);
    if let Some(parameters) = item.field("parameters"@) {
        let p = "parameters"@;
        if parameters.field("ingredient"@) == Some(x) {
            let rest = seq![PathStep::Field(p), PathStep::Field("ingredient"@)];
            let other = seq![PathStep::Field(p), PathStep::Field("ingredient"@), PathStep::Each];
            lemma_item_field(item, Kind::Internal, p, "ingredient"@, rest, other, depth, x, k);
            lemma_action_item_held(v, j, ks, Kind::Internal, rest, x);
            assert(fields[0].path == in_action(rest));
            lemma_field_bound(claim, refs, generation, here, manifests, r, at, 0, x);
        }
        if parameters.items_field("ingredients"@) is Some && 0 <= k < parameters.items_field(
            "ingredients"@,
        )->0.len() && parameters.items_field("ingredients"@)->0[k] == x {
            let rest = seq![PathStep::Field(p), PathStep::Field("ingredients"@), PathStep::Each];
            let other = seq![PathStep::Field(p), PathStep::Field("ingredients"@)];
            lemma_item_field(item, Kind::Internal, p, "ingredients"@, other, rest, depth, x, k);
            lemma_action_item_held(v, j, ks, Kind::Internal, rest, x);
            assert(fields[1].path == in_action(rest));
            lemma_field_bound(claim, refs, generation, here, manifests, r, at, 1, x);
        }
        if parameters.items_field("relatedAssertions"@) is Some && 0 <= k < parameters.items_field(
            "relatedAssertions"@,
        )->0.len() && parameters.items_field("relatedAssertions"@)->0[k] == x {
            let rest = seq![
                PathStep::Field(p),
                PathStep::Field("relatedAssertions"@),
                PathStep::Each,
            ];
            let other = seq![PathStep::Field(p), PathStep::Field("relatedAssertions"@)];
            lemma_item_field(
                item,
                Kind::Internal,
                p,
                "relatedAssertions"@,
                other,
                rest,
                depth,
                x,
                k,
            );
            lemma_action_item_held(v, j, ks, Kind::Internal, rest, x);
            assert(fields[2].path == in_action(rest));
            lemma_field_bound(claim, refs, generation, here, manifests, r, at, 2, x);
        }
    }
    if let Some(agent) = item.field("softwareAgent"@) {
        if agent.field("icon"@) == Some(x) {
            let rest = seq![PathStep::Field("softwareAgent"@), PathStep::Field("icon"@)];
            let other = seq![
                PathStep::Field("softwareAgent"@),
                PathStep::Field("icon"@),
                PathStep::Each,
            ];
            lemma_item_field(
                item,
                Kind::Either,
                "softwareAgent"@,
                "icon"@,
                rest,
                other,
                depth,
                x,
                k,
            );
            lemma_action_item_held(v, j, ks, Kind::Either, rest, x);
            assert(fields[3].path == in_action(rest));
            lemma_field_bound(claim, refs, generation, here, manifests, r, at, 3, x);
        }
    }
}

proof fn lemma_action_labels(label: Seq<char>)
    requires
        redaction::base_of(label) == "c2pa.actions"@ || redaction::base_of(label)
            == "c2pa.actions.v2"@,
    ensures
        declared_fields(label) == action_fields(),
{
    reveal_strlit("c2pa.ingredient");
    reveal_strlit("c2pa.ingredient.v2");
    reveal_strlit("c2pa.ingredient.v3");
    reveal_strlit("c2pa.actions");
    reveal_strlit("c2pa.actions.v2");
    assert("c2pa.actions"@[5] == 'a');
    assert("c2pa.actions.v2"@[5] == 'a');
    assert("c2pa.ingredient"@[5] == 'i');
    assert("c2pa.ingredient.v2"@[5] == 'i');
    assert("c2pa.ingredient.v3"@[5] == 'i');
}

/// Where the nested references of a claim add no failure, the icon of every
/// software agent that an actions assertion lists is bound, unless it lies
/// outside the store, and the icon of every template that it lists is bound.
pub proof fn listed_icons_are_bound(
    claim: Value,
    refs: Refs,
    generation: ClaimGeneration,
    here: Seq<char>,
    manifests: Seq<ParsedManifest>,
    r: Results,
    at: int,
    label: Seq<char>,
    k: int,
    x: Value,
)
    requires
        walk_from(
            claim,
            refs,
            0,
            Seq::empty(),
            0,
            generation,
            here,
            manifests,
            r,
        ).failure == r.failure,
        0 <= at < refs.references.len(),
        refs.references[at].label == Some(label),
        redaction::base_of(label) == "c2pa.actions"@ || redaction::base_of(label)
            == "c2pa.actions.v2"@,
        refs.decoded(label) is Some,
    ensures
        ({
            let v = refs.decoded(label)->0;
            let agents = v.items_field("softwareAgents"@);
            let templates = v.items_field("templates"@);
            &&& agents is Some && 0 <= k < agents->0.len() && agents->0[k].field("icon"@) == Some(x)
                ==> nested_bound(x, Kind::Either, v, claim, here, generation, manifests)
            &&& templates is Some && 0 <= k < templates->0.len() && templates->0[k].field("icon"@)
                == Some(x) ==> nested_bound(
                x,
                Kind::Internal,
                v,
                claim,
                here,
                generation,
                manifests,
            )
        }),
{
    let v = refs.decoded(label)->0;
    let agents = v.items_field("softwareAgents"@);
    let templates = v.items_field("templates"@);
    lemma_action_labels(label);
    let fields = action_fields();
    if agents is Some && 0 <= k < agents->0.len() && agents->0[k].field("icon"@) == Some(x) {
        lemma_listed_field(v, Kind::Either, "softwareAgents"@, k, "icon"@, x);
        assert(fields[4].kind == Kind::Either);
        lemma_field_bound(claim, refs, generation, here, manifests, r, at, 4, x);
    }
    if templates is Some && 0 <= k < templates->0.len() && templates->0[k].field("icon"@) == Some(
        x,
    ) {
        lemma_listed_field(v, Kind::Internal, "templates"@, k, "icon"@, x);
        assert(fields[5].kind == Kind::Internal);
        lemma_field_bound(claim, refs, generation, here, manifests, r, at, 5, x);
    }
}

} // verus!
