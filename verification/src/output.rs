//! The output of a verification: its state, its results and the reader report.
use vstd::prelude::*;
use crate::claim_refs::str_among;
use crate::hash;
use crate::hash::HashAlgorithm;
use crate::json;
use crate::json::{object1, object2, object3, Doc, Json};
use crate::manifest::{AssertionBox, ParsedManifest, Payload};
use crate::network_needs;
use crate::network_needs::{Need, NetworkNeed};
use crate::profile;
use crate::profile::{is_generous, ComplianceLevel, EngineProfile, OperatingMode};
use crate::report;
use crate::report::cbor_to_json;
use crate::status;
use crate::status::{
    Results, Status, StatusCode, ValidationResults,
    ASSERTION_DATA_HASH_ADDITIONAL_EXCLUSIONS_PRESENT, CLAIM_MISSING, CONFORMANCE_OUT_OF_SCOPE,
};
use crate::text;
use crate::text::{join3, str_eq};
use crate::value;
use crate::value::Value;
use crate::verdict;
use crate::verdict::{
    compute_state, is_integrity_broken, provenance_verdict_json, ValidationState,
};

verus! {

/// One decoder allowance spans the active manifest and every ingredient parent.
pub const MAX_REPORT_DECODED_VALUE_NODES: usize = 1_048_576;

// ---------------------------------------------------------------------------
// Statuses
// ---------------------------------------------------------------------------

/// One status as JSON.
pub open spec fn status_doc(s: Status) -> Doc {
    let members = seq![
        ("code"@, Doc::Text(s.code)),
        ("explanation"@, Doc::Text(s.explanation)),
        ("url"@, Doc::Text(s.url)),
    ];
    match s.details {
        Some(d) => Doc::Object(json::with_member(members, "details"@, d)),
        None => Doc::Object(members),
    }
}

/// Statuses as a JSON array.
pub open spec fn status_docs(s: Seq<Status>) -> Seq<Doc> {
    s.map_values(|x: Status| status_doc(x))
}

/// The `validation_results` object.
pub open spec fn results_doc(r: Results) -> Doc {
    Doc::Object(
        seq![
            (
                "activeManifest"@,
                Doc::Object(
                    seq![
                        ("success"@, Doc::Array(status_docs(r.success))),
                        ("informational"@, Doc::Array(status_docs(r.informational))),
                        ("failure"@, Doc::Array(status_docs(r.failure))),
                    ],
                ),
            ),
        ],
    )
}

fn status_json(s: &StatusCode) -> (r: Json)
    ensures
        json::doc(r) == status_doc(s@),
{
    let mut out = object3(
        ("code", Json::text(s.code.as_str())),
        ("explanation", Json::text(s.explanation.as_str())),
        ("url", Json::text(s.url.as_str())),
    );
    if let Some(details) = &s.details {
        out.insert("details", details.copy());
    }
    out
}

/// Serialize status codes for the reader report.
pub fn status_array(codes: &Vec<StatusCode>) -> (r: Json)
    ensures
        json::doc(r) == Doc::Array(status_docs(status::statuses(codes@))),
{
    let ghost all = status_docs(status::statuses(codes@));
    let mut items: Vec<Json> = Vec::new();
    let mut i: usize = 0;
    while i < codes.len()
        invariant
            i <= codes.len(),
            all == status_docs(status::statuses(codes@)),
            json::docs(items@) =~= all.take(i as int),
        decreases codes.len() - i,
    {
        let item = status_json(&codes[i]);
        let ghost before = items@;
        items.push(item);
        assert(json::docs(items@) =~= json::docs(before).push(json::doc(item)));
        assert(all.take(i + 1) =~= all.take(i as int).push(all[i as int]));
        i += 1;
    }
    assert(all.take(i as int) =~= all);
    Json::array(items)
}

/// Build the `validation_results.activeManifest` object.
pub fn validation_results_json(results: &ValidationResults) -> (r: Json)
    ensures
        json::doc(r) == results_doc(results@),
{
    object1(
        (
            "activeManifest",
            object3(
                ("success", status_array(&results.success)),
                ("informational", status_array(&results.informational)),
                ("failure", status_array(&results.failure)),
            ),
        ),
    )
}

// ---------------------------------------------------------------------------
// Manifest entries
// ---------------------------------------------------------------------------

/// What the signature and its leaf certificate say of the signer.
#[derive(Debug)]
pub struct SignatureInfo {
    pub alg: Option<String>,
    pub common_name: Option<String>,
    pub issuer: Option<String>,
    pub cert_serial_number: Option<String>,
}

/// What decoding a payload within a node allowance comes to.
pub enum Decoded<'a> {
    Item(&'a Value),
    OverBudget,
    Malformed,
}

/// Decoding within an allowance of `left` nodes, as the contracts see it.
pub enum Decoding {
    Item(Value),
    OverBudget,
    Malformed,
}

pub open spec fn decoding(p: Payload, left: nat) -> Decoding {
    if p.nodes > left {
        Decoding::OverBudget
    } else {
        match p.value {
            Some(v) => Decoding::Item(v),
            None => Decoding::Malformed,
        }
    }
}

/// What is left of the allowance afterwards.
pub open spec fn left_after(p: Payload, left: nat) -> nat {
    if p.nodes > left {
        0
    } else {
        (left - p.nodes) as nat
    }
}

impl<'a> View for Decoded<'a> {
    type V = Decoding;

    open spec fn view(&self) -> Decoding {
        match self {
            Decoded::Item(v) => Decoding::Item(**v),
            Decoded::OverBudget => Decoding::OverBudget,
            Decoded::Malformed => Decoding::Malformed,
        }
    }
}

fn decode_within<'a>(p: &'a Payload, left: &mut usize) -> (r: Decoded<'a>)
    ensures
        r@ == decoding(*p, *old(left) as nat),
        *final(left) == left_after(*p, *old(left) as nat),
{
    if p.nodes > *left {
        *left = 0;
        return Decoded::OverBudget;
    }
    *left = *left - p.nodes;
    match &p.value {
        Some(v) => Decoded::Item(v),
        None => Decoded::Malformed,
    }
}

/// The data of one assertion.
pub open spec fn assertion_data(p: Payload, left: nat) -> Doc {
    match decoding(p, left) {
        Decoding::Item(v) => report::json_of(v),
        Decoding::OverBudget => Doc::Object(
            seq![
                (
                    "_encypher_omitted"@,
                    Doc::Text("decoded assertion report node budget exceeded"@),
                ),
            ],
        ),
        Decoding::Malformed => Doc::Object(Seq::empty()),
    }
}

/// The claim declares the assertion, where declarations are known.
pub open spec fn reported(declared: Option<Seq<Seq<char>>>, label: Seq<char>) -> bool {
    match declared {
        Some(labels) => labels.contains(label),
        None => true,
    }
}

/// What is left of the allowance after the first `k` assertions.
pub open spec fn left_after_assertions(
    boxes: Seq<AssertionBox>,
    k: int,
    declared: Option<Seq<Seq<char>>>,
    left: nat,
) -> nat
    decreases k,
{
    if k <= 0 {
        left
    } else {
        let before = left_after_assertions(boxes, k - 1, declared, left);
        if reported(declared, boxes[k - 1].label@) {
            left_after(boxes[k - 1].payload, before)
        } else {
            before
        }
    }
}

/// The first `k` assertions as JSON.
pub open spec fn assertion_docs(
    boxes: Seq<AssertionBox>,
    k: int,
    declared: Option<Seq<Seq<char>>>,
    left: nat,
) -> Seq<Doc>
    decreases k,
{
    if k <= 0 {
        Seq::empty()
    } else {
        let before = assertion_docs(boxes, k - 1, declared, left);
        if reported(declared, boxes[k - 1].label@) {
            before.push(
                Doc::Object(
                    seq![
                        ("label"@, Doc::Text(boxes[k - 1].label@)),
                        (
                            "data"@,
                            assertion_data(
                                boxes[k - 1].payload,
                                left_after_assertions(boxes, k - 1, declared, left),
                            ),
                        ),
                    ],
                ),
            )
        } else {
            before
        }
    }
}

/// `members` with a text under `key`, where there is one.
pub open spec fn with_text(members: Seq<(Seq<char>, Doc)>, key: Seq<char>, t: Option<String>) -> Seq<
    (Seq<char>, Doc),
> {
    match t {
        Some(t) => json::with_member(members, key, Doc::Text(t@)),
        None => members,
    }
}

/// What is reported of the signer.
pub open spec fn signature_doc(info: Option<SignatureInfo>) -> Doc {
    match info {
        Some(i) => Doc::Object(
            with_text(
                with_text(
                    with_text(with_text(Seq::empty(), "alg"@, i.alg), "common_name"@, i.common_name),
                    "issuer"@,
                    i.issuer,
                ),
                "cert_serial_number"@,
                i.cert_serial_number,
            ),
        ),
        None => Doc::Object(Seq::empty()),
    }
}

/// The text under `key` of a claim; empty where there is none.
pub open spec fn claim_text(claim: Option<Value>, key: Seq<char>) -> Seq<char> {
    match claim {
        Some(c) => match c.text_field(key) {
            Some(t) => t,
            None => Seq::empty(),
        },
        None => Seq::empty(),
    }
}

/// What is reported of the claim generator.
pub open spec fn generator_doc(claim: Option<Value>, exhausted: bool) -> Doc {
    if exhausted {
        Doc::Array(
            seq![
                Doc::Object(
                    seq![
                        (
                            "_encypher_omitted"@,
                            Doc::Text("decoded claim report node budget exceeded"@),
                        ),
                    ],
                ),
            ],
        )
    } else {
        match claim {
            Some(c) => match c.field("claim_generator_info"@) {
                Some(v) => report::json_of(v),
                None => Doc::Array(Seq::empty()),
            },
            None => Doc::Array(Seq::empty()),
        }
    }
}

/// One manifest of the report.
pub open spec fn entry_doc(
    m: ParsedManifest,
    claim: Option<Value>,
    exhausted: bool,
    declared: Option<Seq<Seq<char>>>,
    info: Option<SignatureInfo>,
    left: nat,
) -> Doc {
    Doc::Object(
        seq![
            ("claim_generator_info"@, generator_doc(claim, exhausted)),
            ("title"@, Doc::Text(claim_text(claim, "dc:title"@))),
            ("instance_id"@, Doc::Text(claim_text(claim, "instanceID"@))),
            (
                "assertions"@,
                Doc::Array(
                    assertion_docs(m.assertions@, m.assertions@.len() as int, declared, left),
                ),
            ),
            ("signature_info"@, signature_doc(info)),
            ("claim_version"@, Doc::Integer(2)),
        ],
    )
}

/// What is left of the allowance after one manifest.
pub open spec fn left_after_entry(
    m: ParsedManifest,
    declared: Option<Seq<Seq<char>>>,
    left: nat,
) -> nat {
    left_after_assertions(m.assertions@, m.assertions@.len() as int, declared, left)
}

pub open spec fn labels_opt(declared: Option<&Vec<&str>>) -> Option<Seq<Seq<char>>> {
    match declared {
        Some(v) => Some(text::views(v@)),
        None => None,
    }
}

fn omitted(why: &str) -> (r: Json)
    ensures
        json::doc(r) == Doc::Object(seq![("_encypher_omitted"@, Doc::Text(why@))]),
{
    object1(("_encypher_omitted", Json::text(why)))
}

fn assertions_json(
    boxes: &Vec<AssertionBox>,
    declared: Option<&Vec<&str>>,
    left: &mut usize,
) -> (r: Json)
    ensures
        json::doc(r) == Doc::Array(
            assertion_docs(
                boxes@,
                boxes@.len() as int,
                labels_opt(declared),
                *old(left) as nat,
            ),
        ),
        *final(left) == left_after_assertions(
            boxes@,
            boxes@.len() as int,
            labels_opt(declared),
            *old(left) as nat,
        ),
{
    let ghost start = *left as nat;
    let mut items: Vec<Json> = Vec::new();
    let mut i: usize = 0;
    assert(json::docs(items@) =~= Seq::empty());
    while i < boxes.len()
        invariant
            i <= boxes.len(),
            start == *old(left),
            json::docs(items@) == assertion_docs(boxes@, i as int, labels_opt(declared), start),
            *left == left_after_assertions(boxes@, i as int, labels_opt(declared), start),
        decreases boxes.len() - i,
    {
        let label = boxes[i].label.as_str();
        let wanted = match declared {
            Some(labels) => str_among(labels, label),
            None => true,
        };
        if wanted {
            let data = match decode_within(&boxes[i].payload, left) {
                Decoded::Item(v) => cbor_to_json(v),
                Decoded::OverBudget => omitted("decoded assertion report node budget exceeded"),
                Decoded::Malformed => Json::object(),
            };
            let item = object2(("label", Json::text(label)), ("data", data));
            let ghost before = items@;
            items.push(item);
            assert(json::docs(items@) =~= json::docs(before).push(json::doc(item)));
        }
        i += 1;
    }
    Json::array(items)
}

fn put_text(out: &mut Json, key: &str, t: &Option<String>)
    requires
        json::doc(*old(out)) is Object,
    ensures
        json::doc(*final(out)) == Doc::Object(
            with_text(json::doc(*old(out))->Object_0, key@, *t),
        ),
{
    if let Some(s) = t {
        out.insert(key, Json::text(s.as_str()));
    }
}

fn signature_json(info: Option<&SignatureInfo>) -> (r: Json)
    ensures
        json::doc(r) == signature_doc(value::pointee(info)),
{
    let mut out = Json::object();
    if let Some(i) = info {
        put_text(&mut out, "alg", &i.alg);
        put_text(&mut out, "common_name", &i.common_name);
        put_text(&mut out, "issuer", &i.issuer);
        put_text(&mut out, "cert_serial_number", &i.cert_serial_number);
    }
    out
}

fn claim_text_json(claim: Option<&Value>, key: &str) -> (r: Json)
    ensures
        json::doc(r) == Doc::Text(claim_text(value::pointee(claim), key@)),
{
    proof {
        reveal_strlit("");
        assert(""@ =~= Seq::<char>::empty());
    }
    match claim {
        Some(c) => match c.get_text(key) {
            Some(t) => Json::text(t),
            None => Json::text(""),
        },
        None => Json::text(""),
    }
}

fn empty_array() -> (r: Json)
    ensures
        json::doc(r) == Doc::Array(Seq::empty()),
{
    let items: Vec<Json> = Vec::new();
    assert(json::docs(items@) =~= Seq::empty());
    Json::array(items)
}

fn generator_json(claim: Option<&Value>, exhausted: bool) -> (r: Json)
    ensures
        json::doc(r) == generator_doc(value::pointee(claim), exhausted),
{
    if exhausted {
        let mut items: Vec<Json> = Vec::new();
        let item = omitted("decoded claim report node budget exceeded");
        items.push(item);
        assert(json::docs(items@) =~= seq![json::doc(item)]);
        return Json::array(items);
    }
    match claim {
        Some(c) => match c.get("claim_generator_info") {
            Some(v) => cbor_to_json(v),
            None => empty_array(),
        },
        None => empty_array(),
    }
}

/// Build one reader-report manifest entry from a parsed manifest and its
/// decoded claim.
pub fn manifest_entry_json(
    m: &ParsedManifest,
    claim: Option<&Value>,
    claim_decode_budget_exhausted: bool,
    declared: Option<&Vec<&str>>,
    info: Option<&SignatureInfo>,
    report_decode_nodes: &mut usize,
) -> (r: Json)
    ensures
        json::doc(r) == entry_doc(
            *m,
            value::pointee(claim),
            claim_decode_budget_exhausted,
            labels_opt(declared),
            value::pointee(info),
            *old(report_decode_nodes) as nat,
        ),
        *final(report_decode_nodes) == left_after_entry(
            *m,
            labels_opt(declared),
            *old(report_decode_nodes) as nat,
        ),
{
    let generator = generator_json(claim, claim_decode_budget_exhausted);
    let title = claim_text_json(claim, "dc:title");
    let instance = claim_text_json(claim, "instanceID");
    let assertions = assertions_json(&m.assertions, declared, report_decode_nodes);
    let signature = signature_json(info);
    let mut members: Vec<(String, Json)> = Vec::new();
    members.push(("claim_generator_info".to_owned(), generator));
    members.push(("title".to_owned(), title));
    members.push(("instance_id".to_owned(), instance));
    members.push(("assertions".to_owned(), assertions));
    members.push(("signature_info".to_owned(), signature));
    members.push(("claim_version".to_owned(), Json::Integer(2)));
    assert(json::member_docs(members@) =~= seq![
        ("claim_generator_info"@, json::doc(generator)),
        ("title"@, json::doc(title)),
        ("instance_id"@, json::doc(instance)),
        ("assertions"@, json::doc(assertions)),
        ("signature_info"@, json::doc(signature)),
        ("claim_version"@, Doc::Integer(2)),
    ]);
    json::object_of(members)
}

// ---------------------------------------------------------------------------
// The report
// ---------------------------------------------------------------------------

/// The report on an active manifest.
pub open spec fn report_doc(
    label: Seq<char>,
    m: ParsedManifest,
    claim: Option<Value>,
    declared: Option<Seq<Seq<char>>>,
    info: Option<SignatureInfo>,
    r: Results,
    state: ValidationState,
    left: nat,
) -> Doc {
    Doc::Object(
        seq![
            ("active_manifest"@, Doc::Text(label)),
            (
                "manifests"@,
                Doc::Object(seq![(label, entry_doc(m, claim, false, declared, info, left))]),
            ),
            ("validation_status"@, Doc::Array(status_docs(r.failure))),
            ("validation_results"@, results_doc(r)),
            ("validation_state"@, Doc::Text(state.text())),
        ],
    )
}

/// Build the reader report for an active manifest.
pub fn build_report(
    label: &str,
    m: &ParsedManifest,
    claim: Option<&Value>,
    declared: Option<&Vec<&str>>,
    info: Option<&SignatureInfo>,
    results: &ValidationResults,
    state: ValidationState,
    report_decode_nodes: &mut usize,
) -> (r: Json)
    ensures
        json::doc(r) == report_doc(
            label@,
            *m,
            value::pointee(claim),
            labels_opt(declared),
            value::pointee(info),
            results@,
            state,
            *old(report_decode_nodes) as nat,
        ),
        *final(report_decode_nodes) == left_after_entry(
            *m,
            labels_opt(declared),
            *old(report_decode_nodes) as nat,
        ),
{
    let entry = manifest_entry_json(m, claim, false, declared, info, report_decode_nodes);
    let manifests = object1((label, entry));
    report_object(Json::text(label), manifests, results, state)
}

fn report_object(
    active: Json,
    manifests: Json,
    results: &ValidationResults,
    state: ValidationState,
) -> (r: Json)
    ensures
        json::doc(r) == Doc::Object(
            seq![
                ("active_manifest"@, json::doc(active)),
                ("manifests"@, json::doc(manifests)),
                ("validation_status"@, Doc::Array(status_docs(results@.failure))),
                ("validation_results"@, results_doc(results@)),
                ("validation_state"@, Doc::Text(state.text())),
            ],
        ),
{
    let failures = status_array(&results.failure);
    let all = validation_results_json(results);
    let shown = Json::text(state.as_str());
    let mut members: Vec<(String, Json)> = Vec::new();
    members.push(("active_manifest".to_owned(), active));
    members.push(("manifests".to_owned(), manifests));
    members.push(("validation_status".to_owned(), failures));
    members.push(("validation_results".to_owned(), all));
    members.push(("validation_state".to_owned(), shown));
    assert(json::member_docs(members@) =~= seq![
        ("active_manifest"@, json::doc(active)),
        ("manifests"@, json::doc(manifests)),
        ("validation_status"@, Doc::Array(status_docs(results@.failure))),
        ("validation_results"@, results_doc(results@)),
        ("validation_state"@, Doc::Text(state.text())),
    ]);
    json::object_of(members)
}

/// What a manifest of the store adds to the report.
pub struct Listing {
    pub members: Seq<(Seq<char>, Doc)>,
    pub left: nat,
}

/// The listing that an object and an allowance stand for.
pub open spec fn listing_of(out: Json, left: usize) -> Listing {
    Listing { members: json::doc(out)->Object_0, left: left as nat }
}

/// The signer of manifest `k`, where it is known.
pub open spec fn info_at(infos: Seq<Option<SignatureInfo>>, k: int) -> Option<SignatureInfo> {
    if 0 <= k < infos.len() {
        infos[k]
    } else {
        None
    }
}

/// The claim of a manifest, decoded within the allowance.
pub open spec fn claim_within(m: ParsedManifest, left: nat) -> Option<Value> {
    match m.claim {
        Some(p) => match decoding(p, left) {
            Decoding::Item(v) => Some(v),
            _ => None,
        },
        None => None,
    }
}

/// The claim exceeds the allowance.
pub open spec fn claim_over_budget(m: ParsedManifest, left: nat) -> bool {
    m.claim matches Some(p) && decoding(p, left) is OverBudget
}

/// What is left of the allowance after the claim.
pub open spec fn left_after_claim(m: ParsedManifest, left: nat) -> nat {
    match m.claim {
        Some(p) => left_after(p, left),
        None => left,
    }
}

/// The listing with one more manifest, unless it is there already.
pub open spec fn listed(
    m: ParsedManifest,
    info: Option<SignatureInfo>,
    active: Seq<char>,
    before: Listing,
) -> Listing {
    if m.label@ == active || json::member_index(before.members, m.label@, 0) is Some {
        before
    } else {
        let left = left_after_claim(m, before.left);
        Listing {
            members: json::with_member(
                before.members,
                m.label@,
                entry_doc(
                    m,
                    claim_within(m, before.left),
                    claim_over_budget(m, before.left),
                    None,
                    info,
                    left,
                ),
            ),
            left: left_after_entry(m, None, left),
        }
    }
}

/// The listing with the first `k` manifests of the store.
pub open spec fn listing(
    manifests: Seq<ParsedManifest>,
    k: int,
    infos: Seq<Option<SignatureInfo>>,
    active: Seq<char>,
    start: Listing,
) -> Listing
    decreases k,
{
    if k <= 0 {
        start
    } else {
        listed(
            manifests[k - 1],
            info_at(infos, k - 1),
            active,
            listing(manifests, k - 1, infos, active, start),
        )
    }
}

/// The report with every manifest of the store listed.
pub open spec fn with_store(
    doc: Doc,
    manifests: Seq<ParsedManifest>,
    infos: Seq<Option<SignatureInfo>>,
    active: Seq<char>,
    left: nat,
) -> Doc {
    match doc.member("manifests"@) {
        Some(Doc::Object(members)) => doc.with(
            "manifests"@,
            Doc::Object(
                listing(
                    manifests,
                    manifests.len() as int,
                    infos,
                    active,
                    Listing { members, left },
                ).members,
            ),
        ),
        _ => doc,
    }
}

/// What is left of the allowance after the store.
pub open spec fn left_after_store(
    doc: Doc,
    manifests: Seq<ParsedManifest>,
    infos: Seq<Option<SignatureInfo>>,
    active: Seq<char>,
    left: nat,
) -> nat {
    match doc.member("manifests"@) {
        Some(Doc::Object(members)) => listing(
            manifests,
            manifests.len() as int,
            infos,
            active,
            Listing { members, left },
        ).left,
        _ => left,
    }
}

fn list_manifest(
    m: &ParsedManifest,
    info: Option<&SignatureInfo>,
    active: &str,
    out: &mut Json,
    left: &mut usize,
)
    requires
        json::doc(*old(out)) is Object,
    ensures
        json::doc(*final(out)) is Object,
        listing_of(*final(out), *final(left)) == listed(
            *m,
            value::pointee(info),
            active@,
            listing_of(*old(out), *old(left)),
        ),
{
    let label = m.label.as_str();
    if str_eq(label, active) || out.get(label).is_some() {
        return;
    }
    let mut claim: Option<&Value> = None;
    let mut exhausted = false;
    if let Some(p) = &m.claim {
        match decode_within(p, left) {
            Decoded::Item(v) => {
                claim = Some(v);
            },
            Decoded::OverBudget => {
                exhausted = true;
            },
            Decoded::Malformed => {},
        }
    }
    let entry = manifest_entry_json(m, claim, exhausted, None, info, left);
    out.insert(label, entry);
}

/// Append every non-active manifest of the store to the report's `manifests`.
/// Parents are decoded structurally only: the validation fields stay scoped to
/// the active manifest.
pub fn append_store_manifests(
    report: &mut Json,
    manifests: &[ParsedManifest],
    infos: &[Option<SignatureInfo>],
    active_label: &str,
    report_decode_nodes: &mut usize,
)
    ensures
        json::doc(*final(report)) == with_store(
            json::doc(*old(report)),
            manifests@,
            infos@,
            active_label@,
            *old(report_decode_nodes) as nat,
        ),
        *final(report_decode_nodes) == left_after_store(
            json::doc(*old(report)),
            manifests@,
            infos@,
            active_label@,
            *old(report_decode_nodes) as nat,
        ),
{
    let mut out = match report.get("manifests") {
        Some(j) => {
            match j {
                Json::Object(_) => {},
                _ => {
                    return;
                },
            }
            j.copy()
        },
        None => {
            return;
        },
    };
    assert(json::doc(out) is Object);
    let ghost start = listing_of(out, *report_decode_nodes);
    let mut i: usize = 0;
    while i < manifests.len()
        invariant
            i <= manifests.len(),
            json::doc(out) is Object,
            listing_of(out, *report_decode_nodes) == listing(
                manifests@,
                i as int,
                infos@,
                active_label@,
                start,
            ),
        decreases manifests.len() - i,
    {
        let info: Option<&SignatureInfo> = if i < infos.len() {
            match &infos[i] {
                Some(info) => Some(info),
                None => None,
            }
        } else {
            None
        };
        list_manifest(&manifests[i], info, active_label, &mut out, report_decode_nodes);
        i += 1;
    }
    report.insert("manifests", out);
}

// ---------------------------------------------------------------------------
// Output
// ---------------------------------------------------------------------------

/// How one revision judged the structure of a manifest.
#[derive(Debug)]
pub struct VersionEvaluation {
    pub version: String,
    pub structure_conformant: bool,
    pub reasons: Vec<String>,
}

/// Which revisions a manifest conforms to, and which it validated under; with
/// the documents that report it, as it is and with no validated revision.
#[derive(Debug)]
pub struct VersionVerdict {
    pub evaluations: Vec<VersionEvaluation>,
    pub validated_under: Option<String>,
    pub document: Json,
    pub document_when_broken: Json,
}

/// Output of a verification.
#[derive(Debug)]
pub struct VerifyOutput {
    /// Overall validation state of the active manifest.
    pub validation_state: ValidationState,
    /// Status codes partitioned by severity.
    pub results: ValidationResults,
    /// Reader report.
    pub report_json: Json,
    /// The decoded contents of the manifest store, where they are attached.
    pub crjson: Option<Json>,
    /// Version classification; nothing where no claim could be decoded.
    pub version_verdict: Option<VersionVerdict>,
    /// The requests that would settle what was skipped.
    pub network_needs: Vec<NetworkNeed>,
}

/// An output as the contracts see it.
pub struct Output {
    pub state: ValidationState,
    pub results: Results,
    pub report: Doc,
    pub crjson: Option<Doc>,
    pub version: Option<VersionVerdict>,
    pub needs: Seq<Need>,
}

/// The version classification of a finished output: where integrity is broken
/// the manifest validated under no revision, and the rest is kept for diagnosis.
pub open spec fn settled(v: Option<VersionVerdict>, broken: bool) -> Option<VersionVerdict> {
    match v {
        Some(v) => if broken {
            Some(VersionVerdict { validated_under: None, ..v })
        } else {
            Some(v)
        },
        None => None,
    }
}

impl View for VerifyOutput {
    type V = Output;

    open spec fn view(&self) -> Output {
        Output {
            state: self.validation_state,
            results: self.results@,
            report: json::doc(self.report_json),
            crjson: match self.crjson {
                Some(j) => Some(json::doc(j)),
                None => None,
            },
            version: self.version_verdict,
            needs: network_needs::need_views(self.network_needs@),
        }
    }
}

/// The final report: the verdict and the version classification added.
pub open spec fn finished_report(
    base: Doc,
    r: Results,
    v: Option<VersionVerdict>,
    p: EngineProfile,
) -> Doc {
    let doc = base.with("provenance_verdict"@, verdict::verdict_doc(r, true));
    match v {
        Some(v) => doc.with(
            "version_verdict"@,
            json::doc(
                if verdict::integrity_broken(r, p) {
                    v.document_when_broken
                } else {
                    v.document
                },
            ),
        ),
        None => doc,
    }
}

/// The output for a manifest with the results `r`.
pub open spec fn finished(
    label: Seq<char>,
    m: ParsedManifest,
    claim: Option<Value>,
    declared: Option<Seq<Seq<char>>>,
    info: Option<SignatureInfo>,
    r: Results,
    v: Option<VersionVerdict>,
    p: EngineProfile,
    left: nat,
) -> Output {
    let state = verdict::state_of(r, p);
    Output {
        state,
        results: r,
        report: finished_report(
            report_doc(label, m, claim, declared, info, r, state, left),
            r,
            v,
            p,
        ),
        crjson: None,
        version: settled(v, verdict::integrity_broken(r, p)),
        needs: Seq::empty(),
    }
}

/// Assemble the final output including the reader report. A manifest whose
/// integrity is broken validated under no revision; policy-bar failures leave
/// the revision alone.
pub fn finish(
    label: &str,
    m: &ParsedManifest,
    claim: Option<&Value>,
    declared: Option<&Vec<&str>>,
    info: Option<&SignatureInfo>,
    results: ValidationResults,
    version: Option<VersionVerdict>,
    p: EngineProfile,
    report_decode_nodes: &mut usize,
) -> (r: VerifyOutput)
    ensures
        r@ == finished(
            label@,
            *m,
            value::pointee(claim),
            labels_opt(declared),
            value::pointee(info),
            results@,
            version,
            p,
            *old(report_decode_nodes) as nat,
        ),
        *final(report_decode_nodes) == left_after_entry(
            *m,
            labels_opt(declared),
            *old(report_decode_nodes) as nat,
        ),
{
    let state = compute_state(&results, p);
    let broken = is_integrity_broken(&results, p);
    let mut report_json = build_report(
        label,
        m,
        claim,
        declared,
        info,
        &results,
        state,
        report_decode_nodes,
    );
    report_json.insert("provenance_verdict", provenance_verdict_json(&results, true));
    let version_verdict = match version {
        Some(v) => {
            if broken {
                report_json.insert("version_verdict", v.document_when_broken.copy());
            } else {
                report_json.insert("version_verdict", v.document.copy());
            }
            let validated_under = if broken {
                None
            } else {
                v.validated_under
            };
            Some(
                VersionVerdict {
                    evaluations: v.evaluations,
                    validated_under,
                    document: v.document,
                    document_when_broken: v.document_when_broken,
                },
            )
        },
        None => None,
    };
    let network_needs: Vec<NetworkNeed> = Vec::new();
    assert(network_needs::need_views(network_needs@) =~= Seq::empty());
    VerifyOutput {
        validation_state: state,
        results,
        report_json,
        crjson: None,
        version_verdict,
        network_needs,
    }
}

/// The results where there is no manifest.
pub open spec fn absent_results(why: Seq<char>, p: EngineProfile, present: bool) -> Results {
    if profile::generous(p) && !present {
        Results::empty()
    } else {
        Results::empty().fail(CLAIM_MISSING@, Seq::empty(), why)
    }
}

/// The state where there is no manifest.
pub open spec fn absent_state(p: EngineProfile, present: bool) -> ValidationState {
    if profile::generous(p) && !present {
        ValidationState::Absent
    } else {
        ValidationState::Invalid
    }
}

/// The output where there is no manifest.
pub open spec fn absent_output(why: Seq<char>, p: EngineProfile, present: bool) -> Output {
    let r = absent_results(why, p, present);
    Output {
        state: absent_state(p, present),
        results: r,
        report: Doc::Object(
            seq![
                ("active_manifest"@, Doc::Null),
                ("manifests"@, Doc::Object(Seq::empty())),
                ("validation_status"@, Doc::Array(status_docs(r.failure))),
                ("validation_results"@, results_doc(r)),
                ("validation_state"@, Doc::Text(absent_state(p, present).text())),
                ("provenance_verdict"@, verdict::verdict_doc(r, present)),
            ],
        ),
        crjson: None,
        version: None,
        needs: Seq::empty(),
    }
}

/// Build the graceful no-manifest output.
///
/// `present` is whether the asset carries any structure at all. In the generous
/// posture an asset without provenance is no failure; every other case is.
pub fn no_manifest_output(explanation: &str, p: EngineProfile, present: bool) -> (r: VerifyOutput)
    ensures
        r@ == absent_output(explanation@, p, present),
{
    let mut results = ValidationResults::new();
    let state = if is_generous(p) && !present {
        ValidationState::Absent
    } else {
        results.push_failure(CLAIM_MISSING, String::new(), explanation.to_owned());
        ValidationState::Invalid
    };
    let failures = status_array(&results.failure);
    let all = validation_results_json(&results);
    let shown = Json::text(state.as_str());
    let verdict = provenance_verdict_json(&results, present);
    let manifests = Json::object();
    let mut members: Vec<(String, Json)> = Vec::new();
    members.push(("active_manifest".to_owned(), Json::Null));
    members.push(("manifests".to_owned(), manifests));
    members.push(("validation_status".to_owned(), failures));
    members.push(("validation_results".to_owned(), all));
    members.push(("validation_state".to_owned(), shown));
    members.push(("provenance_verdict".to_owned(), verdict));
    assert(json::member_docs(members@) =~= absent_output(
        explanation@,
        p,
        present,
    ).report->Object_0);
    let report_json = json::object_of(members);
    let network_needs: Vec<NetworkNeed> = Vec::new();
    assert(network_needs::need_views(network_needs@) =~= Seq::empty());
    VerifyOutput {
        validation_state: state,
        results,
        report_json,
        crjson: None,
        version_verdict: None,
        network_needs,
    }
}

// ---------------------------------------------------------------------------
// Stamps and notes
// ---------------------------------------------------------------------------

pub open spec fn mode_text(mode: OperatingMode) -> Seq<char> {
    match mode {
        OperatingMode::Conformance => "conformance"@,
        OperatingMode::Regular => "regular"@,
    }
}

pub open spec fn compliance_text(level: ComplianceLevel) -> Seq<char> {
    match level {
        ComplianceLevel::CoreSpec => "core-spec"@,
        ComplianceLevel::ConformanceProgram => "conformance-program"@,
    }
}

/// The engine profile as JSON.
pub open spec fn profile_doc(p: EngineProfile) -> Doc {
    Doc::Object(
        seq![
            ("spec_version"@, Doc::Text(p.spec_version_text())),
            ("operating_mode"@, Doc::Text(mode_text(p.mode))),
            ("compliance_level"@, Doc::Text(compliance_text(p.compliance))),
        ],
    )
}

/// The output with one report member put.
pub open spec fn with_report_member(o: Output, key: Seq<char>, d: Doc) -> Output {
    Output { report: o.report.with(key, d), ..o }
}

/// Needs in report shape.
pub open spec fn need_docs(needs: Seq<Need>) -> Seq<Doc> {
    needs.map_values(|n: Need| n.doc())
}

/// The output with the requests that would settle what was skipped.
pub open spec fn with_needs(o: Output, needs: Seq<Need>) -> Output {
    if needs.len() == 0 {
        o
    } else {
        with_report_member(
            Output { needs, ..o },
            "network"@,
            Doc::Object(seq![("needed"@, Doc::Array(need_docs(needs)))]),
        )
    }
}

/// Attach the requests that would settle what was skipped, so a reader sees
/// which hosts a fetch would contact and why.
pub fn attach_needs(out: &mut VerifyOutput, needs: Vec<NetworkNeed>)
    ensures
        final(out)@ == with_needs(old(out)@, network_needs::need_views(needs@)),
{
    let ghost views = network_needs::need_views(needs@);
    assert(views.len() == needs@.len());
    if needs.len() == 0 {
        return;
    }
    let mut items: Vec<Json> = Vec::new();
    let mut i: usize = 0;
    while i < needs.len()
        invariant
            i <= needs.len(),
            views == network_needs::need_views(needs@),
            json::docs(items@) =~= need_docs(views).take(i as int),
        decreases needs.len() - i,
    {
        let ghost before = items@;
        let item = needs[i].to_json();
        items.push(item);
        assert(json::docs(items@) =~= json::docs(before).push(json::doc(item)));
        assert(views[i as int] == needs@[i as int]@);
        i += 1;
    }
    assert(json::docs(items@) =~= need_docs(views));
    out.report_json.insert("network", object1(("needed", Json::array(items))));
    out.network_needs = needs;
}

/// Record the active engine profile in the report, so a consumer can tell which
/// revision and which compliance bar produced the result.
pub fn stamp_profile(out: &mut VerifyOutput, p: EngineProfile)
    ensures
        final(out)@ == with_report_member(old(out)@, "engine_profile"@, profile_doc(p)),
{
    let mode = match p.mode {
        OperatingMode::Conformance => "conformance",
        OperatingMode::Regular => "regular",
    };
    let level = match p.compliance {
        ComplianceLevel::CoreSpec => "core-spec",
        ComplianceLevel::ConformanceProgram => "conformance-program",
    };
    out.report_json.insert(
        "engine_profile",
        object3(
            ("spec_version", Json::text(p.version_str())),
            ("operating_mode", Json::text(mode)),
            ("compliance_level", Json::text(level)),
        ),
    );
}

/// One hexadecimal digit.
pub open spec fn hex_digit(v: u8) -> char {
    if v < 10 {
        (v + 48) as u8 as char
    } else {
        (v + 87) as u8 as char
    }
}

/// The first `k` bytes in lower-case hexadecimal.
pub open spec fn hex_of(b: Seq<u8>, k: nat) -> Seq<char>
    decreases k,
{
    if k == 0 {
        Seq::empty()
    } else {
        hex_of(b, (k - 1) as nat).push(hex_digit((b[k - 1] / 16) as u8)).push(
            hex_digit((b[k - 1] % 16) as u8),
        )
    }
}

fn hex_char(v: u8) -> (r: char)
    requires
        v < 16,
    ensures
        r == hex_digit(v),
{
    if v < 10 {
        (v + 48) as char
    } else {
        (v + 87) as char
    }
}

/// Bytes in lower-case hexadecimal.
pub fn hex_string(b: &[u8]) -> (r: String)
    ensures
        r@ == hex_of(b@, b@.len()),
{
    let mut out = String::new();
    let mut i: usize = 0;
    while i < b.len()
        invariant
            i <= b.len(),
            out@ == hex_of(b@, i as nat),
        decreases b.len() - i,
    {
        out.push(hex_char(b[i] / 16));
        out.push(hex_char(b[i] % 16));
        i += 1;
    }
    out
}

/// The digest of the manifest store as text.
pub open spec fn store_hash_text(store: Seq<u8>) -> Seq<char> {
    let d = hash::digest_of(HashAlgorithm::Sha256, store);
    hex_of(d, d.len())
}

/// Bind the report to the exact extracted or caller-supplied store bytes.
pub fn stamp_manifest_store_hash(out: &mut VerifyOutput, manifest_store: &[u8])
    ensures
        final(out)@ == with_report_member(
            old(out)@,
            "manifest_store_sha256"@,
            Doc::Text(store_hash_text(manifest_store@)),
        ),
{
    let digest = HashAlgorithm::Sha256.digest(manifest_store);
    let encoded = hex_string(digest.as_slice());
    out.report_json.insert("manifest_store_sha256", Json::Text(encoded));
}

/// Whether the report says that provenance is present.
pub open spec fn reported_present(doc: Doc) -> bool {
    match doc.member("provenance_verdict"@) {
        Some(v) => match v.member("present"@) {
            Some(Doc::Bool(b)) => b,
            _ => true,
        },
        None => true,
    }
}

fn present_of(report: &Json) -> (r: bool)
    ensures
        r == reported_present(json::doc(*report)),
{
    match report.get("provenance_verdict") {
        Some(v) => match v.get("present") {
            Some(Json::Bool(b)) => *b,
            _ => true,
        },
        None => true,
    }
}

/// The output with the out-of-scope observation.
pub open spec fn with_scope_note(o: Output, mime: Seq<char>) -> Output {
    let r = o.results.inform(
        CONFORMANCE_OUT_OF_SCOPE@,
        Seq::empty(),
        "format "@ + mime + " is outside the certified conformance scope"@,
    );
    let doc = o.report.with("validation_results"@, results_doc(r));
    Output {
        results: r,
        report: doc.with("provenance_verdict"@, verdict::verdict_doc(r, reported_present(doc))),
        ..o
    }
}

/// Record the conformance out-of-scope observation as an informational code on
/// both the results and the report.
pub fn note_out_of_scope(out: &mut VerifyOutput, mime: &str)
    ensures
        final(out)@ == with_scope_note(old(out)@, mime@),
{
    out.results.push_informational(
        CONFORMANCE_OUT_OF_SCOPE,
        String::new(),
        join3("format ", mime, " is outside the certified conformance scope"),
    );
    out.report_json.insert("validation_results", validation_results_json(&out.results));
    let present = present_of(&out.report_json);
    out.report_json.insert("provenance_verdict", provenance_verdict_json(&out.results, present));
}

/// The output with the additional-exclusions observation.
pub open spec fn with_exclusions_note(o: Output, manifest_label: Seq<char>) -> Output {
    let r = o.results.inform(
        ASSERTION_DATA_HASH_ADDITIONAL_EXCLUSIONS_PRESENT@,
        "self#jumbf=/c2pa/"@ + manifest_label + "/c2pa.assertions/c2pa.hash.data"@,
        "extra data hash exclusions found"@,
    );
    Output { results: r, report: o.report.with("validation_results"@, results_doc(r)), ..o }
}

/// Record that the data hash excludes bytes beyond its manifest carrier.
pub fn note_additional_exclusions(out: &mut VerifyOutput, manifest_label: &str)
    ensures
        final(out)@ == with_exclusions_note(old(out)@, manifest_label@),
{
    out.results.push_informational(
        ASSERTION_DATA_HASH_ADDITIONAL_EXCLUSIONS_PRESENT,
        join3("self#jumbf=/c2pa/", manifest_label, "/c2pa.assertions/c2pa.hash.data"),
        "extra data hash exclusions found".to_owned(),
    );
    out.report_json.insert("validation_results", validation_results_json(&out.results));
}

/// The output with everything that it says of validity derived anew.
pub open spec fn restated(o: Output, p: EngineProfile) -> Output {
    let state = verdict::state_of(o.results, p);
    if o.report is Object {
        let doc = o.report.with(
            "validation_status"@,
            Doc::Array(status_docs(o.results.failure)),
        ).with("validation_results"@, results_doc(o.results)).with(
            "validation_state"@,
            Doc::Text(state.text()),
        );
        Output {
            state,
            report: doc.with(
                "provenance_verdict"@,
                verdict::verdict_doc(o.results, reported_present(doc)),
            ),
            ..o
        }
    } else {
        Output { state, ..o }
    }
}

/// Re-derive everything a report says about validity from the results, for a
/// subsystem that reaches its conclusion after the report was built.
pub fn restate_results(out: &mut VerifyOutput, p: EngineProfile)
    ensures
        final(out)@ == restated(old(out)@, p),
{
    out.validation_state = compute_state(&out.results, p);
    match &out.report_json {
        Json::Object(_) => {},
        _ => {
            return;
        },
    }
    out.report_json.insert("validation_status", status_array(&out.results.failure));
    out.report_json.insert("validation_results", validation_results_json(&out.results));
    out.report_json.insert("validation_state", Json::text(out.validation_state.as_str()));
    let present = present_of(&out.report_json);
    out.report_json.insert("provenance_verdict", provenance_verdict_json(&out.results, present));
}

// ---------------------------------------------------------------------------
// Laws
// ---------------------------------------------------------------------------

/// The version classification of a manifest survives broken integrity: only the
/// revision that it validated under is withdrawn, and no failure of a policy bar
/// withdraws it.
pub proof fn version_ladder_is_kept(
    label: Seq<char>,
    m: ParsedManifest,
    claim: Option<Value>,
    declared: Option<Seq<Seq<char>>>,
    info: Option<SignatureInfo>,
    r: Results,
    v: VersionVerdict,
    p: EngineProfile,
    left: nat,
)
    ensures
        finished(label, m, claim, declared, info, r, Some(v), p, left).version matches Some(w)
            && w.evaluations == v.evaluations && w.document == v.document
            && w.document_when_broken == v.document_when_broken && w.validated_under == (
        if verdict::integrity_broken(r, p) {
            None
        } else {
            v.validated_under
        }),
{
}

/// A status is reported with its code, its explanation and its URL.
pub proof fn statuses_are_reported_in_full(s: Status)
    ensures
        status_doc(s).member("code"@) == Some(Doc::Text(s.code)),
        status_doc(s).member("explanation"@) == Some(Doc::Text(s.explanation)),
        status_doc(s).member("url"@) == Some(Doc::Text(s.url)),
        s.details is Some ==> status_doc(s).member("details"@) == s.details,
{
    reveal_with_fuel(json::member_index, 5);
    reveal_strlit("code");
    reveal_strlit("explanation");
    reveal_strlit("url");
    reveal_strlit("details");
    assert("code"@[0] == 'c');
    assert("explanation"@[0] == 'e');
    assert("url"@[0] == 'u');
    assert("details"@[0] == 'd');
    let members = seq![
        ("code"@, Doc::Text(s.code)),
        ("explanation"@, Doc::Text(s.explanation)),
        ("url"@, Doc::Text(s.url)),
    ];
    if let Some(d) = s.details {
        json::insert_then_get(members, "details"@, d, "code"@);
        json::insert_then_get(members, "details"@, d, "explanation"@);
        json::insert_then_get(members, "details"@, d, "url"@);
        assert(status_doc(s) == Doc::Object(members).with("details"@, d));
    }
}

/// The results are reported in full: under the active manifest stand the three
/// lists of statuses, each with one entry for each status and in its order.
pub proof fn results_are_reported_in_full(r: Results)
    ensures
        ({
            let active = results_doc(r).member("activeManifest"@);
            &&& active is Some
            &&& active->0.member("success"@) == Some(Doc::Array(status_docs(r.success)))
            &&& active->0.member("informational"@) == Some(Doc::Array(status_docs(r.informational)))
            &&& active->0.member("failure"@) == Some(Doc::Array(status_docs(r.failure)))
            &&& status_docs(r.failure).len() == r.failure.len()
            &&& forall|i: int|
                0 <= i < r.failure.len() ==> #[trigger] status_docs(r.failure)[i] == status_doc(
                    r.failure[i],
                )
        }),
{
    reveal_with_fuel(json::member_index, 4);
    reveal_strlit("success");
    reveal_strlit("informational");
    reveal_strlit("failure");
    assert("success"@[0] == 's');
    assert("informational"@[0] == 'i');
    assert("failure"@[0] == 'f');
}

/// What a report says of validity: its state, its failures, its results and its
/// two-axis verdict.
pub open spec fn says(report: Doc, state: ValidationState, r: Results, present: bool) -> bool {
    &&& report.member("validation_state"@) == Some(Doc::Text(state.text()))
    &&& report.member("validation_status"@) == Some(Doc::Array(status_docs(r.failure)))
    &&& report.member("validation_results"@) == Some(results_doc(r))
    &&& report.member("provenance_verdict"@) == Some(verdict::verdict_doc(r, present))
}

proof fn lemma_report_keys()
    ensures
        "active_manifest"@ != "provenance_verdict"@,
        "active_manifest"@ != "version_verdict"@,
        "manifests"@ != "provenance_verdict"@,
        "manifests"@ != "version_verdict"@,
        "validation_state"@ != "provenance_verdict"@,
        "validation_state"@ != "version_verdict"@,
        "validation_state"@ != "validation_results"@,
        "validation_state"@ != "validation_status"@,
        "validation_status"@ != "provenance_verdict"@,
        "validation_status"@ != "version_verdict"@,
        "validation_status"@ != "validation_results"@,
        "validation_results"@ != "provenance_verdict"@,
        "validation_results"@ != "version_verdict"@,
        "provenance_verdict"@ != "version_verdict"@,
        "active_manifest"@ != "manifests"@,
        "active_manifest"@ != "validation_status"@,
        "active_manifest"@ != "validation_results"@,
        "active_manifest"@ != "validation_state"@,
        "manifests"@ != "validation_status"@,
        "manifests"@ != "validation_results"@,
        "manifests"@ != "validation_state"@,
{
    reveal_strlit("active_manifest");
    reveal_strlit("manifests");
    reveal_strlit("validation_status");
    reveal_strlit("validation_results");
    reveal_strlit("validation_state");
    reveal_strlit("provenance_verdict");
    reveal_strlit("version_verdict");
    assert("active_manifest"@[0] == 'a');
    assert("manifests"@[0] == 'm');
    assert("provenance_verdict"@[0] == 'p');
    assert("validation_status"@.len() == 17);
    assert("validation_results"@.len() == 18);
    assert("validation_state"@.len() == 16);
    assert("version_verdict"@.len() == 15);
    assert("version_verdict"@[0] == 'v');
}

/// The report of a finished manifest agrees with its output: it names the active
/// manifest, its state is the state of the output, which follows from the results
/// under the profile, and its failures, its results and its verdict are those of
/// the results.
pub proof fn finished_reports_agree_with_the_output(
    label: Seq<char>,
    m: ParsedManifest,
    claim: Option<Value>,
    declared: Option<Seq<Seq<char>>>,
    info: Option<SignatureInfo>,
    r: Results,
    v: Option<VersionVerdict>,
    p: EngineProfile,
    left: nat,
)
    ensures
        ({
            let o = finished(label, m, claim, declared, info, r, v, p, left);
            &&& o.results == r
            &&& o.state == verdict::state_of(r, p)
            &&& says(o.report, o.state, r, true)
            &&& o.report.member("active_manifest"@) == Some(Doc::Text(label))
            &&& o.report.member("manifests"@) is Some
            &&& o.report.member("manifests"@)->0.member(label) == Some(
                entry_doc(m, claim, false, declared, info, left),
            )
        }),
{
    lemma_report_keys();
    reveal_with_fuel(json::member_index, 6);
    let state = verdict::state_of(r, p);
    let base = report_doc(label, m, claim, declared, info, r, state, left);
    let members = base->Object_0;
    let d = verdict::verdict_doc(r, true);
    let doc = base.with("provenance_verdict"@, d);
    lemma_puts(members, "provenance_verdict"@, d);
    match v {
        Some(v) => {
            let w = json::doc(
                if verdict::integrity_broken(r, p) {
                    v.document_when_broken
                } else {
                    v.document
                },
            );
            lemma_puts(doc->Object_0, "version_verdict"@, w);
        },
        None => {},
    }
}

/// Putting a member leaves every other one.
proof fn lemma_puts(members: Seq<(Seq<char>, Doc)>, key: Seq<char>, d: Doc)
    ensures
        Doc::Object(members).with(key, d).member(key) == Some(d),
        Doc::Object(members).with(key, d) is Object,
        forall|other: Seq<char>|
            other != key ==> #[trigger] Doc::Object(members).with(key, d).member(other)
                == Doc::Object(members).member(other),
{
    json::insert_then_get(members, key, d, key);
    assert forall|other: Seq<char>| other != key implies #[trigger] Doc::Object(members).with(
        key,
        d,
    ).member(other) == Doc::Object(members).member(other) by {
        json::insert_then_get(members, key, d, other);
    }
}

/// Where the results of an output were added to, restating makes the whole output
/// agree with them again: the state, and the report's state, failures, results and
/// verdict. Nothing else of the report changes.
pub proof fn restated_reports_agree_with_the_results(o: Output, p: EngineProfile, other: Seq<char>)
    requires
        o.report is Object,
    ensures
        ({
            let after = restated(o, p);
            &&& after.results == o.results
            &&& after.state == verdict::state_of(o.results, p)
            &&& says(after.report, after.state, o.results, reported_present(o.report))
            &&& other != "validation_state"@ && other != "validation_status"@ && other
                != "validation_results"@ && other != "provenance_verdict"@
                ==> after.report.member(other) == o.report.member(other)
        }),
{
    lemma_report_keys();
    let state = verdict::state_of(o.results, p);
    let a = Doc::Array(status_docs(o.results.failure));
    let d1 = o.report.with("validation_status"@, a);
    lemma_puts(o.report->Object_0, "validation_status"@, a);
    let d2 = d1.with("validation_results"@, results_doc(o.results));
    lemma_puts(d1->Object_0, "validation_results"@, results_doc(o.results));
    let d3 = d2.with("validation_state"@, Doc::Text(state.text()));
    lemma_puts(d2->Object_0, "validation_state"@, Doc::Text(state.text()));
    assert(d3.member("provenance_verdict"@) == o.report.member("provenance_verdict"@));
    let v = verdict::verdict_doc(o.results, reported_present(d3));
    lemma_puts(d3->Object_0, "provenance_verdict"@, v);
}

/// Without a manifest the report says so: no active manifest, and an absent state
/// with no failure exactly in the generous posture on an asset without any
/// structure; in every other case the missing claim is a failure and the state is
/// invalid. The axes never read valid or trusted.
pub proof fn absence_is_reported_by_posture(why: Seq<char>, p: EngineProfile, present: bool)
    ensures
        ({
            let o = absent_output(why, p, present);
            &&& says(o.report, o.state, o.results, present)
            &&& o.report.member("active_manifest"@) == Some(Doc::Null)
            &&& (o.state == ValidationState::Absent) == (profile::generous(p) && !present)
            &&& (o.state == ValidationState::Invalid) == !(profile::generous(p) && !present)
            &&& (o.results.failure.len() == 0) == (o.state == ValidationState::Absent)
            &&& o.results.failure.len() > 0 ==> o.results.failed(CLAIM_MISSING@)
            &&& o.results.success.len() == 0
        }),
{
    lemma_report_keys();
    reveal_with_fuel(json::member_index, 7);
    let o = absent_output(why, p, present);
    if o.results.failure.len() > 0 {
        assert(o.results.failure[0].code == CLAIM_MISSING@);
    }
}

proof fn lemma_assertion_reported(
    boxes: Seq<AssertionBox>,
    k: int,
    declared: Option<Seq<Seq<char>>>,
    left: nat,
    i: int,
)
    requires
        0 <= i < k <= boxes.len(),
        reported(declared, boxes[i].label@),
    ensures
        ({
            let docs = assertion_docs(boxes, k, declared, left);
            let t = assertion_docs(boxes, i, declared, left).len() as int;
            &&& t < docs.len()
            &&& docs[t] == Doc::Object(
                seq![
                    ("label"@, Doc::Text(boxes[i].label@)),
                    (
                        "data"@,
                        assertion_data(
                            boxes[i].payload,
                            left_after_assertions(boxes, i, declared, left),
                        ),
                    ),
                ],
            )
        }),
    decreases k,
{
    if i < k - 1 {
        lemma_assertion_reported(boxes, k - 1, declared, left, i);
        let before = assertion_docs(boxes, k - 1, declared, left);
        let docs = assertion_docs(boxes, k, declared, left);
        let t = assertion_docs(boxes, i, declared, left).len() as int;
        assert(docs[t] == before[t]);
    }
}

/// The entry carries the label of a declared assertion among the first `k`.
pub open spec fn labels_a_declared_one(
    doc: Doc,
    boxes: Seq<AssertionBox>,
    k: int,
    declared: Seq<Seq<char>>,
) -> bool {
    exists|j: int|
        0 <= j < k && declared.contains((#[trigger] boxes[j]).label@) && doc.member("label"@)
            == Some(Doc::Text(boxes[j].label@))
}

/// One of the entries carries the label of the assertion, and its decoded value as
/// JSON, where it can be decoded within `left` nodes.
pub open spec fn reports_assertion(docs: Seq<Doc>, b: AssertionBox, left: nat) -> bool {
    exists|t: int|
        0 <= t < docs.len() && (#[trigger] docs[t]).member("label"@) == Some(Doc::Text(b.label@))
            && (b.payload.value is Some && b.payload.nodes <= left ==> docs[t].member("data"@)
            == Some(report::json_of(b.payload.value->0)))
}

/// Every assertion that the claim declares is reported under its label, with its
/// decoded value as JSON where it can be decoded within what is left of the
/// allowance; no assertion is reported that the claim does not declare.
pub proof fn declared_assertions_are_reported(
    boxes: Seq<AssertionBox>,
    declared: Seq<Seq<char>>,
    left: nat,
    i: int,
)
    requires
        0 <= i < boxes.len(),
    ensures
        declared.contains(boxes[i].label@) ==> reports_assertion(
            assertion_docs(boxes, boxes.len() as int, Some(declared), left),
            boxes[i],
            left_after_assertions(boxes, i, Some(declared), left),
        ),
        forall|t: int|
            0 <= t < assertion_docs(boxes, boxes.len() as int, Some(declared), left).len()
                ==> labels_a_declared_one(
                #[trigger] assertion_docs(boxes, boxes.len() as int, Some(declared), left)[t],
                boxes,
                boxes.len() as int,
                declared,
            ),
{
    reveal_with_fuel(json::member_index, 3);
    reveal_strlit("label");
    reveal_strlit("data");
    assert("label"@[0] == 'l');
    assert("data"@[0] == 'd');
    let n = boxes.len() as int;
    let docs = assertion_docs(boxes, n, Some(declared), left);
    if declared.contains(boxes[i].label@) {
        lemma_assertion_reported(boxes, n, Some(declared), left, i);
        let t = assertion_docs(boxes, i, Some(declared), left).len() as int;
        assert(docs[t].member("label"@) == Some(Doc::Text(boxes[i].label@)));
    }
    lemma_only_declared(boxes, n, declared, left);
}

proof fn lemma_only_declared(
    boxes: Seq<AssertionBox>,
    k: int,
    declared: Seq<Seq<char>>,
    left: nat,
)
    requires
        0 <= k <= boxes.len(),
    ensures
        forall|t: int|
            0 <= t < assertion_docs(boxes, k, Some(declared), left).len() ==> labels_a_declared_one(
                #[trigger] assertion_docs(boxes, k, Some(declared), left)[t],
                boxes,
                k,
                declared,
            ),
    decreases k,
{
    if k > 0 {
        lemma_only_declared(boxes, k - 1, declared, left);
        reveal_with_fuel(json::member_index, 3);
        let before = assertion_docs(boxes, k - 1, Some(declared), left);
        let docs = assertion_docs(boxes, k, Some(declared), left);
        assert forall|t: int| 0 <= t < docs.len() implies labels_a_declared_one(
            #[trigger] docs[t],
            boxes,
            k,
            declared,
        ) by {
            if t < before.len() {
                assert(docs[t] == before[t]);
                assert(labels_a_declared_one(before[t], boxes, k - 1, declared));
                let j = choose|j: int|
                    0 <= j < k - 1 && declared.contains((#[trigger] boxes[j]).label@)
                        && before[t].member("label"@) == Some(Doc::Text(boxes[j].label@));
                assert(declared.contains(boxes[j].label@));
            } else {
                assert(declared.contains(boxes[k - 1].label@));
            }
        }
    }
}

proof fn lemma_listing_keeps(
    manifests: Seq<ParsedManifest>,
    k: int,
    infos: Seq<Option<SignatureInfo>>,
    active: Seq<char>,
    start: Listing,
    key: Seq<char>,
)
    requires
        0 <= k <= manifests.len(),
        json::member_index(start.members, key, 0) is Some || exists|i: int|
            0 <= i < k && (#[trigger] manifests[i]).label@ == key && key != active,
    ensures
        json::member_index(listing(manifests, k, infos, active, start).members, key, 0) is Some,
    decreases k,
{
    if k > 0 {
        let before = listing(manifests, k - 1, infos, active, start);
        let m = manifests[k - 1];
        if json::member_index(start.members, key, 0) is Some || exists|i: int|
            0 <= i < k - 1 && (#[trigger] manifests[i]).label@ == key && key != active {
            lemma_listing_keeps(manifests, k - 1, infos, active, start, key);
        } else {
            let i = choose|i: int|
                0 <= i < k && (#[trigger] manifests[i]).label@ == key && key != active;
            assert(i == k - 1);
        }
        if !(m.label@ == active || json::member_index(before.members, m.label@, 0) is Some) {
            let left = left_after_claim(m, before.left);
            let d = entry_doc(
                m,
                claim_within(m, before.left),
                claim_over_budget(m, before.left),
                None,
                info_at(infos, k - 1),
                left,
            );
            json::insert_then_get(before.members, m.label@, d, key);
            let after = listing(manifests, k, infos, active, start);
            assert(Doc::Object(after.members) == Doc::Object(before.members).with(m.label@, d));
            if key != m.label@ {
                assert(Doc::Object(before.members).member(key) is Some);
            }
            assert(Doc::Object(after.members).member(key) is Some);
        }
    }
}

/// Every manifest of the store is listed in the report, the active one included.
pub proof fn every_manifest_of_the_store_is_listed(
    doc: Doc,
    manifests: Seq<ParsedManifest>,
    infos: Seq<Option<SignatureInfo>>,
    active: Seq<char>,
    left: nat,
    i: int,
)
    requires
        doc is Object,
        doc.member("manifests"@) is Some,
        doc.member("manifests"@)->0 is Object,
        doc.member("manifests"@)->0.member(active) is Some,
        0 <= i < manifests.len(),
    ensures
        with_store(doc, manifests, infos, active, left).member("manifests"@) is Some,
        with_store(doc, manifests, infos, active, left).member("manifests"@)->0.member(
            manifests[i].label@,
        ) is Some,
{
    let members = doc.member("manifests"@)->0->Object_0;
    let start = Listing { members, left };
    let key = manifests[i].label@;
    let n = manifests.len() as int;
    assert(json::member_index(members, active, 0) is Some);
    lemma_listing_keeps(manifests, n, infos, active, start, key);
    let all = listing(manifests, n, infos, active, start).members;
    lemma_puts(doc->Object_0, "manifests"@, Doc::Object(all));
}

/// The value of a hexadecimal digit.
pub open spec fn hex_value(c: char) -> int {
    if c <= '9' {
        c as int - '0' as int
    } else {
        c as int - 'a' as int + 10
    }
}

/// Bytes are written as two hexadecimal digits each, in order, and the two digits
/// stand for the byte.
pub proof fn hex_text_stands_for_its_bytes(b: Seq<u8>, k: nat, i: int)
    requires
        0 <= i < k <= b.len(),
    ensures
        hex_of(b, k).len() == 2 * k,
        hex_value(hex_of(b, k)[2 * i]) * 16 + hex_value(hex_of(b, k)[2 * i + 1]) == b[i],
    decreases k,
{
    let before = hex_of(b, (k - 1) as nat);
    if k > 1 {
        let j = if i < k - 1 {
            i
        } else {
            0
        };
        hex_text_stands_for_its_bytes(b, (k - 1) as nat, j);
    } else {
        assert(before.len() == 0);
    }
    let all = hex_of(b, k);
    assert(before.len() == 2 * (k - 1));
    if i < k - 1 {
        assert(all[2 * i] == before[2 * i]);
        assert(all[2 * i + 1] == before[2 * i + 1]);
    } else {
        let x = b[k - 1];
        assert(all[2 * i] == hex_digit((x / 16) as u8));
        assert(all[2 * i + 1] == hex_digit((x % 16) as u8));
        lemma_hex_digit((x / 16) as u8);
        lemma_hex_digit((x % 16) as u8);
    }
}

proof fn lemma_hex_digit(v: u8)
    requires
        v < 16,
    ensures
        hex_value(hex_digit(v)) == v,
{
}

} // verus!
