//! Fragmented streams: which binding covers the segments, and whether the
//! segments that were presented are the ones that were signed, in order.
//!
//! A stream is protected by a session key that the init manifest delivers, by a
//! Merkle tree in the init manifest, or by one manifest per segment. Which
//! binding a stream used is read off the claim-bound assertions, never taken
//! from a declaration.
use vstd::prelude::*;
use std::collections::BTreeMap;
use crate::bmff::{FragmentFacts, MerkleBox};
use crate::claim_refs;
use crate::hash;
use crate::hash::HashAlgorithm;
use crate::error::{Refusal, ValidateError};
use crate::labels;
use crate::labels::{is_supported_bmff_hash_label, numbered_instance};
use crate::live_video;
use crate::live_video::{
    validate_live_video_assertion, LiveState, LiveVideoApplicability, LiveVideoManifestState,
    StreamMethod, LIVEVIDEO_CONTINUITY_METHOD_INVALID, LIVEVIDEO_SEGMENT_INVALID,
};
use crate::manifest::{AssertionBox, ParsedManifest, Payload};
use crate::output;
use crate::output::{restate_results, Output, VerifyOutput, VersionVerdict};
use crate::pipeline::ManifestFacts;
use crate::profile::EngineProfile;
use crate::status;
use crate::status::{Results, Status, StatusCode, ASSERTION_BMFF_HASH_MISMATCH};
use crate::text;
use crate::text::{
    after_last, bytes_eq, debug_string, decimal_string, join2, join3, join4, join5, signed_string,
    str_eq,
};
use crate::value;
use crate::value::Value;
use crate::verdict::ValidationState;
use crate::verify;
use crate::verify::{verify, AssetInput, StoreReport};

verus! {

/// Informational: a Merkle binding declares fragment trees that were not
/// evaluated, because no fragment files were supplied.
pub const BMFF_FRAGMENTS_NOT_EVALUATED: &'static str = "com.encypher.bmffHash.fragmentsNotEvaluated";

/// Label of the claim-bound segment-identity assertion.
pub const LIVE_VIDEO_SEGMENT_LABEL: &'static str = "com.encypher.livevideo.segment";

/// Label of the session-key delivery assertion.
pub const SESSION_KEYS_LABEL: &'static str = "c2pa.session-keys";

/// Base label of the ingredient assertion that carries the chain link.
pub const INGREDIENT_ASSERTION_LABEL: &'static str = "c2pa.ingredient.v3";

pub open spec fn unit_view(r: Result<(), ValidateError>) -> Option<Refusal> {
    match r {
        Ok(_) => None,
        Err(e) => Some(e@),
    }
}

// ---------------------------------------------------------------------------
// Seeks and brands
// ---------------------------------------------------------------------------

/// What is wrong with the seek positions at or behind `i`.
pub open spec fn seek_refusal(
    positions: Seq<usize>,
    i: int,
    previous: Option<usize>,
    count: usize,
) -> Option<Refusal>
    decreases positions.len() - i,
{
    if i < 0 || i >= positions.len() {
        None
    } else if positions[i] >= count {
        Some(
            Refusal::Stream(
                "expected seek position "@ + text::decimal(positions[i] as nat) + " is outside "@
                    + text::decimal(count as nat) + " presented segment(s)"@,
            ),
        )
    } else if previous is Some && previous->0 >= positions[i] {
        Some(
            Refusal::Stream("expected seek positions must be unique and strictly increasing"@),
        )
    } else {
        seek_refusal(positions, i + 1, Some(positions[i]), count)
    }
}

/// Validate the caller's expected-seek signals before any signed bytes are
/// evaluated. Positions index the supplied portions and must be increasing, so
/// one signal suppresses exactly one boundary.
pub fn validate_expected_seek_positions(
    expected_seek_positions: &[usize],
    segment_count: usize,
) -> (r: Result<(), ValidateError>)
    ensures
        unit_view(r) == seek_refusal(expected_seek_positions@, 0, None, segment_count),
{
    let ghost s = expected_seek_positions@;
    let mut previous: Option<usize> = None;
    let mut i: usize = 0;
    while i < expected_seek_positions.len()
        invariant
            i <= expected_seek_positions.len(),
            s == expected_seek_positions@,
            seek_refusal(s, i as int, previous, segment_count) == seek_refusal(
                s,
                0,
                None,
                segment_count,
            ),
        decreases expected_seek_positions.len() - i,
    {
        let position = expected_seek_positions[i];
        if position >= segment_count {
            let p = decimal_string(position as u64);
            let n = decimal_string(segment_count as u64);
            return Err(
                ValidateError::Stream(
                    join5(
                        "expected seek position ",
                        p.as_str(),
                        " is outside ",
                        n.as_str(),
                        " presented segment(s)",
                    ),
                ),
            );
        }
        if let Some(prior) = previous {
            if prior >= position {
                return Err(
                    ValidateError::Stream(
                        "expected seek positions must be unique and strictly increasing".to_owned(),
                    ),
                );
            }
        }
        previous = Some(position);
        i += 1;
    }
    Ok(())
}

pub fn is_seek(positions: &[usize], position: usize) -> (r: bool)
    ensures
        r == positions@.contains(position),
{
    let mut i: usize = 0;
    while i < positions.len()
        invariant
            i <= positions.len(),
            forall|k: int| 0 <= k < i ==> positions@[k] != position,
        decreases positions.len() - i,
    {
        if positions[i] == position {
            assert(positions@.contains(position));
            return true;
        }
        i += 1;
    }
    false
}

/// What is wrong with the brand of the segments at or behind `i`.
pub open spec fn brand_refusal_from(
    defects: Seq<Option<String>>,
    i: int,
    encapsulation: Seq<char>,
) -> Option<Refusal>
    decreases defects.len() - i,
{
    if i < 0 || i >= defects.len() {
        None
    } else {
        match defects[i] {
            Some(e) => Some(
                Refusal::Stream(
                    encapsulation + " segment "@ + text::decimal(i as nat) + ": "@ + e@,
                ),
            ),
            None => brand_refusal_from(defects, i + 1, encapsulation),
        }
    }
}

/// What is wrong with the brands of a declared stream.
pub open spec fn brand_refusal(
    init_defect: Option<String>,
    defects: Seq<Option<String>>,
    encapsulation: Seq<char>,
) -> Option<Refusal> {
    match init_defect {
        Some(e) => Some(Refusal::Stream(encapsulation + " init segment: "@ + e@)),
        None => brand_refusal_from(defects, 0, encapsulation),
    }
}

/// Hold a declared stream to its brands, naming the offending file. The defects
/// are those that the container layer found, one entry per file.
pub fn check_stream_brands(
    init_defect: &Option<String>,
    segment_defects: &[Option<String>],
    encapsulation: &str,
) -> (r: Result<(), ValidateError>)
    ensures
        unit_view(r) == brand_refusal(*init_defect, segment_defects@, encapsulation@),
{
    if let Some(e) = init_defect {
        return Err(
            ValidateError::Stream(join3(encapsulation, " init segment: ", e.as_str())),
        );
    }
    let mut i: usize = 0;
    while i < segment_defects.len()
        invariant
            i <= segment_defects.len(),
            *init_defect is None,
            brand_refusal_from(segment_defects@, i as int, encapsulation@) == brand_refusal_from(
                segment_defects@,
                0,
                encapsulation@,
            ),
        decreases segment_defects.len() - i,
    {
        if let Some(e) = &segment_defects[i] {
            let n = decimal_string(i as u64);
            return Err(
                ValidateError::Stream(
                    join5(encapsulation, " segment ", n.as_str(), ": ", e.as_str()),
                ),
            );
        }
        i += 1;
    }
    Ok(())
}

// ---------------------------------------------------------------------------
// Claim-bound assertions
// ---------------------------------------------------------------------------

/// The reference names an assertion `label`, by what stands behind its last
/// assertion-store path segment.
pub open spec fn names_label(reference: Value, label: Seq<char>) -> bool {
    match reference.text_field("url"@) {
        Some(url) => text::behind_last(url, "c2pa.assertions/"@) == label,
        None => false,
    }
}

/// A reference under `key` names an assertion `label`.
pub open spec fn field_names_label(claim: Value, key: Seq<char>, label: Seq<char>) -> bool {
    exists|i: int|
        0 <= i < claim_refs::field_items(claim, key).len() && names_label(
            #[trigger] claim_refs::field_items(claim, key)[i],
            label,
        )
}

/// The claim of `m` references the assertion `label`, under the fields of either
/// claim generation.
pub open spec fn claim_references(m: ParsedManifest, label: Seq<char>) -> bool {
    match m.claim {
        Some(p) => match p.value {
            Some(claim) => field_names_label(claim, "assertions"@, label) || field_names_label(
                claim,
                "created_assertions"@,
                label,
            ) || field_names_label(claim, "gathered_assertions"@, label),
            None => false,
        },
        None => false,
    }
}

fn field_names(claim: &Value, key: &str, label: &str) -> (r: bool)
    ensures
        r == field_names_label(*claim, key@, label@),
{
    let items = match claim.get_items(key) {
        Some(items) => items,
        None => {
            return false;
        },
    };
    let ghost s = claim_refs::field_items(*claim, key@);
    assert(s == items@);
    let mut i: usize = 0;
    while i < items.len()
        invariant
            i <= items.len(),
            s == items@,
            s == claim_refs::field_items(*claim, key@),
            forall|k: int| 0 <= k < i ==> !names_label(#[trigger] s[k], label@),
        decreases items.len() - i,
    {
        if let Some(url) = items[i].get_text("url") {
            if str_eq(after_last(url, "c2pa.assertions/"), label) {
                assert(names_label(s[i as int], label@));
                return true;
            }
        }
        assert(!names_label(s[i as int], label@));
        i += 1;
    }
    false
}

/// Whether the claim of `m` references the assertion box labelled `label`.
///
/// A check that trusts a box which it merely found in the store could be fed an
/// injected one, so only claim-bound boxes count.
pub fn claim_references_assertion(m: &ParsedManifest, label: &str) -> (r: bool)
    ensures
        r == claim_references(*m, label@),
{
    match &m.claim {
        Some(p) => match &p.value {
            Some(claim) => field_names(claim, "assertions", label) || field_names(
                claim,
                "created_assertions",
                label,
            ) || field_names(claim, "gathered_assertions", label),
            None => false,
        },
        None => false,
    }
}

/// The positions of the boxes under `label` among the first `k`.
pub open spec fn boxes_named(boxes: Seq<AssertionBox>, label: Seq<char>, k: int) -> Seq<int>
    decreases k,
{
    if k <= 0 {
        Seq::empty()
    } else if boxes[k - 1].label@ == label {
        boxes_named(boxes, label, k - 1).push(k - 1)
    } else {
        boxes_named(boxes, label, k - 1)
    }
}

fn find_boxes(boxes: &Vec<AssertionBox>, label: &str) -> (r: (usize, usize))
    ensures
        ({
            let found = boxes_named(boxes@, label@, boxes@.len() as int);
            &&& r.0 == found.len()
            &&& r.0 > 0 ==> r.1 == found[0] && r.1 < boxes@.len()
        }),
{
    let mut n: usize = 0;
    let mut first: usize = 0;
    let mut i: usize = 0;
    while i < boxes.len()
        invariant
            i <= boxes.len(),
            n <= i,
            n == boxes_named(boxes@, label@, i as int).len(),
            n > 0 ==> first < i && first == boxes_named(boxes@, label@, i as int)[0],
        decreases boxes.len() - i,
    {
        if str_eq(boxes[i].label.as_str(), label) {
            if n == 0 {
                first = i;
            }
            n += 1;
        }
        i += 1;
    }
    (n, first)
}

// ---------------------------------------------------------------------------
// Session-key delivery
// ---------------------------------------------------------------------------

/// The init manifest's session-key delivery.
pub struct SessionKeyDelivery<'a> {
    /// The manifest identifier that every segment message must name.
    pub manifest_label: &'a str,
    /// The sole claim-bound delivery assertion, or why none can be honoured.
    pub session_keys: Result<&'a Payload, &'static str>,
}

/// A delivery as the contracts see it.
pub struct Delivery {
    pub label: Seq<char>,
    pub keys: Result<Payload, Seq<char>>,
}

impl<'a> View for SessionKeyDelivery<'a> {
    type V = Delivery;

    open spec fn view(&self) -> Delivery {
        Delivery {
            label: self.manifest_label@,
            keys: match self.session_keys {
                Ok(p) => Ok(*p),
                Err(e) => Err(e@),
            },
        }
    }
}

pub open spec fn delivery_opt(d: Option<SessionKeyDelivery>) -> Option<Delivery> {
    match d {
        Some(d) => Some(d@),
        None => None,
    }
}

/// The session-key delivery of the active manifest; nothing where the stream is
/// not a live session. A single unreferenced box is an injection and selects
/// nothing; of several, at least one is forged, so none is honoured.
pub open spec fn delivered(active: Option<ParsedManifest>) -> Option<Delivery> {
    match active {
        None => None,
        Some(m) => {
            let found = boxes_named(m.assertions@, SESSION_KEYS_LABEL@, m.assertions@.len() as int);
            if found.len() == 0 {
                None
            } else if found.len() > 1 {
                Some(
                    Delivery {
                        label: m.label@,
                        keys: Err(
                            "init manifest carries more than one session-key delivery assertion, so none of its keys can be trusted"@,
                        ),
                    },
                )
            } else if claim_references(m, SESSION_KEYS_LABEL@) {
                Some(Delivery { label: m.label@, keys: Ok(m.assertions@[found[0]].payload) })
            } else {
                None
            }
        },
    }
}

/// Read the session-key delivery of an init segment's active manifest.
pub fn session_key_delivery<'a>(active: Option<&'a ParsedManifest>) -> (r: Option<
    SessionKeyDelivery<'a>,
>)
    ensures
        delivery_opt(r) == delivered(value::pointee(active)),
{
    let m = match active {
        Some(m) => m,
        None => {
            return None;
        },
    };
    let (n, at) = find_boxes(&m.assertions, SESSION_KEYS_LABEL);
    if n == 0 {
        return None;
    }
    if n > 1 {
        return Some(
            SessionKeyDelivery {
                manifest_label: m.label.as_str(),
                session_keys: Err(
                    "init manifest carries more than one session-key delivery assertion, so none of its keys can be trusted",
                ),
            },
        );
    }
    if !claim_references_assertion(m, SESSION_KEYS_LABEL) {
        return None;
    }
    Some(
        SessionKeyDelivery {
            manifest_label: m.label.as_str(),
            session_keys: Ok(&m.assertions[at].payload),
        },
    )
}

// ---------------------------------------------------------------------------
// Fragment Merkle trees
// ---------------------------------------------------------------------------

/// A Merkle entry carries an init hash.
pub open spec fn has_init_entry(entries: Seq<Value>) -> bool {
    exists|i: int|
        0 <= i < entries.len() && (#[trigger] entries[i]).field("initHash"@) is Some
}

/// The box binds fragment files.
pub open spec fn binds_fragments(b: AssertionBox) -> bool {
    labels::bmff_hash_label(b.label@) && match b.payload.value {
        Some(v) => match v.items_field("merkle"@) {
            Some(entries) => has_init_entry(entries),
            None => false,
        },
        None => false,
    }
}

/// The position of the first box at or behind `i` that binds fragment files.
pub open spec fn fragment_box_from(boxes: Seq<AssertionBox>, i: int) -> Option<int>
    decreases boxes.len() - i,
{
    if i < 0 || i >= boxes.len() {
        None
    } else if binds_fragments(boxes[i]) {
        Some(i)
    } else {
        fragment_box_from(boxes, i + 1)
    }
}

/// The label of the binding that can cover fragment files.
pub open spec fn fragment_label(m: ParsedManifest) -> Option<Seq<char>> {
    match fragment_box_from(m.assertions@, 0) {
        Some(i) => Some(m.assertions@[i].label@),
        None => None,
    }
}

fn any_init_entry(entries: &[Value]) -> (r: bool)
    ensures
        r == has_init_entry(entries@),
{
    let mut i: usize = 0;
    while i < entries.len()
        invariant
            i <= entries.len(),
            forall|k: int| 0 <= k < i ==> (#[trigger] entries@[k]).field("initHash"@) is None,
        decreases entries.len() - i,
    {
        if entries[i].get("initHash").is_some() {
            assert(entries@[i as int].field("initHash"@) is Some);
            return true;
        }
        i += 1;
    }
    false
}

/// The hard binding that can cover fragment files: a supported BMFF hash
/// assertion with at least one Merkle entry that carries an init hash.
pub fn fragment_merkle_label<'a>(m: &'a ParsedManifest) -> (r: Option<&'a str>)
    ensures
        value::chars_opt(r) == fragment_label(*m),
{
    let mut i: usize = 0;
    while i < m.assertions.len()
        invariant
            i <= m.assertions.len(),
            fragment_box_from(m.assertions@, i as int) == fragment_box_from(m.assertions@, 0),
        decreases m.assertions.len() - i,
    {
        let b = &m.assertions[i];
        let binds = is_supported_bmff_hash_label(b.label.as_str()) && match &b.payload.value {
            Some(v) => match v.get_items("merkle") {
                Some(entries) => any_init_entry(entries),
                None => false,
            },
            None => false,
        };
        if binds {
            return Some(b.label.as_str());
        }
        i += 1;
    }
    None
}

/// The output with one more failure, and everything that follows from it.
pub open spec fn with_failure(
    o: Output,
    code: Seq<char>,
    url: Seq<char>,
    why: Seq<char>,
    p: EngineProfile,
) -> Output {
    output::restated(Output { results: o.results.fail(code, url, why), ..o }, p)
}

/// The output held to bind every supplied fragment.
pub open spec fn bound_output(
    o: Output,
    m: ParsedManifest,
    fragments: usize,
    p: EngineProfile,
) -> Output {
    if fragments == 0 || fragment_label(m) is Some {
        o
    } else {
        with_failure(
            o,
            LIVEVIDEO_SEGMENT_INVALID@,
            "self#jumbf=/c2pa/"@ + m.label@,
            text::decimal(fragments as nat)
                + " caller-supplied fragment(s) were not bound: the active manifest declares no fragment merkle tree. Verify this stream with the stream verifier, which selects the session-key or per-segment binding from the manifest"@,
            p,
        )
    }
}

/// Fail closed when caller-supplied fragments were never bound by any binding in
/// the active manifest: a fragment that nothing checked must never leave a
/// report that says integrity is valid.
pub fn require_fragments_bound(
    out: &mut VerifyOutput,
    m: &ParsedManifest,
    fragments: usize,
    p: EngineProfile,
)
    ensures
        final(out)@ == bound_output(old(out)@, *m, fragments, p),
{
    if fragments == 0 || fragment_merkle_label(m).is_some() {
        return;
    }
    let n = decimal_string(fragments as u64);
    out.results.push_failure(
        LIVEVIDEO_SEGMENT_INVALID,
        join2("self#jumbf=/c2pa/", m.label.as_str()),
        join2(
            n.as_str(),
            " caller-supplied fragment(s) were not bound: the active manifest declares no fragment merkle tree. Verify this stream with the stream verifier, which selects the session-key or per-segment binding from the manifest",
        ),
    );
    restate_results(out, p);
}

// ---------------------------------------------------------------------------
// Playback order
// ---------------------------------------------------------------------------

/// The one well-formed auxiliary box of a fragment.
pub open spec fn sole_box(f: FragmentFacts) -> Option<MerkleBox> {
    match f.merkle_boxes {
        Some(boxes) => if boxes@.len() == 1 {
            match boxes@[0] {
                Ok(b) => Some(b),
                Err(_) => None,
            }
        } else {
            None
        },
        None => None,
    }
}

/// The text for a break in the playback order.
pub open spec fn order_text(position: nat, b: MerkleBox, previous: usize) -> Seq<char> {
    "fragment "@ + text::decimal(position) + ": unexpected discontinuity at playback location "@
        + text::decimal(b.location as nat) + " after "@ + text::decimal(previous as nat)
        + " for uniqueId="@ + text::signed_decimal(b.unique_id as int) + " localId="@
        + text::signed_decimal(b.local_id as int)
}

/// The last playback location of each track, and the results.
pub struct OrderState {
    pub last: Map<(i128, i128), usize>,
    pub results: Results,
    pub failed: bool,
}

/// One fragment held to the playback order.
pub open spec fn after_fragment(
    f: FragmentFacts,
    position: nat,
    seek: bool,
    url: Seq<char>,
    s: OrderState,
) -> OrderState {
    let last = if seek {
        Map::empty()
    } else {
        s.last
    };
    match sole_box(f) {
        None => OrderState { last, ..s },
        Some(b) => {
            let key = (b.unique_id, b.local_id);
            let next = last.insert(key, b.location);
            if !last.contains_key(key) || b.location == last[key] + 1 {
                OrderState { last: next, ..s }
            } else {
                OrderState {
                    last: next,
                    results: s.results.fail(
                        ASSERTION_BMFF_HASH_MISMATCH@,
                        url,
                        order_text(position, b, last[key]),
                    ),
                    failed: true,
                }
            }
        },
    }
}

/// The first `k` fragments held to the playback order.
pub open spec fn after_fragments(
    fragments: Seq<FragmentFacts>,
    k: int,
    seeks: Seq<usize>,
    url: Seq<char>,
    s: OrderState,
) -> OrderState
    decreases k,
{
    if k <= 0 {
        s
    } else {
        after_fragment(
            fragments[k - 1],
            (k - 1) as nat,
            seeks.contains((k - 1) as usize),
            url,
            after_fragments(fragments, k - 1, seeks, url, s),
        )
    }
}

/// The output held to the signed playback order.
pub open spec fn ordered_output(
    o: Output,
    m: ParsedManifest,
    fragments: Seq<FragmentFacts>,
    seeks: Seq<usize>,
    p: EngineProfile,
) -> Output {
    match fragment_label(m) {
        None => o,
        Some(label) => {
            let s = after_fragments(
                fragments,
                fragments.len() as int,
                seeks,
                "self#jumbf=/c2pa/"@ + m.label@ + "/c2pa.assertions/"@ + label,
                OrderState { last: Map::empty(), results: o.results, failed: false },
            );
            let after = Output { results: s.results, ..o };
            if s.failed {
                output::restated(after, p)
            } else {
                after
            }
        },
    }
}

/// Track keys are ordered by their own comparison.
spec fn tracks_ordered() -> bool {
    vstd::laws_cmp::obeys_cmp::<(i128, i128)>()
}

proof fn tracks_are_ordered()
    ensures
        tracks_ordered(),
{
    broadcast use vstd::laws_cmp::group_laws_cmp;

}

fn order_message(position: usize, b: &MerkleBox, previous: usize) -> (r: String)
    ensures
        r@ == order_text(position as nat, *b, previous),
{
    let n = decimal_string(position as u64);
    let at = decimal_string(b.location as u64);
    let was = decimal_string(previous as u64);
    let u = signed_string(b.unique_id);
    let l = signed_string(b.local_id);
    let head = join5(
        "fragment ",
        n.as_str(),
        ": unexpected discontinuity at playback location ",
        at.as_str(),
        " after ",
    );
    let mid = join5(head.as_str(), was.as_str(), " for uniqueId=", u.as_str(), " localId=");
    let out = join2(mid.as_str(), l.as_str());
    assert(out@ =~= order_text(position as nat, *b, previous));
    out
}

fn sole_box_of(f: &FragmentFacts) -> (r: Option<&MerkleBox>)
    ensures
        value::pointee(r) == sole_box(*f),
{
    match &f.merkle_boxes {
        Some(boxes) => {
            if boxes.len() == 1 {
                match &boxes[0] {
                    Ok(b) => Some(b),
                    Err(_) => None,
                }
            } else {
                None
            }
        },
        None => None,
    }
}

/// Enforce the signed Merkle-leaf playback order, allowing a discontinuity only
/// at a position that the player explicitly marked as an expected seek.
pub fn validate_fragment_sequence(
    out: &mut VerifyOutput,
    m: &ParsedManifest,
    fragments: &[FragmentFacts],
    expected_seek_positions: &[usize],
    p: EngineProfile,
)
    ensures
        final(out)@ == ordered_output(
            old(out)@,
            *m,
            fragments@,
            expected_seek_positions@,
            p,
        ),
{
    let label = match fragment_merkle_label(m) {
        Some(label) => label,
        None => {
            return;
        },
    };
    proof {
        tracks_are_ordered();
    }
    let url = join4("self#jumbf=/c2pa/", m.label.as_str(), "/c2pa.assertions/", label);
    let ghost start = OrderState { last: Map::empty(), results: out@.results, failed: false };
    let mut last: BTreeMap<(i128, i128), usize> = BTreeMap::new();
    let mut failed = false;
    let mut i: usize = 0;
    assert(last@ =~= Map::empty());
    while i < fragments.len()
        invariant
            i <= fragments.len(),
            tracks_ordered(),
            out@ == (Output { results: out@.results, ..old(out)@ }),
            (OrderState { last: last@, results: out@.results, failed }) == after_fragments(
                fragments@,
                i as int,
                expected_seek_positions@,
                url@,
                start,
            ),
        decreases fragments.len() - i,
    {
        if is_seek(expected_seek_positions, i) {
            last = BTreeMap::new();
            assert(last@ =~= Map::empty());
        }
        if let Some(b) = sole_box_of(&fragments[i]) {
            let key = (b.unique_id, b.local_id);
            if let Some(previous) = last.insert(key, b.location) {
                let follows = match previous.checked_add(1) {
                    Some(next) => b.location == next,
                    None => false,
                };
                if !follows {
                    failed = true;
                    let why = order_message(i, b, previous);
                    out.results.push_failure(
                        ASSERTION_BMFF_HASH_MISMATCH,
                        url.as_str().to_owned(),
                        why,
                    );
                }
            }
        }
        i += 1;
    }
    if failed {
        restate_results(out, p);
    }
}

// ---------------------------------------------------------------------------
// Segment declarations
// ---------------------------------------------------------------------------

/// The segment-identity fields that a segment declares. Every field is optional,
/// so a malformed assertion is reported precisely.
#[derive(Clone, Copy)]
pub struct DeclaredSegment<'a> {
    pub sequence_number: Option<i128>,
    pub stream_id: Option<&'a str>,
    pub encapsulation: Option<&'a str>,
    pub method: Option<&'a str>,
    pub previous_manifest_id: Option<&'a str>,
}

/// A declaration as the contracts see it.
pub struct Declared {
    pub sequence: Option<i128>,
    pub stream: Option<Seq<char>>,
    pub encapsulation: Option<Seq<char>>,
    pub method: Option<Seq<char>>,
    pub previous: Option<Seq<char>>,
}

impl<'a> View for DeclaredSegment<'a> {
    type V = Declared;

    open spec fn view(&self) -> Declared {
        Declared {
            sequence: self.sequence_number,
            stream: value::chars_opt(self.stream_id),
            encapsulation: value::chars_opt(self.encapsulation),
            method: value::chars_opt(self.method),
            previous: value::chars_opt(self.previous_manifest_id),
        }
    }
}

/// The integer under `key`.
pub open spec fn integer_field(v: Value, key: Seq<char>) -> Option<i128> {
    match v.field(key) {
        Some(Value::Integer(n)) => Some(n),
        _ => None,
    }
}

/// What a segment-identity assertion declares.
pub open spec fn declared_fields(v: Value) -> Declared {
    Declared {
        sequence: integer_field(v, "sequenceNumber"@),
        stream: v.text_field("streamId"@),
        encapsulation: v.text_field("encapsulation"@),
        method: v.text_field("method"@),
        previous: v.text_field("previousManifestId"@),
    }
}

/// The sole claim-bound segment-identity assertion of a manifest, or why there
/// is none to trust.
pub open spec fn declaration(m: ParsedManifest) -> Result<Value, Seq<char>> {
    let found = boxes_named(
        m.assertions@,
        LIVE_VIDEO_SEGMENT_LABEL@,
        m.assertions@.len() as int,
    );
    if found.len() == 0 {
        Err("missing segment-identity assertion"@)
    } else if found.len() > 1 {
        Err(
            "carries more than one segment-identity assertion, so its declared ordering cannot be trusted"@,
        )
    } else if !claim_references(m, LIVE_VIDEO_SEGMENT_LABEL@) {
        Err("segment-identity assertion is not referenced by the claim"@)
    } else {
        match m.assertions@[found[0]].payload.value {
            Some(v) => Ok(v),
            None => Err("segment-identity assertion is not decodable CBOR"@),
        }
    }
}

pub open spec fn declaration_view(r: Result<&Value, &str>) -> Result<Value, Seq<char>> {
    match r {
        Ok(v) => Ok(*v),
        Err(e) => Err(e@),
    }
}

/// The sole claim-bound segment-identity assertion of `m`. A duplicate is
/// refused before any value is read.
pub fn read_declaration<'a>(m: &'a ParsedManifest) -> (r: Result<&'a Value, &'static str>)
    ensures
        declaration_view(r) == declaration(*m),
{
    let (n, at) = find_boxes(&m.assertions, LIVE_VIDEO_SEGMENT_LABEL);
    if n == 0 {
        return Err("missing segment-identity assertion");
    }
    if n > 1 {
        return Err(
            "carries more than one segment-identity assertion, so its declared ordering cannot be trusted",
        );
    }
    if !claim_references_assertion(m, LIVE_VIDEO_SEGMENT_LABEL) {
        return Err("segment-identity assertion is not referenced by the claim");
    }
    match &m.assertions[at].payload.value {
        Some(v) => Ok(v),
        None => Err("segment-identity assertion is not decodable CBOR"),
    }
}

fn fields_of<'a>(v: &'a Value) -> (r: DeclaredSegment<'a>)
    ensures
        r@ == declared_fields(*v),
{
    let sequence_number = match v.get("sequenceNumber") {
        Some(Value::Integer(n)) => Some(*n),
        _ => None,
    };
    DeclaredSegment {
        sequence_number,
        stream_id: v.get_text("streamId"),
        encapsulation: v.get_text("encapsulation"),
        method: v.get_text("method"),
        previous_manifest_id: v.get_text("previousManifestId"),
    }
}

// ---------------------------------------------------------------------------
// Parent links
// ---------------------------------------------------------------------------

/// The base ingredient label or one of its numbered instances.
pub open spec fn ingredient_label(label: Seq<char>) -> bool {
    label == INGREDIENT_ASSERTION_LABEL@ || labels::is_numbered_instance(
        label,
        INGREDIENT_ASSERTION_LABEL@,
    )
}

/// Whether `label` names an ingredient assertion.
pub fn is_ingredient_label(label: &str) -> (r: bool)
    ensures
        r == ingredient_label(label@),
{
    str_eq(label, INGREDIENT_ASSERTION_LABEL) || numbered_instance(
        label,
        INGREDIENT_ASSERTION_LABEL,
    )
}

/// The box is a decodable ingredient that names a parent.
pub open spec fn is_parent(b: AssertionBox) -> bool {
    ingredient_label(b.label@) && match b.payload.value {
        Some(v) => v.text_field("relationship"@) == Some("parentOf"@),
        None => false,
    }
}

/// The positions of the parent ingredients among the first `k` boxes.
pub open spec fn parents_among(boxes: Seq<AssertionBox>, k: int) -> Seq<int>
    decreases k,
{
    if k <= 0 {
        Seq::empty()
    } else if is_parent(boxes[k - 1]) {
        parents_among(boxes, k - 1).push(k - 1)
    } else {
        parents_among(boxes, k - 1)
    }
}

/// The digest under `activeManifest` of an ingredient.
pub open spec fn active_digest(v: Value) -> Option<Seq<u8>> {
    match v.field("activeManifest"@) {
        Some(a) => a.bytes_field("hash"@),
        None => None,
    }
}

/// The digest that the sole claim-bound parent ingredient names; nothing where
/// there is no parent, an error where the link cannot be trusted.
pub open spec fn parent_link(m: ParsedManifest) -> Result<Option<Seq<u8>>, Seq<char>> {
    let parents = parents_among(m.assertions@, m.assertions@.len() as int);
    if parents.len() == 0 {
        Ok(None)
    } else if parents.len() > 1 {
        Err(
            "carries more than one parentOf ingredient assertion, so its chain link cannot be trusted"@,
        )
    } else if !claim_references(m, m.assertions@[parents[0]].label@) {
        Err("parentOf ingredient assertion is not referenced by the claim"@)
    } else {
        match active_digest(m.assertions@[parents[0]].payload.value->0) {
            Some(d) => Ok(Some(d)),
            None => Err("parentOf ingredient assertion carries no activeManifest hash"@),
        }
    }
}

pub open spec fn link_view(r: Result<Option<&[u8]>, &str>) -> Result<Option<Seq<u8>>, Seq<char>> {
    match r {
        Ok(d) => Ok(value::bytes_opt(d)),
        Err(e) => Err(e@),
    }
}

fn names_parent(b: &AssertionBox) -> (r: bool)
    ensures
        r == is_parent(*b),
{
    is_ingredient_label(b.label.as_str()) && match &b.payload.value {
        Some(v) => match v.get_text("relationship") {
            Some(t) => str_eq(t, "parentOf"),
            None => false,
        },
        None => false,
    }
}

/// The `activeManifest` digest of `m`'s sole claim-bound parent ingredient.
/// Siblings with other relationships are ignored: a manifest may carry several
/// ingredients, but it has at most one parent.
pub fn read_parent_link<'a>(m: &'a ParsedManifest) -> (r: Result<Option<&'a [u8]>, &'static str>)
    ensures
        link_view(r) == parent_link(*m),
{
    let mut n: usize = 0;
    let mut at: usize = 0;
    let mut i: usize = 0;
    while i < m.assertions.len()
        invariant
            i <= m.assertions.len(),
            n <= i,
            n == parents_among(m.assertions@, i as int).len(),
            n > 0 ==> at < i && at == parents_among(m.assertions@, i as int)[0] && is_parent(
                m.assertions@[at as int],
            ),
        decreases m.assertions.len() - i,
    {
        if names_parent(&m.assertions[i]) {
            if n == 0 {
                at = i;
            }
            n += 1;
        }
        i += 1;
    }
    if n == 0 {
        return Ok(None);
    }
    if n > 1 {
        return Err(
            "carries more than one parentOf ingredient assertion, so its chain link cannot be trusted",
        );
    }
    let b = &m.assertions[at];
    if !claim_references_assertion(m, b.label.as_str()) {
        return Err("parentOf ingredient assertion is not referenced by the claim");
    }
    let digest: Option<&'a [u8]> = match &b.payload.value {
        Some(v) => match v.get("activeManifest") {
            Some(a) => a.get_bytes("hash"),
            None => None,
        },
        None => None,
    };
    match digest {
        Some(d) => Ok(Some(d)),
        None => Err("parentOf ingredient assertion carries no activeManifest hash"),
    }
}

// ---------------------------------------------------------------------------
// Chain checks
// ---------------------------------------------------------------------------

/// The tokens and the names that a stream was declared with.
#[derive(Debug)]
pub struct StreamNames {
    pub encapsulation_token: String,
    pub encapsulation_name: String,
    pub method_token: String,
    pub method_name: String,
}

/// An optional text in debug form.
pub open spec fn debug_opt(t: Option<Seq<char>>) -> Seq<char> {
    match t {
        Some(s) => "Some("@ + text::debug_of(s) + ")"@,
        None => "None"@,
    }
}

pub open spec fn segment_prefix(position: nat) -> Seq<char> {
    "segment "@ + text::decimal(position) + ": "@
}

/// What is wrong with the declared sequence number.
pub open spec fn sequence_fault(
    sequence: Option<i128>,
    expected: Option<i128>,
    seek: bool,
) -> Option<Seq<char>> {
    match sequence {
        None => Some(LIVE_VIDEO_SEGMENT_LABEL@ + " has no sequenceNumber"@),
        Some(n) => if seek {
            if n >= 0 {
                None
            } else {
                Some("declares invalid sequenceNumber "@ + text::signed_decimal(n as int))
            }
        } else {
            match expected {
                Some(e) => if n == e {
                    None
                } else {
                    Some(
                        "unexpected sequence discontinuity, declares sequenceNumber "@
                            + text::signed_decimal(n as int) + ", expected "@
                            + text::signed_decimal(e as int),
                    )
                },
                None => Some(
                    "sequenceNumber "@ + text::signed_decimal(n as int)
                        + " cannot follow an exhausted sequence"@,
                ),
            }
        },
    }
}

/// What is wrong with the declared stream.
pub open spec fn stream_fault(
    declared: Option<Seq<char>>,
    known: Option<Seq<char>>,
) -> Option<Seq<char>> {
    match (declared, known) {
        (Some(d), Some(k)) => if d == k {
            None
        } else {
            Some(
                "declares streamId "@ + text::debug_of(d) + ", expected "@ + text::debug_of(k),
            )
        },
        (Some(_), None) => None,
        (None, _) => Some(LIVE_VIDEO_SEGMENT_LABEL@ + " has no streamId"@),
    }
}

/// What is wrong with a declared token.
pub open spec fn token_fault(
    what: Seq<char>,
    declared: Option<Seq<char>>,
    token: Seq<char>,
    name: Seq<char>,
) -> Option<Seq<char>> {
    if declared == Some(token) {
        None
    } else {
        Some("declares "@ + what + " "@ + debug_opt(declared) + ", verified as "@ + name)
    }
}

/// `failures` with one more line about a segment, where there is a fault.
pub open spec fn with_line(failures: Seq<Seq<char>>, position: nat, fault: Option<Seq<char>>) -> Seq<
    Seq<char>,
> {
    match fault {
        Some(f) => failures.push(segment_prefix(position) + f),
        None => failures,
    }
}

/// The failures with a declaration held to the presented stream.
pub open spec fn after_declaration(
    position: nat,
    d: Declared,
    expected: Option<i128>,
    seek: bool,
    names: StreamNames,
    stream: Option<Seq<char>>,
    failures: Seq<Seq<char>>,
) -> Seq<Seq<char>> {
    let a = with_line(failures, position, sequence_fault(d.sequence, expected, seek));
    let b = with_line(a, position, stream_fault(d.stream, stream));
    let c = with_line(
        b,
        position,
        token_fault(
            "encapsulation"@,
            d.encapsulation,
            names.encapsulation_token@,
            names.encapsulation_name@,
        ),
    );
    with_line(
        c,
        position,
        token_fault("method"@, d.method, names.method_token@, names.method_name@),
    )
}

/// The stream that the segments belong to, once one declared it.
pub open spec fn known_stream(stream: Option<Seq<char>>, d: Declared) -> Option<Seq<char>> {
    match stream {
        Some(s) => Some(s),
        None => d.stream,
    }
}

/// Texts of strings.
pub open spec fn texts(s: Seq<String>) -> Seq<Seq<char>> {
    s.map_values(|t: String| t@)
}

pub open spec fn text_opt(t: Option<String>) -> Option<Seq<char>> {
    match t {
        Some(t) => Some(t@),
        None => None,
    }
}

fn push_line(failures: &mut Vec<String>, position: usize, fault: &str)
    ensures
        texts(final(failures)@) == texts(old(failures)@).push(
            segment_prefix(position as nat) + fault@,
        ),
{
    let n = decimal_string(position as u64);
    let line = join4("segment ", n.as_str(), ": ", fault);
    failures.push(line);
    assert(texts(failures@) =~= texts(old(failures)@).push(line@));
    assert(line@ =~= segment_prefix(position as nat) + fault@);
}

fn push_fault(failures: &mut Vec<String>, position: usize, fault: Option<String>)
    ensures
        texts(final(failures)@) == with_line(
            texts(old(failures)@),
            position as nat,
            text_opt(fault),
        ),
{
    if let Some(f) = fault {
        push_line(failures, position, f.as_str());
    }
}

fn debug_optional(t: Option<&str>) -> (r: String)
    ensures
        r@ == debug_opt(value::chars_opt(t)),
{
    match t {
        Some(s) => {
            let d = debug_string(s);
            join3("Some(", d.as_str(), ")")
        },
        None => "None".to_owned(),
    }
}

fn check_sequence(sequence: Option<i128>, expected: Option<i128>, seek: bool) -> (r: Option<String>)
    ensures
        text_opt(r) == sequence_fault(sequence, expected, seek),
{
    let n = match sequence {
        Some(n) => n,
        None => {
            return Some(join2(LIVE_VIDEO_SEGMENT_LABEL, " has no sequenceNumber"));
        },
    };
    let shown = signed_string(n);
    if seek {
        if n >= 0 {
            return None;
        }
        return Some(join2("declares invalid sequenceNumber ", shown.as_str()));
    }
    match expected {
        Some(e) => {
            if n == e {
                return None;
            }
            let wanted = signed_string(e);
            Some(
                join4(
                    "unexpected sequence discontinuity, declares sequenceNumber ",
                    shown.as_str(),
                    ", expected ",
                    wanted.as_str(),
                ),
            )
        },
        None => Some(
            join3("sequenceNumber ", shown.as_str(), " cannot follow an exhausted sequence"),
        ),
    }
}

fn check_stream_id(declared: Option<&str>, known: &Option<String>) -> (r: Option<String>)
    ensures
        text_opt(r) == stream_fault(value::chars_opt(declared), text_opt(*known)),
{
    match declared {
        None => Some(join2(LIVE_VIDEO_SEGMENT_LABEL, " has no streamId")),
        Some(d) => match known {
            None => None,
            Some(k) => {
                if str_eq(d, k.as_str()) {
                    None
                } else {
                    let a = debug_string(d);
                    let b = debug_string(k.as_str());
                    Some(join4("declares streamId ", a.as_str(), ", expected ", b.as_str()))
                }
            },
        },
    }
}

fn check_token(what: &str, declared: Option<&str>, token: &str, name: &str) -> (r: Option<String>)
    ensures
        text_opt(r) == token_fault(what@, value::chars_opt(declared), token@, name@),
{
    let same = match declared {
        Some(d) => str_eq(d, token),
        None => false,
    };
    if same {
        return None;
    }
    let shown = debug_optional(declared);
    let head = join4("declares ", what, " ", shown.as_str());
    Some(join3(head.as_str(), ", verified as ", name))
}

/// Cross-check one segment's declared identity against the presented stream.
pub fn check_declaration(
    position: usize,
    declared: &DeclaredSegment,
    expected_sequence_number: Option<i128>,
    expected_seek: bool,
    names: &StreamNames,
    stream_id: &mut Option<String>,
    failures: &mut Vec<String>,
)
    ensures
        texts(final(failures)@) == after_declaration(
            position as nat,
            declared@,
            expected_sequence_number,
            expected_seek,
            *names,
            text_opt(*old(stream_id)),
            texts(old(failures)@),
        ),
        text_opt(*final(stream_id)) == known_stream(text_opt(*old(stream_id)), declared@),
{
    let fault = check_sequence(
        declared.sequence_number,
        expected_sequence_number,
        expected_seek,
    );
    push_fault(failures, position, fault);
    let fault = check_stream_id(declared.stream_id, stream_id);
    push_fault(failures, position, fault);
    if stream_id.is_none() {
        *stream_id = match declared.stream_id {
            Some(s) => Some(s.to_owned()),
            None => None,
        };
    }
    let fault = check_token(
        "encapsulation",
        declared.encapsulation,
        names.encapsulation_token.as_str(),
        names.encapsulation_name.as_str(),
    );
    push_fault(failures, position, fault);
    let fault = check_token(
        "method",
        declared.method,
        names.method_token.as_str(),
        names.method_name.as_str(),
    );
    push_fault(failures, position, fault);
}

/// The chain-report line for one filed live-video status. The status code
/// decides the wording.
pub open spec fn chain_line(
    code: Seq<char>,
    expected_label: Seq<char>,
    claimed: Option<Seq<char>>,
) -> Seq<char> {
    if code == LIVEVIDEO_SEGMENT_INVALID@ {
        "previousManifestId "@ + debug_opt(claimed) + " does not name the preceding manifest "@
            + text::debug_of(expected_label)
    } else if code == LIVEVIDEO_CONTINUITY_METHOD_INVALID@ {
        "declares no usable manifest-ID continuity; expected previousManifestId "@
            + text::debug_of(expected_label)
    } else {
        "declared live-video sequence or stream does not follow the preceding segment"@
    }
}

fn live_chain_failure(code: &str, expected_label: &str, claimed: Option<&str>) -> (r: String)
    ensures
        r@ == chain_line(code@, expected_label@, value::chars_opt(claimed)),
{
    let label = debug_string(expected_label);
    if str_eq(code, LIVEVIDEO_SEGMENT_INVALID) {
        let shown = debug_optional(claimed);
        join4(
            "previousManifestId ",
            shown.as_str(),
            " does not name the preceding manifest ",
            label.as_str(),
        )
    } else if str_eq(code, LIVEVIDEO_CONTINUITY_METHOD_INVALID) {
        join2(
            "declares no usable manifest-ID continuity; expected previousManifestId ",
            label.as_str(),
        )
    } else {
        "declared live-video sequence or stream does not follow the preceding segment".to_owned()
    }
}

/// The failures with a line for each status from `from` up to `k`.
pub open spec fn with_chain_lines(
    failures: Seq<Seq<char>>,
    filed: Seq<Status>,
    from: int,
    k: int,
    position: nat,
    expected_label: Seq<char>,
    claimed: Option<Seq<char>>,
) -> Seq<Seq<char>>
    decreases k - from,
{
    if k <= from {
        failures
    } else {
        with_line(
            with_chain_lines(failures, filed, from, k - 1, position, expected_label, claimed),
            position,
            Some(chain_line(filed[k - 1].code, expected_label, claimed)),
        )
    }
}

/// The continuity state that a successor is compared against: what the segment
/// declares, with the manifest identity that it must be named by.
pub open spec fn declared_state(d: Declared, manifest_label: Seq<char>) -> Option<LiveState> {
    match (d.sequence, d.stream) {
        (Some(n), Some(stream)) => if 0 <= n <= u64::MAX {
            Some(LiveState { sequence: n as u64, stream, manifest: manifest_label })
        } else {
            None
        },
        _ => None,
    }
}

fn declared_live_state(d: &DeclaredSegment, manifest_label: &str) -> (r: Option<
    LiveVideoManifestState,
>)
    ensures
        live_video::state_opt(r) == declared_state(d@, manifest_label@),
{
    match (d.sequence_number, d.stream_id) {
        (Some(n), Some(stream)) => {
            if n >= 0 && n <= 18446744073709551615 {
                Some(
                    LiveVideoManifestState {
                        sequence_number: n as u64,
                        stream_id: stream.to_owned(),
                        manifest_id: manifest_label.to_owned(),
                    },
                )
            } else {
                None
            }
        },
        _ => None,
    }
}

// ---------------------------------------------------------------------------
// Per-segment streams
// ---------------------------------------------------------------------------

/// One presented segment, as an asset of its own: what was extracted from it and
/// what is known of its active manifest.
pub struct SegmentAsset<'a> {
    pub asset: AssetInput<'a>,
    pub extracted: Result<Option<StoreReport>, String>,
    pub facts: ManifestFacts,
    pub version: VersionVerdict,
}

impl<'a> SegmentAsset<'a> {
    /// The segment stands on its own under the profile `p`, and the facts fit it.
    pub open spec fn ready(self, p: EngineProfile) -> bool {
        &&& self.asset.engine == p
        &&& self.facts.asset.fragments@.len() == 0
        &&& verify::extraction_ready(
            self.asset@,
            self.asset.verification_time,
            self.extracted,
            self.facts,
        )
    }
}

/// The active manifest of a segment and the content of its superbox.
struct ActiveManifest {
    manifest: ParsedManifest,
    content: Vec<u8>,
}

/// An active manifest with the digest that a link to it names.
spec fn linkable(active: Option<ActiveManifest>) -> Option<(ParsedManifest, Seq<u8>)> {
    match active {
        Some(a) => Some((a.manifest, hash::digest_of(HashAlgorithm::Sha256, a.content@))),
        None => None,
    }
}

/// A segment with its standalone verification and its active manifest, where it
/// carries one.
struct SegmentInput {
    output: VerifyOutput,
    active: Option<ActiveManifest>,
}

/// One segment's independent verification with the identity it declares.
#[derive(Debug)]
pub struct SegmentVerification {
    /// Zero-based position in the presented stream.
    pub sequence_number: usize,
    /// Active manifest label, empty when the segment carries no manifest.
    pub manifest_label: String,
    /// The predecessor this segment declares, if any.
    pub previous_manifest_label: Option<String>,
    /// What a consumer that received only this segment would see.
    pub output: VerifyOutput,
}

/// A segment's verification as the contracts see it.
pub struct Verified {
    pub position: nat,
    pub label: Seq<char>,
    pub previous: Option<Seq<char>>,
    pub output: Output,
}

impl View for SegmentVerification {
    type V = Verified;

    open spec fn view(&self) -> Verified {
        Verified {
            position: self.sequence_number as nat,
            label: self.manifest_label@,
            previous: text_opt(self.previous_manifest_label),
            output: self.output@,
        }
    }
}

/// A presented segment as the contracts see it: what verifying it on its own
/// came to, and its active manifest with the digest that a link to it names.
pub struct Presented {
    pub output: Output,
    pub active: Option<(ParsedManifest, Seq<u8>)>,
}

impl View for SegmentInput {
    type V = Presented;

    closed spec fn view(&self) -> Presented {
        Presented {
            output: self.output@,
            active: linkable(self.active),
        }
    }
}

/// What is known of a stream after some of its segments.
pub struct Chain {
    pub failures: Seq<Seq<char>>,
    /// The predecessor's label and digest.
    pub previous: Option<(Seq<char>, Seq<u8>)>,
    /// The predecessor's declared continuity state.
    pub live: Option<LiveState>,
    pub next: Option<i128>,
    pub stream: Option<Seq<char>>,
}

/// The declaration of a segment, where it has one to trust.
pub open spec fn segment_declaration(seg: Presented) -> Option<Value> {
    match seg.active {
        Some((m, _)) => match declaration(m) {
            Ok(v) => Some(v),
            Err(_) => None,
        },
        None => None,
    }
}

pub open spec fn segment_label(seg: Presented) -> Seq<char> {
    match seg.active {
        Some((m, _)) => m.label@,
        None => Seq::empty(),
    }
}

/// What is wrong with the segment on its own.
pub open spec fn standalone_failures(
    seg: Presented,
    position: nat,
    failures: Seq<Seq<char>>,
) -> Seq<Seq<char>> {
    let a = with_line(
        failures,
        position,
        if seg.active is None {
            Some("carries no C2PA manifest"@)
        } else {
            None
        },
    );
    let b = with_line(
        a,
        position,
        if seg.output.state == ValidationState::Invalid {
            Some("standalone validation state is Invalid"@)
        } else {
            None
        },
    );
    with_line(
        b,
        position,
        match seg.active {
            Some((m, _)) => match declaration(m) {
                Err(e) => Some(e),
                Ok(_) => None,
            },
            None => None,
        },
    )
}

/// The successor of a declared sequence number.
pub open spec fn following(d: Declared) -> Option<i128> {
    match d.sequence {
        Some(n) => if 0 <= n < i128::MAX {
            Some((n + 1) as i128)
        } else {
            None
        },
        None => None,
    }
}

/// The continuity of a segment: its results and the chain failures.
pub open spec fn continuity_outcome(
    seg: Presented,
    position: nat,
    seek: bool,
    claimed: Option<Seq<char>>,
    c: Chain,
    failures: Seq<Seq<char>>,
    p: EngineProfile,
) -> (Output, Seq<Seq<char>>) {
    if c.live is Some || seek {
        match seg.active {
            None => (seg.output, failures),
            Some((m, _)) => {
                let (state, after) = live_video::live_video_outcome(
                    StreamMethod::PerSegment,
                    segment_declaration(seg),
                    m.label@,
                    if seek {
                        None
                    } else {
                        c.live
                    },
                    "self#jumbf=/c2pa/"@ + m.label@ + "/c2pa.assertions/"@
                        + LIVE_VIDEO_SEGMENT_LABEL@,
                    seg.output.results,
                );
                let o = Output { results: after, ..seg.output };
                if state is Some {
                    (o, failures)
                } else {
                    (
                        output::restated(o, p),
                        with_chain_lines(
                            failures,
                            after.failure,
                            seg.output.results.failure.len() as int,
                            after.failure.len() as int,
                            position,
                            match c.live {
                                Some(l) => l.manifest,
                                None => Seq::empty(),
                            },
                            claimed,
                        ),
                    )
                }
            },
        }
    } else {
        (
            seg.output,
            with_line(
                failures,
                position,
                match (c.previous, claimed) {
                    (None, Some(t)) => Some(
                        "declares previousManifestId "@ + text::debug_of(t)
                            + " but has no predecessor"@,
                    ),
                    _ => None,
                },
            ),
        )
    }
}

/// What is wrong with the authenticated link of a segment to its predecessor.
pub open spec fn link_fault(seg: Presented, seek: bool, c: Chain) -> Option<Seq<char>> {
    match seg.active {
        None => None,
        Some((m, _)) => match (c.previous, parent_link(m)) {
            (_, Err(e)) => Some(e),
            (Some((label, _)), Ok(None)) => Some(
                "no parentOf "@ + INGREDIENT_ASSERTION_LABEL@ + " assertion linking to manifest "@
                    + text::debug_of(label),
            ),
            (Some((_, digest)), Ok(Some(linked))) => if !seek && linked != digest {
                Some(
                    "ingredient activeManifest hash does not match the preceding segment's manifest"@,
                )
            } else {
                None
            },
            (None, Ok(Some(_))) => Some(
                "carries a parentOf "@ + INGREDIENT_ASSERTION_LABEL@
                    + " assertion but has no predecessor"@,
            ),
            (None, Ok(None)) => None,
        },
    }
}

/// One segment of a stream.
pub open spec fn after_segment(
    seg: Presented,
    position: nat,
    seek: bool,
    names: StreamNames,
    p: EngineProfile,
    c: Chain,
) -> (Chain, Verified) {
    let alone = standalone_failures(seg, position, c.failures);
    let declared = match segment_declaration(seg) {
        Some(v) => Some(declared_fields(v)),
        None => None,
    };
    let checked = match declared {
        Some(d) => after_declaration(
            position,
            d,
            if seek {
                None
            } else {
                c.next
            },
            seek,
            names,
            c.stream,
            alone,
        ),
        None => alone,
    };
    let claimed = match declared {
        Some(d) => d.previous,
        None => None,
    };
    let (o, continued) = continuity_outcome(seg, position, seek, claimed, c, checked, p);
    (
        Chain {
            failures: with_line(continued, position, link_fault(seg, seek, c)),
            previous: match seg.active {
                Some((m, digest)) => Some((m.label@, digest)),
                None => None,
            },
            live: match declared {
                Some(d) => declared_state(d, segment_label(seg)),
                None => None,
            },
            next: match declared {
                Some(d) => following(d),
                None => None,
            },
            stream: match declared {
                Some(d) => known_stream(c.stream, d),
                None => c.stream,
            },
        },
        Verified { position, label: segment_label(seg), previous: claimed, output: o },
    )
}

/// A stream before its first segment.
pub open spec fn fresh_chain() -> Chain {
    Chain {
        failures: Seq::empty(),
        previous: None,
        live: None,
        next: Some(0i128),
        stream: None,
    }
}

/// The segment at `position` follows a signalled seek. Position 0 is the init
/// segment, which none precedes.
pub open spec fn seek_before(seeks: Seq<usize>, position: int) -> bool {
    position > 0 && seeks.contains((position - 1) as usize)
}

/// A stream after its first `k` segments.
pub open spec fn chain_after(
    segments: Seq<Presented>,
    k: int,
    seeks: Seq<usize>,
    names: StreamNames,
    p: EngineProfile,
) -> Chain
    decreases k,
{
    if k <= 0 {
        fresh_chain()
    } else {
        after_segment(
            segments[k - 1],
            (k - 1) as nat,
            seek_before(seeks, k - 1),
            names,
            p,
            chain_after(segments, k - 1, seeks, names, p),
        ).0
    }
}

/// The verification of the segment at `i`.
pub open spec fn verified_at(
    segments: Seq<Presented>,
    i: int,
    seeks: Seq<usize>,
    names: StreamNames,
    p: EngineProfile,
) -> Verified {
    after_segment(
        segments[i],
        i as nat,
        seek_before(seeks, i),
        names,
        p,
        chain_after(segments, i, seeks, names, p),
    ).1
}

/// Result of verifying a per-segment stream.
#[derive(Debug)]
pub struct PerSegmentVerifyOutput {
    /// Per-segment standalone results, in presented order.
    pub segments: Vec<SegmentVerification>,
    /// True only when every segment verified on its own and every link between
    /// consecutive segments recomputed.
    pub chain_valid: bool,
    /// Reasons why the chain is not valid, in stream order.
    pub chain_failures: Vec<String>,
}

/// Presented segments as the contracts see them.
spec fn presented(s: Seq<SegmentInput>) -> Seq<Presented> {
    s.map_values(|x: SegmentInput| x@)
}

/// Verified segments as the contracts see them.
pub open spec fn verified_views(s: Seq<SegmentVerification>) -> Seq<Verified> {
    s.map_values(|x: SegmentVerification| x@)
}

/// The stream state, executable.
struct ChainState {
    failures: Vec<String>,
    previous: Option<(String, Vec<u8>)>,
    live: Option<LiveVideoManifestState>,
    next: Option<i128>,
    stream: Option<String>,
}

impl View for ChainState {
    type V = Chain;

    closed spec fn view(&self) -> Chain {
        Chain {
            failures: texts(self.failures@),
            previous: match self.previous {
                Some((l, d)) => Some((l@, d@)),
                None => None,
            },
            live: live_video::state_opt(self.live),
            next: self.next,
            stream: text_opt(self.stream),
        }
    }
}

fn note_standalone(
    active: &Option<ActiveManifest>,
    state: ValidationState,
    position: usize,
    failures: &mut Vec<String>,
    Ghost(seg): Ghost<Presented>,
)
    requires
        seg.active == linkable(*active),
        seg.output.state == state,
    ensures
        texts(final(failures)@) == standalone_failures(
            seg,
            position as nat,
            texts(old(failures)@),
        ),
{
    if active.is_none() {
        push_line(failures, position, "carries no C2PA manifest");
    }
    if state == ValidationState::Invalid {
        push_line(failures, position, "standalone validation state is Invalid");
    }
    if let Some(a) = active {
        if let Err(e) = read_declaration(&a.manifest) {
            push_line(failures, position, e);
        }
    }
}

fn push_chain_lines(
    failures: &mut Vec<String>,
    filed: &Vec<StatusCode>,
    from: usize,
    position: usize,
    expected_label: &str,
    claimed: Option<&str>,
)
    ensures
        texts(final(failures)@) == with_chain_lines(
            texts(old(failures)@),
            status::statuses(filed@),
            from as int,
            filed@.len() as int,
            position as nat,
            expected_label@,
            value::chars_opt(claimed),
        ),
{
    let ghost s = status::statuses(filed@);
    let ghost start = texts(failures@);
    let mut i: usize = from;
    while i < filed.len()
        invariant
            from <= i,
            i <= filed.len() || i == from,
            s == status::statuses(filed@),
            texts(failures@) == with_chain_lines(
                start,
                s,
                from as int,
                i as int,
                position as nat,
                expected_label@,
                value::chars_opt(claimed),
            ),
        decreases filed.len() - i,
    {
        let line = live_chain_failure(filed[i].code.as_str(), expected_label, claimed);
        assert(s[i as int].code == filed@[i as int].code@);
        push_line(failures, position, line.as_str());
        i += 1;
    }
    assert(i != filed.len() ==> i == from);
}

fn check_continuity(
    output: &mut VerifyOutput,
    active: &Option<ActiveManifest>,
    position: usize,
    seek: bool,
    claimed: Option<&str>,
    live: &Option<LiveVideoManifestState>,
    has_previous: bool,
    failures: &mut Vec<String>,
    p: EngineProfile,
    Ghost(seg): Ghost<Presented>,
    Ghost(c): Ghost<Chain>,
)
    requires
        seg.output == old(output)@,
        seg.active == linkable(*active),
        c.live == live_video::state_opt(*live),
        has_previous == (c.previous is Some),
    ensures
        (final(output)@, texts(final(failures)@)) == continuity_outcome(
            seg,
            position as nat,
            seek,
            value::chars_opt(claimed),
            c,
            texts(old(failures)@),
            p,
        ),
{
    if live.is_some() || seek {
        if let Some(a) = active {
            let label = a.manifest.label.as_str();
            let already = output.results.failure.len();
            let declared = match read_declaration(&a.manifest) {
                Ok(v) => Some(v),
                Err(_) => None,
            };
            let predecessor: Option<&LiveVideoManifestState> = if seek {
                None
            } else {
                match live {
                    Some(l) => Some(l),
                    None => None,
                }
            };
            let url = join4(
                "self#jumbf=/c2pa/",
                label,
                "/c2pa.assertions/",
                LIVE_VIDEO_SEGMENT_LABEL,
            );
            let accepted = validate_live_video_assertion(
                LiveVideoApplicability::new(StreamMethod::PerSegment),
                declared,
                label,
                predecessor,
                &mut output.results,
                url.as_str(),
            );
            if accepted.is_none() {
                let expected_label = match live {
                    Some(l) => l.manifest_id.as_str(),
                    None => "",
                };
                proof {
                    reveal_strlit("");
                    assert(""@ =~= Seq::<char>::empty());
                }
                push_chain_lines(
                    failures,
                    &output.results.failure,
                    already,
                    position,
                    expected_label,
                    claimed,
                );
                restate_results(output, p);
            }
        }
        return;
    }
    if !has_previous {
        if let Some(t) = claimed {
            let shown = debug_string(t);
            let line = join3(
                "declares previousManifestId ",
                shown.as_str(),
                " but has no predecessor",
            );
            push_line(failures, position, line.as_str());
        }
    }
}

fn check_link(active: &Option<ActiveManifest>, seek: bool, previous: &Option<(String, Vec<u8>)>) -> (
    r: Option<String>)
    ensures
        forall|seg: Presented, c: Chain|
            seg.active == linkable(*active) && c.previous == (match *previous {
                Some((l, d)) => Some((l@, d@)),
                None => None,
            }) ==> text_opt(r) == #[trigger] link_fault(seg, seek, c),
{
    let a = match active {
        Some(a) => a,
        None => {
            return None;
        },
    };
    match read_parent_link(&a.manifest) {
        Err(e) => Some(e.to_owned()),
        Ok(None) => match previous {
            Some((label, _)) => {
                let shown = debug_string(label.as_str());
                Some(
                    join4(
                        "no parentOf ",
                        INGREDIENT_ASSERTION_LABEL,
                        " assertion linking to manifest ",
                        shown.as_str(),
                    ),
                )
            },
            None => None,
        },
        Ok(Some(linked)) => match previous {
            Some((_, digest)) => {
                if !seek && !bytes_eq(linked, digest.as_slice()) {
                    Some(
                        "ingredient activeManifest hash does not match the preceding segment's manifest".to_owned(),
                    )
                } else {
                    None
                }
            },
            None => Some(
                join3(
                    "carries a parentOf ",
                    INGREDIENT_ASSERTION_LABEL,
                    " assertion but has no predecessor",
                ),
            ),
        },
    }
}

fn verify_segment(
    segment: SegmentInput,
    position: usize,
    seek: bool,
    names: &StreamNames,
    p: EngineProfile,
    state: &mut ChainState,
) -> (r: SegmentVerification)
    ensures
        (final(state)@, r@) == after_segment(
            segment@,
            position as nat,
            seek,
            *names,
            p,
            old(state)@,
        ),
{
    let ghost seg = segment@;
    let ghost c = state@;
    let SegmentInput { output, active } = segment;
    let mut output = output;
    note_standalone(
        &active,
        output.validation_state,
        position,
        &mut state.failures,
        Ghost(seg),
    );
    let value: Option<&Value> = match &active {
        Some(a) => match read_declaration(&a.manifest) {
            Ok(v) => Some(v),
            Err(_) => None,
        },
        None => None,
    };
    let label: &str = match &active {
        Some(a) => a.manifest.label.as_str(),
        None => "",
    };
    proof {
        reveal_strlit("");
        assert(""@ =~= Seq::<char>::empty());
    }
    let mut claimed: Option<&str> = None;
    let mut live_next: Option<LiveVideoManifestState> = None;
    let mut next: Option<i128> = None;
    if let Some(v) = value {
        let d = fields_of(v);
        let expected = if seek {
            None
        } else {
            state.next
        };
        check_declaration(
            position,
            &d,
            expected,
            seek,
            names,
            &mut state.stream,
            &mut state.failures,
        );
        claimed = d.previous_manifest_id;
        live_next = declared_live_state(&d, label);
        next = match d.sequence_number {
            Some(n) => if n >= 0 {
                n.checked_add(1)
            } else {
                None
            },
            None => None,
        };
    }
    check_continuity(
        &mut output,
        &active,
        position,
        seek,
        claimed,
        &state.live,
        state.previous.is_some(),
        &mut state.failures,
        p,
        Ghost(seg),
        Ghost(c),
    );
    let fault = check_link(&active, seek, &state.previous);
    proof {
        assert(text_opt(fault) == link_fault(seg, seek, c));
    }
    push_fault(&mut state.failures, position, fault);
    let manifest_label = label.to_owned();
    let previous_manifest_label = match claimed {
        Some(t) => Some(t.to_owned()),
        None => None,
    };
    state.next = next;
    state.live = live_next;
    state.previous = match active {
        Some(a) => {
            let digest = HashAlgorithm::Sha256.digest(a.content.as_slice());
            Some((a.manifest.label, digest))
        },
        None => None,
    };
    SegmentVerification { sequence_number: position, manifest_label, previous_manifest_label, output }
}

pub(crate) fn reversed<T>(items: Vec<T>) -> (r: Vec<T>)
    ensures
        r@ == items@.reverse(),
{
    let ghost all = items@;
    let mut items = items;
    let mut r: Vec<T> = Vec::new();
    while items.len() > 0
        invariant
            items@.len() + r@.len() == all.len(),
            items@ == all.take(items@.len() as int),
            forall|k: int| 0 <= k < r@.len() ==> #[trigger] r@[k] == all[all.len() - 1 - k],
        decreases items@.len(),
    {
        if let Some(item) = items.pop() {
            r.push(item);
        }
    }
    assert(r@ =~= all.reverse());
    r
}

/// The segments of a stream, each verified behind those before it.
fn verify_segments(
    segments: Vec<SegmentInput>,
    expected_seek_positions: &[usize],
    names: &StreamNames,
    p: EngineProfile,
) -> (r: PerSegmentVerifyOutput)
    ensures
        r@ == recomputed(presented(segments@), expected_seek_positions@, *names, p),
{
    let ghost s = presented(segments@);
    let mut state = ChainState {
        failures: Vec::new(),
        previous: None,
        live: None,
        next: Some(0),
        stream: None,
    };
    assert(texts(state.failures@) =~= Seq::empty());
    assert(state@ =~= fresh_chain());
    let mut done: Vec<SegmentVerification> = Vec::new();
    let ghost n = s.len() as int;
    let total = segments.len();
    let mut rest = reversed(segments);
    let mut position: usize = 0;
    assert(verified_views(done@) =~= Seq::new(
        0nat,
        |i: int| verified_at(s, i, expected_seek_positions@, *names, p),
    ));
    while position < total
        invariant
            position <= total,
            total == n,
            n == s.len(),
            rest@.len() == total - position,
            forall|k: int| 0 <= k < rest@.len() ==> (#[trigger] rest@[k])@ == s[n - 1 - k],
            state@ == chain_after(
                s,
                position as int,
                expected_seek_positions@,
                *names,
                p,
            ),
            verified_views(done@) =~= Seq::new(
                position as nat,
                |i: int| verified_at(s, i, expected_seek_positions@, *names, p),
            ),
        decreases total - position,
    {
        let seek = position > 0 && is_seek(expected_seek_positions, position - 1);
        let ghost last = rest@.last();
        assert(last@ == s[position as int]);
        if let Some(segment) = rest.pop() {
            let v = verify_segment(segment, position, seek, names, p, &mut state);
            let ghost before = done@;
            done.push(v);
            assert(verified_views(done@) =~= verified_views(before).push(v@));
            assert(v@ == verified_at(s, position as int, expected_seek_positions@, *names, p));
        }
        position += 1;
    }
    let chain_failures = state.failures;
    assert(texts(chain_failures@).len() == chain_failures@.len());
    PerSegmentVerifyOutput {
        segments: done,
        chain_valid: chain_failures.len() == 0,
        chain_failures,
    }
}

/// The content of the active manifest's superbox, where it can be read.
pub open spec fn active_content(extracted: Result<Option<StoreReport>, String>) -> Option<Seq<u8>> {
    match extracted {
        Ok(Some(store)) => match store.contents {
            Ok(contents) => if contents@.len() > 0 {
                Some(contents@.last()@)
            } else {
                None
            },
            Err(_) => None,
        },
        _ => None,
    }
}

/// A segment verified exactly as a standalone asset, with its active manifest;
/// or why the stream is refused.
pub open spec fn standing_alone(s: SegmentAsset) -> Result<Presented, Refusal> {
    match verify::embedded_outcome(s.asset@, s.extracted, s.facts, s.version) {
        Err(e) => Err(e),
        Ok(output) => match verify::active_of(s.asset@, s.extracted) {
            Err(e) => Err(e),
            Ok(None) => Ok(Presented { output, active: None }),
            Ok(Some(m)) => match active_content(s.extracted) {
                None => Err(
                    Refusal::Stream("segment manifest store has no hashable active manifest"@),
                ),
                Some(content) => Ok(
                    Presented {
                        output,
                        active: Some((m, hash::digest_of(HashAlgorithm::Sha256, content))),
                    },
                ),
            },
        },
    }
}

/// Why the chain of a stream cannot be recomputed: the first segment whose
/// verification is refused, or whose active manifest has no readable content.
pub open spec fn segment_refusal(segments: Seq<SegmentAsset>, i: int) -> Option<Refusal>
    decreases segments.len() - i,
{
    if i < 0 || i >= segments.len() {
        None
    } else {
        match standing_alone(segments[i]) {
            Err(e) => Some(e),
            Ok(_) => segment_refusal(segments, i + 1),
        }
    }
}

/// The segments, each verified on its own.
pub open spec fn accepted(segments: Seq<SegmentAsset>) -> Seq<Presented> {
    segments.map_values(|s: SegmentAsset| standing_alone(s)->Ok_0)
}

spec fn presented_view(r: Result<SegmentInput, ValidateError>) -> Result<Presented, Refusal> {
    match r {
        Ok(s) => Ok(s@),
        Err(e) => Err(e@),
    }
}

/// Verify one segment on its own.
fn stand_alone(segment: SegmentAsset) -> (r: Result<SegmentInput, ValidateError>)
    requires
        verify::extraction_ready(
            segment.asset@,
            segment.asset.verification_time,
            segment.extracted,
            segment.facts,
        ),
    ensures
        presented_view(r) == standing_alone(segment),
{
    let SegmentAsset { asset, extracted, facts, version } = segment;
    let output = match verify(&asset, &extracted, &facts, version) {
        Ok(output) => output,
        Err(e) => {
            return Err(e);
        },
    };
    let store = match extracted {
        Ok(Some(store)) => store,
        _ => {
            return Ok(SegmentInput { output, active: None });
        },
    };
    let StoreReport { manifests, contents, .. } = store;
    let mut manifests = match manifests {
        Ok(manifests) => manifests,
        Err(e) => {
            return Err(ValidateError::Jumbf(e));
        },
    };
    let manifest = match manifests.pop() {
        Some(manifest) => manifest,
        None => {
            return Ok(SegmentInput { output, active: None });
        },
    };
    if let Ok(contents) = contents {
        let mut contents = contents;
        if let Some(content) = contents.pop() {
            return Ok(SegmentInput { output, active: Some(ActiveManifest { manifest, content }) });
        }
    }
    Err(
        ValidateError::Stream(
            "segment manifest store has no hashable active manifest".to_owned(),
        ),
    )
}

/// The chain of a per-segment stream, recomputed.
pub struct PerSegment {
    pub segments: Seq<Verified>,
    pub chain_valid: bool,
    pub chain_failures: Seq<Seq<char>>,
}

impl View for PerSegmentVerifyOutput {
    type V = PerSegment;

    open spec fn view(&self) -> PerSegment {
        PerSegment {
            segments: verified_views(self.segments@),
            chain_valid: self.chain_valid,
            chain_failures: texts(self.chain_failures@),
        }
    }
}

/// The chain over `s`: every segment verified behind those before it.
pub open spec fn recomputed(
    s: Seq<Presented>,
    seeks: Seq<usize>,
    names: StreamNames,
    p: EngineProfile,
) -> PerSegment {
    let c = chain_after(s, s.len() as int, seeks, names, p);
    PerSegment {
        segments: Seq::new(s.len(), |i: int| verified_at(s, i, seeks, names, p)),
        chain_valid: c.failures.len() == 0,
        chain_failures: c.failures,
    }
}

pub open spec fn per_segment_view(r: Result<PerSegmentVerifyOutput, ValidateError>) -> Result<
    PerSegment,
    Refusal,
> {
    match r {
        Ok(o) => Ok(o@),
        Err(e) => Err(e@),
    }
}

/// The outcome of verifying a per-segment stream.
pub open spec fn per_segment_outcome(
    init_defect: Option<String>,
    defects: Seq<Option<String>>,
    segments: Seq<SegmentAsset>,
    seeks: Seq<usize>,
    names: StreamNames,
    p: EngineProfile,
) -> Result<PerSegment, Refusal> {
    match brand_refusal(init_defect, defects, names.encapsulation_name@) {
        Some(e) => Err(e),
        None => match segment_refusal(segments, 0) {
            Some(e) => Err(e),
            None => Ok(recomputed(accepted(segments), seeks, names, p)),
        },
    }
}

/// Verify each segment of a per-segment stream on its own, then recompute the
/// chain.
///
/// Each segment's output answers whether a consumer that received only this
/// segment would accept it; the chain answers whether this is the stream that
/// was signed, in this order. The chain link is the ingredient digest: a label
/// alone could be minted by a splicer, the digest cannot be forged without the
/// predecessor's manifest bytes.
///
/// The init segment stands first in `segments`, the media segments follow it;
/// the brand defects are those that the container layer found.
pub fn verify_per_segment(
    init_defect: &Option<String>,
    segment_defects: &[Option<String>],
    segments: Vec<SegmentAsset>,
    expected_seek_positions: &[usize],
    names: &StreamNames,
    p: EngineProfile,
) -> (r: Result<PerSegmentVerifyOutput, ValidateError>)
    requires
        segments@.len() == segment_defects@.len() + 1,
        forall|i: int| 0 <= i < segments@.len() ==> (#[trigger] segments@[i]).ready(p),
    ensures
        per_segment_view(r) == per_segment_outcome(
            *init_defect,
            segment_defects@,
            segments@,
            expected_seek_positions@,
            *names,
            p,
        ),
{
    if let Err(e) = check_stream_brands(
        init_defect,
        segment_defects,
        names.encapsulation_name.as_str(),
    ) {
        return Err(e);
    }
    let ghost all = segments@;
    let ghost n = all.len() as int;
    let mut rest = reversed(segments);
    let mut given: Vec<SegmentInput> = Vec::new();
    while rest.len() > 0
        invariant
            n == all.len(),
            all == segments@,
            brand_refusal(
                *init_defect,
                segment_defects@,
                names.encapsulation_name@,
            ) is None,
            rest@.len() + given@.len() == n,
            forall|k: int| 0 <= k < rest@.len() ==> #[trigger] rest@[k] == all[n - 1 - k],
            forall|k: int| 0 <= k < n ==> (#[trigger] all[k]).ready(p),
            segment_refusal(all, given@.len() as int) == segment_refusal(all, 0),
            forall|k: int|
                0 <= k < given@.len() ==> standing_alone(all[k]) == Ok::<Presented, Refusal>(
                    (#[trigger] given@[k])@,
                ),
        decreases rest@.len(),
    {
        let ghost at = given@.len() as int;
        assert(rest@.last() == all[at]);
        if let Some(segment) = rest.pop() {
            assert(all[at].ready(p));
            match stand_alone(segment) {
                Err(e) => {
                    return Err(e);
                },
                Ok(s) => {
                    given.push(s);
                },
            }
        }
    }
    assert(presented(given@) =~= accepted(all));
    Ok(verify_segments(given, expected_seek_positions, names, p))
}

// ---------------------------------------------------------------------------
// Laws
// ---------------------------------------------------------------------------

/// Accepted seek positions are strictly increasing and lie inside the stream.
pub proof fn accepted_seeks_are_ordered(positions: Seq<usize>, count: usize)
    requires
        seek_refusal(positions, 0, None, count) is None,
    ensures
        forall|i: int| 0 <= i < positions.len() ==> #[trigger] positions[i] < count,
        forall|i: int, j: int|
            0 <= i < j < positions.len() ==> #[trigger] positions[i] < #[trigger] positions[j],
{
    lemma_seeks_from(positions, 0, None, count);
}

proof fn lemma_seeks_from(positions: Seq<usize>, i: int, previous: Option<usize>, count: usize)
    requires
        0 <= i,
        seek_refusal(positions, i, previous, count) is None,
    ensures
        forall|k: int| i <= k < positions.len() ==> #[trigger] positions[k] < count,
        forall|k: int|
            i <= k < positions.len() && previous is Some ==> previous->0 < #[trigger] positions[k],
        forall|k: int, j: int|
            i <= k < j < positions.len() ==> #[trigger] positions[k] < #[trigger] positions[j],
    decreases positions.len() - i,
{
    if i < positions.len() {
        lemma_seeks_from(positions, i + 1, Some(positions[i]), count);
    }
}

proof fn lemma_chain_lines_grow(
    failures: Seq<Seq<char>>,
    filed: Seq<Status>,
    from: int,
    k: int,
    position: nat,
    expected_label: Seq<char>,
    claimed: Option<Seq<char>>,
)
    ensures
        with_chain_lines(failures, filed, from, k, position, expected_label, claimed).len()
            == failures.len() + if k > from {
            k - from
        } else {
            0
        },
    decreases k - from,
{
    if k > from {
        lemma_chain_lines_grow(failures, filed, from, k - 1, position, expected_label, claimed);
    }
}

proof fn lemma_continuity_grows(
    seg: Presented,
    position: nat,
    seek: bool,
    claimed: Option<Seq<char>>,
    c: Chain,
    failures: Seq<Seq<char>>,
    p: EngineProfile,
)
    ensures
        continuity_outcome(seg, position, seek, claimed, c, failures, p).1.len() >= failures.len(),
{
    if c.live is Some || seek {
        if let Some((m, _)) = seg.active {
            let after = live_video::live_video_outcome(
                StreamMethod::PerSegment,
                segment_declaration(seg),
                m.label@,
                if seek {
                    None
                } else {
                    c.live
                },
                "self#jumbf=/c2pa/"@ + m.label@ + "/c2pa.assertions/"@ + LIVE_VIDEO_SEGMENT_LABEL@,
                seg.output.results,
            ).1;
            lemma_chain_lines_grow(
                failures,
                after.failure,
                seg.output.results.failure.len() as int,
                after.failure.len() as int,
                position,
                match c.live {
                    Some(l) => l.manifest,
                    None => Seq::empty(),
                },
                claimed,
            );
        }
    }
}

/// What holds of one segment of a valid chain: it verified on its own, it
/// declares its place in the stream, and unless a seek was signalled it carries
/// the digest of its predecessor's manifest.
pub open spec fn linked(
    seg: Presented,
    seek: bool,
    names: StreamNames,
    c: Chain,
) -> bool {
    &&& seg.active is Some
    &&& seg.output.state != ValidationState::Invalid
    &&& segment_declaration(seg) is Some
    &&& ({
        let d = declared_fields(segment_declaration(seg)->0);
        &&& d.sequence is Some
        &&& !seek ==> c.next is Some && d.sequence->0 == c.next->0
        &&& d.stream is Some
        &&& c.stream is Some ==> d.stream == c.stream
        &&& d.encapsulation == Some(names.encapsulation_token@)
        &&& d.method == Some(names.method_token@)
    })
    &&& ({
        let link = parent_link((seg.active->0).0);
        &&& c.previous is None ==> link == Ok::<Option<Seq<u8>>, Seq<char>>(None)
        &&& c.previous is Some ==> link is Ok && link->Ok_0 is Some
        &&& c.previous is Some && !seek ==> link == Ok::<Option<Seq<u8>>, Seq<char>>(
            Some((c.previous->0).1),
        )
    })
}

proof fn lemma_step(
    seg: Presented,
    position: nat,
    seek: bool,
    names: StreamNames,
    p: EngineProfile,
    c: Chain,
)
    ensures
        after_segment(seg, position, seek, names, p, c).0.failures.len() >= c.failures.len(),
        after_segment(seg, position, seek, names, p, c).0.failures.len() == c.failures.len()
            ==> linked(seg, seek, names, c) && after_segment(
            seg,
            position,
            seek,
            names,
            p,
            c,
        ).1.output == seg.output,
{
    let alone = standalone_failures(seg, position, c.failures);
    let declared = match segment_declaration(seg) {
        Some(v) => Some(declared_fields(v)),
        None => None,
    };
    let checked = match declared {
        Some(d) => after_declaration(
            position,
            d,
            if seek {
                None
            } else {
                c.next
            },
            seek,
            names,
            c.stream,
            alone,
        ),
        None => alone,
    };
    let claimed = match declared {
        Some(d) => d.previous,
        None => None,
    };
    lemma_continuity_grows(seg, position, seek, claimed, c, checked, p);
    if (c.live is Some || seek) && seg.active is Some {
        let m = (seg.active->0).0;
        let previous = if seek {
            None
        } else {
            c.live
        };
        let url = "self#jumbf=/c2pa/"@ + m.label@ + "/c2pa.assertions/"@
            + LIVE_VIDEO_SEGMENT_LABEL@;
        let (state, after) = live_video::live_video_outcome(
            StreamMethod::PerSegment,
            segment_declaration(seg),
            m.label@,
            previous,
            url,
            seg.output.results,
        );
        if state is None {
            live_video::refused_segment_has_a_reason(
                StreamMethod::PerSegment,
                segment_declaration(seg),
                m.label@,
                previous,
                url,
                seg.output.results,
            );
            lemma_chain_lines_grow(
                checked,
                after.failure,
                seg.output.results.failure.len() as int,
                after.failure.len() as int,
                position,
                match c.live {
                    Some(l) => l.manifest,
                    None => Seq::empty(),
                },
                claimed,
            );
        } else {
            assert(after == seg.output.results);
        }
    }
}

proof fn lemma_chain_grows(
    s: Seq<Presented>,
    k: int,
    n: int,
    seeks: Seq<usize>,
    names: StreamNames,
    p: EngineProfile,
)
    requires
        0 <= k <= n,
    ensures
        chain_after(s, k, seeks, names, p).failures.len() <= chain_after(
            s,
            n,
            seeks,
            names,
            p,
        ).failures.len(),
    decreases n - k,
{
    if k < n {
        lemma_chain_grows(s, k, n - 1, seeks, names, p);
        lemma_step(
            s[n - 1],
            (n - 1) as nat,
            seek_before(seeks, n - 1),
            names,
            p,
            chain_after(s, n - 1, seeks, names, p),
        );
    }
}

/// A chain is valid only where every segment verified on its own and every link
/// between consecutive segments recomputed.
pub proof fn valid_chains_are_linked(
    s: Seq<Presented>,
    seeks: Seq<usize>,
    names: StreamNames,
    p: EngineProfile,
    i: int,
)
    requires
        recomputed(s, seeks, names, p).chain_valid,
        0 <= i < s.len(),
    ensures
        linked(s[i], seek_before(seeks, i), names, chain_after(s, i, seeks, names, p)),
        i > 0 ==> chain_after(s, i, seeks, names, p).previous == Some(
            ((s[i - 1].active->0).0.label@, (s[i - 1].active->0).1),
        ),
        i == 0 ==> chain_after(s, i, seeks, names, p).previous is None,
{
    lemma_chain_grows(s, 0, i, seeks, names, p);
    lemma_chain_grows(s, i + 1, s.len() as int, seeks, names, p);
    lemma_step(
        s[i],
        i as nat,
        seek_before(seeks, i),
        names,
        p,
        chain_after(s, i, seeks, names, p),
    );
    if i > 0 {
        lemma_chain_grows(s, i, s.len() as int, seeks, names, p);
        lemma_chain_grows(s, 0, i - 1, seeks, names, p);
        lemma_step(
            s[i - 1],
            (i - 1) as nat,
            seek_before(seeks, i - 1),
            names,
            p,
            chain_after(s, i - 1, seeks, names, p),
        );
    }
}

proof fn lemma_all_stand(segments: Seq<SegmentAsset>, i: int, k: int)
    requires
        0 <= i <= k < segments.len(),
        segment_refusal(segments, i) is None,
    ensures
        standing_alone(segments[k]) is Ok,
    decreases segments.len() - i,
{
    if i < k {
        lemma_all_stand(segments, i + 1, k);
    }
}

/// A per-segment stream that is not refused has one result for each segment,
/// the init segment included, in presented order. Where its chain is valid, each
/// of them is what verifying the segment as a standalone asset gives, and every
/// one of these verifications accepts: its state is valid or trusted.
pub proof fn valid_chains_accept_every_segment(
    init_defect: Option<String>,
    defects: Seq<Option<String>>,
    segments: Seq<SegmentAsset>,
    seeks: Seq<usize>,
    names: StreamNames,
    p: EngineProfile,
    o: PerSegment,
    i: int,
)
    requires
        per_segment_outcome(init_defect, defects, segments, seeks, names, p) == Ok::<
            PerSegment,
            Refusal,
        >(o),
        0 <= i < segments.len(),
    ensures
        o.segments.len() == segments.len(),
        o.segments[i].position == i,
        o.chain_valid == (o.chain_failures.len() == 0),
        o.chain_valid ==> verify::embedded_outcome(
            segments[i].asset@,
            segments[i].extracted,
            segments[i].facts,
            segments[i].version,
        ) == Ok::<Output, Refusal>(o.segments[i].output) && (o.segments[i].output.state
            == ValidationState::Valid || o.segments[i].output.state == ValidationState::Trusted),
{
    lemma_all_stand(segments, 0, i);
    let s = accepted(segments);
    assert(s[i] == standing_alone(segments[i])->Ok_0);
    if o.chain_valid {
        lemma_chain_grows(s, 0, i, seeks, names, p);
        lemma_chain_grows(s, i + 1, s.len() as int, seeks, names, p);
        lemma_step(
            s[i],
            i as nat,
            seek_before(seeks, i),
            names,
            p,
            chain_after(s, i, seeks, names, p),
        );
        assert(s[i].active is Some);
        match segments[i].extracted {
            Ok(Some(store)) => {
                verify::verified_manifests_are_present(
                    segments[i].asset@,
                    store,
                    segments[i].facts,
                    segments[i].version,
                );
            },
            _ => {},
        }
    }
}

proof fn lemma_seeks_accepted(positions: Seq<usize>, i: int, previous: Option<usize>, count: usize)
    requires
        0 <= i,
        forall|k: int| i <= k < positions.len() ==> #[trigger] positions[k] < count,
        forall|k: int|
            i <= k < positions.len() && previous is Some ==> previous->0 < #[trigger] positions[k],
        forall|k: int, j: int|
            i <= k < j < positions.len() ==> #[trigger] positions[k] < #[trigger] positions[j],
    ensures
        seek_refusal(positions, i, previous, count) is None,
    decreases positions.len() - i,
{
    if i < positions.len() {
        assert(positions[i] < count);
        lemma_seeks_accepted(positions, i + 1, Some(positions[i]), count);
    }
}

/// Seek positions are accepted wherever they are strictly increasing and lie
/// inside the stream.
pub proof fn ordered_seeks_are_accepted(positions: Seq<usize>, count: usize)
    requires
        forall|i: int| 0 <= i < positions.len() ==> #[trigger] positions[i] < count,
        forall|i: int, j: int|
            0 <= i < j < positions.len() ==> #[trigger] positions[i] < #[trigger] positions[j],
    ensures
        seek_refusal(positions, 0, None, count) is None,
{
    lemma_seeks_accepted(positions, 0, None, count);
}

/// The segments of a valid chain count up: the init segment carries number 0, and
/// each other segment that follows no signalled seek carries the number behind
/// its predecessor's, belongs to the same stream, and names its predecessor's
/// manifest by its digest.
pub proof fn valid_chains_count_up(
    s: Seq<Presented>,
    seeks: Seq<usize>,
    names: StreamNames,
    p: EngineProfile,
    i: int,
)
    requires
        recomputed(s, seeks, names, p).chain_valid,
        0 <= i < s.len(),
    ensures
        segment_declaration(s[i]) is Some,
        i == 0 ==> declared_fields(segment_declaration(s[0])->0).sequence == Some(0i128)
            && parent_link((s[0].active->0).0) == Ok::<Option<Seq<u8>>, Seq<char>>(None),
        i > 0 && !seeks.contains((i - 1) as usize) ==> ({
            let d = declared_fields(segment_declaration(s[i])->0);
            let before = declared_fields(segment_declaration(s[i - 1])->0);
            &&& before.sequence is Some
            &&& d.sequence is Some
            &&& d.sequence->0 == before.sequence->0 + 1
            &&& d.stream is Some
            &&& d.stream == before.stream
            &&& s[i - 1].active is Some
            &&& parent_link((s[i].active->0).0) == Ok::<Option<Seq<u8>>, Seq<char>>(
                Some((s[i - 1].active->0).1),
            )
        }),
{
    valid_chains_are_linked(s, seeks, names, p, i);
    if i > 0 {
        valid_chains_are_linked(s, seeks, names, p, i - 1);
        let c = chain_after(s, i - 1, seeks, names, p);
        let next = chain_after(s, i, seeks, names, p);
        let before = declared_fields(segment_declaration(s[i - 1])->0);
        assert(next.next == following(before));
        assert(next.stream == known_stream(c.stream, before));
    }
}

proof fn lemma_named(boxes: Seq<AssertionBox>, label: Seq<char>, k: int)
    requires
        0 <= k <= boxes.len(),
    ensures
        ({
            let found = boxes_named(boxes, label, k);
            &&& forall|t: int|
                0 <= t < found.len() ==> 0 <= #[trigger] found[t] < k && boxes[found[t]].label@
                    == label
            &&& forall|i: int|
                0 <= i < k && (#[trigger] boxes[i]).label@ == label ==> found.contains(i)
            &&& found.no_duplicates()
        }),
    decreases k,
{
    if k > 0 {
        lemma_named(boxes, label, k - 1);
        let before = boxes_named(boxes, label, k - 1);
        let found = boxes_named(boxes, label, k);
        assert forall|i: int|
            0 <= i < k && (#[trigger] boxes[i]).label@ == label implies found.contains(i) by {
            if i < k - 1 {
                assert(before.contains(i));
                let t = choose|t: int| 0 <= t < before.len() && before[t] == i;
                assert(found[t] == i);
            } else {
                assert(found[before.len() as int] == i);
            }
        }
    }
}

/// Session keys are taken from a manifest only where exactly one box carries the
/// label and the claim references it; where two or more carry it none of their
/// keys is trusted; and a box that the claim does not reference, or no box at all,
/// selects no session.
pub proof fn session_keys_come_from_one_referenced_box(m: ParsedManifest)
    ensures
        delivered(Some(m)) matches Some(d) ==> d.label == m.label@,
        delivered(Some(m)) matches Some(d) ==> (d.keys matches Ok(p) ==> claim_references(
            m,
            SESSION_KEYS_LABEL@,
        ) && exists|i: int|
            0 <= i < m.assertions@.len() && (#[trigger] m.assertions@[i]).label@
                == SESSION_KEYS_LABEL@ && m.assertions@[i].payload == p && forall|j: int|
                0 <= j < m.assertions@.len() && j != i ==> (#[trigger] m.assertions@[j]).label@
                    != SESSION_KEYS_LABEL@),
        (exists|i: int, j: int|
            0 <= i < j < m.assertions@.len() && (#[trigger] m.assertions@[i]).label@
                == SESSION_KEYS_LABEL@ && (#[trigger] m.assertions@[j]).label@
                == SESSION_KEYS_LABEL@) ==> delivered(Some(m)) is Some && delivered(
            Some(m),
        )->0.keys is Err,
        (forall|i: int|
            0 <= i < m.assertions@.len() ==> (#[trigger] m.assertions@[i]).label@
                != SESSION_KEYS_LABEL@) ==> delivered(Some(m)) is None,
        delivered(None) is None,
{
    let boxes = m.assertions@;
    let n = boxes.len() as int;
    let label = SESSION_KEYS_LABEL@;
    lemma_named(boxes, label, n);
    let found = boxes_named(boxes, label, n);
    if found.len() == 1 {
        let i = found[0];
        assert(boxes[i].label@ == label);
        assert forall|j: int| 0 <= j < n && j != i implies (#[trigger] boxes[j]).label@ != label by {
            if boxes[j].label@ == label {
                assert(found.contains(j));
            }
        }
    }
    if exists|i: int, j: int|
        0 <= i < j < n && (#[trigger] boxes[i]).label@ == label && (#[trigger] boxes[j]).label@
            == label {
        let (i, j) = choose|i: int, j: int|
            0 <= i < j < n && (#[trigger] boxes[i]).label@ == label && (
            #[trigger] boxes[j]).label@ == label;
        assert(found.contains(i) && found.contains(j));
        let a = choose|a: int| 0 <= a < found.len() && found[a] == i;
        let b = choose|b: int| 0 <= b < found.len() && found[b] == j;
        assert(a != b);
    }
    if forall|i: int| 0 <= i < n ==> (#[trigger] boxes[i]).label@ != label {
        if found.len() > 0 {
            assert(boxes[found[0]].label@ == label);
        }
    }
}

proof fn lemma_parents(boxes: Seq<AssertionBox>, k: int)
    requires
        0 <= k <= boxes.len(),
    ensures
        ({
            let found = parents_among(boxes, k);
            &&& forall|t: int|
                0 <= t < found.len() ==> 0 <= #[trigger] found[t] < k && is_parent(boxes[found[t]])
            &&& forall|i: int|
                0 <= i < k && is_parent(#[trigger] boxes[i]) ==> found.contains(i)
            &&& found.no_duplicates()
        }),
    decreases k,
{
    if k > 0 {
        lemma_parents(boxes, k - 1);
        let before = parents_among(boxes, k - 1);
        let found = parents_among(boxes, k);
        assert forall|i: int| 0 <= i < k && is_parent(#[trigger] boxes[i]) implies found.contains(
            i,
        ) by {
            if i < k - 1 {
                assert(before.contains(i));
                let t = choose|t: int| 0 <= t < before.len() && before[t] == i;
                assert(found[t] == i);
            } else {
                assert(found[before.len() as int] == i);
            }
        }
    }
}

/// The box is an ingredient assertion, or a numbered instance of one, that names
/// a parent.
pub open spec fn names_a_parent(b: AssertionBox) -> bool {
    &&& b.label@ == "c2pa.ingredient.v3"@ || labels::is_numbered_instance(
        b.label@,
        "c2pa.ingredient.v3"@,
    )
    &&& b.payload.value is Some
    &&& b.payload.value->0.text_field("relationship"@) == Some("parentOf"@)
}

/// The link of a segment is the digest that its one parent ingredient gives for
/// the active manifest, with the claim referencing that ingredient. Without a
/// parent ingredient there is no link; with two, with one that the claim does not
/// reference, or with one that gives no digest, the link is not trusted.
pub proof fn links_come_from_one_referenced_parent(m: ParsedManifest, d: Seq<u8>)
    ensures
        (parent_link(m) == Ok::<Option<Seq<u8>>, Seq<char>>(Some(d))) == (exists|i: int|
            0 <= i < m.assertions@.len() && names_a_parent(#[trigger] m.assertions@[i])
                && claim_references(m, m.assertions@[i].label@)
                && m.assertions@[i].payload.value->0.field("activeManifest"@) is Some
                && m.assertions@[i].payload.value->0.field("activeManifest"@)->0.bytes_field(
                "hash"@,
            ) == Some(d) && forall|j: int|
                0 <= j < m.assertions@.len() && j != i ==> !names_a_parent(
                    #[trigger] m.assertions@[j],
                )),
        (parent_link(m) == Ok::<Option<Seq<u8>>, Seq<char>>(None)) == (forall|i: int|
            0 <= i < m.assertions@.len() ==> !names_a_parent(#[trigger] m.assertions@[i])),
{
    let boxes = m.assertions@;
    let n = boxes.len() as int;
    lemma_parents(boxes, n);
    let found = parents_among(boxes, n);
    assert forall|b: AssertionBox| #[trigger] names_a_parent(b) == is_parent(b) by {}
    if found.len() > 0 {
        let i = found[0];
        assert(is_parent(boxes[i]));
        assert(names_a_parent(boxes[i]));
        if found.len() == 1 {
            assert forall|j: int| 0 <= j < n && j != i implies !names_a_parent(
                #[trigger] boxes[j],
            ) by {
                if is_parent(boxes[j]) {
                    assert(found.contains(j));
                }
            }
        } else {
            let j = found[1];
            assert(i != j);
            assert(is_parent(boxes[j]));
            assert(names_a_parent(boxes[j]));
        }
    }
    if exists|i: int| 0 <= i < n && names_a_parent(#[trigger] boxes[i]) {
        let i = choose|i: int| 0 <= i < n && names_a_parent(#[trigger] boxes[i]);
        assert(is_parent(boxes[i]));
        assert(found.contains(i));
    }
    if exists|i: int|
        0 <= i < n && names_a_parent(#[trigger] boxes[i]) && claim_references(m, boxes[i].label@)
            && boxes[i].payload.value->0.field("activeManifest"@) is Some
            && boxes[i].payload.value->0.field("activeManifest"@)->0.bytes_field("hash"@) == Some(d)
            && forall|j: int| 0 <= j < n && j != i ==> !names_a_parent(#[trigger] boxes[j]) {
        let i = choose|i: int|
            0 <= i < n && names_a_parent(#[trigger] boxes[i]) && claim_references(
                m,
                boxes[i].label@,
            ) && boxes[i].payload.value->0.field("activeManifest"@) is Some
                && boxes[i].payload.value->0.field("activeManifest"@)->0.bytes_field("hash"@)
                == Some(d) && forall|j: int|
                0 <= j < n && j != i ==> !names_a_parent(#[trigger] boxes[j]);
        assert(is_parent(boxes[i]));
        assert(found.contains(i));
        assert(found[0] == i) by {
            if found[0] != i {
                assert(!names_a_parent(boxes[found[0]]));
            }
        }
        assert(found.len() == 1) by {
            if found.len() > 1 {
                assert(found[1] != i);
                assert(!names_a_parent(boxes[found[1]]));
            }
        }
    }
}

proof fn lemma_still_failed(
    fragments: Seq<FragmentFacts>,
    k: int,
    n: int,
    seeks: Seq<usize>,
    url: Seq<char>,
    s: OrderState,
)
    requires
        0 <= k <= n,
    ensures
        after_fragments(fragments, k, seeks, url, s).failed ==> after_fragments(
            fragments,
            n,
            seeks,
            url,
            s,
        ).failed,
    decreases n - k,
{
    if k < n {
        lemma_still_failed(fragments, k, n - 1, seeks, url, s);
    }
}

proof fn lemma_tracked(
    fragments: Seq<FragmentFacts>,
    a: int,
    k: int,
    seeks: Seq<usize>,
    url: Seq<char>,
    s: OrderState,
    first: MerkleBox,
)
    requires
        0 <= a < k <= fragments.len(),
        fragments.len() <= usize::MAX,
        sole_box(fragments[a]) == Some(first),
        forall|c: int|
            a < c < k ==> !seeks.contains(c as usize) && !(sole_box(#[trigger] fragments[c]) is Some
                && sole_box(fragments[c])->0.unique_id == first.unique_id && sole_box(
                fragments[c],
            )->0.local_id == first.local_id),
    ensures
        ({
            let last = after_fragments(fragments, k, seeks, url, s).last;
            let key = (first.unique_id, first.local_id);
            last.contains_key(key) && last[key] == first.location
        }),
    decreases k,
{
    if k > a + 1 {
        lemma_tracked(fragments, a, k - 1, seeks, url, s, first);
        assert(!seeks.contains((k - 1) as usize)) by {
            assert(sole_box(fragments[k - 1]) == sole_box(fragments[k - 1]));
        }
    }
}

/// Where no break in the playback order is found, two fragments of one track that
/// follow each other, with no other of the track between them and no seek
/// signalled behind the first, carry consecutive playback locations.
pub proof fn unbroken_tracks_count_up(
    fragments: Seq<FragmentFacts>,
    seeks: Seq<usize>,
    url: Seq<char>,
    s: OrderState,
    a: int,
    b: int,
    first: MerkleBox,
    second: MerkleBox,
)
    requires
        fragments.len() <= usize::MAX,
        !after_fragments(fragments, fragments.len() as int, seeks, url, s).failed,
        0 <= a < b < fragments.len(),
        sole_box(fragments[a]) == Some(first),
        sole_box(fragments[b]) == Some(second),
        first.unique_id == second.unique_id,
        first.local_id == second.local_id,
        !seeks.contains(b as usize),
        forall|c: int|
            a < c < b ==> !seeks.contains(c as usize) && !(sole_box(#[trigger] fragments[c]) is Some
                && sole_box(fragments[c])->0.unique_id == first.unique_id && sole_box(
                fragments[c],
            )->0.local_id == first.local_id),
    ensures
        second.location == first.location + 1,
{
    lemma_tracked(fragments, a, b, seeks, url, s, first);
    lemma_still_failed(fragments, b + 1, fragments.len() as int, seeks, url, s);
}

} // verus!
