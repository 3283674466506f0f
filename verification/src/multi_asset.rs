//! Multi-asset hashes: contiguous parts of one asset, each bound by a part
//! assertion of its own.
use vstd::prelude::*;
use vstd::string::StringExecFns;
use crate::bmff;
use crate::bmff::{bmff_box_payload_bounds, bmff_digest_len, BmffFacts};
use crate::bmff_merkle;
use crate::bmff_merkle::{verify_bmff_merkle_init, BmffMerkleInput};
use crate::boxes;
use crate::boxes::{verify_boxes_hash, Fault, SpanReport};
use crate::claim_refs;
use crate::claim_refs::{ClaimAssertionRefs, Reference, Refs};
use crate::exclusions;
use crate::exclusions::{bmff_exclusion_maps, parse_local_part_exclusions};
use crate::hash;
use crate::hash::{hash_with_exclusions, HashAlgorithm};
use crate::labels;
use crate::labels::{assertion_label_for_manifest, resolved_hash_algorithm};
use crate::manifest::AssetFormat;
use crate::status::{
    Results, ValidationResults, ALGORITHM_UNSUPPORTED, ASSERTION_BMFF_HASH_MALFORMED,
    ASSERTION_BMFF_HASH_MATCH, ASSERTION_BOXES_HASH_MALFORMED, ASSERTION_BOXES_HASH_MATCH,
    ASSERTION_MULTI_ASSET_HASH_MALFORMED, ASSERTION_MULTI_ASSET_HASH_MATCH,
    ASSERTION_MULTI_ASSET_HASH_MISMATCH, ASSERTION_MULTI_ASSET_HASH_MISSING_PART,
};
use crate::structure;
use crate::structure::assertion_uri;
use crate::text;
use crate::text::{bytes_eq, decimal_string, join2, join3, join4, join5, str_eq, strip_prefix};
use crate::value;
use crate::value::Value;

verus! {

/// The number of parts that one multi-asset assertion may hold.
pub const MAX_MULTI_ASSET_PARTS: usize = 4_096;

// ---------------------------------------------------------------------------
// Part labels
// ---------------------------------------------------------------------------

/// `base`, or `base` followed by two underscores and a non-empty instance.
pub open spec fn part_label(label: Seq<char>, base: Seq<char>) -> bool {
    label == base || match text::after_prefix(label, base) {
        Some(rest) => match text::after_prefix(rest, "__"@) {
            Some(instance) => instance.len() > 0,
            None => false,
        },
        None => false,
    }
}

/// Whether `label` is `base` or one of its instances.
pub fn multi_asset_part_label_is(label: &str, base: &str) -> (r: bool)
    ensures
        r == part_label(label@, base@),
{
    if str_eq(label, base) {
        return true;
    }
    match strip_prefix(label, base) {
        Some(rest) => match strip_prefix(rest, "__") {
            Some(instance) => !instance.is_empty(),
            None => false,
        },
        None => false,
    }
}

/// How the bytes of a part are bound.
#[derive(Debug, Clone, Copy, PartialEq, Eq, Structural)]
pub enum MultiAssetPartMethod {
    Data,
    Bmff,
    Boxes,
}

/// The method that a part label stands for.
pub open spec fn part_method(label: Seq<char>) -> Option<MultiAssetPartMethod> {
    if part_label(label, "c2pa.hash.data.part"@) {
        Some(MultiAssetPartMethod::Data)
    } else if part_label(label, "c2pa.hash.bmff.v2.part"@) || part_label(
        label,
        "c2pa.hash.bmff.v3.part"@,
    ) {
        Some(MultiAssetPartMethod::Bmff)
    } else if part_label(label, "c2pa.hash.boxes.part"@) {
        Some(MultiAssetPartMethod::Boxes)
    } else {
        None
    }
}

/// The method that a part label stands for.
pub fn multi_asset_part_method(label: &str) -> (r: Option<MultiAssetPartMethod>)
    ensures
        r == part_method(label@),
{
    if multi_asset_part_label_is(label, "c2pa.hash.data.part") {
        Some(MultiAssetPartMethod::Data)
    } else if multi_asset_part_label_is(label, "c2pa.hash.bmff.v2.part")
        || multi_asset_part_label_is(label, "c2pa.hash.bmff.v3.part") {
        Some(MultiAssetPartMethod::Bmff)
    } else if multi_asset_part_label_is(label, "c2pa.hash.boxes.part") {
        Some(MultiAssetPartMethod::Boxes)
    } else {
        None
    }
}

// ---------------------------------------------------------------------------
// Locators
// ---------------------------------------------------------------------------

/// Where a part lies in the asset.
pub enum PartLocator<'a> {
    ByteOffset { start: usize, length: usize },
    BmffBox {
        path: &'a str,
        box_start: usize,
        box_length: usize,
        content_start: usize,
        content_length: usize,
    },
}

/// A locator as the contracts see it.
pub struct Place {
    /// The path of a box, or nothing for a byte range.
    pub path: Option<Seq<char>>,
    /// The bytes that the part accounts for.
    pub start: usize,
    pub length: usize,
    /// The bytes that are hashed.
    pub content_start: usize,
    pub content_length: usize,
}

impl<'a> View for PartLocator<'a> {
    type V = Place;

    open spec fn view(&self) -> Place {
        match *self {
            PartLocator::ByteOffset { start, length } => Place {
                path: None,
                start,
                length,
                content_start: start,
                content_length: length,
            },
            PartLocator::BmffBox { path, box_start, box_length, content_start, content_length } => Place {
                path: Some(path@),
                start: box_start,
                length: box_length,
                content_start,
                content_length,
            },
        }
    }
}

impl<'a> PartLocator<'a> {
    /// The bytes that the part accounts for.
    pub fn coverage_bounds(&self) -> (r: (usize, usize))
        ensures
            r == (self@.start, self@.length),
    {
        match self {
            PartLocator::ByteOffset { start, length } => (*start, *length),
            PartLocator::BmffBox { box_start, box_length, .. } => (*box_start, *box_length),
        }
    }

    /// The bytes that are hashed.
    pub fn content_bounds(&self) -> (r: (usize, usize))
        ensures
            r == (self@.content_start, self@.content_length),
    {
        match self {
            PartLocator::ByteOffset { start, length } => (*start, *length),
            PartLocator::BmffBox { content_start, content_length, .. } => (
                *content_start,
                *content_length,
            ),
        }
    }

    /// The locator in words.
    pub fn description(&self) -> (r: String)
        ensures
            r@ == place_text(self@),
    {
        match self {
            PartLocator::ByteOffset { start, length } => {
                let a = decimal_string(*start as u64);
                let end = start.saturating_add(*length);
                let b = decimal_string(end as u64);
                join5("byte range [", a.as_str(), ", ", b.as_str(), ")")
            },
            PartLocator::BmffBox { path, .. } => join3("BMFF box '", path, "'"),
        }
    }
}

/// A locator in words.
pub open spec fn place_text(p: Place) -> Seq<char> {
    match p.path {
        None => "byte range ["@ + text::decimal(p.start as nat) + ", "@ + text::decimal(
            hash::least(p.start + p.length, usize::MAX as int) as nat,
        ) + ")"@,
        Some(path) => "BMFF box '"@ + path + "'"@,
    }
}

/// The non-empty box path of a part's locator.
pub open spec fn locator_path(part: Value) -> Option<Seq<char>> {
    match part.field("location"@) {
        Some(l) => match l.text_field("bmffBox"@) {
            Some(path) => if path.len() > 0 {
                Some(path)
            } else {
                None
            },
            None => None,
        },
        None => None,
    }
}

/// The box paths of the first `k` parts, in order.
pub open spec fn locator_paths(parts: Seq<Value>, k: int) -> Seq<Seq<char>>
    decreases k,
{
    if k <= 0 {
        Seq::empty()
    } else {
        match locator_path(parts[k - 1]) {
            Some(path) => locator_paths(parts, k - 1).push(path),
            None => locator_paths(parts, k - 1),
        }
    }
}

/// The box paths that a multi-asset assertion's locators name, in order: what
/// the container layer resolves to ranges.
pub fn multi_asset_box_paths<'a>(parts: &'a [Value]) -> (r: Vec<&'a str>)
    ensures
        text::views(r@) == locator_paths(parts@, parts@.len() as int),
{
    let mut out: Vec<&'a str> = Vec::new();
    assert(text::views(out@) =~= Seq::<Seq<char>>::empty());
    let mut i: usize = 0;
    while i < parts.len()
        invariant
            i <= parts.len(),
            text::views(out@) == locator_paths(parts@, i as int),
        decreases parts.len() - i,
    {
        if let Some(l) = parts[i].get("location") {
            if let Some(path) = l.get_text("bmffBox") {
                if !path.is_empty() {
                    let ghost before = out@;
                    out.push(path);
                    assert(text::views(out@) =~= text::views(before).push(path@));
                }
            }
        }
        i += 1;
    }
    out
}

// ---------------------------------------------------------------------------
// Facts
// ---------------------------------------------------------------------------

/// What the container layer reports of one part's content: its BMFF facts and
/// its segmentation as the first of JPEG and PNG that it can be segmented as.
#[derive(Debug)]
pub struct PartFacts {
    pub bmff: BmffFacts,
    pub spans: Option<SpanReport>,
}

/// What the container layer reports of a multi-asset assertion: the ranges of
/// the boxes under each of its box paths, and of each of its parts.
#[derive(Debug)]
pub struct MultiAssetFacts {
    pub locator_ranges: Result<Vec<Vec<(usize, usize)>>, String>,
    pub parts: Vec<PartFacts>,
}

// ---------------------------------------------------------------------------
// Planning
// ---------------------------------------------------------------------------

/// How a located part is checked.
pub enum PartCheck<'a> {
    Data { algorithm: &'a str, expected: &'a [u8], ranges: Vec<(usize, usize)> },
    Bmff { hash_data: &'a Value, algorithm: &'a str, top: Option<&'a [u8]>, merkle: bool },
    Boxes { box_map: Option<&'a Value> },
}

/// A part that is ready to be checked.
pub struct LocatedPart<'a> {
    pub locator: PartLocator<'a>,
    pub optional: bool,
    pub label: &'a str,
    pub check: PartCheck<'a>,
}

/// A check as the contracts see it.
pub enum Check {
    Data { algorithm: Seq<char>, expected: Seq<u8>, ranges: Seq<(usize, usize)> },
    Bmff { hash_data: Value, algorithm: Seq<char>, top: Option<Seq<u8>>, merkle: bool },
    Boxes { box_map: Option<Value> },
}

/// A located part as the contracts see it.
pub struct Part {
    pub place: Place,
    pub optional: bool,
    pub label: Seq<char>,
    pub check: Check,
}

impl<'a> View for PartCheck<'a> {
    type V = Check;

    open spec fn view(&self) -> Check {
        match *self {
            PartCheck::Data { algorithm, expected, ranges } => Check::Data {
                algorithm: algorithm@,
                expected: expected@,
                ranges: ranges@,
            },
            PartCheck::Bmff { hash_data, algorithm, top, merkle } => Check::Bmff {
                hash_data: *hash_data,
                algorithm: algorithm@,
                top: value::bytes_opt(top),
                merkle,
            },
            PartCheck::Boxes { box_map } => Check::Boxes { box_map: value::pointee(box_map) },
        }
    }
}

impl<'a> View for LocatedPart<'a> {
    type V = Part;

    open spec fn view(&self) -> Part {
        Part {
            place: self.locator@,
            optional: self.optional,
            label: self.label@,
            check: self.check@,
        }
    }
}

pub open spec fn part_views(s: Seq<LocatedPart>) -> Seq<Part> {
    s.map_values(|p: LocatedPart| p@)
}

/// A structural defect of the assertion.
pub open spec fn malformed(why: Seq<char>) -> Fault {
    Fault { code: ASSERTION_MULTI_ASSET_HASH_MALFORMED@, why }
}

pub open spec fn unsupported(why: Seq<char>) -> Fault {
    Fault { code: ALGORITHM_UNSUPPORTED@, why }
}

/// The place that a byte-range locator names.
pub open spec fn byte_place(location: Value) -> Result<Place, Fault> {
    match (location.usize_field("byteOffset"@), location.usize_field("length"@)) {
        (Some(start), Some(length)) => Ok(
            Place { path: None, start, length, content_start: start, content_length: length },
        ),
        _ => Err(malformed("byte-offset locator has a negative or non-integer bound"@)),
    }
}

/// The place that a box locator names, with the ranges resolved for it.
pub open spec fn box_place(
    location: Value,
    format: AssetFormat,
    ranges: Seq<(usize, usize)>,
    data: Seq<u8>,
) -> Result<Place, Fault> {
    let path = location.text_field("bmffBox"@);
    if path is None || path->0.len() == 0 {
        Err(malformed("bmffBox locator is not a non-empty string"@))
    } else if format != AssetFormat::Bmff {
        Err(malformed("bmffBox locator used for a non-BMFF asset"@))
    } else if ranges.len() != 1 {
        Err(
            malformed(
                "bmffBox locator '"@ + path->0 + "' must resolve to exactly one box"@,
            ),
        )
    } else {
        match bmff::payload_bounds(data, ranges[0].0 as int, ranges[0].1 as int) {
            None => Err(
                malformed("bmffBox locator '"@ + path->0 + "' resolved to malformed bounds"@),
            ),
            Some((s, l)) => Ok(
                Place {
                    path,
                    start: ranges[0].0,
                    length: ranges[0].1,
                    content_start: s as usize,
                    content_length: l as usize,
                },
            ),
        }
    }
}

/// The place that a locator names: a byte range or a box, and not both.
pub open spec fn place_of(
    location: Value,
    format: AssetFormat,
    ranges: Seq<(usize, usize)>,
    data: Seq<u8>,
) -> Result<Place, Fault> {
    match (
        location.field("byteOffset"@) is Some,
        location.field("length"@) is Some,
        location.field("bmffBox"@) is Some,
    ) {
        (true, true, false) => byte_place(location),
        (false, false, true) => box_place(location, format, ranges, data),
        _ => Err(malformed("locator must contain exactly byteOffset+length or bmffBox"@)),
    }
}

/// A claim declaration that names `label` with the digest and algorithm of the
/// part's own reference.
pub open spec fn declares(
    reference: Reference,
    label: Seq<char>,
    digest: Seq<u8>,
    algorithm: Option<Seq<char>>,
    claim: Value,
) -> bool {
    reference.label == Some(label) && reference.value.bytes_field("hash"@) == Some(digest)
        && labels::algorithm_for(reference.value, claim) == algorithm
}

pub open spec fn declared(
    refs: Seq<Reference>,
    label: Seq<char>,
    digest: Seq<u8>,
    algorithm: Option<Seq<char>>,
    claim: Value,
) -> bool {
    exists|i: int|
        0 <= i < refs.len() && declares(#[trigger] refs[i], label, digest, algorithm, claim)
}

/// The algorithm of a part assertion: its own, else the multi-asset
/// assertion's, else the claim's.
pub open spec fn part_algorithm(part_hash: Value, ma: Value, claim: Value) -> Option<Seq<char>> {
    match labels::algorithm_for(part_hash, ma) {
        Some(a) => Some(a),
        None => claim.text_field("alg"@),
    }
}

pub open spec fn data_check(
    part_hash: Value,
    ma: Value,
    claim: Value,
    label: Seq<char>,
    content_length: usize,
) -> Result<Check, Fault> {
    match part_hash.bytes_field("hash"@) {
        None => Err(malformed("data hash part assertion '"@ + label + "' has no hash"@)),
        Some(expected) => match part_algorithm(part_hash, ma, claim) {
            None => Err(
                unsupported("data hash part '"@ + label + "' has no hash algorithm"@),
            ),
            Some(algorithm) => if bmff::named_len(algorithm) is None || bmff::named_len(
                algorithm,
            )->0 != expected.len() {
                Err(
                    unsupported(
                        "data hash part '"@ + label
                            + "' has an unsupported algorithm or digest width"@,
                    ),
                )
            } else {
                match exclusions::part_ranges(part_hash.field("exclusions"@), content_length) {
                    Err(why) => Err(
                        malformed(
                            "data hash part assertion '"@ + label + "' has invalid exclusions: "@
                                + why,
                        ),
                    ),
                    Ok(ranges) => Ok(Check::Data { algorithm, expected, ranges }),
                }
            },
        },
    }
}

pub open spec fn bmff_check(
    part_hash: Value,
    ma: Value,
    claim: Value,
    label: Seq<char>,
) -> Result<Check, Fault> {
    let merkle = part_hash.field("merkle"@) is Some;
    let expected = part_hash.bytes_field("hash"@);
    if !merkle && expected is None {
        Err(malformed("BMFF part assertion '"@ + label + "' has no hash or merkle tree"@))
    } else {
        match part_algorithm(part_hash, ma, claim) {
            None => Err(unsupported("BMFF part '"@ + label + "' has no hash algorithm"@)),
            Some(algorithm) => if bmff::named_len(algorithm) is None || (expected is Some
                && bmff::named_len(algorithm)->0 != expected->0.len()) {
                Err(
                    unsupported(
                        "BMFF part '"@ + label + "' has an unsupported algorithm or digest width"@,
                    ),
                )
            } else {
                match exclusions::exclusions_of(part_hash) {
                    Err(why) => Err(
                        malformed(
                            "BMFF part assertion '"@ + label + "' has invalid exclusions: "@ + why,
                        ),
                    ),
                    Ok(_) => Ok(
                        Check::Bmff { hash_data: part_hash, algorithm, top: expected, merkle },
                    ),
                }
            },
        }
    }
}

/// How the part under `label` is checked.
pub open spec fn check_of(
    method: MultiAssetPartMethod,
    indexed: claim_refs::Indexed,
    part_hash: Value,
    ma: Value,
    claim: Value,
    label: Seq<char>,
    content_length: usize,
) -> Result<Check, Fault> {
    match method {
        MultiAssetPartMethod::Data => data_check(part_hash, ma, claim, label, content_length),
        MultiAssetPartMethod::Bmff => bmff_check(part_hash, ma, claim, label),
        MultiAssetPartMethod::Boxes => match indexed.payload {
            None => Err(
                malformed("general-box part assertion '"@ + label + "' has no payload"@),
            ),
            Some(p) => Ok(Check::Boxes { box_map: p.value }),
        },
    }
}

/// The part assertion that a part refers to, and how it is checked.
pub open spec fn part_binding(
    hash_assertion: Value,
    refs: Refs,
    ma: Value,
    claim: Value,
    manifest: Seq<char>,
    content_length: usize,
) -> Result<(Seq<char>, Check), Fault> {
    match hash_assertion.text_field("url"@) {
        None => Err(malformed("part hashAssertion is not a HashedUri"@)),
        Some(url) => match labels::local_assertion_label(url, manifest) {
            None => Err(
                malformed(
                    "part hash assertion URI '"@ + url + "' is not local to the claim"@,
                ),
            ),
            Some(label) => match part_method(label) {
                None => Err(
                    malformed(
                        "part hash assertion '"@ + label + "' is not a supported .part method"@,
                    ),
                ),
                Some(method) => {
                    let digest = hash_assertion.bytes_field("hash"@);
                    let algorithm = labels::algorithm_for(hash_assertion, claim);
                    if digest is None || algorithm is None || !declared(
                        refs.references,
                        label,
                        digest->0,
                        algorithm,
                        claim,
                    ) {
                        Err(
                            malformed(
                                "part hashAssertion '"@ + label
                                    + "' is not an exact declared HashedUri"@,
                            ),
                        )
                    } else if bmff::named_len(algorithm->0) is None || bmff::named_len(
                        algorithm->0,
                    )->0 != digest->0.len() {
                        Err(
                            malformed(
                                "part hashAssertion '"@ + label + "' has an invalid digest"@,
                            ),
                        )
                    } else {
                        match refs.indexed(label) {
                            None => Err(
                                malformed(
                                    "part hash assertion '"@ + label + "' is not indexed"@,
                                ),
                            ),
                            Some(indexed) => match indexed.decoded {
                                None => Err(
                                    malformed(
                                        "part hash assertion '"@ + label
                                            + "' is missing or invalid CBOR"@,
                                    ),
                                ),
                                Some(part_hash) => match check_of(
                                    method,
                                    indexed,
                                    part_hash,
                                    ma,
                                    claim,
                                    label,
                                    content_length,
                                ) {
                                    Err(f) => Err(f),
                                    Ok(check) => Ok((label, check)),
                                },
                            },
                        }
                    }
                },
            },
        },
    }
}

/// What a plan is made from.
pub struct Frame {
    pub claim: Value,
    pub refs: Refs,
    pub ma: Value,
    pub data: Seq<u8>,
    pub format: AssetFormat,
    pub manifest: Seq<char>,
}

/// One part; `ranges` are those resolved for its box path.
pub open spec fn locate_part(part: Value, ranges: Seq<(usize, usize)>, f: Frame) -> Result<
    Part,
    Fault,
> {
    let optional: Option<bool> = match part.field("optional"@) {
        None => Some(false),
        Some(Value::Bool(b)) => Some(b),
        Some(_) => None,
    };
    match (optional, part.field("location"@)) {
        (None, _) => Err(malformed("multi-asset part optional flag is not a boolean"@)),
        (Some(_), None) => Err(malformed("multi-asset part has no locator"@)),
        (Some(optional), Some(location)) => match place_of(location, f.format, ranges, f.data) {
            Err(why) => Err(why),
            Ok(place) => match part.field("hashAssertion"@) {
                None => Err(malformed("multi-asset part has no hashAssertion"@)),
                Some(h) => match part_binding(
                    h,
                    f.refs,
                    f.ma,
                    f.claim,
                    f.manifest,
                    place.content_length,
                ) {
                    Err(why) => Err(why),
                    Ok((label, check)) => Ok(Part { place, optional, label, check }),
                },
            },
        },
    }
}

/// The ranges resolved for the box path `at`; none where none were reported.
pub open spec fn ranges_at(ranges: Seq<Vec<(usize, usize)>>, at: int) -> Seq<(usize, usize)> {
    if 0 <= at < ranges.len() {
        ranges[at]@
    } else {
        Seq::empty()
    }
}

/// The parts from `i` on; `at` counts the box locators in front of them.
pub open spec fn locate_from(
    parts: Seq<Value>,
    i: int,
    ranges: Seq<Vec<(usize, usize)>>,
    at: int,
    f: Frame,
) -> Result<Seq<Part>, Fault>
    decreases parts.len() - i,
{
    if i < 0 || i >= parts.len() {
        Ok(Seq::empty())
    } else {
        match locate_part(parts[i], ranges_at(ranges, at), f) {
            Err(why) => Err(why),
            Ok(p) => match locate_from(
                parts,
                i + 1,
                ranges,
                if p.place.path is Some {
                    at + 1
                } else {
                    at
                },
                f,
            ) {
                Err(why) => Err(why),
                Ok(rest) => Ok(seq![p] + rest),
            },
        }
    }
}

/// The parts are contiguous and ordered from `at` on: where they end, or what
/// is wrong.
pub open spec fn coverage_from(parts: Seq<Part>, i: int, at: nat) -> Result<nat, Fault>
    decreases parts.len() - i,
{
    if i < 0 || i >= parts.len() {
        Ok(at)
    } else {
        let p = parts[i];
        if p.place.start != at {
            Err(
                malformed(
                    "multi-asset parts are not contiguous and ordered: '"@ + p.label
                        + "' starts at "@ + text::decimal(p.place.start as nat) + " (expected "@
                        + text::decimal(at) + ")"@,
                ),
            )
        } else if p.place.start + p.place.length > usize::MAX {
            Err(malformed("multi-asset part '"@ + p.label + "' bounds overflow"@))
        } else {
            coverage_from(parts, i + 1, (p.place.start + p.place.length) as nat)
        }
    }
}

// ---------------------------------------------------------------------------
// Checking
// ---------------------------------------------------------------------------

/// `part '<label>' failed: <why>`
pub open spec fn failed_part(label: Seq<char>, structural: bool, why: Seq<char>) -> Fault {
    Fault {
        code: if structural {
            ASSERTION_MULTI_ASSET_HASH_MALFORMED@
        } else {
            ASSERTION_MULTI_ASSET_HASH_MISMATCH@
        },
        why: "part '"@ + label + "' failed: "@ + why,
    }
}

/// The explanation of the first failure, else `other`.
pub open spec fn first_explanation(r: Results, other: Seq<char>) -> Seq<char> {
    if r.failure.len() > 0 {
        r.failure[0].explanation
    } else {
        other
    }
}

/// The outcome of a part's own Merkle binding.
pub open spec fn part_merkle_results(
    hash_data: Value,
    algorithm: Seq<char>,
    content: Seq<u8>,
    facts: BmffFacts,
    url: Seq<char>,
) -> Results {
    bmff_merkle::merkle_outcome(
        hash_data,
        algorithm,
        content,
        facts,
        Seq::empty(),
        url,
        false,
        Results::empty(),
    )
}

/// What is wrong with the bytes of a part bound by a BMFF hash.
pub open spec fn bmff_part_fault(
    label: Seq<char>,
    hash_data: Value,
    algorithm: Seq<char>,
    expected: Option<Seq<u8>>,
    merkle: bool,
    content: Seq<u8>,
    facts: BmffFacts,
    url: Seq<char>,
) -> Option<Fault> {
    let top: Option<Fault> = match expected {
        None => None,
        Some(e) => match facts.structural.named(algorithm) {
            Some(Ok(actual)) => if actual == e {
                None
            } else {
                Some(failed_part(label, false, "BMFF structural hash mismatch"@))
            },
            Some(Err(why)) => Some(
                failed_part(label, true, "BMFF part hashing failed: "@ + why),
            ),
            None => Some(failed_part(label, true, "BMFF part hashing failed: "@)),
        },
    };
    if top is Some || !merkle {
        top
    } else {
        let r = part_merkle_results(hash_data, algorithm, content, facts, url);
        if r.failure.len() == 0 && r.succeeded(ASSERTION_BMFF_HASH_MATCH@) {
            None
        } else {
            Some(
                failed_part(
                    label,
                    r.failed(ASSERTION_BMFF_HASH_MALFORMED@),
                    first_explanation(r, "BMFF merkle methodology did not validate"@),
                ),
            )
        }
    }
}

/// What is wrong with the bytes of a part bound by box hashes.
pub open spec fn boxes_part_fault(
    label: Seq<char>,
    box_map: Option<Value>,
    claim: Value,
    report: Option<SpanReport>,
    content: Seq<u8>,
    manifest: Seq<char>,
) -> Option<Fault> {
    match report {
        None => Some(
            malformed(
                "general-box part '"@ + label + "' is not a supported JPEG or PNG part"@,
            ),
        ),
        Some(report) => {
            let r = boxes::boxes_outcome(
                box_map,
                claim,
                report,
                content,
                false,
                manifest,
                Results::empty(),
            );
            if r.failure.len() == 0 && r.succeeded(ASSERTION_BOXES_HASH_MATCH@) {
                None
            } else {
                Some(
                    failed_part(
                        label,
                        r.failed(ASSERTION_BOXES_HASH_MALFORMED@) || r.failed(
                            ALGORITHM_UNSUPPORTED@,
                        ),
                        first_explanation(r, "general-box methodology did not validate"@),
                    ),
                )
            }
        },
    }
}

/// What is wrong with the bytes of a part that lies inside the asset.
pub open spec fn content_fault(
    p: Part,
    facts: PartFacts,
    claim: Value,
    content: Seq<u8>,
    manifest: Seq<char>,
    url: Seq<char>,
) -> Option<Fault> {
    match p.check {
        Check::Data { algorithm, expected, ranges } => match hash::named_digest(
            algorithm,
            hash::retained(content, ranges),
        ) {
            Some(actual) => if actual == expected {
                None
            } else {
                Some(failed_part(p.label, false, "data hash mismatch"@))
            },
            None => Some(failed_part(p.label, true, "data hash algorithm is unsupported"@)),
        },
        Check::Bmff { hash_data, algorithm, top, merkle } => bmff_part_fault(
            p.label,
            hash_data,
            algorithm,
            top,
            merkle,
            content,
            facts.bmff,
            url,
        ),
        Check::Boxes { box_map } => boxes_part_fault(
            p.label,
            box_map,
            claim,
            facts.spans,
            content,
            manifest,
        ),
    }
}

/// The part begins behind the asset's last byte.
pub open spec fn is_absent(p: Part, len: nat) -> bool {
    p.place.content_start > len || (p.place.content_start == len && p.place.content_length != 0)
}

/// What is wrong with a located part. An optional part may be absent as a whole.
pub open spec fn part_fault(
    p: Part,
    facts: PartFacts,
    claim: Value,
    data: Seq<u8>,
    manifest: Seq<char>,
    url: Seq<char>,
) -> Option<Fault> {
    let end = p.place.content_start + p.place.content_length;
    if end > usize::MAX {
        Some(malformed("multi-asset part '"@ + p.label + "' content bounds overflow"@))
    } else if is_absent(p, data.len()) {
        if p.optional {
            None
        } else {
            Some(
                Fault {
                    code: ASSERTION_MULTI_ASSET_HASH_MISSING_PART@,
                    why: "required part '"@ + p.label + "' is absent"@,
                },
            )
        }
    } else if end > data.len() {
        Some(
            Fault {
                code: ASSERTION_MULTI_ASSET_HASH_MISMATCH@,
                why: "part '"@ + p.label + "' is truncated: "@ + place_text(p.place)
                    + " exceeds asset length "@ + text::decimal(data.len()),
            },
        )
    } else {
        content_fault(
            p,
            facts,
            claim,
            data.subrange(p.place.content_start as int, end),
            manifest,
            url,
        )
    }
}

/// The first `k` parts, each with its failure where it has one.
pub open spec fn after_parts(
    parts: Seq<Part>,
    k: int,
    facts: Seq<PartFacts>,
    claim: Value,
    data: Seq<u8>,
    manifest: Seq<char>,
    url: Seq<char>,
    r: Results,
) -> Results
    decreases k,
{
    if k <= 0 {
        r
    } else {
        let before = after_parts(parts, k - 1, facts, claim, data, manifest, url, r);
        match part_fault(parts[k - 1], facts[k - 1], claim, data, manifest, url) {
            Some(f) => before.fail(f.code, url, f.why),
            None => before,
        }
    }
}

/// One of the first `k` parts fails.
pub open spec fn any_part_fault(
    parts: Seq<Part>,
    k: int,
    facts: Seq<PartFacts>,
    claim: Value,
    data: Seq<u8>,
    manifest: Seq<char>,
    url: Seq<char>,
) -> bool {
    exists|i: int|
        0 <= i < k && part_fault(
            #[trigger] parts[i],
            facts[i],
            claim,
            data,
            manifest,
            url,
        ) is Some
}

/// Located and contiguous parts, checked against the asset.
pub open spec fn after_evaluation(
    parts: Seq<Part>,
    end: nat,
    facts: Seq<PartFacts>,
    claim: Value,
    data: Seq<u8>,
    manifest: Seq<char>,
    url: Seq<char>,
    r: Results,
) -> Results {
    let n = parts.len() as int;
    let checked = after_parts(parts, n, facts, claim, data, manifest, url, r);
    let covered = if end < data.len() {
        checked.fail(
            ASSERTION_MULTI_ASSET_HASH_MALFORMED@,
            url,
            "asset has "@ + text::decimal((data.len() - end) as nat)
                + " uncovered trailing bytes beyond declared parts"@,
        )
    } else {
        checked
    };
    if any_part_fault(parts, n, facts, claim, data, manifest, url) || end < data.len() {
        covered
    } else {
        covered.pass(
            ASSERTION_MULTI_ASSET_HASH_MATCH@,
            url,
            "all required multi-asset parts valid"@,
        )
    }
}

/// The parts of a multi-asset assertion, located, or what is wrong with it.
pub open spec fn located(
    ma: Option<Value>,
    claim: Value,
    refs: Refs,
    data: Seq<u8>,
    format: AssetFormat,
    manifest: Seq<char>,
    ranges: Result<Vec<Vec<(usize, usize)>>, String>,
) -> Result<Seq<Part>, Fault> {
    match ma {
        None => Err(malformed("multi-asset CBOR invalid"@)),
        Some(m) => match m.items_field("parts"@) {
            None => Err(malformed("multi-asset has no parts array"@)),
            Some(parts) => if parts.len() == 0 {
                Err(malformed("multi-asset parts array is empty"@))
            } else if parts.len() > MAX_MULTI_ASSET_PARTS {
                Err(
                    malformed(
                        "multi-asset part count exceeds verifier bound ("@ + text::decimal(
                            MAX_MULTI_ASSET_PARTS as nat,
                        ) + ")"@,
                    ),
                )
            } else {
                let f = Frame { claim, refs, ma: m, data, format, manifest };
                if format == AssetFormat::Bmff && locator_paths(parts, parts.len() as int).len()
                    > 0 {
                    match ranges {
                        Err(why) => Err(
                            malformed("BMFF locator plan is invalid: "@ + why@),
                        ),
                        Ok(ranges) => locate_from(parts, 0, ranges@, 0, f),
                    }
                } else {
                    locate_from(parts, 0, Seq::empty(), 0, f)
                }
            },
        },
    }
}

/// The outcome of a multi-asset binding.
pub open spec fn multi_asset_outcome(
    ma: Option<Value>,
    claim: Value,
    refs: Refs,
    data: Seq<u8>,
    format: AssetFormat,
    manifest: Seq<char>,
    facts: MultiAssetFacts,
    r: Results,
) -> Results {
    let url = structure::assertion_url(manifest, "c2pa.hash.multi-asset"@);
    match located(ma, claim, refs, data, format, manifest, facts.locator_ranges) {
        Err(f) => r.fail(f.code, url, f.why),
        Ok(parts) => match coverage_from(parts, 0, 0) {
            Err(f) => r.fail(f.code, url, f.why),
            Ok(end) => after_evaluation(
                parts,
                end,
                facts.parts@,
                claim,
                data,
                manifest,
                url,
                r,
            ),
        },
    }
}

/// There is a report for each part, and segmented spans lie inside the part.
pub open spec fn facts_fit(parts: Seq<Part>, facts: Seq<PartFacts>) -> bool {
    &&& facts.len() >= parts.len()
    &&& forall|i: int|
        0 <= i < parts.len() ==> ((#[trigger] facts[i]).spans matches Some(report) ==> report.wf(
            parts[i].place.content_length as nat,
        ))
}

// ---------------------------------------------------------------------------
// Executable planning
// ---------------------------------------------------------------------------

/// A fault: its code and its text.
pub type FaultText = (&'static str, String);

pub open spec fn fault_view(f: FaultText) -> Fault {
    Fault { code: f.0@, why: f.1@ }
}

fn malformed_text(why: &str) -> (r: FaultText)
    ensures
        fault_view(r) == malformed(why@),
{
    (ASSERTION_MULTI_ASSET_HASH_MALFORMED, why.to_owned())
}

fn malformed_about(before: &str, name: &str, after: &str) -> (r: FaultText)
    ensures
        fault_view(r) == malformed(before@ + name@ + after@),
{
    (ASSERTION_MULTI_ASSET_HASH_MALFORMED, join3(before, name, after))
}

fn unsupported_about(before: &str, name: &str, after: &str) -> (r: FaultText)
    ensures
        fault_view(r) == unsupported(before@ + name@ + after@),
{
    (ALGORITHM_UNSUPPORTED, join3(before, name, after))
}

fn read_place<'a>(
    location: &'a Value,
    format: AssetFormat,
    ranges: &[(usize, usize)],
    data: &[u8],
) -> (r: Result<PartLocator<'a>, FaultText>)
    ensures
        match r {
            Ok(l) => place_of(*location, format, ranges@, data@) == Ok::<Place, Fault>(l@),
            Err(f) => place_of(*location, format, ranges@, data@) == Err::<Place, Fault>(
                fault_view(f),
            ),
        },
{
    let has_offset = location.get("byteOffset").is_some();
    let has_length = location.get("length").is_some();
    let has_box = location.get("bmffBox").is_some();
    if has_offset && has_length && !has_box {
        match (location.get_usize("byteOffset"), location.get_usize("length")) {
            (Some(start), Some(length)) => Ok(PartLocator::ByteOffset { start, length }),
            _ => Err(
                malformed_text("byte-offset locator has a negative or non-integer bound"),
            ),
        }
    } else if !has_offset && !has_length && has_box {
        let path = match location.get_text("bmffBox") {
            Some(path) => path,
            None => {
                return Err(malformed_text("bmffBox locator is not a non-empty string"));
            },
        };
        if path.is_empty() {
            return Err(malformed_text("bmffBox locator is not a non-empty string"));
        }
        if format != AssetFormat::Bmff {
            return Err(malformed_text("bmffBox locator used for a non-BMFF asset"));
        }
        if ranges.len() != 1 {
            return Err(
                malformed_about("bmffBox locator '", path, "' must resolve to exactly one box"),
            );
        }
        let (box_start, box_length) = ranges[0];
        match bmff_box_payload_bounds(data, box_start, box_length) {
            Some((content_start, content_length)) => Ok(
                PartLocator::BmffBox {
                    path,
                    box_start,
                    box_length,
                    content_start,
                    content_length,
                },
            ),
            None => Err(
                malformed_about("bmffBox locator '", path, "' resolved to malformed bounds"),
            ),
        }
    } else {
        Err(malformed_text("locator must contain exactly byteOffset+length or bmffBox"))
    }
}

fn same_text(a: Option<&str>, b: Option<&str>) -> (r: bool)
    ensures
        r == (value::chars_opt(a) == value::chars_opt(b)),
{
    match (a, b) {
        (Some(x), Some(y)) => str_eq(x, y),
        (None, None) => true,
        _ => false,
    }
}

fn is_declared(
    refs: &ClaimAssertionRefs,
    label: &str,
    digest: &[u8],
    algorithm: Option<&str>,
    claim: &Value,
) -> (r: bool)
    ensures
        r == declared(
            refs@.references,
            label@,
            digest@,
            value::chars_opt(algorithm),
            *claim,
        ),
{
    let ghost rv = refs@.references;
    let ghost ga = value::chars_opt(algorithm);
    let mut i: usize = 0;
    while i < refs.references.len()
        invariant
            i <= refs.references.len(),
            rv == refs@.references,
            rv.len() == refs.references@.len(),
            ga == value::chars_opt(algorithm),
            forall|k: int| 0 <= k < i ==> !declares(#[trigger] rv[k], label@, digest@, ga, *claim),
        decreases refs.references.len() - i,
    {
        assert(rv[i as int] == refs.references@[i as int]@);
        let reference = &refs.references[i];
        let named = match reference.label {
            Some(l) => str_eq(l, label),
            None => false,
        };
        if named {
            if let Some(h) = reference.value.get_bytes("hash") {
                if bytes_eq(h, digest) && same_text(
                    resolved_hash_algorithm(reference.value, claim),
                    algorithm,
                ) {
                    assert(declares(rv[i as int], label@, digest@, ga, *claim));
                    return true;
                }
            }
        }
        i += 1;
    }
    false
}

fn algorithm_of_part<'a>(part_hash: &'a Value, ma: &'a Value, claim: &'a Value) -> (r: Option<
    &'a str,
>)
    ensures
        value::chars_opt(r) == part_algorithm(*part_hash, *ma, *claim),
{
    match resolved_hash_algorithm(part_hash, ma) {
        Some(a) => Some(a),
        None => claim.get_text("alg"),
    }
}

fn read_data_check<'a>(
    part_hash: &'a Value,
    ma: &'a Value,
    claim: &'a Value,
    label: &str,
    content_length: usize,
) -> (r: Result<PartCheck<'a>, FaultText>)
    ensures
        match r {
            Ok(c) => data_check(*part_hash, *ma, *claim, label@, content_length) == Ok::<
                Check,
                Fault,
            >(c@),
            Err(f) => data_check(*part_hash, *ma, *claim, label@, content_length) == Err::<
                Check,
                Fault,
            >(fault_view(f)),
        },
{
    let expected = match part_hash.get_bytes("hash") {
        Some(h) => h,
        None => {
            return Err(malformed_about("data hash part assertion '", label, "' has no hash"));
        },
    };
    let algorithm = match algorithm_of_part(part_hash, ma, claim) {
        Some(a) => a,
        None => {
            return Err(unsupported_about("data hash part '", label, "' has no hash algorithm"));
        },
    };
    let fits = match bmff_digest_len(algorithm) {
        Some(n) => n == expected.len(),
        None => false,
    };
    if !fits {
        return Err(
            unsupported_about(
                "data hash part '",
                label,
                "' has an unsupported algorithm or digest width",
            ),
        );
    }
    match parse_local_part_exclusions(part_hash.get("exclusions"), content_length) {
        Ok(ranges) => Ok(PartCheck::Data { algorithm, expected, ranges }),
        Err(why) => Err(
            (
                ASSERTION_MULTI_ASSET_HASH_MALFORMED,
                join4("data hash part assertion '", label, "' has invalid exclusions: ", why),
            ),
        ),
    }
}

fn read_bmff_check<'a>(
    part_hash: &'a Value,
    ma: &'a Value,
    claim: &'a Value,
    label: &str,
) -> (r: Result<PartCheck<'a>, FaultText>)
    ensures
        match r {
            Ok(c) => bmff_check(*part_hash, *ma, *claim, label@) == Ok::<Check, Fault>(c@),
            Err(f) => bmff_check(*part_hash, *ma, *claim, label@) == Err::<Check, Fault>(
                fault_view(f),
            ),
        },
{
    let merkle = part_hash.get("merkle").is_some();
    let expected = part_hash.get_bytes("hash");
    if !merkle && expected.is_none() {
        return Err(
            malformed_about("BMFF part assertion '", label, "' has no hash or merkle tree"),
        );
    }
    let algorithm = match algorithm_of_part(part_hash, ma, claim) {
        Some(a) => a,
        None => {
            return Err(unsupported_about("BMFF part '", label, "' has no hash algorithm"));
        },
    };
    let fits = match (bmff_digest_len(algorithm), expected) {
        (Some(n), Some(h)) => n == h.len(),
        (Some(_), None) => true,
        (None, _) => false,
    };
    if !fits {
        return Err(
            unsupported_about(
                "BMFF part '",
                label,
                "' has an unsupported algorithm or digest width",
            ),
        );
    }
    match bmff_exclusion_maps(part_hash) {
        Ok(_) => Ok(PartCheck::Bmff { hash_data: part_hash, algorithm, top: expected, merkle }),
        Err(why) => Err(
            (
                ASSERTION_MULTI_ASSET_HASH_MALFORMED,
                join4("BMFF part assertion '", label, "' has invalid exclusions: ", why),
            ),
        ),
    }
}

fn read_binding<'a>(
    hash_assertion: &'a Value,
    refs: &ClaimAssertionRefs<'a>,
    ma: &'a Value,
    claim: &'a Value,
    manifest: &str,
    content_length: usize,
) -> (r: Result<(&'a str, PartCheck<'a>), FaultText>)
    ensures
        match r {
            Ok((label, c)) => part_binding(
                *hash_assertion,
                refs@,
                *ma,
                *claim,
                manifest@,
                content_length,
            ) == Ok::<(Seq<char>, Check), Fault>((label@, c@)),
            Err(f) => part_binding(
                *hash_assertion,
                refs@,
                *ma,
                *claim,
                manifest@,
                content_length,
            ) == Err::<(Seq<char>, Check), Fault>(fault_view(f)),
        },
{
    let url = match hash_assertion.get_text("url") {
        Some(url) => url,
        None => {
            return Err(malformed_text("part hashAssertion is not a HashedUri"));
        },
    };
    let label = match assertion_label_for_manifest(url, manifest) {
        Some(label) => label,
        None => {
            return Err(
                malformed_about(
                    "part hash assertion URI '",
                    url,
                    "' is not local to the claim",
                ),
            );
        },
    };
    let method = match multi_asset_part_method(label) {
        Some(method) => method,
        None => {
            return Err(
                malformed_about(
                    "part hash assertion '",
                    label,
                    "' is not a supported .part method",
                ),
            );
        },
    };
    let algorithm = resolved_hash_algorithm(hash_assertion, claim);
    let (digest, name) = match (hash_assertion.get_bytes("hash"), algorithm) {
        (Some(digest), Some(name)) => (digest, name),
        _ => {
            return Err(
                malformed_about(
                    "part hashAssertion '",
                    label,
                    "' is not an exact declared HashedUri",
                ),
            );
        },
    };
    if !is_declared(refs, label, digest, algorithm, claim) {
        return Err(
            malformed_about(
                "part hashAssertion '",
                label,
                "' is not an exact declared HashedUri",
            ),
        );
    }
    let fits = match bmff_digest_len(name) {
        Some(n) => n == digest.len(),
        None => false,
    };
    if !fits {
        return Err(
            malformed_about("part hashAssertion '", label, "' has an invalid digest"),
        );
    }
    let indexed = match refs.indexed(label) {
        Some(indexed) => indexed,
        None => {
            return Err(malformed_about("part hash assertion '", label, "' is not indexed"));
        },
    };
    let part_hash = match indexed.decoded {
        Some(v) => v,
        None => {
            return Err(
                malformed_about(
                    "part hash assertion '",
                    label,
                    "' is missing or invalid CBOR",
                ),
            );
        },
    };
    let check = match method {
        MultiAssetPartMethod::Data => read_data_check(part_hash, ma, claim, label, content_length),
        MultiAssetPartMethod::Bmff => read_bmff_check(part_hash, ma, claim, label),
        MultiAssetPartMethod::Boxes => match indexed.payload {
            Some(p) => {
                let box_map: Option<&'a Value> = match &p.value {
                    Some(v) => Some(v),
                    None => None,
                };
                Ok(PartCheck::Boxes { box_map })
            },
            None => Err(
                malformed_about("general-box part assertion '", label, "' has no payload"),
            ),
        },
    };
    match check {
        Ok(c) => Ok((label, c)),
        Err(f) => Err(f),
    }
}

fn read_part<'a>(
    part: &'a Value,
    ranges: &[(usize, usize)],
    claim: &'a Value,
    refs: &ClaimAssertionRefs<'a>,
    ma: &'a Value,
    data: &[u8],
    format: AssetFormat,
    manifest: &str,
) -> (r: Result<LocatedPart<'a>, FaultText>)
    ensures
        ({
            let f = Frame {
                claim: *claim,
                refs: refs@,
                ma: *ma,
                data: data@,
                format,
                manifest: manifest@,
            };
            match r {
                Ok(p) => locate_part(*part, ranges@, f) == Ok::<Part, Fault>(p@),
                Err(e) => locate_part(*part, ranges@, f) == Err::<Part, Fault>(fault_view(e)),
            }
        }),
{
    let optional = match part.get("optional") {
        None => false,
        Some(Value::Bool(b)) => *b,
        Some(_) => {
            return Err(malformed_text("multi-asset part optional flag is not a boolean"));
        },
    };
    let location = match part.get("location") {
        Some(l) => l,
        None => {
            return Err(malformed_text("multi-asset part has no locator"));
        },
    };
    let locator = match read_place(location, format, ranges, data) {
        Ok(l) => l,
        Err(e) => {
            return Err(e);
        },
    };
    let hash_assertion = match part.get("hashAssertion") {
        Some(h) => h,
        None => {
            return Err(malformed_text("multi-asset part has no hashAssertion"));
        },
    };
    let (_, content_length) = locator.content_bounds();
    match read_binding(hash_assertion, refs, ma, claim, manifest, content_length) {
        Ok((label, check)) => Ok(LocatedPart { locator, optional, label, check }),
        Err(e) => Err(e),
    }
}

/// `head` in front of the parts of an outcome.
pub open spec fn joined_parts(head: Seq<Part>, rest: Result<Seq<Part>, Fault>) -> Result<
    Seq<Part>,
    Fault,
> {
    match rest {
        Ok(s) => Ok(head + s),
        Err(f) => Err(f),
    }
}

fn read_parts<'a>(
    parts: &'a [Value],
    ranges: &Vec<Vec<(usize, usize)>>,
    claim: &'a Value,
    refs: &ClaimAssertionRefs<'a>,
    ma: &'a Value,
    data: &[u8],
    format: AssetFormat,
    manifest: &str,
) -> (r: Result<Vec<LocatedPart<'a>>, FaultText>)
    ensures
        ({
            let f = Frame {
                claim: *claim,
                refs: refs@,
                ma: *ma,
                data: data@,
                format,
                manifest: manifest@,
            };
            match r {
                Ok(v) => locate_from(parts@, 0, ranges@, 0, f) == Ok::<Seq<Part>, Fault>(
                    part_views(v@),
                ),
                Err(e) => locate_from(parts@, 0, ranges@, 0, f) == Err::<Seq<Part>, Fault>(
                    fault_view(e),
                ),
            }
        }),
{
    let ghost f = Frame {
        claim: *claim,
        refs: refs@,
        ma: *ma,
        data: data@,
        format,
        manifest: manifest@,
    };
    let ghost whole = locate_from(parts@, 0, ranges@, 0, f);
    let none: Vec<(usize, usize)> = Vec::new();
    let mut out: Vec<LocatedPart<'a>> = Vec::new();
    let mut at: usize = 0;
    let mut i: usize = 0;
    assert(whole is Ok ==> part_views(out@) + whole->Ok_0 =~= whole->Ok_0);
    while i < parts.len()
        invariant
            i <= parts.len(),
            at <= i,
            none@ == Seq::<(usize, usize)>::empty(),
            f == (Frame {
                claim: *claim,
                refs: refs@,
                ma: *ma,
                data: data@,
                format,
                manifest: manifest@,
            }),
            whole == locate_from(parts@, 0, ranges@, 0, f),
            joined_parts(
                part_views(out@),
                locate_from(parts@, i as int, ranges@, at as int, f),
            ) == whole,
        decreases parts.len() - i,
    {
        let own = if at < ranges.len() {
            ranges[at].as_slice()
        } else {
            none.as_slice()
        };
        assert(own@ == ranges_at(ranges@, at as int));
        let p = match read_part(&parts[i], own, claim, refs, ma, data, format, manifest) {
            Ok(p) => p,
            Err(e) => {
                return Err(e);
            },
        };
        let ghost pv = p@;
        let ghost before = out@;
        match &p.locator {
            PartLocator::BmffBox { .. } => {
                at += 1;
            },
            PartLocator::ByteOffset { .. } => {},
        }
        out.push(p);
        proof {
            let rest = locate_from(parts@, i + 1, ranges@, at as int, f);
            assert(part_views(out@) =~= part_views(before).push(pv));
            assert(rest is Ok ==> part_views(out@) + rest->Ok_0 =~= part_views(before) + (seq![pv]
                + rest->Ok_0));
        }
        i += 1;
    }
    assert(part_views(out@) + Seq::<Part>::empty() =~= part_views(out@));
    Ok(out)
}

/// Locate the parts of a multi-asset assertion: what is to be checked, and
/// where it lies, or the one failure of the assertion itself.
///
/// `ma` is the decoded assertion, where its bytes are well formed, and
/// `ranges` what the container layer resolved for its box paths.
pub fn locate_parts<'a>(
    ma: Option<&'a Value>,
    claim: &'a Value,
    refs: &ClaimAssertionRefs<'a>,
    data: &[u8],
    format: AssetFormat,
    manifest: &str,
    ranges: &Result<Vec<Vec<(usize, usize)>>, String>,
) -> (r: Result<Vec<LocatedPart<'a>>, FaultText>)
    ensures
        match r {
            Ok(v) => located(
                value::pointee(ma),
                *claim,
                refs@,
                data@,
                format,
                manifest@,
                *ranges,
            ) == Ok::<Seq<Part>, Fault>(part_views(v@)),
            Err(e) => located(
                value::pointee(ma),
                *claim,
                refs@,
                data@,
                format,
                manifest@,
                *ranges,
            ) == Err::<Seq<Part>, Fault>(fault_view(e)),
        },
{
    let m = match ma {
        Some(m) => m,
        None => {
            return Err(malformed_text("multi-asset CBOR invalid"));
        },
    };
    let parts = match m.get_items("parts") {
        Some(parts) => parts,
        None => {
            return Err(malformed_text("multi-asset has no parts array"));
        },
    };
    if parts.len() == 0 {
        return Err(malformed_text("multi-asset parts array is empty"));
    }
    if parts.len() > MAX_MULTI_ASSET_PARTS {
        let n = decimal_string(MAX_MULTI_ASSET_PARTS as u64);
        return Err(
            malformed_about("multi-asset part count exceeds verifier bound (", n.as_str(), ")"),
        );
    }
    let paths = multi_asset_box_paths(parts);
    let ghost pv = locator_paths(parts@, parts@.len() as int);
    assert(pv.len() == paths@.len());
    if format == AssetFormat::Bmff && paths.len() > 0 {
        match ranges {
            Ok(resolved) => read_parts(parts, resolved, claim, refs, m, data, format, manifest),
            Err(why) => Err(
                (
                    ASSERTION_MULTI_ASSET_HASH_MALFORMED,
                    join2("BMFF locator plan is invalid: ", why.as_str()),
                ),
            ),
        }
    } else {
        let unresolved: Vec<Vec<(usize, usize)>> = Vec::new();
        assert(unresolved@ =~= Seq::<Vec<(usize, usize)>>::empty());
        read_parts(parts, &unresolved, claim, refs, m, data, format, manifest)
    }
}

// ---------------------------------------------------------------------------
// Executable checking
// ---------------------------------------------------------------------------

fn check_coverage(parts: &Vec<LocatedPart>) -> (r: Result<usize, FaultText>)
    ensures
        match r {
            Ok(end) => coverage_from(part_views(parts@), 0, 0) == Ok::<nat, Fault>(end as nat),
            Err(f) => coverage_from(part_views(parts@), 0, 0) == Err::<nat, Fault>(fault_view(f)),
        },
{
    let ghost pv = part_views(parts@);
    let mut at: usize = 0;
    let mut i: usize = 0;
    while i < parts.len()
        invariant
            i <= parts.len(),
            pv == part_views(parts@),
            coverage_from(pv, i as int, at as nat) == coverage_from(pv, 0, 0),
        decreases parts.len() - i,
    {
        assert(pv[i as int] == parts@[i as int]@);
        let (start, length) = parts[i].locator.coverage_bounds();
        if start != at {
            let a = decimal_string(start as u64);
            let b = decimal_string(at as u64);
            let mut why = join4(
                "multi-asset parts are not contiguous and ordered: '",
                parts[i].label,
                "' starts at ",
                a.as_str(),
            );
            why.append(" (expected ");
            why.append(b.as_str());
            why.append(")");
            return Err((ASSERTION_MULTI_ASSET_HASH_MALFORMED, why));
        }
        at = match start.checked_add(length) {
            Some(end) => end,
            None => {
                return Err(
                    malformed_about("multi-asset part '", parts[i].label, "' bounds overflow"),
                );
            },
        };
        i += 1;
    }
    Ok(at)
}

fn failed_text(label: &str, structural: bool, why: &str) -> (r: FaultText)
    ensures
        fault_view(r) == failed_part(label@, structural, why@),
{
    (
        if structural {
            ASSERTION_MULTI_ASSET_HASH_MALFORMED
        } else {
            ASSERTION_MULTI_ASSET_HASH_MISMATCH
        },
        join4("part '", label, "' failed: ", why),
    )
}

pub open spec fn fault_opt(f: Option<FaultText>) -> Option<Fault> {
    match f {
        Some(x) => Some(fault_view(x)),
        None => None,
    }
}

fn first_failure<'a>(results: &'a ValidationResults, other: &'a str) -> (r: &'a str)
    ensures
        r@ == first_explanation(results@, other@),
{
    if results.failure.len() > 0 {
        assert(results@.failure[0] == results.failure@[0]@);
        results.failure[0].explanation.as_str()
    } else {
        other
    }
}

fn find_bmff_fault(
    label: &str,
    hash_data: &Value,
    algorithm: &str,
    expected: Option<&[u8]>,
    merkle: bool,
    content: &[u8],
    facts: &BmffFacts,
    url: &str,
) -> (r: Option<FaultText>)
    ensures
        fault_opt(r) == bmff_part_fault(
            label@,
            *hash_data,
            algorithm@,
            value::bytes_opt(expected),
            merkle,
            content@,
            *facts,
            url@,
        ),
{
    if let Some(e) = expected {
        match HashAlgorithm::from_name(algorithm) {
            Some(a) => match facts.structural.get(a) {
                Ok(actual) => {
                    if !bytes_eq(actual, e) {
                        return Some(failed_text(label, false, "BMFF structural hash mismatch"));
                    }
                },
                Err(why) => {
                    let text = join2("BMFF part hashing failed: ", why);
                    return Some(failed_text(label, true, text.as_str()));
                },
            },
            None => {
                return Some(failed_text(label, true, "BMFF part hashing failed: "));
            },
        }
    }
    if !merkle {
        return None;
    }
    let none: Vec<crate::bmff::FragmentFacts> = Vec::new();
    assert(none@ =~= Seq::<crate::bmff::FragmentFacts>::empty());
    let mut own = ValidationResults::new();
    verify_bmff_merkle_init(
        &BmffMerkleInput {
            hash_data,
            assertion_alg: algorithm,
            data: content,
            facts,
            fragments: none.as_slice(),
            url,
            binding_compromised: false,
        },
        &mut own,
    );
    assert(own@.failure.len() == own.failure@.len());
    if own.failure.len() == 0 && own.has_success(ASSERTION_BMFF_HASH_MATCH) {
        None
    } else {
        let structural = own.has_failure(ASSERTION_BMFF_HASH_MALFORMED);
        let why = first_failure(&own, "BMFF merkle methodology did not validate");
        Some(failed_text(label, structural, why))
    }
}

fn find_boxes_fault(
    label: &str,
    box_map: Option<&Value>,
    claim: &Value,
    report: &Option<SpanReport>,
    content: &[u8],
    manifest: &str,
) -> (r: Option<FaultText>)
    requires
        report matches Some(x) ==> x.wf(content@.len()),
    ensures
        fault_opt(r) == boxes_part_fault(
            label@,
            value::pointee(box_map),
            *claim,
            *report,
            content@,
            manifest@,
        ),
{
    let spans = match report {
        Some(spans) => spans,
        None => {
            return Some(
                malformed_about(
                    "general-box part '",
                    label,
                    "' is not a supported JPEG or PNG part",
                ),
            );
        },
    };
    let mut own = ValidationResults::new();
    verify_boxes_hash(box_map, claim, spans, content, false, manifest, &mut own);
    assert(own@.failure.len() == own.failure@.len());
    if own.failure.len() == 0 && own.has_success(ASSERTION_BOXES_HASH_MATCH) {
        None
    } else {
        let structural = own.has_failure(ASSERTION_BOXES_HASH_MALFORMED) || own.has_failure(
            ALGORITHM_UNSUPPORTED,
        );
        let why = first_failure(&own, "general-box methodology did not validate");
        Some(failed_text(label, structural, why))
    }
}

fn find_part_fault(
    p: &LocatedPart,
    facts: &PartFacts,
    claim: &Value,
    data: &[u8],
    manifest: &str,
    url: &str,
) -> (r: Option<FaultText>)
    requires
        facts.spans matches Some(x) ==> x.wf(p@.place.content_length as nat),
    ensures
        fault_opt(r) == part_fault(p@, *facts, *claim, data@, manifest@, url@),
{
    let (start, length) = p.locator.content_bounds();
    let end = match start.checked_add(length) {
        Some(end) => end,
        None => {
            return Some(
                malformed_about("multi-asset part '", p.label, "' content bounds overflow"),
            );
        },
    };
    if start > data.len() || (start == data.len() && length != 0) {
        if p.optional {
            return None;
        }
        return Some(
            (
                ASSERTION_MULTI_ASSET_HASH_MISSING_PART,
                join3("required part '", p.label, "' is absent"),
            ),
        );
    }
    if end > data.len() {
        let place = p.locator.description();
        let n = decimal_string(data.len() as u64);
        let mut why = join4("part '", p.label, "' is truncated: ", place.as_str());
        why.append(" exceeds asset length ");
        why.append(n.as_str());
        return Some((ASSERTION_MULTI_ASSET_HASH_MISMATCH, why));
    }
    let content = &data[start..end];
    match &p.check {
        PartCheck::Data { algorithm, expected, ranges } => {
            match hash_with_exclusions(algorithm, content, ranges.as_slice()) {
                Some(actual) => {
                    if bytes_eq(actual.as_slice(), expected) {
                        None
                    } else {
                        Some(failed_text(p.label, false, "data hash mismatch"))
                    }
                },
                None => Some(failed_text(p.label, true, "data hash algorithm is unsupported")),
            }
        },
        PartCheck::Bmff { hash_data, algorithm, top, merkle } => find_bmff_fault(
            p.label,
            hash_data,
            algorithm,
            *top,
            *merkle,
            content,
            &facts.bmff,
            url,
        ),
        PartCheck::Boxes { box_map } => find_boxes_fault(
            p.label,
            *box_map,
            claim,
            &facts.spans,
            content,
            manifest,
        ),
    }
}

/// Check located parts against the asset: they must be contiguous from its
/// first byte, cover it, and hold the bytes that their assertions bind.
pub fn evaluate_parts(
    parts: &Vec<LocatedPart>,
    facts: &Vec<PartFacts>,
    claim: &Value,
    data: &[u8],
    manifest: &str,
    results: &mut ValidationResults,
)
    requires
        facts_fit(part_views(parts@), facts@),
    ensures
        ({
            let url = structure::assertion_url(manifest@, "c2pa.hash.multi-asset"@);
            let pv = part_views(parts@);
            final(results)@ == match coverage_from(pv, 0, 0) {
                Err(f) => old(results)@.fail(f.code, url, f.why),
                Ok(end) => after_evaluation(
                    pv,
                    end,
                    facts@,
                    *claim,
                    data@,
                    manifest@,
                    url,
                    old(results)@,
                ),
            }
        }),
{
    let url = assertion_uri(manifest, "c2pa.hash.multi-asset");
    let ghost pv = part_views(parts@);
    let end = match check_coverage(parts) {
        Ok(end) => end,
        Err((code, why)) => {
            results.push_failure(code, url, why);
            return;
        },
    };
    let mut any_failure = false;
    let mut i: usize = 0;
    while i < parts.len()
        invariant
            i <= parts.len(),
            pv == part_views(parts@),
            facts_fit(pv, facts@),
            results@ == after_parts(
                pv,
                i as int,
                facts@,
                *claim,
                data@,
                manifest@,
                url@,
                old(results)@,
            ),
            any_failure == any_part_fault(
                pv,
                i as int,
                facts@,
                *claim,
                data@,
                manifest@,
                url@,
            ),
        decreases parts.len() - i,
    {
        assert(pv[i as int] == parts@[i as int]@);
        assert(facts@[i as int].spans matches Some(x) ==> x.wf(
            pv[i as int].place.content_length as nat,
        ));
        let found = find_part_fault(
            &parts[i],
            &facts[i],
            claim,
            data,
            manifest,
            url.as_str(),
        );
        let ghost before = any_failure;
        proof {
            let here = part_fault(
                pv[i as int],
                facts@[i as int],
                *claim,
                data@,
                manifest@,
                url@,
            ) is Some;
            if before {
                let j = choose|j: int|
                    0 <= j < i && part_fault(
                        #[trigger] pv[j],
                        facts@[j],
                        *claim,
                        data@,
                        manifest@,
                        url@,
                    ) is Some;
                assert(any_part_fault(pv, i + 1, facts@, *claim, data@, manifest@, url@));
            } else if here {
                assert(any_part_fault(pv, i + 1, facts@, *claim, data@, manifest@, url@));
            } else {
                assert(!any_part_fault(pv, i + 1, facts@, *claim, data@, manifest@, url@)) by {
                    if any_part_fault(pv, i + 1, facts@, *claim, data@, manifest@, url@) {
                        let j = choose|j: int|
                            0 <= j < i + 1 && part_fault(
                                #[trigger] pv[j],
                                facts@[j],
                                *claim,
                                data@,
                                manifest@,
                                url@,
                            ) is Some;
                        assert(j < i || j == i);
                    }
                }
            }
        }
        if let Some((code, why)) = found {
            results.push_failure(code, url.clone(), why);
            any_failure = true;
        }
        i += 1;
    }
    if end < data.len() {
        let n = decimal_string((data.len() - end) as u64);
        results.push_failure(
            ASSERTION_MULTI_ASSET_HASH_MALFORMED,
            url.clone(),
            join3("asset has ", n.as_str(), " uncovered trailing bytes beyond declared parts"),
        );
        any_failure = true;
    }
    if !any_failure {
        results.push_success(
            ASSERTION_MULTI_ASSET_HASH_MATCH,
            url,
            "all required multi-asset parts valid".to_owned(),
        );
    }
}

/// Verify a `c2pa.hash.multi-asset` binding with the locator and the method
/// declared for each part.
///
/// `ma` is the decoded assertion, where its bytes are well formed. Unsupported
/// labels and malformed methods fail closed.
pub fn verify_multi_asset(
    claim: &Value,
    refs: &ClaimAssertionRefs,
    ma: Option<&Value>,
    data: &[u8],
    format: AssetFormat,
    manifest: &str,
    facts: &MultiAssetFacts,
    results: &mut ValidationResults,
)
    requires
        located(
            value::pointee(ma),
            *claim,
            refs@,
            data@,
            format,
            manifest@,
            facts.locator_ranges,
        ) matches Ok(parts) ==> facts_fit(parts, facts.parts@),
    ensures
        final(results)@ == multi_asset_outcome(
            value::pointee(ma),
            *claim,
            refs@,
            data@,
            format,
            manifest@,
            *facts,
            old(results)@,
        ),
{
    match locate_parts(ma, claim, refs, data, format, manifest, &facts.locator_ranges) {
        Ok(parts) => {
            evaluate_parts(&parts, &facts.parts, claim, data, manifest, results);
        },
        Err((code, why)) => {
            results.push_failure(code, assertion_uri(manifest, "c2pa.hash.multi-asset"), why);
        },
    }
}

// ---------------------------------------------------------------------------
// Laws
// ---------------------------------------------------------------------------

proof fn lemma_contiguous(parts: Seq<Part>, i: int, at: nat)
    requires
        0 <= i <= parts.len(),
        coverage_from(parts, i, at) is Ok,
    ensures
        i < parts.len() ==> parts[i].place.start == at,
        forall|k: int|
            i < k < parts.len() ==> (#[trigger] parts[k]).place.start == parts[k - 1].place.start
                + parts[k - 1].place.length,
        coverage_from(parts, i, at)->Ok_0 == if i < parts.len() {
            (parts.last().place.start + parts.last().place.length) as nat
        } else {
            at
        },
    decreases parts.len() - i,
{
    if i < parts.len() {
        lemma_contiguous(parts, i + 1, (parts[i].place.start + parts[i].place.length) as nat);
    }
}

/// Accepted parts begin at the first byte of the asset, and each begins where
/// the one before it ends: no byte lies between two parts or in two of them.
pub proof fn accepted_parts_are_contiguous(parts: Seq<Part>)
    requires
        coverage_from(parts, 0, 0) is Ok,
    ensures
        parts.len() > 0 ==> parts[0].place.start == 0,
        forall|k: int|
            0 < k < parts.len() ==> (#[trigger] parts[k]).place.start == parts[k - 1].place.start
                + parts[k - 1].place.length,
        parts.len() > 0 ==> coverage_from(parts, 0, 0)->Ok_0 == parts.last().place.start
            + parts.last().place.length,
{
    lemma_contiguous(parts, 0, 0);
}

proof fn lemma_covered(parts: Seq<Part>, i: int, at: nat)
    requires
        0 <= i <= parts.len(),
        i < parts.len() ==> parts[i].place.start == at,
        forall|k: int|
            i < k < parts.len() ==> (#[trigger] parts[k]).place.start == parts[k - 1].place.start
                + parts[k - 1].place.length,
        forall|k: int|
            i <= k < parts.len() ==> (#[trigger] parts[k]).place.start + parts[k].place.length
                <= usize::MAX,
    ensures
        coverage_from(parts, i, at) is Ok,
    decreases parts.len() - i,
{
    if i < parts.len() {
        if i + 1 < parts.len() {
            assert(parts[i + 1].place.start == parts[i].place.start + parts[i].place.length);
        }
        lemma_covered(parts, i + 1, (parts[i].place.start + parts[i].place.length) as nat);
    }
}

/// The part holds against the asset: it is optional and begins behind the last
/// byte, or it lies inside the asset and its bytes pass its own check.
pub open spec fn part_holds(
    p: Part,
    facts: PartFacts,
    claim: Value,
    data: Seq<u8>,
    manifest: Seq<char>,
    url: Seq<char>,
) -> bool {
    let start = p.place.content_start as int;
    let end = start + p.place.content_length;
    let behind = start > data.len() || (start == data.len() && end > start);
    &&& end <= usize::MAX
    &&& if behind {
        p.optional
    } else {
        end <= data.len() && content_fault(
            p,
            facts,
            claim,
            data.subrange(start, end),
            manifest,
            url,
        ) is None
    }
}

proof fn lemma_parts_count(
    parts: Seq<Part>,
    k: int,
    facts: Seq<PartFacts>,
    claim: Value,
    data: Seq<u8>,
    manifest: Seq<char>,
    url: Seq<char>,
    r: Results,
)
    requires
        0 <= k <= parts.len(),
    ensures
        ({
            let after = after_parts(parts, k, facts, claim, data, manifest, url, r);
            &&& after.failure.len() >= r.failure.len()
            &&& after.success == r.success
            &&& (after.failure.len() == r.failure.len()) == (forall|i: int|
                0 <= i < k ==> part_holds(
                    #[trigger] parts[i],
                    facts[i],
                    claim,
                    data,
                    manifest,
                    url,
                ))
            &&& any_part_fault(parts, k, facts, claim, data, manifest, url) == (
            after.failure.len() > r.failure.len())
        }),
    decreases k,
{
    if k > 0 {
        lemma_parts_count(parts, k - 1, facts, claim, data, manifest, url, r);
        let p = parts[k - 1];
        assert(part_fault(p, facts[k - 1], claim, data, manifest, url) is None == part_holds(
            p,
            facts[k - 1],
            claim,
            data,
            manifest,
            url,
        ));
        if any_part_fault(parts, k - 1, facts, claim, data, manifest, url) {
            let i = choose|i: int|
                0 <= i < k - 1 && part_fault(
                    #[trigger] parts[i],
                    facts[i],
                    claim,
                    data,
                    manifest,
                    url,
                ) is Some;
            assert(part_fault(parts[i], facts[i], claim, data, manifest, url) is Some);
        }
        if any_part_fault(parts, k, facts, claim, data, manifest, url) {
            let i = choose|i: int|
                0 <= i < k && part_fault(
                    #[trigger] parts[i],
                    facts[i],
                    claim,
                    data,
                    manifest,
                    url,
                ) is Some;
            if i < k - 1 {
                assert(part_fault(parts[i], facts[i], claim, data, manifest, url) is Some);
            }
        }
    } else {
        assert(!any_part_fault(parts, k, facts, claim, data, manifest, url));
    }
}

/// A multi-asset binding with located parts passes exactly where the parts begin
/// at the first byte of the asset, each begins where the one before it ends, they
/// reach the last byte, and every one of them holds; and exactly there it adds no
/// failure.
pub proof fn multi_asset_passes_exactly_where_parts_hold(
    ma: Option<Value>,
    claim: Value,
    refs: Refs,
    data: Seq<u8>,
    format: AssetFormat,
    manifest: Seq<char>,
    facts: MultiAssetFacts,
    r: Results,
    parts: Seq<Part>,
)
    requires
        located(ma, claim, refs, data, format, manifest, facts.locator_ranges) == Ok::<
            Seq<Part>,
            Fault,
        >(parts),
        parts.len() > 0,
    ensures
        ({
            let after = multi_asset_outcome(
                ma,
                claim,
                refs,
                data,
                format,
                manifest,
                facts,
                r,
            );
            let url = structure::assertion_url(manifest, "c2pa.hash.multi-asset"@);
            let sound = {
                &&& parts[0].place.start == 0
                &&& forall|k: int|
                    0 < k < parts.len() ==> (#[trigger] parts[k]).place.start == parts[k
                        - 1].place.start + parts[k - 1].place.length
                &&& forall|k: int|
                    0 <= k < parts.len() ==> (#[trigger] parts[k]).place.start
                        + parts[k].place.length <= usize::MAX
                &&& parts.last().place.start + parts.last().place.length >= data.len()
                &&& forall|i: int|
                    0 <= i < parts.len() ==> part_holds(
                        #[trigger] parts[i],
                        facts.parts@[i],
                        claim,
                        data,
                        manifest,
                        url,
                    )
            };
            &&& (after.failure.len() == r.failure.len()) == sound
            &&& (after.success.len() > r.success.len()) == sound
        }),
{
    let url = structure::assertion_url(manifest, "c2pa.hash.multi-asset"@);
    let n = parts.len() as int;
    lemma_parts_count(parts, n, facts.parts@, claim, data, manifest, url, r);
    if parts[0].place.start == 0 && (forall|k: int|
        0 < k < parts.len() ==> (#[trigger] parts[k]).place.start == parts[k - 1].place.start
            + parts[k - 1].place.length) && (forall|k: int|
        0 <= k < parts.len() ==> (#[trigger] parts[k]).place.start + parts[k].place.length
            <= usize::MAX) {
        lemma_covered(parts, 0, 0);
    }
    if coverage_from(parts, 0, 0) is Ok {
        lemma_contiguous(parts, 0, 0);
        lemma_no_overflow(parts, 0, 0);
    }
}

proof fn lemma_no_overflow(parts: Seq<Part>, i: int, at: nat)
    requires
        0 <= i <= parts.len(),
        coverage_from(parts, i, at) is Ok,
    ensures
        forall|k: int|
            i <= k < parts.len() ==> (#[trigger] parts[k]).place.start + parts[k].place.length
                <= usize::MAX,
    decreases parts.len() - i,
{
    if i < parts.len() {
        lemma_no_overflow(parts, i + 1, (parts[i].place.start + parts[i].place.length) as nat);
    }
}

/// The located part is the one that `item` of the assertion describes: it lies
/// where the locator says, it is optional only where the item says so, and it is
/// checked by a part assertion of this manifest that the claim itself references
/// with the same digest under the same algorithm. A plain data part is held to
/// the digest in that assertion, under the algorithm of the assertion, of the
/// multi-asset assertion or of the claim.
pub open spec fn follows_item(p: Part, item: Value, f: Frame) -> bool {
    let location = item.field("location"@)->0;
    let h = item.field("hashAssertion"@)->0;
    &&& item.field("location"@) is Some
    &&& item.field("hashAssertion"@) is Some
    &&& p.optional == (item.field("optional"@) == Some(Value::Bool(true)))
    &&& location.field("byteOffset"@) is Some != location.field("bmffBox"@) is Some
    &&& location.field("byteOffset"@) is Some ==> location.usize_field("byteOffset"@) == Some(
        p.place.start,
    ) && location.usize_field("length"@) == Some(p.place.length) && p.place.content_start
        == p.place.start && p.place.content_length == p.place.length
    &&& location.field("bmffBox"@) is Some ==> f.format == AssetFormat::Bmff && p.place.path
        == location.text_field("bmffBox"@)
    &&& h.text_field("url"@) is Some
    &&& labels::local_assertion_label(h.text_field("url"@)->0, f.manifest) == Some(p.label)
    &&& exists|i: int|
        0 <= i < f.refs.references.len() && (#[trigger] f.refs.references[i]).label == Some(p.label)
            && f.refs.references[i].value.bytes_field("hash"@) == h.bytes_field("hash"@)
            && labels::algorithm_for(f.refs.references[i].value, f.claim) == labels::algorithm_for(
            h,
            f.claim,
        )
    &&& h.bytes_field("hash"@) is Some
    &&& f.refs.decoded(p.label) is Some
    &&& match p.check {
        Check::Data { algorithm, expected, ranges } => {
            let d = f.refs.decoded(p.label)->0;
            &&& d.bytes_field("hash"@) == Some(expected)
            &&& Some(algorithm) == if d.text_field("alg"@) is Some {
                d.text_field("alg"@)
            } else if f.ma.text_field("alg"@) is Some {
                f.ma.text_field("alg"@)
            } else {
                f.claim.text_field("alg"@)
            }
            &&& exclusions::part_ranges(d.field("exclusions"@), p.place.content_length) == Ok::<
                Seq<(usize, usize)>,
                Seq<char>,
            >(ranges)
        },
        Check::Bmff { hash_data, algorithm, top, merkle } => {
            &&& hash_data == f.refs.decoded(p.label)->0
            &&& top == hash_data.bytes_field("hash"@)
            &&& merkle == hash_data.field("merkle"@) is Some
            &&& merkle || top is Some
        },
        Check::Boxes { box_map } => f.refs.indexed(p.label)->0.payload is Some && box_map
            == f.refs.indexed(p.label)->0.payload->0.value,
    }
}

proof fn lemma_follows(
    items: Seq<Value>,
    i: int,
    ranges: Seq<Vec<(usize, usize)>>,
    at: int,
    f: Frame,
)
    requires
        0 <= i <= items.len(),
        locate_from(items, i, ranges, at, f) is Ok,
    ensures
        ({
            let parts = locate_from(items, i, ranges, at, f)->Ok_0;
            &&& parts.len() == items.len() - i
            &&& forall|k: int|
                0 <= k < parts.len() ==> follows_item(#[trigger] parts[k], items[i + k], f)
        }),
    decreases items.len() - i,
{
    if i < items.len() {
        let p = locate_part(items[i], ranges_at(ranges, at), f)->Ok_0;
        let next = if p.place.path is Some {
            at + 1
        } else {
            at
        };
        lemma_follows(items, i + 1, ranges, next, f);
        let rest = locate_from(items, i + 1, ranges, next, f)->Ok_0;
        let parts = locate_from(items, i, ranges, at, f)->Ok_0;
        let h = items[i].field("hashAssertion"@)->0;
        let digest = h.bytes_field("hash"@)->0;
        let algorithm = labels::algorithm_for(h, f.claim);
        assert(declared(f.refs.references, p.label, digest, algorithm, f.claim));
        let j = choose|j: int|
            0 <= j < f.refs.references.len() && declares(
                #[trigger] f.refs.references[j],
                p.label,
                digest,
                algorithm,
                f.claim,
            );
        assert(f.refs.references[j].label == Some(p.label));
        assert(follows_item(p, items[i], f));
        assert(parts == seq![p] + rest);
        assert forall|k: int| 0 <= k < parts.len() implies follows_item(
            #[trigger] parts[k],
            items[i + k],
            f,
        ) by {
            if k > 0 {
                assert(parts[k] == rest[k - 1]);
                assert(i + 1 + (k - 1) == i + k);
            }
        }
    }
}

/// The located parts are those of the assertion, one for each item and in its
/// order, and each follows its item.
pub proof fn located_parts_follow_the_assertion(
    ma: Value,
    claim: Value,
    refs: Refs,
    data: Seq<u8>,
    format: AssetFormat,
    manifest: Seq<char>,
    ranges: Result<Vec<Vec<(usize, usize)>>, String>,
)
    requires
        located(Some(ma), claim, refs, data, format, manifest, ranges) is Ok,
    ensures
        ({
            let parts = located(Some(ma), claim, refs, data, format, manifest, ranges)->Ok_0;
            &&& ma.items_field("parts"@) is Some
            &&& parts.len() == ma.items_field("parts"@)->0.len()
            &&& parts.len() > 0
            &&& forall|k: int|
                0 <= k < parts.len() ==> follows_item(
                    #[trigger] parts[k],
                    ma.items_field("parts"@)->0[k],
                    Frame { claim, refs, ma, data, format, manifest },
                )
        }),
{
    let items = ma.items_field("parts"@)->0;
    let f = Frame { claim, refs, ma, data, format, manifest };
    let parts = located(Some(ma), claim, refs, data, format, manifest, ranges)->Ok_0;
    if format == AssetFormat::Bmff && locator_paths(items, items.len() as int).len() > 0 {
        lemma_follows(items, 0, ranges->Ok_0@, 0, f);
    } else {
        lemma_follows(items, 0, Seq::empty(), 0, f);
    }
    assert forall|k: int| 0 <= k < parts.len() implies follows_item(
        #[trigger] parts[k],
        items[k],
        f,
    ) by {
        assert(items[0 + k] == items[k]);
    }
}

/// The bytes of a part pass exactly where its own binding holds over them: a data
/// part states the digest of what its exclusions leave of them; a box part, over a
/// segmented part, covers its boxes.
pub proof fn part_bytes_pass_exactly_where_their_binding_holds(
    p: Part,
    facts: PartFacts,
    claim: Value,
    content: Seq<u8>,
    manifest: Seq<char>,
    url: Seq<char>,
)
    ensures
        p.check matches Check::Data { algorithm, expected, ranges } ==> content_fault(
            p,
            facts,
            claim,
            content,
            manifest,
            url,
        ) is None == (hash::named_digest(algorithm, hash::retained(content, ranges)) == Some(
            expected,
        )),
        p.check matches Check::Boxes { box_map } ==> (facts.spans matches Some(
            SpanReport::Segmented(spans),
        ) ==> content_fault(p, facts, claim, content, manifest, url) is None == (box_map is Some
            && box_map->0.items_field("boxes"@) is Some && boxes::covered(
            box_map->0.items_field("boxes"@)->0,
            labels::algorithm_for(box_map->0, claim),
            spans@,
            content,
        ))),
        p.check matches Check::Boxes { box_map } ==> facts.spans is None ==> content_fault(
            p,
            facts,
            claim,
            content,
            manifest,
            url,
        ) is Some,
{
    if let Check::Boxes { box_map } = p.check {
        if let Some(SpanReport::Segmented(spans)) = facts.spans {
            if let Some(m) = box_map {
                if let Some(entries) = m.items_field("boxes"@) {
                    boxes::box_hash_passes_exactly_where_covered(
                        m,
                        claim,
                        spans,
                        content,
                        false,
                        manifest,
                        Results::empty(),
                        entries,
                        labels::algorithm_for(m, claim),
                    );
                    let r = boxes::boxes_outcome(
                        box_map,
                        claim,
                        SpanReport::Segmented(spans),
                        content,
                        false,
                        manifest,
                        Results::empty(),
                    );
                    if r.failure.len() == 0 {
                        assert(r.failure =~= Results::empty().failure);
                    }
                }
            }
        }
    }
}

} // verus!
