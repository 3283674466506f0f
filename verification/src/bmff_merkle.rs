//! BMFF Merkle bindings: initialization hashes, monolithic trees and
//! fragment trees.
use std::collections::{BTreeMap, BTreeSet};
use vstd::prelude::*;
use vstd::string::StringExecFns;
use crate::bmff;
use crate::bmff::{
    bmff_fragment_merkle_row, bmff_initialization_scope, bmff_merkle_proof_index, entry_alg,
    has_odd_width, is_stored_at, preflight_bmff_monolithic_entries, verify_bmff_monolithic_entry,
    BmffFacts, BmffMonolithicPlan, FragmentFacts, MerkleBox, MerkleBoxes, Plan, ProofKey,
    MAX_BMFF_MERKLE_ENTRIES,
};
use crate::hash;
use crate::hash::HashAlgorithm;
use crate::merkle;
use crate::merkle::merkle_climb;
use crate::status::{
    Results, ValidationResults, ASSERTION_BMFF_HASH_MALFORMED, ASSERTION_BMFF_HASH_MATCH,
    ASSERTION_BMFF_HASH_MISMATCH,
};
use crate::stream::BMFF_FRAGMENTS_NOT_EVALUATED;
use crate::text;
use crate::text::{bytes_eq, decimal_string, join2, join3, join4, join5, signed_string};
use crate::value::Value;

verus! {

/// The track that a fragment tree belongs to.
pub type TrackKey = (i128, i128);

// ---------------------------------------------------------------------------
// Fragments
// ---------------------------------------------------------------------------

/// The integer identifiers of a fragment tree's entry.
pub open spec fn track_of(entry: Value) -> Option<TrackKey> {
    match (entry.field("uniqueId"@), entry.field("localId"@)) {
        (Some(Value::Integer(u)), Some(Value::Integer(l))) => Some((u, l)),
        _ => None,
    }
}

/// The fragment trees of the entries from `i` on, added to `trees`.
pub open spec fn trees_from(entries: Seq<Value>, i: int, trees: Map<TrackKey, usize>) -> Result<
    Map<TrackKey, usize>,
    Seq<char>,
>
    decreases entries.len() - i,
{
    if i < 0 || i >= entries.len() {
        Ok(trees)
    } else if entries[i].field("initHash"@) is None {
        trees_from(entries, i + 1, trees)
    } else {
        match track_of(entries[i]) {
            None => Err("fragment merkle entry is missing integer uniqueId or localId"@),
            Some(key) => if trees.contains_key(key) {
                Err("duplicate fragment merkle entry key"@)
            } else {
                trees_from(entries, i + 1, trees.insert(key, i as usize))
            },
        }
    }
}

/// What a walk over the fragments has come to.
#[verifier::ext_equal]
pub struct Walk {
    pub results: Results,
    pub matched: nat,
    pub seen: Set<ProofKey>,
    pub last: Map<TrackKey, usize>,
}

/// `fragment <i><what>`
pub open spec fn fragment_text(i: nat, what: Seq<char>) -> Seq<char> {
    "fragment "@ + text::decimal(i) + what
}

impl Walk {
    /// A malformed fragment, behind which the walk goes on.
    pub open spec fn malformed(self, url: Seq<char>, i: nat, what: Seq<char>) -> Walk {
        Walk {
            results: self.results.fail(ASSERTION_BMFF_HASH_MALFORMED@, url, fragment_text(i, what)),
            ..self
        }
    }

    /// The results with a fragment that does not match.
    pub open spec fn mismatch(self, url: Seq<char>, i: nat, what: Seq<char>) -> Results {
        self.results.fail(ASSERTION_BMFF_HASH_MISMATCH@, url, fragment_text(i, what))
    }
}

/// ` uniqueId=<u> localId=<l>`
pub open spec fn track_text(b: MerkleBox) -> Seq<char> {
    " uniqueId="@ + text::signed_decimal(b.unique_id as int) + " localId="@
        + text::signed_decimal(b.local_id as int)
}

/// One fragment whose box is parsed and in order, against its tree.
pub open spec fn fragment_leaf(
    entries: Seq<Value>,
    assertion_alg: Seq<char>,
    trees: Map<TrackKey, usize>,
    f: FragmentFacts,
    b: MerkleBox,
    i: nat,
    url: Seq<char>,
    w: Walk,
) -> Walk {
    let track = (b.unique_id, b.local_id);
    if !trees.contains_key(track) {
        w.malformed(url, i, ": no merkle entry for"@ + track_text(b))
    } else {
        let entry = entries[trees[track] as int];
        match bmff::entry_algorithm(entry, assertion_alg) {
            None => w.malformed(url, i, ": merkle alg is not a string"@),
            Some(alg) => match bmff::fragment_row(entry, alg) {
                Err(why) => w.malformed(url, i, ": "@ + why),
                Ok(row) => if bmff::odd_width(b.proof@, row.digest_len) {
                    w.malformed(url, i, ": merkle proof has the wrong digest width"@)
                } else {
                    match f.leaf.named(alg) {
                        Some(Ok(leaf)) => match merkle::derived(
                            leaf,
                            b.location,
                            row.count,
                            merkle::proof_views(b.proof@),
                            row.hashes.len() as usize,
                            alg,
                        ) {
                            Some((at, h)) => if bmff::stored_at(row.hashes, at, h) {
                                Walk { matched: w.matched + 1, ..w }
                            } else {
                                Walk {
                                    results: w.mismatch(
                                        url,
                                        i,
                                        ": merkle leaf does not derive the stored row hash"@,
                                    ),
                                    ..w
                                }
                            },
                            None => w.malformed(
                                url,
                                i,
                                ": merkle proof inconsistent with location "@ + text::decimal(
                                    b.location as nat,
                                ) + " / count "@ + text::decimal(row.count as nat) + " / row "@
                                    + text::decimal(row.hashes.len()),
                            ),
                        },
                        _ => w.malformed(
                            url,
                            i,
                            ": BMFF exclusions or hash algorithm are invalid"@,
                        ),
                    }
                },
            },
        }
    }
}

/// One fragment: the walk behind it, or the results it ends with.
pub open spec fn fragment_step(
    entries: Seq<Value>,
    assertion_alg: Seq<char>,
    trees: Map<TrackKey, usize>,
    f: FragmentFacts,
    i: nat,
    url: Seq<char>,
    w: Walk,
) -> Result<Walk, Results> {
    match f.merkle_boxes {
        None => Ok(w.malformed(url, i, ": not parseable as BMFF"@)),
        Some(boxes) => if boxes@.len() != 1 {
            Ok(
                w.malformed(
                    url,
                    i,
                    ": expected one auxiliary C2PA merkle box, found "@ + text::decimal(
                        boxes@.len(),
                    ),
                ),
            )
        } else {
            match boxes@[0] {
                Err(why) => Ok(w.malformed(url, i, ": "@ + why@)),
                Ok(b) => {
                    let key = bmff::box_key(b);
                    let track = (b.unique_id, b.local_id);
                    if w.seen.contains(key) {
                        Err(
                            w.mismatch(
                                url,
                                i,
                                ": duplicate fragment identity"@ + track_text(b) + " location="@
                                    + text::decimal(b.location as nat),
                            ),
                        )
                    } else if w.last.contains_key(track) && b.location <= w.last[track] {
                        Err(
                            w.mismatch(
                                url,
                                i,
                                ": non-increasing playback location "@ + text::decimal(
                                    b.location as nat,
                                ) + " after "@ + text::decimal(w.last[track] as nat) + " for"@
                                    + track_text(b),
                            ),
                        )
                    } else {
                        Ok(
                            fragment_leaf(
                                entries,
                                assertion_alg,
                                trees,
                                f,
                                b,
                                i,
                                url,
                                Walk {
                                    seen: w.seen.insert(key),
                                    last: w.last.insert(track, b.location),
                                    ..w
                                },
                            ),
                        )
                    }
                },
            }
        },
    }
}

/// Whether every fragment from `i` on and before it matched, and the results.
pub open spec fn fragments_from(
    entries: Seq<Value>,
    assertion_alg: Seq<char>,
    trees: Map<TrackKey, usize>,
    fragments: Seq<FragmentFacts>,
    i: int,
    url: Seq<char>,
    w: Walk,
) -> (bool, Results)
    decreases fragments.len() - i,
{
    if i < 0 || i >= fragments.len() {
        (w.matched > 0 && w.matched == fragments.len(), w.results)
    } else {
        match fragment_step(entries, assertion_alg, trees, fragments[i], i as nat, url, w) {
            Err(r) => (false, r),
            Ok(next) => fragments_from(
                entries,
                assertion_alg,
                trees,
                fragments,
                i + 1,
                url,
                next,
            ),
        }
    }
}

pub open spec fn fresh_walk(r: Results) -> Walk {
    Walk { results: r, matched: 0, seen: Set::empty(), last: Map::empty() }
}

/// The outcome of checking fragments against the fragment trees.
pub open spec fn fragments_outcome(
    entries: Seq<Value>,
    assertion_alg: Seq<char>,
    fragments: Seq<FragmentFacts>,
    url: Seq<char>,
    r: Results,
) -> (bool, Results) {
    match trees_from(entries, 0, Map::empty()) {
        Err(why) => (false, r.fail(ASSERTION_BMFF_HASH_MALFORMED@, url, why)),
        Ok(trees) => fragments_from(
            entries,
            assertion_alg,
            trees,
            fragments,
            0,
            url,
            fresh_walk(r),
        ),
    }
}

/// The keys of both maps are ordered by their own comparison.
spec fn keys_ordered() -> bool {
    vstd::laws_cmp::obeys_cmp::<TrackKey>() && vstd::laws_cmp::obeys_cmp::<ProofKey>()
}

proof fn track_keys_are_ordered()
    ensures
        keys_ordered(),
{
    broadcast use vstd::laws_cmp::group_laws_cmp;

    assert(vstd::laws_cmp::obeys_cmp::<TrackKey>());
    assert(vstd::laws_cmp::obeys_cmp::<ProofKey>());
}

/// Every position in the index is one of the entries.
pub open spec fn trees_wf(entries: Seq<Value>, trees: Map<TrackKey, usize>) -> bool {
    forall|k: TrackKey| #[trigger] trees.contains_key(k) ==> trees[k] < entries.len()
}

fn index_trees(entries: &[Value]) -> (r: Result<BTreeMap<TrackKey, usize>, &'static str>)
    ensures
        match r {
            Ok(m) => trees_from(entries@, 0, Map::empty()) == Ok::<
                Map<TrackKey, usize>,
                Seq<char>,
            >(m@) && trees_wf(entries@, m@),
            Err(why) => trees_from(entries@, 0, Map::empty()) == Err::<
                Map<TrackKey, usize>,
                Seq<char>,
            >(why@),
        },
{
    proof {
        track_keys_are_ordered();
    }
    let mut trees: BTreeMap<TrackKey, usize> = BTreeMap::new();
    let mut i: usize = 0;
    while i < entries.len()
        invariant
            i <= entries.len(),
            keys_ordered(),
            trees_wf(entries@, trees@),
            trees_from(entries@, i as int, trees@) == trees_from(entries@, 0, Map::empty()),
        decreases entries.len() - i,
    {
        if entries[i].get("initHash").is_some() {
            let key: TrackKey = match (entries[i].get("uniqueId"), entries[i].get("localId")) {
                (Some(Value::Integer(u)), Some(Value::Integer(l))) => (*u, *l),
                _ => {
                    return Err("fragment merkle entry is missing integer uniqueId or localId");
                },
            };
            if trees.insert(key, i).is_some() {
                return Err("duplicate fragment merkle entry key");
            }
        }
        i += 1;
    }
    Ok(trees)
}

fn fragment_message(i: usize, what: &str) -> (r: String)
    ensures
        r@ == fragment_text(i as nat, what@),
{
    let n = decimal_string(i as u64);
    join3("fragment ", n.as_str(), what)
}

fn track_message(b: &MerkleBox) -> (r: String)
    ensures
        r@ == track_text(*b),
{
    let u = signed_string(b.unique_id);
    let l = signed_string(b.local_id);
    join4(" uniqueId=", u.as_str(), " localId=", l.as_str())
}

/// What checking one leaf against its tree comes to.
enum LeafOutcome {
    Matched,
    Malformed(String),
    Mismatch(String),
}

/// A leaf outcome applied to a walk.
spec fn after_leaf(o: LeafOutcome, i: nat, url: Seq<char>, w: Walk) -> Walk {
    match o {
        LeafOutcome::Matched => Walk { matched: w.matched + 1, ..w },
        LeafOutcome::Malformed(what) => w.malformed(url, i, what@),
        LeafOutcome::Mismatch(what) => Walk { results: w.mismatch(url, i, what@), ..w },
    }
}

fn check_leaf(
    entries: &[Value],
    assertion_alg: &str,
    trees: &BTreeMap<TrackKey, usize>,
    f: &FragmentFacts,
    b: &MerkleBox,
) -> (o: LeafOutcome)
    requires
        trees_wf(entries@, trees@),
    ensures
        forall|i: nat, url: Seq<char>, w: Walk|
            fragment_leaf(entries@, assertion_alg@, trees@, *f, *b, i, url, w) == #[trigger] after_leaf(
                o,
                i,
                url,
                w,
            ),
{
    proof {
        track_keys_are_ordered();
    }
    let track: TrackKey = (b.unique_id, b.local_id);
    let at: usize = match trees.get(&track) {
        Some(at) => *at,
        None => {
            let t = track_message(b);
            return LeafOutcome::Malformed(join2(": no merkle entry for", t.as_str()));
        },
    };
    assert(trees@.contains_key(track) && trees@[track] == at);
    let entry = &entries[at];
    let alg = match entry_alg(entry, assertion_alg) {
        Some(alg) => alg,
        None => {
            return LeafOutcome::Malformed(": merkle alg is not a string".to_owned());
        },
    };
    let (count, row, digest_len) = match bmff_fragment_merkle_row(entry, alg) {
        Ok(row) => row,
        Err(why) => {
            return LeafOutcome::Malformed(join2(": ", why));
        },
    };
    if has_odd_width(b.proof.as_slice(), digest_len) {
        return LeafOutcome::Malformed(": merkle proof has the wrong digest width".to_owned());
    }
    let leaf = match HashAlgorithm::from_name(alg) {
        Some(a) => match f.leaf.get(a) {
            Ok(leaf) => vstd::slice::slice_to_vec(leaf),
            Err(_) => {
                return LeafOutcome::Malformed(
                    ": BMFF exclusions or hash algorithm are invalid".to_owned(),
                );
            },
        },
        None => {
            return LeafOutcome::Malformed(
                ": BMFF exclusions or hash algorithm are invalid".to_owned(),
            );
        },
    };
    match merkle_climb(leaf, b.location, count, b.proof.as_slice(), row.len(), alg) {
        Some((at, h)) => {
            if is_stored_at(row, at, h.as_slice()) {
                LeafOutcome::Matched
            } else {
                LeafOutcome::Mismatch(
                    ": merkle leaf does not derive the stored row hash".to_owned(),
                )
            }
        },
        None => {
            let l = decimal_string(b.location as u64);
            let c = decimal_string(count as u64);
            let n = decimal_string(row.len() as u64);
            let mut what = join4(
                ": merkle proof inconsistent with location ",
                l.as_str(),
                " / count ",
                c.as_str(),
            );
            what.append(" / row ");
            what.append(n.as_str());
            LeafOutcome::Malformed(what)
        },
    }
}

/// Validate supplied fragment files against the assertion's fragment trees.
///
/// Every fragment must hold one auxiliary Merkle box; identities may not
/// repeat and playback locations must increase within a track. Returns whether
/// there are fragments and all of them matched.
pub fn verify_bmff_fragments(
    entries: &[Value],
    assertion_alg: &str,
    fragments: &[FragmentFacts],
    url: &str,
    results: &mut ValidationResults,
) -> (ok: bool)
    ensures
        (ok, final(results)@) == fragments_outcome(
            entries@,
            assertion_alg@,
            fragments@,
            url@,
            old(results)@,
        ),
{
    proof {
        track_keys_are_ordered();
    }
    let trees = match index_trees(entries) {
        Ok(trees) => trees,
        Err(why) => {
            results.push_failure(ASSERTION_BMFF_HASH_MALFORMED, url.to_owned(), why.to_owned());
            return false;
        },
    };
    let mut matched: usize = 0;
    let mut seen: BTreeSet<ProofKey> = BTreeSet::new();
    let mut last: BTreeMap<TrackKey, usize> = BTreeMap::new();
    let ghost whole = fragments_outcome(
        entries@,
        assertion_alg@,
        fragments@,
        url@,
        results@,
    );
    let mut i: usize = 0;
    while i < fragments.len()
        invariant
            i <= fragments.len(),
            matched <= i,
            keys_ordered(),
            trees_wf(entries@, trees@),
            whole == fragments_outcome(
                entries@,
                assertion_alg@,
                fragments@,
                url@,
                old(results)@,
            ),
            whole == fragments_from(
                entries@,
                assertion_alg@,
                trees@,
                fragments@,
                i as int,
                url@,
                Walk { results: results@, matched: matched as nat, seen: seen@, last: last@ },
            ),
        decreases fragments.len() - i,
    {
        let f = &fragments[i];
        let ghost w0 = Walk {
            results: results@,
            matched: matched as nat,
            seen: seen@,
            last: last@,
        };
        match &f.merkle_boxes {
            None => {
                results.push_failure(
                    ASSERTION_BMFF_HASH_MALFORMED,
                    url.to_owned(),
                    fragment_message(i, ": not parseable as BMFF"),
                );
            },
            Some(boxes) => {
                if boxes.len() != 1 {
                    let n = decimal_string(boxes.len() as u64);
                    let what = join2(
                        ": expected one auxiliary C2PA merkle box, found ",
                        n.as_str(),
                    );
                    results.push_failure(
                        ASSERTION_BMFF_HASH_MALFORMED,
                        url.to_owned(),
                        fragment_message(i, what.as_str()),
                    );
                } else {
                    match &boxes[0] {
                        Err(why) => {
                            let what = join2(": ", why.as_str());
                            results.push_failure(
                                ASSERTION_BMFF_HASH_MALFORMED,
                                url.to_owned(),
                                fragment_message(i, what.as_str()),
                            );
                        },
                        Ok(b) => {
                            let key: ProofKey = ((b.unique_id, b.local_id), b.location);
                            let track: TrackKey = (b.unique_id, b.local_id);
                            if !seen.insert(key) {
                                let t = track_message(b);
                                let l = decimal_string(b.location as u64);
                                let what = join4(
                                    ": duplicate fragment identity",
                                    t.as_str(),
                                    " location=",
                                    l.as_str(),
                                );
                                results.push_failure(
                                    ASSERTION_BMFF_HASH_MISMATCH,
                                    url.to_owned(),
                                    fragment_message(i, what.as_str()),
                                );
                                return false;
                            }
                            let previous = last.insert(track, b.location);
                            if let Some(p) = previous {
                                if b.location <= p {
                                    let t = track_message(b);
                                    let l = decimal_string(b.location as u64);
                                    let q = decimal_string(p as u64);
                                    let mut what = join5(
                                        ": non-increasing playback location ",
                                        l.as_str(),
                                        " after ",
                                        q.as_str(),
                                        " for",
                                    );
                                    what.append(t.as_str());
                                    results.push_failure(
                                        ASSERTION_BMFF_HASH_MISMATCH,
                                        url.to_owned(),
                                        fragment_message(i, what.as_str()),
                                    );
                                    return false;
                                }
                            }
                            let o = check_leaf(entries, assertion_alg, &trees, f, b);
                            let ghost w1 = Walk {
                                seen: w0.seen.insert(key),
                                last: w0.last.insert(track, b.location),
                                ..w0
                            };
                            assert(fragment_leaf(
                                entries@,
                                assertion_alg@,
                                trees@,
                                *f,
                                *b,
                                i as nat,
                                url@,
                                w1,
                            ) == after_leaf(o, i as nat, url@, w1));
                            match o {
                                LeafOutcome::Matched => {
                                    matched += 1;
                                },
                                LeafOutcome::Malformed(what) => {
                                    results.push_failure(
                                        ASSERTION_BMFF_HASH_MALFORMED,
                                        url.to_owned(),
                                        fragment_message(i, what.as_str()),
                                    );
                                },
                                LeafOutcome::Mismatch(what) => {
                                    results.push_failure(
                                        ASSERTION_BMFF_HASH_MISMATCH,
                                        url.to_owned(),
                                        fragment_message(i, what.as_str()),
                                    );
                                },
                            }
                        },
                    }
                }
            },
        }
        proof {
            let next = Walk {
                results: results@,
                matched: matched as nat,
                seen: seen@,
                last: last@,
            };
            let step = fragment_step(
                entries@,
                assertion_alg@,
                trees@,
                *f,
                i as nat,
                url@,
                w0,
            );
            assert(step is Ok);
            assert(step->Ok_0 =~= next);
        }
        i += 1;
    }
    matched > 0 && matched == fragments.len()
}

// ---------------------------------------------------------------------------
// The binding
// ---------------------------------------------------------------------------

/// What a BMFF Merkle binding is checked against.
pub struct BmffMerkleInput<'a> {
    pub hash_data: &'a Value,
    pub assertion_alg: &'a str,
    pub data: &'a [u8],
    pub facts: &'a BmffFacts,
    pub fragments: &'a [FragmentFacts],
    pub url: &'a str,
    pub binding_compromised: bool,
}

/// A monolithic entry that stores a row above its leaves.
pub open spec fn stores_upper_row(entry: Value) -> bool {
    entry.field("initHash"@) is None && match (
        entry.usize_field("count"@),
        entry.items_field("hashes"@),
    ) {
        (Some(count), Some(row)) => count > row.len(),
        _ => false,
    }
}

pub open spec fn any_upper_row(entries: Seq<Value>) -> bool {
    exists|i: int| 0 <= i < entries.len() && stores_upper_row(#[trigger] entries[i])
}

pub open spec fn any_init_hash(entries: Seq<Value>) -> bool {
    exists|i: int| 0 <= i < entries.len() && (#[trigger] entries[i]).field("initHash"@) is Some
}

/// The boxes of an optional list.
pub open spec fn boxes_of(b: Option<MerkleBoxes>) -> Seq<Result<MerkleBox, String>> {
    match b {
        Some(v) => v@,
        None => Seq::empty(),
    }
}

/// What a scan over the entries has come to.
#[verifier::ext_equal]
pub struct Scan {
    pub results: Results,
    pub tracks: nat,
    pub trees: nat,
    pub monolithic: nat,
    pub monolithic_ok: nat,
}

/// An entry with an `initHash`: whether the initialization scope has that
/// digest, or what is wrong.
pub open spec fn init_defect(
    entry: Value,
    init_hash: Seq<u8>,
    assertion_alg: Seq<char>,
    facts: BmffFacts,
) -> Option<bmff::Defect> {
    match bmff::entry_algorithm(entry, assertion_alg) {
        None => Some(bmff::Defect { malformed: true, why: "merkle alg is not a string"@ }),
        Some(alg) => match bmff::fragment_row(entry, alg) {
            Err(_) => Some(
                bmff::Defect {
                    malformed: true,
                    why: "merkle row or hash algorithm is malformed"@,
                },
            ),
            Ok(row) => if init_hash.len() != row.digest_len {
                Some(
                    bmff::Defect {
                        malformed: true,
                        why: "merkle initHash has the wrong digest width"@,
                    },
                )
            } else {
                match facts.init_structural.named(alg) {
                    Some(Ok(actual)) => if actual == init_hash {
                        None
                    } else {
                        Some(
                            bmff::Defect {
                                malformed: false,
                                why: "merkle initHash mismatch: init segment bytes altered"@,
                            },
                        )
                    },
                    _ => Some(
                        bmff::Defect {
                            malformed: true,
                            why: "merkle initialization scope or exclusions are malformed"@,
                        },
                    ),
                }
            },
        },
    }
}

/// One entry: the scan behind it, or the results it ends with.
pub open spec fn scan_entry(
    entry: Value,
    assertion_alg: Seq<char>,
    facts: BmffFacts,
    plans: Seq<Plan>,
    index: Option<Map<ProofKey, usize>>,
    url: Seq<char>,
    s: Scan,
) -> Result<Scan, Results> {
    match entry.field("initHash"@) {
        None => if s.monolithic >= plans.len() {
            Err(
                s.results.fail(
                    ASSERTION_BMFF_HASH_MALFORMED@,
                    url,
                    "monolithic merkle preflight plan is incomplete"@,
                ),
            )
        } else {
            let d = bmff::monolithic_defect(
                plans[s.monolithic as int],
                boxes_of(facts.merkle_boxes),
                index,
            );
            Ok(
                Scan {
                    results: bmff::after_defect(d, url, s.results),
                    monolithic: s.monolithic + 1,
                    monolithic_ok: if d is None {
                        s.monolithic_ok + 1
                    } else {
                        s.monolithic_ok
                    },
                    ..s
                },
            )
        },
        Some(Value::Bytes(h)) => match init_defect(entry, h@, assertion_alg, facts) {
            Some(d) => Err(bmff::after_defect(Some(d), url, s.results)),
            None => Ok(Scan { tracks: s.tracks + 1, trees: s.trees + 1, ..s }),
        },
        Some(_) => Err(
            s.results.fail(
                ASSERTION_BMFF_HASH_MALFORMED@,
                url,
                "merkle initHash is not a byte string"@,
            ),
        ),
    }
}

/// The entries from `i` on.
pub open spec fn scan_from(
    entries: Seq<Value>,
    i: int,
    assertion_alg: Seq<char>,
    facts: BmffFacts,
    plans: Seq<Plan>,
    index: Option<Map<ProofKey, usize>>,
    url: Seq<char>,
    s: Scan,
) -> Result<Scan, Results>
    decreases entries.len() - i,
{
    if i < 0 || i >= entries.len() {
        Ok(s)
    } else {
        match scan_entry(entries[i], assertion_alg, facts, plans, index, url, s) {
            Err(r) => Err(r),
            Ok(next) => scan_from(
                entries,
                i + 1,
                assertion_alg,
                facts,
                plans,
                index,
                url,
                next,
            ),
        }
    }
}

/// What follows from a finished scan. With fragments, the init hash and the
/// leaves each succeed on their own account, so that both can be asked for.
pub open spec fn conclude(
    entries: Seq<Value>,
    assertion_alg: Seq<char>,
    fragments: Seq<FragmentFacts>,
    url: Seq<char>,
    compromised: bool,
    s: Scan,
) -> Results {
    if s.tracks > 0 {
        if fragments.len() == 0 {
            let r = if compromised {
                s.results
            } else {
                s.results.pass(
                    ASSERTION_BMFF_HASH_MATCH@,
                    url,
                    "merkle initHash valid over init segment ("@ + text::decimal(s.tracks)
                        + " track(s))"@,
                )
            };
            r.inform(
                BMFF_FRAGMENTS_NOT_EVALUATED@,
                url,
                text::decimal(s.trees)
                    + " fragment merkle tree(s) not evaluated: fragment files not provided (use fragmented verification)"@,
            )
        } else {
            let (ok, r) = fragments_outcome(entries, assertion_alg, fragments, url, s.results);
            if ok && !compromised {
                r.pass(
                    ASSERTION_BMFF_HASH_MATCH@,
                    url,
                    "merkle initHash valid over init segment ("@ + text::decimal(s.tracks)
                        + " track(s))"@,
                ).pass(
                    ASSERTION_BMFF_HASH_MATCH@,
                    url,
                    "merkle initHash and "@ + text::decimal(fragments.len())
                        + " fragment merkle leaf hash(es) valid"@,
                )
            } else {
                r
            }
        }
    } else if s.monolithic > 0 {
        if s.monolithic_ok == s.monolithic && !compromised {
            s.results.pass(
                ASSERTION_BMFF_HASH_MATCH@,
                url,
                "monolithic merkle mdat tree(s) valid ("@ + text::decimal(s.monolithic_ok)
                    + " of "@ + text::decimal(s.monolithic) + ")"@,
            )
        } else {
            s.results
        }
    } else {
        s.results.fail(
            ASSERTION_BMFF_HASH_MALFORMED@,
            url,
            "merkle array has no usable entries"@,
        )
    }
}

/// The outcome of a BMFF Merkle binding.
pub open spec fn merkle_outcome(
    hash_data: Value,
    assertion_alg: Seq<char>,
    data: Seq<u8>,
    facts: BmffFacts,
    fragments: Seq<FragmentFacts>,
    url: Seq<char>,
    compromised: bool,
    r: Results,
) -> Results {
    let malformed = |why: Seq<char>| r.fail(ASSERTION_BMFF_HASH_MALFORMED@, url, why);
    match hash_data.items_field("merkle"@) {
        None => malformed("merkle field is not an array"@),
        Some(entries) => if entries.len() == 0 || entries.len() > MAX_BMFF_MERKLE_ENTRIES {
            malformed("merkle entry count is empty or exceeds the verifier bound"@)
        } else {
            match bmff::monolithic_plans(
                entries,
                assertion_alg,
                data,
                bmff::spans_opt(facts.mdats),
            ) {
                Err(why) => malformed(why),
                Ok(plans) => {
                    let index = if any_upper_row(entries) {
                        match bmff::proof_index_of(facts.merkle_boxes) {
                            Ok(m) => Ok::<Option<Map<ProofKey, usize>>, Seq<char>>(Some(m)),
                            Err(why) => Err(why),
                        }
                    } else {
                        Ok(None)
                    };
                    match index {
                        Err(why) => malformed(why),
                        Ok(index) => match (any_init_hash(entries), bmff::scope_from(data, 0)) {
                            (true, Err(why)) => malformed(why),
                            _ => match scan_from(
                                entries,
                                0,
                                assertion_alg,
                                facts,
                                plans,
                                index,
                                url,
                                Scan {
                                    results: r,
                                    tracks: 0,
                                    trees: 0,
                                    monolithic: 0,
                                    monolithic_ok: 0,
                                },
                            ) {
                                Err(ended) => ended,
                                Ok(s) => conclude(
                                    entries,
                                    assertion_alg,
                                    fragments,
                                    url,
                                    compromised,
                                    s,
                                ),
                            },
                        },
                    }
                },
            }
        },
    }
}

fn has_upper_row(entries: &[Value]) -> (r: bool)
    ensures
        r == any_upper_row(entries@),
{
    let mut i: usize = 0;
    while i < entries.len()
        invariant
            i <= entries.len(),
            forall|k: int| 0 <= k < i ==> !stores_upper_row(#[trigger] entries@[k]),
        decreases entries.len() - i,
    {
        if entries[i].get("initHash").is_none() {
            if let (Some(count), Some(row)) = (
                entries[i].get_usize("count"),
                entries[i].get_items("hashes"),
            ) {
                if count > row.len() {
                    assert(stores_upper_row(entries@[i as int]));
                    return true;
                }
            }
        }
        i += 1;
    }
    false
}

fn has_init_hash(entries: &[Value]) -> (r: bool)
    ensures
        r == any_init_hash(entries@),
{
    let mut i: usize = 0;
    while i < entries.len()
        invariant
            i <= entries.len(),
            forall|k: int| 0 <= k < i ==> (#[trigger] entries@[k]).field("initHash"@) is None,
        decreases entries.len() - i,
    {
        if entries[i].get("initHash").is_some() {
            assert(entries@[i as int].field("initHash"@) is Some);
            return true;
        }
        i += 1;
    }
    false
}

fn find_init_defect(
    entry: &Value,
    init_hash: &[u8],
    assertion_alg: &str,
    facts: &BmffFacts,
) -> (r: Option<(bool, &'static str)>)
    ensures
        match r {
            Some((malformed, why)) => init_defect(*entry, init_hash@, assertion_alg@, *facts)
                == Some(bmff::Defect { malformed, why: why@ }),
            None => init_defect(*entry, init_hash@, assertion_alg@, *facts) is None,
        },
{
    let alg = match entry_alg(entry, assertion_alg) {
        Some(alg) => alg,
        None => {
            return Some((true, "merkle alg is not a string"));
        },
    };
    let digest_len = match bmff_fragment_merkle_row(entry, alg) {
        Ok((_, _, len)) => len,
        Err(_) => {
            return Some((true, "merkle row or hash algorithm is malformed"));
        },
    };
    if init_hash.len() != digest_len {
        return Some((true, "merkle initHash has the wrong digest width"));
    }
    let actual = match HashAlgorithm::from_name(alg) {
        Some(a) => match facts.init_structural.get(a) {
            Ok(actual) => actual,
            Err(_) => {
                return Some((true, "merkle initialization scope or exclusions are malformed"));
            },
        },
        None => {
            return Some((true, "merkle initialization scope or exclusions are malformed"));
        },
    };
    if bytes_eq(actual, init_hash) {
        None
    } else {
        Some((false, "merkle initHash mismatch: init segment bytes altered"))
    }
}

/// The contents of an optional proof index.
pub open spec fn index_opt(i: Option<BTreeMap<ProofKey, usize>>) -> Option<Map<ProofKey, usize>> {
    match i {
        Some(m) => Some(m@),
        None => None,
    }
}

struct Counts {
    tracks: usize,
    trees: usize,
    monolithic: usize,
    monolithic_ok: usize,
}

spec fn scan_of(r: Results, c: Counts) -> Scan {
    Scan {
        results: r,
        tracks: c.tracks as nat,
        trees: c.trees as nat,
        monolithic: c.monolithic as nat,
        monolithic_ok: c.monolithic_ok as nat,
    }
}

fn scan_entries(
    entries: &[Value],
    assertion_alg: &str,
    facts: &BmffFacts,
    plans: &Vec<BmffMonolithicPlan>,
    index: &Option<BTreeMap<ProofKey, usize>>,
    url: &str,
    results: &mut ValidationResults,
) -> (r: Option<Counts>)
    requires
        forall|i: int| 0 <= i < plans@.len() ==> (#[trigger] plans@[i])@.wf(),
        index matches Some(m) ==> bmff::index_wf(boxes_of(facts.merkle_boxes), m@),
    ensures
        ({
            let outcome = scan_from(
                entries@,
                0,
                assertion_alg@,
                *facts,
                bmff::plan_views(plans@),
                index_opt(*index),
                url@,
                Scan {
                    results: old(results)@,
                    tracks: 0,
                    trees: 0,
                    monolithic: 0,
                    monolithic_ok: 0,
                },
            );
            match r {
                Some(c) => outcome == Ok::<Scan, Results>(scan_of(final(results)@, c)),
                None => outcome == Err::<Scan, Results>(final(results)@),
            }
        }),
{
    let none: MerkleBoxes = Vec::new();
    let boxes = match &facts.merkle_boxes {
        Some(b) => b.as_slice(),
        None => none.as_slice(),
    };
    assert(boxes@ =~= boxes_of(facts.merkle_boxes));
    let ghost pv = bmff::plan_views(plans@);
    let ghost gi = index_opt(*index);
    let mut c = Counts { tracks: 0, trees: 0, monolithic: 0, monolithic_ok: 0 };
    let ghost whole = scan_from(
        entries@,
        0,
        assertion_alg@,
        *facts,
        pv,
        gi,
        url@,
        scan_of(results@, c),
    );
    let mut i: usize = 0;
    while i < entries.len()
        invariant
            i <= entries.len(),
            boxes@ == boxes_of(facts.merkle_boxes),
            pv == bmff::plan_views(plans@),
            gi == index_opt(*index),
            forall|k: int| 0 <= k < plans@.len() ==> (#[trigger] plans@[k])@.wf(),
            index matches Some(m) ==> bmff::index_wf(boxes_of(facts.merkle_boxes), m@),
            c.tracks <= i,
            c.trees <= i,
            c.monolithic <= i,
            c.monolithic_ok <= c.monolithic,
            whole == scan_from(
                entries@,
                0,
                assertion_alg@,
                *facts,
                pv,
                gi,
                url@,
                Scan {
                    results: old(results)@,
                    tracks: 0,
                    trees: 0,
                    monolithic: 0,
                    monolithic_ok: 0,
                },
            ),
            whole == scan_from(
                entries@,
                i as int,
                assertion_alg@,
                *facts,
                pv,
                gi,
                url@,
                scan_of(results@, c),
            ),
        decreases entries.len() - i,
    {
        let entry = &entries[i];
        match entry.get("initHash") {
            None => {
                if c.monolithic >= plans.len() {
                    results.push_failure(
                        ASSERTION_BMFF_HASH_MALFORMED,
                        url.to_owned(),
                        "monolithic merkle preflight plan is incomplete".to_owned(),
                    );
                    return None;
                }
                assert(pv[c.monolithic as int] == plans@[c.monolithic as int]@);
                let map: Option<&BTreeMap<ProofKey, usize>> = match index {
                    Some(m) => Some(m),
                    None => None,
                };
                if verify_bmff_monolithic_entry(&plans[c.monolithic], boxes, map, url, results) {
                    c.monolithic_ok = c.monolithic_ok + 1;
                }
                c.monolithic = c.monolithic + 1;
            },
            Some(Value::Bytes(h)) => {
                match find_init_defect(entry, h.as_slice(), assertion_alg, facts) {
                    Some((malformed, why)) => {
                        results.push_failure(
                            if malformed {
                                ASSERTION_BMFF_HASH_MALFORMED
                            } else {
                                ASSERTION_BMFF_HASH_MISMATCH
                            },
                            url.to_owned(),
                            why.to_owned(),
                        );
                        return None;
                    },
                    None => {
                        c.tracks = c.tracks + 1;
                        c.trees = c.trees + 1;
                    },
                }
            },
            Some(_) => {
                results.push_failure(
                    ASSERTION_BMFF_HASH_MALFORMED,
                    url.to_owned(),
                    "merkle initHash is not a byte string".to_owned(),
                );
                return None;
            },
        }
        i += 1;
    }
    Some(c)
}

fn push_conclusion(
    entries: &[Value],
    input: &BmffMerkleInput,
    c: Counts,
    results: &mut ValidationResults,
)
    ensures
        final(results)@ == conclude(
            entries@,
            input.assertion_alg@,
            input.fragments@,
            input.url@,
            input.binding_compromised,
            scan_of(old(results)@, c),
        ),
{
    let url = input.url;
    if c.tracks > 0 {
        if input.fragments.len() == 0 {
            if !input.binding_compromised {
                let n = decimal_string(c.tracks as u64);
                results.push_success(
                    ASSERTION_BMFF_HASH_MATCH,
                    url.to_owned(),
                    join3(
                        "merkle initHash valid over init segment (",
                        n.as_str(),
                        " track(s))",
                    ),
                );
            }
            let n = decimal_string(c.trees as u64);
            results.push_informational(
                BMFF_FRAGMENTS_NOT_EVALUATED,
                url.to_owned(),
                join2(
                    n.as_str(),
                    " fragment merkle tree(s) not evaluated: fragment files not provided (use fragmented verification)",
                ),
            );
        } else {
            let ok = verify_bmff_fragments(
                entries,
                input.assertion_alg,
                input.fragments,
                url,
                results,
            );
            if ok && !input.binding_compromised {
                let n = decimal_string(c.tracks as u64);
                results.push_success(
                    ASSERTION_BMFF_HASH_MATCH,
                    url.to_owned(),
                    join3(
                        "merkle initHash valid over init segment (",
                        n.as_str(),
                        " track(s))",
                    ),
                );
                let n = decimal_string(input.fragments.len() as u64);
                results.push_success(
                    ASSERTION_BMFF_HASH_MATCH,
                    url.to_owned(),
                    join3(
                        "merkle initHash and ",
                        n.as_str(),
                        " fragment merkle leaf hash(es) valid",
                    ),
                );
            }
        }
    } else if c.monolithic > 0 {
        if c.monolithic_ok == c.monolithic && !input.binding_compromised {
            let a = decimal_string(c.monolithic_ok as u64);
            let b = decimal_string(c.monolithic as u64);
            results.push_success(
                ASSERTION_BMFF_HASH_MATCH,
                url.to_owned(),
                join5(
                    "monolithic merkle mdat tree(s) valid (",
                    a.as_str(),
                    " of ",
                    b.as_str(),
                    ")",
                ),
            );
        }
    } else {
        results.push_failure(
            ASSERTION_BMFF_HASH_MALFORMED,
            url.to_owned(),
            "merkle array has no usable entries".to_owned(),
        );
    }
}

/// Verify the Merkle form of a BMFF hash binding.
///
/// Every `initHash` must be the structural digest of the initialization scope,
/// monolithic trees are checked over their `mdat` payloads, and fragment trees
/// are checked where fragment files are supplied.
pub fn verify_bmff_merkle_init(input: &BmffMerkleInput, results: &mut ValidationResults)
    ensures
        final(results)@ == merkle_outcome(
            *input.hash_data,
            input.assertion_alg@,
            input.data@,
            *input.facts,
            input.fragments@,
            input.url@,
            input.binding_compromised,
            old(results)@,
        ),
{
    let url = input.url;
    let entries = match input.hash_data.get_items("merkle") {
        Some(entries) => entries,
        None => {
            results.push_failure(
                ASSERTION_BMFF_HASH_MALFORMED,
                url.to_owned(),
                "merkle field is not an array".to_owned(),
            );
            return;
        },
    };
    if entries.len() == 0 || entries.len() > MAX_BMFF_MERKLE_ENTRIES {
        results.push_failure(
            ASSERTION_BMFF_HASH_MALFORMED,
            url.to_owned(),
            "merkle entry count is empty or exceeds the verifier bound".to_owned(),
        );
        return;
    }
    let plans = match preflight_bmff_monolithic_entries(
        entries,
        input.assertion_alg,
        input.data,
        &input.facts.mdats,
    ) {
        Ok(plans) => plans,
        Err(why) => {
            results.push_failure(ASSERTION_BMFF_HASH_MALFORMED, url.to_owned(), why);
            return;
        },
    };
    let index: Option<BTreeMap<ProofKey, usize>> = if has_upper_row(entries) {
        match bmff_merkle_proof_index(&input.facts.merkle_boxes) {
            Ok(m) => Some(m),
            Err(why) => {
                results.push_failure(ASSERTION_BMFF_HASH_MALFORMED, url.to_owned(), why);
                return;
            },
        }
    } else {
        None
    };
    if has_init_hash(entries) {
        if let Err(why) = bmff_initialization_scope(input.data) {
            results.push_failure(ASSERTION_BMFF_HASH_MALFORMED, url.to_owned(), why.to_owned());
            return;
        }
    }
    if let Some(c) = scan_entries(
        entries,
        input.assertion_alg,
        input.facts,
        &plans,
        &index,
        url,
        results,
    ) {
        push_conclusion(entries, input, c, results);
    }
}

// ---------------------------------------------------------------------------
// Laws
// ---------------------------------------------------------------------------

/// The leaf of a fragment, climbed by the proof that the fragment carries,
/// derives a digest that the tree of its track stores.
pub open spec fn leaf_stored(
    entries: Seq<Value>,
    assertion_alg: Seq<char>,
    trees: Map<TrackKey, usize>,
    f: FragmentFacts,
) -> bool {
    match f.merkle_boxes {
        None => false,
        Some(boxes) => boxes@.len() == 1 && match boxes@[0] {
            Err(_) => false,
            Ok(b) => trees.contains_key((b.unique_id, b.local_id)) && climbs_to_row(
                entries[trees[(b.unique_id, b.local_id)] as int],
                assertion_alg,
                f,
                b,
            ),
        },
    }
}

/// The leaf of a fragment derives a digest in the stored row of `entry`.
pub open spec fn climbs_to_row(
    entry: Value,
    assertion_alg: Seq<char>,
    f: FragmentFacts,
    b: MerkleBox,
) -> bool {
    match bmff::entry_algorithm(entry, assertion_alg) {
        None => false,
        Some(alg) => match (bmff::fragment_row(entry, alg), f.leaf.named(alg)) {
            (Ok(row), Some(Ok(leaf))) => match merkle::derived(
                leaf,
                b.location,
                row.count,
                merkle::proof_views(b.proof@),
                row.hashes.len() as usize,
                alg,
            ) {
                Some((at, h)) => bmff::stored_at(row.hashes, at, h),
                None => false,
            },
            _ => false,
        },
    }
}

proof fn lemma_leaves(
    entries: Seq<Value>,
    assertion_alg: Seq<char>,
    trees: Map<TrackKey, usize>,
    fragments: Seq<FragmentFacts>,
    i: int,
    url: Seq<char>,
    w: Walk,
)
    requires
        0 <= i <= fragments.len(),
        w.matched <= i,
        fragments_from(entries, assertion_alg, trees, fragments, i, url, w).0,
    ensures
        w.matched == i,
        forall|j: int|
            i <= j < fragments.len() ==> leaf_stored(
                entries,
                assertion_alg,
                trees,
                #[trigger] fragments[j],
            ),
    decreases fragments.len() - i,
{
    if i < fragments.len() {
        let step = fragment_step(entries, assertion_alg, trees, fragments[i], i as nat, url, w);
        let next = step->Ok_0;
        assert(next.matched <= w.matched + 1);
        lemma_leaves(entries, assertion_alg, trees, fragments, i + 1, url, next);
        assert(leaf_stored(entries, assertion_alg, trees, fragments[i]));
    }
}

/// Fragments are accepted only where each of them carries one auxiliary box and
/// its leaf derives a digest that its track's tree stores.
pub proof fn accepted_fragments_have_stored_leaves(
    entries: Seq<Value>,
    assertion_alg: Seq<char>,
    fragments: Seq<FragmentFacts>,
    url: Seq<char>,
    r: Results,
)
    requires
        fragments_outcome(entries, assertion_alg, fragments, url, r).0,
    ensures
        trees_from(entries, 0, Map::empty()) matches Ok(trees) && forall|i: int|
            0 <= i < fragments.len() ==> leaf_stored(
                entries,
                assertion_alg,
                trees,
                #[trigger] fragments[i],
            ),
{
    let trees = trees_from(entries, 0, Map::empty())->Ok_0;
    lemma_leaves(entries, assertion_alg, trees, fragments, 0, url, fresh_walk(r));
}

proof fn lemma_in_order(
    entries: Seq<Value>,
    assertion_alg: Seq<char>,
    trees: Map<TrackKey, usize>,
    fragments: Seq<FragmentFacts>,
    i: int,
    url: Seq<char>,
    w: Walk,
)
    requires
        0 <= i <= fragments.len(),
        w.matched <= i,
        fragments_from(entries, assertion_alg, trees, fragments, i, url, w).0,
    ensures
        forall|j: int|
            i <= j < fragments.len() ==> {
                let b = (#[trigger] fragments[j]).merkle_boxes->0@[0]->Ok_0;
                w.last.contains_key((b.unique_id, b.local_id)) ==> w.last[(
                    b.unique_id,
                    b.local_id,
                )] < b.location
            },
        forall|j: int, k: int|
            i <= j < k < fragments.len() ==> {
                let a = (#[trigger] fragments[j]).merkle_boxes->0@[0]->Ok_0;
                let b = (#[trigger] fragments[k]).merkle_boxes->0@[0]->Ok_0;
                a.unique_id == b.unique_id && a.local_id == b.local_id ==> a.location < b.location
            },
    decreases fragments.len() - i,
{
    if i < fragments.len() {
        let step = fragment_step(entries, assertion_alg, trees, fragments[i], i as nat, url, w);
        let next = step->Ok_0;
        assert(next.matched <= w.matched + 1);
        lemma_leaves(entries, assertion_alg, trees, fragments, i, url, w);
        lemma_in_order(entries, assertion_alg, trees, fragments, i + 1, url, next);
        assert(leaf_stored(entries, assertion_alg, trees, fragments[i]));
        let here = fragments[i].merkle_boxes->0@[0]->Ok_0;
        let track = (here.unique_id, here.local_id);
        assert(next.last == w.last.insert(track, here.location));
        assert forall|j: int| i <= j < fragments.len() implies {
            let b = (#[trigger] fragments[j]).merkle_boxes->0@[0]->Ok_0;
            w.last.contains_key((b.unique_id, b.local_id)) ==> w.last[(b.unique_id, b.local_id)]
                < b.location
        } by {
            if j > i {
                let b = fragments[j].merkle_boxes->0@[0]->Ok_0;
                assert(next.last.contains_key((b.unique_id, b.local_id)) ==> next.last[(
                    b.unique_id,
                    b.local_id,
                )] < b.location);
            }
        }
        assert forall|j: int, k: int| i <= j < k < fragments.len() implies {
            let a = (#[trigger] fragments[j]).merkle_boxes->0@[0]->Ok_0;
            let b = (#[trigger] fragments[k]).merkle_boxes->0@[0]->Ok_0;
            a.unique_id == b.unique_id && a.local_id == b.local_id ==> a.location < b.location
        } by {
            if j == i {
                let b = fragments[k].merkle_boxes->0@[0]->Ok_0;
                assert(next.last.contains_key((b.unique_id, b.local_id)) ==> next.last[(
                    b.unique_id,
                    b.local_id,
                )] < b.location);
            }
        }
    }
}

/// Accepted fragments stand in playback order: of two fragments of one track the
/// later one has the larger location, so that no fragment is accepted twice.
pub proof fn accepted_fragments_are_in_playback_order(
    entries: Seq<Value>,
    assertion_alg: Seq<char>,
    fragments: Seq<FragmentFacts>,
    url: Seq<char>,
    r: Results,
    j: int,
    k: int,
)
    requires
        fragments_outcome(entries, assertion_alg, fragments, url, r).0,
        0 <= j < k < fragments.len(),
    ensures
        ({
            let a = fragments[j].merkle_boxes->0@[0]->Ok_0;
            let b = fragments[k].merkle_boxes->0@[0]->Ok_0;
            a.unique_id == b.unique_id && a.local_id == b.local_id ==> a.location < b.location
        }),
{
    let trees = trees_from(entries, 0, Map::empty())->Ok_0;
    lemma_in_order(entries, assertion_alg, trees, fragments, 0, url, fresh_walk(r));
    assert(fragments[j] == fragments[j] && fragments[k] == fragments[k]);
}

proof fn lemma_trees(entries: Seq<Value>, i: int, trees: Map<TrackKey, usize>)
    requires
        0 <= i <= entries.len(),
        entries.len() <= usize::MAX,
        trees_from(entries, i, trees) is Ok,
    ensures
        ({
            let all = trees_from(entries, i, trees)->Ok_0;
            &&& forall|k: TrackKey| #[trigger]
                trees.contains_key(k) ==> all.contains_key(k) && all[k] == trees[k]
            &&& forall|j: int|
                i <= j < entries.len() && (#[trigger] entries[j]).field("initHash"@) is Some ==> {
                    &&& track_of(entries[j]) is Some
                    &&& all.contains_key(track_of(entries[j])->0)
                    &&& all[track_of(entries[j])->0] == j
                }
            &&& forall|k: TrackKey| #[trigger]
                all.contains_key(k) ==> trees.contains_key(k) || (i <= all[k] < entries.len()
                    && track_of(entries[all[k] as int]) == Some(k) && entries[all[k] as int].field(
                    "initHash"@,
                ) is Some)
        }),
    decreases entries.len() - i,
{
    if i < entries.len() {
        if entries[i].field("initHash"@) is None {
            lemma_trees(entries, i + 1, trees);
        } else {
            let key = track_of(entries[i])->0;
            let next = trees.insert(key, i as usize);
            lemma_trees(entries, i + 1, next);
            let all = trees_from(entries, i, trees)->Ok_0;
            assert(next.contains_key(key));
            assert forall|k: TrackKey| #[trigger] trees.contains_key(k) implies all.contains_key(k)
                && all[k] == trees[k] by {
                assert(next.contains_key(k));
            }
        }
    }
}

/// The fragment trees of a hash are found by their tracks: every entry with an
/// init hash is the tree of its own track, and every tree is such an entry; two
/// entries for one track are refused.
pub proof fn fragment_trees_go_by_track(entries: Seq<Value>)
    requires
        entries.len() <= usize::MAX,
        trees_from(entries, 0, Map::empty()) is Ok,
    ensures
        ({
            let all = trees_from(entries, 0, Map::empty())->Ok_0;
            &&& forall|j: int|
                0 <= j < entries.len() && (#[trigger] entries[j]).field("initHash"@) is Some ==> {
                    &&& track_of(entries[j]) is Some
                    &&& all.contains_key(track_of(entries[j])->0)
                    &&& all[track_of(entries[j])->0] == j
                }
            &&& forall|k: TrackKey| #[trigger]
                all.contains_key(k) ==> all[k] < entries.len() && track_of(entries[all[k] as int])
                    == Some(k)
        }),
{
    lemma_trees(entries, 0, Map::empty());
}

} // verus!
