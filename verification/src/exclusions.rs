//! Exclusion ranges of data-hash bindings and exclusion maps of BMFF bindings.
use vstd::prelude::*;
use crate::claim_refs;
use crate::claim_refs::MAX_CLAIM_ASSERTION_REFERENCES;
use crate::error;
use crate::error::ValidateError;
use crate::hash;
use crate::labels;
use crate::labels::{assertion_label_for_manifest, is_supported_hard_binding_label};
use crate::manifest::ParsedManifest;
use crate::text;
use crate::text::{decimal_string, join5, str_eq};
use crate::value;
use crate::value::{int_usize, Value};

verus! {

/// The number of exclusion ranges that a data-hash binding may hold.
pub const MAX_DATA_HASH_EXCLUSIONS: usize = 32_768;

pub const MAX_BMFF_EXCLUSION_DATA_QUALIFIERS: usize = 4_096;

pub const MAX_BMFF_EXCLUSION_DATA_BYTES: usize = 1_048_576;

pub const MAX_BMFF_EXCLUSION_SUBSETS: usize = 4_096;

pub const MAX_BMFF_EXCLUSION_XPATH_BYTES: usize = 1024;

// ---------------------------------------------------------------------------
// Ordering by start
// ---------------------------------------------------------------------------

/// Where a range belongs in an ordered sequence: behind everything that starts
/// no later.
pub open spec fn insertion_point(s: Seq<(usize, usize)>, start: usize, k: int) -> int
    decreases k,
{
    if k <= 0 {
        0
    } else if s[k - 1].0 <= start {
        k
    } else {
        insertion_point(s, start, k - 1)
    }
}

/// The first `k` ranges ordered by start, ranges of equal start in their
/// given order.
pub open spec fn by_start(s: Seq<(usize, usize)>, k: int) -> Seq<(usize, usize)>
    decreases k,
{
    if k <= 0 {
        Seq::empty()
    } else {
        let before = by_start(s, k - 1);
        before.insert(insertion_point(before, s[k - 1].0, before.len() as int), s[k - 1])
    }
}

proof fn lemma_insertion_point(s: Seq<(usize, usize)>, start: usize, k: int)
    requires
        0 <= k <= s.len(),
        hash::ordered_by_start(s),
    ensures
        0 <= insertion_point(s, start, k) <= k,
        forall|i: int| 0 <= i < insertion_point(s, start, k) ==> (#[trigger] s[i]).0 <= start,
        forall|i: int| insertion_point(s, start, k) <= i < k ==> (#[trigger] s[i]).0 > start,
    decreases k,
{
    if k > 0 && s[k - 1].0 > start {
        lemma_insertion_point(s, start, k - 1);
    }
}

/// Ordering by start keeps every range and orders them.
pub proof fn by_start_is_ordered(s: Seq<(usize, usize)>, k: int)
    requires
        0 <= k <= s.len(),
    ensures
        by_start(s, k).len() == k,
        hash::ordered_by_start(by_start(s, k)),
        by_start(s, k).to_multiset() == s.subrange(0, k).to_multiset(),
    decreases k,
{
    broadcast use vstd::seq_lib::group_to_multiset_ensures;

    if k > 0 {
        by_start_is_ordered(s, k - 1);
        let before = by_start(s, k - 1);
        let p = insertion_point(before, s[k - 1].0, before.len() as int);
        lemma_insertion_point(before, s[k - 1].0, before.len() as int);
        let after = before.insert(p, s[k - 1]);
        assert forall|i: int, j: int| 0 <= i <= j < after.len() implies (#[trigger] after[i]).0 <= (
        #[trigger] after[j]).0 by {
            if i < p && j > p {
                assert(before[i].0 <= before[j - 1].0);
            } else if i < p && j < p {
                assert(before[i].0 <= before[j].0);
            } else if i > p {
                assert(before[i - 1].0 <= before[j - 1].0);
            } else if i == p && j > p {
                assert(before[j - 1].0 > s[k - 1].0);
            } else if i < p && j == p {
                assert(before[i].0 <= s[k - 1].0);
            }
        }
        assert(s.subrange(0, k) =~= s.subrange(0, k - 1).push(s[k - 1]));
        vstd::seq_lib::to_multiset_insert(before, p, s[k - 1]);
    } else {
        assert(s.subrange(0, 0) =~= Seq::<(usize, usize)>::empty());
    }
}

/// Order ranges by their start, keeping the given order of equal starts.
pub fn sort_by_start(ranges: &Vec<(usize, usize)>) -> (r: Vec<(usize, usize)>)
    ensures
        r@ == by_start(ranges@, ranges@.len() as int),
        hash::ordered_by_start(r@),
        r@.len() == ranges@.len(),
{
    let mut out: Vec<(usize, usize)> = Vec::new();
    let mut i: usize = 0;
    while i < ranges.len()
        invariant
            i <= ranges.len(),
            out@ == by_start(ranges@, i as int),
            out@.len() == i,
        decreases ranges.len() - i,
    {
        let range = ranges[i];
        let mut p: usize = out.len();
        while p > 0 && out[p - 1].0 > range.0
            invariant
                p <= out.len(),
                insertion_point(out@, range.0, out@.len() as int) == insertion_point(
                    out@,
                    range.0,
                    p as int,
                ),
            decreases p,
        {
            p -= 1;
        }
        out.insert(p, range);
        i += 1;
    }
    proof {
        by_start_is_ordered(ranges@, ranges@.len() as int);
    }
    out
}

// ---------------------------------------------------------------------------
// Data-hash ranges
// ---------------------------------------------------------------------------

/// The well-formed ranges among the first `k` items.
pub open spec fn usable_ranges(items: Seq<Value>, k: int) -> Seq<(usize, usize)>
    decreases k,
{
    if k <= 0 {
        Seq::empty()
    } else {
        match (items[k - 1].usize_field("start"@), items[k - 1].usize_field("length"@)) {
            (Some(start), Some(length)) => usable_ranges(items, k - 1).push((start, length)),
            _ => usable_ranges(items, k - 1),
        }
    }
}

/// The usable ranges of an `exclusions` value, ordered by start.
pub open spec fn ranges_of(v: Option<Value>) -> Seq<(usize, usize)> {
    match value::items_of(v) {
        Some(items) => {
            let u = usable_ranges(items, items.len() as int);
            by_start(u, u.len() as int)
        },
        None => Seq::empty(),
    }
}

/// Parse an `exclusions` array into ranges ordered by start.
pub fn parse_exclusions(v: Option<&Value>) -> (r: Vec<(usize, usize)>)
    ensures
        r@ == ranges_of(value::pointee(v)),
        hash::ordered_by_start(r@),
{
    let mut ranges: Vec<(usize, usize)> = Vec::new();
    if let Some(Value::Array(items)) = v {
        let mut i: usize = 0;
        while i < items.len()
            invariant
                i <= items.len(),
                ranges@ == usable_ranges(items@, i as int),
            decreases items.len() - i,
        {
            if let (Some(start), Some(length)) = (
                items[i].get_usize("start"),
                items[i].get_usize("length"),
            ) {
                ranges.push((start, length));
            }
            i += 1;
        }
    }
    sort_by_start(&ranges)
}

/// One range of a part, or why it is refused.
pub open spec fn part_range(item: Value, part_len: usize) -> Result<(usize, usize), Seq<char>> {
    match (item.usize_field("start"@), item.usize_field("length"@)) {
        (None, _) => Err("exclusion start is missing or invalid"@),
        (Some(_), None) => Err("exclusion length is missing or invalid"@),
        (Some(start), Some(length)) => if start + length > usize::MAX {
            Err("exclusion range overflows"@)
        } else if start + length > part_len {
            Err("exclusion range extends beyond the located part"@)
        } else {
            Ok((start, length))
        },
    }
}

/// The ranges of the items from `i` on, or the first refusal.
pub open spec fn part_ranges_from(items: Seq<Value>, part_len: usize, i: int) -> Result<
    Seq<(usize, usize)>,
    Seq<char>,
>
    decreases items.len() - i,
{
    if i < 0 || i >= items.len() {
        Ok(Seq::empty())
    } else {
        match part_range(items[i], part_len) {
            Err(why) => Err(why),
            Ok(range) => match part_ranges_from(items, part_len, i + 1) {
                Err(why) => Err(why),
                Ok(rest) => Ok(seq![range] + rest),
            },
        }
    }
}

/// The exclusion ranges of a part, ordered by start, or why they are refused.
pub open spec fn part_ranges(v: Option<Value>, part_len: usize) -> Result<
    Seq<(usize, usize)>,
    Seq<char>,
> {
    match v {
        None => Ok(Seq::empty()),
        Some(Value::Array(items)) => if items@.len() > MAX_DATA_HASH_EXCLUSIONS {
            Err("exclusion list exceeds the verifier cap"@)
        } else {
            match part_ranges_from(items@, part_len, 0) {
                Err(why) => Err(why),
                Ok(s) => Ok(by_start(s, s.len() as int)),
            }
        },
        Some(_) => Err("exclusions is not an array"@),
    }
}

/// A parsed outcome as the contracts see it.
pub open spec fn ranges_view(r: Result<Vec<(usize, usize)>, &'static str>) -> Result<
    Seq<(usize, usize)>,
    Seq<char>,
> {
    match r {
        Ok(v) => Ok(v@),
        Err(why) => Err(why@),
    }
}

/// `head` in front of an outcome.
pub open spec fn joined<T>(head: Seq<T>, rest: Result<Seq<T>, Seq<char>>) -> Result<
    Seq<T>,
    Seq<char>,
> {
    match rest {
        Ok(s) => Ok(head + s),
        Err(why) => Err(why),
    }
}

/// Parse the exclusion ranges of one located part; every range must lie inside it.
pub fn parse_local_part_exclusions(v: Option<&Value>, part_len: usize) -> (r: Result<
    Vec<(usize, usize)>,
    &'static str,
>)
    ensures
        ranges_view(r) == part_ranges(value::pointee(v), part_len),
{
    let items = match v {
        None => {
            let none: Vec<(usize, usize)> = Vec::new();
            return Ok(none);
        },
        Some(Value::Array(items)) => items,
        Some(_) => {
            return Err("exclusions is not an array");
        },
    };
    if items.len() > MAX_DATA_HASH_EXCLUSIONS {
        return Err("exclusion list exceeds the verifier cap");
    }
    let mut ranges: Vec<(usize, usize)> = Vec::new();
    let mut i: usize = 0;
    let ghost whole = part_ranges_from(items@, part_len, 0);
    assert(whole is Ok ==> Seq::<(usize, usize)>::empty() + whole->Ok_0 =~= whole->Ok_0);
    while i < items.len()
        invariant
            i <= items.len(),
            whole == part_ranges_from(items@, part_len, 0),
            value::pointee(v) == Some(Value::Array(*items)),
            items@.len() <= MAX_DATA_HASH_EXCLUSIONS,
            joined(ranges@, part_ranges_from(items@, part_len, i as int)) == whole,
        decreases items.len() - i,
    {
        let start = match items[i].get_usize("start") {
            Some(start) => start,
            None => {
                return Err("exclusion start is missing or invalid");
            },
        };
        let length = match items[i].get_usize("length") {
            Some(length) => length,
            None => {
                return Err("exclusion length is missing or invalid");
            },
        };
        let end = match start.checked_add(length) {
            Some(end) => end,
            None => {
                return Err("exclusion range overflows");
            },
        };
        if end > part_len {
            return Err("exclusion range extends beyond the located part");
        }
        let ghost before = ranges@;
        let ghost rest = part_ranges_from(items@, part_len, i + 1);
        ranges.push((start, length));
        assert(rest is Ok ==> ranges@ + rest->Ok_0 =~= before + (seq![(start, length)]
            + rest->Ok_0));
        i += 1;
    }
    assert(ranges@ + Seq::<(usize, usize)>::empty() =~= ranges@);
    Ok(sort_by_start(&ranges))
}

// ---------------------------------------------------------------------------
// BMFF exclusion maps
// ---------------------------------------------------------------------------

/// Bytes that a box must hold at an offset for the exclusion to apply.
#[derive(Debug)]
pub struct BmffDataMap {
    pub offset: usize,
    pub value: Vec<u8>,
}

/// The part of a box that an exclusion covers.
#[derive(Debug)]
pub struct BmffSubsetMap {
    pub offset: usize,
    pub length: usize,
}

/// One exclusion of a BMFF hash binding.
#[derive(Debug)]
pub struct BmffExclusionMap {
    pub xpath: String,
    pub length: Option<usize>,
    pub data: Vec<BmffDataMap>,
    pub subset: Vec<BmffSubsetMap>,
    pub version: Option<u8>,
    pub flags: Option<u32>,
    pub exact: bool,
}

/// A BMFF exclusion as the contracts see it.
pub struct Exclusion {
    pub xpath: Seq<char>,
    pub length: Option<usize>,
    pub data: Seq<(usize, Seq<u8>)>,
    pub subset: Seq<(usize, usize)>,
    pub version: Option<u8>,
    pub flags: Option<u32>,
    pub exact: bool,
}

pub open spec fn data_views(s: Seq<BmffDataMap>) -> Seq<(usize, Seq<u8>)> {
    s.map_values(|d: BmffDataMap| (d.offset, d.value@))
}

pub open spec fn subset_views(s: Seq<BmffSubsetMap>) -> Seq<(usize, usize)> {
    s.map_values(|d: BmffSubsetMap| (d.offset, d.length))
}

impl View for BmffExclusionMap {
    type V = Exclusion;

    open spec fn view(&self) -> Exclusion {
        Exclusion {
            xpath: self.xpath@,
            length: self.length,
            data: data_views(self.data@),
            subset: subset_views(self.subset@),
            version: self.version,
            flags: self.flags,
            exact: self.exact,
        }
    }
}

pub open spec fn exclusion_views(s: Seq<BmffExclusionMap>) -> Seq<Exclusion> {
    s.map_values(|x: BmffExclusionMap| x@)
}

/// The qualifier work that an exclusion list has used.
pub struct Used {
    pub qualifiers: nat,
    pub bytes: nat,
    pub subsets: nat,
}

/// An absent optional member: missing or null.
pub open spec fn absent(v: Option<Value>) -> bool {
    v is None || v == Some(Value::Null)
}

pub open spec fn length_member(item: Value) -> Result<Option<usize>, Seq<char>> {
    let v = item.field("length"@);
    if absent(v) {
        Ok(None)
    } else {
        match value::usize_of(v) {
            Some(n) => Ok(Some(n)),
            None => Err("BMFF exclusion length is invalid"@),
        }
    }
}

pub open spec fn version_member(item: Value) -> Result<Option<u8>, Seq<char>> {
    let v = item.field("version"@);
    if absent(v) {
        Ok(None)
    } else {
        match value::usize_of(v) {
            Some(n) => if n <= 255 {
                Ok(Some(n as u8))
            } else {
                Err("BMFF exclusion version is invalid"@)
            },
            None => Err("BMFF exclusion version is invalid"@),
        }
    }
}

pub open spec fn flags_member(item: Value) -> Result<Option<u32>, Seq<char>> {
    let v = item.field("flags"@);
    if absent(v) {
        Ok(None)
    } else {
        match value::bytes_of(v) {
            Some(b) => if b.len() == 3 {
                Ok(Some((b[0] * 65536 + b[1] * 256 + b[2]) as u32))
            } else {
                Err("BMFF exclusion flags must be a three-byte string"@)
            },
            None => Err("BMFF exclusion flags must be a three-byte string"@),
        }
    }
}

pub open spec fn exact_member(item: Value) -> Result<bool, Seq<char>> {
    match item.field("exact"@) {
        None => Ok(true),
        Some(Value::Null) => Ok(true),
        Some(Value::Bool(b)) => Ok(b),
        Some(_) => Err("BMFF exclusion exact field is not a boolean"@),
    }
}

/// The data qualifiers from `i` on and the value bytes they add to `bytes`.
pub open spec fn data_from(maps: Seq<Value>, i: int, bytes: nat) -> Result<
    (Seq<(usize, Seq<u8>)>, nat),
    Seq<char>,
>
    decreases maps.len() - i,
{
    if i < 0 || i >= maps.len() {
        Ok((Seq::empty(), bytes))
    } else {
        match maps[i].bytes_field("value"@) {
            None => Err("BMFF exclusion data value is invalid"@),
            Some(b) => if bytes + b.len() > MAX_BMFF_EXCLUSION_DATA_BYTES {
                Err("BMFF exclusion data bytes exceed the verifier cap"@)
            } else {
                match maps[i].usize_field("offset"@) {
                    None => Err("BMFF exclusion data offset is invalid"@),
                    Some(offset) => match data_from(maps, i + 1, bytes + b.len()) {
                        Err(why) => Err(why),
                        Ok((rest, total)) => Ok((seq![(offset, b)] + rest, total)),
                    },
                }
            },
        }
    }
}

pub open spec fn data_member(item: Value, used: Used) -> Result<
    (Seq<(usize, Seq<u8>)>, Used),
    Seq<char>,
> {
    match item.field("data"@) {
        None => Ok((Seq::empty(), used)),
        Some(Value::Null) => Ok((Seq::empty(), used)),
        Some(Value::Array(maps)) => if maps@.len() == 0 {
            Err("BMFF exclusion data field is empty"@)
        } else if used.qualifiers + maps@.len() > MAX_BMFF_EXCLUSION_DATA_QUALIFIERS {
            Err("BMFF exclusion data qualifiers exceed the verifier cap"@)
        } else {
            match data_from(maps@, 0, used.bytes) {
                Err(why) => Err(why),
                Ok((s, bytes)) => Ok(
                    (s, Used { qualifiers: used.qualifiers + maps@.len(), bytes, ..used }),
                ),
            }
        },
        Some(_) => Err("BMFF exclusion data field is not an array"@),
    }
}

/// The subsets from `i` on, the previous one ending at `end`: sorted, without
/// overlap, and only the last may be of zero length.
pub open spec fn subsets_from(maps: Seq<Value>, i: int, end: nat) -> Result<
    Seq<(usize, usize)>,
    Seq<char>,
>
    decreases maps.len() - i,
{
    if i < 0 || i >= maps.len() {
        Ok(Seq::empty())
    } else {
        match (maps[i].usize_field("offset"@), maps[i].usize_field("length"@)) {
            (None, _) => Err("BMFF exclusion subset offset is invalid"@),
            (Some(_), None) => Err("BMFF exclusion subset length is invalid"@),
            (Some(offset), Some(length)) => if length == 0 && i + 1 != maps.len() {
                Err("only the final BMFF exclusion subset may have zero length"@)
            } else if offset < end {
                Err("BMFF exclusion subsets overlap or are not sorted"@)
            } else {
                match subsets_from(
                    maps,
                    i + 1,
                    hash::least(offset + length, usize::MAX as int) as nat,
                ) {
                    Err(why) => Err(why),
                    Ok(rest) => Ok(seq![(offset, length)] + rest),
                }
            },
        }
    }
}

pub open spec fn subset_member(item: Value, used: Used) -> Result<
    (Seq<(usize, usize)>, Used),
    Seq<char>,
> {
    match item.field("subset"@) {
        None => Ok((Seq::empty(), used)),
        Some(Value::Null) => Ok((Seq::empty(), used)),
        Some(Value::Array(maps)) => if maps@.len() == 0 {
            Err("BMFF exclusion subset field is empty"@)
        } else if used.subsets + maps@.len() > MAX_BMFF_EXCLUSION_SUBSETS {
            Err("BMFF exclusion subsets exceed the verifier cap"@)
        } else {
            match subsets_from(maps@, 0, 0) {
                Err(why) => Err(why),
                Ok(s) => Ok((s, Used { subsets: used.subsets + maps@.len(), ..used })),
            }
        },
        Some(_) => Err("BMFF exclusion subset field is not an array"@),
    }
}

/// The path of an exclusion, or why it is refused.
pub open spec fn xpath_member(item: Value) -> Result<Seq<char>, Seq<char>> {
    match item.text_field("xpath"@) {
        None => Err("BMFF exclusion is missing xpath"@),
        Some(x) => if x.len() == 0 {
            Err("BMFF exclusion is missing xpath"@)
        } else if vstd::utf8::encode_utf8(x).len() > MAX_BMFF_EXCLUSION_XPATH_BYTES {
            Err("BMFF exclusion xpath exceeds the verifier cap"@)
        } else {
            Ok(x)
        },
    }
}

/// The members of an exclusion in front of its qualifiers.
pub open spec fn exclusion_head(item: Value) -> Result<Exclusion, Seq<char>> {
    match (xpath_member(item), length_member(item), version_member(item), flags_member(item)) {
        (Err(why), _, _, _) => Err(why),
        (Ok(_), Err(why), _, _) => Err(why),
        (Ok(_), Ok(_), Err(why), _) => Err(why),
        (Ok(_), Ok(_), Ok(_), Err(why)) => Err(why),
        (Ok(xpath), Ok(length), Ok(version), Ok(flags)) => match exact_member(item) {
            Err(why) => Err(why),
            Ok(exact) => if !absent(item.field("exact"@)) && flags is None {
                Err("BMFF exclusion exact field requires flags"@)
            } else {
                Ok(
                    Exclusion {
                        xpath,
                        length,
                        data: Seq::empty(),
                        subset: Seq::empty(),
                        version,
                        flags,
                        exact,
                    },
                )
            },
        },
    }
}

/// One exclusion, or why it is refused.
pub open spec fn exclusion_item(item: Value, used: Used) -> Result<(Exclusion, Used), Seq<char>> {
    match exclusion_head(item) {
        Err(why) => Err(why),
        Ok(head) => match data_member(item, used) {
            Err(why) => Err(why),
            Ok((data, u)) => match subset_member(item, u) {
                Err(why) => Err(why),
                Ok((subset, u)) => Ok((Exclusion { data, subset, ..head }, u)),
            },
        },
    }
}

/// The exclusions from `i` on, or the first refusal.
pub open spec fn exclusions_from(items: Seq<Value>, i: int, used: Used) -> Result<
    Seq<Exclusion>,
    Seq<char>,
>
    decreases items.len() - i,
{
    if i < 0 || i >= items.len() {
        Ok(Seq::empty())
    } else {
        match exclusion_item(items[i], used) {
            Err(why) => Err(why),
            Ok((x, u)) => match exclusions_from(items, i + 1, u) {
                Err(why) => Err(why),
                Ok(rest) => Ok(seq![x] + rest),
            },
        }
    }
}

pub open spec fn nothing_used() -> Used {
    Used { qualifiers: 0, bytes: 0, subsets: 0 }
}

/// The exclusions of a BMFF hash assertion, or why they are refused.
pub open spec fn exclusions_of(hash_data: Value) -> Result<Seq<Exclusion>, Seq<char>> {
    match hash_data.items_field("exclusions"@) {
        None => Err("BMFF hash assertion has no exclusions array"@),
        Some(items) => if items.len() == 0 {
            Err("BMFF exclusion list is empty"@)
        } else if items.len() > MAX_DATA_HASH_EXCLUSIONS {
            Err("BMFF exclusion list exceeds the verifier cap"@)
        } else {
            exclusions_from(items, 0, nothing_used())
        },
    }
}

pub open spec fn exclusions_view(r: Result<Vec<BmffExclusionMap>, &'static str>) -> Result<
    Seq<Exclusion>,
    Seq<char>,
> {
    match r {
        Ok(v) => Ok(exclusion_views(v@)),
        Err(why) => Err(why@),
    }
}

fn read_length(item: &Value) -> (r: Result<Option<usize>, &'static str>)
    ensures
        match r {
            Ok(v) => length_member(*item) == Ok::<Option<usize>, Seq<char>>(v),
            Err(why) => length_member(*item) == Err::<Option<usize>, Seq<char>>(why@),
        },
{
    match item.get("length") {
        None => Ok(None),
        Some(Value::Null) => Ok(None),
        Some(v) => match int_usize(v) {
            Some(n) => Ok(Some(n)),
            None => Err("BMFF exclusion length is invalid"),
        },
    }
}

fn read_version(item: &Value) -> (r: Result<Option<u8>, &'static str>)
    ensures
        match r {
            Ok(v) => version_member(*item) == Ok::<Option<u8>, Seq<char>>(v),
            Err(why) => version_member(*item) == Err::<Option<u8>, Seq<char>>(why@),
        },
{
    match item.get("version") {
        None => Ok(None),
        Some(Value::Null) => Ok(None),
        Some(v) => match int_usize(v) {
            Some(n) => if n <= 255 {
                Ok(Some(n as u8))
            } else {
                Err("BMFF exclusion version is invalid")
            },
            None => Err("BMFF exclusion version is invalid"),
        },
    }
}

fn read_flags(item: &Value) -> (r: Result<Option<u32>, &'static str>)
    ensures
        match r {
            Ok(v) => flags_member(*item) == Ok::<Option<u32>, Seq<char>>(v),
            Err(why) => flags_member(*item) == Err::<Option<u32>, Seq<char>>(why@),
        },
{
    match item.get("flags") {
        None => Ok(None),
        Some(Value::Null) => Ok(None),
        Some(Value::Bytes(b)) => if b.len() == 3 {
            Ok(Some(b[0] as u32 * 65536 + b[1] as u32 * 256 + b[2] as u32))
        } else {
            Err("BMFF exclusion flags must be a three-byte string")
        },
        Some(_) => Err("BMFF exclusion flags must be a three-byte string"),
    }
}

fn read_exact(item: &Value) -> (r: Result<bool, &'static str>)
    ensures
        match r {
            Ok(v) => exact_member(*item) == Ok::<bool, Seq<char>>(v),
            Err(why) => exact_member(*item) == Err::<bool, Seq<char>>(why@),
        },
{
    match item.get("exact") {
        None => Ok(true),
        Some(Value::Null) => Ok(true),
        Some(Value::Bool(b)) => Ok(*b),
        Some(_) => Err("BMFF exclusion exact field is not a boolean"),
    }
}

fn read_head(item: &Value) -> (r: Result<BmffExclusionMap, &'static str>)
    ensures
        match r {
            Ok(v) => exclusion_head(*item) == Ok::<Exclusion, Seq<char>>(v@),
            Err(why) => exclusion_head(*item) == Err::<Exclusion, Seq<char>>(why@),
        },
{
    let xpath = match item.get_text("xpath") {
        None => {
            return Err("BMFF exclusion is missing xpath");
        },
        Some(x) => x,
    };
    if xpath.is_empty() {
        return Err("BMFF exclusion is missing xpath");
    }
    if xpath.as_bytes().len() > MAX_BMFF_EXCLUSION_XPATH_BYTES {
        return Err("BMFF exclusion xpath exceeds the verifier cap");
    }
    let length = match read_length(item) {
        Ok(v) => v,
        Err(why) => {
            return Err(why);
        },
    };
    let version = match read_version(item) {
        Ok(v) => v,
        Err(why) => {
            return Err(why);
        },
    };
    let flags = match read_flags(item) {
        Ok(v) => v,
        Err(why) => {
            return Err(why);
        },
    };
    let exact = match read_exact(item) {
        Ok(v) => v,
        Err(why) => {
            return Err(why);
        },
    };
    let given = match item.get("exact") {
        None => false,
        Some(Value::Null) => false,
        Some(_) => true,
    };
    if given && flags.is_none() {
        return Err("BMFF exclusion exact field requires flags");
    }
    let x = BmffExclusionMap {
        xpath: xpath.to_owned(),
        length,
        data: Vec::new(),
        subset: Vec::new(),
        version,
        flags,
        exact,
    };
    assert(x@.data =~= Seq::<(usize, Seq<u8>)>::empty());
    assert(x@.subset =~= Seq::<(usize, usize)>::empty());
    Ok(x)
}

/// `head` in front of the qualifiers of an outcome.
pub open spec fn joined_data(
    head: Seq<(usize, Seq<u8>)>,
    rest: Result<(Seq<(usize, Seq<u8>)>, nat), Seq<char>>,
) -> Result<(Seq<(usize, Seq<u8>)>, nat), Seq<char>> {
    match rest {
        Ok((s, n)) => Ok((head + s, n)),
        Err(why) => Err(why),
    }
}

fn read_data(maps: &Vec<Value>, used: usize) -> (r: Result<(Vec<BmffDataMap>, usize), &'static str>)
    requires
        used <= MAX_BMFF_EXCLUSION_DATA_BYTES,
    ensures
        match r {
            Ok((v, n)) => data_from(maps@, 0, used as nat) == Ok::<
                (Seq<(usize, Seq<u8>)>, nat),
                Seq<char>,
            >((data_views(v@), n as nat)) && n <= MAX_BMFF_EXCLUSION_DATA_BYTES,
            Err(why) => data_from(maps@, 0, used as nat) == Err::<
                (Seq<(usize, Seq<u8>)>, nat),
                Seq<char>,
            >(why@),
        },
{
    let mut out: Vec<BmffDataMap> = Vec::new();
    let mut bytes: usize = used;
    let mut i: usize = 0;
    let ghost whole = data_from(maps@, 0, used as nat);
    assert(whole is Ok ==> data_views(out@) + whole->Ok_0.0 =~= whole->Ok_0.0);
    while i < maps.len()
        invariant
            i <= maps.len(),
            whole == data_from(maps@, 0, used as nat),
            bytes <= MAX_BMFF_EXCLUSION_DATA_BYTES,
            joined_data(data_views(out@), data_from(maps@, i as int, bytes as nat)) == whole,
        decreases maps.len() - i,
    {
        let b = match maps[i].get_bytes("value") {
            Some(b) => b,
            None => {
                return Err("BMFF exclusion data value is invalid");
            },
        };
        if b.len() > MAX_BMFF_EXCLUSION_DATA_BYTES - bytes {
            return Err("BMFF exclusion data bytes exceed the verifier cap");
        }
        let offset = match maps[i].get_usize("offset") {
            Some(offset) => offset,
            None => {
                return Err("BMFF exclusion data offset is invalid");
            },
        };
        let ghost before = out@;
        let ghost rest = data_from(maps@, i + 1, (bytes + b@.len()) as nat);
        bytes = bytes + b.len();
        let d = BmffDataMap { offset, value: vstd::slice::slice_to_vec(b) };
        let ghost dv = (d.offset, d.value@);
        out.push(d);
        assert(data_views(out@) =~= data_views(before).push(dv));
        assert(rest is Ok ==> data_views(out@) + rest->Ok_0.0 =~= data_views(before) + (seq![dv]
            + rest->Ok_0.0));
        i += 1;
    }
    assert(data_views(out@) + Seq::<(usize, Seq<u8>)>::empty() =~= data_views(out@));
    Ok((out, bytes))
}

fn read_subsets(maps: &Vec<Value>) -> (r: Result<Vec<BmffSubsetMap>, &'static str>)
    ensures
        match r {
            Ok(v) => subsets_from(maps@, 0, 0) == Ok::<Seq<(usize, usize)>, Seq<char>>(
                subset_views(v@),
            ),
            Err(why) => subsets_from(maps@, 0, 0) == Err::<Seq<(usize, usize)>, Seq<char>>(why@),
        },
{
    let mut out: Vec<BmffSubsetMap> = Vec::new();
    let mut end: usize = 0;
    let mut i: usize = 0;
    let ghost whole = subsets_from(maps@, 0, 0);
    assert(whole is Ok ==> subset_views(out@) + whole->Ok_0 =~= whole->Ok_0);
    while i < maps.len()
        invariant
            i <= maps.len(),
            whole == subsets_from(maps@, 0, 0),
            joined(subset_views(out@), subsets_from(maps@, i as int, end as nat)) == whole,
        decreases maps.len() - i,
    {
        let offset = match maps[i].get_usize("offset") {
            Some(offset) => offset,
            None => {
                return Err("BMFF exclusion subset offset is invalid");
            },
        };
        let length = match maps[i].get_usize("length") {
            Some(length) => length,
            None => {
                return Err("BMFF exclusion subset length is invalid");
            },
        };
        if length == 0 && i + 1 != maps.len() {
            return Err("only the final BMFF exclusion subset may have zero length");
        }
        if offset < end {
            return Err("BMFF exclusion subsets overlap or are not sorted");
        }
        end = offset.saturating_add(length);
        let ghost before = out@;
        let ghost rest = subsets_from(maps@, i + 1, end as nat);
        out.push(BmffSubsetMap { offset, length });
        assert(subset_views(out@) =~= subset_views(before).push((offset, length)));
        assert(rest is Ok ==> subset_views(out@) + rest->Ok_0 =~= subset_views(before) + (seq![
            (offset, length),
        ] + rest->Ok_0));
        i += 1;
    }
    assert(subset_views(out@) + Seq::<(usize, usize)>::empty() =~= subset_views(out@));
    Ok(out)
}

/// Normalize every member of a BMFF hash assertion's exclusion maps.
pub fn bmff_exclusion_maps(hash_data: &Value) -> (r: Result<Vec<BmffExclusionMap>, &'static str>)
    ensures
        exclusions_view(r) == exclusions_of(*hash_data),
{
    let items = match hash_data.get_items("exclusions") {
        None => {
            return Err("BMFF hash assertion has no exclusions array");
        },
        Some(items) => items,
    };
    if items.len() == 0 {
        return Err("BMFF exclusion list is empty");
    }
    if items.len() > MAX_DATA_HASH_EXCLUSIONS {
        return Err("BMFF exclusion list exceeds the verifier cap");
    }
    let mut out: Vec<BmffExclusionMap> = Vec::new();
    let mut qualifiers: usize = 0;
    let mut bytes: usize = 0;
    let mut subsets: usize = 0;
    let mut i: usize = 0;
    let ghost whole = exclusions_of(*hash_data);
    assert(whole is Ok ==> exclusion_views(out@) + whole->Ok_0 =~= whole->Ok_0);
    while i < items.len()
        invariant
            i <= items.len(),
            whole == exclusions_of(*hash_data),
            qualifiers <= MAX_BMFF_EXCLUSION_DATA_QUALIFIERS,
            bytes <= MAX_BMFF_EXCLUSION_DATA_BYTES,
            subsets <= MAX_BMFF_EXCLUSION_SUBSETS,
            joined(
                exclusion_views(out@),
                exclusions_from(
                    items@,
                    i as int,
                    (Used {
                        qualifiers: qualifiers as nat,
                        bytes: bytes as nat,
                        subsets: subsets as nat,
                    }),
                ),
            ) == whole,
        decreases items.len() - i,
    {
        let item = &items[i];
        let mut x = match read_head(item) {
            Ok(x) => x,
            Err(why) => {
                return Err(why);
            },
        };
        match item.get("data") {
            None => {},
            Some(Value::Null) => {},
            Some(Value::Array(maps)) => {
                if maps.len() == 0 {
                    return Err("BMFF exclusion data field is empty");
                }
                if maps.len() > MAX_BMFF_EXCLUSION_DATA_QUALIFIERS - qualifiers {
                    return Err("BMFF exclusion data qualifiers exceed the verifier cap");
                }
                match read_data(maps, bytes) {
                    Ok((v, n)) => {
                        qualifiers = qualifiers + maps.len();
                        bytes = n;
                        x.data = v;
                    },
                    Err(why) => {
                        return Err(why);
                    },
                }
            },
            Some(_) => {
                return Err("BMFF exclusion data field is not an array");
            },
        }
        match item.get("subset") {
            None => {},
            Some(Value::Null) => {},
            Some(Value::Array(maps)) => {
                if maps.len() == 0 {
                    return Err("BMFF exclusion subset field is empty");
                }
                if maps.len() > MAX_BMFF_EXCLUSION_SUBSETS - subsets {
                    return Err("BMFF exclusion subsets exceed the verifier cap");
                }
                match read_subsets(maps) {
                    Ok(v) => {
                        subsets = subsets + maps.len();
                        x.subset = v;
                    },
                    Err(why) => {
                        return Err(why);
                    },
                }
            },
            Some(_) => {
                return Err("BMFF exclusion subset field is not an array");
            },
        }
        let ghost before = out@;
        let ghost xv = x@;
        let ghost rest = exclusions_from(
            items@,
            i + 1,
            Used { qualifiers: qualifiers as nat, bytes: bytes as nat, subsets: subsets as nat },
        );
        out.push(x);
        assert(exclusion_views(out@) =~= exclusion_views(before).push(xv));
        assert(rest is Ok ==> exclusion_views(out@) + rest->Ok_0 =~= exclusion_views(before) + (
        seq![xv] + rest->Ok_0));
        i += 1;
    }
    assert(exclusion_views(out@) + Seq::<Exclusion>::empty() =~= exclusion_views(out@));
    Ok(out)
}

// ---------------------------------------------------------------------------
// Regular-mode geometry
// ---------------------------------------------------------------------------

/// The label that a declaration resolves to, where it is a primary hard
/// binding of an asset.
pub open spec fn binding_of(v: Value, manifest: Seq<char>) -> Option<Seq<char>> {
    match claim_refs::resolved_label(v, manifest) {
        Some(l) => if labels::primary_label(l, false) {
            Some(l)
        } else {
            None
        },
        None => None,
    }
}

/// The hard bindings among the first `k` declarations.
pub open spec fn bindings_among(
    c: Seq<(claim_refs::RefField, Value)>,
    manifest: Seq<char>,
    k: int,
) -> Seq<Seq<char>>
    decreases k,
{
    if k <= 0 {
        Seq::empty()
    } else {
        match binding_of(c[k - 1].1, manifest) {
            Some(l) => bindings_among(c, manifest, k - 1).push(l),
            None => bindings_among(c, manifest, k - 1),
        }
    }
}

/// The claim declares one hard binding, and it is the data hash.
pub open spec fn sole_data_hash(m: ParsedManifest) -> bool {
    match m.claim {
        Some(p) => match p.value {
            Some(claim) => {
                let c = claim_refs::field_candidates(claim, m.generation);
                c.len() <= MAX_CLAIM_ASSERTION_REFERENCES && bindings_among(
                    c,
                    m.label@,
                    c.len() as int,
                ) == seq!["c2pa.hash.data"@]
            },
            None => false,
        },
        None => false,
    }
}

/// Whether the claim declares the data hash as its one hard binding.
pub fn claim_declares_sole_data_hash(m: &ParsedManifest) -> (r: bool)
    ensures
        r == sole_data_hash(*m),
{
    let claim = match &m.claim {
        Some(p) => match &p.value {
            Some(claim) => claim,
            None => {
                return false;
            },
        },
        None => {
            return false;
        },
    };
    let c = claim_refs::field_references(claim, m.generation);
    if c.len() > MAX_CLAIM_ASSERTION_REFERENCES {
        return false;
    }
    let ghost tc = claim_refs::tagged_targets(c@);
    let mut supported: usize = 0;
    let mut data_hash = false;
    let mut i: usize = 0;
    let ghost found = bindings_among(tc, m.label@, c@.len() as int);
    while i < c.len()
        invariant
            i <= c.len(),
            tc == claim_refs::tagged_targets(c@),
            supported <= i,
            supported == bindings_among(tc, m.label@, i as int).len(),
            supported > 0 ==> data_hash == (bindings_among(tc, m.label@, i as int).last()
                == "c2pa.hash.data"@),
        decreases c.len() - i,
    {
        assert(tc[i as int] == (c@[i as int].0, *c@[i as int].1));
        if let Some(url) = c[i].1.get_text("url") {
            if let Some(label) = assertion_label_for_manifest(url, m.label.as_str()) {
                if is_supported_hard_binding_label(label, false) {
                    supported += 1;
                    data_hash = str_eq(label, "c2pa.hash.data");
                }
            }
        }
        i += 1;
    }
    assert(supported == 1 && data_hash ==> found =~= seq!["c2pa.hash.data"@]);
    supported == 1 && data_hash
}

/// The positions of the data-hash payloads among the first `k` assertions.
pub open spec fn data_hash_positions(m: ParsedManifest, k: int) -> Seq<int>
    decreases k,
{
    if k <= 0 {
        Seq::empty()
    } else if m.assertions@[k - 1].label@ == "c2pa.hash.data"@ {
        data_hash_positions(m, k - 1).push(k - 1)
    } else {
        data_hash_positions(m, k - 1)
    }
}

/// One signed exclusion of positive length, or why it is refused.
pub open spec fn signed_range(item: Value) -> Result<(usize, usize), Seq<char>> {
    match item.usize_field("start"@) {
        None => Err("signed data-hash exclusion start is invalid"@),
        Some(start) => match item.usize_field("length"@) {
            Some(length) => if length > 0 {
                Ok((start, length))
            } else {
                Err("signed data-hash exclusion length is invalid"@)
            },
            None => Err("signed data-hash exclusion length is invalid"@),
        },
    }
}

/// The signed exclusions from `i` on, or the first refusal.
pub open spec fn signed_ranges_from(items: Seq<Value>, i: int) -> Result<
    Seq<(usize, usize)>,
    Seq<char>,
>
    decreases items.len() - i,
{
    if i < 0 || i >= items.len() {
        Ok(Seq::empty())
    } else {
        match signed_range(items[i]) {
            Err(why) => Err(why),
            Ok(range) => match signed_ranges_from(items, i + 1) {
                Err(why) => Err(why),
                Ok(rest) => Ok(seq![range] + rest),
            },
        }
    }
}

/// The signed exclusions of a data-hash assertion, or why they are refused.
pub open spec fn signed_ranges(assertion: Value) -> Result<Seq<(usize, usize)>, Seq<char>> {
    match assertion.items_field("exclusions"@) {
        None => Err("signed data-hash exclusion list must contain at least one range"@),
        Some(items) => if items.len() == 0 {
            Err("signed data-hash exclusion list must contain at least one range"@)
        } else if items.len() > MAX_DATA_HASH_EXCLUSIONS {
            Err(
                "exclusion list exceeds the verifier cap ("@ + text::decimal(items.len()) + " > "@
                    + text::decimal(MAX_DATA_HASH_EXCLUSIONS as nat) + ")"@,
            )
        } else {
            signed_ranges_from(items, 0)
        },
    }
}

/// The exclusions that regular verification holds to the carrier: none where
/// the data hash is not the one hard binding or has no payload.
pub open spec fn regular_exclusions(m: ParsedManifest) -> Result<
    Option<Seq<(usize, usize)>>,
    Seq<char>,
> {
    let at = data_hash_positions(m, m.assertions@.len() as int);
    if !sole_data_hash(m) || at.len() == 0 {
        Ok(None)
    } else if at.len() > 1 {
        Err("regular verification requires exactly one c2pa.hash.data binding"@)
    } else {
        match m.assertions@[at[0]].payload.value {
            None => Err("hard-binding assertion CBOR is invalid"@),
            Some(assertion) => match signed_ranges(assertion) {
                Ok(s) => Ok(Some(s)),
                Err(why) => Err(why),
            },
        }
    }
}

pub open spec fn regular_view(r: Result<Option<Vec<(usize, usize)>>, ValidateError>) -> Result<
    Option<Seq<(usize, usize)>>,
    Seq<char>,
> {
    match r {
        Ok(Some(v)) => Ok(Some(v@)),
        Ok(None) => Ok(None),
        Err(ValidateError::HardBinding(s)) => Err(s@),
        Err(_) => Err(Seq::empty()),
    }
}

fn hard_binding(why: &str) -> (r: ValidateError)
    ensures
        r matches ValidateError::HardBinding(s) && s@ == why@,
{
    ValidateError::HardBinding(why.to_owned())
}

fn read_signed_ranges(assertion: &Value) -> (r: Result<Vec<(usize, usize)>, ValidateError>)
    ensures
        match r {
            Ok(v) => signed_ranges(*assertion) == Ok::<Seq<(usize, usize)>, Seq<char>>(v@),
            Err(ValidateError::HardBinding(s)) => signed_ranges(*assertion) == Err::<
                Seq<(usize, usize)>,
                Seq<char>,
            >(s@),
            Err(_) => false,
        },
{
    let items = match assertion.get_items("exclusions") {
        Some(items) => items,
        None => {
            return Err(
                hard_binding("signed data-hash exclusion list must contain at least one range"),
            );
        },
    };
    if items.len() == 0 {
        return Err(hard_binding("signed data-hash exclusion list must contain at least one range"));
    }
    if items.len() > MAX_DATA_HASH_EXCLUSIONS {
        let n = decimal_string(items.len() as u64);
        let cap = decimal_string(MAX_DATA_HASH_EXCLUSIONS as u64);
        return Err(
            ValidateError::HardBinding(
                join5(
                    "exclusion list exceeds the verifier cap (",
                    n.as_str(),
                    " > ",
                    cap.as_str(),
                    ")",
                ),
            ),
        );
    }
    let mut out: Vec<(usize, usize)> = Vec::new();
    let ghost whole = signed_ranges(*assertion);
    assert(whole is Ok ==> Seq::<(usize, usize)>::empty() + whole->Ok_0 =~= whole->Ok_0);
    let mut i: usize = 0;
    while i < items.len()
        invariant
            i <= items.len(),
            whole == signed_ranges(*assertion),
            joined(out@, signed_ranges_from(items@, i as int)) == whole,
        decreases items.len() - i,
    {
        let start = match items[i].get_usize("start") {
            Some(start) => start,
            None => {
                return Err(hard_binding("signed data-hash exclusion start is invalid"));
            },
        };
        let length = match items[i].get_usize("length") {
            Some(length) => length,
            None => {
                return Err(hard_binding("signed data-hash exclusion length is invalid"));
            },
        };
        if length == 0 {
            return Err(hard_binding("signed data-hash exclusion length is invalid"));
        }
        let ghost before = out@;
        let ghost rest = signed_ranges_from(items@, i + 1);
        out.push((start, length));
        assert(rest is Ok ==> out@ + rest->Ok_0 =~= before + (seq![(start, length)] + rest->Ok_0));
        i += 1;
    }
    assert(out@ + Seq::<(usize, usize)>::empty() =~= out@);
    Ok(out)
}

/// The exclusions of the active data-hash assertion, where it is the claim's
/// one hard binding.
pub fn regular_data_hash_exclusions(m: &ParsedManifest) -> (r: Result<
    Option<Vec<(usize, usize)>>,
    ValidateError,
>)
    ensures
        regular_view(r) == regular_exclusions(*m),
        r matches Err(e) ==> e is HardBinding,
{
    if !claim_declares_sole_data_hash(m) {
        return Ok(None);
    }
    let mut count: usize = 0;
    let mut at: usize = 0;
    let mut i: usize = 0;
    while i < m.assertions.len()
        invariant
            i <= m.assertions.len(),
            count <= i,
            count == data_hash_positions(*m, i as int).len(),
            count > 0 ==> at < i && data_hash_positions(*m, i as int)[0] == at,
        decreases m.assertions.len() - i,
    {
        if str_eq(m.assertions[i].label.as_str(), "c2pa.hash.data") {
            if count == 0 {
                at = i;
            }
            count += 1;
        }
        i += 1;
    }
    if count == 0 {
        return Ok(None);
    }
    if count > 1 {
        return Err(
            hard_binding("regular verification requires exactly one c2pa.hash.data binding"),
        );
    }
    match &m.assertions[at].payload.value {
        None => Err(hard_binding("hard-binding assertion CBOR is invalid")),
        Some(assertion) => match read_signed_ranges(assertion) {
            Ok(v) => Ok(Some(v)),
            Err(e) => Err(e),
        },
    }
}

/// A range that ends inside the `usize` range and lies in the carrier.
pub open spec fn inside_carrier(range: (usize, usize), start: usize, length: usize) -> bool {
    range.0 + range.1 <= usize::MAX && start <= range.0 && range.0 + range.1 <= start + length
}

/// An exclusion that removes bytes outside the one resolved carrier.
pub open spec fn reaches_outside(
    exclusions: Seq<(usize, usize)>,
    start: usize,
    length: usize,
) -> bool {
    exists|i: int|
        0 <= i < exclusions.len() && !inside_carrier(#[trigger] exclusions[i], start, length)
}

/// Whether every range lies inside the carrier.
pub fn all_inside_carrier(exclusions: &[(usize, usize)], start: usize, length: usize) -> (r: bool)
    requires
        start + length <= usize::MAX,
    ensures
        r == !reaches_outside(exclusions@, start, length),
{
    let end: usize = start + length;
    let mut i: usize = 0;
    while i < exclusions.len()
        invariant
            i <= exclusions.len(),
            end == start + length,
            forall|k: int| 0 <= k < i ==> inside_carrier(#[trigger] exclusions@[k], start, length),
        decreases exclusions.len() - i,
    {
        let (s, l) = exclusions[i];
        let inside = match s.checked_add(l) {
            Some(e) => s >= start && e <= end,
            None => false,
        };
        if !inside {
            assert(!inside_carrier(exclusions@[i as int], start, length));
            return false;
        }
        i += 1;
    }
    true
}

/// Whether the claim's one data-hash binding excludes bytes beyond the one
/// carrier among `spans`, where the container layer resolved them.
pub fn has_conformance_additional_exclusions(
    m: &ParsedManifest,
    spans: Option<&[(usize, usize)]>,
) -> (r: bool)
    ensures
        r == match (regular_exclusions(*m), spans) {
            (Ok(Some(ranges)), Some(s)) => s@.len() == 1 && s@[0].0 + s@[0].1 <= usize::MAX
                && reaches_outside(ranges, s@[0].0, s@[0].1),
            _ => false,
        },
{
    let ranges = match regular_data_hash_exclusions(m) {
        Ok(Some(ranges)) => ranges,
        _ => {
            return false;
        },
    };
    match spans {
        Some(s) => {
            if s.len() != 1 {
                return false;
            }
            let (start, length) = s[0];
            if start.checked_add(length).is_none() {
                return false;
            }
            !all_inside_carrier(ranges.as_slice(), start, length)
        },
        None => false,
    }
}

/// The ordered ranges do not overlap.
pub open spec fn disjoint_in_order(s: Seq<(usize, usize)>) -> bool {
    forall|i: int|
        0 <= i < s.len() - 1 ==> (#[trigger] s[i]).0 + s[i].1 <= s[i + 1].0
}

/// Every exclusion lies in the carrier and none overlaps another.
pub open spec fn regular_geometry(exclusions: Seq<(usize, usize)>, start: usize, length: usize) -> bool {
    &&& !reaches_outside(exclusions, start, length)
    &&& disjoint_in_order(by_start(exclusions, exclusions.len() as int))
}

proof fn lemma_outside_is_ordering_free(s: Seq<(usize, usize)>, start: usize, length: usize)
    ensures
        reaches_outside(s, start, length) == reaches_outside(
            by_start(s, s.len() as int),
            start,
            length,
        ),
{
    broadcast use vstd::seq_lib::group_to_multiset_ensures;

    let t = by_start(s, s.len() as int);
    by_start_is_ordered(s, s.len() as int);
    assert(s.subrange(0, s.len() as int) =~= s);
    if reaches_outside(s, start, length) {
        let i = choose|i: int|
            0 <= i < s.len() && !inside_carrier(#[trigger] s[i], start, length);
        assert(s.contains(s[i]));
        assert(s.to_multiset().count(s[i]) > 0);
        assert(t.contains(s[i]));
        let j = choose|j: int| 0 <= j < t.len() && t[j] == s[i];
        assert(!inside_carrier(t[j], start, length));
    }
    if reaches_outside(t, start, length) {
        let i = choose|i: int|
            0 <= i < t.len() && !inside_carrier(#[trigger] t[i], start, length);
        assert(t.contains(t[i]));
        assert(t.to_multiset().count(t[i]) > 0);
        assert(s.contains(t[i]));
        let j = choose|j: int| 0 <= j < s.len() && s[j] == t[i];
        assert(!inside_carrier(s[j], start, length));
    }
}

/// Hold every signed exclusion to the resolved manifest carrier: inside it and
/// without overlap.
pub fn validate_regular_exclusion_geometry(
    exclusions: &Vec<(usize, usize)>,
    carrier_start: usize,
    carrier_length: usize,
) -> (r: Result<(), ValidateError>)
    ensures
        r is Ok <==> carrier_start + carrier_length <= usize::MAX && regular_geometry(
            exclusions@,
            carrier_start,
            carrier_length,
        ),
        carrier_start + carrier_length > usize::MAX ==> error::is_hard_binding(
            r,
            "resolved carrier output span overflows"@,
        ),
        carrier_start + carrier_length <= usize::MAX && r is Err ==> error::is_hard_binding(
            r,
            "signed exclusion does not fit within resolved carrier output span"@,
        ),
{
    let carrier_end = match carrier_start.checked_add(carrier_length) {
        Some(end) => end,
        None => {
            return Err(hard_binding("resolved carrier output span overflows"));
        },
    };
    let sorted = sort_by_start(exclusions);
    proof {
        lemma_outside_is_ordering_free(exclusions@, carrier_start, carrier_length);
    }
    let mut previous_end: usize = 0;
    let mut i: usize = 0;
    while i < sorted.len()
        invariant
            i <= sorted.len(),
            sorted@ == by_start(exclusions@, exclusions@.len() as int),
            carrier_end == carrier_start + carrier_length,
            reaches_outside(exclusions@, carrier_start, carrier_length) == reaches_outside(
                sorted@,
                carrier_start,
                carrier_length,
            ),
            i == 0 ==> previous_end == 0,
            i > 0 ==> previous_end == sorted@[i - 1].0 + sorted@[i - 1].1,
            forall|k: int|
                0 <= k < i ==> inside_carrier(
                    #[trigger] sorted@[k],
                    carrier_start,
                    carrier_length,
                ),
            forall|k: int|
                0 <= k < i - 1 ==> (#[trigger] sorted@[k]).0 + sorted@[k].1 <= sorted@[k + 1].0,
        decreases sorted.len() - i,
    {
        let (start, length) = sorted[i];
        let end = match start.checked_add(length) {
            Some(end) => end,
            None => {
                assert(!inside_carrier(sorted@[i as int], carrier_start, carrier_length));
                return Err(
                    hard_binding(
                        "signed exclusion does not fit within resolved carrier output span",
                    ),
                );
            },
        };
        if start < previous_end || start < carrier_start || end > carrier_end {
            proof {
                if start < previous_end {
                    assert(!(sorted@[i - 1].0 + sorted@[i - 1].1 <= sorted@[i - 1 + 1].0));
                } else {
                    assert(!inside_carrier(sorted@[i as int], carrier_start, carrier_length));
                }
            }
            return Err(
                hard_binding("signed exclusion does not fit within resolved carrier output span"),
            );
        }
        previous_end = end;
        i += 1;
    }
    Ok(())
}

proof fn lemma_disjoint_far(s: Seq<(usize, usize)>, i: int, j: int)
    requires
        disjoint_in_order(s),
        hash::ordered_by_start(s),
        0 <= i < j < s.len(),
    ensures
        s[i].0 + s[i].1 <= s[j].0,
    decreases j - i,
{
    if i + 1 < j {
        lemma_disjoint_far(s, i, j - 1);
        assert(s[j - 1].0 <= s[j].0);
    } else {
        assert(s[i].0 + s[i].1 <= s[i + 1].0);
    }
}

/// Accepted exclusions, taken in order, lie in the carrier and share no byte.
pub proof fn accepted_geometry_is_disjoint(
    exclusions: Seq<(usize, usize)>,
    start: usize,
    length: usize,
    i: int,
    j: int,
)
    requires
        regular_geometry(exclusions, start, length),
        0 <= i < j < exclusions.len(),
    ensures
        ({
            let s = by_start(exclusions, exclusions.len() as int);
            &&& inside_carrier(s[i], start, length)
            &&& inside_carrier(s[j], start, length)
            &&& s[i].0 + s[i].1 <= s[j].0
        }),
{
    let s = by_start(exclusions, exclusions.len() as int);
    by_start_is_ordered(exclusions, exclusions.len() as int);
    lemma_outside_is_ordering_free(exclusions, start, length);
    assert(inside_carrier(s[i], start, length));
    assert(inside_carrier(s[j], start, length));
    lemma_disjoint_far(s, i, j);
}

proof fn lemma_same_ranges(s: Seq<(usize, usize)>, x: (usize, usize))
    ensures
        by_start(s, s.len() as int).contains(x) == s.contains(x),
        hash::ordered_by_start(by_start(s, s.len() as int)),
        by_start(s, s.len() as int).len() == s.len(),
{
    broadcast use vstd::seq_lib::group_to_multiset_ensures;

    let t = by_start(s, s.len() as int);
    by_start_is_ordered(s, s.len() as int);
    assert(s.subrange(0, s.len() as int) =~= s);
    assert(s.contains(x) == (s.to_multiset().count(x) > 0));
    assert(t.contains(x) == (t.to_multiset().count(x) > 0));
}

proof fn lemma_usable(items: Seq<Value>, k: int, x: (usize, usize))
    requires
        0 <= k <= items.len(),
    ensures
        usable_ranges(items, k).contains(x) == (exists|i: int|
            0 <= i < k && (#[trigger] items[i]).usize_field("start"@) == Some(x.0)
                && items[i].usize_field("length"@) == Some(x.1)),
    decreases k,
{
    if k > 0 {
        lemma_usable(items, k - 1, x);
        let before = usable_ranges(items, k - 1);
        let after = usable_ranges(items, k);
        let last = items[k - 1];
        if before.contains(x) {
            let i = choose|i: int|
                0 <= i < k - 1 && (#[trigger] items[i]).usize_field("start"@) == Some(x.0)
                    && items[i].usize_field("length"@) == Some(x.1);
            assert(items[i].usize_field("start"@) == Some(x.0));
            let j = choose|j: int| 0 <= j < before.len() && before[j] == x;
            assert(after[j] == x);
        }
        if after.contains(x) {
            let j = choose|j: int| 0 <= j < after.len() && after[j] == x;
            if j < before.len() {
                assert(before[j] == x);
            } else {
                assert(last.usize_field("start"@) == Some(x.0));
            }
        }
        if last.usize_field("start"@) == Some(x.0) && last.usize_field("length"@) == Some(x.1) {
            assert(after[before.len() as int] == x);
        }
    }
}

/// The ranges of an exclusion list are those of its items that give a start and a
/// length, and no others, ordered by their start.
pub proof fn exclusion_ranges_are_the_listed_ones(items: Vec<Value>, x: (usize, usize))
    ensures
        ranges_of(Some(Value::Array(items))).contains(x) == (exists|i: int|
            0 <= i < items@.len() && (#[trigger] items@[i]).usize_field("start"@) == Some(x.0)
                && items@[i].usize_field("length"@) == Some(x.1)),
        hash::ordered_by_start(ranges_of(Some(Value::Array(items)))),
        ranges_of(None).len() == 0,
{
    let u = usable_ranges(items@, items@.len() as int);
    lemma_usable(items@, items@.len() as int, x);
    lemma_same_ranges(u, x);
}

proof fn lemma_part_ranges(items: Seq<Value>, part_len: usize, i: int)
    requires
        0 <= i <= items.len(),
    ensures
        part_ranges_from(items, part_len, i) is Ok == (forall|k: int|
            i <= k < items.len() ==> (#[trigger] items[k]).usize_field("start"@) is Some
                && items[k].usize_field("length"@) is Some && items[k].usize_field("start"@)->0
                + items[k].usize_field("length"@)->0 <= part_len),
        part_ranges_from(items, part_len, i) matches Ok(s) ==> s.len() == items.len() - i && forall|
            k: int,
        |
            0 <= k < s.len() ==> items[i + k].usize_field("start"@) == Some((#[trigger] s[k]).0)
                && items[i + k].usize_field("length"@) == Some(s[k].1),
    decreases items.len() - i,
{
    if i < items.len() {
        lemma_part_ranges(items, part_len, i + 1);
        if part_ranges_from(items, part_len, i) is Ok {
            let s = part_ranges_from(items, part_len, i)->Ok_0;
            let rest = part_ranges_from(items, part_len, i + 1)->Ok_0;
            let first = part_range(items[i], part_len)->Ok_0;
            assert(s == seq![first] + rest);
            assert forall|k: int| 0 <= k < s.len() implies items[i + k].usize_field("start"@)
                == Some((#[trigger] s[k]).0) && items[i + k].usize_field("length"@) == Some(
                s[k].1,
            ) by {
                if k > 0 {
                    assert(s[k] == rest[k - 1]);
                    assert(i + 1 + (k - 1) == i + k);
                }
            }
        }
    }
}

/// The exclusions of a part are accepted exactly where the list is within the cap
/// and every item gives a range inside the part; the ranges are then those of the
/// items, each of them, ordered by their start.
pub proof fn part_exclusions_stay_inside_the_part(
    items: Vec<Value>,
    part_len: usize,
    x: (usize, usize),
)
    ensures
        part_ranges(Some(Value::Array(items)), part_len) is Ok == (items@.len()
            <= MAX_DATA_HASH_EXCLUSIONS && forall|k: int|
            0 <= k < items@.len() ==> (#[trigger] items@[k]).usize_field("start"@) is Some
                && items@[k].usize_field("length"@) is Some && items@[k].usize_field("start"@)->0
                + items@[k].usize_field("length"@)->0 <= part_len),
        part_ranges(Some(Value::Array(items)), part_len) matches Ok(s) ==> s.len() == items@.len()
            && hash::ordered_by_start(s) && s.contains(x) == (exists|i: int|
            0 <= i < items@.len() && (#[trigger] items@[i]).usize_field("start"@) == Some(x.0)
                && items@[i].usize_field("length"@) == Some(x.1)),
        part_ranges(None, part_len) == Ok::<Seq<(usize, usize)>, Seq<char>>(Seq::empty()),
{
    lemma_part_ranges(items@, part_len, 0);
    if part_ranges(Some(Value::Array(items)), part_len) is Ok {
        let s = part_ranges_from(items@, part_len, 0)->Ok_0;
        lemma_same_ranges(s, x);
        assert forall|k: int| 0 <= k < s.len() implies items@[k].usize_field("start"@) == Some(
            (#[trigger] s[k]).0,
        ) && items@[k].usize_field("length"@) == Some(s[k].1) by {
            assert(items@[0 + k] == items@[k]);
        }
        if s.contains(x) {
            let k = choose|k: int| 0 <= k < s.len() && s[k] == x;
            assert(items@[k].usize_field("start"@) == Some(x.0));
        }
        if exists|i: int|
            0 <= i < items@.len() && (#[trigger] items@[i]).usize_field("start"@) == Some(x.0)
                && items@[i].usize_field("length"@) == Some(x.1) {
            let i = choose|i: int|
                0 <= i < items@.len() && (#[trigger] items@[i]).usize_field("start"@) == Some(x.0)
                    && items@[i].usize_field("length"@) == Some(x.1);
            assert(s[i] == x);
        }
    }
}

proof fn lemma_signed_ranges(items: Seq<Value>, i: int)
    requires
        0 <= i <= items.len(),
    ensures
        signed_ranges_from(items, i) is Ok == (forall|k: int|
            i <= k < items.len() ==> (#[trigger] items[k]).usize_field("start"@) is Some
                && items[k].usize_field("length"@) is Some && items[k].usize_field("length"@)->0
                > 0),
        signed_ranges_from(items, i) matches Ok(s) ==> s.len() == items.len() - i && forall|k: int|
            0 <= k < s.len() ==> items[i + k].usize_field("start"@) == Some((#[trigger] s[k]).0)
                && items[i + k].usize_field("length"@) == Some(s[k].1),
    decreases items.len() - i,
{
    if i < items.len() {
        lemma_signed_ranges(items, i + 1);
        if signed_ranges_from(items, i) is Ok {
            let s = signed_ranges_from(items, i)->Ok_0;
            let rest = signed_ranges_from(items, i + 1)->Ok_0;
            let first = signed_range(items[i])->Ok_0;
            assert(s == seq![first] + rest);
            assert forall|k: int| 0 <= k < s.len() implies items[i + k].usize_field("start"@)
                == Some((#[trigger] s[k]).0) && items[i + k].usize_field("length"@) == Some(
                s[k].1,
            ) by {
                if k > 0 {
                    assert(s[k] == rest[k - 1]);
                    assert(i + 1 + (k - 1) == i + k);
                }
            }
        }
    }
}

/// The signed exclusions of a data hash are accepted exactly where there is at
/// least one, they are within the cap and each has a start and a length above
/// zero; they are then the listed ones, in their order.
pub proof fn signed_exclusions_are_the_listed_ones(assertion: Value, items: Seq<Value>)
    requires
        assertion.items_field("exclusions"@) == Some(items),
    ensures
        signed_ranges(assertion) is Ok == (0 < items.len() <= MAX_DATA_HASH_EXCLUSIONS && forall|
            k: int,
        |
            0 <= k < items.len() ==> (#[trigger] items[k]).usize_field("start"@) is Some
                && items[k].usize_field("length"@) is Some && items[k].usize_field("length"@)->0
                > 0),
        signed_ranges(assertion) matches Ok(s) ==> s.len() == items.len() && forall|k: int|
            0 <= k < s.len() ==> items[k].usize_field("start"@) == Some((#[trigger] s[k]).0)
                && items[k].usize_field("length"@) == Some(s[k].1),
{
    lemma_signed_ranges(items, 0);
    if signed_ranges(assertion) is Ok {
        let s = signed_ranges(assertion)->Ok_0;
        assert forall|k: int| 0 <= k < s.len() implies items[k].usize_field("start"@) == Some(
            (#[trigger] s[k]).0,
        ) && items[k].usize_field("length"@) == Some(s[k].1) by {
            assert(items[0 + k] == items[k]);
        }
    }
}

proof fn lemma_subsets(maps: Seq<Value>, i: int, end: nat)
    requires
        0 <= i <= maps.len(),
        subsets_from(maps, i, end) is Ok,
    ensures
        ({
            let s = subsets_from(maps, i, end)->Ok_0;
            &&& s.len() == maps.len() - i
            &&& forall|k: int|
                0 <= k < s.len() ==> maps[i + k].usize_field("offset"@) == Some(
                    (#[trigger] s[k]).0,
                ) && maps[i + k].usize_field("length"@) == Some(s[k].1)
            &&& forall|k: int| 0 <= k < s.len() ==> (#[trigger] s[k]).0 >= end
            &&& forall|j: int, k: int|
                0 <= j < k < s.len() ==> (#[trigger] s[j]).0 + s[j].1 <= (#[trigger] s[k]).0
                    || s[k].0 == usize::MAX
            &&& forall|k: int| 0 <= k < s.len() - 1 ==> (#[trigger] s[k]).1 > 0
        }),
    decreases maps.len() - i,
{
    if i < maps.len() {
        let offset = maps[i].usize_field("offset"@)->0;
        let length = maps[i].usize_field("length"@)->0;
        let next = hash::least(offset + length, usize::MAX as int) as nat;
        lemma_subsets(maps, i + 1, next);
        let rest = subsets_from(maps, i + 1, next)->Ok_0;
        let s = subsets_from(maps, i, end)->Ok_0;
        assert(s == seq![(offset, length)] + rest);
        assert forall|k: int| 0 <= k < s.len() implies maps[i + k].usize_field("offset"@) == Some(
            (#[trigger] s[k]).0,
        ) && maps[i + k].usize_field("length"@) == Some(s[k].1) && s[k].0 >= end by {
            if k > 0 {
                assert(s[k] == rest[k - 1]);
                assert(i + 1 + (k - 1) == i + k);
            }
        }
        assert forall|j: int, k: int| 0 <= j < k < s.len() implies (#[trigger] s[j]).0 + s[j].1 <= (
        #[trigger] s[k]).0 || s[k].0 == usize::MAX by {
            assert(s[k] == rest[k - 1]);
            if j > 0 {
                assert(s[j] == rest[j - 1]);
            }
        }
        assert forall|k: int| 0 <= k < s.len() - 1 implies (#[trigger] s[k]).1 > 0 by {
            if k > 0 {
                assert(s[k] == rest[k - 1]);
            }
        }
    }
}

/// The exclusion is what its item says: its path, the length, version and flags
/// where the item gives them, flags as the big-endian number of their three
/// bytes; and its subsets are the listed ones, in order and without overlap, none
/// but the last of zero length.
pub open spec fn follows_item(x: Exclusion, item: Value) -> bool {
    &&& item.text_field("xpath"@) == Some(x.xpath)
    &&& x.xpath.len() > 0
    &&& if item.field("length"@) is None || item.field("length"@)->0 is Null {
        x.length is None
    } else {
        x.length == item.usize_field("length"@) && x.length is Some
    }
    &&& if item.field("version"@) is None || item.field("version"@)->0 is Null {
        x.version is None
    } else {
        x.version is Some && item.usize_field("version"@) == Some(x.version->0 as usize)
    }
    &&& if item.field("flags"@) is None || item.field("flags"@)->0 is Null {
        x.flags is None
    } else {
        let b = item.bytes_field("flags"@)->0;
        item.bytes_field("flags"@) is Some && b.len() == 3 && x.flags is Some && x.flags->0 == (
        b[0] as int * 256 + b[1]) * 256 + b[2]
    }
    &&& x.exact == (item.field("exact"@) != Some(Value::Bool(false)))
    &&& match item.items_field("subset"@) {
        Some(maps) => {
            &&& x.subset.len() == maps.len()
            &&& forall|k: int|
                0 <= k < maps.len() ==> maps[k].usize_field("offset"@) == Some(
                    (#[trigger] x.subset[k]).0,
                ) && maps[k].usize_field("length"@) == Some(x.subset[k].1)
            &&& forall|j: int, k: int|
                0 <= j < k < x.subset.len() ==> (#[trigger] x.subset[j]).0 + x.subset[j].1 <= (
                #[trigger] x.subset[k]).0 || x.subset[k].0 == usize::MAX
            &&& forall|k: int| 0 <= k < x.subset.len() - 1 ==> (#[trigger] x.subset[k]).1 > 0
        },
        None => x.subset.len() == 0,
    }
    &&& match item.items_field("data"@) {
        Some(maps) => {
            &&& x.data.len() == maps.len()
            &&& forall|k: int|
                0 <= k < maps.len() ==> maps[k].usize_field("offset"@) == Some(
                    (#[trigger] x.data[k]).0,
                ) && maps[k].bytes_field("value"@) == Some(x.data[k].1)
        },
        None => x.data.len() == 0,
    }
}

proof fn lemma_data(maps: Seq<Value>, i: int, bytes: nat)
    requires
        0 <= i <= maps.len(),
        data_from(maps, i, bytes) is Ok,
    ensures
        ({
            let s = data_from(maps, i, bytes)->Ok_0.0;
            &&& s.len() == maps.len() - i
            &&& forall|k: int|
                0 <= k < s.len() ==> maps[i + k].usize_field("offset"@) == Some(
                    (#[trigger] s[k]).0,
                ) && maps[i + k].bytes_field("value"@) == Some(s[k].1)
        }),
    decreases maps.len() - i,
{
    if i < maps.len() {
        let b = maps[i].bytes_field("value"@)->0;
        let offset = maps[i].usize_field("offset"@)->0;
        lemma_data(maps, i + 1, bytes + b.len());
        let rest = data_from(maps, i + 1, bytes + b.len())->Ok_0.0;
        let s = data_from(maps, i, bytes)->Ok_0.0;
        assert(s == seq![(offset, b)] + rest);
        assert forall|k: int| 0 <= k < s.len() implies maps[i + k].usize_field("offset"@) == Some(
            (#[trigger] s[k]).0,
        ) && maps[i + k].bytes_field("value"@) == Some(s[k].1) by {
            if k > 0 {
                assert(s[k] == rest[k - 1]);
                assert(i + 1 + (k - 1) == i + k);
            }
        }
    }
}

proof fn lemma_item(item: Value, used: Used)
    requires
        exclusion_item(item, used) is Ok,
    ensures
        follows_item(exclusion_item(item, used)->Ok_0.0, item),
{
    let x = exclusion_item(item, used)->Ok_0.0;
    let u = data_member(item, used)->Ok_0.1;
    match item.field("data"@) {
        Some(Value::Array(maps)) => {
            lemma_data(maps@, 0, used.bytes);
            assert(item.items_field("data"@) == Some(maps@));
            assert forall|k: int| 0 <= k < maps@.len() implies maps@[k].usize_field("offset"@)
                == Some((#[trigger] x.data[k]).0) && maps@[k].bytes_field("value"@) == Some(
                x.data[k].1,
            ) by {
                assert(maps@[0 + k] == maps@[k]);
            }
        },
        _ => {},
    }
    match item.field("subset"@) {
        Some(Value::Array(maps)) => {
            lemma_subsets(maps@, 0, 0);
            assert(item.items_field("subset"@) == Some(maps@));
            assert forall|k: int| 0 <= k < maps@.len() implies maps@[k].usize_field("offset"@)
                == Some((#[trigger] x.subset[k]).0) && maps@[k].usize_field("length"@) == Some(
                x.subset[k].1,
            ) by {
                assert(maps@[0 + k] == maps@[k]);
            }
        },
        _ => {},
    }
    if let Some(b) = item.bytes_field("flags"@) {
        if b.len() == 3 {
            assert((b[0] as int * 256 + b[1]) * 256 + b[2] == b[0] * 65536 + b[1] * 256 + b[2]);
            assert(b[0] * 65536 + b[1] * 256 + b[2] <= u32::MAX);
        }
    }
}

proof fn lemma_exclusions(items: Seq<Value>, i: int, used: Used)
    requires
        0 <= i <= items.len(),
        exclusions_from(items, i, used) is Ok,
    ensures
        ({
            let s = exclusions_from(items, i, used)->Ok_0;
            &&& s.len() == items.len() - i
            &&& forall|k: int| 0 <= k < s.len() ==> follows_item(#[trigger] s[k], items[i + k])
        }),
    decreases items.len() - i,
{
    if i < items.len() {
        let (x, u) = exclusion_item(items[i], used)->Ok_0;
        lemma_item(items[i], used);
        lemma_exclusions(items, i + 1, u);
        let rest = exclusions_from(items, i + 1, u)->Ok_0;
        let s = exclusions_from(items, i, used)->Ok_0;
        assert(s == seq![x] + rest);
        assert forall|k: int| 0 <= k < s.len() implies follows_item(
            #[trigger] s[k],
            items[i + k],
        ) by {
            if k > 0 {
                assert(s[k] == rest[k - 1]);
                assert(i + 1 + (k - 1) == i + k);
            }
        }
    }
}

/// The accepted exclusions of a BMFF hash are those of its list, one for each
/// item and in its order, and each is what its item says. A hash without such a
/// list, with an empty one or with one beyond the cap is refused.
pub proof fn bmff_exclusions_follow_their_items(hash_data: Value)
    ensures
        exclusions_of(hash_data) is Ok ==> hash_data.items_field("exclusions"@) is Some && 0
            < hash_data.items_field("exclusions"@)->0.len() <= MAX_DATA_HASH_EXCLUSIONS
            && exclusions_of(hash_data)->Ok_0.len() == hash_data.items_field(
            "exclusions"@,
        )->0.len() && forall|k: int|
            0 <= k < exclusions_of(hash_data)->Ok_0.len() ==> follows_item(
                #[trigger] exclusions_of(hash_data)->Ok_0[k],
                hash_data.items_field("exclusions"@)->0[k],
            ),
{
    if exclusions_of(hash_data) is Ok {
        let items = hash_data.items_field("exclusions"@)->0;
        let s = exclusions_of(hash_data)->Ok_0;
        lemma_exclusions(items, 0, nothing_used());
        assert forall|k: int| 0 <= k < s.len() implies follows_item(#[trigger] s[k], items[k]) by {
            assert(items[0 + k] == items[k]);
        }
    }
}

} // verus!
