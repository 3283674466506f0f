//! BMFF boxes and the monolithic Merkle trees over `mdat` payloads.
use std::collections::BTreeMap;
use vstd::prelude::*;
use crate::bytes;
use crate::bytes::{read_be32, read_be64};
use crate::hash;
use crate::hash::{hash_bytes, HashAlgorithm};
use crate::merkle;
use crate::merkle::merkle_climb;
use crate::status::{
    Results, ValidationResults, ASSERTION_BMFF_HASH_MALFORMED, ASSERTION_BMFF_HASH_MISMATCH,
};
use crate::text;
use crate::text::{bytes_eq, decimal_string, join2, join3, join5};
use crate::value;
use crate::value::Value;

verus! {

pub const MAX_BMFF_MERKLE_ENTRIES: usize = 4_096;

pub const MAX_BMFF_MERKLE_LEAVES: usize = 262_144;

pub const MAX_BMFF_MERKLE_TOTAL_HASH_BYTES: usize = 1_073_741_824;

pub const MAX_BMFF_MERKLE_TOTAL_CHUNKS: usize = 262_144;

/// An auxiliary Merkle box: the leaf it belongs to and its proof.
#[derive(Debug)]
pub struct MerkleBox {
    pub unique_id: i128,
    pub local_id: i128,
    pub location: usize,
    pub proof: Vec<Vec<u8>>,
}

/// The auxiliary Merkle boxes found in a file, each parsed or with the reason
/// why it is malformed.
pub type MerkleBoxes = Vec<Result<MerkleBox, String>>;

/// What the container layer reports as digest under each supported algorithm.
#[derive(Debug)]
pub struct DigestReport {
    pub sha256: Result<Vec<u8>, String>,
    pub sha384: Result<Vec<u8>, String>,
    pub sha512: Result<Vec<u8>, String>,
}

impl DigestReport {
    pub open spec fn under(self, alg: HashAlgorithm) -> Result<Vec<u8>, String> {
        match alg {
            HashAlgorithm::Sha256 => self.sha256,
            HashAlgorithm::Sha384 => self.sha384,
            HashAlgorithm::Sha512 => self.sha512,
        }
    }

    /// The report under the algorithm `name`; nothing for an unsupported one.
    pub open spec fn named(self, name: Seq<char>) -> Option<Result<Seq<u8>, Seq<char>>> {
        match hash::algorithm_named(name) {
            Some(alg) => match self.under(alg) {
                Ok(d) => Some(Ok(d@)),
                Err(why) => Some(Err(why@)),
            },
            None => None,
        }
    }

    /// The report under `alg`.
    pub fn get(&self, alg: HashAlgorithm) -> (r: Result<&[u8], &str>)
        ensures
            match r {
                Ok(d) => self.under(alg) matches Ok(v) && v@ == d@,
                Err(why) => self.under(alg) matches Err(s) && s@ == why@,
            },
    {
        let slot = match alg {
            HashAlgorithm::Sha256 => &self.sha256,
            HashAlgorithm::Sha384 => &self.sha384,
            HashAlgorithm::Sha512 => &self.sha512,
        };
        match slot {
            Ok(d) => Ok(d.as_slice()),
            Err(why) => Err(why.as_str()),
        }
    }
}

/// What the container layer reports of one BMFF file: its structural digest,
/// the structural digest of its initialization scope, the spans of its `mdat`
/// payloads and its auxiliary Merkle boxes.
#[derive(Debug)]
pub struct BmffFacts {
    pub structural: DigestReport,
    pub init_structural: DigestReport,
    pub mdats: Option<Vec<(usize, usize)>>,
    pub merkle_boxes: Option<MerkleBoxes>,
}

/// What the container layer reports of one fragment file: its auxiliary
/// Merkle boxes and its leaf digest.
#[derive(Debug)]
pub struct FragmentFacts {
    pub merkle_boxes: Option<MerkleBoxes>,
    pub leaf: DigestReport,
}

/// The digest width under an algorithm name.
pub open spec fn named_len(alg: Seq<char>) -> Option<usize> {
    match hash::algorithm_named(alg) {
        Some(a) => Some(hash::digest_len(a)),
        None => None,
    }
}

/// The digest width under an algorithm name.
pub fn bmff_digest_len(alg: &str) -> (r: Option<usize>)
    ensures
        r == named_len(alg@),
{
    match HashAlgorithm::from_name(alg) {
        Some(a) => Some(a.digest_len()),
        None => None,
    }
}

/// The fixed slot of an algorithm name.
pub open spec fn algorithm_slot(alg: Seq<char>) -> Option<usize> {
    match hash::algorithm_named(alg) {
        Some(HashAlgorithm::Sha256) => Some(0),
        Some(HashAlgorithm::Sha384) => Some(1),
        Some(HashAlgorithm::Sha512) => Some(2),
        None => None,
    }
}

/// The fixed slot of an algorithm name.
pub fn bmff_algorithm_index(alg: &str) -> (r: Option<usize>)
    ensures
        r == algorithm_slot(alg@),
{
    match HashAlgorithm::from_name(alg) {
        Some(HashAlgorithm::Sha256) => Some(0),
        Some(HashAlgorithm::Sha384) => Some(1),
        Some(HashAlgorithm::Sha512) => Some(2),
        None => None,
    }
}

// ---------------------------------------------------------------------------
// Work bound
// ---------------------------------------------------------------------------

/// Add one tree's payload bytes and chunks to the totals; neither total may
/// exceed its bound, and both stay as they were where one would.
pub fn checked_bmff_merkle_work(
    total_bytes: &mut usize,
    total_chunks: &mut usize,
    payload_bytes: usize,
    chunks: usize,
) -> (r: Result<(), &'static str>)
    ensures
        ({
            let b = *old(total_bytes) + payload_bytes;
            let c = *old(total_chunks) + chunks;
            if b > MAX_BMFF_MERKLE_TOTAL_HASH_BYTES {
                &&& r matches Err(why) && why@
                    == "aggregate monolithic merkle payload bytes exceed the verifier bound"@
                &&& *final(total_bytes) == *old(total_bytes)
                &&& *final(total_chunks) == *old(total_chunks)
            } else if c > MAX_BMFF_MERKLE_TOTAL_CHUNKS {
                &&& r matches Err(why) && why@
                    == "aggregate monolithic merkle chunks exceed the verifier bound"@
                &&& *final(total_bytes) == *old(total_bytes)
                &&& *final(total_chunks) == *old(total_chunks)
            } else {
                &&& r is Ok
                &&& *final(total_bytes) == b
                &&& *final(total_chunks) == c
            }
        }),
{
    let new_bytes: usize = match total_bytes.checked_add(payload_bytes) {
        Some(n) => n,
        None => {
            return Err("aggregate monolithic merkle payload bytes exceed the verifier bound");
        },
    };
    if new_bytes > MAX_BMFF_MERKLE_TOTAL_HASH_BYTES {
        return Err("aggregate monolithic merkle payload bytes exceed the verifier bound");
    }
    let new_chunks: usize = match total_chunks.checked_add(chunks) {
        Some(n) => n,
        None => {
            return Err("aggregate monolithic merkle chunks exceed the verifier bound");
        },
    };
    if new_chunks > MAX_BMFF_MERKLE_TOTAL_CHUNKS {
        return Err("aggregate monolithic merkle chunks exceed the verifier bound");
    }
    *total_bytes = new_bytes;
    *total_chunks = new_chunks;
    Ok(())
}

// ---------------------------------------------------------------------------
// Rows
// ---------------------------------------------------------------------------

/// A stored row: the leaf count, the row's hashes and their width.
pub struct Row {
    pub count: usize,
    pub hashes: Seq<Value>,
    pub digest_len: usize,
}

pub open spec fn is_hash_of(v: Value, len: usize) -> bool {
    match v {
        Value::Bytes(b) => b@.len() == len,
        _ => false,
    }
}

/// The row that a Merkle entry stores, or why it is refused.
pub open spec fn merkle_row(entry: Value, alg: Seq<char>) -> Result<Row, Seq<char>> {
    match named_len(alg) {
        None => Err("unsupported merkle hash algorithm"@),
        Some(len) => if !(entry.field("uniqueId"@) matches Some(Value::Integer(_))) || !(
        entry.field("localId"@) matches Some(Value::Integer(_))) {
            Err("merkle entry is missing integer uniqueId or localId"@)
        } else {
            match entry.items_field("hashes"@) {
                None => Err("merkle entry is missing a hashes row"@),
                Some(row) => if row.len() == 0 || row.len() > MAX_BMFF_MERKLE_LEAVES {
                    Err("merkle hashes row is empty or exceeds the verifier bound"@)
                } else if exists|i: int| 0 <= i < row.len() && !is_hash_of(#[trigger] row[i], len) {
                    Err("merkle hashes row contains a non-byte value or wrong digest width"@)
                } else {
                    match entry.usize_field("count"@) {
                        None => Err("merkle count is missing or not positive"@),
                        Some(count) => if count == 0 {
                            Err("merkle count is missing or not positive"@)
                        } else if count < row.len() {
                            Err("merkle count is smaller than the stored row"@)
                        } else {
                            Ok(Row { count, hashes: row, digest_len: len })
                        },
                    }
                },
            }
        },
    }
}

pub open spec fn row_view(r: Result<(usize, &[Value], usize), &'static str>) -> Result<
    Row,
    Seq<char>,
> {
    match r {
        Ok((count, row, len)) => Ok(Row { count, hashes: row@, digest_len: len }),
        Err(why) => Err(why@),
    }
}

fn is_integer(v: Option<&Value>) -> (r: bool)
    ensures
        r == (value::pointee(v) matches Some(Value::Integer(_))),
{
    match v {
        Some(Value::Integer(_)) => true,
        _ => false,
    }
}

/// The leaf count, row and digest width of a Merkle entry.
pub fn bmff_merkle_row<'a>(entry: &'a Value, alg: &str) -> (r: Result<
    (usize, &'a [Value], usize),
    &'static str,
>)
    ensures
        row_view(r) == merkle_row(*entry, alg@),
{
    let len = match bmff_digest_len(alg) {
        Some(len) => len,
        None => {
            return Err("unsupported merkle hash algorithm");
        },
    };
    if !is_integer(entry.get("uniqueId")) || !is_integer(entry.get("localId")) {
        return Err("merkle entry is missing integer uniqueId or localId");
    }
    let row = match entry.get_items("hashes") {
        Some(row) => row,
        None => {
            return Err("merkle entry is missing a hashes row");
        },
    };
    if row.len() == 0 || row.len() > MAX_BMFF_MERKLE_LEAVES {
        return Err("merkle hashes row is empty or exceeds the verifier bound");
    }
    let mut i: usize = 0;
    while i < row.len()
        invariant
            i <= row.len(),
            0 < row@.len() <= MAX_BMFF_MERKLE_LEAVES,
            named_len(alg@) == Some(len),
            entry.items_field("hashes"@) == Some(row@),
            (entry.field("uniqueId"@) matches Some(Value::Integer(_))),
            (entry.field("localId"@) matches Some(Value::Integer(_))),
            forall|k: int| 0 <= k < i ==> is_hash_of(#[trigger] row@[k], len),
        decreases row.len() - i,
    {
        let ok = match &row[i] {
            Value::Bytes(b) => b.len() == len,
            _ => false,
        };
        if !ok {
            assert(!is_hash_of(row@[i as int], len));
            return Err("merkle hashes row contains a non-byte value or wrong digest width");
        }
        i += 1;
    }
    let count = match entry.get_usize("count") {
        Some(count) => count,
        None => {
            return Err("merkle count is missing or not positive");
        },
    };
    if count == 0 {
        return Err("merkle count is missing or not positive");
    }
    if count < row.len() {
        return Err("merkle count is smaller than the stored row");
    }
    Ok((count, row, len))
}

/// The row of a fragment tree, which may not describe blocks.
pub open spec fn fragment_row(entry: Value, alg: Seq<char>) -> Result<Row, Seq<char>> {
    if entry.field("fixedBlockSize"@) is Some || entry.field("variableBlockSizes"@) is Some {
        Err("fragment merkle entry contains a block-size descriptor"@)
    } else {
        merkle_row(entry, alg)
    }
}

/// The leaf count, row and digest width of a fragment tree's entry.
pub fn bmff_fragment_merkle_row<'a>(entry: &'a Value, alg: &str) -> (r: Result<
    (usize, &'a [Value], usize),
    &'static str,
>)
    ensures
        row_view(r) == fragment_row(*entry, alg@),
{
    if entry.get("fixedBlockSize").is_some() || entry.get("variableBlockSizes").is_some() {
        return Err("fragment merkle entry contains a block-size descriptor");
    }
    bmff_merkle_row(entry, alg)
}

/// The algorithm of an entry: its own text, else the assertion's; a value of
/// another kind is refused.
pub open spec fn entry_algorithm(entry: Value, assertion_alg: Seq<char>) -> Option<Seq<char>> {
    match entry.field("alg"@) {
        None => Some(assertion_alg),
        Some(Value::Text(t)) => Some(t@),
        Some(_) => None,
    }
}

pub fn entry_alg<'a>(entry: &'a Value, assertion_alg: &'a str) -> (r: Option<&'a str>)
    ensures
        value::chars_opt(r) == entry_algorithm(*entry, assertion_alg@),
{
    match entry.get("alg") {
        None => Some(assertion_alg),
        Some(Value::Text(t)) => Some(t.as_str()),
        Some(_) => None,
    }
}

// ---------------------------------------------------------------------------
// Top-level boxes
// ---------------------------------------------------------------------------

/// One top-level box: the length of its header and of the whole box.
pub open spec fn top_box(data: Seq<u8>, offset: int) -> Result<(int, int), Seq<char>> {
    if offset + 8 > usize::MAX {
        Err("BMFF box offset overflows"@)
    } else if offset + 8 > data.len() {
        Err("BMFF top-level box header is truncated"@)
    } else {
        let size32 = bytes::be_number(data.subrange(offset, offset + 4));
        if size32 == 0 {
            Ok((8, data.len() - offset))
        } else if size32 == 1 {
            if offset + 16 > usize::MAX {
                Err("BMFF box offset overflows"@)
            } else if offset + 16 > data.len() {
                Err("BMFF extended box header is truncated"@)
            } else {
                let size = bytes::be_number(data.subrange(offset + 8, offset + 16));
                if size > usize::MAX {
                    Err("BMFF box size exceeds platform limits"@)
                } else {
                    Ok((16, size as int))
                }
            }
        } else {
            Ok((8, size32 as int))
        }
    }
}

/// `moof`
pub open spec fn moof_type() -> Seq<u8> {
    seq![0x6du8, 0x6f, 0x6f, 0x66]
}

/// The length of the initialization scope, walking boxes from `offset` on: it
/// ends at the first top-level `moof`, or with the data.
pub open spec fn scope_from(data: Seq<u8>, offset: int) -> Result<int, Seq<char>>
    decreases data.len() - offset,
{
    if offset < 0 || offset >= data.len() {
        Ok(data.len() as int)
    } else {
        match top_box(data, offset) {
            Err(why) => Err(why),
            Ok((header, size)) => if size < header {
                Err("BMFF top-level box size is smaller than its header"@)
            } else if offset + size > data.len() {
                Err("BMFF top-level box lies outside the asset"@)
            } else if data.subrange(offset + 4, offset + 8) == moof_type() {
                Ok(offset)
            } else if size <= 0 {
                Err("BMFF top-level box size is smaller than its header"@)
            } else {
                scope_from(data, offset + size)
            },
        }
    }
}

fn read_top_box(data: &[u8], offset: usize) -> (r: Result<(usize, usize), &'static str>)
    requires
        offset < data.len(),
    ensures
        match r {
            Ok((h, s)) => top_box(data@, offset as int) == Ok::<(int, int), Seq<char>>(
                (h as int, s as int),
            ) && offset + 8 <= data@.len() && h >= 8,
            Err(why) => top_box(data@, offset as int) == Err::<(int, int), Seq<char>>(why@),
        },
{
    let head_end = match offset.checked_add(8) {
        Some(n) => n,
        None => {
            return Err("BMFF box offset overflows");
        },
    };
    if head_end > data.len() {
        return Err("BMFF top-level box header is truncated");
    }
    let size32 = read_be32(data, offset);
    if size32 == 0 {
        Ok((8, data.len() - offset))
    } else if size32 == 1 {
        let ext_end = match offset.checked_add(16) {
            Some(n) => n,
            None => {
                return Err("BMFF box offset overflows");
            },
        };
        if ext_end > data.len() {
            return Err("BMFF extended box header is truncated");
        }
        let size = read_be64(data, offset + 8);
        match usize::try_from(size) {
            Ok(n) => Ok((16, n)),
            Err(_) => Err("BMFF box size exceeds platform limits"),
        }
    } else {
        Ok((8, size32 as usize))
    }
}

/// Whether the four bytes at `at` are the box type `t`.
pub fn type_at(data: &[u8], at: usize, t: &[u8]) -> (r: bool)
    requires
        at + 4 <= data.len(),
        t@.len() == 4,
    ensures
        r == (data@.subrange(at as int, at + 4) == t@),
{
    bytes_eq(&data[at..at + 4], t)
}

/// Select the bytes that a Merkle `initHash` covers: everything in front of
/// the first top-level `moof`, or the whole file where there is none.
pub fn bmff_initialization_scope(data: &[u8]) -> (r: Result<&[u8], &'static str>)
    ensures
        match r {
            Ok(s) => scope_from(data@, 0) matches Ok(n) && 0 <= n <= data@.len() && s@
                == data@.subrange(0, n),
            Err(why) => scope_from(data@, 0) == Err::<int, Seq<char>>(why@),
        },
{
    let moof: [u8; 4] = [0x6d, 0x6f, 0x6f, 0x66];
    assert(moof@ =~= moof_type());
    let mut offset: usize = 0;
    while offset < data.len()
        invariant
            offset <= data.len(),
            moof@ == moof_type(),
            scope_from(data@, offset as int) == scope_from(data@, 0),
        decreases data.len() - offset,
    {
        let (header, size) = match read_top_box(data, offset) {
            Ok(b) => b,
            Err(why) => {
                return Err(why);
            },
        };
        if size < header {
            return Err("BMFF top-level box size is smaller than its header");
        }
        if size > data.len() - offset {
            return Err("BMFF top-level box lies outside the asset");
        }
        if type_at(data, offset + 4, &moof) {
            return Ok(&data[0..offset]);
        }
        offset = offset + size;
    }
    assert(data@.subrange(0, data@.len() as int) =~= data@);
    Ok(data)
}

/// The content span of a box that begins at `start` and is `length` bytes
/// long: the base header, the extended size and the user type of a `uuid` box
/// are header bytes. Nothing where the header contradicts the span.
pub open spec fn payload_bounds(data: Seq<u8>, start: int, length: int) -> Option<(int, int)> {
    if start + length > usize::MAX || start + 8 > data.len() || start + length > data.len() {
        None
    } else {
        let size32 = bytes::be_number(data.subrange(start, start + 4));
        let base: Option<int> = if size32 == 0 {
            Some(8)
        } else if size32 == 1 {
            if start + 16 > data.len() || bytes::be_number(data.subrange(start + 8, start + 16))
                != length {
                None
            } else {
                Some(16)
            }
        } else if size32 != length {
            None
        } else {
            Some(8)
        };
        match base {
            None => None,
            Some(b) => {
                let header = if data.subrange(start + 4, start + 8) == seq![
                    0x75u8,
                    0x75,
                    0x69,
                    0x64,
                ] {
                    b + 16
                } else {
                    b
                };
                if header > length {
                    None
                } else {
                    Some((start + header, length - header))
                }
            },
        }
    }
}

/// Convert a full box span into its content span.
pub fn bmff_box_payload_bounds(data: &[u8], box_start: usize, box_length: usize) -> (r: Option<
    (usize, usize),
>)
    ensures
        match r {
            Some((s, l)) => payload_bounds(data@, box_start as int, box_length as int) == Some(
                (s as int, l as int),
            ) && s + l == box_start + box_length && box_start + box_length <= data@.len(),
            None => payload_bounds(data@, box_start as int, box_length as int) is None,
        },
{
    let box_end = match box_start.checked_add(box_length) {
        Some(n) => n,
        None => {
            return None;
        },
    };
    if data.len() < 8 || box_start > data.len() - 8 || box_end > data.len() {
        return None;
    }
    let size32 = read_be32(data, box_start);
    let mut header: usize = if size32 == 0 {
        8
    } else if size32 == 1 {
        if data.len() < 16 || box_start > data.len() - 16 {
            return None;
        }
        let declared = read_be64(data, box_start + 8);
        if declared != box_length as u64 {
            return None;
        }
        16
    } else {
        if size32 as u64 != box_length as u64 {
            return None;
        }
        8
    };
    let uuid: [u8; 4] = [0x75, 0x75, 0x69, 0x64];
    assert(uuid@ =~= seq![0x75u8, 0x75, 0x69, 0x64]);
    if type_at(data, box_start + 4, &uuid) {
        header = header + 16;
    }
    if header > box_length {
        return None;
    }
    Some((box_start + header, box_length - header))
}

// ---------------------------------------------------------------------------
// Auxiliary proofs
// ---------------------------------------------------------------------------

/// The leaf that an auxiliary Merkle box belongs to.
pub type ProofKey = ((i128, i128), usize);

pub open spec fn box_key(b: MerkleBox) -> ProofKey {
    ((b.unique_id, b.local_id), b.location)
}

/// Proof keys are ordered by their own comparison.
spec fn keys_ordered() -> bool {
    vstd::laws_cmp::obeys_cmp::<ProofKey>()
}

proof fn proof_keys_are_ordered()
    ensures
        keys_ordered(),
{
    broadcast use vstd::laws_cmp::group_laws_cmp;

    assert(vstd::laws_cmp::obeys_cmp::<(i128, i128)>());
}

/// The positions of the boxes from `i` on, added to `index` under their keys.
pub open spec fn index_from(
    boxes: Seq<Result<MerkleBox, String>>,
    i: int,
    index: Map<ProofKey, usize>,
) -> Result<Map<ProofKey, usize>, Seq<char>>
    decreases boxes.len() - i,
{
    if i < 0 || i >= boxes.len() {
        Ok(index)
    } else {
        match boxes[i] {
            Err(why) => Err(why@),
            Ok(b) => if index.contains_key(box_key(b)) {
                Err("duplicate auxiliary C2PA merkle proof key"@)
            } else {
                index_from(boxes, i + 1, index.insert(box_key(b), i as usize))
            },
        }
    }
}

/// The index over a file's auxiliary Merkle boxes, or why it is refused.
pub open spec fn proof_index_of(boxes: Option<MerkleBoxes>) -> Result<
    Map<ProofKey, usize>,
    Seq<char>,
> {
    match boxes {
        None => Err("asset not parseable as BMFF"@),
        Some(b) => index_from(b@, 0, Map::empty()),
    }
}

/// Every position in the index holds a parsed box under its own key.
pub open spec fn index_wf(
    boxes: Seq<Result<MerkleBox, String>>,
    index: Map<ProofKey, usize>,
) -> bool {
    forall|k: ProofKey| #[trigger]
        index.contains_key(k) ==> index[k] < boxes.len() && (boxes[index[k] as int] matches Ok(b)
            && box_key(b) == k)
}

/// Index a file's auxiliary Merkle boxes by the leaf they belong to.
pub fn bmff_merkle_proof_index(boxes: &Option<MerkleBoxes>) -> (r: Result<
    BTreeMap<ProofKey, usize>,
    String,
>)
    ensures
        match r {
            Ok(m) => proof_index_of(*boxes) == Ok::<Map<ProofKey, usize>, Seq<char>>(m@)
                && boxes is Some && index_wf(boxes->0@, m@),
            Err(why) => proof_index_of(*boxes) == Err::<Map<ProofKey, usize>, Seq<char>>(why@),
        },
{
    proof {
        proof_keys_are_ordered();
    }
    let list = match boxes {
        Some(list) => list,
        None => {
            return Err("asset not parseable as BMFF".to_owned());
        },
    };
    let mut index: BTreeMap<ProofKey, usize> = BTreeMap::new();
    let mut i: usize = 0;
    while i < list.len()
        invariant
            i <= list.len(),
            *boxes == Some(*list),
            keys_ordered(),
            index_wf(list@, index@),
            index_from(list@, i as int, index@) == index_from(list@, 0, Map::empty()),
        decreases list.len() - i,
    {
        match &list[i] {
            Err(why) => {
                return Err(why.clone());
            },
            Ok(b) => {
                let key: ProofKey = ((b.unique_id, b.local_id), b.location);
                if index.insert(key, i).is_some() {
                    return Err("duplicate auxiliary C2PA merkle proof key".to_owned());
                }
            },
        }
        i += 1;
    }
    Ok(index)
}

// ---------------------------------------------------------------------------
// Monolithic plans
// ---------------------------------------------------------------------------

/// How a payload is cut into chunks.
pub enum BmffMonolithicPlanLayout<'a> {
    Fixed(usize),
    Variable(&'a [Value]),
    Whole,
}

/// One Merkle tree over an `mdat` payload.
pub struct BmffMonolithicPlan<'a> {
    pub alg: &'a str,
    pub count: usize,
    pub row_values: &'a [Value],
    pub local_id: usize,
    pub unique_id: i128,
    pub payload: &'a [u8],
    pub layout: BmffMonolithicPlanLayout<'a>,
}

pub enum Layout {
    Fixed(usize),
    Variable(Seq<Value>),
    Whole,
}

/// A plan as the contracts see it.
pub struct Plan {
    pub alg: Seq<char>,
    pub count: usize,
    pub row: Seq<Value>,
    pub local_id: usize,
    pub unique_id: i128,
    pub payload: Seq<u8>,
    pub layout: Layout,
}

pub open spec fn layout_view(l: BmffMonolithicPlanLayout) -> Layout {
    match l {
        BmffMonolithicPlanLayout::Fixed(n) => Layout::Fixed(n),
        BmffMonolithicPlanLayout::Variable(s) => Layout::Variable(s@),
        BmffMonolithicPlanLayout::Whole => Layout::Whole,
    }
}

impl<'a> View for BmffMonolithicPlan<'a> {
    type V = Plan;

    open spec fn view(&self) -> Plan {
        Plan {
            alg: self.alg@,
            count: self.count,
            row: self.row_values@,
            local_id: self.local_id,
            unique_id: self.unique_id,
            payload: self.payload@,
            layout: layout_view(self.layout),
        }
    }
}

impl Plan {
    /// Blocks of a fixed size are not empty.
    pub open spec fn wf(self) -> bool {
        self.layout matches Layout::Fixed(n) ==> n > 0
    }
}

pub open spec fn plan_views(s: Seq<BmffMonolithicPlan>) -> Seq<Plan> {
    s.map_values(|p: BmffMonolithicPlan| p@)
}

/// What an entry says of its tree before its payload is located.
pub struct Head {
    pub alg: Seq<char>,
    pub count: usize,
    pub row: Seq<Value>,
    pub local_id: usize,
    pub unique_id: i128,
}

pub open spec fn plan_head(entry: Value, assertion_alg: Seq<char>) -> Result<Head, Seq<char>> {
    match entry_algorithm(entry, assertion_alg) {
        None => Err("monolithic merkle alg is not a string"@),
        Some(alg) => match merkle_row(entry, alg) {
            Err(why) => Err(why),
            Ok(row) => if row.count > MAX_BMFF_MERKLE_LEAVES {
                Err("monolithic merkle leaf count exceeds the verifier bound"@)
            } else {
                match (entry.field("localId"@), entry.field("uniqueId"@)) {
                    (Some(Value::Integer(l)), Some(Value::Integer(u))) => if 0 <= l
                        <= usize::MAX {
                        Ok(
                            Head {
                                alg,
                                count: row.count,
                                row: row.hashes,
                                local_id: l as usize,
                                unique_id: u,
                            },
                        )
                    } else {
                        Err("monolithic merkle localId is not non-negative"@)
                    },
                    (Some(Value::Integer(_)), _) => Err(
                        "monolithic merkle entry missing uniqueId"@,
                    ),
                    _ => Err("monolithic merkle entry missing localId"@),
                }
            },
        },
    }
}

/// The total of the sizes from `i` on, added to `offset`, or why they do not
/// tile a payload of `len` bytes.
pub open spec fn tiling_from(sizes: Seq<Value>, i: int, offset: int, len: int) -> Result<
    int,
    Seq<char>,
>
    decreases sizes.len() - i,
{
    if i < 0 || i >= sizes.len() {
        Ok(offset)
    } else {
        match sizes[i] {
            Value::Integer(n) => if n < 0 || n > usize::MAX {
                Err("variableBlockSizes entry is not a non-negative integer"@)
            } else if offset + n > len {
                Err("variableBlockSizes do not tile the mdat payload"@)
            } else {
                tiling_from(sizes, i + 1, offset + n, len)
            },
            _ => Err("variableBlockSizes entry is not an integer"@),
        }
    }
}

pub open spec fn fixed_size(entry: Value) -> Result<Option<usize>, Seq<char>> {
    match entry.field("fixedBlockSize"@) {
        None => Ok(None),
        Some(Value::Integer(n)) => if 0 < n <= usize::MAX {
            Ok(Some(n as usize))
        } else {
            Err("fixedBlockSize is not positive"@)
        },
        Some(_) => Err("fixedBlockSize is not an integer"@),
    }
}

pub open spec fn variable_sizes(entry: Value) -> Result<Option<Seq<Value>>, Seq<char>> {
    match entry.field("variableBlockSizes"@) {
        None => Ok(None),
        Some(Value::Array(sizes)) => if sizes@.len() == 0 {
            Err("variableBlockSizes is empty"@)
        } else {
            Ok(Some(sizes@))
        },
        Some(_) => Err("variableBlockSizes is not an array"@),
    }
}

/// How many blocks of `size` bytes hold `len` bytes.
pub open spec fn blocks(len: nat, size: nat) -> nat {
    if len % size == 0 {
        len / size
    } else {
        len / size + 1
    }
}

/// The number of chunks and their layout over a payload of `len` bytes.
pub open spec fn plan_layout(entry: Value, count: usize, len: nat) -> Result<
    (nat, Layout),
    Seq<char>,
> {
    match (fixed_size(entry), variable_sizes(entry)) {
        (Err(why), _) => Err(why),
        (Ok(_), Err(why)) => Err(why),
        (Ok(Some(_)), Ok(Some(_))) => Err(
            "fixedBlockSize and variableBlockSizes are mutually exclusive"@,
        ),
        (Ok(Some(size)), Ok(None)) => Ok((blocks(len, size as nat), Layout::Fixed(size))),
        (Ok(None), Ok(Some(sizes))) => if sizes.len() != count {
            Err("variableBlockSizes count does not match the merkle count"@)
        } else {
            match tiling_from(sizes, 0, 0, len as int) {
                Err(why) => Err(why),
                Ok(total) => if total != len {
                    Err("variableBlockSizes do not tile the mdat payload"@)
                } else {
                    Ok((sizes.len(), Layout::Variable(sizes)))
                },
            }
        },
        (Ok(None), Ok(None)) => Ok((1, Layout::Whole)),
    }
}

/// One plan, with the totals of bytes and chunks after it.
pub open spec fn plan_entry(
    entry: Value,
    assertion_alg: Seq<char>,
    data: Seq<u8>,
    mdats: Seq<(usize, usize)>,
    seen: Seq<usize>,
    total_bytes: nat,
    total_chunks: nat,
) -> Result<(Plan, nat, nat), Seq<char>> {
    match plan_head(entry, assertion_alg) {
        Err(why) => Err(why),
        Ok(head) => if seen.contains(head.local_id) {
            Err(
                "duplicate monolithic merkle tree/localId/layout target for mdat "@
                    + text::decimal(head.local_id as nat),
            )
        } else if head.local_id >= mdats.len() {
            Err("no mdat with index "@ + text::decimal(head.local_id as nat))
        } else {
            let (start, len) = mdats[head.local_id as int];
            if start + len > usize::MAX || start + len > data.len() {
                Err("mdat payload lies outside the asset"@)
            } else {
                match plan_layout(entry, head.count, len as nat) {
                    Err(why) => Err(why),
                    Ok((chunks, layout)) => if chunks != head.count {
                        Err(
                            "count "@ + text::decimal(head.count as nat) + " does not match "@
                                + text::decimal(chunks) + " mdat chunk(s)"@,
                        )
                    } else if total_bytes + len > MAX_BMFF_MERKLE_TOTAL_HASH_BYTES {
                        Err(
                            "aggregate monolithic merkle payload bytes exceed the verifier bound"@,
                        )
                    } else if total_chunks + chunks > MAX_BMFF_MERKLE_TOTAL_CHUNKS {
                        Err("aggregate monolithic merkle chunks exceed the verifier bound"@)
                    } else {
                        Ok(
                            (
                                Plan {
                                    alg: head.alg,
                                    count: head.count,
                                    row: head.row,
                                    local_id: head.local_id,
                                    unique_id: head.unique_id,
                                    payload: data.subrange(start as int, start + len),
                                    layout,
                                },
                                (total_bytes + len) as nat,
                                total_chunks + chunks,
                            ),
                        )
                    },
                }
            }
        },
    }
}

/// The plans of the monolithic entries from `i` on.
pub open spec fn plans_from(
    entries: Seq<Value>,
    i: int,
    assertion_alg: Seq<char>,
    data: Seq<u8>,
    mdats: Seq<(usize, usize)>,
    seen: Seq<usize>,
    total_bytes: nat,
    total_chunks: nat,
) -> Result<Seq<Plan>, Seq<char>>
    decreases entries.len() - i,
{
    if i < 0 || i >= entries.len() {
        Ok(Seq::empty())
    } else if entries[i].field("initHash"@) is Some {
        plans_from(
            entries,
            i + 1,
            assertion_alg,
            data,
            mdats,
            seen,
            total_bytes,
            total_chunks,
        )
    } else {
        match plan_entry(
            entries[i],
            assertion_alg,
            data,
            mdats,
            seen,
            total_bytes,
            total_chunks,
        ) {
            Err(why) => Err(why),
            Ok((p, b, c)) => match plans_from(
                entries,
                i + 1,
                assertion_alg,
                data,
                mdats,
                seen.push(p.local_id),
                b,
                c,
            ) {
                Err(why) => Err(why),
                Ok(rest) => Ok(seq![p] + rest),
            },
        }
    }
}

/// Every entry describes a fragment tree.
pub open spec fn all_fragmented(entries: Seq<Value>) -> bool {
    forall|i: int| 0 <= i < entries.len() ==> (#[trigger] entries[i]).field("initHash"@) is Some
}

/// The plans of all monolithic entries, or why they are refused.
pub open spec fn monolithic_plans(
    entries: Seq<Value>,
    assertion_alg: Seq<char>,
    data: Seq<u8>,
    mdats: Option<Seq<(usize, usize)>>,
) -> Result<Seq<Plan>, Seq<char>> {
    if all_fragmented(entries) {
        Ok(Seq::empty())
    } else {
        match mdats {
            None => Err("asset not parseable as BMFF"@),
            Some(m) => plans_from(entries, 0, assertion_alg, data, m, Seq::empty(), 0, 0),
        }
    }
}

pub open spec fn spans_opt(m: Option<Vec<(usize, usize)>>) -> Option<Seq<(usize, usize)>> {
    match m {
        Some(v) => Some(v@),
        None => None,
    }
}

fn read_plan_head<'a>(entry: &'a Value, assertion_alg: &'a str) -> (r: Result<
    (&'a str, usize, &'a [Value], usize, i128),
    &'static str,
>)
    ensures
        match r {
            Ok((alg, count, row, local_id, unique_id)) => plan_head(*entry, assertion_alg@)
                == Ok::<Head, Seq<char>>(
                Head { alg: alg@, count, row: row@, local_id, unique_id },
            ),
            Err(why) => plan_head(*entry, assertion_alg@) == Err::<Head, Seq<char>>(why@),
        },
{
    let alg = match entry_alg(entry, assertion_alg) {
        Some(alg) => alg,
        None => {
            return Err("monolithic merkle alg is not a string");
        },
    };
    let (count, row, _) = match bmff_merkle_row(entry, alg) {
        Ok(row) => row,
        Err(why) => {
            return Err(why);
        },
    };
    if count > MAX_BMFF_MERKLE_LEAVES {
        return Err("monolithic merkle leaf count exceeds the verifier bound");
    }
    let local_id: usize = match entry.get("localId") {
        Some(Value::Integer(l)) => match usize::try_from(*l) {
            Ok(n) => n,
            Err(_) => {
                return Err("monolithic merkle localId is not non-negative");
            },
        },
        _ => {
            return Err("monolithic merkle entry missing localId");
        },
    };
    let unique_id: i128 = match entry.get("uniqueId") {
        Some(Value::Integer(u)) => *u,
        _ => {
            return Err("monolithic merkle entry missing uniqueId");
        },
    };
    Ok((alg, count, row, local_id, unique_id))
}

fn check_tiling(sizes: &[Value], len: usize) -> (r: Result<(), &'static str>)
    ensures
        match r {
            Ok(()) => tiling_from(sizes@, 0, 0, len as int) == Ok::<int, Seq<char>>(len as int),
            Err(why) => match tiling_from(sizes@, 0, 0, len as int) {
                Err(w) => w == why@,
                Ok(total) => total != len && why@
                    == "variableBlockSizes do not tile the mdat payload"@,
            },
        },
{
    let mut offset: usize = 0;
    let mut i: usize = 0;
    while i < sizes.len()
        invariant
            i <= sizes.len(),
            offset <= len,
            tiling_from(sizes@, i as int, offset as int, len as int) == tiling_from(
                sizes@,
                0,
                0,
                len as int,
            ),
        decreases sizes.len() - i,
    {
        match &sizes[i] {
            Value::Integer(n) => {
                let size: usize = match usize::try_from(*n) {
                    Ok(size) => size,
                    Err(_) => {
                        return Err("variableBlockSizes entry is not a non-negative integer");
                    },
                };
                if size > len - offset {
                    return Err("variableBlockSizes do not tile the mdat payload");
                }
                offset = offset + size;
            },
            _ => {
                return Err("variableBlockSizes entry is not an integer");
            },
        }
        i += 1;
    }
    if offset != len {
        return Err("variableBlockSizes do not tile the mdat payload");
    }
    Ok(())
}

fn read_layout<'a>(entry: &'a Value, count: usize, len: usize) -> (r: Result<
    (usize, BmffMonolithicPlanLayout<'a>),
    &'static str,
>)
    ensures
        match r {
            Ok((chunks, layout)) => plan_layout(*entry, count, len as nat) == Ok::<
                (nat, Layout),
                Seq<char>,
            >((chunks as nat, layout_view(layout))) && (layout_view(layout) matches Layout::Fixed(
                n,
            ) ==> n > 0),
            Err(why) => plan_layout(*entry, count, len as nat) == Err::<(nat, Layout), Seq<char>>(
                why@,
            ),
        },
{
    let fixed: Option<usize> = match entry.get("fixedBlockSize") {
        None => None,
        Some(Value::Integer(n)) => match usize::try_from(*n) {
            Ok(size) => {
                if size == 0 {
                    return Err("fixedBlockSize is not positive");
                }
                Some(size)
            },
            Err(_) => {
                return Err("fixedBlockSize is not positive");
            },
        },
        Some(_) => {
            return Err("fixedBlockSize is not an integer");
        },
    };
    let variable: Option<&'a [Value]> = match entry.get("variableBlockSizes") {
        None => None,
        Some(Value::Array(sizes)) => {
            if sizes.len() == 0 {
                return Err("variableBlockSizes is empty");
            }
            Some(sizes.as_slice())
        },
        Some(_) => {
            return Err("variableBlockSizes is not an array");
        },
    };
    match fixed {
        Some(size) => {
            if variable.is_some() {
                return Err("fixedBlockSize and variableBlockSizes are mutually exclusive");
            }
            let whole: usize = len / size;
            assert(len % size == 0 || whole < usize::MAX) by (nonlinear_arith)
                requires
                    size > 0,
                    whole == len / size,
                    len <= usize::MAX,
            {
                if size == 1 {
                    assert(len % size == 0);
                } else {
                    assert(len / size <= len / 2);
                }
            }
            let chunks: usize = if len % size == 0 {
                whole
            } else {
                whole + 1
            };
            Ok((chunks, BmffMonolithicPlanLayout::Fixed(size)))
        },
        None => match variable {
            Some(sizes) => {
                if sizes.len() != count {
                    return Err("variableBlockSizes count does not match the merkle count");
                }
                match check_tiling(sizes, len) {
                    Ok(()) => Ok((sizes.len(), BmffMonolithicPlanLayout::Variable(sizes))),
                    Err(why) => Err(why),
                }
            },
            None => Ok((1, BmffMonolithicPlanLayout::Whole)),
        },
    }
}

fn usize_among(list: &Vec<usize>, n: usize) -> (r: bool)
    ensures
        r == list@.contains(n),
{
    let mut i: usize = 0;
    while i < list.len()
        invariant
            i <= list.len(),
            forall|k: int| 0 <= k < i ==> list@[k] != n,
        decreases list.len() - i,
    {
        if list[i] == n {
            assert(list@[i as int] == n);
            return true;
        }
        i += 1;
    }
    false
}

/// `head` in front of the plans of an outcome.
pub open spec fn joined_plans(head: Seq<Plan>, rest: Result<Seq<Plan>, Seq<char>>) -> Result<
    Seq<Plan>,
    Seq<char>,
> {
    match rest {
        Ok(s) => Ok(head + s),
        Err(why) => Err(why),
    }
}

fn any_monolithic(entries: &[Value]) -> (r: bool)
    ensures
        r == !all_fragmented(entries@),
{
    let mut i: usize = 0;
    while i < entries.len()
        invariant
            i <= entries.len(),
            forall|k: int| 0 <= k < i ==> (#[trigger] entries@[k]).field("initHash"@) is Some,
        decreases entries.len() - i,
    {
        if entries[i].get("initHash").is_none() {
            assert(!(entries@[i as int].field("initHash"@) is Some));
            return true;
        }
        i += 1;
    }
    false
}

/// Parse and bound every monolithic Merkle entry before any payload is hashed.
///
/// A payload may be targeted by only one entry, so that hashing stays linear in
/// the selected payload bytes.
pub fn preflight_bmff_monolithic_entries<'a>(
    entries: &'a [Value],
    assertion_alg: &'a str,
    data: &'a [u8],
    mdats: &Option<Vec<(usize, usize)>>,
) -> (r: Result<Vec<BmffMonolithicPlan<'a>>, String>)
    ensures
        match r {
            Ok(v) => monolithic_plans(entries@, assertion_alg@, data@, spans_opt(*mdats)) == Ok::<
                Seq<Plan>,
                Seq<char>,
            >(plan_views(v@)) && forall|i: int|
                0 <= i < v@.len() ==> (#[trigger] v@[i])@.wf(),
            Err(why) => monolithic_plans(entries@, assertion_alg@, data@, spans_opt(*mdats))
                == Err::<Seq<Plan>, Seq<char>>(why@),
        },
{
    let mut out: Vec<BmffMonolithicPlan<'a>> = Vec::new();
    if !any_monolithic(entries) {
        assert(plan_views(out@) =~= Seq::<Plan>::empty());
        return Ok(out);
    }
    let spans = match mdats {
        Some(spans) => spans,
        None => {
            return Err("asset not parseable as BMFF".to_owned());
        },
    };
    let mut seen: Vec<usize> = Vec::new();
    let mut total_bytes: usize = 0;
    let mut total_chunks: usize = 0;
    let mut i: usize = 0;
    let ghost whole = monolithic_plans(entries@, assertion_alg@, data@, spans_opt(*mdats));
    assert(seen@ =~= Seq::<usize>::empty());
    assert(whole is Ok ==> plan_views(out@) + whole->Ok_0 =~= whole->Ok_0);
    while i < entries.len()
        invariant
            i <= entries.len(),
            *mdats == Some(*spans),
            whole == monolithic_plans(entries@, assertion_alg@, data@, spans_opt(*mdats)),
            forall|k: int| 0 <= k < out@.len() ==> (#[trigger] out@[k])@.wf(),
            joined_plans(
                plan_views(out@),
                plans_from(
                    entries@,
                    i as int,
                    assertion_alg@,
                    data@,
                    spans@,
                    seen@,
                    total_bytes as nat,
                    total_chunks as nat,
                ),
            ) == whole,
        decreases entries.len() - i,
    {
        let entry = &entries[i];
        if entry.get("initHash").is_some() {
            i += 1;
            continue ;
        }
        let (alg, count, row_values, local_id, unique_id) = match read_plan_head(
            entry,
            assertion_alg,
        ) {
            Ok(h) => h,
            Err(why) => {
                return Err(why.to_owned());
            },
        };
        if usize_among(&seen, local_id) {
            let n = decimal_string(local_id as u64);
            return Err(
                join2(
                    "duplicate monolithic merkle tree/localId/layout target for mdat ",
                    n.as_str(),
                ),
            );
        }
        if local_id >= spans.len() {
            let n = decimal_string(local_id as u64);
            return Err(join2("no mdat with index ", n.as_str()));
        }
        let (start, len) = spans[local_id];
        let end = match start.checked_add(len) {
            Some(end) => end,
            None => {
                return Err("mdat payload lies outside the asset".to_owned());
            },
        };
        if end > data.len() {
            return Err("mdat payload lies outside the asset".to_owned());
        }
        let (chunks, layout) = match read_layout(entry, count, len) {
            Ok(l) => l,
            Err(why) => {
                return Err(why.to_owned());
            },
        };
        if chunks != count {
            let a = decimal_string(count as u64);
            let b = decimal_string(chunks as u64);
            return Err(
                join5("count ", a.as_str(), " does not match ", b.as_str(), " mdat chunk(s)"),
            );
        }
        let ghost b0 = total_bytes as nat;
        let ghost c0 = total_chunks as nat;
        let ghost seen0 = seen@;
        match checked_bmff_merkle_work(&mut total_bytes, &mut total_chunks, len, chunks) {
            Ok(()) => {},
            Err(why) => {
                return Err(why.to_owned());
            },
        }
        let plan = BmffMonolithicPlan {
            alg,
            count,
            row_values,
            local_id,
            unique_id,
            payload: &data[start..end],
            layout,
        };
        let ghost pv = plan@;
        let ghost before = out@;
        seen.push(local_id);
        out.push(plan);
        proof {
            assert(plan_entry(
                entries@[i as int],
                assertion_alg@,
                data@,
                spans@,
                seen0,
                b0,
                c0,
            ) == Ok::<(Plan, nat, nat), Seq<char>>(
                (pv, total_bytes as nat, total_chunks as nat),
            ));
            let rest = plans_from(
                entries@,
                i + 1,
                assertion_alg@,
                data@,
                spans@,
                seen@,
                total_bytes as nat,
                total_chunks as nat,
            );
            assert(plan_views(out@) =~= plan_views(before).push(pv));
            assert(rest is Ok ==> plan_views(out@) + rest->Ok_0 =~= plan_views(before) + (seq![pv]
                + rest->Ok_0));
        }
        i += 1;
    }
    assert(plan_views(out@) + Seq::<Plan>::empty() =~= plan_views(out@));
    Ok(out)
}

// ---------------------------------------------------------------------------
// Monolithic trees
// ---------------------------------------------------------------------------

/// The end of the next chunk behind `offset`: nothing where the chunks are
/// used up, else the end or why there is none.
pub open spec fn next_chunk(payload: Seq<u8>, layout: Layout, index: int, offset: int) -> Option<
    Result<int, Seq<char>>,
> {
    match layout {
        Layout::Fixed(size) => if offset >= payload.len() {
            None
        } else {
            Some(Ok(hash::least(offset + size, payload.len() as int)))
        },
        Layout::Variable(sizes) => if index >= sizes.len() {
            None
        } else {
            match sizes[index] {
                Value::Integer(n) => if n < 0 || n > usize::MAX {
                    Some(Err("variableBlockSizes entry is not a non-negative integer"@))
                } else if offset + n > usize::MAX {
                    Some(Err("variableBlockSizes total overflows"@))
                } else if offset + n > payload.len() {
                    Some(Err("variableBlockSizes do not tile the mdat payload"@))
                } else {
                    Some(Ok(offset + n))
                },
                _ => Some(Err("variableBlockSizes entry is not an integer"@)),
            }
        },
        Layout::Whole => if index > 0 {
            None
        } else {
            Some(Ok(payload.len() as int))
        },
    }
}

/// How many steps a walk over the chunks can still take.
pub open spec fn chunks_left(payload: Seq<u8>, layout: Layout, index: int, offset: int) -> int {
    match layout {
        Layout::Fixed(_) => payload.len() - offset,
        Layout::Variable(sizes) => sizes.len() - index,
        Layout::Whole => 1 - index,
    }
}

/// The chunks from `offset` on, in order, up to the first that there is none of.
pub open spec fn chunks_from(
    payload: Seq<u8>,
    layout: Layout,
    index: int,
    offset: int,
) -> Seq<Result<Seq<u8>, Seq<char>>>
    decreases chunks_left(payload, layout, index, offset),
{
    if offset < 0 || offset > payload.len() || layout == Layout::Fixed(0) {
        Seq::empty()
    } else {
        match next_chunk(payload, layout, index, offset) {
            None => Seq::empty(),
            Some(Err(why)) => seq![Err(why)],
            Some(Ok(end)) => seq![Ok::<Seq<u8>, Seq<char>>(payload.subrange(offset, end))]
                + chunks_from(payload, layout, index + 1, end),
        }
    }
}

/// The end of the next chunk of a payload.
fn chunk_end(
    payload: &[u8],
    layout: &BmffMonolithicPlanLayout,
    index: usize,
    offset: usize,
) -> (r: Option<Result<usize, &'static str>>)
    requires
        offset <= payload@.len(),
    ensures
        match r {
            None => next_chunk(payload@, layout_view(*layout), index as int, offset as int) is None,
            Some(Ok(end)) => next_chunk(payload@, layout_view(*layout), index as int, offset as int)
                == Some(Ok::<int, Seq<char>>(end as int)) && offset <= end <= payload@.len(),
            Some(Err(why)) => next_chunk(payload@, layout_view(*layout), index as int, offset as int)
                == Some(Err::<int, Seq<char>>(why@)),
        },
        r is Some ==> if *layout is Fixed {
            offset < usize::MAX
        } else {
            index < usize::MAX
        },
{
    let len = payload.len();
    match layout {
        BmffMonolithicPlanLayout::Fixed(size) => {
            if offset >= len {
                None
            } else if *size >= len - offset {
                Some(Ok(len))
            } else {
                Some(Ok(offset + *size))
            }
        },
        BmffMonolithicPlanLayout::Variable(sizes) => {
            if index >= sizes.len() {
                return None;
            }
            match &sizes[index] {
                Value::Integer(n) => {
                    let size: usize = match usize::try_from(*n) {
                        Ok(size) => size,
                        Err(_) => {
                            return Some(
                                Err("variableBlockSizes entry is not a non-negative integer"),
                            );
                        },
                    };
                    match offset.checked_add(size) {
                        None => Some(Err("variableBlockSizes total overflows")),
                        Some(end) => if end > len {
                            Some(Err("variableBlockSizes do not tile the mdat payload"))
                        } else {
                            Some(Ok(end))
                        },
                    }
                },
                _ => Some(Err("variableBlockSizes entry is not an integer")),
            }
        },
        BmffMonolithicPlanLayout::Whole => {
            if index > 0 {
                None
            } else {
                Some(Ok(len))
            }
        },
    }
}

/// A cursor over the chunks of a payload. It keeps no more than its place, so
/// that memory does not grow with the number of chunks.
pub struct BmffChunkIter<'a> {
    pub payload: &'a [u8],
    pub layout: BmffMonolithicPlanLayout<'a>,
    /// How many chunks were handed out.
    pub index: usize,
    /// Where the next chunk begins.
    pub offset: usize,
}

/// A chunk that was handed out, as the contracts see it.
pub open spec fn chunk_view(r: Result<&[u8], &'static str>) -> Result<Seq<u8>, Seq<char>> {
    match r {
        Ok(chunk) => Ok(chunk@),
        Err(why) => Err(why@),
    }
}

impl<'a> BmffChunkIter<'a> {
    /// The place lies inside the payload and its chunks.
    pub open spec fn wf(self) -> bool {
        &&& self.offset <= self.payload@.len()
        &&& match self.layout {
            BmffMonolithicPlanLayout::Fixed(size) => size > 0 && self.index <= self.offset,
            BmffMonolithicPlanLayout::Variable(sizes) => self.index <= sizes@.len(),
            BmffMonolithicPlanLayout::Whole => self.index <= 1,
        }
    }

    /// The chunks that are still to come.
    pub open spec fn remaining(self) -> Seq<Result<Seq<u8>, Seq<char>>> {
        chunks_from(
            self.payload@,
            layout_view(self.layout),
            self.index as int,
            self.offset as int,
        )
    }

    /// A cursor in front of the first chunk of a plan.
    pub fn new(plan: &BmffMonolithicPlan<'a>) -> (r: BmffChunkIter<'a>)
        requires
            plan@.wf(),
        ensures
            r.wf(),
            r.payload@ == plan@.payload,
            layout_view(r.layout) == plan@.layout,
            r.index == 0,
            r.offset == 0,
    {
        let layout = match &plan.layout {
            BmffMonolithicPlanLayout::Fixed(size) => BmffMonolithicPlanLayout::Fixed(*size),
            BmffMonolithicPlanLayout::Variable(sizes) => BmffMonolithicPlanLayout::Variable(sizes),
            BmffMonolithicPlanLayout::Whole => BmffMonolithicPlanLayout::Whole,
        };
        BmffChunkIter { payload: plan.payload, layout, index: 0, offset: 0 }
    }

    /// Hand out the next chunk: nothing where the chunks are used up.
    pub fn next(&mut self) -> (r: Option<Result<&'a [u8], &'static str>>)
        requires
            old(self).wf(),
        ensures
            final(self).wf(),
            final(self).payload == old(self).payload,
            final(self).layout == old(self).layout,
            match next_chunk(
                old(self).payload@,
                layout_view(old(self).layout),
                old(self).index as int,
                old(self).offset as int,
            ) {
                None => r is None && *final(self) == *old(self),
                Some(Err(why)) => r is Some && chunk_view(r->0) == Err::<Seq<u8>, Seq<char>>(why)
                    && final(self).index == old(self).index + 1 && final(self).offset == old(
                    self,
                ).offset,
                Some(Ok(end)) => r is Some && chunk_view(r->0) == Ok::<Seq<u8>, Seq<char>>(
                    old(self).payload@.subrange(old(self).offset as int, end),
                ) && final(self).index == old(self).index + 1 && final(self).offset == end,
            },
            match r {
                None => old(self).remaining().len() == 0,
                Some(item) => old(self).remaining().len() > 0 && chunk_view(item) == old(
                    self,
                ).remaining()[0] && (item is Ok ==> final(self).remaining() == old(
                    self,
                ).remaining().drop_first()),
            },
    {
        match chunk_end(self.payload, &self.layout, self.index, self.offset) {
            None => None,
            Some(Err(why)) => {
                self.index += 1;
                Some(Err(why))
            },
            Some(Ok(end)) => {
                let chunk = vstd::slice::slice_subrange(self.payload, self.offset, end);
                self.index += 1;
                self.offset = end;
                assert(old(self).remaining().drop_first() =~= self.remaining());
                Some(Ok(chunk))
            },
        }
    }
}

/// A defect of a binding: whether it is structural, and what is wrong.
pub struct Defect {
    pub malformed: bool,
    pub why: Seq<char>,
}

/// `mdat <local_id> chunk <index>: <what>`
pub open spec fn chunk_text(local_id: usize, index: nat, what: Seq<char>) -> Seq<char> {
    "mdat "@ + text::decimal(local_id as nat) + " chunk "@ + text::decimal(index) + what
}

/// Some proof hash has the wrong width.
pub open spec fn odd_width(proof_hashes: Seq<Vec<u8>>, len: usize) -> bool {
    exists|i: int| 0 <= i < proof_hashes.len() && (#[trigger] proof_hashes[i])@.len() != len
}

/// The stored hash at `i` is `h`.
pub open spec fn stored_at(row: Seq<Value>, i: nat, h: Seq<u8>) -> bool {
    i < row.len() && value::bytes_of(Some(row[i as int])) == Some(h)
}

/// What is wrong with one chunk of a tree.
pub open spec fn chunk_defect(
    p: Plan,
    boxes: Seq<Result<MerkleBox, String>>,
    index: Option<Map<ProofKey, usize>>,
    i: nat,
    chunk: Seq<u8>,
) -> Option<Defect> {
    match hash::named_digest(p.alg, chunk) {
        None => Some(
            Defect { malformed: true, why: "unsupported hash algorithm '"@ + p.alg + "'"@ },
        ),
        Some(leaf) => if p.count == p.row.len() {
            if stored_at(p.row, i, leaf) {
                None
            } else {
                Some(
                    Defect {
                        malformed: false,
                        why: chunk_text(p.local_id, i, ": merkle leaf hash mismatch"@),
                    },
                )
            }
        } else {
            match index {
                None => Some(
                    Defect {
                        malformed: true,
                        why: "auxiliary C2PA merkle proof index missing"@,
                    },
                ),
                Some(m) => {
                    let key = ((p.unique_id, p.local_id as i128), i as usize);
                    if !m.contains_key(key) {
                        Some(
                            Defect {
                                malformed: true,
                                why: chunk_text(
                                    p.local_id,
                                    i,
                                    ": auxiliary C2PA merkle box missing"@,
                                ),
                            },
                        )
                    } else {
                        let b = boxes[m[key] as int]->Ok_0;
                        if odd_width(b.proof@, named_len(p.alg)->0) {
                            Some(
                                Defect {
                                    malformed: true,
                                    why: chunk_text(
                                        p.local_id,
                                        i,
                                        ": merkle proof has the wrong digest width"@,
                                    ),
                                },
                            )
                        } else {
                            match merkle::derived(
                                leaf,
                                i as usize,
                                p.count,
                                merkle::proof_views(b.proof@),
                                p.row.len() as usize,
                                p.alg,
                            ) {
                                None => Some(
                                    Defect {
                                        malformed: true,
                                        why: chunk_text(
                                            p.local_id,
                                            i,
                                            ": merkle proof inconsistent"@,
                                        ),
                                    },
                                ),
                                Some((at, h)) => if stored_at(p.row, at, h) {
                                    None
                                } else {
                                    Some(
                                        Defect {
                                            malformed: false,
                                            why: chunk_text(
                                                p.local_id,
                                                i,
                                                ": merkle leaf does not derive the stored row hash"@,
                                            ),
                                        },
                                    )
                                },
                            }
                        }
                    }
                },
            }
        },
    }
}

/// The first defect of a tree at or behind chunk `i`, which begins at `offset`.
pub open spec fn tree_defect(
    p: Plan,
    boxes: Seq<Result<MerkleBox, String>>,
    index: Option<Map<ProofKey, usize>>,
    i: nat,
    offset: nat,
) -> Option<Defect>
    decreases chunks_left(p.payload, p.layout, i as int, offset as int),
        when p.wf()
{
    match next_chunk(p.payload, p.layout, i as int, offset as int) {
        None => if i != p.count {
            Some(
                Defect {
                    malformed: true,
                    why: "count "@ + text::decimal(p.count as nat) + " does not match "@
                        + text::decimal(i) + " streamed mdat chunk(s)"@,
                },
            )
        } else {
            None
        },
        Some(Err(why)) => Some(Defect { malformed: true, why }),
        Some(Ok(end)) => match chunk_defect(
            p,
            boxes,
            index,
            i,
            p.payload.subrange(offset as int, end),
        ) {
            Some(d) => Some(d),
            None => tree_defect(p, boxes, index, i + 1, end as nat),
        },
    }
}

/// What is wrong with a monolithic tree.
pub open spec fn monolithic_defect(
    p: Plan,
    boxes: Seq<Result<MerkleBox, String>>,
    index: Option<Map<ProofKey, usize>>,
) -> Option<Defect> {
    if named_len(p.alg) is None {
        Some(Defect { malformed: true, why: "unsupported hash algorithm '"@ + p.alg + "'"@ })
    } else {
        tree_defect(p, boxes, index, 0, 0)
    }
}

/// The results with a BMFF defect recorded, where there is one.
pub open spec fn after_defect(d: Option<Defect>, url: Seq<char>, r: Results) -> Results {
    match d {
        Some(x) => r.fail(
            if x.malformed {
                ASSERTION_BMFF_HASH_MALFORMED@
            } else {
                ASSERTION_BMFF_HASH_MISMATCH@
            },
            url,
            x.why,
        ),
        None => r,
    }
}

pub open spec fn defect_view(d: Option<(bool, String)>) -> Option<Defect> {
    match d {
        Some((malformed, why)) => Some(Defect { malformed, why: why@ }),
        None => None,
    }
}

fn chunk_message(local_id: usize, index: usize, what: &str) -> (r: String)
    ensures
        r@ == chunk_text(local_id, index as nat, what@),
{
    let a = decimal_string(local_id as u64);
    let b = decimal_string(index as u64);
    join5("mdat ", a.as_str(), " chunk ", b.as_str(), what)
}

pub fn has_odd_width(proof_hashes: &[Vec<u8>], len: usize) -> (r: bool)
    ensures
        r == odd_width(proof_hashes@, len),
{
    let mut i: usize = 0;
    while i < proof_hashes.len()
        invariant
            i <= proof_hashes.len(),
            forall|k: int| 0 <= k < i ==> (#[trigger] proof_hashes@[k])@.len() == len,
        decreases proof_hashes.len() - i,
    {
        if proof_hashes[i].len() != len {
            assert(proof_hashes@[i as int]@.len() != len);
            return true;
        }
        i += 1;
    }
    false
}

pub fn is_stored_at(row: &[Value], i: usize, h: &[u8]) -> (r: bool)
    ensures
        r == stored_at(row@, i as nat, h@),
{
    if i >= row.len() {
        return false;
    }
    match row[i].as_bytes() {
        Some(b) => bytes_eq(b, h),
        None => false,
    }
}

fn find_chunk_defect(
    plan: &BmffMonolithicPlan,
    digest_len: usize,
    boxes: &[Result<MerkleBox, String>],
    proof_index: Option<&BTreeMap<ProofKey, usize>>,
    index: usize,
    chunk: &[u8],
) -> (r: Option<(bool, String)>)
    requires
        named_len(plan.alg@) == Some(digest_len),
        proof_index matches Some(m) ==> index_wf(boxes@, m@),
    ensures
        defect_view(r) == chunk_defect(
            plan@,
            boxes@,
            match proof_index {
                Some(m) => Some(m@),
                None => None,
            },
            index as nat,
            chunk@,
        ),
{
    proof {
        proof_keys_are_ordered();
    }
    let leaf = match hash_bytes(plan.alg, chunk) {
        Some(leaf) => leaf,
        None => {
            return Some((true, join3("unsupported hash algorithm '", plan.alg, "'")));
        },
    };
    if plan.count == plan.row_values.len() {
        if is_stored_at(plan.row_values, index, leaf.as_slice()) {
            return None;
        }
        return Some((false, chunk_message(plan.local_id, index, ": merkle leaf hash mismatch")));
    }
    let map = match proof_index {
        Some(m) => m,
        None => {
            return Some((true, "auxiliary C2PA merkle proof index missing".to_owned()));
        },
    };
    let key: ProofKey = ((plan.unique_id, plan.local_id as i128), index);
    let at: usize = match map.get(&key) {
        Some(at) => *at,
        None => {
            return Some(
                (
                    true,
                    chunk_message(plan.local_id, index, ": auxiliary C2PA merkle box missing"),
                ),
            );
        },
    };
    assert(map@.contains_key(key) && map@[key] == at);
    let b = match &boxes[at] {
        Ok(b) => b,
        Err(_) => {
            return None;
        },
    };
    if has_odd_width(b.proof.as_slice(), digest_len) {
        return Some(
            (
                true,
                chunk_message(plan.local_id, index, ": merkle proof has the wrong digest width"),
            ),
        );
    }
    match merkle_climb(
        leaf,
        index,
        plan.count,
        b.proof.as_slice(),
        plan.row_values.len(),
        plan.alg,
    ) {
        Some((row_index, h)) => {
            if is_stored_at(plan.row_values, row_index, h.as_slice()) {
                None
            } else {
                Some(
                    (
                        false,
                        chunk_message(
                            plan.local_id,
                            index,
                            ": merkle leaf does not derive the stored row hash",
                        ),
                    ),
                )
            }
        },
        None => Some((true, chunk_message(plan.local_id, index, ": merkle proof inconsistent"))),
    }
}

fn find_monolithic_defect(
    plan: &BmffMonolithicPlan,
    boxes: &[Result<MerkleBox, String>],
    proof_index: Option<&BTreeMap<ProofKey, usize>>,
) -> (r: Option<(bool, String)>)
    requires
        plan@.wf(),
        proof_index matches Some(m) ==> index_wf(boxes@, m@),
    ensures
        defect_view(r) == monolithic_defect(
            plan@,
            boxes@,
            match proof_index {
                Some(m) => Some(m@),
                None => None,
            },
        ),
{
    let digest_len = match bmff_digest_len(plan.alg) {
        Some(len) => len,
        None => {
            return Some((true, join3("unsupported hash algorithm '", plan.alg, "'")));
        },
    };
    let ghost gi = match proof_index {
        Some(m) => Some(m@),
        None => None,
    };
    let mut chunks = BmffChunkIter::new(plan);
    loop
        invariant
            plan@.wf(),
            proof_index matches Some(m) ==> index_wf(boxes@, m@),
            gi == (match proof_index {
                Some(m) => Some(m@),
                None => None,
            }),
            named_len(plan.alg@) == Some(digest_len),
            chunks.wf(),
            chunks.payload@ == plan@.payload,
            layout_view(chunks.layout) == plan@.layout,
            tree_defect(plan@, boxes@, gi, chunks.index as nat, chunks.offset as nat)
                == monolithic_defect(plan@, boxes@, gi),
        decreases
                chunks_left(
                    plan@.payload,
                    plan@.layout,
                    chunks.index as int,
                    chunks.offset as int,
                ),
    {
        let index = chunks.index;
        let chunk = match chunks.next() {
            None => {
                if index != plan.count {
                    let a = decimal_string(plan.count as u64);
                    let b = decimal_string(index as u64);
                    return Some(
                        (
                            true,
                            join5(
                                "count ",
                                a.as_str(),
                                " does not match ",
                                b.as_str(),
                                " streamed mdat chunk(s)",
                            ),
                        ),
                    );
                }
                return None;
            },
            Some(Err(why)) => {
                return Some((true, why.to_owned()));
            },
            Some(Ok(chunk)) => chunk,
        };
        let found = find_chunk_defect(plan, digest_len, boxes, proof_index, index, chunk);
        if found.is_some() {
            return found;
        }
    }
}

/// Validate one monolithic Merkle tree.
///
/// Where the assertion stores the leaf row, leaves are compared with it; where
/// it stores a higher row, each leaf's auxiliary proof is climbed to that row.
pub fn verify_bmff_monolithic_entry(
    plan: &BmffMonolithicPlan,
    boxes: &[Result<MerkleBox, String>],
    proof_index: Option<&BTreeMap<ProofKey, usize>>,
    url: &str,
    results: &mut ValidationResults,
) -> (ok: bool)
    requires
        plan@.wf(),
        proof_index matches Some(m) ==> index_wf(boxes@, m@),
    ensures
        ({
            let d = monolithic_defect(
                plan@,
                boxes@,
                match proof_index {
                    Some(m) => Some(m@),
                    None => None,
                },
            );
            &&& ok == (d is None)
            &&& final(results)@ == after_defect(d, url@, old(results)@)
        }),
{
    match find_monolithic_defect(plan, boxes, proof_index) {
        Some((malformed, why)) => {
            results.push_failure(
                if malformed {
                    ASSERTION_BMFF_HASH_MALFORMED
                } else {
                    ASSERTION_BMFF_HASH_MISMATCH
                },
                url.to_owned(),
                why,
            );
            false
        },
        None => true,
    }
}

// ---------------------------------------------------------------------------
// Laws
// ---------------------------------------------------------------------------

/// Where chunk `k` of a plan begins.
pub open spec fn chunk_start(p: Plan, k: nat) -> int
    decreases k,
{
    if k == 0 {
        0
    } else {
        match next_chunk(p.payload, p.layout, k - 1, chunk_start(p, (k - 1) as nat)) {
            Some(Ok(end)) => end,
            _ => chunk_start(p, (k - 1) as nat),
        }
    }
}

proof fn lemma_chunks_bound(
    p: Plan,
    boxes: Seq<Result<MerkleBox, String>>,
    index: Option<Map<ProofKey, usize>>,
    k: nat,
)
    requires
        p.wf(),
        tree_defect(p, boxes, index, 0, 0) is None,
        k <= p.count,
    ensures
        0 <= chunk_start(p, k),
        tree_defect(p, boxes, index, k, chunk_start(p, k) as nat) is None,
        forall|i: nat|
            #![trigger chunk_start(p, i)]
            i < k ==> chunk_defect(
                p,
                boxes,
                index,
                i,
                p.payload.subrange(chunk_start(p, i), chunk_start(p, i + 1)),
            ) is None,
    decreases k,
{
    if k > 0 {
        let j = (k - 1) as nat;
        lemma_chunks_bound(p, boxes, index, j);
        let next = next_chunk(p.payload, p.layout, j as int, chunk_start(p, j));
        assert(next is Some && next->0 is Ok);
        assert(0 <= next->0->Ok_0);
    }
}

/// Every chunk of an accepted monolithic tree was held to the stored row, and
/// no chunk is left over.
pub proof fn accepted_trees_bind_every_chunk(
    p: Plan,
    boxes: Seq<Result<MerkleBox, String>>,
    index: Option<Map<ProofKey, usize>>,
)
    requires
        p.wf(),
        monolithic_defect(p, boxes, index) is None,
    ensures
        forall|i: nat|
            #![trigger chunk_start(p, i)]
            i < p.count ==> chunk_defect(
                p,
                boxes,
                index,
                i,
                p.payload.subrange(chunk_start(p, i), chunk_start(p, i + 1)),
            ) is None,
        next_chunk(p.payload, p.layout, p.count as int, chunk_start(p, p.count as nat)) is None,
{
    lemma_chunks_bound(p, boxes, index, p.count as nat);
    let at = chunk_start(p, p.count as nat);
    if next_chunk(p.payload, p.layout, p.count as int, at) is Some {
        lemma_no_more_chunks(p, boxes, index, p.count as nat, at as nat);
    }
}

/// A tree with a chunk behind its count has a defect.
proof fn lemma_no_more_chunks(
    p: Plan,
    boxes: Seq<Result<MerkleBox, String>>,
    index: Option<Map<ProofKey, usize>>,
    i: nat,
    offset: nat,
)
    requires
        p.wf(),
        i >= p.count,
        i > p.count || next_chunk(p.payload, p.layout, i as int, offset as int) is Some,
    ensures
        tree_defect(p, boxes, index, i, offset) is Some,
    decreases chunks_left(p.payload, p.layout, i as int, offset as int),
{
    match next_chunk(p.payload, p.layout, i as int, offset as int) {
        Some(Ok(end)) => {
            if chunk_defect(p, boxes, index, i, p.payload.subrange(offset as int, end)) is None {
                lemma_no_more_chunks(p, boxes, index, i + 1, end as nat);
            }
        },
        _ => {},
    }
}

/// The bytes of the chunks, one behind the other.
pub open spec fn concatenated(chunks: Seq<Result<Seq<u8>, Seq<char>>>) -> Seq<u8>
    decreases chunks.len(),
{
    if chunks.len() == 0 {
        Seq::empty()
    } else {
        chunks[0]->Ok_0 + concatenated(chunks.drop_first())
    }
}

proof fn lemma_fixed_chunks(payload: Seq<u8>, size: usize, index: int, offset: int)
    requires
        size > 0,
        0 <= offset <= payload.len(),
    ensures
        ({
            let chunks = chunks_from(payload, Layout::Fixed(size), index, offset);
            let left = payload.len() - offset;
            &&& chunks.len() == (left + size - 1) / size as int
            &&& forall|i: int| 0 <= i < chunks.len() ==> (#[trigger] chunks[i]) is Ok
            &&& forall|i: int|
                0 <= i < chunks.len() - 1 ==> (#[trigger] chunks[i])->Ok_0.len() == size
            &&& chunks.len() > 0 ==> 1 <= chunks.last()->Ok_0.len() <= size
            &&& concatenated(chunks) == payload.subrange(offset, payload.len() as int)
        }),
    decreases payload.len() - offset,
{
    let chunks = chunks_from(payload, Layout::Fixed(size), index, offset);
    let left = payload.len() - offset;
    let d = size as int;
    if offset == payload.len() {
        assert((d - 1) / d == 0) by (nonlinear_arith)
            requires
                d > 0,
        ;
        assert(payload.subrange(offset, payload.len() as int) =~= Seq::empty());
    } else {
        let end = hash::least(offset + size, payload.len() as int);
        lemma_fixed_chunks(payload, size, index + 1, end);
        let rest = chunks_from(payload, Layout::Fixed(size), index + 1, end);
        let first: Result<Seq<u8>, Seq<char>> = Ok(payload.subrange(offset, end));
        assert(chunks == seq![first] + rest);
        assert(chunks.drop_first() =~= rest);
        assert(payload.subrange(offset, payload.len() as int) =~= payload.subrange(offset, end)
            + payload.subrange(end, payload.len() as int));
        if left <= size {
            assert((left + d - 1) / d == 1) by (nonlinear_arith)
                requires
                    0 < left <= d,
            ;
            assert((d - 1) / d == 0) by (nonlinear_arith)
                requires
                    d > 0,
            ;
            assert(rest.len() == 0);
        } else {
            assert((left + d - 1) / d == (left - d + d - 1) / d + 1) by (nonlinear_arith)
                requires
                    d > 0,
            ;
            assert((left - d + d - 1) / d >= 1) by (nonlinear_arith)
                requires
                    0 < d < left,
            ;
            assert(chunks.last() == rest.last());
        }
        assert forall|i: int| 0 <= i < chunks.len() - 1 implies (#[trigger] chunks[i])->Ok_0.len()
            == size by {
            if i > 0 {
                assert(chunks[i] == rest[i - 1]);
            }
        }
        assert forall|i: int| 0 <= i < chunks.len() implies (#[trigger] chunks[i]) is Ok by {
            if i > 0 {
                assert(chunks[i] == rest[i - 1]);
            }
        }
    }
}

/// Fixed-size chunks, as a fresh cursor hands them out, tile the payload: they
/// concatenate to it, they number its length over the size, rounded up, each but
/// the last has the full size, and the last is not empty.
pub proof fn fixed_chunks_tile_the_payload(payload: Seq<u8>, size: usize)
    requires
        size > 0,
    ensures
        ({
            let chunks = chunks_from(payload, Layout::Fixed(size), 0, 0);
            &&& forall|i: int| 0 <= i < chunks.len() ==> (#[trigger] chunks[i]) is Ok
            &&& chunks.len() == (payload.len() + size - 1) / size as int
            &&& concatenated(chunks) == payload
            &&& forall|i: int|
                0 <= i < chunks.len() - 1 ==> (#[trigger] chunks[i])->Ok_0.len() == size
            &&& chunks.len() > 0 ==> 1 <= chunks.last()->Ok_0.len() <= size
        }),
{
    lemma_fixed_chunks(payload, size, 0, 0);
    assert(payload.subrange(0, payload.len() as int) =~= payload);
}

/// The block `i` of `size` bytes of a payload; the last one may be shorter.
pub open spec fn block(payload: Seq<u8>, size: int, i: int) -> Seq<u8> {
    payload.subrange(
        i * size,
        if (i + 1) * size <= payload.len() {
            (i + 1) * size
        } else {
            payload.len() as int
        },
    )
}

proof fn lemma_fixed_blocks(payload: Seq<u8>, size: usize, index: int, k: int)
    requires
        size > 0,
        0 <= k,
        k * size <= payload.len(),
    ensures
        ({
            let chunks = chunks_from(payload, Layout::Fixed(size), index, k * size);
            forall|i: int|
                0 <= i < chunks.len() ==> (#[trigger] chunks[i]) == Ok::<Seq<u8>, Seq<char>>(
                    block(payload, size as int, k + i),
                )
        }),
    decreases payload.len() - k * size,
{
    let d = size as int;
    let at = k * d;
    let chunks = chunks_from(payload, Layout::Fixed(size), index, at);
    assert((k + 1) * d == at + d) by (nonlinear_arith)
        requires
            at == k * d,
    ;
    assert(at >= 0) by (nonlinear_arith)
        requires
            at == k * d,
            k >= 0,
            d > 0,
    ;
    if at < payload.len() {
        let end = hash::least(at + d, payload.len() as int);
        let rest = chunks_from(payload, Layout::Fixed(size), index + 1, end);
        assert(chunks == seq![Ok::<Seq<u8>, Seq<char>>(payload.subrange(at, end))] + rest);
        assert(payload.subrange(at, end) == block(payload, d, k));
        if at + d <= payload.len() {
            lemma_fixed_blocks(payload, size, index + 1, k + 1);
            assert forall|i: int| 0 <= i < chunks.len() implies (#[trigger] chunks[i]) == Ok::<
                Seq<u8>,
                Seq<char>,
            >(block(payload, d, k + i)) by {
                if i > 0 {
                    assert(chunks[i] == rest[i - 1]);
                    assert(k + 1 + (i - 1) == k + i);
                }
            }
        } else {
            assert(rest.len() == 0);
        }
    }
}

/// A tree that stores its leaf row is accepted exactly where the walk hands out
/// as many chunks as the row has places and each place holds the digest of the
/// chunk it belongs to.
proof fn lemma_leaf_row(
    p: Plan,
    boxes: Seq<Result<MerkleBox, String>>,
    index: Option<Map<ProofKey, usize>>,
    i: nat,
    offset: nat,
)
    requires
        p.wf(),
        p.count == p.row.len(),
        offset <= p.payload.len(),
    ensures
        ({
            let chunks = chunks_from(p.payload, p.layout, i as int, offset as int);
            (tree_defect(p, boxes, index, i, offset) is None) == (i + chunks.len() == p.count
                && forall|k: int|
                0 <= k < chunks.len() ==> (#[trigger] chunks[k]) is Ok && hash::named_digest(
                    p.alg,
                    chunks[k]->Ok_0,
                ) is Some && value::bytes_of(Some(p.row[i + k])) == hash::named_digest(
                    p.alg,
                    chunks[k]->Ok_0,
                ))
        }),
    decreases chunks_left(p.payload, p.layout, i as int, offset as int),
{
    let chunks = chunks_from(p.payload, p.layout, i as int, offset as int);
    match next_chunk(p.payload, p.layout, i as int, offset as int) {
        None => {
            assert(chunks.len() == 0);
        },
        Some(Err(why)) => {
            assert(chunks[0] is Err);
        },
        Some(Ok(end)) => {
            assert(offset <= end <= p.payload.len());
            lemma_leaf_row(p, boxes, index, i + 1, end as nat);
            let rest = chunks_from(p.payload, p.layout, (i + 1) as int, end);
            let chunk = p.payload.subrange(offset as int, end);
            assert(chunks == seq![Ok::<Seq<u8>, Seq<char>>(chunk)] + rest);
            assert(chunks[0] == Ok::<Seq<u8>, Seq<char>>(chunk));
            assert(chunks.len() == rest.len() + 1);
            assert forall|k: int| 0 <= k < rest.len() implies rest[k] == #[trigger] chunks[k
                + 1] by {}
            if tree_defect(p, boxes, index, i, offset) is None {
                assert forall|k: int| 0 <= k < chunks.len() implies (#[trigger] chunks[k]) is Ok
                    && hash::named_digest(p.alg, chunks[k]->Ok_0) is Some && value::bytes_of(
                    Some(p.row[i + k]),
                ) == hash::named_digest(p.alg, chunks[k]->Ok_0) by {
                    if k > 0 {
                        assert(chunks[k] == rest[k - 1]);
                        assert(i + 1 + (k - 1) == i + k);
                    }
                }
            } else if i + chunks.len() == p.count && (forall|k: int|
                0 <= k < chunks.len() ==> (#[trigger] chunks[k]) is Ok && hash::named_digest(
                    p.alg,
                    chunks[k]->Ok_0,
                ) is Some && value::bytes_of(Some(p.row[i + k])) == hash::named_digest(
                    p.alg,
                    chunks[k]->Ok_0,
                )) {
                assert(chunks[0] is Ok);
                assert(stored_at(p.row, i, hash::named_digest(p.alg, chunk)->0));
                assert forall|k: int| 0 <= k < rest.len() implies (#[trigger] rest[k]) is Ok
                    && hash::named_digest(p.alg, rest[k]->Ok_0) is Some && value::bytes_of(
                    Some(p.row[i + 1 + k]),
                ) == hash::named_digest(p.alg, rest[k]->Ok_0) by {
                    assert(rest[k] == chunks[k + 1]);
                    assert(i + (k + 1) == i + 1 + k);
                }
            }
        },
    }
}

/// A tree that stores its leaf row over blocks of a fixed size is accepted
/// exactly where its count is the payload's length over the size, rounded up,
/// and every place of the row holds the digest of the block of that number: no
/// byte of the payload stands outside a stored digest, and no honest row is
/// refused.
pub proof fn leaf_rows_hold_the_digests_of_the_blocks(
    p: Plan,
    size: usize,
    boxes: Seq<Result<MerkleBox, String>>,
    index: Option<Map<ProofKey, usize>>,
)
    requires
        p.layout == Layout::Fixed(size),
        size > 0,
        p.count == p.row.len(),
        hash::algorithm_named(p.alg) is Some,
    ensures
        (monolithic_defect(p, boxes, index) is None) == (p.count == (p.payload.len() + size - 1)
            / size as int && forall|i: int|
            0 <= i < p.row.len() ==> value::bytes_of(Some(#[trigger] p.row[i]))
                == hash::named_digest(p.alg, block(p.payload, size as int, i))),
{
    let chunks = chunks_from(p.payload, p.layout, 0, 0);
    fixed_chunks_tile_the_payload(p.payload, size);
    assert(0 * size as int == 0);
    lemma_fixed_blocks(p.payload, size, 0, 0);
    lemma_leaf_row(p, boxes, index, 0, 0);
    assert(named_len(p.alg) is Some);
    if monolithic_defect(p, boxes, index) is None {
        assert forall|i: int| 0 <= i < p.row.len() implies value::bytes_of(
            Some(#[trigger] p.row[i]),
        ) == hash::named_digest(p.alg, block(p.payload, size as int, i)) by {
            assert(chunks[i] is Ok);
            assert(chunks[i] == Ok::<Seq<u8>, Seq<char>>(block(p.payload, size as int, 0 + i)));
        }
    } else if p.count == chunks.len() && (forall|i: int|
        0 <= i < p.row.len() ==> value::bytes_of(Some(#[trigger] p.row[i])) == hash::named_digest(
            p.alg,
            block(p.payload, size as int, i),
        )) {
        assert forall|k: int| 0 <= k < chunks.len() implies (#[trigger] chunks[k]) is Ok
            && hash::named_digest(p.alg, chunks[k]->Ok_0) is Some && value::bytes_of(
            Some(p.row[0 + k]),
        ) == hash::named_digest(p.alg, chunks[k]->Ok_0) by {
            assert(chunks[k] == Ok::<Seq<u8>, Seq<char>>(block(p.payload, size as int, 0 + k)));
            assert(value::bytes_of(Some(p.row[k])) == hash::named_digest(
                p.alg,
                block(p.payload, size as int, k),
            ));
        }
    }
}

/// A tree over a payload that is not cut up is accepted exactly where its leaf
/// row is the one digest of the whole payload.
pub proof fn whole_payloads_have_one_digest(
    p: Plan,
    boxes: Seq<Result<MerkleBox, String>>,
    index: Option<Map<ProofKey, usize>>,
)
    requires
        p.layout == Layout::Whole,
        p.count == p.row.len(),
        hash::algorithm_named(p.alg) is Some,
    ensures
        (monolithic_defect(p, boxes, index) is None) == (p.row.len() == 1 && value::bytes_of(
            Some(p.row[0]),
        ) == hash::named_digest(p.alg, p.payload)),
{
    let chunks = chunks_from(p.payload, p.layout, 0, 0);
    lemma_leaf_row(p, boxes, index, 0, 0);
    assert(chunks_from(p.payload, p.layout, 1, p.payload.len() as int).len() == 0);
    assert(p.payload.subrange(0, p.payload.len() as int) =~= p.payload);
    assert(chunks =~= seq![Ok::<Seq<u8>, Seq<char>>(p.payload)]);
    assert(chunks[0] == Ok::<Seq<u8>, Seq<char>>(p.payload));
}

/// Where the sizes before place `i` end.
pub open spec fn sizes_end(sizes: Seq<Value>, i: int) -> int
    decreases i,
{
    if i <= 0 {
        0
    } else {
        sizes_end(sizes, i - 1) + sizes[i - 1]->Integer_0
    }
}

proof fn lemma_tiling(sizes: Seq<Value>, i: int, len: int, payload: Seq<u8>)
    requires
        0 <= i <= sizes.len(),
        payload.len() == len,
        len <= usize::MAX,
        0 <= sizes_end(sizes, i) <= len,
        tiling_from(sizes, i, sizes_end(sizes, i), len) == Ok::<int, Seq<char>>(len),
    ensures
        forall|k: int|
            i <= k < sizes.len() ==> (#[trigger] sizes[k]) is Integer && sizes[k]->Integer_0 >= 0
                && 0 <= sizes_end(sizes, k) <= sizes_end(sizes, k + 1) <= len,
        sizes_end(sizes, sizes.len() as int) == len,
        ({
            let chunks = chunks_from(payload, Layout::Variable(sizes), i, sizes_end(sizes, i));
            &&& chunks.len() == sizes.len() - i
            &&& forall|k: int|
                0 <= k < chunks.len() ==> (#[trigger] chunks[k]) == Ok::<Seq<u8>, Seq<char>>(
                    payload.subrange(sizes_end(sizes, i + k), sizes_end(sizes, i + k + 1)),
                )
            &&& concatenated(chunks) == payload.subrange(sizes_end(sizes, i), len)
        }),
    decreases sizes.len() - i,
{
    let at = sizes_end(sizes, i);
    let chunks = chunks_from(payload, Layout::Variable(sizes), i, at);
    if i < sizes.len() {
        assert(sizes[i] is Integer);
        let end = sizes_end(sizes, i + 1);
        assert(end == at + sizes[i]->Integer_0);
        lemma_tiling(sizes, i + 1, len, payload);
        let rest = chunks_from(payload, Layout::Variable(sizes), i + 1, end);
        assert(chunks == seq![Ok::<Seq<u8>, Seq<char>>(payload.subrange(at, end))] + rest);
        assert(chunks.drop_first() =~= rest);
        assert(payload.subrange(at, len) =~= payload.subrange(at, end) + payload.subrange(
            end,
            len,
        ));
        assert forall|k: int| 0 <= k < chunks.len() implies (#[trigger] chunks[k]) == Ok::<
            Seq<u8>,
            Seq<char>,
        >(payload.subrange(sizes_end(sizes, i + k), sizes_end(sizes, i + k + 1))) by {
            if k > 0 {
                assert(chunks[k] == rest[k - 1]);
                assert(i + 1 + (k - 1) == i + k);
            }
        }
    } else {
        assert(payload.subrange(at, len) =~= Seq::empty());
    }
}

/// The chunks that the walk hands out over a payload, none of them refused, number
/// `count` and concatenate to the payload. Over blocks of a fixed size the count is
/// the length over the size, rounded up; over listed sizes each chunk has the size
/// listed for it; without either there is one chunk.
pub open spec fn layout_covers(entry: Value, payload: Seq<u8>, layout: Layout, count: int) -> bool {
    let chunks = chunks_from(payload, layout, 0, 0);
    &&& count == chunks.len()
    &&& forall|i: int| 0 <= i < chunks.len() ==> (#[trigger] chunks[i]) is Ok
    &&& concatenated(chunks) == payload
    &&& match (entry.field("fixedBlockSize"@), entry.field("variableBlockSizes"@)) {
        (Some(Value::Integer(n)), None) => 0 < n <= usize::MAX && layout == Layout::Fixed(
            n as usize,
        ) && count == (payload.len() + n - 1) / n as int,
        (None, Some(Value::Array(sizes))) => layout == Layout::Variable(sizes@) && chunks.len()
            == sizes@.len() && forall|i: int|
            0 <= i < chunks.len() ==> sizes@[i] is Integer && (#[trigger] chunks[i])->Ok_0.len()
                == sizes@[i]->Integer_0,
        (None, None) => layout == Layout::Whole && count == 1 && chunks[0]->Ok_0 == payload,
        _ => false,
    }
}

proof fn lemma_fixed_layout(entry: Value, count: usize, payload: Seq<u8>, size: usize)
    requires
        plan_layout(entry, count, payload.len()) == Ok::<(nat, Layout), Seq<char>>(
            (count as nat, Layout::Fixed(size)),
        ),
    ensures
        layout_covers(entry, payload, Layout::Fixed(size), count as int),
{
    fixed_chunks_tile_the_payload(payload, size);
    lemma_rounding_up(payload.len() as int, size as int);
}

proof fn lemma_variable_layout(entry: Value, count: usize, payload: Seq<u8>, sizes: Seq<Value>)
    requires
        payload.len() <= usize::MAX,
        plan_layout(entry, count, payload.len()) == Ok::<(nat, Layout), Seq<char>>(
            (count as nat, Layout::Variable(sizes)),
        ),
    ensures
        layout_covers(entry, payload, Layout::Variable(sizes), count as int),
{
    let len = payload.len() as int;
    let chunks = chunks_from(payload, Layout::Variable(sizes), 0, 0);
    lemma_tiling(sizes, 0, len, payload);
    assert(payload.subrange(0, len) =~= payload);
    assert forall|i: int| 0 <= i < chunks.len() implies (#[trigger] chunks[i]) is Ok && sizes[i]
        is Integer && chunks[i]->Ok_0.len() == sizes[i]->Integer_0 by {
        assert(sizes[i] is Integer);
        assert(chunks[i] == Ok::<Seq<u8>, Seq<char>>(
            payload.subrange(sizes_end(sizes, 0 + i), sizes_end(sizes, 0 + i + 1)),
        ));
        assert(sizes_end(sizes, i + 1) == sizes_end(sizes, i) + sizes[i]->Integer_0);
    }
}

proof fn lemma_whole_layout(entry: Value, count: usize, payload: Seq<u8>)
    requires
        plan_layout(entry, count, payload.len()) == Ok::<(nat, Layout), Seq<char>>(
            (count as nat, Layout::Whole),
        ),
    ensures
        layout_covers(entry, payload, Layout::Whole, count as int),
{
    let len = payload.len() as int;
    let chunks = chunks_from(payload, Layout::Whole, 0, 0);
    assert(chunks_from(payload, Layout::Whole, 1, len).len() == 0);
    assert(payload.subrange(0, len) =~= payload);
    assert(chunks =~= seq![Ok::<Seq<u8>, Seq<char>>(payload)]);
    assert(chunks.drop_first() =~= Seq::empty());
    assert(concatenated(chunks.drop_first()) =~= Seq::empty());
    assert(payload + Seq::<u8>::empty() =~= payload);
}

/// A planned tree covers its payload: the payload is that of the media box whose
/// number the entry gives, which no tree before it took, its row is the entry's,
/// and the chunks of its layout number its count and cover the payload.
pub proof fn planned_trees_cover_their_payload(
    entry: Value,
    assertion_alg: Seq<char>,
    data: Seq<u8>,
    mdats: Seq<(usize, usize)>,
    seen: Seq<usize>,
    total_bytes: nat,
    total_chunks: nat,
    p: Plan,
    bytes: nat,
    chunks: nat,
)
    requires
        plan_entry(entry, assertion_alg, data, mdats, seen, total_bytes, total_chunks) == Ok::<
            (Plan, nat, nat),
            Seq<char>,
        >((p, bytes, chunks)),
    ensures
        entry.field("localId"@) == Some(Value::Integer(p.local_id as i128)),
        !seen.contains(p.local_id),
        p.local_id < mdats.len(),
        p.payload == data.subrange(
            mdats[p.local_id as int].0 as int,
            mdats[p.local_id as int].0 + mdats[p.local_id as int].1,
        ),
        p.payload.len() == mdats[p.local_id as int].1,
        entry.usize_field("count"@) == Some(p.count),
        entry.items_field("hashes"@) == Some(p.row),
        layout_covers(entry, p.payload, p.layout, p.count as int),
        bytes == total_bytes + p.payload.len(),
        chunks == total_chunks + p.count,
{
    let head = plan_head(entry, assertion_alg)->Ok_0;
    assert(plan_layout(entry, p.count, p.payload.len()) == Ok::<(nat, Layout), Seq<char>>(
        (p.count as nat, p.layout),
    ));
    match p.layout {
        Layout::Fixed(size) => {
            lemma_fixed_layout(entry, p.count, p.payload, size);
        },
        Layout::Variable(sizes) => {
            lemma_variable_layout(entry, p.count, p.payload, sizes);
        },
        Layout::Whole => {
            lemma_whole_layout(entry, p.count, p.payload);
        },
    }
}

proof fn lemma_rounding_up(len: int, size: int)
    requires
        size > 0,
        len >= 0,
    ensures
        blocks(len as nat, size as nat) == (len + size - 1) / size,
{
    let q = len / size;
    let m = len % size;
    assert(len == q * size + m && 0 <= m < size) by (nonlinear_arith)
        requires
            size > 0,
            len >= 0,
            q == len / size,
            m == len % size,
    ;
    if m == 0 {
        assert((len + size - 1) / size == q) by (nonlinear_arith)
            requires
                size > 0,
                len == q * size,
        ;
    } else {
        assert((len + size - 1) / size == q + 1) by (nonlinear_arith)
            requires
                size > 0,
                len == q * size + m,
                0 < m < size,
        ;
    }
}

/// An entry over blocks of a fixed size is planned where its count is the length
/// of its payload over the size, rounded up, and refused with any other count.
pub proof fn rounded_up_counts_are_planned(
    entry: Value,
    assertion_alg: Seq<char>,
    data: Seq<u8>,
    mdats: Seq<(usize, usize)>,
    seen: Seq<usize>,
    total_bytes: nat,
    total_chunks: nat,
    size: usize,
)
    requires
        plan_head(entry, assertion_alg) is Ok,
        ({
            let head = plan_head(entry, assertion_alg)->Ok_0;
            &&& !seen.contains(head.local_id)
            &&& head.local_id < mdats.len()
            &&& mdats[head.local_id as int].0 + mdats[head.local_id as int].1 <= data.len()
            &&& data.len() <= usize::MAX
            &&& total_bytes + mdats[head.local_id as int].1 <= MAX_BMFF_MERKLE_TOTAL_HASH_BYTES
            &&& total_chunks + head.count <= MAX_BMFF_MERKLE_TOTAL_CHUNKS
        }),
        size > 0,
        entry.field("fixedBlockSize"@) == Some(Value::Integer(size as i128)),
        entry.field("variableBlockSizes"@) is None,
    ensures
        ({
            let head = plan_head(entry, assertion_alg)->Ok_0;
            let len = mdats[head.local_id as int].1 as int;
            let planned = plan_entry(
                entry,
                assertion_alg,
                data,
                mdats,
                seen,
                total_bytes,
                total_chunks,
            );
            &&& planned is Ok == (head.count == (len + size - 1) / size as int)
            &&& planned is Ok ==> planned->Ok_0.0.layout == Layout::Fixed(size)
                && planned->Ok_0.0.count == head.count && planned->Ok_0.0.row == head.row
                && planned->Ok_0.0.alg == head.alg && planned->Ok_0.1 == total_bytes + len
                && planned->Ok_0.2 == total_chunks + head.count
        }),
{
    let head = plan_head(entry, assertion_alg)->Ok_0;
    lemma_rounding_up(mdats[head.local_id as int].1 as int, size as int);
}

proof fn lemma_ends_grow(sizes: Seq<Value>, i: int, j: int)
    requires
        0 <= i <= j <= sizes.len(),
        forall|k: int|
            0 <= k < sizes.len() ==> (#[trigger] sizes[k]) is Integer && sizes[k]->Integer_0 >= 0,
    ensures
        0 <= sizes_end(sizes, i) <= sizes_end(sizes, j),
    decreases j,
{
    if j > 0 {
        assert(sizes[j - 1] is Integer);
        if i < j {
            lemma_ends_grow(sizes, i, j - 1);
        } else {
            lemma_ends_grow(sizes, i - 1, j - 1);
        }
    }
}

proof fn lemma_tiles(sizes: Seq<Value>, i: int, len: int)
    requires
        0 <= i <= sizes.len(),
        len <= usize::MAX,
        forall|k: int|
            0 <= k < sizes.len() ==> (#[trigger] sizes[k]) is Integer && sizes[k]->Integer_0 >= 0,
        sizes_end(sizes, sizes.len() as int) == len,
    ensures
        tiling_from(sizes, i, sizes_end(sizes, i), len) == Ok::<int, Seq<char>>(len),
    decreases sizes.len() - i,
{
    if i < sizes.len() {
        assert(sizes[i] is Integer);
        lemma_ends_grow(sizes, i, i + 1);
        lemma_ends_grow(sizes, i + 1, sizes.len() as int);
        assert(sizes_end(sizes, i + 1) == sizes_end(sizes, i) + sizes[i]->Integer_0);
        lemma_tiles(sizes, i + 1, len);
    }
}

/// Listed chunk sizes are planned exactly where there are as many as the count
/// says, each is a non-negative integer and together they come to the length of
/// the payload.
pub proof fn listed_sizes_are_planned_where_they_tile(
    entry: Value,
    sizes: Vec<Value>,
    count: usize,
    len: nat,
)
    requires
        entry.field("fixedBlockSize"@) is None,
        entry.field("variableBlockSizes"@) == Some(Value::Array(sizes)),
        len <= usize::MAX,
    ensures
        plan_layout(entry, count, len) is Ok == (sizes@.len() > 0 && sizes@.len() == count
            && (forall|k: int|
            0 <= k < sizes@.len() ==> (#[trigger] sizes@[k]) is Integer && sizes@[k]->Integer_0
                >= 0) && sizes_end(sizes@, sizes@.len() as int) == len),
        plan_layout(entry, count, len) is Ok ==> plan_layout(entry, count, len)->Ok_0 == (
            count as nat,
            Layout::Variable(sizes@),
        ),
{
    let payload = Seq::<u8>::new(len, |i: int| 0u8);
    if plan_layout(entry, count, len) is Ok {
        lemma_tiling(sizes@, 0, len as int, payload);
    } else if sizes@.len() > 0 && sizes@.len() == count && (forall|k: int|
        0 <= k < sizes@.len() ==> (#[trigger] sizes@[k]) is Integer && sizes@[k]->Integer_0 >= 0)
        && sizes_end(sizes@, sizes@.len() as int) == len {
        lemma_tiles(sizes@, 0, len as int);
    }
}

/// A tree that stores its leaf row over chunks of listed sizes, which tile the
/// payload, is accepted exactly where every place of the row holds the digest of
/// the bytes that the sizes before it and its own size mark out.
pub proof fn leaf_rows_hold_the_digests_of_listed_chunks(
    p: Plan,
    sizes: Seq<Value>,
    boxes: Seq<Result<MerkleBox, String>>,
    index: Option<Map<ProofKey, usize>>,
)
    requires
        p.layout == Layout::Variable(sizes),
        p.count == p.row.len(),
        hash::algorithm_named(p.alg) is Some,
        p.payload.len() <= usize::MAX,
        forall|k: int|
            0 <= k < sizes.len() ==> (#[trigger] sizes[k]) is Integer && sizes[k]->Integer_0 >= 0,
        sizes_end(sizes, sizes.len() as int) == p.payload.len(),
    ensures
        (monolithic_defect(p, boxes, index) is None) == (p.count == sizes.len() && forall|i: int|
            0 <= i < p.row.len() ==> value::bytes_of(Some(#[trigger] p.row[i]))
                == hash::named_digest(
                p.alg,
                p.payload.subrange(sizes_end(sizes, i), sizes_end(sizes, i + 1)),
            )),
{
    let chunks = chunks_from(p.payload, p.layout, 0, 0);
    lemma_tiles(sizes, 0, p.payload.len() as int);
    lemma_tiling(sizes, 0, p.payload.len() as int, p.payload);
    lemma_leaf_row(p, boxes, index, 0, 0);
    if monolithic_defect(p, boxes, index) is None {
        assert forall|i: int| 0 <= i < p.row.len() implies value::bytes_of(
            Some(#[trigger] p.row[i]),
        ) == hash::named_digest(
            p.alg,
            p.payload.subrange(sizes_end(sizes, i), sizes_end(sizes, i + 1)),
        ) by {
            assert(chunks[i] is Ok);
        }
    } else if p.count == sizes.len() && (forall|i: int|
        0 <= i < p.row.len() ==> value::bytes_of(Some(#[trigger] p.row[i])) == hash::named_digest(
            p.alg,
            p.payload.subrange(sizes_end(sizes, i), sizes_end(sizes, i + 1)),
        )) {
        assert forall|k: int| 0 <= k < chunks.len() implies (#[trigger] chunks[k]) is Ok
            && hash::named_digest(p.alg, chunks[k]->Ok_0) is Some && value::bytes_of(
            Some(p.row[0 + k]),
        ) == hash::named_digest(p.alg, chunks[k]->Ok_0) by {
            assert(value::bytes_of(Some(p.row[k])) == hash::named_digest(
                p.alg,
                p.payload.subrange(sizes_end(sizes, k), sizes_end(sizes, k + 1)),
            ));
        }
    }
}

/// The stored hash that the proof of chunk `i` of a tree with a higher row leads
/// to.
pub open spec fn proof_leads_to_the_row(
    p: Plan,
    b: MerkleBox,
    i: int,
    chunk: Seq<u8>,
) -> bool {
    let leaf = hash::named_digest(p.alg, chunk);
    &&& b.unique_id == p.unique_id
    &&& b.local_id == p.local_id
    &&& b.location == i
    &&& leaf is Some
    &&& match merkle::derived(
        leaf->0,
        i as usize,
        p.count,
        merkle::proof_views(b.proof@),
        p.row.len() as usize,
        p.alg,
    ) {
        Some((at, h)) => at < p.row.len() && value::bytes_of(Some(p.row[at as int])) == Some(h),
        None => false,
    }
}

proof fn lemma_higher_row(
    p: Plan,
    boxes: Seq<Result<MerkleBox, String>>,
    index: Option<Map<ProofKey, usize>>,
    i: nat,
    offset: nat,
)
    requires
        p.wf(),
        p.count != p.row.len(),
        offset <= p.payload.len(),
        index matches Some(m) ==> index_wf(boxes, m),
        tree_defect(p, boxes, index, i, offset) is None,
    ensures
        ({
            let chunks = chunks_from(p.payload, p.layout, i as int, offset as int);
            &&& i + chunks.len() == p.count
            &&& forall|k: int|
                0 <= k < chunks.len() ==> (#[trigger] chunks[k]) is Ok && exists|b: int|
                    0 <= b < boxes.len() && (#[trigger] boxes[b]) is Ok && proof_leads_to_the_row(
                        p,
                        boxes[b]->Ok_0,
                        i + k,
                        chunks[k]->Ok_0,
                    )
        }),
    decreases chunks_left(p.payload, p.layout, i as int, offset as int),
{
    let chunks = chunks_from(p.payload, p.layout, i as int, offset as int);
    match next_chunk(p.payload, p.layout, i as int, offset as int) {
        Some(Ok(end)) => {
            assert(offset <= end <= p.payload.len());
            let chunk = p.payload.subrange(offset as int, end);
            let rest = chunks_from(p.payload, p.layout, (i + 1) as int, end);
            assert(chunk_defect(p, boxes, index, i, chunk) is None);
            lemma_higher_row(p, boxes, index, i + 1, end as nat);
            assert(chunks == seq![Ok::<Seq<u8>, Seq<char>>(chunk)] + rest);
            let m = index->0;
            let key = ((p.unique_id, p.local_id as i128), i as usize);
            assert(m.contains_key(key));
            let at = m[key] as int;
            assert(i < p.count);
            assert(boxes[at] is Ok && proof_leads_to_the_row(p, boxes[at]->Ok_0, i as int, chunk));
            assert forall|k: int| 0 <= k < chunks.len() implies (#[trigger] chunks[k]) is Ok
                && exists|b: int|
                0 <= b < boxes.len() && (#[trigger] boxes[b]) is Ok && proof_leads_to_the_row(
                    p,
                    boxes[b]->Ok_0,
                    i + k,
                    chunks[k]->Ok_0,
                ) by {
                if k > 0 {
                    assert(chunks[k] == rest[k - 1]);
                    assert(i + 1 + (k - 1) == i + k);
                    let b = choose|b: int|
                        0 <= b < boxes.len() && (#[trigger] boxes[b]) is Ok
                            && proof_leads_to_the_row(
                            p,
                            boxes[b]->Ok_0,
                            i + 1 + (k - 1),
                            rest[k - 1]->Ok_0,
                        );
                    assert(boxes[b] is Ok && proof_leads_to_the_row(
                        p,
                        boxes[b]->Ok_0,
                        i + k,
                        chunks[k]->Ok_0,
                    ));
                } else {
                    assert(chunks[0]->Ok_0 == chunk);
                }
            }
        },
        _ => {},
    }
}

/// In an accepted tree that stores a row above its leaves, the walk hands out as
/// many chunks as the count says, and each of them has an auxiliary box of its
/// own, for this tree and this place, whose proof leads from the digest of the
/// chunk to a hash that the row stores.
pub proof fn higher_rows_are_reached_from_every_chunk(
    p: Plan,
    boxes: Seq<Result<MerkleBox, String>>,
    index: Option<Map<ProofKey, usize>>,
)
    requires
        p.wf(),
        p.count != p.row.len(),
        index matches Some(m) ==> index_wf(boxes, m),
        monolithic_defect(p, boxes, index) is None,
    ensures
        ({
            let chunks = chunks_from(p.payload, p.layout, 0, 0);
            &&& chunks.len() == p.count
            &&& forall|k: int|
                0 <= k < chunks.len() ==> (#[trigger] chunks[k]) is Ok && exists|b: int|
                    0 <= b < boxes.len() && (#[trigger] boxes[b]) is Ok && proof_leads_to_the_row(
                        p,
                        boxes[b]->Ok_0,
                        k,
                        chunks[k]->Ok_0,
                    )
        }),
{
    lemma_higher_row(p, boxes, index, 0, 0);
    let chunks = chunks_from(p.payload, p.layout, 0, 0);
    assert forall|k: int| 0 <= k < chunks.len() implies (#[trigger] chunks[k]) is Ok && exists|
        b: int,
    |
        0 <= b < boxes.len() && (#[trigger] boxes[b]) is Ok && proof_leads_to_the_row(
            p,
            boxes[b]->Ok_0,
            k,
            chunks[k]->Ok_0,
        ) by {
        assert(0 + k == k);
    }
}

/// The digests of the chunks, which are the leaves of a tree over them.
pub open spec fn leaves_of(
    chunks: Seq<Result<Seq<u8>, Seq<char>>>,
    alg: hash::HashAlgorithm,
) -> Seq<Seq<u8>> {
    Seq::new(chunks.len(), |i: int| hash::digest_of(alg, chunks[i]->Ok_0))
}

/// The key of the auxiliary box of a leaf.
pub open spec fn leaf_key(p: Plan, k: usize) -> ProofKey {
    ((p.unique_id, p.local_id as i128), k)
}

/// An honest tree: the row is the one that hashing the digests of the chunks in
/// pairs, row by row, comes to, and each chunk has a proof made of the siblings
/// on its way there.
pub open spec fn honest_tree(
    p: Plan,
    alg: hash::HashAlgorithm,
    boxes: Seq<Result<MerkleBox, String>>,
    m: Map<ProofKey, usize>,
) -> bool {
    let chunks = chunks_from(p.payload, p.layout, 0, 0);
    let leaves = leaves_of(chunks, alg);
    let row = merkle::stored_row(leaves, p.row.len(), alg);
    &&& p.wf()
    &&& 0 < p.row.len() < p.count
    &&& hash::algorithm_named(p.alg) == Some(alg)
    &&& chunks.len() == p.count
    &&& forall|k: int| 0 <= k < chunks.len() ==> (#[trigger] chunks[k]) is Ok
    &&& row.len() == p.row.len()
    &&& forall|j: int|
        0 <= j < row.len() ==> value::bytes_of(Some(#[trigger] p.row[j])) == Some(row[j])
    &&& forall|k: usize| k < p.count ==> #[trigger] proved_leaf(p, alg, boxes, m, leaves, k)
}

/// The leaf `k` has a box of its own, whose proof is made of its siblings.
pub open spec fn proved_leaf(
    p: Plan,
    alg: hash::HashAlgorithm,
    boxes: Seq<Result<MerkleBox, String>>,
    m: Map<ProofKey, usize>,
    leaves: Seq<Seq<u8>>,
    k: usize,
) -> bool {
    let b = boxes[m[leaf_key(p, k)] as int];
    &&& m.contains_key(leaf_key(p, k))
    &&& b is Ok
    &&& merkle::proof_views(b->Ok_0.proof@) == merkle::proof_of(
        leaves,
        k as nat,
        p.row.len(),
        alg,
    )
    &&& !odd_width(b->Ok_0.proof@, hash::digest_len(alg))
}

/// A chunk of an honest tree has no defect.
proof fn lemma_honest_chunk(
    p: Plan,
    alg: hash::HashAlgorithm,
    boxes: Seq<Result<MerkleBox, String>>,
    m: Map<ProofKey, usize>,
    i: nat,
)
    requires
        honest_tree(p, alg, boxes, m),
        i < p.count,
    ensures
        chunk_defect(
            p,
            boxes,
            Some(m),
            i,
            chunks_from(p.payload, p.layout, 0, 0)[i as int]->Ok_0,
        ) is None,
{
    let all = chunks_from(p.payload, p.layout, 0, 0);
    let leaves = leaves_of(all, alg);
    let chunk = all[i as int]->Ok_0;
    assert(leaves[i as int] == hash::digest_of(alg, chunk));
    merkle::honest_proof_climbs(leaves, i, p.row.len(), p.alg, alg);
    assert(proved_leaf(p, alg, boxes, m, leaves, i as usize));
    assert(named_len(p.alg) == Some(hash::digest_len(alg)));
    let at = merkle::stored_position(leaves.len(), i, p.row.len());
    assert(value::bytes_of(Some(p.row[at as int])) == Some(
        merkle::stored_row(leaves, p.row.len(), alg)[at as int],
    ));
}

proof fn lemma_honest_tree(
    p: Plan,
    alg: hash::HashAlgorithm,
    boxes: Seq<Result<MerkleBox, String>>,
    m: Map<ProofKey, usize>,
    i: nat,
    offset: nat,
)
    requires
        honest_tree(p, alg, boxes, m),
        offset <= p.payload.len(),
        i <= p.count,
        ({
            let all = chunks_from(p.payload, p.layout, 0, 0);
            let here = chunks_from(p.payload, p.layout, i as int, offset as int);
            &&& here.len() == all.len() - i
            &&& forall|k: int| 0 <= k < here.len() ==> #[trigger] here[k] == all[i + k]
        }),
    ensures
        tree_defect(p, boxes, Some(m), i, offset) is None,
    decreases chunks_left(p.payload, p.layout, i as int, offset as int),
{
    let all = chunks_from(p.payload, p.layout, 0, 0);
    let here = chunks_from(p.payload, p.layout, i as int, offset as int);
    match next_chunk(p.payload, p.layout, i as int, offset as int) {
        None => {
            assert(here.len() == 0);
        },
        Some(Err(why)) => {
            assert(here[0] is Err);
            assert(here[0] == all[i as int + 0]);
        },
        Some(Ok(end)) => {
            assert(offset <= end <= p.payload.len());
            let chunk = p.payload.subrange(offset as int, end);
            let rest = chunks_from(p.payload, p.layout, (i + 1) as int, end);
            assert(here == seq![Ok::<Seq<u8>, Seq<char>>(chunk)] + rest);
            assert(here[0] == Ok::<Seq<u8>, Seq<char>>(chunk));
            assert(here[0] == all[i as int + 0]);
            lemma_honest_chunk(p, alg, boxes, m, i);
            assert forall|k: int| 0 <= k < rest.len() implies #[trigger] rest[k] == all[(i + 1)
                + k] by {
                assert(rest[k] == here[k + 1]);
                assert(here[k + 1] == all[i + (k + 1)]);
            }
            lemma_honest_tree(p, alg, boxes, m, i + 1, end as nat);
        },
    }
}

/// An honest tree is accepted: nothing is found amiss with it.
pub proof fn honest_trees_are_accepted(
    p: Plan,
    alg: hash::HashAlgorithm,
    boxes: Seq<Result<MerkleBox, String>>,
    m: Map<ProofKey, usize>,
)
    requires
        honest_tree(p, alg, boxes, m),
    ensures
        monolithic_defect(p, boxes, Some(m)) is None,
{
    lemma_honest_tree(p, alg, boxes, m, 0, 0);
}

proof fn lemma_index(
    boxes: Seq<Result<MerkleBox, String>>,
    i: int,
    index: Map<ProofKey, usize>,
)
    requires
        0 <= i <= boxes.len(),
        boxes.len() <= usize::MAX,
        index_from(boxes, i, index) is Ok,
    ensures
        ({
            let all = index_from(boxes, i, index)->Ok_0;
            &&& forall|k: ProofKey| #[trigger]
                index.contains_key(k) ==> all.contains_key(k) && all[k] == index[k]
            &&& forall|j: int|
                i <= j < boxes.len() ==> (#[trigger] boxes[j]) is Ok && all.contains_key(
                    box_key(boxes[j]->Ok_0),
                ) && all[box_key(boxes[j]->Ok_0)] == j
        }),
    decreases boxes.len() - i,
{
    if i < boxes.len() {
        let b = boxes[i]->Ok_0;
        let next = index.insert(box_key(b), i as usize);
        lemma_index(boxes, i + 1, next);
        let all = index_from(boxes, i, index)->Ok_0;
        assert(next.contains_key(box_key(b)));
        assert forall|k: ProofKey| #[trigger] index.contains_key(k) implies all.contains_key(k)
            && all[k] == index[k] by {
            assert(next.contains_key(k));
        }
    }
}

/// The auxiliary boxes of a file are indexed only where all of them are parsed;
/// each is then found under its own tree and place, so that no two of them share
/// one.
pub proof fn auxiliary_boxes_have_one_place_each(boxes: MerkleBoxes, i: int, j: int)
    requires
        proof_index_of(Some(boxes)) is Ok,
        boxes@.len() <= usize::MAX,
        0 <= i < boxes@.len(),
        0 <= j < boxes@.len(),
    ensures
        boxes@[i] is Ok,
        proof_index_of(Some(boxes))->Ok_0.contains_key(
            (
                (boxes@[i]->Ok_0.unique_id, boxes@[i]->Ok_0.local_id),
                boxes@[i]->Ok_0.location,
            ),
        ),
        proof_index_of(Some(boxes))->Ok_0[(
            (boxes@[i]->Ok_0.unique_id, boxes@[i]->Ok_0.local_id),
            boxes@[i]->Ok_0.location,
        )] == i,
        i != j ==> boxes@[i]->Ok_0.unique_id != boxes@[j]->Ok_0.unique_id
            || boxes@[i]->Ok_0.local_id != boxes@[j]->Ok_0.local_id || boxes@[i]->Ok_0.location
            != boxes@[j]->Ok_0.location,
{
    lemma_index(boxes@, 0, Map::empty());
    assert(boxes@[i] is Ok && boxes@[j] is Ok);
}

/// The row of a tree is read exactly where the entry gives integer identifiers, a
/// list of hashes of the width of a supported algorithm, not empty and within the
/// bound, and a count of leaves that the row does not exceed.
pub proof fn rows_hold_hashes_of_one_width(entry: Value, alg: Seq<char>)
    ensures
        merkle_row(entry, alg) is Ok == (hash::algorithm_named(alg) is Some && entry.field(
            "uniqueId"@,
        ) is Some && entry.field("uniqueId"@)->0 is Integer && entry.field("localId"@) is Some
            && entry.field("localId"@)->0 is Integer && entry.items_field("hashes"@) is Some && 0
            < entry.items_field("hashes"@)->0.len() <= MAX_BMFF_MERKLE_LEAVES && (forall|i: int|
            0 <= i < entry.items_field("hashes"@)->0.len() ==> value::bytes_of(
                Some(#[trigger] entry.items_field("hashes"@)->0[i]),
            ) is Some && value::bytes_of(Some(entry.items_field("hashes"@)->0[i]))->0.len()
                == hash::digest_len(hash::algorithm_named(alg)->0)) && entry.usize_field("count"@)
            is Some && entry.usize_field("count"@)->0 >= entry.items_field("hashes"@)->0.len()),
        merkle_row(entry, alg) matches Ok(row) ==> entry.usize_field("count"@) == Some(row.count)
            && entry.items_field("hashes"@) == Some(row.hashes),
{
    if let Some(row) = entry.items_field("hashes"@) {
        if let Some(a) = hash::algorithm_named(alg) {
            let len = hash::digest_len(a);
            assert(named_len(alg) == Some(len));
            assert forall|v: Value| #[trigger] is_hash_of(v, len) == (value::bytes_of(Some(v))
                is Some && value::bytes_of(Some(v))->0.len() == len) by {}
            if exists|i: int| 0 <= i < row.len() && !is_hash_of(#[trigger] row[i], len) {
                let i = choose|i: int| 0 <= i < row.len() && !is_hash_of(#[trigger] row[i], len);
                assert(!is_hash_of(row[i], len));
            } else {
                assert forall|i: int| 0 <= i < row.len() implies value::bytes_of(
                    Some(#[trigger] row[i]),
                ) is Some && value::bytes_of(Some(row[i]))->0.len() == len by {
                    assert(is_hash_of(row[i], len));
                }
            }
        }
    }
}

} // verus!
