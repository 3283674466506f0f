//! SHA-2 digests over byte sequences, exclusion ranges and box payloads.
use vstd::prelude::*;
use crate::bytes;
use crate::bytes::{write_be32, write_be64};
use crate::text::str_eq;
use sha2::Digest;

verus! {

/// The SHA-256 digest of a byte sequence.
pub uninterp spec fn sha256_of(data: Seq<u8>) -> Seq<u8>;

/// The SHA-384 digest of a byte sequence.
pub uninterp spec fn sha384_of(data: Seq<u8>) -> Seq<u8>;

/// The SHA-512 digest of a byte sequence.
pub uninterp spec fn sha512_of(data: Seq<u8>) -> Seq<u8>;

/// Calls `sha2::Sha256::digest`: the digest is a function of the bytes alone
/// and is 32 bytes long. Which bytes it holds is left to the name.
#[verifier::external_body]
fn sha256(data: &[u8]) -> (r: Vec<u8>)
    ensures
        r@ == sha256_of(data@),
        r@.len() == 32,
{
    sha2::Sha256::digest(data).to_vec()
}

/// Calls `sha2::Sha384::digest`: the digest is a function of the bytes alone
/// and is 48 bytes long. Which bytes it holds is left to the name.
#[verifier::external_body]
fn sha384(data: &[u8]) -> (r: Vec<u8>)
    ensures
        r@ == sha384_of(data@),
        r@.len() == 48,
{
    sha2::Sha384::digest(data).to_vec()
}

/// Calls `sha2::Sha512::digest`: the digest is a function of the bytes alone
/// and is 64 bytes long. Which bytes it holds is left to the name.
#[verifier::external_body]
fn sha512(data: &[u8]) -> (r: Vec<u8>)
    ensures
        r@ == sha512_of(data@),
        r@.len() == 64,
{
    sha2::Sha512::digest(data).to_vec()
}

/// A supported digest algorithm.
#[derive(Debug, Clone, Copy, PartialEq, Eq, Structural)]
pub enum HashAlgorithm {
    Sha256,
    Sha384,
    Sha512,
}

/// The algorithm that a name stands for.
pub open spec fn algorithm_named(name: Seq<char>) -> Option<HashAlgorithm> {
    if name == "sha256"@ {
        Some(HashAlgorithm::Sha256)
    } else if name == "sha384"@ {
        Some(HashAlgorithm::Sha384)
    } else if name == "sha512"@ {
        Some(HashAlgorithm::Sha512)
    } else {
        None
    }
}

/// The digest of `data` under `alg`.
pub open spec fn digest_of(alg: HashAlgorithm, data: Seq<u8>) -> Seq<u8> {
    match alg {
        HashAlgorithm::Sha256 => sha256_of(data),
        HashAlgorithm::Sha384 => sha384_of(data),
        HashAlgorithm::Sha512 => sha512_of(data),
    }
}

/// The digest of `data` under the algorithm named `name`, if it is supported.
pub open spec fn named_digest(name: Seq<char>, data: Seq<u8>) -> Option<Seq<u8>> {
    match algorithm_named(name) {
        Some(alg) => Some(digest_of(alg, data)),
        None => None,
    }
}

/// The digest width of an algorithm.
pub open spec fn digest_len(alg: HashAlgorithm) -> usize {
    match alg {
        HashAlgorithm::Sha256 => 32,
        HashAlgorithm::Sha384 => 48,
        HashAlgorithm::Sha512 => 64,
    }
}

/// The bytes of an optional digest.
pub open spec fn digest_view(r: Option<Vec<u8>>) -> Option<Seq<u8>> {
    match r {
        Some(v) => Some(v@),
        None => None,
    }
}

impl HashAlgorithm {
    /// The algorithm that `name` stands for.
    pub fn from_name(name: &str) -> (r: Option<HashAlgorithm>)
        ensures
            r == algorithm_named(name@),
    {
        if str_eq(name, "sha256") {
            Some(HashAlgorithm::Sha256)
        } else if str_eq(name, "sha384") {
            Some(HashAlgorithm::Sha384)
        } else if str_eq(name, "sha512") {
            Some(HashAlgorithm::Sha512)
        } else {
            None
        }
    }

    /// The digest width in bytes.
    pub fn digest_len(self) -> (r: usize)
        ensures
            r == digest_len(self),
    {
        match self {
            HashAlgorithm::Sha256 => 32,
            HashAlgorithm::Sha384 => 48,
            HashAlgorithm::Sha512 => 64,
        }
    }

    /// The digest of `data`.
    pub fn digest(self, data: &[u8]) -> (r: Vec<u8>)
        ensures
            r@ == digest_of(self, data@),
            r@.len() == digest_len(self),
    {
        match self {
            HashAlgorithm::Sha256 => sha256(data),
            HashAlgorithm::Sha384 => sha384(data),
            HashAlgorithm::Sha512 => sha512(data),
        }
    }
}

/// Append `bytes` to `out`.
pub fn extend(out: &mut Vec<u8>, bytes: &[u8])
    ensures
        final(out)@ == old(out)@ + bytes@,
{
    out.extend_from_slice(bytes);
    assert(out@ =~= old(out)@ + bytes@);
}

/// A SHA-2 hasher selected by algorithm name.
pub struct Hasher {
    algorithm: HashAlgorithm,
    absorbed: Vec<u8>,
}

impl Hasher {
    pub closed spec fn alg(self) -> HashAlgorithm {
        self.algorithm
    }

    /// The bytes absorbed so far.
    pub closed spec fn input(self) -> Seq<u8> {
        self.absorbed@
    }

    /// An empty hasher for a supported algorithm name.
    pub fn new(alg: &str) -> (r: Option<Hasher>)
        ensures
            match r {
                Some(h) => algorithm_named(alg@) == Some(h.alg()) && h.input() == Seq::<u8>::empty(),
                None => algorithm_named(alg@) is None,
            },
    {
        match HashAlgorithm::from_name(alg) {
            Some(algorithm) => Some(Hasher { algorithm, absorbed: Vec::new() }),
            None => None,
        }
    }

    /// Absorb `bytes`.
    pub fn update(&mut self, bytes: &[u8])
        ensures
            final(self).alg() == old(self).alg(),
            final(self).input() == old(self).input() + bytes@,
    {
        extend(&mut self.absorbed, bytes);
    }

    /// The digest of everything absorbed.
    pub fn finalize(self) -> (r: Vec<u8>)
        ensures
            r@ == digest_of(self.alg(), self.input()),
            r@.len() == digest_len(self.alg()),
    {
        self.algorithm.digest(self.absorbed.as_slice())
    }
}

/// The digest of `data` under the named algorithm.
pub fn hash_bytes(alg: &str, data: &[u8]) -> (r: Option<Vec<u8>>)
    ensures
        digest_view(r) == named_digest(alg@, data@),
        r matches Some(d) ==> d@.len() == digest_len(algorithm_named(alg@)->0),
{
    match HashAlgorithm::from_name(alg) {
        Some(a) => Some(a.digest(data)),
        None => None,
    }
}

/// The concatenation of `parts`.
pub open spec fn concatenation(parts: Seq<&[u8]>) -> Seq<u8>
    decreases parts.len(),
{
    if parts.len() == 0 {
        Seq::empty()
    } else {
        concatenation(parts.drop_last()) + parts.last()@
    }
}

/// One digest over a sequence of discontiguous byte slices.
pub fn hash_parts(alg: &str, parts: &[&[u8]]) -> (r: Option<Vec<u8>>)
    ensures
        digest_view(r) == named_digest(alg@, concatenation(parts@)),
{
    let mut hasher = match Hasher::new(alg) {
        Some(h) => h,
        None => {
            return None;
        },
    };
    let mut i: usize = 0;
    while i < parts.len()
        invariant
            i <= parts.len(),
            algorithm_named(alg@) == Some(hasher.alg()),
            hasher.input() == concatenation(parts@.subrange(0, i as int)),
        decreases parts.len() - i,
    {
        proof {
            assert(parts@.subrange(0, i + 1).drop_last() =~= parts@.subrange(0, i as int));
        }
        hasher.update(parts[i]);
        i += 1;
    }
    assert(parts@.subrange(0, i as int) =~= parts@);
    Some(hasher.finalize())
}

pub open spec fn least(a: int, b: int) -> int {
    if a <= b {
        a
    } else {
        b
    }
}

pub open spec fn greatest(a: int, b: int) -> int {
    if a >= b {
        a
    } else {
        b
    }
}

/// Where hashing resumes behind the first `k` exclusion ranges.
pub open spec fn resume_at(len: int, exclusions: Seq<(usize, usize)>, k: int) -> int
    decreases k,
{
    if k <= 0 {
        0
    } else {
        let (start, length) = exclusions[k - 1];
        greatest(
            least(least(start as int, len) + length, len),
            resume_at(len, exclusions, k - 1),
        )
    }
}

/// The bytes of `data` in front of the end of the `k`-th exclusion range that
/// no range in front of it, nor that range, removes.
pub open spec fn retained_up_to(data: Seq<u8>, exclusions: Seq<(usize, usize)>, k: int) -> Seq<u8>
    decreases k,
{
    if k <= 0 {
        Seq::empty()
    } else {
        let pos = resume_at(data.len() as int, exclusions, k - 1);
        let start = least(exclusions[k - 1].0 as int, data.len() as int);
        let before = retained_up_to(data, exclusions, k - 1);
        if pos < start {
            before + data.subrange(pos, start)
        } else {
            before
        }
    }
}

/// The bytes that remain of `data` when the ranges are skipped in order.
pub open spec fn retained(data: Seq<u8>, exclusions: Seq<(usize, usize)>) -> Seq<u8> {
    let k = exclusions.len() as int;
    let pos = resume_at(data.len() as int, exclusions, k);
    retained_up_to(data, exclusions, k) + data.subrange(pos, data.len() as int)
}

/// `i` lies in one of the first `k` ranges.
pub open spec fn excluded(exclusions: Seq<(usize, usize)>, k: int, i: int) -> bool {
    exists|j: int|
        0 <= j < k && (#[trigger] exclusions[j]).0 <= i < exclusions[j].0 + exclusions[j].1
}

/// The bytes of `data` from `from` up to `to` that lie in none of the ranges, in order.
pub open spec fn outside_ranges(
    data: Seq<u8>,
    exclusions: Seq<(usize, usize)>,
    from: int,
    to: int,
) -> Seq<u8>
    decreases to - from,
{
    if from >= to {
        Seq::empty()
    } else if excluded(exclusions, exclusions.len() as int, to - 1) {
        outside_ranges(data, exclusions, from, to - 1)
    } else {
        outside_ranges(data, exclusions, from, to - 1).push(data[to - 1])
    }
}

/// The ranges are ordered by where they start.
pub open spec fn ordered_by_start(exclusions: Seq<(usize, usize)>) -> bool {
    forall|i: int, j: int|
        0 <= i <= j < exclusions.len() ==> (#[trigger] exclusions[i]).0 <= (
        #[trigger] exclusions[j]).0
}

proof fn lemma_resume_bounds(len: int, exclusions: Seq<(usize, usize)>, k: int)
    requires
        0 <= k <= exclusions.len(),
        0 <= len,
    ensures
        0 <= resume_at(len, exclusions, k) <= len,
        k > 0 ==> resume_at(len, exclusions, k - 1) <= resume_at(len, exclusions, k),
    decreases k,
{
    if k > 0 {
        lemma_resume_bounds(len, exclusions, k - 1);
    }
}

proof fn lemma_outside_run(
    data: Seq<u8>,
    exclusions: Seq<(usize, usize)>,
    from: int,
    mid: int,
    to: int,
)
    requires
        0 <= from <= mid <= to <= data.len(),
        forall|i: int| mid <= i < to ==> !excluded(exclusions, exclusions.len() as int, i),
    ensures
        outside_ranges(data, exclusions, from, to) == outside_ranges(data, exclusions, from, mid)
            + data.subrange(mid, to),
    decreases to - mid,
{
    if mid < to {
        lemma_outside_run(data, exclusions, from, mid, to - 1);
        assert(data.subrange(mid, to - 1).push(data[to - 1]) =~= data.subrange(mid, to));
        assert(outside_ranges(data, exclusions, from, to) =~= outside_ranges(
            data,
            exclusions,
            from,
            mid,
        ) + data.subrange(mid, to));
    } else {
        assert(data.subrange(mid, to) =~= Seq::<u8>::empty());
        assert(outside_ranges(data, exclusions, from, to) =~= outside_ranges(
            data,
            exclusions,
            from,
            mid,
        ) + data.subrange(mid, to));
    }
}

proof fn lemma_outside_gap(
    data: Seq<u8>,
    exclusions: Seq<(usize, usize)>,
    from: int,
    mid: int,
    to: int,
)
    requires
        0 <= from <= mid <= to <= data.len(),
        forall|i: int| mid <= i < to ==> excluded(exclusions, exclusions.len() as int, i),
    ensures
        outside_ranges(data, exclusions, from, to) == outside_ranges(data, exclusions, from, mid),
    decreases to - mid,
{
    if mid < to {
        lemma_outside_gap(data, exclusions, from, mid, to - 1);
    }
}

proof fn lemma_retained_prefix(data: Seq<u8>, exclusions: Seq<(usize, usize)>, k: int)
    requires
        0 <= k <= exclusions.len(),
        ordered_by_start(exclusions),
    ensures
        ({
            let pos = resume_at(data.len() as int, exclusions, k);
            &&& 0 <= pos <= data.len()
            &&& retained_up_to(data, exclusions, k) == outside_ranges(data, exclusions, 0, pos)
            &&& forall|i: int| pos <= i < data.len() ==> !#[trigger] excluded(exclusions, k, i)
        }),
    decreases k,
{
    let n = exclusions.len() as int;
    let len = data.len() as int;
    if k > 0 {
        lemma_retained_prefix(data, exclusions, k - 1);
        lemma_resume_bounds(len, exclusions, k);
        let pos = resume_at(len, exclusions, k - 1);
        let next = resume_at(len, exclusions, k);
        let (start, length) = exclusions[k - 1];
        let s = least(start as int, len);
        if pos < s {
            assert forall|i: int| pos <= i < s implies !excluded(exclusions, n, i) by {
                if excluded(exclusions, n, i) {
                    let j = choose|j: int|
                        0 <= j < n && (#[trigger] exclusions[j]).0 <= i < exclusions[j].0
                            + exclusions[j].1;
                    if j >= k - 1 {
                        assert(exclusions[k - 1].0 <= exclusions[j].0);
                    } else {
                        assert(excluded(exclusions, k - 1, i));
                    }
                }
            }
            lemma_outside_run(data, exclusions, 0, pos, s);
            assert forall|i: int| s <= i < next implies excluded(exclusions, n, i) by {
                assert(exclusions[k - 1].0 <= i < exclusions[k - 1].0 + exclusions[k - 1].1);
            }
            lemma_outside_gap(data, exclusions, 0, s, next);
        } else {
            assert forall|i: int| pos <= i < next implies excluded(exclusions, n, i) by {
                assert(exclusions[k - 1].0 <= i < exclusions[k - 1].0 + exclusions[k - 1].1);
            }
            lemma_outside_gap(data, exclusions, 0, pos, next);
        }
        assert forall|i: int| next <= i < len implies !excluded(exclusions, k, i) by {
            if excluded(exclusions, k, i) {
                let j = choose|j: int|
                    0 <= j < k && (#[trigger] exclusions[j]).0 <= i < exclusions[j].0
                        + exclusions[j].1;
                if j < k - 1 {
                    assert(excluded(exclusions, k - 1, i));
                }
            }
        }
    } else {
        assert forall|i: int| 0 <= i < len implies !excluded(exclusions, 0, i) by {}
    }
}

/// Skipping ranges that are ordered by their start removes exactly the bytes
/// that lie in one of the ranges.
pub proof fn retained_is_everything_outside_the_ranges(
    data: Seq<u8>,
    exclusions: Seq<(usize, usize)>,
)
    requires
        ordered_by_start(exclusions),
    ensures
        retained(data, exclusions) == outside_ranges(data, exclusions, 0, data.len() as int),
{
    let n = exclusions.len() as int;
    let len = data.len() as int;
    lemma_retained_prefix(data, exclusions, n);
    let pos = resume_at(len, exclusions, n);
    assert forall|i: int| pos <= i < len implies !excluded(exclusions, n, i) by {}
    lemma_outside_run(data, exclusions, 0, pos, len);
}

/// Hash `data` skipping the given byte ranges, per the data-hash binding.
pub fn hash_with_exclusions(alg: &str, data: &[u8], exclusions: &[(usize, usize)]) -> (r: Option<
    Vec<u8>,
>)
    ensures
        digest_view(r) == named_digest(alg@, retained(data@, exclusions@)),
{
    let mut hasher = match Hasher::new(alg) {
        Some(h) => h,
        None => {
            return None;
        },
    };
    let mut pos: usize = 0;
    let mut i: usize = 0;
    while i < exclusions.len()
        invariant
            i <= exclusions.len(),
            pos <= data.len(),
            pos == resume_at(data@.len() as int, exclusions@, i as int),
            algorithm_named(alg@) == Some(hasher.alg()),
            hasher.input() == retained_up_to(data@, exclusions@, i as int),
        decreases exclusions.len() - i,
    {
        let (first, length) = exclusions[i];
        let start: usize = if first <= data.len() {
            first
        } else {
            data.len()
        };
        if pos < start {
            hasher.update(&data[pos..start]);
        }
        let end: usize = if length >= data.len() - start {
            data.len()
        } else {
            start + length
        };
        if end > pos {
            pos = end;
        }
        i += 1;
    }
    assert(exclusions@.subrange(0, i as int) =~= exclusions@);
    hasher.update(&data[pos..data.len()]);
    Some(hasher.finalize())
}

/// The header of a box of type `box_type` with `payload_len` payload bytes:
/// a 32-bit size where the whole box fits one, else the 64-bit form.
pub open spec fn box_header(box_type: Seq<u8>, payload_len: nat) -> Seq<u8> {
    if payload_len + 8 <= u32::MAX {
        bytes::be_bytes(payload_len + 8, 4) + box_type
    } else {
        bytes::be_bytes(1, 4) + box_type + bytes::be_bytes(payload_len + 16, 8)
    }
}

/// Absorb a box header; fails where the extended size would not fit a `usize`.
fn update_box_header(hasher: &mut Hasher, box_type: &[u8], payload_len: usize) -> (r: Option<()>)
    ensures
        r is Some <==> (payload_len + 8 <= u32::MAX || payload_len + 16 <= usize::MAX),
        final(hasher).alg() == old(hasher).alg(),
        r is Some ==> final(hasher).input() == old(hasher).input() + box_header(
            box_type@,
            payload_len as nat,
        ),
{
    let short_size: usize = match payload_len.checked_add(8) {
        Some(n) => n,
        None => {
            return None;
        },
    };
    let ghost before = hasher.input();
    if short_size as u64 <= u32::MAX as u64 {
        let size = write_be32(short_size as u32);
        hasher.update(size.as_slice());
        hasher.update(box_type);
        assert(before + size@ + box_type@ =~= before + box_header(box_type@, payload_len as nat));
    } else {
        let extended_size: usize = match short_size.checked_add(8) {
            Some(n) => n,
            None => {
                return None;
            },
        };
        let one = write_be32(1);
        hasher.update(one.as_slice());
        hasher.update(box_type);
        let size = write_be64(extended_size as u64);
        hasher.update(size.as_slice());
        assert(before + one@ + box_type@ + size@ =~= before + box_header(
            box_type@,
            payload_len as nat,
        ));
    }
    Some(())
}

/// The JUMBF content type of a claim signature superbox.
pub open spec fn claim_signature_uuid() -> Seq<u8> {
    seq![0x63u8, 0x32, 0x63, 0x73, 0x00, 0x11, 0x00, 0x10, 0x80, 0x00, 0x00, 0xaa, 0x00, 0x38, 0x9b, 0x71]
}

/// `c2pa.signature` in ASCII.
pub open spec fn claim_signature_label() -> Seq<u8> {
    seq![0x63u8, 0x32, 0x70, 0x61, 0x2e, 0x73, 0x69, 0x67, 0x6e, 0x61, 0x74, 0x75, 0x72, 0x65]
}

/// The payload of the claim signature superbox around a COSE signature: the
/// description box (content type, flags, zero-terminated label) and the CBOR
/// content box.
pub open spec fn claim_signature_payload(cose: Seq<u8>) -> Seq<u8> {
    box_header(seq![0x6au8, 0x75, 0x6d, 0x64], 32) + claim_signature_uuid() + seq![0x03u8]
        + claim_signature_label() + seq![0u8] + box_header(
        seq![0x63u8, 0x62, 0x6f, 0x72],
        cose.len(),
    ) + cose
}

/// Hash the canonical claim signature superbox payload around `cose`.
///
/// Nothing comes back for an unsupported algorithm, nor where the size of the
/// content box would not fit a `usize`.
pub fn hash_claim_signature_box(alg: &str, cose: &[u8]) -> (r: Option<Vec<u8>>)
    ensures
        digest_view(r) == if cose@.len() + 8 <= u32::MAX || cose@.len() + 16 <= usize::MAX {
            named_digest(alg@, claim_signature_payload(cose@))
        } else {
            None
        },
{
    let mut hasher = match Hasher::new(alg) {
        Some(h) => h,
        None => {
            return None;
        },
    };
    let jumd: [u8; 4] = [0x6a, 0x75, 0x6d, 0x64];
    assert(jumd@ =~= seq![0x6au8, 0x75, 0x6d, 0x64]);
    let uuid: [u8; 16] = [
        0x63,
        0x32,
        0x63,
        0x73,
        0x00,
        0x11,
        0x00,
        0x10,
        0x80,
        0x00,
        0x00,
        0xaa,
        0x00,
        0x38,
        0x9b,
        0x71,
    ];
    assert(uuid@ =~= claim_signature_uuid());
    let label: [u8; 14] = [
        0x63,
        0x32,
        0x70,
        0x61,
        0x2e,
        0x73,
        0x69,
        0x67,
        0x6e,
        0x61,
        0x74,
        0x75,
        0x72,
        0x65,
    ];
    assert(label@ =~= claim_signature_label());
    let flags: [u8; 1] = [0x03];
    assert(flags@ =~= seq![0x03u8]);
    let terminator: [u8; 1] = [0];
    assert(terminator@ =~= seq![0u8]);
    let cbor: [u8; 4] = [0x63, 0x62, 0x6f, 0x72];
    assert(cbor@ =~= seq![0x63u8, 0x62, 0x6f, 0x72]);
    if update_box_header(&mut hasher, &jumd, 32).is_none() {
        return None;
    }
    hasher.update(&uuid);
    hasher.update(&flags);
    hasher.update(&label);
    hasher.update(&terminator);
    if update_box_header(&mut hasher, &cbor, cose.len()).is_none() {
        return None;
    }
    hasher.update(cose);
    assert(hasher.input() =~= claim_signature_payload(cose@));
    Some(hasher.finalize())
}

/// A box header begins with the size of the whole box, big-endian, in front of
/// its type; a box whose size does not fit 32 bits says 1 there and gives its size
/// in 64 bits behind the type.
pub proof fn box_headers_give_the_size_of_the_box(box_type: Seq<u8>, payload_len: nat)
    requires
        box_type.len() == 4,
        payload_len + 16 <= u64::MAX,
    ensures
        ({
            let h = box_header(box_type, payload_len);
            if payload_len + 8 <= u32::MAX {
                &&& h.len() == 8
                &&& bytes::be_number(h.subrange(0, 4)) == h.len() + payload_len
                &&& h.subrange(4, 8) == box_type
            } else {
                &&& h.len() == 16
                &&& bytes::be_number(h.subrange(0, 4)) == 1
                &&& h.subrange(4, 8) == box_type
                &&& bytes::be_number(h.subrange(8, 16)) == h.len() + payload_len
            }
        }),
{
    bytes::byte_range_values();
    let h = box_header(box_type, payload_len);
    if payload_len + 8 <= u32::MAX {
        let size = bytes::be_bytes(payload_len + 8, 4);
        bytes::be_round_trip(payload_len + 8, 4);
        assert(h.subrange(0, 4) =~= size);
        assert(h.subrange(4, 8) =~= box_type);
    } else {
        let one = bytes::be_bytes(1, 4);
        let size = bytes::be_bytes(payload_len + 16, 8);
        bytes::be_round_trip(1, 4);
        bytes::be_round_trip(payload_len + 16, 8);
        assert(h.subrange(0, 4) =~= one);
        assert(h.subrange(4, 8) =~= box_type);
        assert(h.subrange(8, 16) =~= size);
    }
}

/// The three supported names stand for the three algorithms, and no other name is
/// supported.
pub proof fn three_algorithms_are_supported(name: Seq<char>, data: Seq<u8>)
    ensures
        named_digest("sha256"@, data) == Some(sha256_of(data)),
        named_digest("sha384"@, data) == Some(sha384_of(data)),
        named_digest("sha512"@, data) == Some(sha512_of(data)),
        name != "sha256"@ && name != "sha384"@ && name != "sha512"@ ==> named_digest(name, data)
            is None,
        digest_len(HashAlgorithm::Sha256) * 8 == 256,
        digest_len(HashAlgorithm::Sha384) * 8 == 384,
        digest_len(HashAlgorithm::Sha512) * 8 == 512,
{
    reveal_strlit("sha256");
    reveal_strlit("sha384");
    reveal_strlit("sha512");
    assert("sha256"@[3] == '2');
    assert("sha384"@[3] == '3');
    assert("sha512"@[3] == '5');
}

} // verus!
