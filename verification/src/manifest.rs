//! Parsed manifests: labelled assertion boxes, the claim and the signature.
use vstd::prelude::*;
use crate::hash;
use crate::hash::HashAlgorithm;
use crate::profile::ClaimGeneration;
use crate::text::str_eq;
use crate::value;
use crate::value::Value;

verus! {

/// A CBOR payload together with what its decoder reported: the number of data
/// items it visited and the value, where the bytes are well formed.
#[derive(Debug)]
pub struct Payload {
    pub bytes: Vec<u8>,
    pub nodes: usize,
    pub value: Option<Value>,
}

/// One assertion-store payload under its label.
#[derive(Debug)]
pub struct AssertionBox {
    pub label: String,
    pub payload: Payload,
}

/// The JUMBF content of one assertion box under its label, and whether its
/// content and padding boxes hold nothing but zero bytes.
#[derive(Debug)]
pub struct JumbfBox {
    pub label: String,
    pub content: Vec<u8>,
    pub zeroed: bool,
}

/// One manifest of a store.
#[derive(Debug)]
pub struct ParsedManifest {
    pub label: String,
    /// The content of the manifest superbox.
    pub manifest_jumbf: Vec<u8>,
    pub assertions: Vec<AssertionBox>,
    pub assertion_jumbf: Vec<JumbfBox>,
    pub claim: Option<Payload>,
    pub signature_cose: Option<Vec<u8>>,
    pub claim_count: usize,
    pub claim_box_label: Option<String>,
    /// The generation that the claim box and the claim were classified as.
    pub generation: ClaimGeneration,
}

/// The SHA-256 digest of a manifest superbox under the manifest's label.
#[derive(Debug)]
pub struct ManifestHash {
    pub label: String,
    pub digest: Vec<u8>,
}

/// What one manifest's verification needs of the store around it.
pub struct StoreContext<'a> {
    pub manifests: &'a [ParsedManifest],
    pub manifest_hashes: &'a [ManifestHash],
}

/// The container formats that the checks tell apart.
#[derive(Debug, Clone, Copy, PartialEq, Eq, Structural)]
pub enum AssetFormat {
    Jpeg,
    Png,
    Bmff,
    Pdf,
    TextUnstructured,
    C2paStore,
    Other,
}

/// The payload under `label`; the last one where a label repeats.
pub open spec fn payload_among(boxes: Seq<AssertionBox>, label: Seq<char>) -> Option<Payload>
    decreases boxes.len(),
{
    if boxes.len() == 0 {
        None
    } else if boxes.last().label@ == label {
        Some(boxes.last().payload)
    } else {
        payload_among(boxes.drop_last(), label)
    }
}

/// The JUMBF content under `label`; the last one where a label repeats.
pub open spec fn content_among(boxes: Seq<JumbfBox>, label: Seq<char>) -> Option<Seq<u8>>
    decreases boxes.len(),
{
    if boxes.len() == 0 {
        None
    } else if boxes.last().label@ == label {
        Some(boxes.last().content@)
    } else {
        content_among(boxes.drop_last(), label)
    }
}

/// A box stands under `label`.
pub open spec fn box_present(boxes: Seq<JumbfBox>, label: Seq<char>) -> bool {
    exists|i: int| 0 <= i < boxes.len() && (#[trigger] boxes[i]).label@ == label
}

/// A box under `label` still holds something.
pub open spec fn box_holds_content(boxes: Seq<JumbfBox>, label: Seq<char>) -> bool {
    exists|i: int| 0 <= i < boxes.len() && (#[trigger] boxes[i]).label@ == label && !boxes[i].zeroed
}

/// Whether the boxes under `label` hold nothing but zero bytes; nothing where
/// there is no such box.
pub open spec fn zeroed_content(boxes: Seq<JumbfBox>, label: Seq<char>) -> Option<bool> {
    if box_present(boxes, label) {
        Some(!box_holds_content(boxes, label))
    } else {
        None
    }
}

/// The first manifest at or behind `i` with the label `label`.
pub open spec fn manifest_from(
    manifests: Seq<ParsedManifest>,
    label: Seq<char>,
    i: int,
) -> Option<ParsedManifest>
    decreases manifests.len() - i,
{
    if i < 0 || i >= manifests.len() {
        None
    } else if manifests[i].label@ == label {
        Some(manifests[i])
    } else {
        manifest_from(manifests, label, i + 1)
    }
}

/// A manifest that was found under a label carries that label.
pub proof fn found_manifest_has_label(manifests: Seq<ParsedManifest>, label: Seq<char>, i: int)
    ensures
        manifest_from(manifests, label, i) matches Some(m) ==> m.label@ == label,
    decreases manifests.len() - i,
{
    if 0 <= i < manifests.len() {
        found_manifest_has_label(manifests, label, i + 1);
    }
}

/// A recorded digest as the contracts see it.
pub struct Recorded {
    pub label: Seq<char>,
    pub digest: Seq<u8>,
}

/// Recorded digests as the contracts see them.
pub open spec fn recorded(hashes: Seq<ManifestHash>) -> Seq<Recorded> {
    hashes.map_values(|h: ManifestHash| Recorded { label: h.label@, digest: h.digest@ })
}

/// The digest recorded for `label`; the last one where a label repeats.
pub open spec fn hash_among(hashes: Seq<Recorded>, label: Seq<char>) -> Option<Seq<u8>>
    decreases hashes.len(),
{
    if hashes.len() == 0 {
        None
    } else if hashes.last().label == label {
        Some(hashes.last().digest)
    } else {
        hash_among(hashes.drop_last(), label)
    }
}

impl ParsedManifest {
    /// The payload under `label`.
    pub fn payload_of<'a>(&'a self, label: &str) -> (r: Option<&'a Payload>)
        ensures
            value::pointee(r) == payload_among(self.assertions@, label@),
    {
        let mut i: usize = self.assertions.len();
        assert(self.assertions@.subrange(0, i as int) =~= self.assertions@);
        while i > 0
            invariant
                i <= self.assertions.len(),
                payload_among(self.assertions@.subrange(0, i as int), label@) == payload_among(
                    self.assertions@,
                    label@,
                ),
            decreases i,
        {
            assert(self.assertions@.subrange(0, i as int).drop_last()
                =~= self.assertions@.subrange(0, i - 1));
            i -= 1;
            if str_eq(self.assertions[i].label.as_str(), label) {
                return Some(&self.assertions[i].payload);
            }
        }
        None
    }

    /// Whether the assertion under `label` was emptied in place; nothing where
    /// the store does not carry it.
    pub fn assertion_content_is_zeroed(&self, label: &str) -> (r: Option<bool>)
        ensures
            r == zeroed_content(self.assertion_jumbf@, label@),
    {
        let mut present = false;
        let mut i: usize = 0;
        while i < self.assertion_jumbf.len()
            invariant
                i <= self.assertion_jumbf.len(),
                present == exists|k: int|
                    0 <= k < i && (#[trigger] self.assertion_jumbf@[k]).label@ == label@,
                forall|k: int|
                    0 <= k < i && (#[trigger] self.assertion_jumbf@[k]).label@ == label@
                        ==> self.assertion_jumbf@[k].zeroed,
            decreases self.assertion_jumbf.len() - i,
        {
            if str_eq(self.assertion_jumbf[i].label.as_str(), label) {
                if !self.assertion_jumbf[i].zeroed {
                    return Some(false);
                }
                present = true;
            }
            i += 1;
        }
        if present {
            Some(true)
        } else {
            None
        }
    }

    /// The JUMBF content under `label`.
    pub fn jumbf_of<'a>(&'a self, label: &str) -> (r: Option<&'a [u8]>)
        ensures
            value::bytes_opt(r) == content_among(self.assertion_jumbf@, label@),
    {
        let mut i: usize = self.assertion_jumbf.len();
        assert(self.assertion_jumbf@.subrange(0, i as int) =~= self.assertion_jumbf@);
        while i > 0
            invariant
                i <= self.assertion_jumbf.len(),
                content_among(self.assertion_jumbf@.subrange(0, i as int), label@)
                    == content_among(self.assertion_jumbf@, label@),
            decreases i,
        {
            assert(self.assertion_jumbf@.subrange(0, i as int).drop_last()
                =~= self.assertion_jumbf@.subrange(0, i - 1));
            i -= 1;
            if str_eq(self.assertion_jumbf[i].label.as_str(), label) {
                return Some(self.assertion_jumbf[i].content.as_slice());
            }
        }
        None
    }
}

/// The first manifest with the label `label`.
pub fn find_manifest<'a>(manifests: &'a [ParsedManifest], label: &str) -> (r: Option<
    &'a ParsedManifest,
>)
    ensures
        value::pointee(r) == manifest_from(manifests@, label@, 0),
{
    let mut i: usize = 0;
    while i < manifests.len()
        invariant
            i <= manifests.len(),
            manifest_from(manifests@, label@, i as int) == manifest_from(manifests@, label@, 0),
        decreases manifests.len() - i,
    {
        if str_eq(manifests[i].label.as_str(), label) {
            return Some(&manifests[i]);
        }
        i += 1;
    }
    None
}

/// The digest recorded for `label`.
pub fn find_hash<'a>(hashes: &'a [ManifestHash], label: &str) -> (r: Option<&'a [u8]>)
    ensures
        value::bytes_opt(r) == hash_among(recorded(hashes@), label@),
{
    let ghost h = recorded(hashes@);
    let mut i: usize = hashes.len();
    assert(h.subrange(0, i as int) =~= h);
    while i > 0
        invariant
            i <= hashes.len(),
            h == recorded(hashes@),
            hash_among(h.subrange(0, i as int), label@) == hash_among(h, label@),
        decreases i,
    {
        assert(h.subrange(0, i as int).drop_last() =~= h.subrange(0, i - 1));
        i -= 1;
        assert(h[i as int].label == hashes@[i as int].label@);
        if str_eq(hashes[i].label.as_str(), label) {
            return Some(hashes[i].digest.as_slice());
        }
    }
    None
}

/// The digests of the first `k` manifests, each of its superbox content.
pub open spec fn content_hashes(contents: Seq<Vec<u8>>, manifests: Seq<ParsedManifest>, k: int) -> Seq<
    Recorded,
>
    decreases k,
{
    if k <= 0 {
        Seq::empty()
    } else {
        content_hashes(contents, manifests, k - 1).push(
            Recorded {
                label: manifests[k - 1].label@,
                digest: hash::digest_of(HashAlgorithm::Sha256, contents[k - 1]@),
            },
        )
    }
}

/// The digests of a store's manifests. Contents and manifests go together by
/// their order, as far as both reach.
pub open spec fn store_hashes(contents: Seq<Vec<u8>>, manifests: Seq<ParsedManifest>) -> Seq<Recorded> {
    content_hashes(
        contents,
        manifests,
        if contents.len() <= manifests.len() {
            contents.len() as int
        } else {
            manifests.len() as int
        },
    )
}

/// The SHA-256 digest of each manifest's superbox content, used to authenticate
/// ingredient links and compound child bindings.
pub fn manifest_hashes(contents: &[Vec<u8>], manifests: &[ParsedManifest]) -> (r: Vec<ManifestHash>)
    ensures
        recorded(r@) == store_hashes(contents@, manifests@),
{
    let n = if contents.len() <= manifests.len() {
        contents.len()
    } else {
        manifests.len()
    };
    let mut out: Vec<ManifestHash> = Vec::new();
    let mut i: usize = 0;
    assert(recorded(out@) =~= Seq::empty());
    while i < n
        invariant
            i <= n <= contents@.len(),
            n <= manifests@.len(),
            recorded(out@) == content_hashes(contents@, manifests@, i as int),
        decreases n - i,
    {
        let digest = HashAlgorithm::Sha256.digest(contents[i].as_slice());
        let h = ManifestHash { label: manifests[i].label.as_str().to_owned(), digest };
        let ghost before = out@;
        out.push(h);
        assert(recorded(out@) =~= recorded(before).push(
            Recorded { label: h.label@, digest: h.digest@ },
        ));
        i += 1;
    }
    out
}

// ---------------------------------------------------------------------------
// Laws
// ---------------------------------------------------------------------------


proof fn lemma_content_hashes(
    contents: Seq<Vec<u8>>,
    manifests: Seq<ParsedManifest>,
    k: int,
    i: int,
)
    requires
        0 <= i < k <= contents.len(),
        k <= manifests.len(),
        forall|a: int, b: int|
            0 <= a < b < manifests.len() ==> (#[trigger] manifests[a]).label@ != (
            #[trigger] manifests[b]).label@,
    ensures
        hash_among(content_hashes(contents, manifests, k), manifests[i].label@) == Some(
            hash::sha256_of(contents[i]@),
        ),
    decreases k,
{
    let all = content_hashes(contents, manifests, k);
    assert(all.last().label == manifests[k - 1].label@);
    assert(all.drop_last() =~= content_hashes(contents, manifests, k - 1));
    if i < k - 1 {
        assert(manifests[i].label@ != manifests[k - 1].label@);
        lemma_content_hashes(contents, manifests, k - 1, i);
    }
}

/// In a store whose labels are all different, the digest recorded for a manifest
/// is the SHA-256 digest of its own content.
pub proof fn recorded_digests_are_of_the_own_content(
    contents: Seq<Vec<u8>>,
    manifests: Seq<ParsedManifest>,
    i: int,
)
    requires
        0 <= i < contents.len(),
        i < manifests.len(),
        forall|a: int, b: int|
            0 <= a < b < manifests.len() ==> (#[trigger] manifests[a]).label@ != (
            #[trigger] manifests[b]).label@,
    ensures
        hash_among(store_hashes(contents, manifests), manifests[i].label@) == Some(
            hash::sha256_of(contents[i]@),
        ),
{
    let k = if contents.len() <= manifests.len() {
        contents.len() as int
    } else {
        manifests.len() as int
    };
    lemma_content_hashes(contents, manifests, k, i);
}

/// What a manifest holds under a label is the payload and the content of a box
/// with that label; it holds nothing exactly where no box has the label.
pub proof fn lookups_find_the_labelled_box(
    boxes: Seq<AssertionBox>,
    contents: Seq<JumbfBox>,
    label: Seq<char>,
)
    ensures
        match payload_among(boxes, label) {
            Some(p) => exists|i: int|
                0 <= i < boxes.len() && (#[trigger] boxes[i]).label@ == label && boxes[i].payload
                    == p,
            None => forall|i: int| 0 <= i < boxes.len() ==> (#[trigger] boxes[i]).label@ != label,
        },
        match content_among(contents, label) {
            Some(c) => exists|i: int|
                0 <= i < contents.len() && (#[trigger] contents[i]).label@ == label
                    && contents[i].content@ == c,
            None => forall|i: int|
                0 <= i < contents.len() ==> (#[trigger] contents[i]).label@ != label,
        },
    decreases boxes.len() + contents.len(),
{
    if boxes.len() > 0 {
        lookups_find_the_labelled_box(boxes.drop_last(), contents, label);
        let n = boxes.len() - 1;
        let before = boxes.drop_last();
        assert forall|i: int| 0 <= i < n implies before[i] == #[trigger] boxes[i] by {}
        if boxes.last().label@ == label {
            assert(boxes[n].label@ == label);
        } else if let Some(p) = payload_among(before, label) {
            let i = choose|i: int|
                0 <= i < before.len() && (#[trigger] before[i]).label@ == label && before[i].payload
                    == p;
            assert(boxes[i].label@ == label);
        } else {
            assert forall|i: int| 0 <= i < boxes.len() implies (#[trigger] boxes[i]).label@
                != label by {
                if i < n {
                    assert(before[i].label@ != label);
                }
            }
        }
    } else if contents.len() > 0 {
        lookups_find_the_labelled_box(boxes, contents.drop_last(), label);
    }
    lemma_content_found(contents, label);
}

proof fn lemma_content_found(contents: Seq<JumbfBox>, label: Seq<char>)
    ensures
        match content_among(contents, label) {
            Some(c) => exists|i: int|
                0 <= i < contents.len() && (#[trigger] contents[i]).label@ == label
                    && contents[i].content@ == c,
            None => forall|i: int|
                0 <= i < contents.len() ==> (#[trigger] contents[i]).label@ != label,
        },
    decreases contents.len(),
{
    if contents.len() > 0 {
        let before = contents.drop_last();
        let n = contents.len() - 1;
        lemma_content_found(before, label);
        if contents.last().label@ == label {
            assert(contents[n].label@ == label);
        } else if let Some(c) = content_among(before, label) {
            let i = choose|i: int|
                0 <= i < before.len() && (#[trigger] before[i]).label@ == label
                    && before[i].content@ == c;
            assert(contents[i] == before[i]);
            assert(contents[i].label@ == label);
        } else {
            assert forall|i: int| 0 <= i < contents.len() implies (#[trigger] contents[i]).label@
                != label by {
                if i < n {
                    assert(before[i].label@ != label);
                }
            }
        }
    }
}

} // verus!
