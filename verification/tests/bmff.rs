use c2pa_validate::bmff::{
    bmff_merkle_proof_index, checked_bmff_merkle_work, preflight_bmff_monolithic_entries,
    verify_bmff_monolithic_entry, BmffFacts, DigestReport, FragmentFacts, MerkleBox,
    MAX_BMFF_MERKLE_LEAVES, MAX_BMFF_MERKLE_TOTAL_CHUNKS, MAX_BMFF_MERKLE_TOTAL_HASH_BYTES,
};
use c2pa_validate::bmff::{BmffChunkIter, BmffMonolithicPlanLayout};
use c2pa_validate::bmff_merkle::{
    verify_bmff_fragments, verify_bmff_merkle_init, BmffMerkleInput,
};
use c2pa_validate::hash::{hash_bytes, hash_parts};
use c2pa_validate::merkle::merkle_climb;
use c2pa_validate::status::{
    ValidationResults, ASSERTION_BMFF_HASH_MALFORMED, ASSERTION_BMFF_HASH_MATCH,
    ASSERTION_BMFF_HASH_MISMATCH,
};
use c2pa_validate::stream::BMFF_FRAGMENTS_NOT_EVALUATED;
use c2pa_validate::value::Value;

const URL: &str = "self#jumbf=c2pa.assertions/c2pa.hash.bmff.v3";

fn vmap(fields: Vec<(&str, Value)>) -> Value {
    Value::Dict(
        fields
            .into_iter()
            .map(|(key, value)| (Value::Text(key.to_string()), value))
            .collect(),
    )
}

fn text(s: &str) -> Value {
    Value::Text(s.to_string())
}

fn copy(v: &Value) -> Value {
    match v {
        Value::Integer(n) => Value::Integer(*n),
        Value::Bytes(b) => Value::Bytes(b.clone()),
        Value::Text(t) => Value::Text(t.clone()),
        Value::Array(items) => Value::Array(items.iter().map(copy).collect()),
        Value::Dict(entries) => {
            Value::Dict(entries.iter().map(|(k, v)| (copy(k), copy(v))).collect())
        }
        Value::Tag(n, inner) => Value::Tag(*n, Box::new(copy(inner))),
        Value::Bool(b) => Value::Bool(*b),
        Value::Null => Value::Null,
        Value::Float(bits, shown) => Value::Float(*bits, shown.clone()),
    }
}

fn sha(data: &[u8]) -> Vec<u8> {
    hash_bytes("sha256", data).expect("supported")
}

fn test_box(kind: &[u8; 4], body: &[u8]) -> Vec<u8> {
    let mut out = ((body.len() + 8) as u32).to_be_bytes().to_vec();
    out.extend_from_slice(kind);
    out.extend_from_slice(body);
    out
}

fn mdat(body: &[u8]) -> Vec<u8> {
    test_box(b"mdat", body)
}

fn no_digests() -> DigestReport {
    DigestReport {
        sha256: Err("not computed".to_string()),
        sha384: Err("not computed".to_string()),
        sha512: Err("not computed".to_string()),
    }
}

fn sha256_report(digest: Vec<u8>) -> DigestReport {
    DigestReport { sha256: Ok(digest), ..no_digests() }
}

fn auxiliary(unique_id: i128, local_id: i128, location: usize, proof: Vec<Vec<u8>>) -> MerkleBox {
    MerkleBox { unique_id, local_id, location, proof }
}

fn row(hashes: Vec<Vec<u8>>) -> Value {
    Value::Array(hashes.into_iter().map(Value::Bytes).collect())
}

fn entry_with(fields: Vec<(&str, Value)>) -> Value {
    let mut all = vec![("uniqueId", Value::Integer(1)), ("localId", Value::Integer(0))];
    all.extend(fields);
    vmap(all)
}

/// The file holds one `mdat` from its first byte.
fn verify_monolithic(
    entry: &Value,
    data: &[u8],
    boxes: Option<Vec<MerkleBox>>,
    results: &mut ValidationResults,
) -> bool {
    let mdats = Some(vec![(8, data.len() - 8)]);
    let entries = [copy(entry)];
    let plans = match preflight_bmff_monolithic_entries(&entries, "sha256", data, &mdats) {
        Ok(plans) => plans,
        Err(why) => {
            results.push_failure(ASSERTION_BMFF_HASH_MALFORMED, URL.to_string(), why);
            return false;
        }
    };
    match boxes {
        None => verify_bmff_monolithic_entry(&plans[0], &[], None, URL, results),
        Some(boxes) => {
            let all: Option<Vec<Result<MerkleBox, String>>> =
                Some(boxes.into_iter().map(Ok).collect());
            let index = bmff_merkle_proof_index(&all).expect("index");
            verify_bmff_monolithic_entry(
                &plans[0],
                all.as_ref().expect("boxes"),
                Some(&index),
                URL,
                results,
            )
        }
    }
}

#[test]
fn fixed_merkle_chunks_validate_without_descriptor_collection() {
    let entry = entry_with(vec![
        ("count", Value::Integer(4)),
        ("fixedBlockSize", Value::Integer(1)),
        ("hashes", row(b"abcd".iter().map(|byte| sha(&[*byte])).collect())),
    ]);
    let mut results = ValidationResults::new();
    assert!(verify_monolithic(&entry, &mdat(b"abcd"), None, &mut results));
}

#[test]
fn variable_merkle_chunk_sizes_cannot_overflow() {
    let entry = entry_with(vec![
        ("count", Value::Integer(2)),
        (
            "variableBlockSizes",
            Value::Array(vec![Value::Integer(usize::MAX as i128), Value::Integer(1)]),
        ),
        ("hashes", row(vec![vec![0; 32], vec![0; 32]])),
    ]);
    let mut results = ValidationResults::new();
    assert!(!verify_monolithic(&entry, &mdat(b"abcd"), None, &mut results));
    assert!(results.has_failure(ASSERTION_BMFF_HASH_MALFORMED));
}

#[test]
fn variable_merkle_chunks_validate_without_size_or_range_vectors() {
    let entry = entry_with(vec![
        ("count", Value::Integer(2)),
        ("variableBlockSizes", Value::Array(vec![Value::Integer(1), Value::Integer(3)])),
        ("hashes", row(vec![sha(b"a"), sha(b"bcd")])),
    ]);
    let mut results = ValidationResults::new();
    assert!(verify_monolithic(&entry, &mdat(b"abcd"), None, &mut results));
}

#[test]
fn monolithic_merkle_leaf_count_is_bounded() {
    let entry = entry_with(vec![
        ("count", Value::Integer((MAX_BMFF_MERKLE_LEAVES as i128) + 1)),
        (
            "variableBlockSizes",
            Value::Array((0..MAX_BMFF_MERKLE_LEAVES + 1).map(|_| Value::Integer(0)).collect()),
        ),
        ("hashes", row(vec![vec![0; 32]])),
    ]);
    let mut results = ValidationResults::new();
    assert!(!verify_monolithic(&entry, &mdat(&[]), None, &mut results));
    assert!(results.has_failure(ASSERTION_BMFF_HASH_MALFORMED));
}

#[test]
fn monolithic_merkle_rejects_duplicate_mdat_targeting_across_trees() {
    let data = mdat(b"abcd");
    let entry = |unique_id: i128| {
        vmap(vec![
            ("uniqueId", Value::Integer(unique_id)),
            ("localId", Value::Integer(0)),
            ("count", Value::Integer(1)),
            ("hashes", row(vec![sha(b"abcd")])),
        ])
    };
    let entries = [entry(1), entry(2)];
    let mdats = Some(vec![(8, data.len() - 8)]);
    let error = match preflight_bmff_monolithic_entries(&entries, "sha256", &data, &mdats) {
        Err(error) => error,
        Ok(_) => panic!("the same mdat cannot be targeted twice"),
    };
    assert!(error.contains("duplicate monolithic merkle"));
}

#[test]
fn aggregate_monolithic_merkle_work_is_checked_and_bounded() {
    let mut bytes = MAX_BMFF_MERKLE_TOTAL_HASH_BYTES - 1;
    let mut chunks = MAX_BMFF_MERKLE_TOTAL_CHUNKS - 1;
    assert!(checked_bmff_merkle_work(&mut bytes, &mut chunks, 1, 1).is_ok());
    assert_eq!(bytes, MAX_BMFF_MERKLE_TOTAL_HASH_BYTES);
    assert_eq!(chunks, MAX_BMFF_MERKLE_TOTAL_CHUNKS);
    assert!(checked_bmff_merkle_work(&mut bytes, &mut chunks, 1, 0).is_err());

    let mut bytes = 0;
    let mut chunks = MAX_BMFF_MERKLE_TOTAL_CHUNKS;
    assert!(checked_bmff_merkle_work(&mut bytes, &mut chunks, 0, 1).is_err());
}

/// The structural digest of top-level boxes: each behind its offset.
fn structural(boxes: &[Vec<u8>]) -> Vec<u8> {
    let mut bytes = Vec::new();
    let mut at = 0u64;
    for b in boxes {
        bytes.extend_from_slice(&at.to_be_bytes());
        bytes.extend_from_slice(b);
        at += b.len() as u64;
    }
    sha(&bytes)
}

fn init_entry(init_hash: Vec<u8>) -> Value {
    vmap(vec![
        ("uniqueId", Value::Integer(1)),
        ("localId", Value::Integer(1)),
        ("count", Value::Integer(1)),
        ("hashes", row(vec![vec![0; 32]])),
        ("initHash", Value::Bytes(init_hash)),
    ])
}

fn run_init(entry: Value, data: &[u8], init: DigestReport) -> ValidationResults {
    let hash_data = vmap(vec![("merkle", Value::Array(vec![entry]))]);
    let facts = BmffFacts {
        structural: no_digests(),
        init_structural: init,
        mdats: Some(Vec::new()),
        merkle_boxes: Some(Vec::new()),
    };
    let mut results = ValidationResults::new();
    verify_bmff_merkle_init(
        &BmffMerkleInput {
            hash_data: &hash_data,
            assertion_alg: "sha256",
            data,
            facts: &facts,
            fragments: &[],
            url: URL,
            binding_compromised: false,
        },
        &mut results,
    );
    results
}

#[test]
fn flat_fragmented_init_hash_stops_before_the_first_top_level_moof() {
    let parts =
        vec![test_box(b"ftyp", b"isom"), test_box(b"moov", &test_box(b"moof", &[]))];
    let init = parts.concat();
    let mut flat = init.clone();
    flat.extend_from_slice(&test_box(b"moof", &[]));
    flat.extend_from_slice(&mdat(b"media"));
    let scope = c2pa_validate::bmff::bmff_initialization_scope(&flat).expect("scope");
    assert_eq!(scope, init.as_slice());
    let expected = structural(&parts);
    let results = run_init(init_entry(expected.clone()), &flat, sha256_report(expected.clone()));
    assert!(results.has_success(ASSERTION_BMFF_HASH_MATCH));
    assert!(!results.has_failure(ASSERTION_BMFF_HASH_MISMATCH));

    let standalone = run_init(init_entry(expected.clone()), &init, sha256_report(expected));
    assert!(standalone.has_success(ASSERTION_BMFF_HASH_MATCH));
}

#[test]
fn unsupplied_fragments_are_never_reported_as_a_match() {
    let parts = vec![test_box(b"ftyp", b"isom")];
    let digest = structural(&parts);
    let results =
        run_init(init_entry(digest.clone()), &parts.concat(), sha256_report(digest));
    assert!(results.has_informational(BMFF_FRAGMENTS_NOT_EVALUATED));
    assert!(!results.has_informational(ASSERTION_BMFF_HASH_MATCH));
}

#[test]
fn fragmented_merkle_rejects_wrong_init_hash_width() {
    let parts = vec![test_box(b"ftyp", b"isom")];
    let results = run_init(
        init_entry(vec![0; 31]),
        &parts.concat(),
        sha256_report(structural(&parts)),
    );
    assert!(results.has_failure(ASSERTION_BMFF_HASH_MALFORMED));
}

fn fragment(b: MerkleBox, leaf: Vec<u8>) -> FragmentFacts {
    FragmentFacts { merkle_boxes: Some(vec![Ok(b)]), leaf: sha256_report(leaf) }
}

fn run_fragment_merkle(entry: Value, proof: Vec<Vec<u8>>) -> ValidationResults {
    let fragments = [fragment(auxiliary(7, 9, 0, proof), sha(b"fragment"))];
    let mut results = ValidationResults::new();
    verify_bmff_fragments(&[entry], "sha256", &fragments, URL, &mut results);
    results
}

fn fragment_merkle_entry(count: i128, hashes: Vec<Value>) -> Value {
    vmap(vec![
        ("uniqueId", Value::Integer(7)),
        ("localId", Value::Integer(9)),
        ("count", Value::Integer(count)),
        ("hashes", Value::Array(hashes)),
        ("initHash", Value::Bytes(vec![0; 32])),
    ])
}

#[test]
fn fragment_merkle_rejects_non_byte_rows() {
    let non_byte = run_fragment_merkle(
        fragment_merkle_entry(1, vec![Value::Bytes(vec![0; 32]), Value::Integer(7)]),
        Vec::new(),
    );
    assert!(non_byte.has_failure(ASSERTION_BMFF_HASH_MALFORMED));
}

#[test]
fn fragment_merkle_rejects_block_size_descriptors() {
    let entry = vmap(vec![
        ("uniqueId", Value::Integer(7)),
        ("localId", Value::Integer(9)),
        ("count", Value::Integer(1)),
        ("fixedBlockSize", Value::Integer(1)),
        ("hashes", row(vec![vec![0; 32]])),
        ("initHash", Value::Bytes(vec![0; 32])),
    ]);
    let results = run_fragment_merkle(entry, Vec::new());
    assert!(results.has_failure(ASSERTION_BMFF_HASH_MALFORMED));
}

#[test]
fn fragment_merkle_rejects_missing_negative_zero_and_out_of_range_counts() {
    for count in [-1, 0, i128::MAX] {
        let invalid_count = run_fragment_merkle(
            fragment_merkle_entry(count, vec![Value::Bytes(vec![0; 32])]),
            Vec::new(),
        );
        assert!(invalid_count.has_failure(ASSERTION_BMFF_HASH_MALFORMED));
    }
    let missing_count = run_fragment_merkle(
        vmap(vec![
            ("uniqueId", Value::Integer(7)),
            ("localId", Value::Integer(9)),
            ("hashes", row(vec![vec![0; 32]])),
            ("initHash", Value::Bytes(vec![0; 32])),
        ]),
        Vec::new(),
    );
    assert!(missing_count.has_failure(ASSERTION_BMFF_HASH_MALFORMED));
}

#[test]
fn fragment_merkle_rejects_wrong_row_digest_width() {
    let bad_row = run_fragment_merkle(
        fragment_merkle_entry(1, vec![Value::Bytes(vec![0; 31])]),
        Vec::new(),
    );
    assert!(bad_row.has_failure(ASSERTION_BMFF_HASH_MALFORMED));
}

#[test]
fn fragment_merkle_rejects_wrong_proof_digest_width() {
    let bad_proof = run_fragment_merkle(
        fragment_merkle_entry(2, vec![Value::Bytes(vec![0; 32])]),
        vec![vec![0; 31]],
    );
    assert!(bad_proof.has_failure(ASSERTION_BMFF_HASH_MALFORMED));
}

#[test]
fn fragment_merkle_rejects_duplicate_fragment_identities() {
    let leaf = sha(b"fragment");
    let entry = fragment_merkle_entry(1, vec![Value::Bytes(leaf.clone())]);
    let fragments = [
        fragment(auxiliary(7, 9, 0, Vec::new()), leaf.clone()),
        fragment(auxiliary(7, 9, 0, Vec::new()), leaf),
    ];
    let mut results = ValidationResults::new();
    assert!(!verify_bmff_fragments(&[entry], "sha256", &fragments, URL, &mut results));
    assert!(results.has_failure(ASSERTION_BMFF_HASH_MISMATCH));
    assert!(!results.has_success(ASSERTION_BMFF_HASH_MATCH));
}

#[test]
fn fragment_merkle_rejects_non_increasing_playback_locations() {
    let leaf0 = sha(b"fragment 0");
    let leaf1 = sha(b"fragment 1");
    let entry = fragment_merkle_entry(
        2,
        vec![Value::Bytes(leaf0.clone()), Value::Bytes(leaf1.clone())],
    );
    let first = || fragment(auxiliary(7, 9, 0, Vec::new()), leaf0.clone());
    let second = || fragment(auxiliary(7, 9, 1, Vec::new()), leaf1.clone());

    let mut ordered = ValidationResults::new();
    assert!(verify_bmff_fragments(
        &[copy(&entry)],
        "sha256",
        &[first(), second()],
        URL,
        &mut ordered
    ));
    assert!(ordered.failure.is_empty(), "{:?}", ordered.failure);

    let mut reordered = ValidationResults::new();
    assert!(!verify_bmff_fragments(
        &[entry],
        "sha256",
        &[second(), first()],
        URL,
        &mut reordered
    ));
    assert!(reordered.has_failure(ASSERTION_BMFF_HASH_MISMATCH));
    assert!(!reordered.has_success(ASSERTION_BMFF_HASH_MATCH));
}

#[test]
fn monolithic_merkle_uses_indexed_auxiliary_proofs() {
    let left = sha(b"a");
    let right = sha(b"b");
    let root = hash_parts("sha256", &[&left, &right]).expect("supported");
    let entry = vmap(vec![
        ("uniqueId", Value::Integer(3)),
        ("localId", Value::Integer(0)),
        ("count", Value::Integer(2)),
        ("fixedBlockSize", Value::Integer(1)),
        ("hashes", row(vec![root])),
    ]);
    let boxes = vec![auxiliary(3, 0, 0, vec![right]), auxiliary(3, 0, 1, vec![left])];
    let mut results = ValidationResults::new();
    assert!(verify_monolithic(&entry, &mdat(b"ab"), Some(boxes), &mut results));
    assert!(!results.has_failure(ASSERTION_BMFF_HASH_MALFORMED));
    assert!(!results.has_failure(ASSERTION_BMFF_HASH_MISMATCH));
}

#[test]
fn auxiliary_merkle_proof_index_rejects_duplicate_keys() {
    let boxes = Some(vec![
        Ok(auxiliary(3, 0, 0, vec![vec![0; 32]])),
        Ok(auxiliary(3, 0, 0, vec![vec![1; 32]])),
    ]);
    assert_eq!(
        bmff_merkle_proof_index(&boxes),
        Err("duplicate auxiliary C2PA merkle proof key".to_string())
    );
}

#[test]
fn an_altered_chunk_is_found() {
    let entry = entry_with(vec![
        ("count", Value::Integer(2)),
        ("fixedBlockSize", Value::Integer(2)),
        ("hashes", row(vec![sha(b"ab"), sha(b"cd")])),
    ]);
    let mut results = ValidationResults::new();
    assert!(!verify_monolithic(&entry, &mdat(b"abcX"), None, &mut results));
    assert!(results.has_failure(ASSERTION_BMFF_HASH_MISMATCH));
}

#[test]
fn a_leaf_climbs_to_the_root() {
    let a = sha(b"a");
    let b = sha(b"b");
    let c = sha(b"c");
    let ab = hash_parts("sha256", &[&a, &b]).unwrap();
    let root = hash_parts("sha256", &[&ab, &c]).unwrap();
    let climb = |leaf: &Vec<u8>, at: usize, proof: Vec<Vec<u8>>| {
        merkle_climb(leaf.clone(), at, 3, &proof, 1, "sha256")
    };
    assert_eq!(climb(&a, 0, vec![b.clone(), c.clone()]), Some((0, root.clone())));
    assert_eq!(climb(&b, 1, vec![a.clone(), c.clone()]), Some((0, root.clone())));
    assert_eq!(climb(&c, 2, vec![ab]), Some((0, root)));
    assert_eq!(climb(&c, 3, vec![]), None);
}

#[test]
fn fixed_chunks_tile_the_payload() {
    let payload: Vec<u8> = (0..10).collect();
    for size in 1..12usize {
        let mut chunks = BmffChunkIter {
            payload: &payload,
            layout: BmffMonolithicPlanLayout::Fixed(size),
            index: 0,
            offset: 0,
        };
        let mut joined = Vec::new();
        let mut count = 0;
        while let Some(chunk) = chunks.next() {
            let chunk = chunk.expect("a chunk");
            count += 1;
            joined.extend_from_slice(chunk);
            let full = chunk.len() == size;
            assert!(full || (joined.len() == payload.len() && !chunk.is_empty()));
        }
        assert_eq!(count, payload.len().div_ceil(size));
        assert_eq!(joined, payload);
        assert!(chunks.next().is_none());
    }
}
