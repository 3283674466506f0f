//! Merkle trees with null-node promotion: rows, proofs and the climb from a
//! leaf to a stored row.
use vstd::prelude::*;
use crate::hash;
use crate::hash::{extend, hash_bytes};

verus! {

/// Half of `n`, rounded up: the size of the row above one of `n` nodes.
pub open spec fn half_up(n: nat) -> nat {
    (n + 1) / 2
}

/// The other node of the pair that holds node `i`.
pub open spec fn sibling(i: nat) -> nat {
    if i % 2 == 0 {
        i + 1
    } else {
        (i - 1) as nat
    }
}

/// The bytes hashed for the parent of node `i` with the hash `h` and its
/// sibling `s`: left before right.
pub open spec fn pair_bytes(i: nat, h: Seq<u8>, s: Seq<u8>) -> Seq<u8> {
    if i % 2 == 0 {
        h + s
    } else {
        s + h
    }
}

/// Proof hashes as byte sequences.
pub open spec fn proof_views(p: Seq<Vec<u8>>) -> Seq<Seq<u8>> {
    p.map_values(|h: Vec<u8>| h@)
}

/// Climb from node `i` with hash `h` in a row of `n` nodes to the row of
/// `row_len` nodes. A node without a sibling is promoted unchanged and uses no
/// proof hash. The whole proof must be used and the row size must be met.
pub open spec fn climb(
    h: Seq<u8>,
    i: nat,
    n: nat,
    proof_hashes: Seq<Seq<u8>>,
    row_len: nat,
    alg: Seq<char>,
) -> Option<(nat, Seq<u8>)>
    decreases n,
{
    if row_len == 0 {
        None
    } else if n <= row_len {
        if n == row_len && proof_hashes.len() == 0 {
            Some((i, h))
        } else {
            None
        }
    } else if sibling(i) < n {
        if proof_hashes.len() == 0 {
            None
        } else {
            match hash::named_digest(alg, pair_bytes(i, h, proof_hashes[0])) {
                Some(parent) => climb(
                    parent,
                    i / 2,
                    half_up(n),
                    proof_hashes.subrange(1, proof_hashes.len() as int),
                    row_len,
                    alg,
                ),
                None => None,
            }
        }
    } else {
        climb(h, i / 2, half_up(n), proof_hashes, row_len, alg)
    }
}

/// What a climb from a leaf of a tree with `count` leaves derives.
pub open spec fn derived(
    leaf: Seq<u8>,
    location: usize,
    count: usize,
    proof_hashes: Seq<Seq<u8>>,
    row_len: usize,
    alg: Seq<char>,
) -> Option<(nat, Seq<u8>)> {
    if row_len == 0 || count == 0 || location >= count {
        None
    } else {
        climb(leaf, location as nat, count as nat, proof_hashes, row_len as nat, alg)
    }
}

/// Climb a Merkle proof from a leaf to the stored row.
///
/// Returns the position in the row and the hash that was derived, or nothing
/// where the proof does not fit the distance between the two rows.
pub fn merkle_climb(
    leaf: Vec<u8>,
    location: usize,
    count: usize,
    proof_hashes: &[Vec<u8>],
    row_len: usize,
    alg: &str,
) -> (r: Option<(usize, Vec<u8>)>)
    ensures
        match r {
            Some((i, h)) => derived(
                leaf@,
                location,
                count,
                proof_views(proof_hashes@),
                row_len,
                alg@,
            ) == Some((i as nat, h@)),
            None => derived(leaf@, location, count, proof_views(proof_hashes@), row_len, alg@)
                is None,
        },
{
    if row_len == 0 || count == 0 || location >= count {
        return None;
    }
    let ghost p = proof_views(proof_hashes@);
    let ghost whole = climb(
        leaf@,
        location as nat,
        count as nat,
        p,
        row_len as nat,
        alg@,
    );
    let mut h = leaf;
    let mut i: usize = location;
    let mut n: usize = count;
    let mut used: usize = 0;
    assert(p.subrange(0, p.len() as int) =~= p);
    while n > row_len
        invariant
            0 < row_len,
            i < n,
            used <= proof_hashes.len(),
            p == proof_views(proof_hashes@),
            p.len() == proof_hashes@.len(),
            climb(
                h@,
                i as nat,
                n as nat,
                p.subrange(used as int, p.len() as int),
                row_len as nat,
                alg@,
            ) == whole,
            derived(leaf@, location, count, p, row_len, alg@) == whole,
        decreases n,
    {
        let s: usize = if i % 2 == 0 {
            i + 1
        } else {
            i - 1
        };
        if s < n {
            if used >= proof_hashes.len() {
                return None;
            }
            let ghost rest = p.subrange(used as int, p.len() as int);
            assert(rest[0] == proof_hashes@[used as int]@);
            assert(rest.subrange(1, rest.len() as int) =~= p.subrange(used + 1, p.len() as int));
            let other = proof_hashes[used].as_slice();
            let mut buf: Vec<u8> = Vec::new();
            if i % 2 == 0 {
                extend(&mut buf, h.as_slice());
                extend(&mut buf, other);
            } else {
                extend(&mut buf, other);
                extend(&mut buf, h.as_slice());
            }
            assert(buf@ =~= pair_bytes(i as nat, h@, other@));
            h = match hash_bytes(alg, buf.as_slice()) {
                Some(parent) => parent,
                None => {
                    return None;
                },
            };
            used += 1;
        }
        i = i / 2;
        n = n / 2 + n % 2;
    }
    if n != row_len || used != proof_hashes.len() {
        return None;
    }
    assert(p.subrange(used as int, p.len() as int) =~= Seq::<Seq<u8>>::empty());
    Some((i, h))
}

// ---------------------------------------------------------------------------
// Honest trees
// ---------------------------------------------------------------------------

/// The row above `row`: pairs are hashed, a lone last node is promoted.
pub open spec fn row_above(row: Seq<Seq<u8>>, alg: hash::HashAlgorithm) -> Seq<Seq<u8>> {
    Seq::new(
        half_up(row.len()),
        |i: int|
            if 2 * i + 1 < row.len() {
                hash::digest_of(alg, row[2 * i] + row[2 * i + 1])
            } else {
                row[2 * i]
            },
    )
}

/// The first row at or above `row` with at most `row_len` nodes.
pub open spec fn stored_row(
    row: Seq<Seq<u8>>,
    row_len: nat,
    alg: hash::HashAlgorithm,
) -> Seq<Seq<u8>>
    decreases row.len(),
{
    if row_len == 0 || row.len() <= row_len {
        row
    } else {
        stored_row(row_above(row, alg), row_len, alg)
    }
}

/// The sibling hashes on the way from node `i` of `row` to the stored row.
pub open spec fn proof_of(
    row: Seq<Seq<u8>>,
    i: nat,
    row_len: nat,
    alg: hash::HashAlgorithm,
) -> Seq<Seq<u8>>
    decreases row.len(),
{
    if row_len == 0 || row.len() <= row_len {
        Seq::empty()
    } else {
        let rest = proof_of(row_above(row, alg), i / 2, row_len, alg);
        if sibling(i) < row.len() {
            seq![row[sibling(i) as int]] + rest
        } else {
            rest
        }
    }
}

/// The position in the stored row that node `i` of a row of `n` nodes lies under.
pub open spec fn stored_position(n: nat, i: nat, row_len: nat) -> nat
    decreases n,
{
    if row_len == 0 || n <= row_len {
        i
    } else {
        stored_position(half_up(n), i / 2, row_len)
    }
}

/// Every leaf of a tree climbs, with its own proof, to the node of the stored
/// row that it lies under.
pub proof fn honest_proof_climbs(
    row: Seq<Seq<u8>>,
    i: nat,
    row_len: nat,
    name: Seq<char>,
    alg: hash::HashAlgorithm,
)
    requires
        0 < row_len,
        i < row.len(),
        hash::algorithm_named(name) == Some(alg),
        stored_row(row, row_len, alg).len() == row_len,
    ensures
        stored_position(row.len(), i, row_len) < row_len,
        climb(row[i as int], i, row.len(), proof_of(row, i, row_len, alg), row_len, name) == Some(
            (
                stored_position(row.len(), i, row_len),
                stored_row(row, row_len, alg)[stored_position(row.len(), i, row_len) as int],
            ),
        ),
    decreases row.len(),
{
    if row.len() > row_len {
        let above = row_above(row, alg);
        let p = proof_of(row, i, row_len, alg);
        let rest = proof_of(above, i / 2, row_len, alg);
        honest_proof_climbs(above, i / 2, row_len, name, alg);
        if sibling(i) < row.len() {
            assert(p.subrange(1, p.len() as int) =~= rest);
            assert(pair_bytes(i, row[i as int], p[0]) == row[2 * (i as int / 2)] + row[2 * (
            i as int / 2) + 1]);
            assert(above[i as int / 2] == hash::digest_of(
                alg,
                pair_bytes(i, row[i as int], p[0]),
            ));
        } else {
            assert(i % 2 == 0);
            assert(above[i as int / 2] == row[i as int]);
        }
    }
}

/// How many proof hashes the climb from node `i` of a row of `n` nodes takes.
pub open spec fn siblings_met(n: nat, i: nat, row_len: nat) -> nat
    decreases n,
{
    if row_len == 0 || n <= row_len {
        0
    } else if sibling(i) < n {
        1 + siblings_met(half_up(n), i / 2, row_len)
    } else {
        siblings_met(half_up(n), i / 2, row_len)
    }
}

/// A climb succeeds only with a proof of exactly as many hashes as there are
/// siblings on the way, and it ends at the place that the leaf lies under. A
/// surplus hash, or a missing one, makes it fail.
pub proof fn climbs_use_the_whole_proof(
    h: Seq<u8>,
    i: nat,
    n: nat,
    proof_hashes: Seq<Seq<u8>>,
    row_len: nat,
    alg: Seq<char>,
)
    requires
        i < n,
        climb(h, i, n, proof_hashes, row_len, alg) is Some,
    ensures
        proof_hashes.len() == siblings_met(n, i, row_len),
        (climb(h, i, n, proof_hashes, row_len, alg)->0).0 == stored_position(n, i, row_len),
        (climb(h, i, n, proof_hashes, row_len, alg)->0).0 < row_len,
    decreases n,
{
    if n > row_len {
        if sibling(i) < n {
            let parent = hash::named_digest(alg, pair_bytes(i, h, proof_hashes[0]))->0;
            climbs_use_the_whole_proof(
                parent,
                i / 2,
                half_up(n),
                proof_hashes.subrange(1, proof_hashes.len() as int),
                row_len,
                alg,
            );
        } else {
            climbs_use_the_whole_proof(h, i / 2, half_up(n), proof_hashes, row_len, alg);
        }
    }
}

/// A climb starts only from a leaf of the tree, and only to a row that is not
/// empty.
pub proof fn climbs_start_from_a_leaf(
    leaf: Seq<u8>,
    location: usize,
    count: usize,
    proof_hashes: Seq<Seq<u8>>,
    row_len: usize,
    alg: Seq<char>,
)
    ensures
        derived(leaf, location, count, proof_hashes, row_len, alg) is Some ==> location < count && 0
            < row_len <= count,
        location < count && 0 < row_len ==> derived(
            leaf,
            location,
            count,
            proof_hashes,
            row_len,
            alg,
        ) == climb(leaf, location as nat, count as nat, proof_hashes, row_len as nat, alg),
{
}

} // verus!
