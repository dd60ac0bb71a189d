//! From pairwise fuzzy-hash comparisons to a symmetric distance matrix.

use crate::matrix::{dimension_fits, DistanceMatrix};
use crate::model::{records_of, FileRecord, SimpleFileInfo};
use vstd::prelude::*;

verus! {

/// Distance between two files whose fuzzy hashes score `similarity`.
pub open spec fn distance_of(similarity: u8) -> int {
    100 - similarity
}

/// Converts a similarity score into a distance: identical content is at
/// distance 0, unrelated content at distance 100.
pub fn similarity_to_distance(similarity: u8) -> (distance: i32)
    ensures
        distance == distance_of(similarity),
{
    100 - similarity as i32
}

/// A higher similarity gives a strictly lower distance; full similarity is
/// distance 0 and no similarity is distance 100.
pub proof fn distance_strictly_decreasing(s1: u8, s2: u8)
    ensures
        s1 < s2 ==> distance_of(s1) > distance_of(s2),
        s1 == s2 ==> distance_of(s1) == distance_of(s2),
        distance_of(100) == 0,
        distance_of(0) == 100,
{
}

/// The outcome recorded in `scores` for comparing the hashes of files `i` and
/// `j`: `None` where the table has no such entry or the comparison failed.
pub open spec fn score_at(scores: Seq<Vec<Option<u8>>>, i: int, j: int) -> Option<u8> {
    if 0 <= i < scores.len() && 0 <= j < scores[i]@.len() {
        scores[i]@[j]
    } else {
        None
    }
}

/// The similarity of two files given the outcome of comparing their hashes.
/// It is 0 where either file has no hash or the comparison gave no score; a
/// score above 100 is no similarity and counts as no score.
pub open spec fn similarity_given(a: FileRecord, b: FileRecord, outcome: Option<u8>) -> u8 {
    if a.fuzzy_hash is Some && b.fuzzy_hash is Some && outcome is Some && outcome->0 <= 100 {
        outcome->0
    } else {
        0
    }
}

/// The distance between files `i` and `j` of `files` under `scores`.
pub open spec fn pair_distance(
    files: Seq<FileRecord>,
    scores: Seq<Vec<Option<u8>>>,
    i: int,
    j: int,
) -> int {
    distance_of(similarity_given(files[i], files[j], score_at(scores, i, j)))
}

/// The distance matrix over the files `picked` out of `files`: cell `(a, b)`
/// with `a < b` holds the distance of the pair `(picked[a], picked[b])`, the
/// cell `(b, a)` mirrors it, and the diagonal is zero.
pub open spec fn is_distance_matrix(
    m: Seq<Seq<i32>>,
    files: Seq<FileRecord>,
    scores: Seq<Vec<Option<u8>>>,
    picked: Seq<usize>,
) -> bool {
    &&& m.len() == picked.len()
    &&& forall|a: int| 0 <= a < m.len() ==> (#[trigger] m[a]).len() == picked.len()
    &&& forall|a: int, b: int|
        0 <= a < m.len() && 0 <= b < m.len() ==> #[trigger] m[a][b] == (if a == b {
            0
        } else if a < b {
            pair_distance(files, scores, picked[a] as int, picked[b] as int)
        } else {
            pair_distance(files, scores, picked[b] as int, picked[a] as int)
        })
}

/// Looks up the outcome of comparing files `i` and `j`.
pub fn lookup_score(scores: &Vec<Vec<Option<u8>>>, i: usize, j: usize) -> (outcome: Option<u8>)
    ensures
        outcome == score_at(scores@, i as int, j as int),
{
    if i < scores.len() {
        let row = &scores[i];
        if j < row.len() {
            return row[j];
        }
    }
    None
}

/// The similarity of two files, given the outcome of comparing their fuzzy
/// hashes: 0 unless both files carry a hash and the comparison gave a score.
pub fn calculate_similarity_safe(a: &SimpleFileInfo, b: &SimpleFileInfo, outcome: Option<u8>) -> (s:
    u8)
    ensures
        s == similarity_given(a@, b@, outcome),
        s <= 100,
{
    if a.ssdeep_hash.is_some() && b.ssdeep_hash.is_some() {
        match outcome {
            Some(score) => if score <= 100 {
                score
            } else {
                0
            },
            None => 0,
        }
    } else {
        0
    }
}

/// The distance matrix over the files at the positions `picked`.
pub fn build_matrix_over(
    files: &[SimpleFileInfo],
    scores: &Vec<Vec<Option<u8>>>,
    picked: &Vec<usize>,
) -> (m: DistanceMatrix)
    requires
        dimension_fits(picked@.len()),
        forall|a: int| 0 <= a < picked@.len() ==> (#[trigger] picked@[a]) < files@.len(),
    ensures
        m.wf(),
        is_distance_matrix(m@, records_of(files@), scores@, picked@),
{
    let n = picked.len();
    let ghost recs = records_of(files@);
    let mut m = DistanceMatrix::zeros(n);
    let mut i: usize = 0;
    while i < n
        invariant
            i <= n,
            n == picked@.len(),
            recs == records_of(files@),
            forall|a: int| 0 <= a < picked@.len() ==> (#[trigger] picked@[a]) < files@.len(),
            m.wf(),
            m.spec_dim() == n,
            forall|a: int, b: int|
                0 <= a < n && 0 <= b < n ==> #[trigger] m.at(a, b) == (if a == b || (a >= i && b
                    >= i) {
                    0
                } else if a < b {
                    pair_distance(recs, scores@, picked@[a] as int, picked@[b] as int)
                } else {
                    pair_distance(recs, scores@, picked@[b] as int, picked@[a] as int)
                }),
        decreases n - i,
    {
        let mut j: usize = i + 1;
        while j < n
            invariant
                i < n,
                i < j <= n,
                n == picked@.len(),
                recs == records_of(files@),
                forall|a: int| 0 <= a < picked@.len() ==> (#[trigger] picked@[a]) < files@.len(),
                m.wf(),
                m.spec_dim() == n,
                forall|a: int, b: int|
                    0 <= a < n && 0 <= b < n ==> #[trigger] m.at(a, b) == (if a == b || (a > i
                        && b > i) || (a == i && b >= j) || (b == i && a >= j) {
                        0
                    } else if a < b {
                        pair_distance(recs, scores@, picked@[a] as int, picked@[b] as int)
                    } else {
                        pair_distance(recs, scores@, picked@[b] as int, picked@[a] as int)
                    }),
            decreases n - j,
        {
            let fi = picked[i];
            let fj = picked[j];
            let outcome = lookup_score(scores, fi, fj);
            let similarity = calculate_similarity_safe(&files[fi], &files[fj], outcome);
            let distance = similarity_to_distance(similarity);
            m.set(i, j, distance);
            m.set(j, i, distance);
            j = j + 1;
        }
        i = i + 1;
    }
    proof {
        assert forall|a: int, b: int| 0 <= a < n && 0 <= b < n implies #[trigger] m@[a][b] == (if a
            == b {
            0
        } else if a < b {
            pair_distance(recs, scores@, picked@[a] as int, picked@[b] as int)
        } else {
            pair_distance(recs, scores@, picked@[b] as int, picked@[a] as int)
        }) by {
            assert(m.at(a, b) == m@[a][b]);
        }
    }
    m
}

/// The identity selection `0, 1, .., n - 1`.
pub fn all_positions(n: usize) -> (picked: Vec<usize>)
    ensures
        picked@.len() == n,
        forall|a: int| 0 <= a < n ==> #[trigger] picked@[a] == a,
{
    let mut picked: Vec<usize> = Vec::new();
    let mut i: usize = 0;
    while i < n
        invariant
            i <= n,
            picked@.len() == i,
            forall|a: int| 0 <= a < i ==> #[trigger] picked@[a] == a,
        decreases n - i,
    {
        picked.push(i);
        i = i + 1;
    }
    picked
}

/// Builds the pairwise distance matrix of `files`: the distance of each pair
/// `i < j` is `100 - similarity`, mirrored below the diagonal, and every file
/// is at distance 0 from itself.
pub fn build_distance_matrix(files: &[SimpleFileInfo], scores: &Vec<Vec<Option<u8>>>) -> (m:
    DistanceMatrix)
    requires
        dimension_fits(files@.len()),
    ensures
        m.wf(),
        m.spec_dim() == files@.len(),
        m.is_symmetric(),
        m.has_zero_diagonal(),
        forall|i: int, j: int|
            0 <= i < j < files@.len() ==> #[trigger] m.at(i, j) == pair_distance(
                records_of(files@),
                scores@,
                i,
                j,
            ),
        forall|i: int, j: int|
            0 <= i < files@.len() && 0 <= j < files@.len() ==> 0 <= #[trigger] m.at(i, j) <= 100,
{
    let picked = all_positions(files.len());
    let m = build_matrix_over(files, scores, &picked);
    proof {
        distance_matrix_properties(m@, records_of(files@), scores@, picked@);
    }
    m
}

/// A distance matrix is symmetric, has a zero diagonal, and holds distances
/// between 0 and 100.
pub proof fn distance_matrix_properties(
    m: Seq<Seq<i32>>,
    files: Seq<FileRecord>,
    scores: Seq<Vec<Option<u8>>>,
    picked: Seq<usize>,
)
    requires
        is_distance_matrix(m, files, scores, picked),
    ensures
        forall|a: int, b: int|
            0 <= a < m.len() && 0 <= b < m.len() ==> #[trigger] m[a][b] == m[b][a],
        forall|a: int| 0 <= a < m.len() ==> #[trigger] m[a][a] == 0,
        forall|a: int, b: int|
            0 <= a < m.len() && 0 <= b < m.len() ==> 0 <= #[trigger] m[a][b] <= 100,
{
    assert forall|a: int, b: int| 0 <= a < m.len() && 0 <= b < m.len() implies #[trigger] m[a][b]
        == m[b][a] by {
        assert(m[b][a] == m[b][a]);
    }
}

} // verus!
