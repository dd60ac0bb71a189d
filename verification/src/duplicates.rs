//! Exact duplicates by checksum, and files similar to a leading file.

use crate::cluster::ClusteringError;
use crate::distance::{lookup_score, score_at};
use crate::group::{group_members, groups_of, key_views, label_by_key, labels_of, lists_of, GroupKey};
use vstd::prelude::*;
use vstd::string::StringExecFns;

verus! {

/// Those of the first `upto` groups that have more than one member.
pub open spec fn shared_among(groups: Seq<Seq<usize>>, upto: int) -> Seq<Seq<usize>>
    decreases upto,
{
    if upto <= 0 {
        Seq::empty()
    } else if groups[upto - 1].len() > 1 {
        shared_among(groups, upto - 1).push(groups[upto - 1])
    } else {
        shared_among(groups, upto - 1)
    }
}

/// Each checksum as a grouping key.
pub open spec fn checksum_keys(checksums: Seq<String>) -> Seq<Option<(u64, Seq<char>)>> {
    Seq::new(checksums.len(), |i: int| Some((0u64, checksums[i]@)))
}

/// The groups of files with the same checksum that have more than one
/// member, as positions, in the order of their first files.
pub open spec fn duplicates_in(checksums: Seq<String>) -> Seq<Seq<usize>> {
    let groups = groups_of(labels_of(checksum_keys(checksums)));
    shared_among(groups, groups.len() as int)
}

/// Finds the files that share their checksum with another file: one group
/// of positions for each checksum that more than one file has, in the order
/// of the first file of each.
pub fn find_duplicates(checksums: &Vec<String>) -> (groups: Vec<Vec<usize>>)
    ensures
        lists_of(groups@) == duplicates_in(checksums@),
{
    let mut keys: Vec<Option<GroupKey>> = Vec::new();
    let mut i: usize = 0;
    while i < checksums.len()
        invariant
            i <= checksums.len(),
            keys@.len() == i,
            forall|t: int|
                0 <= t < i ==> (match #[trigger] keys@[t] {
                    Some(k) => Some(k@),
                    None => None,
                }) == checksum_keys(checksums@)[t],
        decreases checksums.len() - i,
    {
        keys.push(Some(GroupKey { number: 0, text: checksums[i].clone() }));
        i = i + 1;
    }
    proof {
        assert(key_views(keys@) =~= checksum_keys(checksums@));
    }
    let labels = label_by_key(&keys);
    let mut all = group_members(&labels);
    let ghost lists = lists_of(all@);
    let mut shared: Vec<Vec<usize>> = Vec::new();
    let mut g: usize = 0;
    while g < all.len()
        invariant
            g <= all.len(),
            lists_of(all@).len() == lists.len(),
            forall|k: int| g <= k < all@.len() ==> (#[trigger] all@[k])@ == lists[k],
            lists_of(shared@) =~= shared_among(lists, g as int),
        decreases all.len() - g,
    {
        if all[g].len() > 1 {
            let mut taken: Vec<usize> = Vec::new();
            let ghost earlier = shared@;
            taken.append(&mut all[g]);
            shared.push(taken);
            proof {
                assert(lists_of(shared@) =~= lists_of(earlier).push(lists[g as int]));
            }
        }
        g = g + 1;
    }
    shared
}

/// The score on record for the pair `(i, j)`, where it is a similarity: a
/// score above 100 is none.
pub open spec fn usable_score(scores: Seq<Vec<Option<u8>>>, i: int, j: int) -> Option<u8> {
    match score_at(scores, i, j) {
        Some(s) => if s <= 100 {
            Some(s)
        } else {
            None
        },
        None => None,
    }
}

/// Goes through the files from `j` on for the leading file `i`: each one
/// that is not taken and carries a hash is compared with the leader, and
/// joins `group` with its score where that reaches `threshold`. Gives the
/// group and the marks at the end, or `None` where a comparison has no
/// score.
pub open spec fn follow(
    hashed: Seq<bool>,
    scores: Seq<Vec<Option<u8>>>,
    threshold: u32,
    i: int,
    taken: Seq<bool>,
    group: Seq<(usize, u32)>,
    j: int,
) -> Option<(Seq<(usize, u32)>, Seq<bool>)>
    decreases hashed.len() - j,
{
    if j >= hashed.len() {
        Some((group, taken))
    } else if !taken[j] && hashed[j] {
        match usable_score(scores, i, j) {
            None => None,
            Some(s) => if s as u32 >= threshold {
                follow(
                    hashed,
                    scores,
                    threshold,
                    i,
                    taken.update(j, true),
                    group.push((j as usize, s as u32)),
                    j + 1,
                )
            } else {
                follow(hashed, scores, threshold, i, taken, group, j + 1)
            },
        }
    } else {
        follow(hashed, scores, threshold, i, taken, group, j + 1)
    }
}

/// The group that the file `i` leads: itself with the score 100, followed,
/// where it carries a hash, by the later files gathered for it.
pub open spec fn led_by(
    hashed: Seq<bool>,
    scores: Seq<Vec<Option<u8>>>,
    threshold: u32,
    taken: Seq<bool>,
    i: int,
) -> Option<(Seq<(usize, u32)>, Seq<bool>)> {
    let start = seq![(i as usize, 100u32)];
    if hashed[i] {
        follow(hashed, scores, threshold, i, taken.update(i, true), start, i + 1)
    } else {
        Some((start, taken.update(i, true)))
    }
}

/// The groups of similar files led by the files from `i` on that are not
/// taken; a group of the leader alone is dropped. `None` where a comparison
/// that is needed has no score.
pub open spec fn similar_from(
    hashed: Seq<bool>,
    scores: Seq<Vec<Option<u8>>>,
    threshold: u32,
    taken: Seq<bool>,
    i: int,
) -> Option<Seq<Seq<(usize, u32)>>>
    decreases hashed.len() - i,
{
    if i >= hashed.len() {
        Some(Seq::empty())
    } else if taken[i] {
        similar_from(hashed, scores, threshold, taken, i + 1)
    } else {
        match led_by(hashed, scores, threshold, taken, i) {
            None => None,
            Some((group, marks)) => match similar_from(hashed, scores, threshold, marks, i + 1) {
                None => None,
                Some(rest) => Some(
                    if group.len() > 1 {
                        seq![group] + rest
                    } else {
                        rest
                    },
                ),
            },
        }
    }
}

/// The groups of similar files among files of which `hashed` says which
/// carry a fuzzy hash.
pub open spec fn similar_groups(
    hashed: Seq<bool>,
    scores: Seq<Vec<Option<u8>>>,
    threshold: u32,
) -> Option<Seq<Seq<(usize, u32)>>> {
    similar_from(hashed, scores, threshold, Seq::new(hashed.len(), |k: int| false), 0)
}

/// The groups that a list of vectors holds.
pub open spec fn scored_lists(groups: Seq<Vec<(usize, u32)>>) -> Seq<Seq<(usize, u32)>> {
    Seq::new(groups.len(), |k: int| groups[k]@)
}

/// Groups files by similarity to a leading file. Going through the files in
/// order, each file that is in no group yet leads a group: every later file
/// that is in no group, carries a fuzzy hash, and is at least `threshold`
/// similar to the leader joins it. A group lists its files by position with
/// their similarity to the leader, the leader itself with 100; a group of
/// the leader alone is dropped. A comparison without a score fails the
/// whole request.
///
/// `hashed[i]` says whether file `i` carries a fuzzy hash, and
/// `scores[i][j]`, for `i < j`, holds the outcome of comparing the hashes of
/// files `i` and `j`.
pub fn find_similar_files(
    hashed: &Vec<bool>,
    scores: &Vec<Vec<Option<u8>>>,
    threshold: u32,
) -> (result: Result<Vec<Vec<(usize, u32)>>, ClusteringError>)
    ensures
        match result {
            Ok(groups) => similar_groups(hashed@, scores@, threshold) == Some(
                scored_lists(groups@),
            ),
            Err(e) => similar_groups(hashed@, scores@, threshold) is None
                && e is HashError,
        },
{
    let n = hashed.len();
    let mut groups: Vec<Vec<(usize, u32)>> = Vec::new();
    let mut processed: Vec<bool> = Vec::new();
    let mut a: usize = 0;
    while a < n
        invariant
            a <= n,
            processed@.len() == a,
            forall|k: int| 0 <= k < a ==> !(#[trigger] processed@[k]),
        decreases n - a,
    {
        processed.push(false);
        a = a + 1;
    }
    proof {
        assert(processed@ =~= Seq::new(hashed@.len(), |k: int| false));
    }
    let ghost whole = similar_groups(hashed@, scores@, threshold);
    let mut i: usize = 0;
    while i < n
        invariant
            i <= n,
            n == hashed@.len(),
            processed@.len() == n,
            whole == similar_groups(hashed@, scores@, threshold),
            whole == (match similar_from(hashed@, scores@, threshold, processed@, i as int) {
                Some(rest) => Some(scored_lists(groups@) + rest),
                None => None,
            }),
        decreases n - i,
    {
        if !processed[i] {
            let ghost marks_start = processed@;
            let mut group: Vec<(usize, u32)> = Vec::new();
            group.push((i, 100));
            processed.set(i, true);
            proof {
                assert(group@ =~= seq![(i, 100u32)]);
            }
            if hashed[i] {
                let mut j: usize = i + 1;
                while j < n
                    invariant
                        i < n,
                        i + 1 <= j <= n,
                        n == hashed@.len(),
                        processed@.len() == n,
                        hashed@[i as int],
                        led_by(hashed@, scores@, threshold, marks_start, i as int) == follow(
                            hashed@,
                            scores@,
                            threshold,
                            i as int,
                            processed@,
                            group@,
                            j as int,
                        ),
                        whole == similar_groups(hashed@, scores@, threshold),
                        similar_from(
                            hashed@,
                            scores@,
                            threshold,
                            marks_start,
                            i as int,
                        ) is None ==> whole is None,
                        !marks_start[i as int],
                        marks_start.len() == n,
                    decreases n - j,
                {
                    if !processed[j] && hashed[j] {
                        let usable = match lookup_score(scores, i, j) {
                            Some(s) => if s <= 100 {
                                Some(s)
                            } else {
                                None
                            },
                            None => None,
                        };
                        match usable {
                            Some(s) => {
                                if s as u32 >= threshold {
                                    group.push((j, s as u32));
                                    processed.set(j, true);
                                }
                            },
                            None => {
                                return Err(
                                    ClusteringError::HashError(
                                        String::from_str("similarity comparison failed"),
                                    ),
                                );
                            },
                        }
                    }
                    j = j + 1;
                }
            }
            let ghost earlier = groups@;
            let ghost led = group@;
            if group.len() > 1 {
                groups.push(group);
            }
            proof {
                let rest = similar_from(hashed@, scores@, threshold, processed@, i + 1);
                assert(led_by(hashed@, scores@, threshold, marks_start, i as int) == Some(
                    (led, processed@),
                ));
                if rest is Some {
                    if led.len() > 1 {
                        assert(scored_lists(groups@) =~= scored_lists(earlier).push(led));
                        assert(scored_lists(earlier) + (seq![led] + rest->0) =~= scored_lists(
                            groups@,
                        ) + rest->0);
                    }
                }
            }
        }
        i = i + 1;
    }
    proof {
        assert(scored_lists(groups@) + Seq::<Seq<(usize, u32)>>::empty() =~= scored_lists(groups@));
    }
    Ok(groups)
}

} // verus!
