//! Merging clusters that share files.

use crate::cluster::{clusters_of, ClusterView, LargeFileCluster};
use crate::model::{records_of, sum_sizes, total_size, total_size_push, FileRecord, SimpleFileInfo};
use vstd::prelude::*;

verus! {

/// Some record of `files` has the path `path`.
pub open spec fn has_path(files: Seq<FileRecord>, path: Seq<char>) -> bool {
    exists|k: int| 0 <= k < files.len() && (#[trigger] files[k]).path == path
}

/// Some file of `other` has the path of a file of `acc`.
pub open spec fn overlaps(acc: Seq<FileRecord>, other: Seq<FileRecord>) -> bool {
    exists|k: int| 0 <= k < other.len() && has_path(acc, (#[trigger] other[k]).path)
}

/// `acc` followed by those of the first `upto` files of `other` whose path
/// was not met before, in order.
pub open spec fn absorb(acc: Seq<FileRecord>, other: Seq<FileRecord>, upto: int) -> Seq<
    FileRecord,
>
    decreases upto,
{
    if upto <= 0 {
        acc
    } else {
        let prev = absorb(acc, other, upto - 1);
        if has_path(prev, other[upto - 1].path) {
            prev
        } else {
            prev.push(other[upto - 1])
        }
    }
}

/// Clusters `i` and `j` share a file path.
pub open spec fn shares(clusters: Seq<ClusterView>, i: int, j: int) -> bool {
    overlaps(clusters[i].files, clusters[j].files)
}

/// From cluster `i` one gets to cluster `j` in `steps` steps, each from a
/// cluster to one that shares a path with it.
pub open spec fn linked(clusters: Seq<ClusterView>, i: int, j: int, steps: nat) -> bool
    decreases steps,
{
    if steps == 0 {
        i == j
    } else {
        exists|k: int|
            0 <= k < clusters.len() && #[trigger] shares(clusters, i, k) && linked(
                clusters,
                k,
                j,
                (steps - 1) as nat,
            )
    }
}

/// Clusters `i` and `j` are in one class: a chain of clusters, each sharing
/// a path with the next, leads from one to the other.
pub open spec fn connected(clusters: Seq<ClusterView>, i: int, j: int) -> bool {
    exists|steps: nat| linked(clusters, i, j, steps)
}

/// `class` names for each cluster the first cluster of its class: a cluster
/// that is not after it and connected with it, the same for all clusters
/// that are connected.
pub open spec fn is_classing(clusters: Seq<ClusterView>, class: Seq<usize>) -> bool {
    &&& class.len() == clusters.len()
    &&& forall|i: int| 0 <= i < class.len() ==> (#[trigger] class[i]) <= i
    &&& forall|i: int| 0 <= i < class.len() ==> connected(clusters, i, #[trigger] class[i] as int)
    &&& forall|i: int, j: int|
        0 <= i < class.len() && 0 <= j < class.len() && #[trigger] connected(clusters, i, j)
            ==> class[i] == class[j]
}

/// For each cluster, the first cluster of its class.
pub open spec fn classes_of(clusters: Seq<ClusterView>) -> Seq<usize> {
    choose|class: Seq<usize>| is_classing(clusters, class)
}

/// The files of the clusters of class `h` among the first `upto` clusters,
/// in the order of the clusters, each path once: of the files with one path
/// the first stays.
pub open spec fn class_files(
    clusters: Seq<ClusterView>,
    class: Seq<usize>,
    h: int,
    upto: int,
) -> Seq<FileRecord>
    decreases upto,
{
    if upto <= 0 {
        Seq::empty()
    } else {
        let prev = class_files(clusters, class, h, upto - 1);
        if class[upto - 1] == h {
            absorb(prev, clusters[upto - 1].files, clusters[upto - 1].files.len() as int)
        } else {
            prev
        }
    }
}

/// The cluster that class `h` merges into: it keeps the id and the
/// statistics of the first cluster of the class, holds the files of the
/// class, and has their size.
pub open spec fn merged_class(clusters: Seq<ClusterView>, class: Seq<usize>, h: int) -> ClusterView {
    let files = class_files(clusters, class, h, clusters.len() as int);
    ClusterView {
        cluster_id: clusters[h].cluster_id,
        files,
        total_size: total_size(files),
        avg_similarity: clusters[h].avg_similarity,
        density: clusters[h].density,
    }
}

/// The merged clusters of the classes that start among the first `upto`
/// clusters, in the order of their first clusters.
pub open spec fn merged_with(clusters: Seq<ClusterView>, class: Seq<usize>, upto: int) -> Seq<
    ClusterView,
>
    decreases upto,
{
    if upto <= 0 {
        Seq::empty()
    } else if class[upto - 1] == upto - 1 {
        merged_with(clusters, class, upto - 1).push(merged_class(clusters, class, upto - 1))
    } else {
        merged_with(clusters, class, upto - 1)
    }
}

/// The result of merging overlapping clusters: one cluster for each class of
/// clusters under the transitive closure of sharing a file path. The merged
/// cluster holds the files of all clusters of its class, each path once, and
/// its size is the sum over the files it holds.
pub open spec fn merged(clusters: Seq<ClusterView>) -> Seq<ClusterView> {
    merged_with(clusters, classes_of(clusters), clusters.len() as int)
}

/// Sharing a path goes both ways.
pub proof fn overlaps_symmetric(a: Seq<FileRecord>, b: Seq<FileRecord>)
    requires
        overlaps(a, b),
    ensures
        overlaps(b, a),
{
    let k = choose|k: int| 0 <= k < b.len() && has_path(a, (#[trigger] b[k]).path);
    let t = choose|t: int| 0 <= t < a.len() && (#[trigger] a[t]).path == b[k].path;
    assert(has_path(b, a[t].path)) by {
        assert(b[k].path == a[t].path);
    }
}

/// A cluster that shares a path with a cluster is connected with whatever
/// that cluster is connected with.
pub proof fn connected_through(clusters: Seq<ClusterView>, i: int, j: int, k: int)
    requires
        0 <= j < clusters.len(),
        shares(clusters, i, j),
        connected(clusters, j, k),
    ensures
        connected(clusters, i, k),
{
    let steps = choose|steps: nat| linked(clusters, j, k, steps);
    assert(linked(clusters, i, k, steps + 1)) by {
        assert(shares(clusters, i, j) && linked(clusters, j, k, ((steps + 1) - 1) as nat));
    }
}

/// Where clusters that share a path have one label, so have clusters that a
/// chain links.
pub proof fn linked_same_label(
    clusters: Seq<ClusterView>,
    labels: Seq<usize>,
    i: int,
    j: int,
    steps: nat,
)
    requires
        labels.len() == clusters.len(),
        0 <= i < clusters.len(),
        linked(clusters, i, j, steps),
        forall|a: int, b: int|
            0 <= a < clusters.len() && 0 <= b < clusters.len() && #[trigger] shares(clusters, a, b)
                ==> labels[a] == labels[b],
    ensures
        0 <= j < clusters.len(),
        labels[i] == labels[j],
    decreases steps,
{
    if steps > 0 {
        let via = choose|via: int|
            0 <= via < clusters.len() && #[trigger] shares(clusters, i, via) && linked(
                clusters,
                via,
                j,
                (steps - 1) as nat,
            );
        linked_same_label(clusters, labels, via, j, (steps - 1) as nat);
    }
}

/// There is one way only to name the first cluster of each class.
pub proof fn classing_is_unique(clusters: Seq<ClusterView>, first: Seq<usize>, second: Seq<usize>)
    requires
        is_classing(clusters, first),
        is_classing(clusters, second),
    ensures
        first == second,
{
    assert forall|i: int| 0 <= i < first.len() implies first[i] == second[i] by {
        let a = first[i] as int;
        let b = second[i] as int;
        assert(connected(clusters, i, a));
        assert(second[i] == second[a]);
        assert(second[a] <= a);
        assert(connected(clusters, i, b));
        assert(first[i] == first[b]);
        assert(first[b] <= b);
    }
    assert(first =~= second);
}

/// The sum of the labels.
pub open spec fn label_sum(labels: Seq<usize>) -> int
    decreases labels.len(),
{
    if labels.len() == 0 {
        0
    } else {
        label_sum(labels.drop_last()) + labels.last()
    }
}

/// Changing one label changes the sum by as much.
pub proof fn label_sum_update(labels: Seq<usize>, k: int, value: usize)
    requires
        0 <= k < labels.len(),
    ensures
        label_sum(labels.update(k, value)) == label_sum(labels) - labels[k] + value,
        label_sum(labels) >= 0,
    decreases labels.len(),
{
    let changed = labels.update(k, value);
    if k == labels.len() - 1 {
        assert(changed.drop_last() =~= labels.drop_last());
        label_sum_nonnegative(labels.drop_last());
    } else {
        label_sum_update(labels.drop_last(), k, value);
        assert(changed.drop_last() =~= labels.drop_last().update(k, value));
    }
}

/// A sum of labels is not negative.
pub proof fn label_sum_nonnegative(labels: Seq<usize>)
    ensures
        label_sum(labels) >= 0,
    decreases labels.len(),
{
    if labels.len() > 0 {
        label_sum_nonnegative(labels.drop_last());
    }
}

/// The files of a class weigh no more than the clusters they are taken from.
pub proof fn class_files_total(
    clusters: Seq<ClusterView>,
    class: Seq<usize>,
    h: int,
    upto: int,
)
    requires
        0 <= upto <= clusters.len(),
    ensures
        total_size(class_files(clusters, class, h, upto)) <= grand_total(clusters, upto),
    decreases upto,
{
    if upto > 0 {
        class_files_total(clusters, class, h, upto - 1);
        let files = clusters[upto - 1].files;
        if class[upto - 1] == h {
            absorb_total(class_files(clusters, class, h, upto - 1), files, files.len() as int);
            assert(files.take(files.len() as int) =~= files);
        }
    }
}

/// The sum of the sizes of the files of the first `upto` clusters, a file
/// counted once for each cluster that holds it.
pub open spec fn grand_total(clusters: Seq<ClusterView>, upto: int) -> nat
    decreases upto,
{
    if upto <= 0 {
        0
    } else {
        grand_total(clusters, upto - 1) + total_size(clusters[upto - 1].files)
    }
}

/// The running total never decreases.
pub proof fn grand_total_monotone(clusters: Seq<ClusterView>, a: int, b: int)
    requires
        0 <= a <= b,
    ensures
        grand_total(clusters, a) <= grand_total(clusters, b),
    decreases b - a,
{
    if a < b {
        grand_total_monotone(clusters, a, b - 1);
    }
}

/// Absorbing files adds at most their sizes.
pub proof fn absorb_total(acc: Seq<FileRecord>, other: Seq<FileRecord>, upto: int)
    requires
        0 <= upto <= other.len(),
    ensures
        total_size(absorb(acc, other, upto)) <= total_size(acc) + total_size(other.take(upto)),
    decreases upto,
{
    if upto > 0 {
        absorb_total(acc, other, upto - 1);
        let prev = absorb(acc, other, upto - 1);
        assert(other.take(upto) =~= other.take(upto - 1).push(other[upto - 1]));
        total_size_push(other.take(upto - 1), other[upto - 1]);
        total_size_push(prev, other[upto - 1]);
    }
}

/// Whether a file of `files` has the path `path`.
fn holds_path(files: &Vec<SimpleFileInfo>, path: &String) -> (found: bool)
    ensures
        found == has_path(records_of(files@), path@),
{
    let mut k: usize = 0;
    while k < files.len()
        invariant
            k <= files.len(),
            forall|t: int| 0 <= t < k ==> (#[trigger] records_of(files@)[t]).path != path@,
        decreases files.len() - k,
    {
        if files[k].path == *path {
            assert(records_of(files@)[k as int].path == path@);
            return true;
        }
        k = k + 1;
    }
    false
}

/// Whether a file of `other` has the path of a file of `acc`.
fn shares_path(acc: &Vec<SimpleFileInfo>, other: &Vec<SimpleFileInfo>) -> (found: bool)
    ensures
        found == overlaps(records_of(acc@), records_of(other@)),
{
    let mut k: usize = 0;
    while k < other.len()
        invariant
            k <= other.len(),
            forall|t: int|
                0 <= t < k ==> !has_path(
                    records_of(acc@),
                    (#[trigger] records_of(other@)[t]).path,
                ),
        decreases other.len() - k,
    {
        if holds_path(acc, &other[k].path) {
            assert(has_path(records_of(acc@), records_of(other@)[k as int].path));
            return true;
        }
        k = k + 1;
    }
    false
}

/// Appends to `acc` the files of `other` whose path it does not hold yet.
fn absorb_files(acc: &mut Vec<SimpleFileInfo>, other: &Vec<SimpleFileInfo>)
    ensures
        records_of(final(acc)@) == absorb(
            records_of(old(acc)@),
            records_of(other@),
            other@.len() as int,
        ),
{
    let ghost start = records_of(acc@);
    let mut k: usize = 0;
    while k < other.len()
        invariant
            k <= other.len(),
            records_of(acc@) == absorb(start, records_of(other@), k as int),
        decreases other.len() - k,
    {
        let ghost earlier = acc@;
        if !holds_path(acc, &other[k].path) {
            let copy = other[k].duplicate();
            acc.push(copy);
            proof {
                assert(records_of(acc@) =~= records_of(earlier).push(records_of(other@)[k as int]));
            }
        }
        k = k + 1;
    }
}

/// No two of `files` have the same path.
pub open spec fn distinct_paths(files: Seq<FileRecord>) -> bool {
    forall|a: int, b: int|
        0 <= a < b < files.len() ==> (#[trigger] files[a]).path != (#[trigger] files[b]).path
}

/// Some cluster of class `h` among the first `upto` clusters holds a file
/// with the path `path`.
pub open spec fn class_has_path(
    clusters: Seq<ClusterView>,
    class: Seq<usize>,
    h: int,
    upto: int,
    path: Seq<char>,
) -> bool {
    exists|j: int|
        0 <= j < upto && class[j] == h && has_path((#[trigger] clusters[j]).files, path)
}

/// The first clusters of the classes that start among the first `upto`
/// clusters, in ascending order.
pub open spec fn class_heads(class: Seq<usize>, upto: int) -> Seq<int>
    decreases upto,
{
    if upto <= 0 {
        Seq::empty()
    } else if class[upto - 1] == upto - 1 {
        class_heads(class, upto - 1).push(upto - 1)
    } else {
        class_heads(class, upto - 1)
    }
}

/// Absorbing files keeps every path once, and adds exactly the paths of the
/// files absorbed.
pub proof fn absorb_paths(acc: Seq<FileRecord>, other: Seq<FileRecord>, upto: int)
    requires
        0 <= upto <= other.len(),
        distinct_paths(acc),
    ensures
        distinct_paths(absorb(acc, other, upto)),
        forall|p: Seq<char>|
            #[trigger] has_path(absorb(acc, other, upto), p) <==> has_path(acc, p) || has_path(
                other.take(upto),
                p,
            ),
    decreases upto,
{
    let now = absorb(acc, other, upto);
    if upto > 0 {
        absorb_paths(acc, other, upto - 1);
        let prev = absorb(acc, other, upto - 1);
        let f = other[upto - 1];
        assert forall|p: Seq<char>| #[trigger]
            has_path(now, p) <==> has_path(acc, p) || has_path(other.take(upto), p) by {
            if has_path(now, p) {
                let k = choose|k: int| 0 <= k < now.len() && (#[trigger] now[k]).path == p;
                if k < prev.len() {
                    assert(prev[k].path == p);
                    assert(has_path(prev, p));
                    if has_path(other.take(upto - 1), p) {
                        let t = choose|t: int|
                            0 <= t < upto - 1 && (#[trigger] other.take(upto - 1)[t]).path == p;
                        assert(other.take(upto)[t].path == p);
                    }
                } else {
                    assert(other.take(upto)[upto - 1].path == p);
                }
            }
            if has_path(acc, p) {
                assert(has_path(prev, p));
                let k = choose|k: int| 0 <= k < prev.len() && (#[trigger] prev[k]).path == p;
                assert(now[k].path == p);
            }
            if has_path(other.take(upto), p) {
                let t = choose|t: int|
                    0 <= t < upto && (#[trigger] other.take(upto)[t]).path == p;
                if t < upto - 1 {
                    assert(other.take(upto - 1)[t].path == p);
                    assert(has_path(prev, p));
                    let k = choose|k: int| 0 <= k < prev.len() && (#[trigger] prev[k]).path == p;
                    assert(now[k].path == p);
                } else if has_path(prev, f.path) {
                    let k = choose|k: int|
                        0 <= k < prev.len() && (#[trigger] prev[k]).path == f.path;
                    assert(now[k].path == p);
                } else {
                    assert(now[prev.len() as int].path == p);
                }
            }
        }
        if !has_path(prev, f.path) {
            assert forall|a: int, b: int| 0 <= a < b < now.len() implies (#[trigger] now[a]).path
                != (#[trigger] now[b]).path by {
                if b == prev.len() {
                    assert(prev[a].path != f.path);
                } else {
                    assert(prev[a].path != prev[b].path);
                }
            }
        }
    } else {
        assert(other.take(0).len() == 0);
    }
}

/// The files of a class hold every path once, and exactly the paths of the
/// clusters of the class.
pub proof fn class_files_paths(clusters: Seq<ClusterView>, class: Seq<usize>, h: int, upto: int)
    requires
        0 <= upto <= clusters.len(),
    ensures
        distinct_paths(class_files(clusters, class, h, upto)),
        forall|p: Seq<char>|
            #[trigger] has_path(class_files(clusters, class, h, upto), p) <==> class_has_path(
                clusters,
                class,
                h,
                upto,
                p,
            ),
    decreases upto,
{
    let now = class_files(clusters, class, h, upto);
    if upto > 0 {
        class_files_paths(clusters, class, h, upto - 1);
        let prev = class_files(clusters, class, h, upto - 1);
        let files = clusters[upto - 1].files;
        if class[upto - 1] == h {
            absorb_paths(prev, files, files.len() as int);
            assert(files.take(files.len() as int) =~= files);
        }
        assert forall|p: Seq<char>| #[trigger]
            has_path(now, p) <==> class_has_path(clusters, class, h, upto, p) by {
            if class_has_path(clusters, class, h, upto, p) {
                let j = choose|j: int|
                    0 <= j < upto && class[j] == h && has_path((#[trigger] clusters[j]).files, p);
                if j < upto - 1 {
                    assert(class_has_path(clusters, class, h, upto - 1, p));
                }
            }
            if has_path(now, p) {
                if class[upto - 1] == h && has_path(files, p) {
                    assert(has_path(clusters[upto - 1].files, p));
                } else {
                    assert(has_path(prev, p));
                    let j = choose|j: int|
                        0 <= j < upto - 1 && class[j] == h && has_path(
                            (#[trigger] clusters[j]).files,
                            p,
                        );
                    assert(has_path(clusters[j].files, p));
                }
            }
        }
    } else {
        assert forall|p: Seq<char>| !(#[trigger] has_path(now, p)) by {}
    }
}

/// The merged clusters stand one for one for the first clusters of the
/// classes.
pub proof fn merged_with_heads(clusters: Seq<ClusterView>, class: Seq<usize>, upto: int)
    requires
        0 <= upto <= clusters.len(),
    ensures
        merged_with(clusters, class, upto).len() == class_heads(class, upto).len(),
        forall|r: int|
            0 <= r < class_heads(class, upto).len() ==> {
                let h = #[trigger] class_heads(class, upto)[r];
                &&& 0 <= h < upto
                &&& class[h] == h
                &&& merged_with(clusters, class, upto)[r] == merged_class(clusters, class, h)
            },
        forall|r: int, t: int|
            0 <= r < t < class_heads(class, upto).len() ==> (#[trigger] class_heads(class, upto)[r])
                < (#[trigger] class_heads(class, upto)[t]),
    decreases upto,
{
    if upto > 0 {
        merged_with_heads(clusters, class, upto - 1);
    }
}

/// No two merged clusters share a path, and each merged cluster holds every
/// path once: exactly the paths of the clusters of its class.
pub proof fn merged_clusters_are_disjoint(clusters: Seq<ClusterView>, class: Seq<usize>)
    requires
        is_classing(clusters, class),
    ensures
        forall|a: int, b: int|
            0 <= a < b < merged_with(clusters, class, clusters.len() as int).len() ==> !overlaps(
                (#[trigger] merged_with(clusters, class, clusters.len() as int)[a]).files,
                (#[trigger] merged_with(clusters, class, clusters.len() as int)[b]).files,
            ),
        forall|a: int|
            0 <= a < merged_with(clusters, class, clusters.len() as int).len() ==> distinct_paths(
                (#[trigger] merged_with(clusters, class, clusters.len() as int)[a]).files,
            ),
{
    let n = clusters.len() as int;
    let out = merged_with(clusters, class, n);
    let heads = class_heads(class, n);
    merged_with_heads(clusters, class, n);
    assert forall|a: int| 0 <= a < out.len() implies distinct_paths((#[trigger] out[a]).files) by {
        let h = heads[a];
        class_files_paths(clusters, class, h, n);
    }
    assert forall|a: int, b: int| 0 <= a < b < out.len() implies !overlaps(
        (#[trigger] out[a]).files,
        (#[trigger] out[b]).files,
    ) by {
        let ha = heads[a];
        let hb = heads[b];
        assert(ha < hb);
        let fa = out[a].files;
        let fb = out[b].files;
        class_files_paths(clusters, class, ha, n);
        class_files_paths(clusters, class, hb, n);
        if overlaps(fa, fb) {
            let k = choose|k: int| 0 <= k < fb.len() && has_path(fa, (#[trigger] fb[k]).path);
            let p = fb[k].path;
            assert(has_path(fb, p));
            assert(class_has_path(clusters, class, ha, n, p));
            assert(class_has_path(clusters, class, hb, n, p));
            let ja = choose|j: int|
                0 <= j < n && class[j] == ha && has_path((#[trigger] clusters[j]).files, p);
            let jb = choose|j: int|
                0 <= j < n && class[j] == hb && has_path((#[trigger] clusters[j]).files, p);
            let t = choose|t: int|
                0 <= t < clusters[jb].files.len() && (#[trigger] clusters[jb].files[t]).path == p;
            assert(has_path(clusters[ja].files, clusters[jb].files[t].path));
            assert(shares(clusters, ja, jb));
            assert(linked(clusters, jb, jb, 0));
            assert(linked(clusters, ja, jb, 1)) by {
                assert(shares(clusters, ja, jb) && linked(clusters, jb, jb, (1 - 1) as nat));
            }
            assert(connected(clusters, ja, jb));
            assert(class[ja] == class[jb]);
        }
    }
}

/// For each cluster, the first cluster of its class.
fn find_classes(clusters: &Vec<LargeFileCluster>) -> (labels: Vec<usize>)
    ensures
        is_classing(clusters_of(clusters@), labels@),
{
    let n = clusters.len();
    let ghost cv = clusters_of(clusters@);
    let mut labels: Vec<usize> = Vec::new();
    let mut a: usize = 0;
    while a < n
        invariant
            a <= n,
            n == clusters@.len(),
            cv == clusters_of(clusters@),
            labels@.len() == a,
            forall|i: int| 0 <= i < a ==> #[trigger] labels@[i] == i,
        decreases n - a,
    {
        labels.push(a);
        a = a + 1;
    }
    proof {
        assert forall|i: int| 0 <= i < n implies connected(cv, i, #[trigger] labels@[i] as int) by {
            assert(linked(cv, i, i, 0));
        }
    }
    let mut settled = false;
    while !settled
        invariant
            n == clusters@.len(),
            cv == clusters_of(clusters@),
            labels@.len() == n,
            forall|i: int| 0 <= i < n ==> (#[trigger] labels@[i]) <= i,
            forall|i: int| 0 <= i < n ==> connected(cv, i, #[trigger] labels@[i] as int),
            settled ==> forall|x: int, y: int|
                0 <= x < n && 0 <= y < n && #[trigger] shares(cv, x, y) ==> labels@[x]
                    == labels@[y],
        decreases label_sum(labels@) + (if settled {
                0int
            } else {
                1int
            }),
    {
        let ghost start = labels@;
        let mut changed = false;
        let mut i: usize = 0;
        proof {
            label_sum_nonnegative(start);
        }
        while i < n
            invariant
                i <= n,
                n == clusters@.len(),
                cv == clusters_of(clusters@),
                labels@.len() == n,
                start.len() == n,
                forall|k: int| 0 <= k < n ==> (#[trigger] labels@[k]) <= k,
                forall|k: int| 0 <= k < n ==> connected(cv, k, #[trigger] labels@[k] as int),
                changed ==> label_sum(labels@) < label_sum(start),
                !changed ==> labels@ == start,
                !changed ==> forall|x: int, y: int|
                    0 <= x < i && x < y < n && #[trigger] shares(cv, x, y) ==> labels@[x]
                        == labels@[y],
            decreases n - i,
        {
            let mut j: usize = i + 1;
            while j < n
                invariant
                    i < n,
                    i + 1 <= j <= n,
                    n == clusters@.len(),
                    cv == clusters_of(clusters@),
                    labels@.len() == n,
                    start.len() == n,
                    forall|k: int| 0 <= k < n ==> (#[trigger] labels@[k]) <= k,
                    forall|k: int| 0 <= k < n ==> connected(cv, k, #[trigger] labels@[k] as int),
                    changed ==> label_sum(labels@) < label_sum(start),
                    !changed ==> labels@ == start,
                    !changed ==> forall|x: int, y: int|
                        0 <= x < i && x < y < n && #[trigger] shares(cv, x, y) ==> labels@[x]
                            == labels@[y],
                    !changed ==> forall|y: int|
                        i < y < j && #[trigger] shares(cv, i as int, y) ==> labels@[i as int]
                            == labels@[y],
                decreases n - j,
            {
                let li = labels[i];
                let lj = labels[j];
                proof {
                    assert(cv[i as int] == clusters@[i as int]@);
                    assert(cv[j as int] == clusters@[j as int]@);
                }
                if li != lj && shares_path(&clusters[i].files, &clusters[j].files) {
                    let ghost before = labels@;
                    proof {
                        assert(shares(cv, i as int, j as int));
                        overlaps_symmetric(cv[i as int].files, cv[j as int].files);
                        assert(shares(cv, j as int, i as int));
                        if lj < li {
                            connected_through(cv, i as int, j as int, lj as int);
                            label_sum_update(before, i as int, lj);
                        } else {
                            connected_through(cv, j as int, i as int, li as int);
                            label_sum_update(before, j as int, li);
                        }
                    }
                    if lj < li {
                        labels.set(i, lj);
                    } else {
                        labels.set(j, li);
                    }
                    changed = true;
                }
                j = j + 1;
            }
            i = i + 1;
        }
        if !changed {
            proof {
                assert forall|x: int, y: int|
                    0 <= x < n && 0 <= y < n && #[trigger] shares(cv, x, y) implies labels@[x]
                    == labels@[y] by {
                    if x > y {
                        overlaps_symmetric(cv[x].files, cv[y].files);
                        assert(shares(cv, y, x));
                    }
                }
            }
            settled = true;
        }
        proof {
            label_sum_nonnegative(labels@);
            label_sum_nonnegative(start);
        }
    }
    proof {
        assert forall|i: int, j: int|
            0 <= i < n && 0 <= j < n && #[trigger] connected(cv, i, j) implies labels@[i]
            == labels@[j] by {
            let steps = choose|steps: nat| linked(cv, i, j, steps);
            linked_same_label(cv, labels@, i, j, steps);
        }
    }
    labels
}

/// Merges clusters that share files. Two clusters are in one class where
/// they share a file path, or where a chain of clusters, each sharing a path
/// with the next, leads from one to the other. Each class is merged into
/// one cluster: it keeps the id and statistics of the first cluster of the
/// class, holds the files of the clusters of the class in their order, each
/// path once, and has its size recomputed from its files. The merged
/// clusters come in the order of the first clusters of their classes, and no
/// two of them share a path.
pub fn merge_overlapping_clusters(clusters: Vec<LargeFileCluster>) -> (result: Vec<
    LargeFileCluster,
>)
    requires
        grand_total(clusters_of(clusters@), clusters@.len() as int) <= u64::MAX,
    ensures
        clusters_of(result@) == merged(clusters_of(clusters@)),
        is_classing(clusters_of(clusters@), classes_of(clusters_of(clusters@))),
        forall|a: int, b: int|
            0 <= a < b < result@.len() ==> !overlaps(
                (#[trigger] clusters_of(result@)[a]).files,
                (#[trigger] clusters_of(result@)[b]).files,
            ),
        forall|a: int|
            0 <= a < result@.len() ==> distinct_paths((#[trigger] clusters_of(result@)[a]).files),
{
    let n = clusters.len();
    let ghost cv = clusters_of(clusters@);
    let labels = find_classes(&clusters);
    proof {
        classing_is_unique(cv, labels@, classes_of(cv));
        merged_clusters_are_disjoint(cv, labels@);
    }
    let mut result: Vec<LargeFileCluster> = Vec::new();
    let mut h: usize = 0;
    while h < n
        invariant
            h <= n,
            n == clusters@.len(),
            cv == clusters_of(clusters@),
            labels@.len() == n,
            grand_total(cv, n as int) <= u64::MAX,
            clusters_of(result@) =~= merged_with(cv, labels@, h as int),
        decreases n - h,
    {
        if labels[h] == h {
            let mut files: Vec<SimpleFileInfo> = Vec::new();
            let mut j: usize = 0;
            proof {
                assert(records_of(files@) =~= class_files(cv, labels@, h as int, 0));
            }
            while j < n
                invariant
                    j <= n,
                    h < n,
                    n == clusters@.len(),
                    cv == clusters_of(clusters@),
                    labels@.len() == n,
                    records_of(files@) == class_files(cv, labels@, h as int, j as int),
                decreases n - j,
            {
                if labels[j] == h {
                    proof {
                        assert(cv[j as int] == clusters@[j as int]@);
                    }
                    absorb_files(&mut files, &clusters[j].files);
                }
                j = j + 1;
            }
            proof {
                class_files_total(cv, labels@, h as int, n as int);
                assert(cv[h as int] == clusters@[h as int]@);
            }
            let total = sum_sizes(files.as_slice());
            let first = &clusters[h];
            let merged_cluster = LargeFileCluster {
                cluster_id: first.cluster_id,
                files,
                total_size: total,
                avg_similarity: first.avg_similarity,
                density: first.density,
            };
            let ghost earlier = result@;
            result.push(merged_cluster);
            proof {
                assert(merged_cluster@ == merged_class(cv, labels@, h as int));
                assert(clusters_of(result@) =~= clusters_of(earlier).push(merged_cluster@));
            }
        }
        h = h + 1;
    }
    result
}

} // verus!
