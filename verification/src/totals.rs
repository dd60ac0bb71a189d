//! Groups of files never weigh more than the files they are taken from.

use crate::cluster::{
    aggregate_of, heads, is_head, members_of, pick, ClusterView,
};
use crate::group::heads_properties;
use crate::merge::grand_total;
use crate::model::{total_size, total_size_push, FileRecord};
use vstd::prelude::*;

verus! {

/// The sum of the sizes of those of the first `upto` files whose label is in
/// `allowed`.
pub open spec fn masked_total(
    files: Seq<FileRecord>,
    labels: Seq<Option<usize>>,
    allowed: Set<usize>,
    upto: int,
) -> nat
    decreases upto,
{
    if upto <= 0 {
        0
    } else {
        masked_total(files, labels, allowed, upto - 1) + (if labels[upto - 1] is Some
            && allowed.contains(labels[upto - 1]->0) {
            files[upto - 1].size_bytes as nat
        } else {
            0
        })
    }
}

/// The labels of the first `k` groups.
pub open spec fn head_labels(labels: Seq<Option<usize>>, k: int) -> Set<usize>
    decreases k,
{
    if k <= 0 {
        Set::empty()
    } else {
        head_labels(labels, k - 1).insert(
            labels[heads(labels, labels.len() as int)[k - 1] as int]->0,
        )
    }
}

/// The sum over the first `k` groups of the sizes of their files.
pub open spec fn groups_total(files: Seq<FileRecord>, labels: Seq<Option<usize>>, k: int) -> nat
    decreases k,
{
    if k <= 0 {
        0
    } else {
        let h = heads(labels, labels.len() as int);
        groups_total(files, labels, k - 1) + total_size(
            pick(files, members_of(labels, labels[h[k - 1] as int]->0, labels.len() as int)),
        )
    }
}

/// Files with chosen labels weigh no more than all files.
pub proof fn masked_total_bounded(
    files: Seq<FileRecord>,
    labels: Seq<Option<usize>>,
    allowed: Set<usize>,
    upto: int,
)
    requires
        0 <= upto <= files.len(),
    ensures
        masked_total(files, labels, allowed, upto) <= total_size(files.take(upto)),
    decreases upto,
{
    if upto > 0 {
        masked_total_bounded(files, labels, allowed, upto - 1);
        assert(files.take(upto) =~= files.take(upto - 1).push(files[upto - 1]));
        total_size_push(files.take(upto - 1), files[upto - 1]);
    }
}

/// The members of one label weigh what the files with that label weigh.
pub proof fn members_total_is_masked(
    files: Seq<FileRecord>,
    labels: Seq<Option<usize>>,
    c: usize,
    upto: int,
)
    requires
        0 <= upto <= labels.len(),
        labels.len() <= usize::MAX,
    ensures
        total_size(pick(files, members_of(labels, c, upto))) == masked_total(
            files,
            labels,
            set![c],
            upto,
        ),
    decreases upto,
{
    if upto > 0 {
        members_total_is_masked(files, labels, c, upto - 1);
        let prev = members_of(labels, c, upto - 1);
        if labels[upto - 1] == Some(c) {
            assert(pick(files, prev.push((upto - 1) as usize)) =~= pick(files, prev).push(
                files[upto - 1],
            ));
            total_size_push(pick(files, prev), files[upto - 1]);
        }
    } else {
        assert(pick(files, members_of(labels, c, upto)) =~= Seq::<FileRecord>::empty());
    }
}

/// Adding a label that was not allowed adds the weight of its files.
pub proof fn masked_total_insert(
    files: Seq<FileRecord>,
    labels: Seq<Option<usize>>,
    allowed: Set<usize>,
    c: usize,
    upto: int,
)
    requires
        !allowed.contains(c),
    ensures
        masked_total(files, labels, allowed.insert(c), upto) == masked_total(
            files,
            labels,
            allowed,
            upto,
        ) + masked_total(files, labels, set![c], upto),
    decreases upto,
{
    if upto > 0 {
        masked_total_insert(files, labels, allowed, c, upto - 1);
    }
}

/// The label of a group is not the label of an earlier group.
pub proof fn head_label_is_new(labels: Seq<Option<usize>>, k: int, j: int)
    requires
        labels.len() <= usize::MAX,
        0 <= j <= k < heads(labels, labels.len() as int).len(),
    ensures
        !head_labels(labels, j).contains(
            labels[heads(labels, labels.len() as int)[k] as int]->0,
        ),
    decreases j,
{
    if j > 0 {
        head_label_is_new(labels, k, j - 1);
        let n = labels.len() as int;
        heads_properties(labels, n);
        let h = heads(labels, n);
        assert(h[j - 1] < h[k]);
        assert(is_head(labels, h[k] as int));
        assert(is_head(labels, h[j - 1] as int));
        assert(labels[h[j - 1] as int] != labels[h[k] as int]);
    }
}

/// The first `k` groups weigh what the files with their labels weigh.
pub proof fn groups_total_is_masked(files: Seq<FileRecord>, labels: Seq<Option<usize>>, k: int)
    requires
        labels.len() <= usize::MAX,
        0 <= k <= heads(labels, labels.len() as int).len(),
    ensures
        groups_total(files, labels, k) == masked_total(
            files,
            labels,
            head_labels(labels, k),
            labels.len() as int,
        ),
    decreases k,
{
    let n = labels.len() as int;
    if k > 0 {
        groups_total_is_masked(files, labels, k - 1);
        let h = heads(labels, n);
        let c = labels[h[k - 1] as int]->0;
        head_label_is_new(labels, k - 1, k - 1);
        masked_total_insert(files, labels, head_labels(labels, k - 1), c, n);
        members_total_is_masked(files, labels, c, n);
    } else {
        masked_total_empty(files, labels, n);
    }
}

/// Where no label is allowed, nothing is counted.
pub proof fn masked_total_empty(files: Seq<FileRecord>, labels: Seq<Option<usize>>, upto: int)
    ensures
        masked_total(files, labels, Set::empty(), upto) == 0,
    decreases upto,
{
    if upto > 0 {
        masked_total_empty(files, labels, upto - 1);
    }
}

/// Groups by label weigh, all together, no more than all files.
pub proof fn groups_total_bounded(files: Seq<FileRecord>, labels: Seq<Option<usize>>, k: int)
    requires
        labels.len() == files.len(),
        labels.len() <= usize::MAX,
        0 <= k <= heads(labels, labels.len() as int).len(),
    ensures
        groups_total(files, labels, k) <= total_size(files),
{
    groups_total_is_masked(files, labels, k);
    masked_total_bounded(files, labels, head_labels(labels, k), labels.len() as int);
    assert(files.take(files.len() as int) =~= files);
}

/// The clusters of an aggregate weigh what its groups weigh.
pub proof fn aggregate_total(
    files: Seq<FileRecord>,
    labels: Seq<Option<usize>>,
    m: Seq<Seq<i32>>,
    k: int,
)
    requires
        0 <= k <= heads(labels, labels.len() as int).len(),
    ensures
        grand_total(aggregate_of(files, labels, m), k) == groups_total(files, labels, k),
    decreases k,
{
    if k > 0 {
        aggregate_total(files, labels, m, k - 1);
    }
}

/// The running total of two lists of clusters, one after the other.
pub proof fn grand_total_concat(a: Seq<ClusterView>, b: Seq<ClusterView>, upto: int)
    requires
        0 <= upto <= b.len(),
    ensures
        grand_total(a + b, a.len() + upto) == grand_total(a, a.len() as int) + grand_total(
            b,
            upto,
        ),
    decreases upto,
{
    if upto > 0 {
        grand_total_concat(a, b, upto - 1);
        assert((a + b)[a.len() + upto - 1] == b[upto - 1]);
    } else {
        grand_total_prefix(a, a + b, a.len() as int);
    }
}

/// The running total depends only on the clusters counted.
pub proof fn grand_total_prefix(a: Seq<ClusterView>, b: Seq<ClusterView>, upto: int)
    requires
        0 <= upto <= a.len(),
        upto <= b.len(),
        forall|k: int| 0 <= k < upto ==> a[k] == b[k],
    ensures
        grand_total(a, upto) == grand_total(b, upto),
    decreases upto,
{
    if upto > 0 {
        grand_total_prefix(a, b, upto - 1);
    }
}

} // verus!
