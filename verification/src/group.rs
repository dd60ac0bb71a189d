//! Grouping items by a key, groups in the order of their first items.

use crate::cluster::{heads, is_head, members_of, members_of_properties};
use vstd::prelude::*;

verus! {

/// A key by which items are grouped: a number and a text. Two keys are the
/// same where both parts are.
#[derive(Clone, Debug)]
pub struct GroupKey {
    pub number: u64,
    pub text: String,
}

impl View for GroupKey {
    type V = (u64, Seq<char>);

    open spec fn view(&self) -> (u64, Seq<char>) {
        (self.number, self.text@)
    }
}

/// The values of a list of optional keys.
pub open spec fn key_views(keys: Seq<Option<GroupKey>>) -> Seq<Option<(u64, Seq<char>)>> {
    Seq::new(
        keys.len(),
        |i: int|
            match keys[i] {
                Some(k) => Some(k@),
                None => None,
            },
    )
}

/// The first position from `j` on, and not after `i`, whose key is that of
/// item `i`.
pub open spec fn first_same_from(keys: Seq<Option<(u64, Seq<char>)>>, i: int, j: int) -> int
    decreases i - j,
{
    if j >= i {
        i
    } else if keys[j] == keys[i] {
        j
    } else {
        first_same_from(keys, i, j + 1)
    }
}

/// Each keyed item is labelled with the position of the first item that has
/// its key; an item without a key has no label.
pub open spec fn labels_of(keys: Seq<Option<(u64, Seq<char>)>>) -> Seq<Option<usize>> {
    Seq::new(
        keys.len(),
        |i: int|
            if keys[i] is Some {
                Some(first_same_from(keys, i, 0) as usize)
            } else {
                None
            },
    )
}

/// Whether two keys are the same.
fn same_key(a: &GroupKey, b: &GroupKey) -> (same: bool)
    ensures
        same == (a@ == b@),
{
    a.number == b.number && a.text == b.text
}

/// Labels each keyed item with the position of the first item that has its
/// key.
pub fn label_by_key(keys: &Vec<Option<GroupKey>>) -> (labels: Vec<Option<usize>>)
    ensures
        labels@ == labels_of(key_views(keys@)),
{
    let ghost kv = key_views(keys@);
    let mut labels: Vec<Option<usize>> = Vec::new();
    let mut i: usize = 0;
    while i < keys.len()
        invariant
            i <= keys.len(),
            kv == key_views(keys@),
            labels@.len() == i,
            forall|t: int| 0 <= t < i ==> #[trigger] labels@[t] == labels_of(kv)[t],
        decreases keys.len() - i,
    {
        match &keys[i] {
            Some(key) => {
                let mut j: usize = 0;
                let mut hit = false;
                while j < i && !hit
                    invariant
                        j <= i,
                        i < keys.len(),
                        kv == key_views(keys@),
                        keys@[i as int] == Some(*key),
                        hit ==> j < i && kv[j as int] == kv[i as int],
                        first_same_from(kv, i as int, 0) == first_same_from(kv, i as int, j as int),
                    decreases i - j + (if hit {
                            0int
                        } else {
                            1int
                        }),
                {
                    let same = match &keys[j] {
                        Some(other) => same_key(other, key),
                        None => false,
                    };
                    if same {
                        hit = true;
                    } else {
                        j = j + 1;
                    }
                }
                labels.push(Some(j));
            },
            None => {
                labels.push(None);
            },
        }
        i = i + 1;
    }
    proof {
        assert(labels@ =~= labels_of(kv));
    }
    labels
}

/// The groups that `labels` describes, as lists of positions: one for each
/// label that occurs, in the order of the first item of each, the members of
/// a group in ascending order.
pub open spec fn groups_of(labels: Seq<Option<usize>>) -> Seq<Seq<usize>> {
    let h = heads(labels, labels.len() as int);
    Seq::new(
        h.len(),
        |k: int| members_of(labels, labels[h[k] as int]->0, labels.len() as int),
    )
}

/// The lists of positions that a list of vectors holds.
pub open spec fn lists_of(groups: Seq<Vec<usize>>) -> Seq<Seq<usize>> {
    Seq::new(groups.len(), |k: int| groups[k]@)
}

/// Collects the items of each label.
pub fn group_members(labels: &Vec<Option<usize>>) -> (groups: Vec<Vec<usize>>)
    ensures
        lists_of(groups@) == groups_of(labels@),
        forall|k: int|
            0 <= k < groups@.len() ==> crate::cluster::ascending_below(
                (#[trigger] groups@[k])@,
                labels@.len() as int,
            ),
{
    let n = labels.len();
    let mut groups: Vec<Vec<usize>> = Vec::new();
    let mut i: usize = 0;
    while i < n
        invariant
            i <= n,
            n == labels@.len(),
            groups@.len() == heads(labels@, i as int).len(),
            forall|k: int|
                0 <= k < groups@.len() ==> (#[trigger] groups@[k])@ == members_of(
                    labels@,
                    labels@[heads(labels@, i as int)[k] as int]->0,
                    n as int,
                ),
            forall|k: int|
                0 <= k < groups@.len() ==> crate::cluster::ascending_below(
                    (#[trigger] groups@[k])@,
                    n as int,
                ),
        decreases n - i,
    {
        match labels[i] {
            Some(c) => {
                if is_first_with_label(labels, i, c) {
                    let members = collect_members(labels, c);
                    proof {
                        members_of_properties(labels@, c, n as int);
                    }
                    groups.push(members);
                }
            },
            None => {},
        }
        i = i + 1;
    }
    proof {
        assert(lists_of(groups@) =~= groups_of(labels@));
    }
    groups
}

/// Whether no item before `i` has the label `c`.
pub fn is_first_with_label(labels: &Vec<Option<usize>>, i: usize, c: usize) -> (first: bool)
    requires
        i < labels@.len(),
        labels@[i as int] == Some(c),
    ensures
        first == is_head(labels@, i as int),
{
    let mut j: usize = 0;
    while j < i
        invariant
            j <= i,
            i < labels@.len(),
            labels@[i as int] == Some(c),
            forall|t: int| 0 <= t < j ==> #[trigger] labels@[t] != Some(c),
        decreases i - j,
    {
        match labels[j] {
            Some(other) => {
                if other == c {
                    return false;
                }
            },
            None => {},
        }
        j = j + 1;
    }
    true
}

/// The items labelled `c`, in ascending order.
pub fn collect_members(labels: &Vec<Option<usize>>, c: usize) -> (members: Vec<usize>)
    ensures
        members@ == members_of(labels@, c, labels@.len() as int),
{
    let mut members: Vec<usize> = Vec::new();
    let mut j: usize = 0;
    while j < labels.len()
        invariant
            j <= labels.len(),
            members@ == members_of(labels@, c, j as int),
        decreases labels.len() - j,
    {
        match labels[j] {
            Some(other) => {
                if other == c {
                    members.push(j);
                }
            },
            None => {},
        }
        j = j + 1;
    }
    members
}

/// The first items of the groups are positions of labelled items, in
/// ascending order.
pub proof fn heads_properties(labels: Seq<Option<usize>>, upto: int)
    requires
        0 <= upto <= labels.len(),
        upto <= usize::MAX,
    ensures
        crate::cluster::ascending_below(heads(labels, upto), upto),
        forall|k: int|
            0 <= k < heads(labels, upto).len() ==> is_head(
                labels,
                (#[trigger] heads(labels, upto)[k]) as int,
            ),
        forall|i: int|
            0 <= i < upto && #[trigger] is_head(labels, i) ==> heads(labels, upto).contains(
                i as usize,
            ),
    decreases upto,
{
    if upto > 0 {
        heads_properties(labels, upto - 1);
        let prev = heads(labels, upto - 1);
        let cur = heads(labels, upto);
        assert forall|i: int| 0 <= i < upto && #[trigger] is_head(labels, i) implies cur.contains(
            i as usize,
        ) by {
            if i < upto - 1 {
                let t = choose|t: int| 0 <= t < prev.len() && prev[t] == i as usize;
                assert(cur[t] == i as usize);
            } else {
                assert(cur[cur.len() - 1] == i as usize);
            }
        }
    }
}

/// Every group has a first member, and that member carries a key.
pub proof fn group_has_keyed_first(keys: Seq<Option<(u64, Seq<char>)>>, g: int)
    requires
        keys.len() <= usize::MAX,
        0 <= g < groups_of(labels_of(keys)).len(),
    ensures
        groups_of(labels_of(keys))[g].len() > 0,
        groups_of(labels_of(keys))[g][0] < keys.len(),
        keys[groups_of(labels_of(keys))[g][0] as int] is Some,
{
    let labels = labels_of(keys);
    let n = labels.len() as int;
    heads_properties(labels, n);
    let h = heads(labels, n);
    let c = labels[h[g] as int]->0;
    members_of_properties(labels, c, n);
    let members = members_of(labels, c, n);
    assert(is_head(labels, h[g] as int));
    assert(labels[h[g] as int] == Some(c));
    assert(members.contains(h[g]));
    assert(labels[members[0] as int] == Some(c));
}

} // verus!
