//! Ranking by size: largest first, earlier first among equals.

use vstd::prelude::*;

verus! {

/// Entry `p` comes before entry `q`: it is larger, or as large and earlier.
pub open spec fn ranks_before(keys: Seq<u64>, p: int, q: int) -> bool {
    keys[p] > keys[q] || (keys[p] == keys[q] && p < q)
}

/// Entry `p` takes part in the ranking.
pub open spec fn eligible_at(eligible: Seq<bool>, p: int) -> bool {
    0 <= p < eligible.len() && eligible[p]
}

/// `out` ranks the eligible entries of `keys`: it lists eligible entries
/// only, each before every entry that it ranks before, and whatever eligible
/// entry it leaves out comes after all that it lists. It leaves entries out
/// only where it has reached `limit`.
pub open spec fn is_ranking(
    out: Seq<usize>,
    keys: Seq<u64>,
    eligible: Seq<bool>,
    limit: Option<usize>,
) -> bool {
    &&& forall|k: int|
        0 <= k < out.len() ==> (#[trigger] out[k]) < keys.len() && eligible_at(
            eligible,
            out[k] as int,
        )
    &&& forall|k: int, l: int|
        0 <= k < l < out.len() ==> ranks_before(keys, #[trigger] out[k] as int, #[trigger] out[l] as int)
    &&& forall|p: int, k: int|
        0 <= p < keys.len() && eligible_at(eligible, p) && !out.contains(p as usize) && 0 <= k
            < out.len() ==> #[trigger] ranks_before(keys, out[k] as int, p)
    &&& limit is Some ==> out.len() <= limit->0
    &&& (limit is None || out.len() < limit->0) ==> forall|p: int|
        0 <= p < keys.len() && #[trigger] eligible_at(eligible, p) ==> out.contains(p as usize)
}

/// Two rankings of the same entries under the same limit are the same list.
pub proof fn ranking_is_unique(
    a: Seq<usize>,
    b: Seq<usize>,
    keys: Seq<u64>,
    eligible: Seq<bool>,
    limit: Option<usize>,
)
    requires
        keys.len() <= usize::MAX,
        is_ranking(a, keys, eligible, limit),
        is_ranking(b, keys, eligible, limit),
    ensures
        a == b,
{
    ranking_prefix(a, b, keys, eligible, limit, a.len() as int);
    ranking_prefix(b, a, keys, eligible, limit, b.len() as int);
    if a.len() <= b.len() {
        ranking_same_length(a, b, keys, eligible, limit);
    } else {
        ranking_same_length(b, a, keys, eligible, limit);
    }
    assert(a =~= b);
}

/// Two rankings agree on every position that both have.
proof fn ranking_prefix(
    a: Seq<usize>,
    b: Seq<usize>,
    keys: Seq<u64>,
    eligible: Seq<bool>,
    limit: Option<usize>,
    upto: int,
)
    requires
        keys.len() <= usize::MAX,
        is_ranking(a, keys, eligible, limit),
        is_ranking(b, keys, eligible, limit),
        0 <= upto <= a.len(),
    ensures
        forall|k: int| 0 <= k < upto && k < b.len() ==> a[k] == b[k],
    decreases upto,
{
    if upto > 0 {
        ranking_prefix(a, b, keys, eligible, limit, upto - 1);
        let k = upto - 1;
        if k < b.len() && a[k] != b[k] {
            let x = a[k] as int;
            let y = b[k] as int;
            // Neither can come before the other.
            if b.contains(a[k]) {
                let l = choose|l: int| 0 <= l < b.len() && b[l] == a[k];
                if l < k {
                    assert(a[l] == b[l]);
                    assert(ranks_before(keys, a[l] as int, a[k] as int));
                } else {
                    assert(ranks_before(keys, b[k] as int, b[l] as int));
                }
            } else {
                assert(ranks_before(keys, b[k] as int, x));
            }
            assert(ranks_before(keys, y, x));
            if a.contains(b[k]) {
                let l = choose|l: int| 0 <= l < a.len() && a[l] == b[k];
                if l < k {
                    assert(a[l] == b[l]);
                    assert(ranks_before(keys, b[l] as int, b[k] as int));
                } else {
                    assert(ranks_before(keys, a[k] as int, a[l] as int));
                }
            } else {
                assert(ranks_before(keys, a[k] as int, y));
            }
            assert(ranks_before(keys, x, y));
        }
    }
}

/// Of two rankings that agree where both have a position, the shorter is
/// not shorter.
proof fn ranking_same_length(
    a: Seq<usize>,
    b: Seq<usize>,
    keys: Seq<u64>,
    eligible: Seq<bool>,
    limit: Option<usize>,
)
    requires
        keys.len() <= usize::MAX,
        is_ranking(a, keys, eligible, limit),
        is_ranking(b, keys, eligible, limit),
        a.len() <= b.len(),
        forall|k: int| 0 <= k < a.len() ==> a[k] == b[k],
    ensures
        a.len() == b.len(),
{
    if a.len() < b.len() {
        let extra = b[a.len() as int];
        assert(eligible_at(eligible, extra as int));
        assert(a.contains(extra));
        let l = choose|l: int| 0 <= l < a.len() && a[l] == extra;
        assert(b[l] == extra);
        assert(ranks_before(keys, b[l] as int, b[a.len() as int] as int));
    }
}

/// The eligible entry that comes first among those after `after`, if any.
fn next_in_rank(keys: &Vec<u64>, eligible: &Vec<bool>, after: Option<usize>) -> (best: Option<
    usize,
>)
    requires
        after is Some ==> after->0 < keys@.len(),
    ensures
        best is Some ==> {
            &&& best->0 < keys@.len()
            &&& eligible_at(eligible@, best->0 as int)
            &&& after is Some ==> ranks_before(keys@, after->0 as int, best->0 as int)
        },
        forall|p: int|
            0 <= p < keys@.len() && #[trigger] eligible_at(eligible@, p) && (after is Some
                ==> ranks_before(keys@, after->0 as int, p)) ==> best is Some && (p == best->0
                || ranks_before(keys@, best->0 as int, p)),
{
    let mut best: Option<usize> = None;
    let mut p: usize = 0;
    while p < keys.len()
        invariant
            p <= keys@.len(),
            after is Some ==> after->0 < keys@.len(),
            best is Some ==> {
                &&& best->0 < p
                &&& eligible_at(eligible@, best->0 as int)
                &&& after is Some ==> ranks_before(keys@, after->0 as int, best->0 as int)
            },
            forall|q: int|
                0 <= q < p && #[trigger] eligible_at(eligible@, q) && (after is Some
                    ==> ranks_before(keys@, after->0 as int, q)) ==> best is Some && (q
                    == best->0 || ranks_before(keys@, best->0 as int, q)),
        decreases keys@.len() - p,
    {
        if p < eligible.len() && eligible[p] {
            let follows = match after {
                Some(a) => keys[a] > keys[p] || (keys[a] == keys[p] && a < p),
                None => true,
            };
            if follows {
                let better = match best {
                    Some(b) => keys[p] > keys[b],
                    None => true,
                };
                if better {
                    best = Some(p);
                }
            }
        }
        p = p + 1;
    }
    best
}

/// Ranks the eligible entries of `keys` from the largest down, entries of
/// the same size in the order given, and keeps the first `limit` of
/// them where a limit is given.
pub fn rank_largest(keys: &Vec<u64>, eligible: &Vec<bool>, limit: Option<usize>) -> (out: Vec<
    usize,
>)
    ensures
        is_ranking(out@, keys@, eligible@, limit),
{
    let n = keys.len();
    let mut out: Vec<usize> = Vec::new();
    let mut last: Option<usize> = None;
    let mut done = false;
    while !done
        invariant
            n == keys@.len(),
            out@.len() <= keys@.len(),
            last is Some <==> out@.len() > 0,
            last is Some ==> last->0 == out@[out@.len() - 1],
            forall|k: int|
                0 <= k < out@.len() ==> (#[trigger] out@[k]) < keys@.len() && eligible_at(
                    eligible@,
                    out@[k] as int,
                ),
            forall|k: int, l: int|
                0 <= k < l < out@.len() ==> ranks_before(
                    keys@,
                    #[trigger] out@[k] as int,
                    #[trigger] out@[l] as int,
                ),
            forall|p: int|
                0 <= p < keys@.len() && #[trigger] eligible_at(eligible@, p) && !out@.contains(
                    p as usize,
                ) ==> (last is Some ==> ranks_before(keys@, last->0 as int, p)),
            limit is Some ==> out@.len() <= limit->0,
            done ==> is_ranking(out@, keys@, eligible@, limit),
        decreases keys@.len() - out@.len() + (if done {
                0int
            } else {
                1int
            }),
    {
        let full = match limit {
            Some(cap) => out.len() >= cap,
            None => false,
        };
        if full {
            proof {
                ranking_complete(out@, keys@, eligible@, limit);
            }
            done = true;
        } else {
            match next_in_rank(keys, eligible, last) {
                Some(best) => {
                    let ghost earlier = out@;
                    proof {
                        assert(!earlier.contains(best)) by {
                            if earlier.contains(best) {
                                let k = choose|k: int| 0 <= k < earlier.len() && earlier[k] == best;
                                if k < earlier.len() - 1 {
                                    assert(ranks_before(
                                        keys@,
                                        earlier[k] as int,
                                        earlier[earlier.len() - 1] as int,
                                    ));
                                }
                            }
                        }
                        grown_is_bounded(earlier, keys@, best);
                    }
                    out.push(best);
                    last = Some(best);
                    proof {
                        assert forall|k: int, l: int| 0 <= k < l < out@.len() implies ranks_before(
                            keys@,
                            #[trigger] out@[k] as int,
                            #[trigger] out@[l] as int,
                        ) by {
                            if l == out@.len() - 1 && k < earlier.len() - 1 {
                                assert(ranks_before(
                                    keys@,
                                    earlier[k] as int,
                                    earlier[earlier.len() - 1] as int,
                                ));
                            }
                        }
                        assert forall|p: int|
                            0 <= p < keys@.len() && #[trigger] eligible_at(eligible@, p)
                                && !out@.contains(p as usize) implies ranks_before(
                            keys@,
                            best as int,
                            p,
                        ) by {
                            assert(out@[out@.len() - 1] == best);
                            if earlier.contains(p as usize) {
                                let k = choose|k: int|
                                    0 <= k < earlier.len() && earlier[k] == p as usize;
                                assert(out@[k] == p as usize);
                            }
                        }
                    }
                },
                None => {
                    proof {
                        assert forall|p: int|
                            0 <= p < keys@.len() && #[trigger] eligible_at(
                                eligible@,
                                p,
                            ) implies out@.contains(p as usize) by {
                            if !out@.contains(p as usize) {
                                assert(last is Some ==> ranks_before(keys@, last->0 as int, p));
                            }
                        }
                        ranking_complete(out@, keys@, eligible@, limit);
                    }
                    done = true;
                },
            }
        }
    }
    out
}

/// A strictly ranked list that is extended by an entry it does not hold has
/// no more entries than there are keys.
proof fn grown_is_bounded(earlier: Seq<usize>, keys: Seq<u64>, best: usize)
    requires
        keys.len() <= usize::MAX,
        best < keys.len(),
        !earlier.contains(best),
        forall|k: int| 0 <= k < earlier.len() ==> (#[trigger] earlier[k]) < keys.len(),
        forall|k: int, l: int|
            0 <= k < l < earlier.len() ==> ranks_before(
                keys,
                #[trigger] earlier[k] as int,
                #[trigger] earlier[l] as int,
            ),
    ensures
        earlier.len() + 1 <= keys.len(),
{
    let grown = earlier.push(best);
    assert(grown.no_duplicates()) by {
        assert forall|i: int, j: int|
            0 <= i < grown.len() && 0 <= j < grown.len() && i != j implies grown[i]
            != grown[j] by {
            if i < earlier.len() && j < earlier.len() {
                if i < j {
                    assert(ranks_before(keys, earlier[i] as int, earlier[j] as int));
                } else {
                    assert(ranks_before(keys, earlier[j] as int, earlier[i] as int));
                }
            } else if i < earlier.len() {
                assert(earlier[i] != best);
            } else {
                assert(earlier[j] != best);
            }
        }
    }
    crate::dbscan::distinct_indices_bounded(grown, keys.len() as int);
}

/// A list that ranks all it holds before all it leaves out, and leaves
/// entries out only at its limit, is a ranking.
proof fn ranking_complete(
    out: Seq<usize>,
    keys: Seq<u64>,
    eligible: Seq<bool>,
    limit: Option<usize>,
)
    requires
        forall|k: int|
            0 <= k < out.len() ==> (#[trigger] out[k]) < keys.len() && eligible_at(
                eligible,
                out[k] as int,
            ),
        forall|k: int, l: int|
            0 <= k < l < out.len() ==> ranks_before(
                keys,
                #[trigger] out[k] as int,
                #[trigger] out[l] as int,
            ),
        forall|p: int|
            0 <= p < keys.len() && #[trigger] eligible_at(eligible, p) && !out.contains(
                p as usize,
            ) ==> (out.len() > 0 ==> ranks_before(keys, out[out.len() - 1] as int, p)),
        limit is Some ==> out.len() <= limit->0,
        (limit is None || out.len() < limit->0) ==> forall|p: int|
            0 <= p < keys.len() && #[trigger] eligible_at(eligible, p) ==> out.contains(
                p as usize,
            ),
    ensures
        is_ranking(out, keys, eligible, limit),
{
    assert forall|p: int, k: int|
        0 <= p < keys.len() && eligible_at(eligible, p) && !out.contains(p as usize) && 0 <= k
            < out.len() implies #[trigger] ranks_before(keys, out[k] as int, p) by {
        if k < out.len() - 1 {
            assert(ranks_before(keys, out[k] as int, out[out.len() - 1] as int));
        }
    }
}

/// `out` lists the entries of `keys` from the largest down, entries of the
/// same size in the order given: a ranking of all entries without a
/// limit.
pub open spec fn is_order(out: Seq<usize>, keys: Seq<u64>) -> bool {
    &&& out.len() == keys.len()
    &&& is_ranking(out, keys, Seq::new(keys.len(), |p: int| true), None)
}

/// Ranks all entries of `keys` from the largest down, entries of the same
/// size in the order given.
pub fn order_largest(keys: &Vec<u64>) -> (out: Vec<usize>)
    ensures
        is_order(out@, keys@),
{
    let mut all: Vec<bool> = Vec::new();
    let mut p: usize = 0;
    while p < keys.len()
        invariant
            p <= keys.len(),
            all@.len() == p,
            forall|q: int| 0 <= q < p ==> #[trigger] all@[q],
        decreases keys.len() - p,
    {
        all.push(true);
        p = p + 1;
    }
    proof {
        assert(all@ =~= Seq::new(keys@.len(), |p: int| true));
    }
    let out = rank_largest(keys, &all, None);
    proof {
        complete_ranking_length(out@, keys@, all@);
    }
    out
}

/// A ranking without a limit of entries that are all eligible has as many
/// entries as there are keys.
proof fn complete_ranking_length(out: Seq<usize>, keys: Seq<u64>, all: Seq<bool>)
    requires
        keys.len() <= usize::MAX,
        all.len() == keys.len(),
        forall|q: int| 0 <= q < all.len() ==> #[trigger] all[q],
        is_ranking(out, keys, all, None),
    ensures
        out.len() == keys.len(),
{
    let n = keys.len() as int;
    assert(out.no_duplicates()) by {
        assert forall|i: int, j: int|
            0 <= i < out.len() && 0 <= j < out.len() && i != j implies out[i] != out[j] by {
            if i < j {
                assert(ranks_before(keys, out[i] as int, out[j] as int));
            } else {
                assert(ranks_before(keys, out[j] as int, out[i] as int));
            }
        }
    }
    crate::dbscan::distinct_indices_bounded(out, n);
    let everyone = Seq::new(keys.len(), |p: int| p as usize);
    assert(everyone.no_duplicates());
    everyone.unique_seq_to_set();
    out.unique_seq_to_set();
    assert(everyone.to_set().subset_of(out.to_set())) by {
        assert forall|x: usize| everyone.to_set().contains(x) implies out.to_set().contains(x) by {
            let t = choose|t: int| 0 <= t < everyone.len() && everyone[t] == x;
            assert(eligible_at(all, t));
            assert(out.contains(t as usize));
        }
    }
    vstd::seq_lib::seq_to_set_is_finite(out);
    vstd::set_lib::lemma_len_subset(everyone.to_set(), out.to_set());
}

} // verus!
