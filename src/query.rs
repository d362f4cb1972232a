use vstd::prelude::*;

verus! {

/// Default number of results a query asks for.
pub const DEFAULT_TOP_K: usize = 5;

/// The ids among `labels` that name one of `total` vectors, in order.
pub open spec fn valid_ids(labels: Seq<i64>, total: nat) -> Seq<nat>
    decreases labels.len(),
{
    if labels.len() == 0 {
        seq![]
    } else {
        let pre = valid_ids(labels.drop_last(), total);
        let l = labels.last();
        if 0 <= l < total {
            pre.push(l as nat)
        } else {
            pre
        }
    }
}

/// The first `k` labels of a search, or all when there are fewer.
pub open spec fn top(labels: Seq<i64>, k: nat) -> Seq<i64> {
    if labels.len() <= k {
        labels
    } else {
        labels.take(k as int)
    }
}

proof fn lemma_valid_ids_len(labels: Seq<i64>, total: nat)
    ensures
        valid_ids(labels, total).len() <= labels.len(),
    decreases labels.len(),
{
    if labels.len() > 0 {
        lemma_valid_ids_len(labels.drop_last(), total);
    }
}

/// The vector ids a query keeps from a search, best first: of the first
/// `k` labels, in the engine's order of increasing distance, those that
/// name a vector of the index (an engine marks a missing neighbour with a
/// negative label). At most `k` come back.
pub fn select_hits(labels: &Vec<i64>, k: usize, total: usize) -> (r: Vec<usize>)
    ensures
        r@.map_values(|i: usize| i as nat) == valid_ids(top(labels@, k as nat), total as nat),
        r@.len() <= k,
        forall|j: int| 0 <= j < r@.len() ==> #[trigger] r@[j] < total,
{
    let n = if labels.len() < k {
        labels.len()
    } else {
        k
    };
    let ghost ls = top(labels@, k as nat);
    assert(ls =~= labels@.take(n as int));
    let mut out: Vec<usize> = Vec::new();
    for i in 0..n
        invariant
            n <= labels@.len(),
            n <= k,
            ls == labels@.take(n as int),
            out@.map_values(|i: usize| i as nat) == valid_ids(ls.take(i as int), total as nat),
            forall|j: int| 0 <= j < out@.len() ==> #[trigger] out@[j] < total,
    {
        assert(ls.take(i + 1).drop_last() =~= ls.take(i as int));
        assert(ls.take(i + 1).last() == labels@[i as int]);
        let l = labels[i];
        if 0 <= l && (l as u64) < (total as u64) {
            let id = l as usize;
            assert(out@.push(id).map_values(|i: usize| i as nat) =~= out@.map_values(
                |i: usize| i as nat,
            ).push(id as nat));
            out.push(id);
        }
    }
    assert(ls.take(n as int) =~= ls);
    proof {
        lemma_valid_ids_len(ls, total as nat);
        assert(out@.len() == out@.map_values(|i: usize| i as nat).len());
    }
    out
}

} // verus!
