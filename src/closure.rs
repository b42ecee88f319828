use vstd::prelude::*;
use vstd::set_lib::{lemma_len_subset, range_set_properties};

use crate::ir::AsSet;

verus! {

/// Set `i` names set `j` among its members.
pub open spec fn set_edge(sets: Seq<AsSet>, i: int, j: int) -> bool {
    &&& 0 <= i < sets.len()
    &&& 0 <= j < sets.len()
    &&& sets[i].set_members@.contains(j as usize)
}

/// Every set named by a set of `s` is in `s`.
pub open spec fn closed_under(sets: Seq<AsSet>, s: Set<int>) -> bool {
    forall|i: int, j: int| #[trigger] s.contains(i) && #[trigger] set_edge(sets, i, j) ==> s.contains(j)
}

/// Set `j` is reached from set `i` through member references: it lies in
/// every closed collection of sets that holds `i`.
pub open spec fn reaches(sets: Seq<AsSet>, i: int, j: int) -> bool {
    forall|s: Set<int>| #![trigger s.contains(j)] closed_under(sets, s) && s.contains(i) ==> s.contains(j)
}

/// The sets reached from the sets of `roots`.
pub open spec fn set_closure(sets: Seq<AsSet>, roots: Set<int>) -> Set<int> {
    Set::new(|j: int| exists|i: int| #[trigger] roots.contains(i) && reaches(sets, i, j))
}

/// The ASes named directly by some set of `s`.
pub open spec fn direct_ases(sets: Seq<AsSet>, s: Set<int>) -> Set<u64> {
    Set::new(|n: u64| exists|j: int| #[trigger] s.contains(j) && 0 <= j < sets.len() && sets[j].members@.contains(n))
}

/// The ASes of the closure of `roots`.
pub open spec fn closure_ases(sets: Seq<AsSet>, roots: Set<int>) -> Set<u64> {
    direct_ases(sets, set_closure(sets, roots))
}

/// Every AS that some set of the corpus names directly.
pub open spec fn corpus_ases(sets: Seq<AsSet>) -> Set<u64> {
    direct_ases(sets, Set::new(|j: int| 0 <= j < sets.len()))
}

proof fn lemma_reaches_refl(sets: Seq<AsSet>, i: int)
    ensures
        reaches(sets, i, i),
{
}

proof fn lemma_reaches_trans(sets: Seq<AsSet>, i: int, j: int, k: int)
    requires
        reaches(sets, i, j),
        reaches(sets, j, k),
    ensures
        reaches(sets, i, k),
{
    assert forall|s: Set<int>| closed_under(sets, s) && s.contains(i) implies s.contains(k) by {
        assert(s.contains(j));
    }
}

proof fn lemma_reaches_step(sets: Seq<AsSet>, i: int, j: int, k: int)
    requires
        reaches(sets, i, j),
        set_edge(sets, j, k),
    ensures
        reaches(sets, i, k),
{
    assert forall|s: Set<int>| closed_under(sets, s) && s.contains(i) implies s.contains(k) by {
        assert(s.contains(j));
    }
}

/// Closure is idempotent: closing an already closed collection of sets, or
/// reading the ASes of its closure, changes nothing.
pub proof fn lemma_closure_idempotent(sets: Seq<AsSet>, roots: Set<int>)
    ensures
        set_closure(sets, set_closure(sets, roots)) == set_closure(sets, roots),
        closure_ases(sets, set_closure(sets, roots)) == closure_ases(sets, roots),
{
    let c = set_closure(sets, roots);
    assert forall|j: int| set_closure(sets, c).contains(j) implies c.contains(j) by {
        let k = choose|k: int| #[trigger] c.contains(k) && reaches(sets, k, j);
        let i = choose|i: int| #[trigger] roots.contains(i) && reaches(sets, i, k);
        lemma_reaches_trans(sets, i, k, j);
    }
    assert forall|j: int| c.contains(j) implies set_closure(sets, c).contains(j) by {
        lemma_reaches_refl(sets, j);
    }
    assert(set_closure(sets, c) =~= c);
}

/// Cycle safety: whatever references between sets, cycles included, the ASes
/// of a closure are ASes that the corpus names.
pub proof fn lemma_closure_within_corpus(sets: Seq<AsSet>, roots: Set<int>)
    ensures
        closure_ases(sets, roots).subset_of(corpus_ases(sets)),
{
    assert forall|n: u64| closure_ases(sets, roots).contains(n) implies corpus_ases(sets).contains(n) by {
        let j = choose|j: int| #[trigger] set_closure(sets, roots).contains(j) && 0 <= j < sets.len()
            && sets[j].members@.contains(n);
        assert(Set::new(|j: int| 0 <= j < sets.len()).contains(j));
    }
}

proof fn lemma_unique_bound(order: Seq<usize>, n: usize)
    requires
        order.no_duplicates(),
        forall|k: int| 0 <= k < order.len() ==> order[k] < n,
    ensures
        order.len() <= n,
{
    order.unique_seq_to_set();
    range_set_properties::<usize>(0, n);
    assert(order.to_set().subset_of(Set::<usize>::range(0, n)));
    lemma_len_subset(order.to_set(), Set::<usize>::range(0, n));
}

/// The indices of the sets reached from set `start`, `start` first, each once.
/// Each set is visited at most once, so cycles between sets end the search.
pub fn reached_sets(sets: &Vec<AsSet>, start: usize) -> (order: Vec<usize>)
    requires
        start < sets@.len(),
    ensures
        forall|j: int| 0 <= j < sets@.len() ==> (reaches(sets@, start as int, j) <==> order@.contains(j as usize)),
        forall|k: int| 0 <= k < order@.len() ==> order@[k] < sets@.len(),
        order@.no_duplicates(),
{
    let n = sets.len();
    let mut visited: Vec<bool> = Vec::new();
    let mut t: usize = 0;
    while t < n
        invariant
            t <= n,
            visited@.len() == t,
            forall|v: int| 0 <= v < t ==> !visited@[v],
        decreases n - t,
    {
        visited.push(false);
        t = t + 1;
    }
    visited.set(start, true);
    let mut order: Vec<usize> = Vec::new();
    order.push(start);
    proof {
        lemma_reaches_refl(sets@, start as int);
        assert(order@.no_duplicates());
        assert(order@[0] == start);
        assert forall|v: int| 0 <= v < n && #[trigger] visited@[v] implies order@.contains(v as usize) by {
            assert(v == start as int);
        }
    }
    let mut head: usize = 0;
    while head < order.len()
        invariant
            n == sets@.len(),
            start < n,
            visited@.len() == n,
            head <= order@.len() <= n,
            order@.no_duplicates(),
            visited@[start as int],
            forall|k: int| 0 <= k < order@.len() ==> order@[k] < n && visited@[order@[k] as int],
            forall|v: int| 0 <= v < n && #[trigger] visited@[v] ==> order@.contains(v as usize),
            forall|v: int| 0 <= v < n && #[trigger] visited@[v] ==> reaches(sets@, start as int, v),
            forall|k: int, j: int|
                0 <= k < head && #[trigger] set_edge(sets@, order@[k] as int, j) ==> visited@[j],
        decreases n - head,
    {
        let cur = order[head];
        let members = &sets[cur].set_members;
        let mut m: usize = 0;
        while m < members.len()
            invariant
                n == sets@.len(),
                start < n,
                visited@.len() == n,
                head < order@.len() <= n,
                cur == order@[head as int],
                *members == sets@[cur as int].set_members,
                m <= members@.len(),
                order@.no_duplicates(),
                visited@[start as int],
                forall|k: int| 0 <= k < order@.len() ==> order@[k] < n && visited@[order@[k] as int],
                forall|v: int| 0 <= v < n && #[trigger] visited@[v] ==> order@.contains(v as usize),
                forall|v: int| 0 <= v < n && #[trigger] visited@[v] ==> reaches(sets@, start as int, v),
                forall|k: int, j: int|
                    0 <= k < head && #[trigger] set_edge(sets@, order@[k] as int, j) ==> visited@[j],
                forall|t: int| 0 <= t < m && members@[t] < n ==> visited@[#[trigger] members@[t] as int],
            decreases members@.len() - m,
        {
            let j = members[m];
            if j < n && !visited[j] {
                proof {
                    assert(set_edge(sets@, cur as int, j as int));
                    lemma_reaches_step(sets@, start as int, cur as int, j as int);
                    assert(!order@.contains(j));
                }
                let ghost old_order = order@;
                let ghost old_visited = visited@;
                visited.set(j, true);
                order.push(j);
                proof {
                    assert(order@.no_duplicates()) by {
                        assert forall|a: int, b: int| 0 <= a < b < order@.len() implies order@[a] != order@[b] by {
                            if b == order@.len() - 1 {
                                assert(order@[a] == order@.drop_last()[a]);
                            }
                        }
                    }
                    lemma_unique_bound(order@, n);
                    assert forall|v: int| 0 <= v < n && #[trigger] visited@[v] implies order@.contains(v as usize) by {
                        if v != j as int {
                            assert(old_visited[v]);
                            let k = choose|k: int| 0 <= k < old_order.len() && old_order[k] == v as usize;
                            assert(order@[k] == v as usize);
                        } else {
                            assert(order@[order@.len() - 1] == j);
                        }
                    }
                }
            }
            m = m + 1;
        }
        proof {
            assert forall|k: int, j: int|
                0 <= k < head + 1 && #[trigger] set_edge(sets@, order@[k] as int, j) implies visited@[j] by {
                if k == head as int {
                    let t = choose|t: int| 0 <= t < members@.len() && members@[t] == j as usize;
                }
            }
        }
        head = head + 1;
    }
    proof {
        let done = Set::new(|v: int| 0 <= v < n && visited@[v]);
        assert(closed_under(sets@, done)) by {
            assert forall|i: int, j: int| #[trigger] done.contains(i) && #[trigger] set_edge(sets@, i, j) implies done.contains(j) by {
                let k = choose|k: int| 0 <= k < order@.len() && order@[k] == i as usize;
                assert(set_edge(sets@, order@[k] as int, j));
            }
        }
        assert forall|j: int| 0 <= j < sets@.len() implies (reaches(sets@, start as int, j) <==> order@.contains(j as usize)) by {
            if reaches(sets@, start as int, j) {
                assert(done.contains(start as int));
                assert(done.contains(j));
            }
            if order@.contains(j as usize) {
                let k = choose|k: int| 0 <= k < order@.len() && order@[k] == j as usize;
            }
        }
    }
    order
}

} // verus!
