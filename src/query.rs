use vstd::prelude::*;

use crate::closure::{closure_ases, reached_sets, reaches, set_closure};
use crate::ir::{AsSet, AutNum, FilterSet, PeeringSet, RouteSet};
use crate::prefix::IpPrefix;

verus! {

/// The policy corpus that routes are checked against. Sets are held in flat
/// stores and refer to each other by index.
#[derive(Debug)]
pub struct QueryIr {
    pub aut_nums: Vec<(u64, AutNum)>,
    pub as_sets: Vec<AsSet>,
    pub route_sets: Vec<RouteSet>,
    pub peering_sets: Vec<PeeringSet>,
    pub filter_sets: Vec<FilterSet>,
    /// The prefixes that each AS originates.
    pub as_routes: Vec<(u64, Vec<IpPrefix>)>,
}

/// No two entries of `s` share a key: `s` is a map.
pub open spec fn keys_unique<V>(s: Seq<(u64, V)>) -> bool {
    forall|a: int, b: int| 0 <= a < b < s.len() ==> s[a].0 != s[b].0
}

impl QueryIr {
    /// The policies and the route table are maps: each AS has at most one
    /// entry in each.
    pub open spec fn wf(&self) -> bool {
        keys_unique(self.aut_nums@) && keys_unique(self.as_routes@)
    }
}

/// `i` is the first position of `s` with key `n`.
pub open spec fn is_first_key<V>(s: Seq<(u64, V)>, n: u64, i: int) -> bool {
    &&& 0 <= i < s.len()
    &&& s[i].0 == n
    &&& forall|k: int| 0 <= k < i ==> s[k].0 != n
}

/// The position of the entry for `n` in `s`, if any: the first, where several share the key.
pub open spec fn key_index<V>(s: Seq<(u64, V)>, n: u64) -> Option<int> {
    if exists|i: int| is_first_key(s, n, i) {
        Some(choose|i: int| is_first_key(s, n, i))
    } else {
        None
    }
}

proof fn lemma_first_key_unique<V>(s: Seq<(u64, V)>, n: u64, i: int, j: int)
    requires
        is_first_key(s, n, i),
        is_first_key(s, n, j),
    ensures
        i == j,
{
}

/// Position of the entry for `n` in `s`.
pub fn find_key<V>(s: &Vec<(u64, V)>, n: u64) -> (r: Option<usize>)
    ensures
        r matches Some(i) ==> key_index(s@, n) == Some(i as int),
        r is None ==> key_index(s@, n) is None,
        r is None <==> forall|k: int| 0 <= k < s@.len() ==> s@[k].0 != n,
{
    let mut i: usize = 0;
    while i < s.len()
        invariant
            i <= s@.len(),
            forall|k: int| 0 <= k < i ==> s@[k].0 != n,
        decreases s@.len() - i,
    {
        if s[i].0 == n {
            proof {
                assert(is_first_key(s@, n, i as int));
                let j = choose|j: int| is_first_key(s@, n, j);
                lemma_first_key_unique(s@, n, i as int, j);
            }
            return Some(i);
        }
        i = i + 1;
    }
    proof {
        assert(!exists|j: int| is_first_key(s@, n, j));
    }
    None
}

impl QueryIr {
    /// The policy of AS `n`, if the corpus records one.
    pub fn aut_num(&self, n: u64) -> (r: Option<&AutNum>)
        ensures
            r matches Some(a) ==> (key_index(self.aut_nums@, n) matches Some(i) && *a
                == self.aut_nums@[i].1),
            r is None <==> key_index(self.aut_nums@, n) is None,
    {
        match find_key(&self.aut_nums, n) {
            Some(i) => Some(&self.aut_nums[i].1),
            None => None,
        }
    }

    /// The prefixes that AS `n` originates; none where the corpus records none.
    pub fn routes_of(&self, n: u64) -> (r: &[IpPrefix])
        ensures
            r@ == routes_spec(self.as_routes@, n),
    {
        match find_key(&self.as_routes, n) {
            Some(i) => self.as_routes[i].1.as_slice(),
            None => &[],
        }
    }

    /// The ASes of AS set `idx` and of every set it reaches through its
    /// members, each set visited once, so cyclic references end.
    pub fn as_set_members(&self, idx: usize) -> (r: Vec<u64>)
        requires
            idx < self.as_sets@.len(),
        ensures
            forall|n: u64| r@.contains(n) <==> closure_ases(self.as_sets@, set![idx as int]).contains(n),
    {
        let sets = &self.as_sets;
        let total = sets.len();
        let order = reached_sets(sets, idx);
        let mut r: Vec<u64> = Vec::new();
        let mut k: usize = 0;
        while k < order.len()
            invariant
                k <= order@.len(),
                total == sets@.len(),
                forall|t: int| 0 <= t < order@.len() ==> order@[t] < sets@.len(),
                forall|n: u64|
                    r@.contains(n) <==> exists|t: int|
                        0 <= t < k && (#[trigger] sets@[order@[t] as int]).members@.contains(n),
            decreases order@.len() - k,
        {
            let members = &sets[order[k]].members;
            let ghost before = r@;
            let mut m: usize = 0;
            while m < members.len()
                invariant
                    k < order@.len(),
                    *members == sets@[order@[k as int] as int].members,
                    m <= members@.len(),
                    r@ == before + members@.subrange(0, m as int),
            decreases members@.len() - m,
            {
                r.push(members[m]);
                m = m + 1;
                assert(r@ =~= before + members@.subrange(0, m as int));
            }
            proof {
                assert(members@.subrange(0, m as int) =~= members@);
                assert forall|n: u64| r@.contains(n) <==> exists|t: int|
                    0 <= t < k + 1 && (#[trigger] sets@[order@[t] as int]).members@.contains(n) by {
                    if r@.contains(n) {
                        let p = choose|p: int| 0 <= p < r@.len() && r@[p] == n;
                        if p < before.len() {
                            assert(before[p] == n);
                            assert(before.contains(n));
                        } else {
                            assert(members@[p - before.len()] == n);
                            assert(sets@[order@[k as int] as int].members@.contains(n));
                        }
                    }
                    if exists|t: int| 0 <= t < k + 1 && (#[trigger] sets@[order@[t] as int]).members@.contains(n) {
                        let t = choose|t: int| 0 <= t < k + 1 && (#[trigger] sets@[order@[t] as int]).members@.contains(n);
                        if t < k {
                            assert(before.contains(n));
                            let p = choose|p: int| 0 <= p < before.len() && before[p] == n;
                            assert(r@[p] == n);
                        } else {
                            let p = choose|p: int| 0 <= p < members@.len() && members@[p] == n;
                            assert(r@[before.len() + p] == n);
                        }
                    }
                }
            }
            k = k + 1;
        }
        proof {
            let roots = set![idx as int];
            assert forall|n: u64| r@.contains(n) <==> closure_ases(sets@, roots).contains(n) by {
                if r@.contains(n) {
                    let t = choose|t: int| 0 <= t < order@.len() && (#[trigger] sets@[order@[t] as int]).members@.contains(n);
                    let j = order@[t] as int;
                    assert(order@.contains(j as usize));
                    assert(roots.contains(idx as int));
                    assert(set_closure(sets@, roots).contains(j));
                }
                if closure_ases(sets@, roots).contains(n) {
                    let j = choose|j: int| #[trigger] set_closure(sets@, roots).contains(j) && 0 <= j < sets@.len()
                        && sets@[j].members@.contains(n);
                    let i = choose|i: int| #[trigger] roots.contains(i) && reaches(sets@, i, j);
                    assert(i == idx as int);
                    assert(order@.contains(j as usize));
                    let t = choose|t: int| 0 <= t < order@.len() && order@[t] == j as usize;
                    assert(order@[t] as int == j);
                    assert(sets@[order@[t] as int].members@.contains(n));
                }
            }
        }
        r
    }
}

/// The prefixes recorded for AS `n`.
pub open spec fn routes_spec(routes: Seq<(u64, Vec<IpPrefix>)>, n: u64) -> Seq<IpPrefix> {
    match key_index(routes, n) {
        Some(i) => routes[i].1@,
        None => Seq::empty(),
    }
}

} // verus!
