use vstd::prelude::*;

use crate::as_regex::{check_path_regex, depth_within, path_regex_match, re_depth};
use crate::closure::closure_ases;
use crate::compare::Compare;
use crate::ir::{AsExpr, Filter, RegexOperator, RouteSetMember};
use crate::peering::{
    as_expr_verdict, as_set_contains, both, check_as_expr, empty_bad, in_as_set, negate,
    negate_report, verdict_of,
};
use crate::prefix::{match_ips, AddrPfxRange, IpPrefix, RangeOperator};
use crate::query::{routes_spec, QueryIr};
use crate::report::{
    any_verdict, bad_any_report, conjoin, disjoin, join_any, skip_any_report,
    special_any_report, unrec_any_report, AnyReport, AnyReportCase, AsPathEntry, Grade,
    MatchProblem, ReportItem, Verdict,
};

verus! {

pub open spec fn good() -> Verdict {
    Verdict { grade: Grade::Good, items: Seq::empty() }
}

pub open spec fn no_match_filter() -> Verdict {
    verdict_of(Grade::Bad, ReportItem::NoMatch(MatchProblem::Filter))
}

/// Success where `ok`, else a failure to match the filter.
pub open spec fn match_verdict(ok: bool) -> Verdict {
    if ok { good() } else { no_match_filter() }
}

/// The route's origin: the first AS of its path, if that is a single AS.
pub open spec fn path_origin(path: Seq<AsPathEntry>) -> Option<u64> {
    if path.len() > 0 {
        match path[0] {
            AsPathEntry::Single(n) => Some(n),
            AsPathEntry::Group(_) => None,
        }
    } else {
        None
    }
}

/// The first `seen` entries of `path`, all of them where it has no more.
pub open spec fn seen_part(path: Seq<AsPathEntry>, seen: nat) -> Seq<AsPathEntry> {
    if seen <= path.len() { path.subrange(0, seen as int) } else { path }
}

/// Path entry `e` is the single AS `n`.
pub open spec fn entry_is(e: AsPathEntry, n: u64) -> bool {
    e matches AsPathEntry::Single(m) && m == n
}

/// Path entry `e` is a single AS of AS set `i`.
pub open spec fn entry_in_set(q: QueryIr, e: AsPathEntry, i: usize) -> bool {
    e matches AsPathEntry::Single(m) && in_as_set(q, i, m)
}

/// The verdict of AS number `n` under quantifier `op` on AS path `path`, of
/// which the first `seen` entries were announced. The quantifier applies at the
/// origin: `n+` holds where the origin is `n`, `n*` and `n?` always hold (zero
/// repetitions match), `n{lo,hi}` holds where the first `lo` entries are all `n`;
/// `~` (contains) holds where some announced entry is `n`.
pub open spec fn as_num_verdict(path: Seq<AsPathEntry>, seen: nat, n: u64, op: RegexOperator) -> Verdict {
    match op {
        RegexOperator::NoOp | RegexOperator::Plus => match path_origin(path) {
            Some(o) => match_verdict(o == n),
            None => verdict_of(Grade::Skip, ReportItem::SkipAsSetOrigin),
        },
        RegexOperator::Contains => match_verdict(
            exists|k: int| 0 <= k < seen_part(path, seen).len() && entry_is(#[trigger] path[k], n),
        ),
        RegexOperator::Star | RegexOperator::Question => good(),
        RegexOperator::Range(lo, hi) => match_verdict(
            lo <= hi && lo <= seen_part(path, seen).len() && forall|t: int|
                0 <= t < lo ==> entry_is(#[trigger] path[t], n),
        ),
    }
}

/// The verdict of AS set `i` under quantifier `op` on AS path `path`, read as
/// for an AS number with "an AS of the set" in place of `n`.
pub open spec fn as_set_verdict(q: QueryIr, path: Seq<AsPathEntry>, seen: nat, i: usize, op: RegexOperator) -> Verdict {
    match op {
        RegexOperator::NoOp | RegexOperator::Plus => match path_origin(path) {
            Some(o) => match_verdict(in_as_set(q, i, o)),
            None => verdict_of(Grade::Skip, ReportItem::SkipAsSetOrigin),
        },
        RegexOperator::Contains => match_verdict(
            exists|k: int| 0 <= k < seen_part(path, seen).len() && entry_in_set(q, #[trigger] path[k], i),
        ),
        RegexOperator::Star | RegexOperator::Question => good(),
        RegexOperator::Range(lo, hi) => match_verdict(
            lo <= hi && lo <= seen_part(path, seen).len() && forall|t: int|
                0 <= t < lo ==> entry_in_set(q, #[trigger] path[t], i),
        ),
    }
}

/// The ASes of a path of single ASes in the order a BGP speaker lists them:
/// the last AS first, the origin last; nothing where an entry is an AS set.
pub open spec fn path_asns(path: Seq<AsPathEntry>) -> Option<Seq<u64>> {
    if forall|k: int| 0 <= k < path.len() ==> (#[trigger] path[k]) is Single {
        Some(Seq::new(path.len(), |k: int| path[path.len() - 1 - k]->Single_0))
    } else {
        None
    }
}

/// The ASes of `path` in the order a BGP speaker lists them, if it holds no AS set.
pub fn bgp_order(path: &Vec<AsPathEntry>, seen: usize) -> (r: Option<Vec<u64>>)
    ensures
        r matches Some(v) ==> path_asns(seen_part(path@, seen as nat)) == Some(v@),
        r is None ==> path_asns(seen_part(path@, seen as nat)) is None,
{
    let ghost part = seen_part(path@, seen as nat);
    let mut v: Vec<u64> = Vec::new();
    let n = if seen <= path.len() { seen } else { path.len() };
    assert(part.len() == n);
    assert(forall|t: int| 0 <= t < n ==> part[t] == path@[t]);
    let mut k: usize = 0;
    while k < n
        invariant
            part == seen_part(path@, seen as nat),
            n == part.len(),
            n <= path@.len(),
            forall|t: int| 0 <= t < n ==> part[t] == path@[t],
            k <= n,
            v@.len() == k,
            forall|t: int| 0 <= t < k ==> (#[trigger] part[n - 1 - t]) is Single && v@[t] == part[n - 1 - t]->Single_0,
        decreases n - k,
    {
        match &path[n - 1 - k] {
            AsPathEntry::Single(a) => v.push(*a),
            AsPathEntry::Group(_) => {
                assert(!(part[n - 1 - k as int] is Single));
                return None;
            },
        }
        k = k + 1;
    }
    proof {
        assert forall|t: int| 0 <= t < part.len() implies (#[trigger] part[t]) is Single by {
            assert(part[n - 1 - (n - 1 - t)] is Single);
        }
        assert(v@ =~= Seq::new(part.len(), |t: int| part[part.len() - 1 - t]->Single_0));
    }
    Some(v)
}

/// Route `r` holds prefix `p` once operator `op` applies to it: `p` itself
/// where `op` is `NoOp`, else the more specifics of `r` that `op` admits.
pub open spec fn route_holds(r: IpPrefix, op: RangeOperator, p: IpPrefix) -> bool {
    match op {
        RangeOperator::NoOp => r == p,
        _ => (AddrPfxRange { address_prefix: r, range_operator: op }).admits(p),
    }
}

/// Range `r` of a route set holds prefix `p` once the operator `op` of the
/// set applies: a range without an operator takes the set's, a range with one
/// keeps the lengths that both admit.
pub open spec fn range_holds(r: AddrPfxRange, op: RangeOperator, p: IpPrefix) -> bool {
    match op {
        RangeOperator::NoOp => r.admits(p),
        _ => (AddrPfxRange { address_prefix: r.address_prefix, range_operator: op }).admits(p) && (
        r.range_operator is NoOp || r.admits(p)),
    }
}

/// AS `n` originates a route that holds prefix `p` under operator `op`.
pub open spec fn originates(q: QueryIr, n: u64, p: IpPrefix, op: RangeOperator) -> bool {
    exists|k: int|
        0 <= k < routes_spec(q.as_routes@, n).len() && route_holds(
            #[trigger] routes_spec(q.as_routes@, n)[k],
            op,
            p,
        )
}

/// The verdict on whether route-set member `m` holds prefix `p`.
pub open spec fn member_verdict(q: QueryIr, p: IpPrefix, m: RouteSetMember, op: RangeOperator, budget: nat) -> Verdict
    decreases budget, 0nat,
{
    match m {
        RouteSetMember::Range(r) => match_verdict(range_holds(r, op, p)),
        RouteSetMember::RouteSet(j) => if budget == 0 {
            verdict_of(Grade::Skip, ReportItem::RecCheckFilter)
        } else if j < q.route_sets@.len() {
            members_verdict(q, p, q.route_sets@[j as int].members@, op, (budget - 1) as nat)
        } else {
            no_match_filter()
        },
        RouteSetMember::AsNum(n) => match_verdict(originates(q, n, p, op)),
        RouteSetMember::AsSet(j) => match_verdict(
            exists|n: u64| #[trigger] in_as_set(q, j, n) && originates(q, n, p, op),
        ),
        RouteSetMember::Unrecorded(s) => verdict_of(Grade::Unrec, ReportItem::UnrecordedRouteSet(s)),
    }
}

/// The verdict on whether some member of `ms` holds prefix `p`.
pub open spec fn members_verdict(q: QueryIr, p: IpPrefix, ms: Seq<RouteSetMember>, op: RangeOperator, budget: nat) -> Verdict
    decreases budget, ms.len() + 1,
{
    if ms.len() == 0 {
        empty_bad()
    } else {
        disjoin(members_verdict(q, p, ms.drop_last(), op, budget), member_verdict(q, p, ms.last(), op, budget))
    }
}

/// The verdict of filter `f` of the policy of AS `self_num` on the route of `c`,
/// of whose path the first `seen` entries were announced, with `budget` levels
/// of nesting left.
pub open spec fn filter_verdict(q: QueryIr, c: Compare, self_num: u64, seen: nat, f: Filter, budget: nat) -> Verdict
    decreases budget, 0nat,
{
    if budget == 0 {
        verdict_of(Grade::Skip, ReportItem::RecCheckFilter)
    } else {
        let b = (budget - 1) as nat;
        match f {
            Filter::Any => good(),
            Filter::AsNum(n, op) => as_num_verdict(c.as_path@, seen, n, op),
            Filter::AsSet(i, op) => as_set_verdict(q, c.as_path@, seen, i, op),
            Filter::UnrecordedAsSet(s) => verdict_of(Grade::Unrec, ReportItem::UnrecordedAsSet(s)),
            Filter::AddrPrefixSet(rs) => match_verdict(
                exists|k: int| 0 <= k < rs@.len() && (#[trigger] rs@[k]).admits(c.prefix),
            ),
            Filter::RouteSet(i, op) => if i < q.route_sets@.len() {
                members_verdict(q, c.prefix, q.route_sets@[i as int].members@, op, b)
            } else {
                no_match_filter()
            },
            Filter::UnrecordedRouteSet(s) => verdict_of(Grade::Unrec, ReportItem::UnrecordedRouteSet(s)),
            Filter::PeeringSet(i) => as_expr_verdict(q, AsExpr::PeeringSet(i), self_num, b),
            Filter::UnrecordedPeeringSet(s) => verdict_of(
                Grade::Unrec,
                ReportItem::UnrecordedPeeringSet(s),
            ),
            Filter::FilterSet(i) => if i < q.filter_sets@.len() {
                filters_verdict(q, c, self_num, seen, q.filter_sets@[i as int].filters@, b)
            } else {
                no_match_filter()
            },
            Filter::UnrecordedFilterSet(s) => verdict_of(Grade::Unrec, ReportItem::UnrecordedFilterSet(s)),
            Filter::AsPathRE(r) => if re_depth(r.re) > b {
                verdict_of(Grade::Skip, ReportItem::RecCheckFilter)
            } else {
                match path_asns(seen_part(c.as_path@, seen)) {
                    Some(asns) => match_verdict(path_regex_match(q, r, asns)),
                    None => verdict_of(Grade::Skip, ReportItem::SkipAsRegexWithSet),
                }
            },
            Filter::And(x, y) => conjoin(filter_verdict(q, c, self_num, seen, *x, b), filter_verdict(q, c, self_num, seen, *y, b)),
            Filter::Or(x, y) => disjoin(filter_verdict(q, c, self_num, seen, *x, b), filter_verdict(q, c, self_num, seen, *y, b)),
            Filter::Not(x) => negate(filter_verdict(q, c, self_num, seen, *x, b), MatchProblem::Filter),
            Filter::Group(x) => filter_verdict(q, c, self_num, seen, *x, b),
            Filter::Community(_) => if c.verbosity.record_community {
                verdict_of(Grade::Meh, ReportItem::SkipCommunityCheckUnimplemented)
            } else {
                Verdict { grade: Grade::Skip, items: Seq::empty() }
            },
            Filter::Invalid(s) => verdict_of(Grade::Bad, ReportItem::BadRpsl(s)),
        }
    }
}

/// The verdict on a list of filters, of which one must match.
pub open spec fn filters_verdict(q: QueryIr, c: Compare, self_num: u64, seen: nat, fs: Seq<Filter>, budget: nat) -> Verdict
    decreases budget, fs.len() + 1,
{
    if fs.len() == 0 {
        empty_bad()
    } else {
        disjoin(filters_verdict(q, c, self_num, seen, fs.drop_last(), budget), filter_verdict(q, c, self_num, seen, fs.last(), budget))
    }
}

fn match_report(ok: bool) -> (r: AnyReport)
    ensures
        any_verdict(r) == match_verdict(ok),
{
    if ok {
        None
    } else {
        bad_any_report(ReportItem::NoMatch(MatchProblem::Filter))
    }
}

/// Whether route `r` holds prefix `p` under operator `op`.
fn check_route_holds(r: &IpPrefix, op: RangeOperator, p: &IpPrefix) -> (b: bool)
    ensures
        b == route_holds(*r, op, *p),
{
    match op {
        RangeOperator::NoOp => *r == *p,
        _ => (AddrPfxRange { address_prefix: *r, range_operator: op }).contains(p),
    }
}

/// Whether range `r` of a route set holds prefix `p` under the set's operator `op`.
fn check_range_holds(r: &AddrPfxRange, op: RangeOperator, p: &IpPrefix) -> (b: bool)
    ensures
        b == range_holds(*r, op, *p),
{
    match op {
        RangeOperator::NoOp => r.contains(p),
        _ => (AddrPfxRange { address_prefix: r.address_prefix, range_operator: op }).contains(p) && (
        matches!(r.range_operator, RangeOperator::NoOp) || r.contains(p)),
    }
}

/// Whether AS `n` originates a route that holds prefix `p` under operator `op`.
pub fn check_originates(q: &QueryIr, n: u64, p: &IpPrefix, op: RangeOperator) -> (r: bool)
    ensures
        r == originates(*q, n, *p, op),
{
    let routes = q.routes_of(n);
    let mut i: usize = 0;
    while i < routes.len()
        invariant
            i <= routes@.len(),
            routes@ == routes_spec(q.as_routes@, n),
            forall|k: int| 0 <= k < i ==> !route_holds(#[trigger] routes@[k], op, *p),
        decreases routes@.len() - i,
    {
        if check_route_holds(&routes[i], op, p) {
            return true;
        }
        i = i + 1;
    }
    false
}

/// Whether some AS of AS set `j` originates prefix `p`.
fn as_set_originates(q: &QueryIr, j: usize, p: &IpPrefix, op: RangeOperator) -> (r: bool)
    ensures
        r == exists|n: u64| #[trigger] in_as_set(*q, j, n) && originates(*q, n, *p, op),
{
    if j >= q.as_sets.len() {
        return false;
    }
    let members = q.as_set_members(j);
    let mut i: usize = 0;
    while i < members.len()
        invariant
            i <= members@.len(),
            j < q.as_sets@.len(),
            forall|m: u64| members@.contains(m) <==> closure_ases(q.as_sets@, set![j as int]).contains(m),
            forall|k: int| 0 <= k < i ==> !originates(*q, #[trigger] members@[k], *p, op),
        decreases members@.len() - i,
    {
        if check_originates(q, members[i], p, op) {
            assert(members@.contains(members@[i as int]));
            assert(in_as_set(*q, j, members@[i as int]));
            return true;
        }
        i = i + 1;
    }
    proof {
        assert forall|n: u64| #[trigger] in_as_set(*q, j, n) implies !originates(*q, n, *p, op) by {
            assert(members@.contains(n));
            let k = choose|k: int| 0 <= k < members@.len() && members@[k] == n;
        }
    }
    false
}

/// Check whether route-set member `m` holds prefix `p`.
pub fn check_member(q: &QueryIr, p: &IpPrefix, m: &RouteSetMember, op: RangeOperator, budget: u32) -> (r: AnyReport)
    ensures
        any_verdict(r) == member_verdict(*q, *p, *m, op, budget as nat),
    decreases budget, 0nat,
{
    match m {
        RouteSetMember::Range(range) => match_report(check_range_holds(range, op, p)),
        RouteSetMember::RouteSet(j) => if budget == 0 {
            skip_any_report(ReportItem::RecCheckFilter)
        } else if *j < q.route_sets.len() {
            check_members(q, p, &q.route_sets[*j].members, op, budget - 1)
        } else {
            match_report(false)
        },
        RouteSetMember::AsNum(n) => match_report(check_originates(q, *n, p, op)),
        RouteSetMember::AsSet(j) => match_report(as_set_originates(q, *j, p, op)),
        RouteSetMember::Unrecorded(s) => unrec_any_report(ReportItem::UnrecordedRouteSet(s.clone())),
    }
}

/// Check whether some member of `ms` holds prefix `p`.
pub fn check_members(q: &QueryIr, p: &IpPrefix, ms: &Vec<RouteSetMember>, op: RangeOperator, budget: u32) -> (r: AnyReport)
    ensures
        any_verdict(r) == members_verdict(*q, *p, ms@, op, budget as nat),
    decreases budget, ms@.len() + 1,
{
    let mut acc: AnyReport = Some(AnyReportCase::const_default());
    let mut i: usize = 0;
    assert(ms@.subrange(0, 0) =~= Seq::<RouteSetMember>::empty());
    while i < ms.len()
        invariant
            i <= ms@.len(),
            any_verdict(acc) == members_verdict(*q, *p, ms@.subrange(0, i as int), op, budget as nat),
        decreases ms@.len() - i,
    {
        let r = check_member(q, p, &ms[i], op, budget);
        acc = join_any(acc, r);
        proof {
            let s = ms@.subrange(0, i + 1);
            assert(s.drop_last() =~= ms@.subrange(0, i as int));
            assert(s.last() == ms@[i as int]);
        }
        i = i + 1;
    }
    assert(ms@.subrange(0, ms@.len() as int) =~= ms@);
    acc
}

/// Check an AS-path quantifier against AS number `n`.
fn check_as_num(path: &Vec<AsPathEntry>, seen: usize, n: u64, op: RegexOperator) -> (r: AnyReport)
    ensures
        any_verdict(r) == as_num_verdict(path@, seen as nat, n, op),
{
    match op {
        RegexOperator::NoOp | RegexOperator::Plus => {
            if path.len() == 0 {
                return skip_any_report(ReportItem::SkipAsSetOrigin);
            }
            match &path[0] {
                AsPathEntry::Single(o) => match_report(*o == n),
                AsPathEntry::Group(_) => skip_any_report(ReportItem::SkipAsSetOrigin),
            }
        },
        RegexOperator::Contains => {
            let lim = if seen <= path.len() { seen } else { path.len() };
            assert(seen_part(path@, seen as nat).len() == lim);
            let mut k: usize = 0;
            while k < lim
                invariant
                    k <= lim,
                    lim <= path@.len(),
                    seen_part(path@, seen as nat).len() == lim,
                    op == RegexOperator::Contains,
                    forall|t: int| 0 <= t < k ==> !entry_is(#[trigger] path@[t], n),
                decreases lim - k,
            {
                if let AsPathEntry::Single(m) = &path[k] {
                    if *m == n {
                        assert(entry_is(path@[k as int], n));
                        return match_report(true);
                    }
                }
                k = k + 1;
            }
            match_report(false)
        },
        RegexOperator::Star | RegexOperator::Question => None,
        RegexOperator::Range(lo, hi) => {
            let lim = if seen <= path.len() { seen } else { path.len() };
            assert(seen_part(path@, seen as nat).len() == lim);
            if lo > hi || lo as usize > lim {
                return match_report(false);
            }
            let mut t: usize = 0;
            while t < lo as usize
                invariant
                    t <= lo,
                    lo as usize <= lim <= path@.len(),
                    op == RegexOperator::Range(lo, hi),
                    lo <= hi,
                    seen_part(path@, seen as nat).len() == lim,
                    forall|u: int| 0 <= u < t ==> #[trigger] entry_is(path@[u], n),
                decreases lo - t,
            {
                let hit = match &path[t] {
                    AsPathEntry::Single(m) => *m == n,
                    AsPathEntry::Group(_) => false,
                };
                if !hit {
                    assert(!(entry_is(path@[t as int], n)));
                    return match_report(false);
                }
                t = t + 1;
            }
            match_report(true)
        },
    }
}

/// Check an AS-path quantifier against the ASes of AS set `i`.
fn check_as_set(q: &QueryIr, path: &Vec<AsPathEntry>, seen: usize, i: usize, op: RegexOperator) -> (r: AnyReport)
    ensures
        any_verdict(r) == as_set_verdict(*q, path@, seen as nat, i, op),
{
    match op {
        RegexOperator::NoOp | RegexOperator::Plus => {
            if path.len() == 0 {
                return skip_any_report(ReportItem::SkipAsSetOrigin);
            }
            match &path[0] {
                AsPathEntry::Single(o) => match_report(as_set_contains(q, i, *o)),
                AsPathEntry::Group(_) => skip_any_report(ReportItem::SkipAsSetOrigin),
            }
        },
        RegexOperator::Contains => {
            let lim = if seen <= path.len() { seen } else { path.len() };
            assert(seen_part(path@, seen as nat).len() == lim);
            let mut k: usize = 0;
            while k < lim
                invariant
                    k <= lim,
                    lim <= path@.len(),
                    seen_part(path@, seen as nat).len() == lim,
                    op == RegexOperator::Contains,
                    forall|t: int| 0 <= t < k ==> !entry_in_set(*q, #[trigger] path@[t], i),
                decreases lim - k,
            {
                if let AsPathEntry::Single(m) = &path[k] {
                    if as_set_contains(q, i, *m) {
                        assert(entry_in_set(*q, path@[k as int], i));
                        return match_report(true);
                    }
                }
                k = k + 1;
            }
            match_report(false)
        },
        RegexOperator::Star | RegexOperator::Question => None,
        RegexOperator::Range(lo, hi) => {
            let lim = if seen <= path.len() { seen } else { path.len() };
            assert(seen_part(path@, seen as nat).len() == lim);
            if lo > hi || lo as usize > lim {
                return match_report(false);
            }
            let mut t: usize = 0;
            while t < lo as usize
                invariant
                    t <= lo,
                    lo as usize <= lim <= path@.len(),
                    op == RegexOperator::Range(lo, hi),
                    lo <= hi,
                    seen_part(path@, seen as nat).len() == lim,
                    forall|u: int| 0 <= u < t ==> #[trigger] entry_in_set(*q, path@[u], i),
                decreases lo - t,
            {
                let hit = match &path[t] {
                    AsPathEntry::Single(m) => as_set_contains(q, i, *m),
                    AsPathEntry::Group(_) => false,
                };
                if !hit {
                    assert(!(entry_in_set(*q, path@[t as int], i)));
                    return match_report(false);
                }
                t = t + 1;
            }
            match_report(true)
        },
    }
}

/// Check filter `f` of the policy of AS `self_num` against the route of `c`,
/// of whose path the first `seen` entries were announced, with `budget` levels
/// of nesting left.
pub fn check_filter(q: &QueryIr, c: &Compare, self_num: u64, seen: usize, f: &Filter, budget: u32) -> (r: AnyReport)
    ensures
        any_verdict(r) == filter_verdict(*q, *c, self_num, seen as nat, *f, budget as nat),
    decreases budget, 0nat,
{
    if budget == 0 {
        return skip_any_report(ReportItem::RecCheckFilter);
    }
    let b = budget - 1;
    match f {
        Filter::Any => None,
        Filter::AsNum(n, op) => check_as_num(&c.as_path, seen, *n, *op),
        Filter::AsSet(i, op) => check_as_set(q, &c.as_path, seen, *i, *op),
        Filter::UnrecordedAsSet(s) => unrec_any_report(ReportItem::UnrecordedAsSet(s.clone())),
        Filter::AddrPrefixSet(rs) => match_report(match_ips(&c.prefix, rs)),
        Filter::RouteSet(i, op) => if *i < q.route_sets.len() {
            check_members(q, &c.prefix, &q.route_sets[*i].members, *op, b)
        } else {
            match_report(false)
        },
        Filter::UnrecordedRouteSet(s) => unrec_any_report(ReportItem::UnrecordedRouteSet(s.clone())),
        Filter::PeeringSet(i) => check_as_expr(q, &AsExpr::PeeringSet(*i), self_num, b),
        Filter::UnrecordedPeeringSet(s) => unrec_any_report(
            ReportItem::UnrecordedPeeringSet(s.clone()),
        ),
        Filter::FilterSet(i) => if *i < q.filter_sets.len() {
            check_filters(q, c, self_num, seen, &q.filter_sets[*i].filters, b)
        } else {
            match_report(false)
        },
        Filter::UnrecordedFilterSet(s) => unrec_any_report(ReportItem::UnrecordedFilterSet(s.clone())),
        Filter::AsPathRE(r) => if !depth_within(&r.re, b) {
            skip_any_report(ReportItem::RecCheckFilter)
        } else {
            match bgp_order(&c.as_path, seen) {
                Some(asns) => match_report(check_path_regex(q, r, &asns)),
                None => skip_any_report(ReportItem::SkipAsRegexWithSet),
            }
        },
        Filter::And(x, y) => both(check_filter(q, c, self_num, seen, x, b), check_filter(q, c, self_num, seen, y, b)),
        Filter::Or(x, y) => join_any(check_filter(q, c, self_num, seen, x, b), check_filter(q, c, self_num, seen, y, b)),
        Filter::Not(x) => negate_report(check_filter(q, c, self_num, seen, x, b), MatchProblem::Filter),
        Filter::Group(x) => check_filter(q, c, self_num, seen, x, b),
        Filter::Community(_) => if c.verbosity.record_community {
            special_any_report(ReportItem::SkipCommunityCheckUnimplemented)
        } else {
            Some(AnyReportCase::SkipAnyReport(Vec::new()))
        },
        Filter::Invalid(s) => bad_any_report(ReportItem::BadRpsl(s.clone())),
    }
}

/// Check a list of filters, of which one must match.
pub fn check_filters(q: &QueryIr, c: &Compare, self_num: u64, seen: usize, fs: &Vec<Filter>, budget: u32) -> (r: AnyReport)
    ensures
        any_verdict(r) == filters_verdict(*q, *c, self_num, seen as nat, fs@, budget as nat),
    decreases budget, fs@.len() + 1,
{
    let mut acc: AnyReport = Some(AnyReportCase::const_default());
    let mut i: usize = 0;
    assert(fs@.subrange(0, 0) =~= Seq::<Filter>::empty());
    while i < fs.len()
        invariant
            i <= fs@.len(),
            any_verdict(acc) == filters_verdict(*q, *c, self_num, seen as nat, fs@.subrange(0, i as int), budget as nat),
        decreases fs@.len() - i,
    {
        let r = check_filter(q, c, self_num, seen, &fs[i], budget);
        acc = join_any(acc, r);
        proof {
            let s = fs@.subrange(0, i + 1);
            assert(s.drop_last() =~= fs@.subrange(0, i as int));
            assert(s.last() == fs@[i as int]);
        }
        i = i + 1;
    }
    assert(fs@.subrange(0, fs@.len() as int) =~= fs@);
    acc
}

} // verus!
