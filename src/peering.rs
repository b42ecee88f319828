use vstd::prelude::*;

use crate::closure::closure_ases;
use crate::ir::{AsExpr, AsName, Peering};
use crate::query::QueryIr;
use crate::report::{
    any_verdict, bad_any_report, conjoin, disjoin, join_all, join_any,
    skip_any_report, unrec_any_report, AnyReport, AnyReportCase, Grade, MatchProblem,
    ReportItem, ToAllReport, ToAnyReport, Verdict,
};

verus! {

/// A verdict of grade `g` with the single reason `item`.
pub open spec fn verdict_of(g: Grade, item: ReportItem) -> Verdict {
    Verdict { grade: g, items: seq![item] }
}

/// The failure without reasons: the unit of disjunction.
pub open spec fn empty_bad() -> Verdict {
    Verdict { grade: Grade::Bad, items: Seq::empty() }
}

/// Negation of a verdict, for `NOT` and `EXCEPT`.
pub open spec fn negate(v: Verdict, problem: MatchProblem) -> Verdict {
    match v.grade {
        Grade::Good => verdict_of(Grade::Bad, ReportItem::NoMatch(problem)),
        Grade::Bad => Verdict { grade: Grade::Good, items: Seq::empty() },
        _ => Verdict { grade: v.grade, items: Seq::empty() },
    }
}

/// Whether AS `n` is one of the ASes of AS set `idx`.
pub open spec fn in_as_set(q: QueryIr, idx: usize, n: u64) -> bool {
    idx < q.as_sets@.len() && closure_ases(q.as_sets@, set![idx as int]).contains(n)
}

/// The verdict on AS name `name` for counterpart AS `accept`.
pub open spec fn as_name_verdict(q: QueryIr, name: AsName, accept: u64) -> Verdict {
    match name {
        AsName::Num(n) => if n == accept {
            Verdict { grade: Grade::Good, items: Seq::empty() }
        } else {
            verdict_of(Grade::Bad, ReportItem::NoMatch(MatchProblem::Peering))
        },
        AsName::AsSet(i) => if in_as_set(q, i, accept) {
            Verdict { grade: Grade::Good, items: Seq::empty() }
        } else {
            verdict_of(Grade::Bad, ReportItem::NoMatch(MatchProblem::Peering))
        },
        AsName::UnrecordedAsSet(s) => verdict_of(Grade::Unrec, ReportItem::UnrecordedAsSet(s)),
        AsName::Any => Verdict { grade: Grade::Good, items: Seq::empty() },
        AsName::Invalid(s) => verdict_of(Grade::Bad, ReportItem::BadRpsl(s)),
    }
}

/// The verdict on AS expression `e` for counterpart AS `accept`, with `budget`
/// levels of nesting left.
pub open spec fn as_expr_verdict(q: QueryIr, e: AsExpr, accept: u64, budget: nat) -> Verdict
    decreases budget, 0nat,
{
    if budget == 0 {
        verdict_of(Grade::Skip, ReportItem::RecCheckPeering)
    } else {
        match e {
            AsExpr::Single(name) => as_name_verdict(q, name, accept),
            AsExpr::PeeringSet(i) => if i < q.peering_sets@.len() {
                peerings_verdict(q, q.peering_sets@[i as int].peerings@, accept, (budget - 1) as nat)
            } else {
                verdict_of(Grade::Bad, ReportItem::NoMatch(MatchProblem::Peering))
            },
            AsExpr::UnrecordedPeeringSet(s) => verdict_of(
                Grade::Unrec,
                ReportItem::UnrecordedPeeringSet(s),
            ),
            AsExpr::And(a, b) => conjoin(
                as_expr_verdict(q, *a, accept, (budget - 1) as nat),
                as_expr_verdict(q, *b, accept, (budget - 1) as nat),
            ),
            AsExpr::Or(a, b) => disjoin(
                as_expr_verdict(q, *a, accept, (budget - 1) as nat),
                as_expr_verdict(q, *b, accept, (budget - 1) as nat),
            ),
            AsExpr::Except(a, b) => conjoin(
                as_expr_verdict(q, *a, accept, (budget - 1) as nat),
                negate(as_expr_verdict(q, *b, accept, (budget - 1) as nat), MatchProblem::Peering),
            ),
        }
    }
}

/// The verdict on a list of peerings, of which one must admit `accept`.
pub open spec fn peerings_verdict(q: QueryIr, ps: Seq<Peering>, accept: u64, budget: nat) -> Verdict
    decreases budget, ps.len() + 1,
{
    if ps.len() == 0 {
        empty_bad()
    } else {
        disjoin(
            peerings_verdict(q, ps.drop_last(), accept, budget),
            as_expr_verdict(q, ps.last().remote_as, accept, budget),
        )
    }
}

/// The outcome of a negation, with success and failure swapped.
pub fn negate_report(r: AnyReport, problem: MatchProblem) -> (n: AnyReport)
    ensures
        any_verdict(n) == negate(any_verdict(r), problem),
{
    match r {
        None => bad_any_report(ReportItem::NoMatch(problem)),
        Some(AnyReportCase::BadAnyReport(_)) => None,
        Some(AnyReportCase::SkipAnyReport(_)) => Some(AnyReportCase::SkipAnyReport(Vec::new())),
        Some(AnyReportCase::UnrecAnyReport(_)) => Some(AnyReportCase::UnrecAnyReport(Vec::new())),
        Some(AnyReportCase::MehAnyReport(_)) => Some(AnyReportCase::MehAnyReport(Vec::new())),
    }
}

/// Combine two outcomes of which both must hold.
pub fn both(a: AnyReport, b: AnyReport) -> (r: AnyReport)
    ensures
        any_verdict(r) == conjoin(any_verdict(a), any_verdict(b)),
{
    let (a, b) = (a.to_all(), b.to_all());
    proof {
        crate::report::lemma_round_trips(a.to_any_spec(), b);
    }
    join_all(a, b).to_any()
}

fn no_match_peering() -> (r: AnyReport)
    ensures
        any_verdict(r) == verdict_of(Grade::Bad, ReportItem::NoMatch(MatchProblem::Peering)),
{
    bad_any_report(ReportItem::NoMatch(MatchProblem::Peering))
}

/// Whether AS `n` is one of the ASes of AS set `idx`.
pub fn as_set_contains(q: &QueryIr, idx: usize, n: u64) -> (r: bool)
    ensures
        r == in_as_set(*q, idx, n),
{
    if idx >= q.as_sets.len() {
        return false;
    }
    let members = q.as_set_members(idx);
    let mut i: usize = 0;
    while i < members.len()
        invariant
            i <= members@.len(),
            idx < q.as_sets@.len(),
            forall|m: u64| members@.contains(m) <==> closure_ases(q.as_sets@, set![idx as int]).contains(m),
            forall|k: int| 0 <= k < i ==> members@[k] != n,
        decreases members@.len() - i,
    {
        if members[i] == n {
            assert(members@.contains(n));
            return true;
        }
        i = i + 1;
    }
    assert(!members@.contains(n));
    false
}

/// Check AS name `name` against counterpart AS `accept`.
pub fn check_as_name(q: &QueryIr, name: &AsName, accept: u64) -> (r: AnyReport)
    ensures
        any_verdict(r) == as_name_verdict(*q, *name, accept),
{
    match name {
        AsName::Num(n) => if *n == accept {
            None
        } else {
            no_match_peering()
        },
        AsName::AsSet(i) => if as_set_contains(q, *i, accept) {
            None
        } else {
            no_match_peering()
        },
        AsName::UnrecordedAsSet(s) => unrec_any_report(ReportItem::UnrecordedAsSet(s.clone())),
        AsName::Any => None,
        AsName::Invalid(s) => bad_any_report(ReportItem::BadRpsl(s.clone())),
    }
}

/// Check AS expression `e` against counterpart AS `accept`, with `budget`
/// levels of nesting left.
pub fn check_as_expr(q: &QueryIr, e: &AsExpr, accept: u64, budget: u32) -> (r: AnyReport)
    ensures
        any_verdict(r) == as_expr_verdict(*q, *e, accept, budget as nat),
    decreases budget, 0nat,
{
    if budget == 0 {
        return skip_any_report(ReportItem::RecCheckPeering);
    }
    let b = budget - 1;
    match e {
        AsExpr::Single(name) => check_as_name(q, name, accept),
        AsExpr::PeeringSet(i) => if *i < q.peering_sets.len() {
            check_peerings(q, &q.peering_sets[*i].peerings, accept, b)
        } else {
            no_match_peering()
        },
        AsExpr::UnrecordedPeeringSet(s) => unrec_any_report(
            ReportItem::UnrecordedPeeringSet(s.clone()),
        ),
        AsExpr::And(x, y) => both(check_as_expr(q, x, accept, b), check_as_expr(q, y, accept, b)),
        AsExpr::Or(x, y) => join_any(
            check_as_expr(q, x, accept, b),
            check_as_expr(q, y, accept, b),
        ),
        AsExpr::Except(x, y) => both(
            check_as_expr(q, x, accept, b),
            negate_report(check_as_expr(q, y, accept, b), MatchProblem::Peering),
        ),
    }
}

/// Check a list of peerings, of which one must admit `accept`.
pub fn check_peerings(q: &QueryIr, ps: &Vec<Peering>, accept: u64, budget: u32) -> (r: AnyReport)
    ensures
        any_verdict(r) == peerings_verdict(*q, ps@, accept, budget as nat),
    decreases budget, ps@.len() + 1,
{
    let mut acc: AnyReport = Some(AnyReportCase::const_default());
    let mut i: usize = 0;
    assert(ps@.subrange(0, 0) =~= Seq::<Peering>::empty());
    while i < ps.len()
        invariant
            i <= ps@.len(),
            any_verdict(acc) == peerings_verdict(*q, ps@.subrange(0, i as int), accept, budget as nat),
        decreases ps@.len() - i,
    {
        let r = check_as_expr(q, &ps[i].remote_as, accept, budget);
        acc = join_any(acc, r);
        proof {
            let s = ps@.subrange(0, i + 1);
            assert(s.drop_last() =~= ps@.subrange(0, i as int));
            assert(s.last() == ps@[i as int]);
        }
        i = i + 1;
    }
    assert(ps@.subrange(0, ps@.len() as int) =~= ps@);
    acc
}

} // verus!
