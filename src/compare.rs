use vstd::prelude::*;

use crate::filter::{check_filter, filter_verdict, good};
use crate::ir::{AutNum, Casts, Entry, PeeringAction, Versions};
use crate::peering::{as_expr_verdict, both, check_as_expr, empty_bad, verdict_of};
use crate::prefix::{is_multicast, multicast_spec, IpPrefix};
use crate::query::{key_index, QueryIr};
use crate::report::{
    any_verdict, conjoin, disjoin, join_any, skip_any_report, unrec_any_report, AnyReport,
    AnyReportCase, AsPathEntry, Grade, Report, ReportItem, Verdict,
};
use crate::verbosity::{least_verbosity, Verbosity, VerbosityReport};

verus! {

/// Default number of nesting levels a policy check may descend.
pub const RECURSION_LIMIT: u32 = 0x100;

/// A route to check against a policy corpus, and how to report on it.
///
/// `as_path` lists the ASes from the origin on: the first entry originated
/// the prefix and each next entry received it from the one before. The hop
/// from entry `k` to entry `k + 1` is checked on the path that entry `k`
/// announced, its first `k + 1` entries; the origin of the route is always the
/// first entry.
pub struct Compare {
    pub prefix: IpPrefix,
    pub as_path: Vec<AsPathEntry>,
    pub recursion_limit: u32,
    pub verbosity: Verbosity,
}

/// What an AS-path entry denotes.
pub enum EntryView {
    Single(u64),
    Group(Seq<u64>),
}

pub open spec fn entry_view(e: AsPathEntry) -> EntryView {
    match e {
        AsPathEntry::Single(n) => EntryView::Single(n),
        AsPathEntry::Group(v) => EntryView::Group(v@),
    }
}

/// The path with each run of equal consecutive entries kept once.
pub open spec fn dedup_views(s: Seq<AsPathEntry>) -> Seq<EntryView>
    decreases s.len(),
{
    if s.len() == 0 {
        Seq::empty()
    } else {
        let d = dedup_views(s.drop_last());
        if d.len() > 0 && d.last() == entry_view(s.last()) {
            d
        } else {
            d.push(entry_view(s.last()))
        }
    }
}

pub open spec fn path_views(s: Seq<AsPathEntry>) -> Seq<EntryView> {
    s.map_values(|e: AsPathEntry| entry_view(e))
}

fn copy_asns(v: &Vec<u64>) -> (r: Vec<u64>)
    ensures
        r@ == v@,
{
    let mut r: Vec<u64> = Vec::new();
    let mut i: usize = 0;
    while i < v.len()
        invariant
            i <= v@.len(),
            r@ == v@.subrange(0, i as int),
        decreases v@.len() - i,
    {
        r.push(v[i]);
        i = i + 1;
        assert(r@ =~= v@.subrange(0, i as int));
    }
    assert(v@.subrange(0, v@.len() as int) =~= v@);
    r
}

fn copy_entry(e: &AsPathEntry) -> (r: AsPathEntry)
    ensures
        entry_view(r) == entry_view(*e),
{
    match e {
        AsPathEntry::Single(n) => AsPathEntry::Single(*n),
        AsPathEntry::Group(v) => AsPathEntry::Group(copy_asns(v)),
    }
}

fn same_entry(a: &AsPathEntry, b: &AsPathEntry) -> (r: bool)
    ensures
        r == (entry_view(*a) == entry_view(*b)),
{
    match (a, b) {
        (AsPathEntry::Single(x), AsPathEntry::Single(y)) => *x == *y,
        (AsPathEntry::Group(x), AsPathEntry::Group(y)) => {
            if x.len() != y.len() {
                return false;
            }
            let mut i: usize = 0;
            while i < x.len()
                invariant
                    i <= x@.len(),
                    x@.len() == y@.len(),
                    entry_view(*a) == EntryView::Group(x@),
                    entry_view(*b) == EntryView::Group(y@),
                    forall|k: int| 0 <= k < i ==> x@[k] == y@[k],
                decreases x@.len() - i,
            {
                if x[i] != y[i] {
                    assert(x@[i as int] != y@[i as int]);
                    assert(x@ != y@);
                    return false;
                }
                i = i + 1;
            }
            assert(x@ =~= y@);
            true
        },
        _ => false,
    }
}

/// A peering check of an entry: one of its peerings must admit `accept`.
pub open spec fn peering_actions_verdict(q: QueryIr, ps: Seq<PeeringAction>, accept: u64, budget: nat) -> Verdict
    decreases ps.len(),
{
    if ps.len() == 0 {
        empty_bad()
    } else {
        disjoin(
            peering_actions_verdict(q, ps.drop_last(), accept, budget),
            as_expr_verdict(q, ps.last().mp_peering.remote_as, accept, budget),
        )
    }
}

/// One policy entry of AS `self_num`: its peerings admit the counterpart
/// `accept`, where there is one, and its filter admits the route.
pub open spec fn entry_verdict(q: QueryIr, c: Compare, e: Entry, self_num: u64, seen: nat, accept: Option<u64>) -> Verdict {
    conjoin(
        match accept {
            None => good(),
            Some(a) => peering_actions_verdict(q, e.mp_peerings@, a, c.recursion_limit as nat),
        },
        filter_verdict(q, c, self_num, seen, e.mp_filter, c.recursion_limit as nat),
    )
}

/// Alternative policy entries: one of them must admit the route.
pub open spec fn entries_verdict(q: QueryIr, c: Compare, es: Seq<Entry>, self_num: u64, seen: nat, accept: Option<u64>) -> Verdict
    decreases es.len(),
{
    if es.len() == 0 {
        empty_bad()
    } else {
        disjoin(
            entries_verdict(q, c, es.drop_last(), self_num, seen, accept),
            entry_verdict(q, c, es.last(), self_num, seen, accept),
        )
    }
}

/// The entries for the cast of the route, then those for any cast.
pub open spec fn casts_verdict(q: QueryIr, c: Compare, cs: Casts, self_num: u64, seen: nat, accept: Option<u64>) -> Verdict {
    let specific = if multicast_spec(c.prefix) { cs.multicast@ } else { cs.unicast@ };
    disjoin(
        entries_verdict(q, c, specific, self_num, seen, accept),
        entries_verdict(q, c, cs.any@, self_num, seen, accept),
    )
}

/// The entries for any address family, and those for the family of the route.
pub open spec fn versions_verdict(q: QueryIr, c: Compare, v: Versions, self_num: u64, seen: nat, accept: Option<u64>) -> Verdict {
    disjoin(
        casts_verdict(q, c, v.any, self_num, seen, accept),
        casts_verdict(q, c, if c.prefix.v6 { v.ipv6 } else { v.ipv4 }, self_num, seen, accept),
    )
}

/// An import or export policy, absent where it holds no entry.
pub open spec fn policy_verdict(
    q: QueryIr,
    c: Compare,
    v: Versions,
    empty: ReportItem,
    self_num: u64,
    seen: nat,
    accept: Option<u64>,
) -> Verdict {
    if v.is_empty_spec() {
        verdict_of(Grade::Skip, empty)
    } else {
        versions_verdict(q, c, v, self_num, seen, accept)
    }
}

/// The verdict on AS `from` exporting the route, to `to` where there is one,
/// with the first `seen` entries of the path announced.
pub open spec fn export_verdict(q: QueryIr, c: Compare, from: u64, to: Option<u64>, seen: nat) -> Verdict {
    match key_index(q.aut_nums@, from) {
        None => verdict_of(Grade::Unrec, ReportItem::UnrecordedAutNum(from)),
        Some(i) => policy_verdict(q, c, q.aut_nums@[i].1.exports, ReportItem::SkipExportEmpty, from, seen, to),
    }
}

/// The verdict on AS `to` importing the route from `from`, with the first
/// `seen` entries of the path announced.
pub open spec fn import_verdict(q: QueryIr, c: Compare, from: u64, to: u64, seen: nat) -> Verdict {
    match key_index(q.aut_nums@, to) {
        None => verdict_of(Grade::Unrec, ReportItem::UnrecordedAutNum(to)),
        Some(i) => policy_verdict(q, c, q.aut_nums@[i].1.imports, ReportItem::SkipImportEmpty, to, seen, Some(from)),
    }
}

/// Whether a report of grade `g` is kept under verbosity `v`.
pub open spec fn kept(g: Grade, v: Verbosity) -> bool {
    match g {
        Grade::Good => v.show_success,
        Grade::Skip => v.show_skips,
        Grade::Unrec => v.show_unrec,
        Grade::Meh => v.show_meh,
        Grade::Bad => true,
    }
}

/// The content of a report on one direction of one hop.
pub struct HopView {
    pub grade: Grade,
    pub import: bool,
    pub from: u64,
    pub to: Option<u64>,
    pub items: Seq<ReportItem>,
}

/// The content of a report.
pub enum ReportView {
    Hop(HopView),
    PairWithSet(EntryView, EntryView),
    SetSingle(Seq<u64>),
}

pub open spec fn hop(g: Grade, import: bool, from: u64, to: Option<u64>, items: Seq<ReportItem>) -> ReportView {
    ReportView::Hop(HopView { grade: g, import, from, to, items })
}

pub open spec fn report_view(r: Report) -> ReportView {
    match r {
        Report::OkImport { from, to } => hop(Grade::Good, true, from, Some(to), Seq::empty()),
        Report::OkExport { from, to } => hop(Grade::Good, false, from, Some(to), Seq::empty()),
        Report::OkSingleExport { from } => hop(Grade::Good, false, from, None, Seq::empty()),
        Report::SkipImport { from, to, items } => hop(Grade::Skip, true, from, Some(to), items@),
        Report::SkipExport { from, to, items } => hop(Grade::Skip, false, from, Some(to), items@),
        Report::SkipSingleExport { from, items } => hop(Grade::Skip, false, from, None, items@),
        Report::UnrecImport { from, to, items } => hop(Grade::Unrec, true, from, Some(to), items@),
        Report::UnrecExport { from, to, items } => hop(Grade::Unrec, false, from, Some(to), items@),
        Report::UnrecSingleExport { from, items } => hop(Grade::Unrec, false, from, None, items@),
        Report::MehImport { from, to, items } => hop(Grade::Meh, true, from, Some(to), items@),
        Report::MehExport { from, to, items } => hop(Grade::Meh, false, from, Some(to), items@),
        Report::MehSingleExport { from, items } => hop(Grade::Meh, false, from, None, items@),
        Report::BadImport { from, to, items } => hop(Grade::Bad, true, from, Some(to), items@),
        Report::BadExport { from, to, items } => hop(Grade::Bad, false, from, Some(to), items@),
        Report::BadSingleExport { from, items } => hop(Grade::Bad, false, from, None, items@),
        Report::AsPathPairWithSet { from, to } => ReportView::PairWithSet(entry_view(from), entry_view(to)),
        Report::SetSingleExport { from } => ReportView::SetSingle(from@),
    }
}

pub open spec fn report_views(rs: Seq<Report>) -> Seq<ReportView> {
    rs.map_values(|r: Report| report_view(r))
}

pub open spec fn opt_views(r: Option<Report>) -> Seq<ReportView> {
    match r {
        Some(rep) => seq![report_view(rep)],
        None => Seq::empty(),
    }
}

/// The report, if kept, on a direction of a hop whose verdict is `v`.
pub open spec fn hop_views(v: Verdict, verbosity: Verbosity, import: bool, from: u64, to: Option<u64>) -> Seq<ReportView> {
    if kept(v.grade, verbosity) {
        seq![hop(v.grade, import, from, to, v.items)]
    } else {
        Seq::empty()
    }
}

/// A report of success.
pub open spec fn is_ok_view(v: ReportView) -> bool {
    v matches ReportView::Hop(h) && h.grade == Grade::Good
}

/// The walk stops after reports `vs`: it stops at the first report that is not a success.
pub open spec fn stops_after(vs: Seq<ReportView>, verbosity: Verbosity) -> bool {
    verbosity.stop_at_first && exists|k: int| 0 <= k < vs.len() && !is_ok_view(#[trigger] vs[k])
}

/// The reports on the hop from `from` to `to`, where `from` announces the
/// first `seen` entries of the path: the export, then the import, or only the
/// export where the walk stops after it.
pub open spec fn pair_views(q: QueryIr, c: Compare, from: u64, to: u64, seen: nat) -> Seq<ReportView> {
    let e = hop_views(export_verdict(q, c, from, Some(to), seen), c.verbosity, false, from, Some(to));
    if stops_after(e, c.verbosity) {
        e
    } else {
        e + hop_views(import_verdict(q, c, from, to, seen), c.verbosity, true, from, Some(to))
    }
}

/// The reports on the hops whose sender stands before position `i` of the
/// path, from the last such hop back to the first.
pub open spec fn walk_views(q: QueryIr, c: Compare, i: nat) -> Seq<ReportView>
    decreases i,
{
    if i == 0 || i >= c.as_path@.len() {
        Seq::empty()
    } else {
        let k = (i - 1) as nat;
        let (from, to) = (c.as_path@[k as int], c.as_path@[i as int]);
        match (from, to) {
            (AsPathEntry::Single(a), AsPathEntry::Single(b)) => {
                let pv = pair_views(q, c, a, b, i);
                if stops_after(pv, c.verbosity) {
                    pv
                } else {
                    pv + walk_views(q, c, k)
                }
            },
            _ => (if c.verbosity.record_set {
                seq![ReportView::PairWithSet(entry_view(from), entry_view(to))]
            } else {
                Seq::empty()
            }) + walk_views(q, c, k),
        }
    }
}

/// The reports on a path of one entry: the export of its AS.
pub open spec fn single_views(q: QueryIr, c: Compare) -> Seq<ReportView> {
    match c.as_path@.last() {
        AsPathEntry::Single(n) => hop_views(
            export_verdict(q, c, n, None, c.as_path@.len()),
            c.verbosity,
            false,
            n,
            None,
        ),
        AsPathEntry::Group(v) => if c.verbosity.record_set {
            seq![ReportView::SetSingle(v@)]
        } else {
            Seq::empty()
        },
    }
}

/// The reports on the whole route.
pub open spec fn check_views(q: QueryIr, c: Compare) -> Seq<ReportView> {
    if c.as_path@.len() == 0 {
        Seq::empty()
    } else if c.as_path@.len() == 1 {
        single_views(q, c)
    } else {
        walk_views(q, c, (c.as_path@.len() - 1) as nat)
    }
}

proof fn lemma_walk_len(q: QueryIr, c: Compare, i: nat)
    ensures
        walk_views(q, c, i).len() <= 2 * i,
    decreases i,
{
    if i > 0 && i < c.as_path@.len() {
        lemma_walk_len(q, c, (i - 1) as nat);
    }
}

/// A route yields at most two reports per hop, and one for a path of a single AS:
/// at most `2 * (len - 1) + 1` reports for a path of `len` entries.
pub proof fn lemma_report_count(q: QueryIr, c: Compare)
    requires
        c.as_path@.len() >= 1,
    ensures
        check_views(q, c).len() <= 2 * (c.as_path@.len() - 1) + 1,
{
    if c.as_path@.len() > 1 {
        lemma_walk_len(q, c, (c.as_path@.len() - 1) as nat);
    }
}

proof fn lemma_views_add(a: Seq<Report>, b: Seq<Report>)
    ensures
        report_views(a + b) == report_views(a) + report_views(b),
{
    assert(report_views(a + b) =~= report_views(a) + report_views(b));
}

/// `outcome` with the spare capacity of its reasons released.
fn shrunk(outcome: AnyReport) -> (r: AnyReport)
    ensures
        any_verdict(r) == any_verdict(outcome),
{
    match outcome {
        None => None,
        Some(mut case) => {
            case.shrink_to_fit();
            Some(case)
        },
    }
}

/// The report on a direction of a hop whose outcome is `outcome`, if kept.
fn hop_report(outcome: AnyReport, verbosity: Verbosity, import: bool, from: u64, to: Option<u64>) -> (r: Option<Report>)
    requires
        import ==> to is Some,
    ensures
        opt_views(r) == hop_views(any_verdict(outcome), verbosity, import, from, to),
{
    let r = match outcome {
        None => if !verbosity.show_success {
            None
        } else {
            match to {
                Some(to) => if import {
                    Some(Report::OkImport { from, to })
                } else {
                    Some(Report::OkExport { from, to })
                },
                None => Some(Report::OkSingleExport { from }),
            }
        },
        Some(AnyReportCase::SkipAnyReport(items)) => if !verbosity.show_skips {
            None
        } else {
            match to {
                Some(to) => if import {
                    Some(Report::SkipImport { from, to, items })
                } else {
                    Some(Report::SkipExport { from, to, items })
                },
                None => Some(Report::SkipSingleExport { from, items }),
            }
        },
        Some(AnyReportCase::UnrecAnyReport(items)) => if !verbosity.show_unrec {
            None
        } else {
            match to {
                Some(to) => if import {
                    Some(Report::UnrecImport { from, to, items })
                } else {
                    Some(Report::UnrecExport { from, to, items })
                },
                None => Some(Report::UnrecSingleExport { from, items }),
            }
        },
        Some(AnyReportCase::MehAnyReport(items)) => if !verbosity.show_meh {
            None
        } else {
            match to {
                Some(to) => if import {
                    Some(Report::MehImport { from, to, items })
                } else {
                    Some(Report::MehExport { from, to, items })
                },
                None => Some(Report::MehSingleExport { from, items }),
            }
        },
        Some(AnyReportCase::BadAnyReport(items)) => match to {
            Some(to) => if import {
                Some(Report::BadImport { from, to, items })
            } else {
                Some(Report::BadExport { from, to, items })
            },
            None => Some(Report::BadSingleExport { from, items }),
        },
    };
    proof {
        if r is Some {
            assert(opt_views(r) =~= hop_views(any_verdict(outcome), verbosity, import, from, to));
        }
    }
    r
}

impl Compare {
    /// A route of `prefix` along `as_path`, with runs of equal consecutive
    /// entries kept once, the default recursion limit and the least verbosity.
    pub fn new(prefix: IpPrefix, as_path: Vec<AsPathEntry>) -> (r: Self)
        ensures
            r.prefix == prefix,
            path_views(r.as_path@) == dedup_views(as_path@),
            r.recursion_limit == RECURSION_LIMIT,
            r.verbosity == least_verbosity(),
    {
        let ghost orig = as_path@;
        let total = as_path.len();
        let mut rest = as_path;
        let mut path: Vec<AsPathEntry> = Vec::new();
        let mut done: usize = 0;
        assert(orig.subrange(0, 0) =~= Seq::<AsPathEntry>::empty());
        assert(path_views(path@) =~= Seq::<EntryView>::empty());
        while rest.len() > 0
            invariant
                done + rest@.len() == orig.len(),
                orig.len() == total,
                rest@ == orig.subrange(done as int, orig.len() as int),
                path_views(path@) == dedup_views(orig.subrange(0, done as int)),
            decreases rest@.len(),
        {
            let e = rest.remove(0);
            let ghost prev = orig.subrange(0, done as int);
            let ghost next = orig.subrange(0, done + 1);
            proof {
                assert(next.drop_last() =~= prev);
                assert(next.last() == e);
            }
            let ghost before = path@;
            let dup = path.len() > 0 && same_entry(&path[path.len() - 1], &e);
            proof {
                if before.len() > 0 {
                    assert(path_views(before).last() == entry_view(before.last()));
                }
            }
            if !dup {
                path.push(e);
                proof {
                    assert(path_views(path@) =~= path_views(before).push(entry_view(e)));
                }
            }
            done = done + 1;
            proof {
                assert(rest@ =~= orig.subrange(done as int, orig.len() as int));
            }
        }
        assert(orig.subrange(0, orig.len() as int) =~= orig);
        Compare { prefix, as_path: path, recursion_limit: RECURSION_LIMIT, verbosity: Verbosity::least() }
    }

    /// The same route, reported on with verbosity `verbosity`.
    pub fn verbosity(self, verbosity: Verbosity) -> (r: Self)
        ensures
            r.prefix == self.prefix,
            r.as_path == self.as_path,
            r.recursion_limit == self.recursion_limit,
            r.verbosity == verbosity,
    {
        Compare { verbosity, ..self }
    }
    /// Check the peerings of an entry: one of them must admit `accept`.
    fn check_peering_actions(&self, q: &QueryIr, ps: &Vec<PeeringAction>, accept: u64) -> (r: AnyReport)
        ensures
            any_verdict(r) == peering_actions_verdict(*q, ps@, accept, self.recursion_limit as nat),
    {
        let mut acc: AnyReport = Some(AnyReportCase::const_default());
        let mut i: usize = 0;
        assert(ps@.subrange(0, 0) =~= Seq::<PeeringAction>::empty());
        while i < ps.len()
            invariant
                i <= ps@.len(),
                any_verdict(acc) == peering_actions_verdict(*q, ps@.subrange(0, i as int), accept, self.recursion_limit as nat),
            decreases ps@.len() - i,
        {
            let r = check_as_expr(q, &ps[i].mp_peering.remote_as, accept, self.recursion_limit);
            acc = join_any(acc, r);
            proof {
                let s = ps@.subrange(0, i + 1);
                assert(s.drop_last() =~= ps@.subrange(0, i as int));
                assert(s.last() == ps@[i as int]);
            }
            i = i + 1;
        }
        assert(ps@.subrange(0, ps@.len() as int) =~= ps@);
        acc
    }

    /// Check one policy entry of AS `self_num`.
    fn check_entry(&self, q: &QueryIr, e: &Entry, self_num: u64, seen: usize, accept: Option<u64>) -> (r: AnyReport)
        ensures
            any_verdict(r) == entry_verdict(*q, *self, *e, self_num, seen as nat, accept),
    {
        let peering = match accept {
            None => None,
            Some(a) => self.check_peering_actions(q, &e.mp_peerings, a),
        };
        let filter = check_filter(q, self, self_num, seen, &e.mp_filter, self.recursion_limit);
        both(peering, filter)
    }

    /// Check alternative policy entries of AS `self_num`.
    fn check_entries(&self, q: &QueryIr, es: &Vec<Entry>, self_num: u64, seen: usize, accept: Option<u64>) -> (r: AnyReport)
        ensures
            any_verdict(r) == entries_verdict(*q, *self, es@, self_num, seen as nat, accept),
    {
        let mut acc: AnyReport = Some(AnyReportCase::const_default());
        let mut i: usize = 0;
        assert(es@.subrange(0, 0) =~= Seq::<Entry>::empty());
        while i < es.len()
            invariant
                i <= es@.len(),
                any_verdict(acc) == entries_verdict(*q, *self, es@.subrange(0, i as int), self_num, seen as nat, accept),
            decreases es@.len() - i,
        {
            let r = self.check_entry(q, &es[i], self_num, seen, accept);
            acc = join_any(acc, r);
            proof {
                let s = es@.subrange(0, i + 1);
                assert(s.drop_last() =~= es@.subrange(0, i as int));
                assert(s.last() == es@[i as int]);
            }
            i = i + 1;
        }
        assert(es@.subrange(0, es@.len() as int) =~= es@);
        acc
    }

    fn check_casts(&self, q: &QueryIr, cs: &Casts, self_num: u64, seen: usize, accept: Option<u64>) -> (r: AnyReport)
        ensures
            any_verdict(r) == casts_verdict(*q, *self, *cs, self_num, seen as nat, accept),
    {
        let specific = if is_multicast(&self.prefix) { &cs.multicast } else { &cs.unicast };
        join_any(
            self.check_entries(q, specific, self_num, seen, accept),
            self.check_entries(q, &cs.any, self_num, seen, accept),
        )
    }

    /// Check the policy `v` of AS `self_num` against the route, with `accept`
    /// the counterpart AS where there is one, and the first `seen` entries of
    /// the path announced.
    pub fn check_versions(&self, q: &QueryIr, v: &Versions, self_num: u64, seen: usize, accept: Option<u64>) -> (r: AnyReport)
        ensures
            any_verdict(r) == versions_verdict(*q, *self, *v, self_num, seen as nat, accept),
    {
        let family = if self.prefix.v6 { &v.ipv6 } else { &v.ipv4 };
        join_any(
            self.check_casts(q, &v.any, self_num, seen, accept),
            self.check_casts(q, family, self_num, seen, accept),
        )
    }

    /// The report on AS `from` exporting the route under its policy `from_an`,
    /// to `to` where there is one.
    pub fn check_export(&self, q: &QueryIr, from_an: &AutNum, from: u64, to: Option<u64>, seen: usize) -> (r: Option<Report>)
        ensures
            opt_views(r) == hop_views(
                policy_verdict(*q, *self, from_an.exports, ReportItem::SkipExportEmpty, from, seen as nat, to),
                self.verbosity,
                false,
                from,
                to,
            ),
    {
        let outcome = if from_an.exports.is_default() {
            skip_any_report(ReportItem::SkipExportEmpty)
        } else {
            self.check_versions(q, &from_an.exports, from, seen, to)
        };
        hop_report(shrunk(outcome), self.verbosity, false, from, to)
    }

    /// The report on AS `to` importing the route from `from` under its policy `to_an`.
    pub fn check_import(&self, q: &QueryIr, to_an: &AutNum, from: u64, to: u64, seen: usize) -> (r: Option<Report>)
        ensures
            opt_views(r) == hop_views(
                policy_verdict(*q, *self, to_an.imports, ReportItem::SkipImportEmpty, to, seen as nat, Some(from)),
                self.verbosity,
                true,
                from,
                Some(to),
            ),
    {
        let outcome = if to_an.imports.is_default() {
            skip_any_report(ReportItem::SkipImportEmpty)
        } else {
            self.check_versions(q, &to_an.imports, to, seen, Some(from))
        };
        hop_report(shrunk(outcome), self.verbosity, true, from, Some(to))
    }

    fn export_report(&self, q: &QueryIr, from: u64, to: Option<u64>, seen: usize) -> (r: Option<Report>)
        ensures
            opt_views(r) == hop_views(export_verdict(*q, *self, from, to, seen as nat), self.verbosity, false, from, to),
    {
        match q.aut_num(from) {
            Some(from_an) => self.check_export(q, from_an, from, to, seen),
            None => hop_report(
                unrec_any_report(ReportItem::UnrecordedAutNum(from)),
                self.verbosity,
                false,
                from,
                to,
            ),
        }
    }

    fn import_report(&self, q: &QueryIr, from: u64, to: u64, seen: usize) -> (r: Option<Report>)
        ensures
            opt_views(r) == hop_views(import_verdict(*q, *self, from, to, seen as nat), self.verbosity, true, from, Some(to)),
    {
        match q.aut_num(to) {
            Some(to_an) => self.check_import(q, to_an, from, to, seen),
            None => hop_report(
                unrec_any_report(ReportItem::UnrecordedAutNum(to)),
                self.verbosity,
                true,
                from,
                Some(to),
            ),
        }
    }

    /// The reports on the hop from AS `from` to AS `to`, where `from` announces
    /// the first `seen` entries of the path: the export, then the import; only
    /// the export where the walk stops after it.
    pub fn check_pair(&self, q: &QueryIr, from: u64, to: u64, seen: usize) -> (r: Vec<Report>)
        ensures
            report_views(r@) == pair_views(*q, *self, from, to, seen as nat),
    {
        let mut r: Vec<Report> = Vec::new();
        let export = self.export_report(q, from, Some(to), seen);
        if let Some(e) = export {
            r.push(e);
        }
        proof {
            assert(report_views(r@) =~= opt_views(export));
        }
        let stop = self.stops_after(&r);
        if stop {
            return r;
        }
        let ghost first = r@;
        let import = self.import_report(q, from, to, seen);
        if let Some(i) = import {
            r.push(i);
        }
        proof {
            assert(report_views(r@) =~= report_views(first) + opt_views(import));
        }
        r
    }

    /// Whether the walk stops after reports `rs`.
    fn stops_after(&self, rs: &Vec<Report>) -> (r: bool)
        ensures
            r == stops_after(report_views(rs@), self.verbosity),
    {
        if !self.verbosity.stop_at_first {
            return false;
        }
        let mut k: usize = 0;
        while k < rs.len()
            invariant
                k <= rs@.len(),
                self.verbosity.stop_at_first,
                forall|t: int| 0 <= t < k ==> is_ok_view(#[trigger] report_views(rs@)[t]),
            decreases rs@.len() - k,
        {
            let ok = match &rs[k] {
                Report::OkImport { .. } | Report::OkExport { .. } | Report::OkSingleExport { .. } => true,
                _ => false,
            };
            if !ok {
                assert(!is_ok_view(report_views(rs@)[k as int]));
                return true;
            }
            k = k + 1;
        }
        false
    }

    /// The report on the export of the last AS of the path, for a path of one entry.
    pub fn check_last_export(&self, q: &QueryIr) -> (r: Option<Report>)
        ensures
            self.as_path@.len() == 0 ==> r is None,
            self.as_path@.len() > 0 ==> opt_views(r) == single_views(*q, *self),
    {
        if self.as_path.len() == 0 {
            return None;
        }
        assert(self.as_path@[self.as_path@.len() - 1] == self.as_path@.last());
        match &self.as_path[self.as_path.len() - 1] {
            AsPathEntry::Single(from) => self.export_report(q, *from, None, self.as_path.len()),
            AsPathEntry::Group(from) => if self.verbosity.record_set {
                let copied = copy_asns(from);
                let r = Some(Report::SetSingleExport { from: copied });
                assert(opt_views(r) =~= single_views(*q, *self));
                r
            } else {
                None
            },
        }
    }

    /// The reports on the hops whose sender stands before position `i`, from
    /// the last of them back to the first.
    fn walk(&self, q: &QueryIr, i: usize) -> (r: Vec<Report>)
        ensures
            report_views(r@) == walk_views(*q, *self, i as nat),
        decreases i,
    {
        if i == 0 || i >= self.as_path.len() {
            assert(report_views(Seq::<Report>::empty()) =~= Seq::<ReportView>::empty());
            return Vec::new();
        }
        let k = i - 1;
        let (from, to) = (&self.as_path[k], &self.as_path[i]);
        match (from, to) {
            (AsPathEntry::Single(a), AsPathEntry::Single(b)) => {
                let mut pv = self.check_pair(q, *a, *b, i);
                if self.stops_after(&pv) {
                    return pv;
                }
                let mut rest = self.walk(q, k);
                let ghost (x, y) = (pv@, rest@);
                pv.append(&mut rest);
                proof {
                    lemma_views_add(x, y);
                }
                pv
            },
            _ => {
                let mut r: Vec<Report> = Vec::new();
                if self.verbosity.record_set {
                    r.push(Report::AsPathPairWithSet { from: copy_entry(from), to: copy_entry(to) });
                }
                let ghost x = r@;
                proof {
                    if self.verbosity.record_set {
                        assert(report_views(x) =~= seq![ReportView::PairWithSet(entry_view(*from), entry_view(*to))]);
                    } else {
                        assert(report_views(x) =~= Seq::<ReportView>::empty());
                    }
                }
                let mut rest = self.walk(q, k);
                let ghost y = rest@;
                r.append(&mut rest);
                proof {
                    lemma_views_add(x, y);
                }
                r
            },
        }
    }

    /// Check the route against the corpus `q`: the reports on each hop, from
    /// the last hop back to the first, kept as the verbosity says; at most two
    /// per hop, and one for a path of a single entry.
    pub fn check(&self, q: &QueryIr) -> (r: Vec<Report>)
        ensures
            report_views(r@) == check_views(*q, *self),
            self.as_path@.len() >= 1 ==> r@.len() <= 2 * (self.as_path@.len() - 1) + 1,
    {
        proof {
            if self.as_path@.len() >= 1 {
                lemma_report_count(*q, *self);
            }
        }
        if self.as_path.len() == 1 {
            let mut r: Vec<Report> = Vec::new();
            let last = self.check_last_export(q);
            if let Some(e) = last {
                r.push(e);
            }
            assert(report_views(r@) =~= opt_views(last));
            return r;
        }
        if self.as_path.len() == 0 {
            assert(report_views(Seq::<Report>::empty()) =~= Seq::<ReportView>::empty());
            return Vec::new();
        }
        self.walk(q, self.as_path.len() - 1)
    }

    /// Whether the route went through AS `num`, alone or in an AS set.
    pub fn goes_through_num(&self, num: u64) -> (r: bool)
        ensures
            r == exists|k: int| 0 <= k < self.as_path@.len() && entry_has(#[trigger] self.as_path@[k], num),
    {
        let mut k: usize = 0;
        while k < self.as_path.len()
            invariant
                k <= self.as_path@.len(),
                forall|t: int| 0 <= t < k ==> !entry_has(#[trigger] self.as_path@[t], num),
            decreases self.as_path@.len() - k,
        {
            if contains_num(&self.as_path[k], num) {
                return true;
            }
            k = k + 1;
        }
        false
    }
}

/// Entry `e` is AS `num` or an AS set that holds it.
pub open spec fn entry_has(e: AsPathEntry, num: u64) -> bool {
    match e {
        AsPathEntry::Single(n) => n == num,
        AsPathEntry::Group(v) => v@.contains(num),
    }
}

fn contains_num(e: &AsPathEntry, num: u64) -> (r: bool)
    ensures
        r == entry_has(*e, num),
{
    match e {
        AsPathEntry::Single(n) => *n == num,
        AsPathEntry::Group(v) => {
            let mut i: usize = 0;
            while i < v.len()
                invariant
                    i <= v@.len(),
                    entry_has(*e, num) == v@.contains(num),
                    forall|t: int| 0 <= t < i ==> v@[t] != num,
                decreases v@.len() - i,
            {
                if v[i] == num {
                    assert(v@.contains(num));
                    return true;
                }
                i = i + 1;
            }
            assert(!v@.contains(num));
            false
        },
    }
}

impl VerbosityReport for Compare {
    open spec fn verbosity_spec(&self) -> Verbosity {
        self.verbosity
    }

    fn get_verbosity(&self) -> (r: Verbosity) {
        self.verbosity
    }
}

} // verus!
