use vstd::prelude::*;

verus! {

/// What a member of an AS path is: one AS, or an AS set written `{a,b,...}`.
#[derive(Clone, Debug, PartialEq, Eq)]
pub enum AsPathEntry {
    Single(u64),
    Group(Vec<u64>),
}

/// Which part of a policy failed to match.
#[derive(Clone, Copy, Debug, PartialEq, Eq, Structural)]
pub enum MatchProblem {
    Filter,
    Peering,
}

/// One reason recorded in a report.
#[derive(Clone, Debug, PartialEq, Eq)]
pub enum ReportItem {
    /// The exporting AS declares no export policy.
    SkipExportEmpty,
    /// The importing AS declares no import policy.
    SkipImportEmpty,
    /// Community attributes are not evaluated.
    SkipCommunityCheckUnimplemented,
    /// An AS-path regular expression met an AS set in the path.
    SkipAsRegexWithSet,
    /// The origin of the route is an AS set, not a single AS.
    SkipAsSetOrigin,
    /// The recursion budget ran out while checking a filter.
    RecCheckFilter,
    /// The recursion budget ran out while checking a peering.
    RecCheckPeering,
    UnrecordedAutNum(u64),
    UnrecordedAsSet(String),
    UnrecordedRouteSet(String),
    UnrecordedFilterSet(String),
    UnrecordedPeeringSet(String),
    /// The route went from a customer up to its provider.
    SpecUphill,
    /// The importing AS declares imports from its providers only, and the
    /// route came from a peer or a customer.
    SpecImportOnlyProviders,
    /// The exporting AS passed on a route from one of its customers that its
    /// export policy does not cover.
    SpecExportCustomers,
    NoMatch(MatchProblem),
    BadRpsl(String),
}

pub type ReportItems = Vec<ReportItem>;

/// The verdict on one direction of one AS pair of a route.
#[derive(Clone, Debug, PartialEq, Eq)]
pub enum Report {
    OkImport { from: u64, to: u64 },
    OkExport { from: u64, to: u64 },
    OkSingleExport { from: u64 },
    SkipImport { from: u64, to: u64, items: ReportItems },
    SkipExport { from: u64, to: u64, items: ReportItems },
    SkipSingleExport { from: u64, items: ReportItems },
    UnrecImport { from: u64, to: u64, items: ReportItems },
    UnrecExport { from: u64, to: u64, items: ReportItems },
    UnrecSingleExport { from: u64, items: ReportItems },
    MehImport { from: u64, to: u64, items: ReportItems },
    MehExport { from: u64, to: u64, items: ReportItems },
    MehSingleExport { from: u64, items: ReportItems },
    BadImport { from: u64, to: u64, items: ReportItems },
    BadExport { from: u64, to: u64, items: ReportItems },
    BadSingleExport { from: u64, items: ReportItems },
    AsPathPairWithSet { from: AsPathEntry, to: AsPathEntry },
    SetSingleExport { from: Vec<u64> },
}

/// The grades of the verdict lattice.
#[derive(Clone, Copy, Debug, PartialEq, Eq, Structural)]
pub enum Grade {
    Good,
    Skip,
    Unrec,
    Meh,
    Bad,
}

/// How bad a grade is, for conjunctions: the worse grade wins.
pub open spec fn severity(g: Grade) -> nat {
    match g {
        Grade::Good => 0,
        Grade::Meh => 1,
        Grade::Unrec => 2,
        Grade::Skip => 3,
        Grade::Bad => 4,
    }
}

/// How good a failing grade is, for disjunctions: the better grade wins.
pub open spec fn preference(g: Grade) -> nat {
    match g {
        Grade::Bad => 0,
        Grade::Meh => 1,
        Grade::Unrec => 2,
        Grade::Skip => 3,
        Grade::Good => 4,
    }
}

fn rank_preference(g: Grade) -> (r: u8)
    ensures
        r as nat == preference(g),
{
    match g {
        Grade::Bad => 0,
        Grade::Meh => 1,
        Grade::Unrec => 2,
        Grade::Skip => 3,
        Grade::Good => 4,
    }
}

fn rank_severity(g: Grade) -> (r: u8)
    ensures
        r as nat == severity(g),
{
    match g {
        Grade::Good => 0,
        Grade::Meh => 1,
        Grade::Unrec => 2,
        Grade::Skip => 3,
        Grade::Bad => 4,
    }
}

/// A grade with the reasons gathered for it.
pub struct Verdict {
    pub grade: Grade,
    pub items: Seq<ReportItem>,
}

pub open spec fn ok_verdict() -> Verdict {
    Verdict { grade: Grade::Good, items: Seq::empty() }
}

/// A verdict that a report can have: success carries no reasons.
pub open spec fn verdict_wf(v: Verdict) -> bool {
    v.grade == Grade::Good ==> v.items.len() == 0
}

/// Combination of two verdicts of which both must hold: the worse grade, all reasons.
pub open spec fn conjoin(a: Verdict, b: Verdict) -> Verdict {
    Verdict {
        grade: if severity(a.grade) >= severity(b.grade) { a.grade } else { b.grade },
        items: a.items + b.items,
    }
}

/// Combination of two verdicts of which one must hold: success if either succeeds,
/// else the better grade with all reasons.
pub open spec fn disjoin(a: Verdict, b: Verdict) -> Verdict {
    if a.grade == Grade::Good || b.grade == Grade::Good {
        ok_verdict()
    } else {
        Verdict {
            grade: if preference(a.grade) >= preference(b.grade) { a.grade } else { b.grade },
            items: a.items + b.items,
        }
    }
}

/// A failed outcome of a disjunction.
pub enum AnyReportCase {
    SkipAnyReport(ReportItems),
    UnrecAnyReport(ReportItems),
    MehAnyReport(ReportItems),
    BadAnyReport(ReportItems),
}

/// Outcome of a disjunction of policies: `None` is success.
pub type AnyReport = Option<AnyReportCase>;

/// A non-failing outcome of a conjunction.
pub enum AllReportCase {
    OkAllReport,
    SkipAllReport(ReportItems),
    UnrecAllReport(ReportItems),
    MehAllReport(ReportItems),
}

/// Outcome of a conjunction of policies: `Err` carries the reasons of failure.
pub type AllReport = Result<AllReportCase, ReportItems>;

impl AnyReportCase {
    pub open spec fn grade(&self) -> Grade {
        match self {
            AnyReportCase::SkipAnyReport(_) => Grade::Skip,
            AnyReportCase::UnrecAnyReport(_) => Grade::Unrec,
            AnyReportCase::MehAnyReport(_) => Grade::Meh,
            AnyReportCase::BadAnyReport(_) => Grade::Bad,
        }
    }

    pub open spec fn items(&self) -> Seq<ReportItem> {
        match self {
            AnyReportCase::SkipAnyReport(i) => i@,
            AnyReportCase::UnrecAnyReport(i) => i@,
            AnyReportCase::MehAnyReport(i) => i@,
            AnyReportCase::BadAnyReport(i) => i@,
        }
    }

    /// The failure that nothing has contributed to yet: the unit of `join`.
    pub fn const_default() -> (r: Self)
        ensures
            r.grade() == Grade::Bad,
            r.items() == Seq::<ReportItem>::empty(),
    {
        AnyReportCase::BadAnyReport(Vec::new())
    }

    /// Merge two failed alternatives: the better grade, the reasons of both in order.
    pub fn join(self, other: Self) -> (r: Self)
        ensures
            any_verdict(Some(r)) == disjoin(any_verdict(Some(self)), any_verdict(Some(other))),
    {
        let (g1, mut items) = self.into_parts();
        let (g2, mut extra) = other.into_parts();
        items.append(&mut extra);
        if rank_preference(g1) >= rank_preference(g2) {
            AnyReportCase::from_parts(g1, items)
        } else {
            AnyReportCase::from_parts(g2, items)
        }
    }

    /// The grade and the reasons of this failure.
    pub fn into_parts(self) -> (r: (Grade, ReportItems))
        ensures
            r.0 == self.grade(),
            r.1@ == self.items(),
    {
        match self {
            AnyReportCase::SkipAnyReport(i) => (Grade::Skip, i),
            AnyReportCase::UnrecAnyReport(i) => (Grade::Unrec, i),
            AnyReportCase::MehAnyReport(i) => (Grade::Meh, i),
            AnyReportCase::BadAnyReport(i) => (Grade::Bad, i),
        }
    }

    /// The failure of grade `g` with reasons `items`.
    pub fn from_parts(g: Grade, items: ReportItems) -> (r: Self)
        requires
            g != Grade::Good,
        ensures
            r.grade() == g,
            r.items() == items@,
    {
        match g {
            Grade::Skip => AnyReportCase::SkipAnyReport(items),
            Grade::Unrec => AnyReportCase::UnrecAnyReport(items),
            Grade::Meh => AnyReportCase::MehAnyReport(items),
            _ => AnyReportCase::BadAnyReport(items),
        }
    }

    pub fn shrink_to_fit(&mut self)
        ensures
            final(self).grade() == old(self).grade(),
            final(self).items() == old(self).items(),
    {
        match self {
            AnyReportCase::SkipAnyReport(items) => shrink_items(items),
            AnyReportCase::UnrecAnyReport(items) => shrink_items(items),
            AnyReportCase::MehAnyReport(items) => shrink_items(items),
            AnyReportCase::BadAnyReport(items) => shrink_items(items),
        }
    }
}

/// Relies on `Vec::shrink_to_fit`: it releases spare capacity and keeps the contents.
#[verifier::external_body]
fn shrink_items(items: &mut ReportItems)
    ensures
        final(items)@ == old(items)@,
{
    items.shrink_to_fit()
}

impl Default for AnyReportCase {
    fn default() -> (r: Self)
        ensures
            r.grade() == Grade::Bad,
            r.items() == Seq::<ReportItem>::empty(),
    {
        AnyReportCase::const_default()
    }
}

impl AllReportCase {
    pub open spec fn grade(&self) -> Grade {
        match self {
            AllReportCase::OkAllReport => Grade::Good,
            AllReportCase::SkipAllReport(_) => Grade::Skip,
            AllReportCase::UnrecAllReport(_) => Grade::Unrec,
            AllReportCase::MehAllReport(_) => Grade::Meh,
        }
    }

    pub open spec fn items(&self) -> Seq<ReportItem> {
        match self {
            AllReportCase::OkAllReport => Seq::empty(),
            AllReportCase::SkipAllReport(i) => i@,
            AllReportCase::UnrecAllReport(i) => i@,
            AllReportCase::MehAllReport(i) => i@,
        }
    }
}

pub open spec fn all_verdict(r: AllReport) -> Verdict {
    match r {
        Ok(c) => Verdict { grade: c.grade(), items: c.items() },
        Err(items) => Verdict { grade: Grade::Bad, items: items@ },
    }
}

/// The grade and the reasons of a conjunction's outcome.
fn all_into_parts(r: AllReport) -> (p: (Grade, ReportItems))
    ensures
        p.0 == all_verdict(r).grade,
        p.1@ == all_verdict(r).items,
{
    match r {
        Ok(AllReportCase::OkAllReport) => (Grade::Good, Vec::new()),
        Ok(AllReportCase::SkipAllReport(i)) => (Grade::Skip, i),
        Ok(AllReportCase::UnrecAllReport(i)) => (Grade::Unrec, i),
        Ok(AllReportCase::MehAllReport(i)) => (Grade::Meh, i),
        Err(i) => (Grade::Bad, i),
    }
}

/// The outcome of a conjunction with grade `g` and reasons `items`.
fn all_from_parts(g: Grade, items: ReportItems) -> (r: AllReport)
    requires
        g == Grade::Good ==> items@.len() == 0,
    ensures
        all_verdict(r) == (Verdict { grade: g, items: items@ }),
{
    match g {
        Grade::Good => {
            assert(items@ =~= Seq::<ReportItem>::empty());
            Ok(AllReportCase::OkAllReport)
        },
        Grade::Skip => Ok(AllReportCase::SkipAllReport(items)),
        Grade::Unrec => Ok(AllReportCase::UnrecAllReport(items)),
        Grade::Meh => Ok(AllReportCase::MehAllReport(items)),
        Grade::Bad => Err(items),
    }
}

/// Combine the outcomes of two policies that must both hold.
pub fn join_all(a: AllReport, b: AllReport) -> (r: AllReport)
    ensures
        all_verdict(r) == conjoin(all_verdict(a), all_verdict(b)),
{
    let (g1, mut items) = all_into_parts(a);
    let (g2, mut extra) = all_into_parts(b);
    items.append(&mut extra);
    if rank_severity(g1) >= rank_severity(g2) {
        all_from_parts(g1, items)
    } else {
        all_from_parts(g2, items)
    }
}

/// Combine the outcomes of two alternative policies, of which one is enough.
pub fn join_any(a: AnyReport, b: AnyReport) -> (r: AnyReport)
    ensures
        any_verdict(r) == disjoin(any_verdict(a), any_verdict(b)),
{
    match (a, b) {
        (Some(x), Some(y)) => Some(x.join(y)),
        _ => None,
    }
}

/// Conversion of the outcome of a disjunction to that of a conjunction.
pub open spec fn any_to_all(a: AnyReport) -> AllReport {
    match a {
        None => Ok(AllReportCase::OkAllReport),
        Some(AnyReportCase::SkipAnyReport(i)) => Ok(AllReportCase::SkipAllReport(i)),
        Some(AnyReportCase::UnrecAnyReport(i)) => Ok(AllReportCase::UnrecAllReport(i)),
        Some(AnyReportCase::MehAnyReport(i)) => Ok(AllReportCase::MehAllReport(i)),
        Some(AnyReportCase::BadAnyReport(i)) => Err(i),
    }
}

/// Conversion of the outcome of a conjunction to that of a disjunction.
pub open spec fn all_to_any(a: AllReport) -> AnyReport {
    match a {
        Ok(AllReportCase::OkAllReport) => None,
        Ok(AllReportCase::SkipAllReport(i)) => Some(AnyReportCase::SkipAnyReport(i)),
        Ok(AllReportCase::UnrecAllReport(i)) => Some(AnyReportCase::UnrecAnyReport(i)),
        Ok(AllReportCase::MehAllReport(i)) => Some(AnyReportCase::MehAnyReport(i)),
        Err(i) => Some(AnyReportCase::BadAnyReport(i)),
    }
}

pub trait ToAllReport: Sized {
    spec fn to_all_spec(self) -> AllReport;

    fn to_all(self) -> (r: AllReport)
        ensures
            r == self.to_all_spec(),
    ;
}

impl ToAllReport for AnyReport {
    open spec fn to_all_spec(self) -> AllReport {
        any_to_all(self)
    }

    fn to_all(self) -> (r: AllReport) {
        match self {
            None => Ok(AllReportCase::OkAllReport),
            Some(AnyReportCase::SkipAnyReport(i)) => Ok(AllReportCase::SkipAllReport(i)),
            Some(AnyReportCase::UnrecAnyReport(i)) => Ok(AllReportCase::UnrecAllReport(i)),
            Some(AnyReportCase::MehAnyReport(i)) => Ok(AllReportCase::MehAllReport(i)),
            Some(AnyReportCase::BadAnyReport(i)) => Err(i),
        }
    }
}

pub trait ToAnyReport: Sized {
    spec fn to_any_spec(self) -> AnyReport;

    fn to_any(self) -> (r: AnyReport)
        ensures
            r == self.to_any_spec(),
    ;
}

impl ToAnyReport for AllReport {
    open spec fn to_any_spec(self) -> AnyReport {
        all_to_any(self)
    }

    fn to_any(self) -> (r: AnyReport) {
        match self {
            Ok(AllReportCase::OkAllReport) => None,
            Ok(AllReportCase::SkipAllReport(i)) => Some(AnyReportCase::SkipAnyReport(i)),
            Ok(AllReportCase::UnrecAllReport(i)) => Some(AnyReportCase::UnrecAnyReport(i)),
            Ok(AllReportCase::MehAllReport(i)) => Some(AnyReportCase::MehAnyReport(i)),
            Err(i) => Some(AnyReportCase::BadAnyReport(i)),
        }
    }
}

fn one_item(reason: ReportItem) -> (v: ReportItems)
    ensures
        v@ == seq![reason],
{
    let mut v = Vec::new();
    v.push(reason);
    assert(v@ =~= seq![reason]);
    v
}

/// A skip with one reason.
pub fn skip_any_report(reason: ReportItem) -> (r: AnyReport)
    ensures
        any_verdict(r) == (Verdict { grade: Grade::Skip, items: seq![reason] }),
{
    Some(AnyReportCase::SkipAnyReport(one_item(reason)))
}

/// A skip with the given reasons.
pub fn skip_any_reports(reasons: ReportItems) -> (r: AnyReport)
    ensures
        any_verdict(r) == (Verdict { grade: Grade::Skip, items: reasons@ }),
{
    Some(AnyReportCase::SkipAnyReport(reasons))
}

/// A skip without reasons.
pub fn empty_skip_any_report() -> (r: AnyReport)
    ensures
        any_verdict(r) == (Verdict { grade: Grade::Skip, items: Seq::empty() }),
{
    Some(AnyReportCase::SkipAnyReport(Vec::new()))
}

/// An unrecorded object, with one reason.
pub fn unrec_any_report(reason: ReportItem) -> (r: AnyReport)
    ensures
        any_verdict(r) == (Verdict { grade: Grade::Unrec, items: seq![reason] }),
{
    Some(AnyReportCase::UnrecAnyReport(one_item(reason)))
}

/// An unrecorded object, without reasons.
pub fn empty_unrec_any_report() -> (r: AnyReport)
    ensures
        any_verdict(r) == (Verdict { grade: Grade::Unrec, items: Seq::empty() }),
{
    Some(AnyReportCase::UnrecAnyReport(Vec::new()))
}

/// A special case with one reason.
pub fn special_any_report(reason: ReportItem) -> (r: AnyReport)
    ensures
        any_verdict(r) == (Verdict { grade: Grade::Meh, items: seq![reason] }),
{
    Some(AnyReportCase::MehAnyReport(one_item(reason)))
}

/// A special case without reasons.
pub fn empty_meh_any_report() -> (r: AnyReport)
    ensures
        any_verdict(r) == (Verdict { grade: Grade::Meh, items: Seq::empty() }),
{
    Some(AnyReportCase::MehAnyReport(Vec::new()))
}

/// A failure with one reason.
pub fn bad_any_report(reason: ReportItem) -> (r: AnyReport)
    ensures
        any_verdict(r) == (Verdict { grade: Grade::Bad, items: seq![reason] }),
{
    Some(AnyReportCase::BadAnyReport(one_item(reason)))
}

/// A failure without reasons.
pub fn empty_bad_any_report() -> (r: AnyReport)
    ensures
        any_verdict(r) == (Verdict { grade: Grade::Bad, items: Seq::empty() }),
{
    Some(AnyReportCase::BadAnyReport(Vec::new()))
}

/// A skip of a conjunction, with one reason.
pub fn skip_all_report(reason: ReportItem) -> (r: AllReport)
    ensures
        all_verdict(r) == (Verdict { grade: Grade::Skip, items: seq![reason] }),
{
    Ok(AllReportCase::SkipAllReport(one_item(reason)))
}

/// A skip of a conjunction, without reasons.
pub fn empty_skip_all_report() -> (r: AllReport)
    ensures
        all_verdict(r) == (Verdict { grade: Grade::Skip, items: Seq::empty() }),
{
    Ok(AllReportCase::SkipAllReport(Vec::new()))
}

/// A failure of a conjunction, with one reason.
pub fn bad_all_report(reason: ReportItem) -> (r: AllReport)
    ensures
        all_verdict(r) == (Verdict { grade: Grade::Bad, items: seq![reason] }),
{
    Err(one_item(reason))
}

/// A failure of a conjunction, without reasons.
pub fn empty_bad_all_report() -> (r: AllReport)
    ensures
        all_verdict(r) == (Verdict { grade: Grade::Bad, items: Seq::empty() }),
{
    Err(Vec::new())
}

/// Success is the unit of conjunction: `Ok ⊕ x = x` and `x ⊕ Ok = x`.
/// For disjunction success absorbs every outcome, and the failure without
/// reasons is the unit.
pub proof fn lemma_identities(x: Verdict)
    requires
        verdict_wf(x),
    ensures
        conjoin(ok_verdict(), x) == x,
        conjoin(x, ok_verdict()) == x,
        disjoin(ok_verdict(), x) == ok_verdict(),
        disjoin(x, ok_verdict()) == ok_verdict(),
        disjoin(Verdict { grade: Grade::Bad, items: Seq::empty() }, x) == x,
        disjoin(x, Verdict { grade: Grade::Bad, items: Seq::empty() }) == x,
{
    assert(Seq::<ReportItem>::empty() + x.items =~= x.items);
    assert(x.items + Seq::<ReportItem>::empty() =~= x.items);
    if x.grade == Grade::Good {
        assert(x.items =~= Seq::<ReportItem>::empty());
    }
}

/// Every outcome of a disjunction survives the round trip through a conjunction,
/// and every outcome of a conjunction the round trip through a disjunction;
/// both conversions keep the grade and the reasons.
pub proof fn lemma_round_trips(a: AnyReport, b: AllReport)
    ensures
        all_to_any(any_to_all(a)) == a,
        any_to_all(all_to_any(b)) == b,
        all_verdict(any_to_all(a)) == any_verdict(a),
        any_verdict(all_to_any(b)) == all_verdict(b),
{
}

pub open spec fn any_verdict(r: AnyReport) -> Verdict {
    match r {
        None => ok_verdict(),
        Some(c) => Verdict { grade: c.grade(), items: c.items() },
    }
}

} // verus!
