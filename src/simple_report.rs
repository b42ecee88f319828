use vstd::prelude::*;

verus! {

/// A reason in a two-grade report, with its text.
#[derive(Clone, Debug, PartialEq, Eq)]
pub enum ReportItem {
    Skip(String),
    NoMatch(String),
    BadRpsl(String),
}

pub type ReportItems = Vec<ReportItem>;

/// A two-grade report: neutral or bad. Success is reported by its absence.
#[derive(Clone, Debug, PartialEq, Eq)]
pub enum Report {
    Neutral(ReportItems),
    Bad(ReportItems),
}

impl Report {
    /// A neutral report that skips for `reason`.
    pub fn skip(reason: String) -> (r: Self)
        ensures
            r matches Report::Neutral(items) && items@ == seq![ReportItem::Skip(reason)],
    {
        Report::Neutral(one(ReportItem::Skip(reason)))
    }
}

fn one(item: ReportItem) -> (v: ReportItems)
    ensures
        v@ == seq![item],
{
    let mut v = Vec::new();
    v.push(item);
    assert(v@ =~= seq![item]);
    v
}

/// The reasons of `r`, none where it is `None`.
pub open spec fn items_of(r: Option<ReportItems>) -> Seq<ReportItem> {
    match r {
        Some(v) => v@,
        None => Seq::empty(),
    }
}

pub trait JoinReportItems: Sized {
    spec fn items_spec(self) -> Seq<ReportItem>;

    spec fn is_none_spec(self) -> bool;

    /// Append the reasons of `other` to those of `self`; nothing from nothing.
    fn join(self, other: Option<ReportItems>) -> (r: Self)
        ensures
            r.items_spec() == self.items_spec() + items_of(other),
            r.is_none_spec() <==> (self.is_none_spec() && other is None),
    ;
}

impl JoinReportItems for Option<ReportItems> {
    open spec fn items_spec(self) -> Seq<ReportItem> {
        items_of(self)
    }

    open spec fn is_none_spec(self) -> bool {
        self is None
    }

    fn join(self, other: Option<ReportItems>) -> (r: Self) {
        match self {
            Some(mut items) => match other {
                Some(mut extra) => {
                    items.append(&mut extra);
                    Some(items)
                },
                None => {
                    assert(items@ + Seq::<ReportItem>::empty() =~= items@);
                    Some(items)
                },
            },
            None => {
                assert(Seq::<ReportItem>::empty() + items_of(other) =~= items_of(other));
                other
            },
        }
    }
}

/// Outcome of policies that must all hold: `Ok(None)` is success,
/// `Ok(Some(skips))` a skip, `Err(errors)` a failure.
pub type AllReport = Result<Option<ReportItems>, ReportItems>;

/// A skip of a conjunction for `reason`.
pub fn skip_all_report(reason: String) -> (r: AllReport)
    ensures
        r matches Ok(Some(items)) && items@ == seq![ReportItem::Skip(reason)],
{
    Ok(Some(one(ReportItem::Skip(reason))))
}

/// A failure of a conjunction, for want of a match on `reason`.
pub fn no_match_all_report(reason: String) -> (r: AllReport)
    ensures
        r matches Err(items) && items@ == seq![ReportItem::NoMatch(reason)],
{
    Err(one(ReportItem::NoMatch(reason)))
}

/// Outcome of alternative policies: `None` is success, `Some((items, true))`
/// a failure, `Some((items, false))` a skip.
pub type AnyReport = Option<(ReportItems, bool)>;

/// A skip of a disjunction for `reason`.
pub fn skip_any_report(reason: String) -> (r: AnyReport)
    ensures
        r matches Some((items, false)) && items@ == seq![ReportItem::Skip(reason)],
{
    Some((one(ReportItem::Skip(reason)), false))
}

/// A failure of a disjunction, for want of a match on `reason`.
pub fn no_match_any_report(reason: String) -> (r: AnyReport)
    ensures
        r matches Some((items, true)) && items@ == seq![ReportItem::NoMatch(reason)],
{
    Some((one(ReportItem::NoMatch(reason)), true))
}

/// A failure of a disjunction on invalid policy text `reason`.
pub fn bad_rpsl_any_report(reason: String) -> (r: AnyReport)
    ensures
        r matches Some((items, true)) && items@ == seq![ReportItem::BadRpsl(reason)],
{
    Some((one(ReportItem::BadRpsl(reason)), true))
}

/// The outcome of a conjunction as that of a disjunction.
pub open spec fn all_as_any(r: AllReport) -> AnyReport {
    match r {
        Ok(Some(skips)) => Some((skips, false)),
        Ok(None) => None,
        Err(errors) => Some((errors, true)),
    }
}

/// The outcome of a disjunction as that of a conjunction.
pub open spec fn any_as_all(r: AnyReport) -> AllReport {
    match r {
        Some((errors, true)) => Err(errors),
        Some((skips, false)) => Ok(Some(skips)),
        None => Ok(None),
    }
}

pub trait ToAnyReport: Sized {
    spec fn to_any_spec(self) -> AnyReport;

    fn to_any(self) -> (r: AnyReport)
        ensures
            r == self.to_any_spec(),
    ;
}

impl ToAnyReport for AllReport {
    open spec fn to_any_spec(self) -> AnyReport {
        all_as_any(self)
    }

    fn to_any(self) -> (r: AnyReport) {
        match self {
            Ok(Some(skips)) => Some((skips, false)),
            Ok(None) => None,
            Err(errors) => Some((errors, true)),
        }
    }
}

pub trait ToAllReport: Sized {
    spec fn to_all_spec(self) -> AllReport;

    fn to_all(self) -> (r: AllReport)
        ensures
            r == self.to_all_spec(),
    ;
}

impl ToAllReport for AnyReport {
    open spec fn to_all_spec(self) -> AllReport {
        any_as_all(self)
    }

    fn to_all(self) -> (r: AllReport) {
        match self {
            Some((errors, true)) => Err(errors),
            Some((skips, false)) => Ok(Some(skips)),
            None => Ok(None),
        }
    }
}

impl ToAllReport for Option<ReportItems> {
    open spec fn to_all_spec(self) -> AllReport {
        Ok(self)
    }

    fn to_all(self) -> (r: AllReport) {
        Ok(self)
    }
}

/// Both conversions are inverse to each other.
pub proof fn lemma_simple_round_trips(a: AnyReport, b: AllReport)
    ensures
        all_as_any(any_as_all(a)) == a,
        any_as_all(all_as_any(b)) == b,
{
}

/// Gathers the reasons of alternatives that did not succeed.
pub struct AnyReportAggregater {
    pub report_items: ReportItems,
    pub all_fail: bool,
}

impl AnyReportAggregater {
    /// Nothing gathered yet.
    pub fn new() -> (r: Self)
        ensures
            r.report_items@ == Seq::<ReportItem>::empty(),
            r.all_fail,
    {
        AnyReportAggregater { report_items: Vec::new(), all_fail: true }
    }

    /// Gather the reasons of one more alternative and whether it failed: the
    /// whole fails only where every alternative gathered failed.
    pub fn join(&mut self, other: (ReportItems, bool))
        ensures
            final(self).report_items@ == old(self).report_items@ + other.0@,
            final(self).all_fail == (old(self).all_fail && other.1),
    {
        let (mut report_items, fail) = other;
        self.report_items.append(&mut report_items);
        self.all_fail = self.all_fail && fail;
    }
}

impl ToAnyReport for AnyReportAggregater {
    open spec fn to_any_spec(self) -> AnyReport {
        Some((self.report_items, self.all_fail))
    }

    fn to_any(self) -> (r: AnyReport) {
        Some((self.report_items, self.all_fail))
    }
}

impl Default for AnyReportAggregater {
    fn default() -> (r: Self)
        ensures
            r.report_items@ == Seq::<ReportItem>::empty(),
            r.all_fail,
    {
        Self::new()
    }
}

impl From<(ReportItems, bool)> for AnyReportAggregater {
    fn from(value: (ReportItems, bool)) -> (r: Self) {
        AnyReportAggregater { report_items: value.0, all_fail: value.1 }
    }
}

impl vstd::std_specs::convert::FromSpecImpl<(ReportItems, bool)> for AnyReportAggregater {
    open spec fn obeys_from_spec() -> bool {
        true
    }

    open spec fn from_spec(value: (ReportItems, bool)) -> Self {
        AnyReportAggregater { report_items: value.0, all_fail: value.1 }
    }
}

} // verus!
