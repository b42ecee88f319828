use vstd::prelude::*;

use crate::report::{
    any_verdict, all_verdict, bad_all_report, bad_any_report, empty_bad_all_report,
    empty_bad_any_report, empty_meh_any_report, empty_skip_all_report, empty_skip_any_report,
    empty_unrec_any_report, skip_all_report, skip_any_report, skip_any_reports, special_any_report,
    unrec_any_report, AllReport, AnyReport, Grade, Report, ReportItem, ReportItems, Verdict,
};

verus! {

/// Which grades of reports are kept, and which optional checks run.
#[derive(Clone, Copy, Debug, PartialEq, Eq, Structural)]
pub struct Verbosity {
    /// Stop checking the AS path at the first report.
    pub stop_at_first: bool,
    /// Report special cases.
    pub show_meh: bool,
    /// Report unrecorded objects.
    pub show_unrec: bool,
    /// Report skips.
    pub show_skips: bool,
    /// Report success.
    pub show_success: bool,
    /// Report error information for each policy entry.
    pub per_entry_err: bool,
    /// Keep the reasons of every failure.
    pub all_err: bool,
    /// Record AS pairs and single exports that involve an AS set.
    pub record_set: bool,
    /// Record community checks as special cases.
    pub record_community: bool,
    /// Mark routes from customer to provider as special.
    pub special_uphill: bool,
    /// Check for pseudo customer sets.
    pub check_customer: bool,
    /// Check for peers that only specify imports from providers.
    pub check_import_only_provider: bool,
}

/// The verbosity that keeps failures only and stops at the first one.
pub open spec fn least_verbosity() -> Verbosity {
    Verbosity {
        stop_at_first: true,
        show_meh: false,
        show_unrec: false,
        show_skips: false,
        show_success: false,
        per_entry_err: false,
        all_err: false,
        record_set: false,
        record_community: false,
        special_uphill: false,
        check_customer: false,
        check_import_only_provider: false,
    }
}

impl Verbosity {
    /// Report all errors, skips, special cases and successes, without the details.
    pub fn minimum_all() -> (r: Self)
        ensures
            r == (Verbosity {
                stop_at_first: false,
                show_meh: true,
                show_unrec: true,
                show_skips: true,
                show_success: true,
                per_entry_err: false,
                all_err: false,
                record_set: false,
                record_community: false,
                special_uphill: true,
                check_customer: true,
                check_import_only_provider: true,
            }),
    {
        Verbosity {
            stop_at_first: false,
            show_meh: true,
            show_unrec: true,
            show_skips: true,
            show_success: true,
            special_uphill: true,
            check_customer: true,
            check_import_only_provider: true,
            ..Self::least()
        }
    }

    /// Report failures only, and stop at the first one.
    pub fn least() -> (r: Self)
        ensures
            r == least_verbosity(),
    {
        Verbosity {
            stop_at_first: true,
            show_meh: false,
            show_unrec: false,
            show_skips: false,
            show_success: false,
            per_entry_err: false,
            all_err: false,
            record_set: false,
            record_community: false,
            special_uphill: false,
            check_customer: false,
            check_import_only_provider: false,
        }
    }

    /// A special import, with `reason` added when special cases are shown.
    pub fn meh_import(self, from: u64, to: u64, items: ReportItems, reason: ReportItem) -> (r:
        Report)
        ensures
            r matches Report::MehImport { from: f, to: t, items: i } && f == from && t == to
                && i@ == (if self.show_meh { items@.push(reason) } else { items@ }),
    {
        let mut items = items;
        if self.show_meh {
            items.push(reason);
        }
        Report::MehImport { from, to, items }
    }

    /// A special export, with `reason` added when special cases are shown.
    pub fn meh_export(self, from: u64, to: u64, items: ReportItems, reason: ReportItem) -> (r:
        Report)
        ensures
            r matches Report::MehExport { from: f, to: t, items: i } && f == from && t == to
                && i@ == (if self.show_meh { items@.push(reason) } else { items@ }),
    {
        let mut items = items;
        if self.show_meh {
            items.push(reason);
        }
        Report::MehExport { from, to, items }
    }

    /// A skip, with `reason` kept when skips are shown.
    pub fn skip_any_report(self, reason: ReportItem) -> (r: AnyReport)
        ensures
            any_verdict(r) == (Verdict {
                grade: Grade::Skip,
                items: if self.show_skips { seq![reason] } else { Seq::empty() },
            }),
    {
        if self.show_skips {
            skip_any_report(reason)
        } else {
            empty_skip_any_report()
        }
    }

    /// A skip, with `reasons` kept when skips are shown.
    pub fn skip_any_reports(self, reasons: ReportItems) -> (r: AnyReport)
        ensures
            any_verdict(r) == (Verdict {
                grade: Grade::Skip,
                items: if self.show_skips { reasons@ } else { Seq::empty() },
            }),
    {
        if self.show_skips {
            skip_any_reports(reasons)
        } else {
            empty_skip_any_report()
        }
    }

    /// An unrecorded object, with `reason` kept when unrecorded objects are shown.
    pub fn unrec_any_report(self, reason: ReportItem) -> (r: AnyReport)
        ensures
            any_verdict(r) == (Verdict {
                grade: Grade::Unrec,
                items: if self.show_unrec { seq![reason] } else { Seq::empty() },
            }),
    {
        if self.show_unrec {
            unrec_any_report(reason)
        } else {
            empty_unrec_any_report()
        }
    }

    /// A special case, with `reason` kept when special cases are shown.
    pub fn special_any_report(self, reason: ReportItem) -> (r: AnyReport)
        ensures
            any_verdict(r) == (Verdict {
                grade: Grade::Meh,
                items: if self.show_meh { seq![reason] } else { Seq::empty() },
            }),
    {
        if self.show_meh {
            special_any_report(reason)
        } else {
            empty_meh_any_report()
        }
    }

    /// A failure, with `reason` kept when all errors are recorded.
    pub fn bad_any_report(self, reason: ReportItem) -> (r: AnyReport)
        ensures
            any_verdict(r) == (Verdict {
                grade: Grade::Bad,
                items: if self.all_err { seq![reason] } else { Seq::empty() },
            }),
    {
        if self.all_err {
            bad_any_report(reason)
        } else {
            empty_bad_any_report()
        }
    }

    /// A skip of a conjunction, with `reason` kept when skips are shown.
    pub fn skip_all_report(self, reason: ReportItem) -> (r: AllReport)
        ensures
            all_verdict(r) == (Verdict {
                grade: Grade::Skip,
                items: if self.show_skips { seq![reason] } else { Seq::empty() },
            }),
    {
        if self.show_skips {
            skip_all_report(reason)
        } else {
            empty_skip_all_report()
        }
    }

    /// A failure of a conjunction, with `reason` kept when all errors are recorded.
    pub fn bad_all_report(self, reason: ReportItem) -> (r: AllReport)
        ensures
            all_verdict(r) == (Verdict {
                grade: Grade::Bad,
                items: if self.all_err { seq![reason] } else { Seq::empty() },
            }),
    {
        if self.all_err {
            bad_all_report(reason)
        } else {
            empty_bad_all_report()
        }
    }
}

impl Default for Verbosity {
    fn default() -> (r: Self)
        ensures
            r == least_verbosity(),
    {
        Self::least()
    }
}

/// A value that carries the verbosity its reports are made with.
pub trait VerbosityReport {
    spec fn verbosity_spec(&self) -> Verbosity;

    fn get_verbosity(&self) -> (r: Verbosity)
        ensures
            r == self.verbosity_spec(),
    ;
}

} // verus!
