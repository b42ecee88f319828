use route_verification::report::{
    bad_any_report, empty_bad_any_report, join_all, join_any, skip_any_report, special_any_report,
    AllReport, AllReportCase, AnyReport, AnyReportCase, MatchProblem, ReportItem, ToAllReport,
    ToAnyReport,
};
use route_verification::verbosity::Verbosity;

fn items_of(r: &AnyReport) -> Option<(u8, Vec<ReportItem>)> {
    match r {
        None => None,
        Some(AnyReportCase::SkipAnyReport(i)) => Some((3, i.clone())),
        Some(AnyReportCase::UnrecAnyReport(i)) => Some((2, i.clone())),
        Some(AnyReportCase::MehAnyReport(i)) => Some((1, i.clone())),
        Some(AnyReportCase::BadAnyReport(i)) => Some((0, i.clone())),
    }
}

fn all_parts(r: &AllReport) -> (u8, Vec<ReportItem>) {
    match r {
        Ok(AllReportCase::OkAllReport) => (0, vec![]),
        Ok(AllReportCase::MehAllReport(i)) => (1, i.clone()),
        Ok(AllReportCase::UnrecAllReport(i)) => (2, i.clone()),
        Ok(AllReportCase::SkipAllReport(i)) => (3, i.clone()),
        Err(i) => (4, i.clone()),
    }
}

#[test]
fn ok_is_identity_of_all() {
    let x: AllReport = Err(vec![ReportItem::RecCheckFilter]);
    let r = join_all(Ok(AllReportCase::OkAllReport), x);
    assert_eq!(all_parts(&r), (4, vec![ReportItem::RecCheckFilter]));
    let y: AllReport = Ok(AllReportCase::SkipAllReport(vec![ReportItem::SkipExportEmpty]));
    let r = join_all(y, Ok(AllReportCase::OkAllReport));
    assert_eq!(all_parts(&r), (3, vec![ReportItem::SkipExportEmpty]));
}

#[test]
fn empty_bad_is_identity_of_any() {
    let x = special_any_report(ReportItem::SpecUphill);
    let r = join_any(empty_bad_any_report(), x);
    assert_eq!(items_of(&r), Some((1, vec![ReportItem::SpecUphill])));
    let r = join_any(None, skip_any_report(ReportItem::RecCheckFilter));
    assert_eq!(items_of(&r), None);
}

#[test]
fn any_join_keeps_better_grade_and_all_items() {
    let a = bad_any_report(ReportItem::NoMatch(MatchProblem::Filter));
    let b = skip_any_report(ReportItem::SkipAsRegexWithSet);
    let r = join_any(a, b);
    assert_eq!(
        items_of(&r),
        Some((
            3,
            vec![ReportItem::NoMatch(MatchProblem::Filter), ReportItem::SkipAsRegexWithSet]
        ))
    );
    let c = AnyReportCase::MehAnyReport(vec![ReportItem::SpecUphill])
        .join(AnyReportCase::BadAnyReport(vec![ReportItem::RecCheckFilter]));
    assert_eq!(
        items_of(&Some(c)),
        Some((1, vec![ReportItem::SpecUphill, ReportItem::RecCheckFilter]))
    );
}

#[test]
fn all_join_keeps_worse_grade() {
    let a: AllReport = Ok(AllReportCase::MehAllReport(vec![ReportItem::SpecUphill]));
    let b: AllReport = Err(vec![ReportItem::NoMatch(MatchProblem::Peering)]);
    let r = join_all(a, b);
    assert_eq!(
        all_parts(&r),
        (4, vec![ReportItem::SpecUphill, ReportItem::NoMatch(MatchProblem::Peering)])
    );
}

#[test]
fn any_all_round_trip() {
    let cases: Vec<AnyReport> = vec![
        None,
        skip_any_report(ReportItem::RecCheckFilter),
        Some(AnyReportCase::UnrecAnyReport(vec![ReportItem::UnrecordedAutNum(7)])),
        special_any_report(ReportItem::SpecUphill),
        bad_any_report(ReportItem::BadRpsl("x".into())),
    ];
    for case in cases {
        let before = items_of(&case);
        let back = case.to_all().to_any();
        assert_eq!(items_of(&back), before);
    }
    let bad: AnyReport = bad_any_report(ReportItem::RecCheckPeering);
    assert!(matches!(bad.to_all(), Err(ref i) if i == &vec![ReportItem::RecCheckPeering]));
}

#[test]
fn const_default_is_empty_bad() {
    let d = AnyReportCase::const_default();
    assert_eq!(items_of(&Some(d)), Some((0, vec![])));
    let mut c = AnyReportCase::SkipAnyReport(vec![ReportItem::RecCheckFilter]);
    c.shrink_to_fit();
    assert_eq!(items_of(&Some(c)), Some((3, vec![ReportItem::RecCheckFilter])));
}

#[test]
fn verbosity_presets() {
    let l = Verbosity::least();
    assert!(l.stop_at_first && !l.show_meh && !l.show_unrec && !l.show_skips && !l.show_success);
    assert!(!l.record_set && !l.special_uphill && !l.check_customer);
    let m = Verbosity::minimum_all();
    assert!(!m.stop_at_first && m.show_meh && m.show_unrec && m.show_skips && m.show_success);
    assert!(m.special_uphill && m.check_customer && m.check_import_only_provider);
    assert!(!m.all_err && !m.per_entry_err && !m.record_set && !m.record_community);
    assert_eq!(Verbosity::default(), l);
}

#[test]
fn verbosity_keeps_reasons_only_when_shown() {
    let quiet = Verbosity::least();
    assert_eq!(items_of(&quiet.skip_any_report(ReportItem::RecCheckFilter)), Some((3, vec![])));
    let loud = Verbosity { show_skips: true, ..quiet };
    assert_eq!(
        items_of(&loud.skip_any_report(ReportItem::RecCheckFilter)),
        Some((3, vec![ReportItem::RecCheckFilter]))
    );
    assert_eq!(items_of(&quiet.bad_any_report(ReportItem::RecCheckFilter)), Some((0, vec![])));
}
