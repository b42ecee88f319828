use route_verification::hill::{
    as_w_routes_wo_aut_num, hill_of, import_peers, imports_only_from_providers, mark_import_only_provider,
    mark_export_customers,
    mark_uphill, Hill, Relationship,
};
use route_verification::ir::{AsExpr, AsName, AutNum, Casts, Entry, Filter, Peering, PeeringAction, Versions};
use route_verification::prefix::IpPrefix;
use route_verification::query::QueryIr;
use route_verification::report::{Report, ReportItem};
use route_verification::simple_report::{
    bad_rpsl_any_report, no_match_all_report, no_match_any_report, skip_all_report,
    skip_any_report, AnyReportAggregater, JoinReportItems, Report as SimpleReport,
    ReportItem as SimpleItem, ToAllReport, ToAnyReport,
};
use route_verification::verbosity::Verbosity;

fn empty_query() -> QueryIr {
    QueryIr {
        aut_nums: vec![],
        as_sets: vec![],
        route_sets: vec![],
        peering_sets: vec![],
        filter_sets: vec![],
        as_routes: vec![],
    }
}

#[test]
fn hill_labels() {
    assert_eq!(hill_of(Some(Relationship::C2P)), Hill::Up);
    assert_eq!(hill_of(Some(Relationship::P2C)), Hill::Down);
    assert_eq!(hill_of(Some(Relationship::P2P)), Hill::Peer);
    assert_eq!(hill_of(None), Hill::Other);
}

#[test]
fn uphill_export_is_special() {
    let v = Verbosity { special_uphill: true, show_meh: true, ..Verbosity::least() };
    let r = mark_uphill(v, Report::OkExport { from: 1, to: 2 }, Some(Relationship::C2P));
    assert_eq!(r, Report::MehExport { from: 1, to: 2, items: vec![ReportItem::SpecUphill] });
    let r = mark_uphill(v, Report::OkExport { from: 1, to: 2 }, Some(Relationship::P2C));
    assert_eq!(r, Report::OkExport { from: 1, to: 2 });
    let r = mark_uphill(Verbosity::least(), Report::OkExport { from: 1, to: 2 }, Some(Relationship::C2P));
    assert_eq!(r, Report::OkExport { from: 1, to: 2 });
}

#[test]
fn routes_without_policy() {
    let mut q = empty_query();
    let p = IpPrefix::v4(10, 0, 0, 0, 8).unwrap();
    q.as_routes.push((10, vec![p, p]));
    q.as_routes.push((20, vec![p]));
    q.aut_nums.push((
        20,
        AutNum { name: "AS20".into(), body: String::new(), imports: Versions::default(), exports: Versions::default() },
    ));
    assert_eq!(as_w_routes_wo_aut_num(&q), vec![(10, 2)]);
}

#[test]
fn entries_in_order() {
    let e = |n: u64| Entry { mp_peerings: vec![], mp_filter: Filter::AsNum(n, route_verification::ir::RegexOperator::NoOp) };
    let v = Versions {
        any: Casts { any: vec![e(1)], unicast: vec![e(2)], multicast: vec![] },
        ipv4: Casts { any: vec![], unicast: vec![], multicast: vec![e(3)] },
        ipv6: Casts::default(),
    };
    assert!(!v.is_default());
    assert!(Versions::default().is_default());
    assert!(Casts::default().is_default());
    let nums: Vec<u64> = v
        .entries_iter()
        .iter()
        .map(|e| match e.mp_filter {
            Filter::AsNum(n, _) => n,
            _ => 0,
        })
        .collect();
    assert_eq!(nums, vec![1, 2, 3]);
    let _ = AsName::Any;
}

#[test]
fn simple_reports() {
    assert_eq!(SimpleReport::skip("x".into()), SimpleReport::Neutral(vec![SimpleItem::Skip("x".into())]));
    assert_eq!(skip_all_report("s".into()), Ok(Some(vec![SimpleItem::Skip("s".into())])));
    assert_eq!(no_match_all_report("m".into()), Err(vec![SimpleItem::NoMatch("m".into())]));
    assert_eq!(skip_any_report("s".into()), Some((vec![SimpleItem::Skip("s".into())], false)));
    assert_eq!(no_match_any_report("m".into()), Some((vec![SimpleItem::NoMatch("m".into())], true)));
    assert_eq!(bad_rpsl_any_report("b".into()), Some((vec![SimpleItem::BadRpsl("b".into())], true)));
    assert_eq!(no_match_any_report("m".into()).to_all(), Err(vec![SimpleItem::NoMatch("m".into())]));
    assert_eq!(skip_all_report("s".into()).to_any(), Some((vec![SimpleItem::Skip("s".into())], false)));
    let none: Option<Vec<SimpleItem>> = None;
    assert_eq!(none.clone().join(None), None);
    assert_eq!(
        Some(vec![SimpleItem::Skip("a".into())]).join(Some(vec![SimpleItem::Skip("b".into())])),
        Some(vec![SimpleItem::Skip("a".into()), SimpleItem::Skip("b".into())])
    );
    assert_eq!(none.to_all(), Ok(None));
}

#[test]
fn aggregater_gathers() {
    let mut a = AnyReportAggregater::new();
    a.join((vec![SimpleItem::Skip("a".into())], false));
    assert!(!a.all_fail);
    a.join((vec![SimpleItem::NoMatch("b".into())], true));
    assert!(!a.all_fail);
    assert_eq!(
        a.to_any(),
        Some((vec![SimpleItem::Skip("a".into()), SimpleItem::NoMatch("b".into())], false))
    );
    let mut fails = AnyReportAggregater::new();
    fails.join((vec![SimpleItem::NoMatch("c".into())], true));
    assert_eq!(fails.to_any(), Some((vec![SimpleItem::NoMatch("c".into())], true)));
    let b = AnyReportAggregater::from((vec![], false));
    assert!(!b.all_fail && b.report_items.is_empty());
}

fn peering(expr: AsExpr) -> PeeringAction {
    PeeringAction { mp_peering: Peering { remote_as: expr, remote_router: None, local_router: None }, actions: vec![] }
}

#[test]
fn import_peers_of_a_policy() {
    let entry = |ps: Vec<PeeringAction>| Entry { mp_peerings: ps, mp_filter: Filter::Any };
    let v = Versions {
        any: Casts { any: vec![entry(vec![peering(AsExpr::Single(AsName::Num(1)))])], unicast: vec![], multicast: vec![] },
        ipv4: Casts { any: vec![entry(vec![peering(AsExpr::Single(AsName::Num(2))), peering(AsExpr::Single(AsName::Num(3)))])], unicast: vec![], multicast: vec![] },
        ipv6: Casts::default(),
    };
    assert_eq!(import_peers(&v), Some(vec![1, 2, 3]));
    let w = Versions {
        any: Casts { any: vec![entry(vec![peering(AsExpr::Single(AsName::Any))])], unicast: vec![], multicast: vec![] },
        ipv4: Casts::default(),
        ipv6: Casts::default(),
    };
    assert_eq!(import_peers(&w), None);
}

#[test]
fn import_only_from_providers() {
    assert!(imports_only_from_providers(&vec![Some(Relationship::P2C), Some(Relationship::P2C)]));
    assert!(!imports_only_from_providers(&vec![Some(Relationship::P2C), Some(Relationship::P2P)]));
    assert!(!imports_only_from_providers(&vec![Some(Relationship::P2C), None]));
    assert!(!imports_only_from_providers(&vec![]));
    let v = Verbosity { check_import_only_provider: true, show_meh: true, ..Verbosity::least() };
    let bad = || Report::BadImport { from: 1, to: 2, items: vec![ReportItem::RecCheckFilter] };
    assert_eq!(
        mark_import_only_provider(v, bad(), Some(Relationship::P2P), true),
        Report::MehImport { from: 1, to: 2, items: vec![ReportItem::RecCheckFilter, ReportItem::SpecImportOnlyProviders] }
    );
    assert_eq!(mark_import_only_provider(v, bad(), Some(Relationship::P2C), true), bad());
    assert_eq!(mark_import_only_provider(v, bad(), Some(Relationship::C2P), false), bad());
    assert_eq!(mark_import_only_provider(Verbosity::least(), bad(), Some(Relationship::C2P), true), bad());
}

#[test]
fn customer_routes_exported() {
    let v = Verbosity { check_customer: true, show_meh: true, ..Verbosity::least() };
    let bad = || Report::BadExport { from: 1, to: 2, items: vec![] };
    assert_eq!(
        mark_export_customers(v, bad(), Some(Relationship::P2C)),
        Report::MehExport { from: 1, to: 2, items: vec![ReportItem::SpecExportCustomers] }
    );
    assert_eq!(mark_export_customers(v, bad(), Some(Relationship::C2P)), bad());
    assert_eq!(mark_export_customers(v, bad(), None), bad());
    assert_eq!(mark_export_customers(Verbosity::least(), bad(), Some(Relationship::P2C)), bad());
}
