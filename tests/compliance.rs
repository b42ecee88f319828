use route_verification::compare::Compare;
use route_verification::filter::check_filter;
use route_verification::ir::{
    AsExpr, AsName, AsSet, AutNum, Casts, Entry, Filter, FilterSet, Peering, PeeringAction,
    RegexOperator, RouteSet, RouteSetMember, Versions,
};
use route_verification::prefix::{is_multicast, AddrPfxRange, IpPrefix, RangeOperator};
use route_verification::query::QueryIr;
use route_verification::report::{AnyReportCase, AsPathEntry, MatchProblem, Report, ReportItem};
use route_verification::verbosity::Verbosity;

fn empty_query() -> QueryIr {
    QueryIr {
        aut_nums: vec![],
        as_sets: vec![],
        route_sets: vec![],
        peering_sets: vec![],
        filter_sets: vec![],
        as_routes: vec![],
    }
}

fn entry(peer: u64, filter: Filter) -> Entry {
    Entry {
        mp_peerings: vec![PeeringAction {
            mp_peering: Peering {
                remote_as: AsExpr::Single(AsName::Num(peer)),
                remote_router: None,
                local_router: None,
            },
            actions: vec![],
        }],
        mp_filter: filter,
    }
}

fn versions(entries: Vec<Entry>) -> Versions {
    Versions {
        any: Casts { any: entries, unicast: vec![], multicast: vec![] },
        ipv4: Casts::default(),
        ipv6: Casts::default(),
    }
}

fn aut_num(name: &str, imports: Versions, exports: Versions) -> AutNum {
    AutNum { name: name.into(), body: String::new(), imports, exports }
}

/// AS590 exports to AS690 announcing AS590; AS690 imports from AS590 accepting AS590.
fn pair_query() -> QueryIr {
    let mut q = empty_query();
    q.aut_nums.push((
        590,
        aut_num("AS590", Versions::default(), versions(vec![entry(690, Filter::AsNum(590, RegexOperator::NoOp))])),
    ));
    q.aut_nums.push((
        690,
        aut_num("AS690", versions(vec![entry(590, Filter::AsNum(590, RegexOperator::NoOp))]), Versions::default()),
    ));
    q
}

fn v4(a: u8, b: u8, c: u8, d: u8, len: u8) -> IpPrefix {
    IpPrefix::v4(a, b, c, d, len).unwrap()
}

fn path(nums: &[u64]) -> Vec<AsPathEntry> {
    nums.iter().map(|n| AsPathEntry::Single(*n)).collect()
}

fn no_match_filter() -> Vec<ReportItem> {
    vec![ReportItem::NoMatch(MatchProblem::Filter)]
}

#[test]
fn single_hop_export_of_unrecorded_as() {
    let q = empty_query();
    let shown = Verbosity { show_unrec: true, ..Verbosity::least() };
    let cmp = Compare::new(v4(10, 0, 0, 0, 24), path(&[64500])).verbosity(shown);
    assert_eq!(
        cmp.check(&q),
        vec![Report::UnrecSingleExport { from: 64500, items: vec![ReportItem::UnrecordedAutNum(64500)] }]
    );
    let cmp = Compare::new(v4(10, 0, 0, 0, 24), path(&[64500]));
    assert_eq!(cmp.check(&q), vec![]);
}

#[test]
fn simple_matching_pair() {
    let q = pair_query();
    let shown = Verbosity { show_success: true, ..Verbosity::least() };
    let cmp = Compare::new(v4(192, 0, 2, 0, 24), path(&[590, 690])).verbosity(shown);
    assert_eq!(
        cmp.check(&q),
        vec![Report::OkExport { from: 590, to: 690 }, Report::OkImport { from: 590, to: 690 }]
    );
}

#[test]
fn filter_mismatch_stops_at_first() {
    let q = pair_query();
    let cmp = Compare::new(v4(192, 0, 2, 0, 24), path(&[777, 590, 690]));
    assert_eq!(
        cmp.check(&q),
        vec![Report::BadExport { from: 590, to: 690, items: no_match_filter() }]
    );
}

#[test]
fn filter_mismatch_reports_every_hop() {
    let q = pair_query();
    let all = Verbosity { stop_at_first: false, show_unrec: true, ..Verbosity::least() };
    let cmp = Compare::new(v4(192, 0, 2, 0, 24), path(&[777, 590, 690])).verbosity(all);
    assert_eq!(
        cmp.check(&q),
        vec![
            Report::BadExport { from: 590, to: 690, items: no_match_filter() },
            Report::BadImport { from: 590, to: 690, items: no_match_filter() },
            Report::UnrecExport { from: 777, to: 590, items: vec![ReportItem::UnrecordedAutNum(777)] },
        ]
    );
}

#[test]
fn empty_policy_is_skipped() {
    let mut q = empty_query();
    q.aut_nums.push((100, aut_num("AS100", Versions::default(), Versions::default())));
    let skips = Verbosity { show_skips: true, ..Verbosity::least() };
    let cmp = Compare::new(v4(192, 0, 2, 0, 24), path(&[100, 200])).verbosity(skips);
    assert_eq!(
        cmp.check(&q),
        vec![Report::SkipExport { from: 100, to: 200, items: vec![ReportItem::SkipExportEmpty] }]
    );
}

#[test]
fn report_count_is_bounded() {
    let q = pair_query();
    let all = Verbosity::minimum_all();
    for len in 1..6u64 {
        let p: Vec<u64> = (0..len).map(|i| 1000 + i).collect();
        let cmp = Compare::new(v4(192, 0, 2, 0, 24), path(&p)).verbosity(all);
        let n = cmp.check(&q).len() as u64;
        assert!(n <= 2 * (len - 1) + 1);
    }
    let cmp = Compare::new(v4(192, 0, 2, 0, 24), path(&[1, 2, 3])).verbosity(all);
    assert_eq!(cmp.check(&q).len(), 4);
}

#[test]
fn consecutive_duplicates_are_removed() {
    let cmp = Compare::new(v4(192, 0, 2, 0, 24), path(&[1, 1, 2, 2, 2, 1]));
    assert_eq!(cmp.as_path, path(&[1, 2, 1]));
    assert!(cmp.goes_through_num(2));
    assert!(!cmp.goes_through_num(3));
}

#[test]
fn pair_with_as_set_is_recorded() {
    let q = empty_query();
    let rec = Verbosity { record_set: true, ..Verbosity::least() };
    let p = vec![AsPathEntry::Group(vec![1, 2]), AsPathEntry::Single(3)];
    let cmp = Compare::new(v4(192, 0, 2, 0, 24), p).verbosity(rec);
    assert_eq!(
        cmp.check(&q),
        vec![Report::AsPathPairWithSet { from: AsPathEntry::Group(vec![1, 2]), to: AsPathEntry::Single(3) }]
    );
}

fn rs_x_query() -> QueryIr {
    let mut q = empty_query();
    q.route_sets.push(RouteSet {
        name: "RS-X".into(),
        body: String::new(),
        members: vec![RouteSetMember::Range(AddrPfxRange {
            address_prefix: v4(192, 0, 2, 0, 24),
            range_operator: RangeOperator::Range(24, 26),
        })],
    });
    q
}

#[test]
fn route_set_prefix_range() {
    let q = rs_x_query();
    let ok = Compare::new(v4(192, 0, 2, 0, 25), path(&[1]));
    assert!(check_filter(&q, &ok, 1, 8, &Filter::RouteSet(0, RangeOperator::NoOp), 256).is_none());
    let too_long = Compare::new(v4(192, 0, 2, 0, 27), path(&[1]));
    match check_filter(&q, &too_long, 1, 8, &Filter::RouteSet(0, RangeOperator::NoOp), 256) {
        Some(AnyReportCase::BadAnyReport(items)) => assert_eq!(items, no_match_filter()),
        _ => panic!("a /27 lies outside 192.0.2.0/24^24-26"),
    }
}

#[test]
fn prefix_membership() {
    let r = AddrPfxRange { address_prefix: v4(192, 0, 2, 0, 24), range_operator: RangeOperator::Plus };
    assert!(r.contains(&v4(192, 0, 2, 128, 25)));
    assert!(r.contains(&v4(192, 0, 2, 0, 24)));
    assert!(!r.contains(&v4(192, 0, 3, 0, 25)));
    assert!(!r.contains(&v4(192, 0, 0, 0, 16)));
    let minus = AddrPfxRange { address_prefix: v4(192, 0, 2, 0, 24), range_operator: RangeOperator::Minus };
    assert!(!minus.contains(&v4(192, 0, 2, 0, 24)));
    assert!(minus.contains(&v4(192, 0, 2, 0, 32)));
    let exact = AddrPfxRange { address_prefix: v4(10, 0, 0, 0, 8), range_operator: RangeOperator::NoOp };
    assert!(exact.contains(&v4(10, 0, 0, 0, 8)));
    assert!(!exact.contains(&v4(10, 1, 0, 0, 16)));
    let num = AddrPfxRange { address_prefix: v4(10, 0, 0, 0, 8), range_operator: RangeOperator::Num(16) };
    assert!(num.contains(&v4(10, 1, 0, 0, 16)));
    assert!(!num.contains(&v4(10, 1, 1, 0, 24)));
    let v6 = IpPrefix::v6(0x2001_0db8 << 96, 32).unwrap();
    let any_v6 = AddrPfxRange { address_prefix: IpPrefix::v6(0, 0).unwrap(), range_operator: RangeOperator::Plus };
    assert!(any_v6.contains(&v6));
    assert!(!any_v6.contains(&v4(10, 0, 0, 0, 8)));
}

#[test]
fn multicast_blocks() {
    assert!(is_multicast(&v4(224, 0, 0, 0, 24)));
    assert!(is_multicast(&v4(239, 255, 0, 0, 16)));
    assert!(!is_multicast(&v4(192, 0, 2, 0, 24)));
    assert!(!is_multicast(&v4(224, 0, 0, 0, 3)));
    assert!(is_multicast(&IpPrefix::v6(0xff02 << 112, 16).unwrap()));
    assert!(!is_multicast(&IpPrefix::v6(0x2001 << 112, 16).unwrap()));
}

fn cyclic_query() -> QueryIr {
    let mut q = empty_query();
    q.as_sets.push(AsSet { name: "AS-A".into(), body: String::new(), members: vec![1], set_members: vec![1] });
    q.as_sets.push(AsSet { name: "AS-B".into(), body: String::new(), members: vec![2], set_members: vec![0] });
    q
}

#[test]
fn as_set_with_cycle() {
    let q = cyclic_query();
    let mut members = q.as_set_members(0);
    members.sort();
    assert_eq!(members, vec![1, 2]);
    let origin_2 = Compare::new(v4(192, 0, 2, 0, 24), path(&[2, 5]));
    assert!(check_filter(&q, &origin_2, 5, 8, &Filter::AsSet(0, RegexOperator::NoOp), 256).is_none());
    let origin_3 = Compare::new(v4(192, 0, 2, 0, 24), path(&[3, 5]));
    assert!(check_filter(&q, &origin_3, 5, 8, &Filter::AsSet(0, RegexOperator::NoOp), 256).is_some());
}

#[test]
fn closure_of_closure_is_the_same() {
    let mut q = cyclic_query();
    q.as_sets.push(AsSet { name: "AS-C".into(), body: String::new(), members: vec![3], set_members: vec![0, 2] });
    let mut first = q.as_set_members(2);
    first.sort();
    first.dedup();
    assert_eq!(first, vec![1, 2, 3]);
    // A set naming every set of that closure has the same closure.
    q.as_sets.push(AsSet { name: "AS-D".into(), body: String::new(), members: vec![], set_members: vec![0, 1, 2] });
    let mut again = q.as_set_members(3);
    again.sort();
    again.dedup();
    assert_eq!(again, first);
}

#[test]
fn self_referencing_filter_set_terminates() {
    let mut q = empty_query();
    q.filter_sets.push(FilterSet {
        name: "FLTR-LOOP".into(),
        body: String::new(),
        filters: vec![Filter::FilterSet(0)],
    });
    let cmp = Compare::new(v4(192, 0, 2, 0, 24), path(&[1]));
    match check_filter(&q, &cmp, 1, 8, &Filter::FilterSet(0), 16) {
        Some(AnyReportCase::SkipAnyReport(items)) => assert_eq!(items, vec![ReportItem::RecCheckFilter]),
        _ => panic!("the recursion budget ends a filter-set cycle with a skip"),
    }
}

#[test]
fn filter_combinators() {
    let q = empty_query();
    let cmp = Compare::new(v4(192, 0, 2, 0, 24), path(&[7, 8]));
    let is7 = || Box::new(Filter::AsNum(7, RegexOperator::NoOp));
    let is8 = || Box::new(Filter::AsNum(8, RegexOperator::NoOp));
    assert!(check_filter(&q, &cmp, 8, 8, &Filter::Or(is8(), is7()), 8).is_none());
    assert!(check_filter(&q, &cmp, 8, 8, &Filter::And(is8(), is7()), 8).is_some());
    assert!(check_filter(&q, &cmp, 8, 8, &Filter::Not(is8()), 8).is_none());
    assert!(check_filter(&q, &cmp, 8, 8, &Filter::AsNum(8, RegexOperator::Contains), 8).is_none());
    match check_filter(&q, &cmp, 8, 8, &Filter::Invalid("oops".into()), 8) {
        Some(AnyReportCase::BadAnyReport(items)) => assert_eq!(items, vec![ReportItem::BadRpsl("oops".into())]),
        _ => panic!("an invalid filter is bad RPSL"),
    }
    match check_filter(&q, &cmp, 8, 8, &Filter::Community("c".into()), 8) {
        Some(AnyReportCase::SkipAnyReport(items)) => assert!(items.is_empty()),
        _ => panic!("communities are skipped"),
    }
    let rec = cmp.verbosity(Verbosity { record_community: true, ..Verbosity::least() });
    match check_filter(&q, &rec, 8, 8, &Filter::Community("c".into()), 8) {
        Some(AnyReportCase::MehAnyReport(items)) => {
            assert_eq!(items, vec![ReportItem::SkipCommunityCheckUnimplemented])
        }
        _ => panic!("recorded communities are special"),
    }
    match check_filter(&q, &rec, 8, 8, &Filter::UnrecordedAsSet("AS-NONE".into()), 8) {
        Some(AnyReportCase::UnrecAnyReport(items)) => {
            assert_eq!(items, vec![ReportItem::UnrecordedAsSet("AS-NONE".into())])
        }
        _ => panic!("a missing set is unrecorded"),
    }
}

#[test]
fn route_set_operator_applies_to_members() {
    let mut q = empty_query();
    q.route_sets.push(RouteSet {
        name: "RS-Y".into(),
        body: String::new(),
        members: vec![
            RouteSetMember::Range(AddrPfxRange { address_prefix: v4(10, 0, 0, 0, 8), range_operator: RangeOperator::NoOp }),
            RouteSetMember::Range(AddrPfxRange {
                address_prefix: v4(30, 0, 0, 0, 8),
                range_operator: RangeOperator::Range(24, 28),
            }),
            RouteSetMember::AsNum(64500),
        ],
    });
    q.as_routes.push((64500, vec![v4(192, 0, 2, 0, 24)]));
    let holds = |p: IpPrefix, op: RangeOperator| {
        let cmp = Compare::new(p, path(&[1]));
        check_filter(&q, &cmp, 1, 8, &Filter::RouteSet(0, op), 256).is_none()
    };
    assert!(holds(v4(10, 0, 0, 0, 8), RangeOperator::NoOp));
    assert!(!holds(v4(10, 1, 0, 0, 16), RangeOperator::NoOp));
    assert!(holds(v4(10, 1, 0, 0, 16), RangeOperator::Plus));
    assert!(holds(v4(30, 1, 1, 0, 27), RangeOperator::Range(27, 30)));
    assert!(!holds(v4(30, 1, 1, 0, 29), RangeOperator::Range(27, 30)));
    assert!(holds(v4(192, 0, 2, 0, 24), RangeOperator::NoOp));
    assert!(!holds(v4(192, 0, 2, 0, 25), RangeOperator::NoOp));
    assert!(holds(v4(192, 0, 2, 0, 25), RangeOperator::Minus));
    assert!(!holds(v4(192, 0, 2, 0, 24), RangeOperator::Minus));
}
