use route_verification::as_regex::{check_path_regex, AsAtom, AsPathRegex, AsRegex};
use route_verification::compare::Compare;
use route_verification::filter::check_filter;
use route_verification::ir::{
    AsExpr, AsName, AsSet, AutNum, Casts, Entry, Filter, Peering, PeeringAction, RegexOperator,
    Versions,
};
use route_verification::prefix::IpPrefix;
use route_verification::query::QueryIr;
use route_verification::report::{AnyReportCase, AsPathEntry, Report, ReportItem};
use route_verification::verbosity::Verbosity;

fn query_with_set() -> QueryIr {
    QueryIr {
        aut_nums: vec![],
        as_sets: vec![AsSet { name: "AS-FOO".into(), body: String::new(), members: vec![20, 30], set_members: vec![] }],
        route_sets: vec![],
        peering_sets: vec![],
        filter_sets: vec![],
        as_routes: vec![],
    }
}

fn atom(a: AsAtom) -> Box<AsRegex> {
    Box::new(AsRegex::Atom(a))
}

fn anchored(re: AsRegex) -> AsPathRegex {
    AsPathRegex { re, from_start: true, to_end: true }
}

#[test]
fn exact_sequence_with_anchors() {
    let q = query_with_set();
    let re = AsRegex::Concat(atom(AsAtom::Exact(1)), Box::new(AsRegex::Concat(atom(AsAtom::Any), atom(AsAtom::Exact(3)))));
    let r = anchored(re);
    assert!(check_path_regex(&q, &r, &vec![1, 2, 3]));
    assert!(!check_path_regex(&q, &r, &vec![1, 2, 3, 4]));
    assert!(!check_path_regex(&q, &r, &vec![1, 3]));
}

#[test]
fn unanchored_finds_a_stretch() {
    let q = query_with_set();
    let r = AsPathRegex { re: AsRegex::Atom(AsAtom::Exact(7)), from_start: false, to_end: false };
    assert!(check_path_regex(&q, &r, &vec![1, 7, 3]));
    assert!(!check_path_regex(&q, &r, &vec![1, 3]));
    let tail = AsPathRegex { re: AsRegex::Atom(AsAtom::Exact(3)), from_start: false, to_end: true };
    assert!(check_path_regex(&q, &tail, &vec![1, 7, 3]));
    assert!(!check_path_regex(&q, &tail, &vec![3, 7, 1]));
}

#[test]
fn repetition_and_sets() {
    let q = query_with_set();
    let re = AsRegex::Concat(atom(AsAtom::Exact(1)), Box::new(AsRegex::Plus(atom(AsAtom::SetMember(0)))));
    let r = anchored(re);
    assert!(check_path_regex(&q, &r, &vec![1, 20, 30, 20]));
    assert!(!check_path_regex(&q, &r, &vec![1]));
    assert!(!check_path_regex(&q, &r, &vec![1, 20, 40]));
    let star = anchored(AsRegex::Star(atom(AsAtom::Any)));
    assert!(check_path_regex(&q, &star, &vec![]));
    assert!(check_path_regex(&q, &star, &vec![5, 6]));
    let opt = anchored(AsRegex::Concat(Box::new(AsRegex::Optional(atom(AsAtom::Exact(9)))), atom(AsAtom::Exact(5))));
    assert!(check_path_regex(&q, &opt, &vec![5]));
    assert!(check_path_regex(&q, &opt, &vec![9, 5]));
    assert!(!check_path_regex(&q, &opt, &vec![8, 5]));
    let not = anchored(AsRegex::Atom(AsAtom::NotIn(vec![5], vec![0])));
    assert!(check_path_regex(&q, &not, &vec![6]));
    assert!(!check_path_regex(&q, &not, &vec![5]));
    assert!(!check_path_regex(&q, &not, &vec![30]));
    let alt = anchored(AsRegex::Alt(atom(AsAtom::Exact(1)), atom(AsAtom::Exact(2))));
    assert!(check_path_regex(&q, &alt, &vec![2]));
}

#[test]
fn filter_reads_the_path_last_as_first() {
    let q = query_with_set();
    let prefix = IpPrefix::v4(192, 0, 2, 0, 24).unwrap();
    let path: Vec<AsPathEntry> = vec![AsPathEntry::Single(3), AsPathEntry::Single(2), AsPathEntry::Single(1)];
    let cmp = Compare::new(prefix, path);
    let origin_last = AsPathRegex { re: AsRegex::Atom(AsAtom::Exact(3)), from_start: false, to_end: true };
    assert!(check_filter(&q, &cmp, 1, 8, &Filter::AsPathRE(origin_last), 8).is_none());
    let neighbor_first = AsPathRegex { re: AsRegex::Atom(AsAtom::Exact(1)), from_start: true, to_end: false };
    assert!(check_filter(&q, &cmp, 1, 8, &Filter::AsPathRE(neighbor_first), 8).is_none());
    let with_set = Compare::new(prefix, vec![AsPathEntry::Group(vec![4, 5]), AsPathEntry::Single(1)]);
    let any = AsPathRegex { re: AsRegex::Star(atom(AsAtom::Any)), from_start: true, to_end: true };
    match check_filter(&q, &with_set, 1, 8, &Filter::AsPathRE(any), 8) {
        Some(AnyReportCase::SkipAnyReport(items)) => assert_eq!(items, vec![ReportItem::SkipAsRegexWithSet]),
        _ => panic!("an AS set in the path is skipped"),
    }
}

#[test]
fn import_regex_sees_the_path_as_announced() {
    let mut q = query_with_set();
    let only_origin = AsPathRegex { re: AsRegex::Atom(AsAtom::Exact(1)), from_start: true, to_end: true };
    let imports = Versions {
        any: Casts {
            any: vec![Entry {
                mp_peerings: vec![PeeringAction {
                    mp_peering: Peering { remote_as: AsExpr::Single(AsName::Num(1)), remote_router: None, local_router: None },
                    actions: vec![],
                }],
                mp_filter: Filter::AsPathRE(only_origin),
            }],
            unicast: vec![],
            multicast: vec![],
        },
        ipv4: Casts::default(),
        ipv6: Casts::default(),
    };
    q.aut_nums.push((2, AutNum { name: "AS2".into(), body: String::new(), imports, exports: Versions::default() }));
    let prefix = IpPrefix::v4(192, 0, 2, 0, 24).unwrap();
    let path = vec![AsPathEntry::Single(1), AsPathEntry::Single(2), AsPathEntry::Single(3)];
    let cmp = Compare::new(prefix, path).verbosity(Verbosity { show_success: true, stop_at_first: false, ..Verbosity::least() });
    assert_eq!(cmp.check(&q), vec![Report::OkImport { from: 1, to: 2 }]);
}

#[test]
fn quantifiers_apply_at_the_origin() {
    let q = query_with_set();
    let prefix = IpPrefix::v4(192, 0, 2, 0, 24).unwrap();
    let cmp = Compare::new(prefix, vec![AsPathEntry::Single(7), AsPathEntry::Single(7), AsPathEntry::Single(8)]);
    let ok = |op| check_filter(&q, &cmp, 8, 8, &Filter::AsNum(7, op), 8).is_none();
    assert!(ok(RegexOperator::Star));
    assert!(ok(RegexOperator::Question));
    assert!(ok(RegexOperator::Range(1, 2)));
    assert!(!ok(RegexOperator::Range(3, 4)));
    assert!(!ok(RegexOperator::Range(2, 1)));
    assert!(ok(RegexOperator::Plus));
    let set_ok = |op| check_filter(&q, &cmp, 8, 8, &Filter::AsSet(0, op), 8).is_none();
    assert!(!set_ok(RegexOperator::Range(1, 1)));
    assert!(set_ok(RegexOperator::Star));
}

#[test]
fn deep_regex_exhausts_the_budget() {
    let q = query_with_set();
    let prefix = IpPrefix::v4(192, 0, 2, 0, 24).unwrap();
    let cmp = Compare::new(prefix, vec![AsPathEntry::Single(1)]);
    let deep = || AsPathRegex {
        re: AsRegex::Star(Box::new(AsRegex::Star(atom(AsAtom::Any)))),
        from_start: true,
        to_end: true,
    };
    match check_filter(&q, &cmp, 1, 8, &Filter::AsPathRE(deep()), 3) {
        Some(AnyReportCase::SkipAnyReport(items)) => assert_eq!(items, vec![ReportItem::RecCheckFilter]),
        _ => panic!("a regex deeper than the budget is skipped"),
    }
    assert!(check_filter(&q, &cmp, 1, 8, &Filter::AsPathRE(deep()), 4).is_none());
}
