use route_verification::members::{classify_object, gather_members, split_commas, ObjectClass};

fn attrs(pairs: &[(&str, &str)]) -> Vec<(String, String)> {
    pairs.iter().map(|(k, v)| (k.to_string(), v.to_string())).collect()
}

#[test]
fn split_at_commas_and_trim() {
    assert_eq!(split_commas("AS1, AS2,AS3"), vec!["AS1", "AS2", "AS3"]);
    assert_eq!(split_commas(" AS1 ,\t, AS-FOO ,"), vec!["AS1", "AS-FOO"]);
    assert_eq!(split_commas(""), Vec::<String>::new());
    assert_eq!(split_commas(" , ,"), Vec::<String>::new());
    assert_eq!(split_commas("192.0.2.0/24^24-26"), vec!["192.0.2.0/24^24-26"]);
    assert_eq!(split_commas("a\u{3000}b , c"), vec!["a\u{3000}b", "c"]);
}

#[test]
fn members_from_all_member_attributes() {
    let a = attrs(&[
        ("descr", "a set"),
        ("members", "AS1, AS2"),
        ("mp-members", "AS-BAR"),
        ("mbrs-by-ref", "MNT-A, MNT-B"),
        ("members", "AS3"),
    ]);
    assert_eq!(
        gather_members("AS-FOO", &a),
        vec!["AS1", "AS2", "AS-BAR", "MNT-A#AS-FOO", "MNT-B#AS-FOO", "AS3"]
    );
}

#[test]
fn members_by_reference_from_any_maintainer() {
    let a = attrs(&[("mbrs-by-ref", "ANY")]);
    assert_eq!(gather_members("RS-X", &a), vec!["ANY#RS-X"]);
    assert_eq!(gather_members("RS-X", &attrs(&[("remarks", "members: AS1")])), Vec::<String>::new());
}

#[test]
fn object_classes() {
    assert_eq!(classify_object("aut-num", 10), ObjectClass::AutNum);
    assert_eq!(classify_object("as-set", 10), ObjectClass::AsSet);
    assert_eq!(classify_object("route6", 10), ObjectClass::Route);
    assert_eq!(classify_object("route", 10), ObjectClass::Route);
    assert_eq!(classify_object("route-set", 10), ObjectClass::RouteSet);
    assert_eq!(classify_object("filter-set", 10), ObjectClass::FilterSet);
    assert_eq!(classify_object("peering-set", 10), ObjectClass::PeeringSet);
    assert_eq!(classify_object("person", 10), ObjectClass::Other);
    assert_eq!(classify_object("aut-num", 1024 * 1024), ObjectClass::AutNum);
    assert_eq!(classify_object("aut-num", 1024 * 1024 + 1), ObjectClass::TooLarge);
}
