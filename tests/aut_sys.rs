use route_verification::aut_sys::{parse_aut_num_name, AsNameError};

#[test]
fn parse_name() {
    assert_eq!(parse_aut_num_name("AS2340").unwrap(), 2340);
    assert!(parse_aut_num_name("AS2340 ").is_err());
    assert!(parse_aut_num_name("AS-2340").is_err());
    assert!(parse_aut_num_name("jfwoe").is_err());
}

#[test]
fn parse_name_lower_case_and_limits() {
    assert_eq!(parse_aut_num_name("as64500"), Ok(64500));
    assert_eq!(parse_aut_num_name("AS4294967295"), Ok(4294967295));
    assert_eq!(parse_aut_num_name("AS4294967296"), Err(AsNameError::OutOfRange));
    assert_eq!(parse_aut_num_name("AS"), Err(AsNameError::Malformed));
    assert_eq!(parse_aut_num_name(""), Err(AsNameError::Malformed));
}
