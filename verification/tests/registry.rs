use edm::{get_op, DivModError, Strategy};

#[test]
fn lookup_of_unknown_name_fails_with_the_name() {
    match get_op("bogus") {
        Err(DivModError::Unknown(name)) => assert_eq!(name, "bogus"),
        Ok(s) => panic!("bogus resolved to {:?}", s),
    }
}

#[test]
fn unknown_name_message() {
    let e = get_op("bogus").unwrap_err();
    assert_eq!(e.to_string(), "unknown divmod bogus");
}

#[test]
fn lookup_of_each_canonical_name() {
    assert_eq!(get_op("native").unwrap(), Strategy::Native);
    assert_eq!(get_op("fma").unwrap(), Strategy::Fma);
    assert_eq!(get_op("rational-approx").unwrap(), Strategy::RationalApprox);
    assert_eq!(get_op("rational-exact").unwrap(), Strategy::RationalExact);
    assert_eq!(get_op("bitexact").unwrap(), Strategy::BitExact);
}

#[test]
fn names_round_trip_through_lookup() {
    for s in [
        Strategy::Native,
        Strategy::Fma,
        Strategy::RationalApprox,
        Strategy::RationalExact,
        Strategy::BitExact,
    ] {
        assert_eq!(get_op(s.name()).unwrap(), s);
    }
}

#[test]
fn lookup_is_case_sensitive_and_exact() {
    assert!(get_op("Native").is_err());
    assert!(get_op("FMA").is_err());
    assert!(get_op("rational").is_err());
    assert!(get_op("rational-exact ").is_err());
    assert!(get_op("").is_err());
    assert!(get_op("bitexac").is_err());
    assert!(get_op("bitexact∞").is_err());
}
