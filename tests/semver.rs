use samurai::{ParseError, PatternError, SemVer};

#[test]
fn semver_from_string() {
    let v = SemVer::from("1.8.9").unwrap();

    assert_eq!(v.major, 1);
    assert_eq!(v.minor, 8);
    assert_eq!(v.patch, 9);
}

#[test]
fn semver_from_less_parts() {
    let v1 = SemVer::from("10").unwrap();

    assert_eq!(v1.major, 10);
    assert_eq!(v1.minor, 0);
    assert_eq!(v1.patch, 0);

    let v2 = SemVer::from("6.9").unwrap();

    assert_eq!(v2.major, 6);
    assert_eq!(v2.minor, 9);
    assert_eq!(v2.patch, 0);
}

#[test]
fn semver_from_too_many_parts_is_an_error() {
    assert_eq!(SemVer::from("1.5.7.9"), Err(ParseError::TooManyParts));
}

#[test]
fn semver_from_empty_string_is_an_error() {
    assert_eq!(
        SemVer::from(""),
        Err(ParseError::InvalidSegment(String::new()))
    );
}

#[test]
fn semver_from_non_version_is_an_error() {
    assert_eq!(
        SemVer::from("hi.there"),
        Err(ParseError::InvalidSegment("hi".to_string()))
    );
}

#[test]
fn semver_ord_two_instances() {
    let v1 = SemVer::new(7, 8, 9);
    let v2 = SemVer::new(8, 5, 8);
    assert!(v1 < v2);

    let v1 = SemVer::new(5, 2, 8);
    let v2 = SemVer::new(5, 1, 9);
    assert!(v1 > v2);
    assert!(v1 >= v2);

    let v1 = SemVer::new(1, 2, 7);
    let v2 = SemVer::new(1, 2, 5);
    assert!(v1 > v2);

    let v1 = SemVer::new(6, 9, 9);
    let v2 = SemVer::new(6, 9, 9);
    assert!(v1 == v2);

    let v1 = SemVer::new(8, 1, 20);
    let v2 = SemVer::new(8, 81, 20);
    assert!(v1 != v2);
}

#[test]
fn semver_check_against_pattern() {
    let v = SemVer::from("7.8.9").unwrap();
    assert!(v.check("<8.5.8").unwrap());

    let v = SemVer::from("5.2.8").unwrap();
    assert!(v.check(">5.1.9").unwrap());
    assert!(v.check(">=5.1.9").unwrap());

    let v = SemVer::from("1.2.7").unwrap();
    assert!(v.check(">1.2.5").unwrap());

    let v = SemVer::from("6.9.9").unwrap();
    assert!(v.check("=6.9.9").unwrap());

    let v = SemVer::from("8.10.5").unwrap();
    assert!(v.check("^8.9.1").unwrap());

    let v = SemVer::from("30.11.21").unwrap();
    assert!(v.check("~30.11.20").unwrap());
}

#[test]
fn semver_check_against_invalid_pattern_is_an_error() {
    let v = SemVer::new(1, 0, 69);
    assert_eq!(
        v.check("seeya5.8.10"),
        Err(PatternError::UnknownOperator("seeya".to_string()))
    );
}

#[test]
fn semver_is_not_compatible_with_major_bump() {
    let v1 = SemVer::new(8, 10, 5);
    let v2 = SemVer::new(9, 5, 1);

    assert!(!v1.is_compatible(&v2));
}

#[test]
fn semver_is_compatible_with_minor_bump() {
    let v1 = SemVer::new(8, 10, 5);
    let v2 = SemVer::new(8, 9, 1);

    assert!(v1.is_compatible(&v2));
}

#[test]
fn semver_is_compatible_with_patch_bump() {
    let v1 = SemVer::new(8, 10, 5);
    let v2 = SemVer::new(8, 10, 4);

    assert!(v1.is_compatible(&v2));
}

#[test]
fn semver_is_compatible_with_patch_bump_on_beta() {
    let v1 = SemVer::new(0, 10, 6);
    let v2 = SemVer::new(0, 10, 5);

    assert!(v1.is_compatible(&v2));
}

#[test]
fn semver_is_not_compatible_with_minor_bump_on_beta() {
    let v1 = SemVer::new(0, 10, 5);
    let v2 = SemVer::new(0, 9, 20);

    assert!(!v1.is_compatible(&v2));
}

#[test]
fn semver_is_not_featureless_with_major_bump() {
    let v1 = SemVer::new(31, 9, 5);
    let v2 = SemVer::new(30, 10, 20);

    assert!(!v1.is_featureless(&v2));
}

#[test]
fn semver_is_not_featureless_with_minor_bump() {
    let v1 = SemVer::new(30, 11, 5);
    let v2 = SemVer::new(30, 9, 20);

    assert!(!v1.is_featureless(&v2));
}

#[test]
fn semver_is_featureless_with_patch_bump() {
    let v1 = SemVer::new(30, 11, 21);
    let v2 = SemVer::new(30, 11, 20);

    assert!(v1.is_featureless(&v2));
}


#[test]
fn semver_agrees_with_version() {
    let s = SemVer::new(1, 5, 7);
    assert_eq!(s.check("^1.2.9"), Ok(true));
    assert_eq!(s.check("~1.5.4"), Ok(true));
    assert_eq!(s.check("~1.6.2"), Ok(false));
    assert!(!s.is_compatible(&SemVer::new(0, 8, 1)));
    assert_eq!(s.compare(&SemVer::new(1, 5, 8)), std::cmp::Ordering::Less);
    assert_eq!(SemVer::from("4294967296"), Err(ParseError::InvalidSegment("4294967296".to_string())));
    assert_eq!(s.check("?1.0"), Err(PatternError::UnknownOperator("?".to_string())));
}
