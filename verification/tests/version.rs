use orbit::version::{
    get_target_version, is_accepted, is_compatible, AnyVersion, PartialVersion, Version,
    VersionError,
};

fn v(major: u32, minor: u32, patch: u32) -> Version {
    Version::new(major, minor, patch)
}

#[test]
fn version_is_written_with_dots() {
    assert_eq!(v(0, 5, 19).to_string(), "0.5.19");
    assert_eq!(v(0, 0, 0).to_string(), "0.0.0");
    assert_eq!(v(4294967295, 10, 7).to_string(), "4294967295.10.7");
}

#[test]
fn version_is_read_back() {
    assert_eq!(Version::from_str("0.5.19"), Some(v(0, 5, 19)));
    assert_eq!(Version::from_str("1.0.0"), Some(v(1, 0, 0)));
    assert_eq!(Version::from_str("01.002.3"), Some(v(1, 2, 3)));
    assert_eq!(Version::from_str(&v(12, 0, 340).to_string()), Some(v(12, 0, 340)));
}

#[test]
fn version_refuses_other_texts() {
    for text in ["", "1", "1.2", "1.2.3.4", "1..3", ".1.2", "1.2.", "a.b.c", "1.2.x", "-1.2.3", "1.2.3 ", "4294967296.0.0"] {
        assert_eq!(Version::from_str(text), None);
    }
}

#[test]
fn versions_are_ordered_from_the_left() {
    assert!(v(1, 2, 3).le(&v(1, 2, 3)));
    assert!(v(1, 2, 3).le(&v(1, 2, 4)));
    assert!(v(1, 9, 9).le(&v(2, 0, 0)));
    assert!(!v(2, 0, 0).le(&v(1, 9, 9)));
    assert!(!v(1, 3, 0).le(&v(1, 2, 9)));
}

#[test]
fn partial_version_is_read() {
    assert_eq!(PartialVersion::from_str("2"), Some(PartialVersion::new().major(2)));
    assert_eq!(PartialVersion::from_str("4.2"), Some(PartialVersion::new().major(4).minor(2)));
    assert_eq!(
        PartialVersion::from_str("1.0.0"),
        Some(PartialVersion::new().major(1).minor(0).patch(0))
    );
    assert_eq!(PartialVersion::from_str(""), None);
    assert_eq!(PartialVersion::from_str("1."), None);
    assert_eq!(PartialVersion::from_str("1.2.3.4"), None);
}

#[test]
fn any_version_is_read() {
    assert_eq!(AnyVersion::from_str("latest"), Some(AnyVersion::Latest));
    assert_eq!(AnyVersion::from_str("dev"), Some(AnyVersion::Dev));
    assert_eq!(
        AnyVersion::from_str("1.2"),
        Some(AnyVersion::Specific(PartialVersion::new().major(1).minor(2)))
    );
    assert_eq!(AnyVersion::from_str("newest"), None);
}

#[test]
fn compatible_versions_agree_on_what_is_given() {
    let p = PartialVersion::new().major(1).minor(2);
    assert!(is_compatible(&p, &v(1, 2, 0)));
    assert!(is_compatible(&p, &v(1, 2, 99)));
    assert!(!is_compatible(&p, &v(1, 3, 0)));
    assert!(!is_compatible(&p, &v(2, 2, 0)));
    assert!(is_accepted(&AnyVersion::Latest, &v(9, 9, 9)));
    assert!(!is_accepted(&AnyVersion::Dev, &v(9, 9, 9)));
}

#[test]
fn target_is_the_highest_that_fits() {
    let space = vec![v(1, 0, 0), v(1, 2, 3), v(0, 9, 0), v(1, 2, 1), v(2, 0, 0), v(1, 10, 0)];
    assert_eq!(get_target_version(&AnyVersion::Latest, &space), Ok(v(2, 0, 0)));
    let major = AnyVersion::Specific(PartialVersion::new().major(1));
    assert_eq!(get_target_version(&major, &space), Ok(v(1, 10, 0)));
    let minor = AnyVersion::Specific(PartialVersion::new().major(1).minor(2));
    assert_eq!(get_target_version(&minor, &space), Ok(v(1, 2, 3)));
    let exact = AnyVersion::Specific(PartialVersion::new().major(1).minor(2).patch(1));
    assert_eq!(get_target_version(&exact, &space), Ok(v(1, 2, 1)));
}

#[test]
fn target_fails_without_a_fit() {
    let space = vec![v(1, 0, 0)];
    let other = AnyVersion::Specific(PartialVersion::new().major(3));
    assert_eq!(get_target_version(&other, &space), Err(VersionError::UnknownVersion));
    assert_eq!(get_target_version(&AnyVersion::Latest, &Vec::new()), Err(VersionError::UnknownVersion));
    assert_eq!(get_target_version(&AnyVersion::Dev, &space), Err(VersionError::DevRequested));
}
