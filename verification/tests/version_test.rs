use suiup::handlers::release::ensure_version_prefix;
use suiup::handlers::self_::{Ver, VersionError};

#[test]
fn test_ver_from_str_valid_versions() {
    let v1 = Ver::from_str("1.2.3").unwrap();
    assert_eq!(v1.major, 1);
    assert_eq!(v1.minor, 2);
    assert_eq!(v1.patch, 3);

    let v2 = Ver::from_str("v1.2.3").unwrap();
    assert_eq!(v2.major, 1);
    assert_eq!(v2.minor, 2);
    assert_eq!(v2.patch, 3);

    let v3 = Ver::from_str("0.0.0").unwrap();
    assert_eq!(v3.major, 0);
    assert_eq!(v3.minor, 0);
    assert_eq!(v3.patch, 0);

    let v4 = Ver::from_str("v10.20.30").unwrap();
    assert_eq!(v4.major, 10);
    assert_eq!(v4.minor, 20);
    assert_eq!(v4.patch, 30);
}

#[test]
fn test_ver_from_str_invalid_versions() {
    assert!(Ver::from_str("1.2").is_err());
    assert!(Ver::from_str("1.2.3.4").is_err());
    assert!(Ver::from_str("1").is_err());
    assert!(Ver::from_str("").is_err());
    assert!(Ver::from_str("a.b.c").is_err());
    assert!(Ver::from_str("1.a.3").is_err());
    assert!(Ver::from_str("v1.2.c").is_err());
}

#[test]
fn test_ver_equality() {
    let v1 = Ver::from_str("1.2.3").unwrap();
    let v2 = Ver::from_str("v1.2.3").unwrap();
    let v3 = Ver::from_str("1.2.4").unwrap();

    assert_eq!(v1, v2);
    assert_eq!(v2, v1);
    assert_ne!(v1, v3);
    assert_ne!(v3, v1);
}

#[test]
fn test_ver_ordering() {
    let v1_0_0 = Ver::from_str("1.0.0").unwrap();
    let v2_0_0 = Ver::from_str("2.0.0").unwrap();
    assert!(v1_0_0 < v2_0_0);
    assert!(v2_0_0 > v1_0_0);

    let v1_1_0 = Ver::from_str("1.1.0").unwrap();
    let v1_2_0 = Ver::from_str("1.2.0").unwrap();
    assert!(v1_1_0 < v1_2_0);
    assert!(v1_2_0 > v1_1_0);

    let v1_1_1 = Ver::from_str("1.1.1").unwrap();
    let v1_1_2 = Ver::from_str("1.1.2").unwrap();
    assert!(v1_1_1 < v1_1_2);
    assert!(v1_1_2 > v1_1_1);

    let v1 = Ver::from_str("1.2.3").unwrap();
    let v2 = Ver::from_str("v1.2.3").unwrap();
    assert!(v1 <= v2);
    assert!(v1 >= v2);

    let v0_0_4 = Ver::from_str("0.0.4").unwrap();
    let v0_0_3 = Ver::from_str("0.0.3").unwrap();
    assert!(v0_0_3 < v0_0_4);
    assert!(v0_0_4 > v0_0_3);

    let current = Ver::from_str("0.0.4").unwrap();
    let latest = Ver::from_str("0.0.3").unwrap();
    assert!(current >= latest);
    assert!(latest < current);
}

#[test]
fn test_ver_display() {
    let v1 = Ver::from_str("1.2.3").unwrap();
    assert_eq!(v1.to_string(), "1.2.3");

    let v2 = Ver::from_str("v10.20.30").unwrap();
    assert_eq!(v2.to_string(), "10.20.30");

    let v3 = Ver::from_str("0.0.0").unwrap();
    assert_eq!(v3.to_string(), "0.0.0");
}

#[test]
fn ver_errors_and_order_agree_with_derived_order() {
    assert_eq!(Ver::from_str("1.2"), Err(VersionError::InvalidFormat));
    assert_eq!(Ver::from_str("1.x.3"), Err(VersionError::InvalidNumber));
    assert_eq!(Ver::from_str("+1.2.3").unwrap().major, 1);
    assert_eq!(Ver::from_str("vv1.2.3").unwrap().minor, 2);
    assert!(Ver::from_str("1.2.99999999999999999999999").is_err());
    let pairs = [("1.2.3", "1.2.4"), ("1.3.0", "1.2.9"), ("2.0.0", "2.0.0"), ("0.9.9", "1.0.0")];
    for (a, b) in pairs {
        let a = Ver::from_str(a).unwrap();
        let b = Ver::from_str(b).unwrap();
        assert_eq!(a.is_older_than(&b), a < b);
        assert_eq!(a.same_as(&b), a == b);
    }
}

#[test]
fn ver_print_then_parse_roundtrip() {
    for text in ["0.0.0", "1.22.333", "v4.5.6", "18446744073709551615.0.1"] {
        let v = Ver::from_str(text).unwrap();
        assert_eq!(Ver::from_str(&v.to_string()).unwrap(), v);
    }
}

#[test]
fn prefixed_versions_parse_alike() {
    for s in ["1.2.3", "v1.2.3", "1.2", "a.b.c", "10.20.30"] {
        assert_eq!(Ver::from_str(&ensure_version_prefix(s)), Ver::from_str(s));
    }
}

#[test]
fn printed_versions_parse_back() {
    for v in [Ver { major: 0, minor: 0, patch: 0 }, Ver { major: 12, minor: 3, patch: 456 }] {
        assert_eq!(Ver::from_str(&v.to_string()), Ok(v));
    }
}
