use snakepit::pep440::{ParseError, Version};

fn v(s: &str) -> Version {
    Version::parse(s).unwrap()
}

#[test]
fn test_simple_version_parsing() {
    let v = Version::parse("1.2.3").unwrap();
    assert_eq!(v.release[0], 1);
    assert_eq!(v.release[1], 2);
    assert_eq!(v.release[2], 3);
}

#[test]
fn test_zero_version() {
    let v = Version::parse("0.0.0").unwrap();
    assert_eq!(v.release[0], 0);
    assert_eq!(v.release[1], 0);
    assert_eq!(v.release[2], 0);
}

#[test]
fn test_large_version_numbers() {
    let v = Version::parse("100.200.300").unwrap();
    assert_eq!(v.release[0], 100);
    assert_eq!(v.release[1], 200);
    assert_eq!(v.release[2], 300);
}

#[test]
fn ordering_of_named_versions() {
    assert!(v("1.0").precedes(&v("1.0.1")));
    assert!(v("2.0a1").precedes(&v("2.0")));
    assert!(v("1.0.dev1").precedes(&v("1.0")));
    assert!(v("1.0").precedes(&v("1.0.post1")));
    assert!(v("1.0a1").precedes(&v("1.0.dev1")));
    assert!(v("1.0a1.dev1").precedes(&v("1.0a1")));
    assert!(v("1.0a1").precedes(&v("1.0rc1")));
    assert!(v("1.0rc1").precedes(&v("1.0")));
    assert!(v("1!0.1").order(&v("2.0")) == 1);
    assert_eq!(v("1.0").order(&v("1.0.0")), 0);
    assert_eq!(v("1.0").order(&v("1.0+abc")), -1);
    assert_eq!(v("1.0+abc").order(&v("1.0+abd")), -1);
    assert_eq!(v("1.0a2").order(&v("1.0b1")), -1);
}

#[test]
fn ordering_is_antisymmetric_and_transitive_on_samples() {
    let texts = [
        "1.0.dev1", "1.0a1", "1.0a2", "1.0b1", "1.0rc1", "1.0", "1.0.0", "1.0+local", "1.0.post1",
        "1.0.post1.dev2", "1.0.1", "1.1", "2.0a1", "2.0", "1!0.5", "0.9",
    ];
    let vs: Vec<Version> = texts.iter().map(|t| v(t)).collect();
    for a in &vs {
        assert_eq!(a.order(a), 0);
        for b in &vs {
            assert_eq!(a.order(b), -b.order(a));
            for c in &vs {
                if a.order(b) <= 0 && b.order(c) <= 0 {
                    assert!(a.order(c) <= 0);
                    if a.order(b) < 0 || b.order(c) < 0 {
                        assert!(a.order(c) < 0);
                    }
                }
            }
        }
    }
}

#[test]
fn round_trip_on_samples() {
    let texts = [
        "1.0", "v1.2.3", "1!2.0", "1.0a1", "1.0alpha", "1.0.beta.2", "1.0-rc-3", "1.0c4",
        "1.0pre", "1.0preview9", "1.0.post1", "1.0-5", "1.0rev2", "1.0r", "1.0.dev3", "1.0dev",
        "1.0a1.post2.dev3+ubuntu.1", "  1.0  ", "007.08", "1.0+ABC-1_2.x",
    ];
    for t in texts {
        let parsed = v(t);
        let again = v(&parsed.format());
        assert_eq!(parsed.order(&again), 0, "{}", t);
        assert!(parsed == again, "{}", t);
    }
}

#[test]
fn formats_canonically() {
    assert_eq!(v("v1.2.3").format(), "1.2.3");
    assert_eq!(v("1!2.0").format(), "1!2.0");
    assert_eq!(v("0!2.0").format(), "2.0");
    assert_eq!(v("1.0alpha").format(), "1.0a0");
    assert_eq!(v("1.0-rc-3").format(), "1.0rc3");
    assert_eq!(v("1.0preview9").format(), "1.0rc9");
    assert_eq!(v("1.0-5").format(), "1.0.post5");
    assert_eq!(v("1.0r").format(), "1.0.post0");
    assert_eq!(v("1.0DEV").format(), "1.0.dev0");
    assert_eq!(v("1.0a1.post2.dev3+ubuntu.1").format(), "1.0a1.post2.dev3+ubuntu.1");
    assert_eq!(v("007.08").to_string(), "7.8");
}

#[test]
fn parses_segments() {
    let x = v("2!1.4.2b3.post4.dev5+deb.7");
    assert_eq!(x.epoch, 2);
    assert_eq!(x.release, vec![1, 4, 2]);
    assert_eq!(x.pre, Some(("b".to_string(), 3)));
    assert_eq!(x.post, Some(4));
    assert_eq!(x.dev, Some(5));
    assert_eq!(x.local, Some("deb.7".to_string()));
    let y = v("1.0");
    assert_eq!(y.epoch, 0);
    assert_eq!(y.pre, None);
    assert_eq!(y.post, None);
    assert_eq!(y.dev, None);
    assert_eq!(y.local, None);
}

#[test]
fn rejects_what_is_no_version() {
    for t in [
        "", "abc", "1.", ".1", "1..2", "1.0+", "1.0+a..b", "1.0+-a", "1.0 1", "1.0!", "!1", "1.0x",
        "1.0-", "1.0.", "99999999999999999999999", "1.0a99999999999999999999999", "1.0+a b",
        "1.0post1x",
    ] {
        assert_eq!(Version::parse(t).err(), Some(ParseError::InvalidVersionFormat), "{:?}", t);
    }
    assert!(Version::parse("18446744073709551615").is_ok());
    assert!(Version::parse("18446744073709551616").is_err());
}

#[test]
fn same_compares_segments() {
    assert!(v("1.0").same(&v("1.0")));
    assert!(!v("1.0").same(&v("1.0.0")));
    assert!(v("1.0") == v("1.0.0"));
    assert!(v("1.0") != v("1.0.1"));
    assert!(v("1!1.0") != v("1.0"));
    assert!(v("1.0a1") == v("1.0alpha1"));
    let c = v("1.0a1+x").clone();
    assert!(c == v("1.0a1+x"));
}
