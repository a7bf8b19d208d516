use snakepit::resolver::{find_best_version_static, next_best, parse_requirement_string_static, PyPIInfo, PyPIPackageInfo, VersionChoiceError};

fn package(current: &str, versions: &[&str]) -> PyPIPackageInfo {
    PyPIPackageInfo {
        info: PyPIInfo {
            name: "p".to_string(),
            version: current.to_string(),
            summary: None,
            description: None,
            author: None,
            license: None,
            home_page: None,
            requires_dist: None,
        },
        releases: versions.iter().map(|s| (s.to_string(), Vec::new())).collect(),
    }
}

#[test]
fn best_version_at_least() {
    let info = package("9.9.9", &["1.0.0", "1.2.0", "0.9.0", "not-a-version", "1.10.0", "1.10.0-rc.1", "2.0.0-alpha"]);
    let ge = Some(">=".to_string());
    assert_eq!(find_best_version_static(&info, "1.0.0", &ge), Ok("1.10.0".to_string()));
    assert_eq!(find_best_version_static(&info, "1.5", &ge), Ok("1.10.0".to_string()));
    assert_eq!(find_best_version_static(&info, "3.0.0", &ge), Ok("3.0.0".to_string()));
    assert_eq!(find_best_version_static(&info, "2.0.0-alpha", &ge), Ok("2.0.0-alpha".to_string()));
    assert_eq!(find_best_version_static(&info, "what", &ge), Err(VersionChoiceError::InvalidRequirement));
    assert_eq!(find_best_version_static(&package("1.0", &[]), "1.0.0", &ge), Ok("1.0.0".to_string()));
    let twice = package("1.0", &["1.0.0+b", "1.0.0+a"]);
    assert_eq!(find_best_version_static(&twice, "1.0.0", &ge), Ok("1.0.0+b".to_string()));
}

#[test]
fn best_version_exact_and_default() {
    let info = package("9.9.9", &["1.0.0", "1.2.0"]);
    let eq = Some("==".to_string());
    assert_eq!(find_best_version_static(&info, "1.2.0", &eq), Ok("1.2.0".to_string()));
    assert_eq!(find_best_version_static(&info, "1.2", &eq), Err(VersionChoiceError::ExactVersionNotFound));
    assert_eq!(find_best_version_static(&info, "1.2.0", &Some("<".to_string())), Ok("9.9.9".to_string()));
    assert_eq!(find_best_version_static(&info, "1.2.0", &None), Ok("9.9.9".to_string()));
}

#[test]
fn best_candidate_steps() {
    assert_eq!(next_best(None, 3, Some(true), None), Some(3));
    assert_eq!(next_best(None, 3, Some(false), None), None);
    assert_eq!(next_best(None, 3, None, Some(true)), None);
    assert_eq!(next_best(Some(1), 3, Some(true), Some(true)), Some(3));
    assert_eq!(next_best(Some(1), 3, Some(true), Some(false)), Some(1));
    assert_eq!(next_best(Some(1), 3, Some(true), None), Some(1));
    assert_eq!(next_best(Some(1), 3, Some(false), Some(true)), Some(1));
}

#[test]
fn requirements_in_words() {
    assert!(parse_requirement_string_static("").is_none());
    assert!(parse_requirement_string_static(" \t ").is_none());
    let d = parse_requirement_string_static("requests").unwrap();
    assert_eq!((d.name.as_str(), d.version.as_deref()), ("requests", None));
    let d = parse_requirement_string_static("  requests   (>=2.0)  ; extra ").unwrap();
    assert_eq!((d.name.as_str(), d.version.as_deref()), ("requests", Some("(>=2.0)")));
    assert_eq!(d.version_constraint, None);
    assert!(!d.is_dev);
    assert_eq!(d.source, None);
}
