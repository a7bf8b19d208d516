use snakepit::lockfile::{LockfileGenerator, PackageSource};
use snakepit::pep440::Version;
use snakepit::resolver::{PyPIInfo, PyPIPackageInfo, PyPIRelease};
use snakepit::walk::ResolveError;

fn file(name: &str, digests: Option<Vec<(&str, &str)>>) -> PyPIRelease {
    PyPIRelease {
        filename: name.to_string(),
        url: format!("https://files.example/{}", name),
        size: Some(10),
        upload_time: None,
        digests: digests.map(|d| d.into_iter().map(|(k, v)| (k.to_string(), v.to_string())).collect()),
    }
}

fn sample() -> PyPIPackageInfo {
    PyPIPackageInfo {
        info: PyPIInfo {
            name: "pkg".to_string(),
            version: "2.0".to_string(),
            summary: None,
            description: None,
            author: None,
            license: None,
            home_page: None,
            requires_dist: Some(vec![
                "requests[socks]>=2.25.0,!=2.26.0; python_version>='3.6'".to_string(),
                "!!!".to_string(),
                "urllib3".to_string(),
                "six>=what".to_string(),
            ]),
        },
        releases: vec![
            ("1.0".to_string(), vec![file("pkg-1.0.tar.gz", Some(vec![("sha256", "old")]))]),
            (
                "2.0".to_string(),
                vec![
                    file("pkg-2.0.tar.gz", Some(vec![("md5", "m"), ("sha256", "abc"), ("sha256", "later")])),
                    file("pkg-2.0.zip", None),
                    file("pkg-2.0.egg", Some(vec![("md5", "m")])),
                    file("pkg-2.0-py3-none-any.whl", Some(vec![("sha256", "def")])),
                ],
            ),
            ("2.0".to_string(), vec![file("shadowed", Some(vec![("sha256", "zzz")]))]),
        ],
    }
}

#[test]
fn locked_package_takes_hashes_and_pins_from_metadata() {
    let version = Version::parse("2.0").unwrap();
    let locked = LockfileGenerator::create_locked_package("pkg", &version, &sample());
    assert_eq!(locked.name, "pkg");
    assert_eq!(locked.version, "2.0");
    assert_eq!(locked.hashes, vec!["sha256:abc", "sha256:def"]);
    assert_eq!(locked.dependencies, vec!["requests==2.0", "urllib3==2.0"]);
    match locked.source {
        PackageSource::PyPI { url } => assert_eq!(url, "https://pypi.org/simple/pkg/"),
        _ => panic!("expected the index as the source"),
    }
}

#[test]
fn locked_package_of_an_unlisted_version_has_no_hashes() {
    let version = Version::parse("3.0").unwrap();
    let locked = LockfileGenerator::create_locked_package("pkg", &version, &sample());
    assert_eq!(locked.version, "3.0");
    assert!(locked.hashes.is_empty());
    assert_eq!(locked.dependencies, vec!["requests==3.0", "urllib3==3.0"]);
    let mut bare = sample();
    bare.info.requires_dist = None;
    let locked = LockfileGenerator::create_locked_package("pkg", &version, &bare);
    assert!(locked.dependencies.is_empty());
}

#[test]
fn generator_names_the_metadata_it_lacks() {
    let mut generator = LockfileGenerator::new();
    let resolved = vec![
        ("pkg".to_string(), Version::parse("2.0").unwrap()),
        ("other".to_string(), Version::parse("1.0").unwrap()),
    ];
    assert!(matches!(
        generator.generate_from_solver(&resolved, 5),
        Err(ResolveError::Needs(n)) if n == "pkg"
    ));
    generator.resolver.remember("pkg".to_string(), Some(sample()));
    assert!(matches!(
        generator.generate_from_solver(&resolved, 5),
        Err(ResolveError::Needs(n)) if n == "other"
    ));
    generator.resolver.remember("other".to_string(), None);
    assert!(matches!(
        generator.generate_from_solver(&resolved, 5),
        Err(ResolveError::NotFound(n)) if n == "other"
    ));
    let only = vec![("pkg".to_string(), Version::parse("2.0").unwrap())];
    let lockfile = generator.generate_from_solver(&only, 5).unwrap();
    assert_eq!(lockfile.metadata.timestamp, 5);
    assert_eq!(lockfile.packages.len(), 1);
    assert_eq!(lockfile.packages[0].hashes, vec!["sha256:abc", "sha256:def"]);
    assert!(lockfile.verify_integrity());
    let empty = generator.generate_from_solver(&Vec::new(), 9).unwrap();
    assert!(empty.packages.is_empty());
}
