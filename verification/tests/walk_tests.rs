use snakepit::dependency::{Dependency, ProjectDependencies};
use snakepit::resolver::{PyPIInfo, PyPIPackageInfo, ResolvedDependency, VersionChoiceError};
use snakepit::text::includes;
use snakepit::walk::{DependencyResolver, ResolveError};

fn metadata(name: &str, current: &str, versions: &[&str], needs: &[&str]) -> PyPIPackageInfo {
    PyPIPackageInfo {
        info: PyPIInfo {
            name: name.to_string(),
            version: current.to_string(),
            summary: None,
            description: None,
            author: None,
            license: None,
            home_page: None,
            requires_dist: if needs.is_empty() {
                None
            } else {
                Some(needs.iter().map(|s| s.to_string()).collect())
            },
        },
        releases: versions.iter().map(|s| (s.to_string(), Vec::new())).collect(),
    }
}

fn declared(name: &str, version: Option<&str>, constraint: Option<&str>) -> Dependency {
    Dependency {
        name: name.to_string(),
        version: version.map(|s| s.to_string()),
        version_constraint: constraint.map(|s| s.to_string()),
        is_dev: false,
        source: None,
    }
}

fn stocked(entries: Vec<(&str, Option<PyPIPackageInfo>)>) -> DependencyResolver {
    let mut r = DependencyResolver::new();
    for (name, info) in entries {
        r.remember(name.to_string(), info);
    }
    r
}

fn shape(d: &ResolvedDependency) -> String {
    let below: Vec<String> = d.dependencies.iter().map(shape).collect();
    format!("{}@{}[{}]", d.name, d.version, below.join(","))
}

#[test]
fn walk_builds_the_tree() {
    let r = stocked(vec![
        ("app", Some(metadata("app", "2.0.0", &["1.0.0", "2.0.0"], &["lib (>=1.0)", "tool"]))),
        ("lib", Some(metadata("lib", "1.5.0", &["1.5.0"], &["base"]))),
        ("tool", Some(metadata("tool", "0.3.0", &["0.3.0"], &[]))),
        ("base", Some(metadata("base", "7.0.0", &["7.0.0"], &[]))),
    ]);
    let node = r.resolve_recursive(&declared("app", None, None), &Vec::new(), 10).unwrap();
    assert_eq!(shape(&node), "app@2.0.0[lib@1.5.0[base@7.0.0[]],tool@0.3.0[]]");
    assert!(!node.is_dev);
    assert_eq!(node.source, None);
}

#[test]
fn walk_chooses_the_requested_version() {
    let r = stocked(vec![
        ("app", Some(metadata("app", "9.0.0", &["1.0.0", "1.4.0", "2.0.0"], &[]))),
    ]);
    let at_least = r.resolve_recursive(&declared("app", Some("1.2.0"), Some(">=")), &Vec::new(), 3);
    assert_eq!(at_least.unwrap().version, "2.0.0");
    let exact = r.resolve_recursive(&declared("app", Some("1.4.0"), Some("==")), &Vec::new(), 3);
    assert_eq!(exact.unwrap().version, "1.4.0");
    let other = r.resolve_recursive(&declared("app", Some("1.4.0"), Some("<")), &Vec::new(), 3);
    assert_eq!(other.unwrap().version, "9.0.0");
    let missing = r.resolve_recursive(&declared("app", Some("3.0.0"), Some("==")), &Vec::new(), 3);
    assert!(matches!(
        missing,
        Err(ResolveError::Choice(VersionChoiceError::ExactVersionNotFound))
    ));
}

#[test]
fn walk_passes_over_extras_and_blank_requirements() {
    let r = stocked(vec![
        (
            "app",
            Some(metadata(
                "app",
                "1.0.0",
                &["1.0.0"],
                &["socks ; extra == 'socks'", "   ", "lib"],
            )),
        ),
        ("lib", Some(metadata("lib", "1.0.0", &["1.0.0"], &[]))),
    ]);
    let node = r.resolve_recursive(&declared("app", None, None), &Vec::new(), 10).unwrap();
    assert_eq!(shape(&node), "app@1.0.0[lib@1.0.0[]]");
}

#[test]
fn walk_does_not_enter_a_package_below_itself() {
    let r = stocked(vec![
        ("a", Some(metadata("a", "1.0.0", &["1.0.0"], &["b"]))),
        ("b", Some(metadata("b", "1.0.0", &["1.0.0"], &["a", "c"]))),
        ("c", Some(metadata("c", "1.0.0", &["1.0.0"], &["b", "a"]))),
    ]);
    let node = r.resolve_recursive(&declared("a", None, None), &Vec::new(), 10).unwrap();
    assert_eq!(shape(&node), "a@1.0.0[b@1.0.0[c@1.0.0[]]]");
    let seen = vec!["c".to_string()];
    let node = r.resolve_recursive(&declared("a", None, None), &seen, 10).unwrap();
    assert_eq!(shape(&node), "a@1.0.0[b@1.0.0[]]");
}

#[test]
fn walk_is_cut_at_the_depth() {
    let r = stocked(vec![
        ("a", Some(metadata("a", "1.0.0", &["1.0.0"], &["b"]))),
        ("b", Some(metadata("b", "1.0.0", &["1.0.0"], &["c"]))),
        ("c", Some(metadata("c", "1.0.0", &["1.0.0"], &[]))),
    ]);
    let dep = declared("a", None, None);
    assert_eq!(shape(&r.resolve_recursive(&dep, &Vec::new(), 0).unwrap()), "a@1.0.0[]");
    assert_eq!(shape(&r.resolve_recursive(&dep, &Vec::new(), 1).unwrap()), "a@1.0.0[b@1.0.0[]]");
    assert_eq!(
        shape(&r.resolve_recursive(&dep, &Vec::new(), 2).unwrap()),
        "a@1.0.0[b@1.0.0[c@1.0.0[]]]"
    );
}

#[test]
fn walk_names_the_metadata_it_lacks() {
    let mut r = stocked(vec![("a", Some(metadata("a", "1.0.0", &["1.0.0"], &["b", "c"])))]);
    let dep = declared("a", None, None);
    assert!(matches!(r.resolve_recursive(&dep, &Vec::new(), 5), Err(ResolveError::Needs(n)) if n == "b"));
    r.remember("b".to_string(), None);
    assert!(matches!(r.resolve_recursive(&dep, &Vec::new(), 5), Err(ResolveError::Needs(n)) if n == "c"));
    r.remember("c".to_string(), Some(metadata("c", "3.0.0", &["3.0.0"], &[])));
    let node = r.resolve_recursive(&dep, &Vec::new(), 5).unwrap();
    assert_eq!(shape(&node), "a@1.0.0[c@3.0.0[]]");
    let unknown = declared("zzz", None, None);
    assert!(matches!(r.resolve_recursive(&unknown, &Vec::new(), 5), Err(ResolveError::Needs(n)) if n == "zzz"));
    r.remember("zzz".to_string(), None);
    assert!(matches!(r.resolve_recursive(&unknown, &Vec::new(), 5), Err(ResolveError::NotFound(n)) if n == "zzz"));
}

#[test]
fn resolver_keeps_what_it_held_first() {
    let mut r = DependencyResolver::new();
    assert!(r.fetch_package_info("a").is_none());
    r.remember("a".to_string(), Some(metadata("a", "1.0.0", &["1.0.0"], &[])));
    r.remember("a".to_string(), Some(metadata("a", "2.0.0", &["2.0.0"], &[])));
    r.remember("a".to_string(), None);
    assert_eq!(r.known.len(), 1);
    let entry = r.fetch_package_info("a").unwrap().as_ref().unwrap();
    assert_eq!(entry.info.version, "1.0.0");
    r.remember("b".to_string(), None);
    assert!(r.fetch_package_info("b").unwrap().is_none());
    assert!(r.fetch_package_info("c").is_none());
}

#[test]
fn project_walk_marks_development_dependencies() {
    let r = stocked(vec![
        ("a", Some(metadata("a", "1.0.0", &["1.0.0"], &["b"]))),
        ("b", Some(metadata("b", "2.0.0", &["2.0.0"], &["a"]))),
        ("t", Some(metadata("t", "3.0.0", &["3.0.0"], &["a", "b", "u"]))),
        ("u", Some(metadata("u", "4.0.0", &["4.0.0"], &[]))),
    ]);
    let mut project = ProjectDependencies::new();
    project.dependencies.push(declared("a", None, None));
    project.dependencies.push(declared("b", None, None));
    project.dev_dependencies.push(declared("t", None, None));
    let all = r.resolve_dependencies(&project, 10).unwrap();
    let main: Vec<String> = all.dependencies.iter().map(shape).collect();
    assert_eq!(main, vec!["a@1.0.0[b@2.0.0[]]", "b@2.0.0[]"]);
    let dev: Vec<String> = all.dev_dependencies.iter().map(shape).collect();
    assert_eq!(dev, vec!["t@3.0.0[u@4.0.0[]]"]);
    assert!(all.dependencies.iter().all(|d| !d.is_dev));
    assert!(all.dev_dependencies.iter().all(|d| d.is_dev));
    assert!(!all.dev_dependencies[0].dependencies[0].is_dev);
    assert_eq!(all.to_requirements_txt().contains("a==1.0.0"), true);
}

#[test]
fn project_walk_fails_on_the_first_root_that_fails() {
    let r = stocked(vec![
        ("a", Some(metadata("a", "1.0.0", &["1.0.0"], &[]))),
        ("gone", None),
    ]);
    let mut project = ProjectDependencies::new();
    project.dependencies.push(declared("a", None, None));
    project.dependencies.push(declared("gone", None, None));
    project.dependencies.push(declared("later", None, None));
    assert!(matches!(
        r.resolve_dependencies(&project, 10),
        Err(ResolveError::NotFound(n)) if n == "gone"
    ));
    let mut project = ProjectDependencies::new();
    project.dev_dependencies.push(declared("later", None, None));
    assert!(matches!(
        r.resolve_dependencies(&project, 10),
        Err(ResolveError::Needs(n)) if n == "later"
    ));
}

#[test]
fn includes_finds_whole_names_only() {
    let v = vec!["alpha".to_string(), "beta".to_string()];
    assert!(includes(&v, "alpha"));
    assert!(includes(&v, "beta"));
    assert!(!includes(&v, "alph"));
    assert!(!includes(&v, ""));
    assert!(!includes(&Vec::new(), "alpha"));
}
