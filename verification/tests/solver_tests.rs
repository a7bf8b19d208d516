use snakepit::constraint::Constraint;
use snakepit::markers::{compare_versions, parse_requirement, parse_version_specifiers, EnvironmentMarker, TargetEnvironment};
use snakepit::pep440::{ParseError, Version};
use snakepit::resolver::{PyPIInfo, PyPIPackageInfo};
use snakepit::solver::{
    best_version, classify, dependencies_of, find_package, solve, Assignment, Incompatibility, IncompatibilityCause,
    PartialSolution, SetRelation, SolveError, Solver, Status, Step, Term,
};

fn v(s: &str) -> Version {
    Version::parse(s).unwrap()
}

fn env() -> TargetEnvironment {
    TargetEnvironment {
        python_version: "3.11".to_string(),
        sys_platform: "linux".to_string(),
        platform_system: "Linux".to_string(),
        platform_machine: "x86_64".to_string(),
    }
}

fn package(name: &str, versions: &[&str], requires: &[&str]) -> PyPIPackageInfo {
    PyPIPackageInfo {
        info: PyPIInfo {
            name: name.to_string(),
            version: versions.last().map(|s| s.to_string()).unwrap_or_default(),
            summary: None,
            description: None,
            author: None,
            license: None,
            home_page: None,
            requires_dist: if requires.is_empty() { None } else { Some(requires.iter().map(|s| s.to_string()).collect()) },
        },
        releases: versions.iter().map(|s| (s.to_string(), Vec::new())).collect(),
    }
}

fn chosen(table: &[(String, Version)], name: &str) -> Option<String> {
    table.iter().find(|(n, _)| n == name).map(|(_, v)| v.format())
}

#[test]
fn range_semantics() {
    let r = Constraint::Range(v("1.0"), v("2.0"));
    assert!(r.allows(&v("1.5")));
    assert!(!r.allows(&v("2.0")));
    assert!(r.allows(&v("1.0")));
    assert!(!r.allows(&v("0.9")));
}

#[test]
fn constraint_variants() {
    assert!(Constraint::Any.allows(&v("1.0")));
    assert!(Constraint::Exact(v("1.0")).allows(&v("1.0")));
    assert!(Constraint::Exact(v("1.0")).allows(&v("1.0.0")));
    assert!(Constraint::Exact(v("1.0.0")).allows(&v("1")));
    assert!(!Constraint::Exact(v("1.0")).allows(&v("1.0.1")));
    assert!(!Constraint::Exact(v("1.0")).allows(&v("1.0+local")));
    let u = Constraint::Union(vec![Constraint::Exact(v("1.0")), Constraint::Exact(v("2.0"))]);
    assert!(u.allows(&v("2.0")));
    assert!(!u.allows(&v("3.0")));
    assert!(!Constraint::Union(vec![]).allows(&v("1.0")));
    let i = Constraint::Intersection(vec![Constraint::Range(v("1.0"), v("3.0")), Constraint::Not(Box::new(Constraint::Exact(v("2.0"))))]);
    assert!(i.allows(&v("1.5")));
    assert!(!i.allows(&v("2.0")));
    assert!(Constraint::Intersection(vec![]).allows(&v("2.0")));
}

#[test]
fn compatible_release() {
    let c = Constraint::from_operator("~=", "1.4.2").unwrap();
    assert!(c.allows(&v("1.4.2")));
    assert!(c.allows(&v("1.4.9")));
    assert!(!c.allows(&v("1.5.0")));
    assert!(!c.allows(&v("1.4.1")));
    let c = Constraint::from_operator("~=", "2.2").unwrap();
    assert!(c.allows(&v("2.9")));
    assert!(!c.allows(&v("3.0")));
    assert!(matches!(Constraint::from_operator("~=", "1").unwrap(), Constraint::Any));
    assert_eq!(Constraint::from_operator("~=", "18446744073709551615.0").err(), Some(ParseError::InvalidVersionFormat));
}

#[test]
fn constraints_from_operators() {
    assert!(Constraint::from_operator("==", "1.0").unwrap().allows(&v("1.0")));
    assert!(!Constraint::from_operator("==", "1.0").unwrap().allows(&v("1.1")));
    assert!(Constraint::from_operator(">=", "1.0").unwrap().allows(&v("1.0")));
    assert!(Constraint::from_operator(">=", "1.0").unwrap().allows(&v("7.0")));
    assert!(!Constraint::from_operator(">=", "1.0").unwrap().allows(&v("0.9")));
    assert!(!Constraint::from_operator(">", "1.0").unwrap().allows(&v("1.0")));
    assert!(Constraint::from_operator(">", "1.0").unwrap().allows(&v("1.1")));
    assert!(Constraint::from_operator("<", "1.0").unwrap().allows(&v("0.9")));
    assert!(!Constraint::from_operator("<", "1.0").unwrap().allows(&v("1.0")));
    assert!(Constraint::from_operator("<=", "1.0").unwrap().allows(&v("1.0")));
    assert!(!Constraint::from_operator("<=", "1.0").unwrap().allows(&v("1.1")));
    assert!(!Constraint::from_operator("!=", "1.0").unwrap().allows(&v("1.0")));
    assert!(Constraint::from_operator("!=", "1.0").unwrap().allows(&v("1.1")));
    assert_eq!(Constraint::from_operator("===", "1.0").err(), Some(ParseError::InvalidRequirementFormat));
    assert_eq!(Constraint::from_operator("=>", "1.0").err(), Some(ParseError::InvalidRequirementFormat));
    assert_eq!(Constraint::from_operator("==", "one").err(), Some(ParseError::InvalidVersionFormat));
}

#[test]
fn intersection_is_kept_shallow_and_allows_what_both_allow() {
    let a = Constraint::Range(v("1.0"), v("3.0"));
    let b = Constraint::Not(Box::new(Constraint::Exact(v("2.0"))));
    let c = Constraint::Range(v("0.5"), v("2.5"));
    let ab = a.intersect(&b);
    let abc = ab.intersect(&c);
    match &abc {
        Constraint::Intersection(members) => assert_eq!(members.len(), 3),
        other => panic!("{:?}", other),
    }
    let both = ab.intersect(&abc);
    match &both {
        Constraint::Intersection(members) => assert_eq!(members.len(), 5),
        other => panic!("{:?}", other),
    }
    for t in ["0.7", "1.0", "2.0", "2.4", "2.5", "2.9", "3.0"] {
        let x = v(t);
        assert_eq!(abc.allows(&x), a.allows(&x) && b.allows(&x) && c.allows(&x), "{}", t);
    }
    assert!(Constraint::Any.intersect(&a).same(&a));
    assert!(a.intersect(&Constraint::Any).same(&a));
    assert!(Constraint::Exact(v("1.0")).intersect(&Constraint::Exact(v("1.0"))).same(&Constraint::Exact(v("1.0"))));
    assert!(matches!(Constraint::Exact(v("1.0")).intersect(&Constraint::Exact(v("2.0"))), Constraint::Union(m) if m.is_empty()));
    assert!(a.intersect(&ab).same(&Constraint::Intersection(vec![a.clone(), b.clone(), a.clone()])));
}

#[test]
fn marker_evaluation() {
    let e = env();
    assert!(EnvironmentMarker { raw: "python_version >= \"3.8\"".to_string() }.evaluate(&e));
    assert!(!EnvironmentMarker { raw: "sys_platform == \"win32\"".to_string() }.evaluate(&e));
    assert!(EnvironmentMarker { raw: "sys_platform == 'linux'".to_string() }.evaluate(&e));
    assert!(EnvironmentMarker { raw: "sys_platform != 'win32'".to_string() }.evaluate(&e));
    assert!(!EnvironmentMarker { raw: "python_version<'3.8'".to_string() }.evaluate(&e));
    assert!(EnvironmentMarker { raw: "python_version == '3.11.0'".to_string() }.evaluate(&e));
    assert!(EnvironmentMarker { raw: "platform_system == \"Linux\"".to_string() }.evaluate(&e));
    assert!(!EnvironmentMarker { raw: "platform_system == \"Darwin\"".to_string() }.evaluate(&e));
    assert!(EnvironmentMarker { raw: "extra == 'test'".to_string() }.evaluate(&e));
    assert!(EnvironmentMarker { raw: "python_version >= 'three'".to_string() }.evaluate(&e));
    assert!(EnvironmentMarker { raw: "python_version ~= '3.8'".to_string() }.evaluate(&e));
    assert!(EnvironmentMarker { raw: "os_name == 'nt' and python_version >= '3.12'".to_string() }.evaluate(&e) == false);
    assert!(EnvironmentMarker { raw: "".to_string() }.evaluate(&e));
    assert!(compare_versions("3.11", ">=", "3.8"));
    assert!(!compare_versions("3.11", "<", "3.8"));
    assert!(compare_versions("3.11", "??", "3.8"));
    let p = TargetEnvironment::for_platform("linux", "x86_64");
    assert_eq!(p.python_version, "3.11");
    assert_eq!(p.sys_platform, "linux");
    assert_eq!(p.platform_system, "linux");
    assert_eq!(p.platform_machine, "x86_64");
}

#[test]
fn requirement_parsing() {
    let r = parse_requirement("requests[socks]>=2.25.0,!=2.26.0; python_version>='3.6'").unwrap();
    assert_eq!(r.name, "requests");
    assert_eq!(r.extras, vec!["socks"]);
    assert_eq!(r.version_specs.len(), 2);
    assert_eq!((r.version_specs[0].operator.as_str(), r.version_specs[0].version.as_str()), (">=", "2.25.0"));
    assert_eq!((r.version_specs[1].operator.as_str(), r.version_specs[1].version.as_str()), ("!=", "2.26.0"));
    assert_eq!(r.marker.as_ref().map(|m| m.raw.as_str()), Some("python_version>='3.6'"));
    let c = r.constraint().unwrap();
    assert!(c.allows(&v("2.25.0")));
    assert!(!c.allows(&v("2.26.0")));
    assert!(!c.allows(&v("2.24")));
}

#[test]
fn requirement_forms() {
    let r = parse_requirement("  numpy  ").unwrap();
    assert_eq!(r.name, "numpy");
    assert!(r.extras.is_empty());
    assert!(r.version_specs.is_empty());
    assert!(r.marker.is_none());
    assert!(matches!(r.constraint().unwrap(), Constraint::Any));
    let r = parse_requirement("a.b-c_d (>=1.0, <2)").unwrap();
    assert_eq!(r.name, "a.b-c_d");
    assert_eq!(r.version_specs.len(), 2);
    let r = parse_requirement("pkg[a, b ,c] ; extra == 'x'").unwrap();
    assert_eq!(r.extras, vec!["a", "b", "c"]);
    assert_eq!(r.marker.as_ref().map(|m| m.raw.as_str()), Some("extra == 'x'"));
    let r = parse_requirement("pkg 1.0").unwrap();
    assert_eq!((r.version_specs[0].operator.as_str(), r.version_specs[0].version.as_str()), ("==", "1.0"));
    assert_eq!(parse_requirement("pkg-==1.0").err(), Some(ParseError::InvalidVersionFormat));
    let r = parse_requirement("pkg-").err();
    assert_eq!(r, Some(ParseError::InvalidVersionFormat));
    let r = parse_requirement("pkg.x ; m").unwrap();
    assert_eq!(r.name, "pkg.x");
    assert_eq!(r.version_specs.len(), 0);
    assert_eq!(parse_requirement("").err(), Some(ParseError::InvalidRequirementFormat));
    assert_eq!(parse_requirement("-pkg").err(), Some(ParseError::InvalidRequirementFormat));
    assert_eq!(parse_requirement("pkg; a\nb").err(), Some(ParseError::InvalidRequirementFormat));
    assert_eq!(parse_requirement("pkg>=one").err(), Some(ParseError::InvalidVersionFormat));
    assert_eq!(parse_requirement("pkg===1.0").err(), Some(ParseError::InvalidRequirementFormat));
    assert_eq!(parse_requirement("pkg>=1.0,~>2").err(), Some(ParseError::InvalidVersionFormat));
    let specs = parse_version_specifiers("(>=1.0, , <2 ,~= 1.5)");
    let pairs: Vec<(&str, &str)> = specs.iter().map(|s| (s.operator.as_str(), s.version.as_str())).collect();
    assert_eq!(pairs, vec![(">=", "1.0"), ("<", "2"), ("~=", "1.5")]);
    assert!(parse_version_specifiers("").is_empty());
}

#[test]
fn terms_and_relations() {
    let t = Term::new("a".to_string(), Constraint::Any);
    assert!(t.positive);
    let n = t.negate();
    assert!(!n.positive);
    assert_eq!(n.package, "a");
    assert!(n.negate().same(&t));
    assert_eq!(t.relation(&n), SetRelation::Overlapping);
    assert_eq!(t.relation(&Term::new("b".to_string(), Constraint::Any)), SetRelation::Disjoint);
}

#[test]
fn partial_solution_log_and_table() {
    let mut s = PartialSolution::new();
    assert_eq!(s.decision_level(), 0);
    let a_ge_1 = Term::new("a".to_string(), Constraint::from_operator(">=", "1.0").unwrap());
    assert!(!s.satisfies(&a_ge_1));
    assert!(!s.unsatisfies(&a_ge_1));
    s.assign(Assignment::Decision { package: "root".to_string(), version: v("1.0"), decision_level: 0 });
    s.assign(Assignment::Derivation { term: a_ge_1.clone(), cause: 0, decision_level: 1 });
    s.assign(Assignment::Decision { package: "a".to_string(), version: v("2.0"), decision_level: 1 });
    s.assign(Assignment::Derivation { term: a_ge_1.negate(), cause: 1, decision_level: 2 });
    s.assign(Assignment::Decision { package: "b".to_string(), version: v("0.5"), decision_level: 2 });
    assert_eq!(s.decision_level(), 3);
    assert!(s.satisfies(&a_ge_1));
    assert!(!s.unsatisfies(&a_ge_1));
    assert!(s.unsatisfies(&a_ge_1.negate()));
    assert_eq!(s.get_decision("b").map(|x| x.format()), Some("0.5".to_string()));
    s.backtrack(2);
    assert_eq!(s.assignments.len(), 4);
    assert!(s.get_decision("b").is_none());
    assert!(s.get_decision("a").is_some());
    s.backtrack(5);
    assert_eq!(s.assignments.len(), 4);
    s.backtrack(1);
    assert_eq!(s.assignments.len(), 2);
    assert_eq!(s.decision_level(), 1);
    assert!(s.get_decision("a").is_none());
    assert!(s.get_decision("root").is_some());
    s.backtrack(0);
    assert_eq!(s.assignments.len(), 0);
    assert!(s.decisions.is_empty());
}

#[test]
fn classification_of_incompatibilities() {
    let mut s = PartialSolution::new();
    s.assign(Assignment::Decision { package: "root".to_string(), version: v("1.0"), decision_level: 0 });
    let root = Term::new("root".to_string(), Constraint::Exact(v("1.0")));
    let need_a = Term::new("a".to_string(), Constraint::Any).negate();
    let need_b = Term::new("b".to_string(), Constraint::Any).negate();
    let unit = Incompatibility { terms: vec![root.clone(), need_a.clone()], cause: IncompatibilityCause::Root };
    assert_eq!(classify(&s, &unit), Status::Unit(1));
    let two = Incompatibility { terms: vec![need_a.clone(), need_b], cause: IncompatibilityCause::Conflict };
    assert_eq!(classify(&s, &two), Status::Idle);
    let conflict = Incompatibility { terms: vec![root.clone()], cause: IncompatibilityCause::Conflict };
    assert_eq!(classify(&s, &conflict), Status::Conflict);
    let empty = Incompatibility { terms: vec![], cause: IncompatibilityCause::Conflict };
    assert_eq!(classify(&s, &empty), Status::Conflict);
    let other = Incompatibility { terms: vec![root.negate(), need_a], cause: IncompatibilityCause::Conflict };
    assert_eq!(classify(&s, &other), Status::Idle);
}

#[test]
fn best_version_is_the_highest_that_parses() {
    assert_eq!(best_version(&package("a", &["1.0", "2.0", "not a version", "1.5"], &[])).map(|x| x.format()), Some("2.0".to_string()));
    assert_eq!(best_version(&package("a", &["1.0.0", "1.0"], &[])).map(|x| x.format()), Some("1.0.0".to_string()));
    assert_eq!(best_version(&package("a", &["2.0rc1", "1.9"], &[])).map(|x| x.format()), Some("2.0rc1".to_string()));
    assert!(best_version(&package("a", &["x"], &[])).is_none());
    assert!(best_version(&package("a", &[], &[])).is_none());
}

#[test]
fn dependencies_follow_markers() {
    let reqs: Vec<String> = ["b>=1.0", "c; sys_platform == 'win32'", "d ; python_version >= '3.0'"].iter().map(|s| s.to_string()).collect();
    let deps = dependencies_of(&reqs, &env()).unwrap();
    let names: Vec<&str> = deps.iter().map(|d| d.0.as_str()).collect();
    assert_eq!(names, vec!["b", "d"]);
    let bad: Vec<String> = vec!["b>=1.0".to_string(), "??".to_string()];
    assert_eq!(dependencies_of(&bad, &env()).err(), Some(ParseError::InvalidRequirementFormat));
}

#[test]
fn solver_success() {
    let registry = vec![
        package("A", &["1.0", "2.0"], &["B==2.0"]),
        package("B", &["1.0", "2.0"], &[]),
    ];
    let table = solve("root", v("1.0"), &vec!["A>=1.0".to_string()], &registry, env(), 100, 1000).unwrap();
    assert_eq!(chosen(&table, "A"), Some("2.0".to_string()));
    assert_eq!(chosen(&table, "B"), Some("2.0".to_string()));
    assert_eq!(chosen(&table, "root"), Some("1.0".to_string()));
    assert_eq!(table.len(), 3);
    let again = solve("root", v("1.0"), &vec!["A>=1.0".to_string()], &registry, env(), 100, 1000).unwrap();
    assert_eq!(again.len(), table.len());
    for (name, version) in &table {
        assert_eq!(chosen(&again, name), Some(version.format()));
    }
}

#[test]
fn solver_conflict() {
    let registry = vec![
        package("A", &["1.0"], &["C==1.0"]),
        package("B", &["1.0"], &["C==2.0"]),
        package("C", &["1.0", "2.0"], &[]),
    ];
    let r = solve("root", v("1.0"), &vec!["A".to_string(), "B".to_string()], &registry, env(), 50, 1000);
    match r {
        Err(SolveError::Unsolvable(u)) => {
            let text = u.explanation();
            assert!(text.contains("A"), "{}", text);
            assert!(text.contains("B"), "{}", text);
            assert!(text.contains("C"), "{}", text);
            assert_eq!(
                text,
                "the root requires A (*); A requires C (==1.0); B requires C (==2.0); A requires C (==1.0); therefore no assignment exists"
            );
        }
        other => panic!("{:?}", other),
    }
}

#[test]
fn solver_failures() {
    let registry = vec![package("A", &["1.0"], &["B"])];
    let r = solve("root", v("1.0"), &vec!["A".to_string()], &registry, env(), 50, 1000);
    assert!(matches!(r, Err(SolveError::PackageNotFound(name)) if name == "B"));
    let r = solve("root", v("1.0"), &vec!["A>=x".to_string()], &registry, env(), 50, 1000);
    assert!(matches!(r, Err(SolveError::Parse(ParseError::InvalidVersionFormat))));
    let registry = vec![package("A", &["1.0"], &["B>=1.0", "?"])];
    let r = solve("root", v("1.0"), &vec!["A".to_string()], &registry, env(), 50, 1000);
    assert!(matches!(r, Err(SolveError::Parse(ParseError::InvalidRequirementFormat))));
    let registry = vec![package("A", &["nothing"], &[])];
    let r = solve("root", v("1.0"), &vec!["A".to_string()], &registry, env(), 50, 1000);
    assert!(matches!(r, Err(SolveError::Unsolvable(_))));
    let registry = vec![package("A", &["1.0"], &[])];
    let r = solve("root", v("1.0"), &vec!["A".to_string()], &registry, env(), 0, 0);
    assert!(matches!(r, Err(SolveError::OutOfBudget)));
    let r = solve("root", v("1.0"), &vec!["A".to_string()], &registry, env(), 0, 1).unwrap();
    assert_eq!(r.len(), 2);
    let r = solve("root", v("1.0"), &vec!["A>=2.0".to_string()], &registry, env(), 50, 1000);
    assert!(matches!(r, Err(SolveError::Unsolvable(_))));
    let r = solve("root", v("1.0"), &Vec::new(), &registry, env(), 50, 1000).unwrap();
    assert_eq!(r.len(), 1);
}

#[test]
fn solver_steps() {
    let mut s = Solver::new("root".to_string(), v("1.0"), env(), 10);
    s.require(&"A".to_string(), &Constraint::Any);
    s.start();
    match s.advance() {
        Step::Fetch(name) => assert_eq!(name, "A"),
        other => panic!("{:?}", other),
    }
    assert_eq!(s.choose_next_package(), Some("A".to_string()));
    assert!(s.propagate().is_none());
    assert_eq!(s.solution.assignments.len(), 2);
    s.supply("A", &package("A", &["1.0", "3.0"], &[])).unwrap();
    assert_eq!(s.budget, 10);
    assert!(matches!(s.supply("A", &package("A", &["1.0"], &[])), Err(SolveError::Unexpected(_))));
    assert!(matches!(s.advance(), Step::Solved));
    assert_eq!(s.solution.get_decision("A").map(|x| x.format()), Some("3.0".to_string()));
}

#[test]
fn constraints_in_words() {
    assert_eq!(Constraint::Any.describe(), "*");
    assert_eq!(Constraint::from_operator("==", "1.0").unwrap().describe(), "==1.0");
    assert_eq!(Constraint::from_operator("!=", "v1.0").unwrap().describe(), "!==1.0");
    assert_eq!(Constraint::from_operator(">=", "1.0").unwrap().describe(), ">=1.0,<9999!9999.9999.9999");
    assert_eq!(Constraint::from_operator("<=", "1.0").unwrap().describe(), "(>=0,<1.0 | ==1.0)");
    assert_eq!(Constraint::from_operator("~=", "1.4.2").unwrap().describe(), "(>=1.4.2,<9999!9999.9999.9999 & >=0,<1.5)");
    assert_eq!(Constraint::Union(vec![]).describe(), "()");
    let inc = Incompatibility { terms: vec![Term::new("x".to_string(), Constraint::Any)], cause: IncompatibilityCause::NoVersion };
    assert_eq!(inc.explain(), "x has no version");
    let inc = Incompatibility { terms: vec![], cause: IncompatibilityCause::Conflict };
    assert_eq!(inc.explain(), "conflict");
}

#[test]
fn session_solves_as_the_entry_point_does() {
    let registry = vec![
        package("A", &["1.0", "2.0"], &["B>=1.0"]),
        package("B", &["1.0", "2.0"], &[]),
    ];
    let mut solver = Solver::new("root".to_string(), v("0.0.0"), env(), 16);
    let wanted = parse_requirement("A>=1.0").unwrap();
    solver.require(&wanted.name, &wanted.constraint().unwrap());
    let table = solver.solve(&registry, 100).unwrap();
    assert_eq!(chosen(&table, "root"), Some("0.0.0".to_string()));
    assert_eq!(chosen(&table, "A"), Some("2.0".to_string()));
    assert_eq!(chosen(&table, "B"), Some("2.0".to_string()));
    let direct = solve("root", v("0.0.0"), &vec!["A>=1.0".to_string()], &registry, env(), 16, 100).unwrap();
    assert_eq!(direct.len(), table.len());
    for (name, version) in &direct {
        assert_eq!(chosen(&table, name), Some(version.format()));
    }
    assert_eq!(solver.solution.decisions.len(), 3);

    let mut short = Solver::new("root".to_string(), v("0.0.0"), env(), 16);
    short.require(&wanted.name, &wanted.constraint().unwrap());
    assert!(matches!(short.solve(&registry, 1), Err(SolveError::OutOfBudget)));

    let mut lost = Solver::new("root".to_string(), v("0.0.0"), env(), 16);
    lost.require(&wanted.name, &wanted.constraint().unwrap());
    assert!(matches!(lost.solve(&Vec::new(), 5), Err(SolveError::PackageNotFound(n)) if n == "A"));
}

#[test]
fn operators_go_by_the_order_of_versions() {
    let same = v("1.0.0");
    assert!(Constraint::from_operator("==", "1.0").unwrap().allows(&same));
    assert!(!Constraint::from_operator("!=", "1.0").unwrap().allows(&same));
    assert!(!Constraint::from_operator(">", "1.0").unwrap().allows(&same));
    assert!(Constraint::from_operator(">", "1.0").unwrap().allows(&v("1.0.1")));
    assert!(Constraint::from_operator("<=", "1.0").unwrap().allows(&same));
    assert!(Constraint::from_operator(">=", "1.0").unwrap().allows(&same));
    assert!(!Constraint::from_operator("<", "1.0").unwrap().allows(&same));
    let both = Constraint::Exact(v("1.0")).intersect(&Constraint::Exact(v("1.0.0")));
    assert!(both.allows(&v("1")));
    assert!(both.allows(&v("1.0.0.0")));
    assert!(!both.allows(&v("1.1")));
    let neither = Constraint::Exact(v("1.0")).intersect(&Constraint::Exact(v("1.1")));
    assert!(!neither.allows(&v("1.0")));
    assert!(!neither.allows(&v("1.1")));
}

#[test]
fn solved_tables_meet_the_requirements_of_every_package() {
    let registry = vec![
        package("A", &["1.0", "2.0"], &["B>=1.0", "C==3.0.0 ; python_version >= '3.8'", "W ; sys_platform == 'win32'"]),
        package("B", &["1.0", "1.5"], &["C"]),
        package("C", &["3.0"], &[]),
    ];
    let table = solve("root", v("0.0.0"), &vec!["A>=1.0".to_string()], &registry, env(), 16, 100).unwrap();
    assert_eq!(table.len(), 4);
    let mut names: Vec<&str> = table.iter().map(|(n, _)| n.as_str()).collect();
    names.sort();
    names.dedup();
    assert_eq!(names, vec!["A", "B", "C", "root"]);
    for (name, version) in &table {
        if name == "root" {
            continue;
        }
        let info = find_package(&registry, name).unwrap();
        assert_eq!(best_version(info).unwrap().format(), version.format());
        let needs = dependencies_of(&info.info.requires_dist.clone().unwrap_or_default(), &env()).unwrap();
        for (needed, constraint) in &needs {
            let found = table.iter().find(|(n, _)| n == needed).expect("a required package has a version");
            assert!(constraint.allows(&found.1), "{} needs {}", name, needed);
        }
    }
    assert_eq!(chosen(&table, "C"), Some("3.0".to_string()));
}
