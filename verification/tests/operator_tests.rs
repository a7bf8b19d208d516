use std::cmp::Ordering;

use snakepit::constraint::{is_operator_text, Constraint};
use snakepit::pep440::{ParseError, Version};
use snakepit::resolver::{PyPIInfo, PyPIPackageInfo};
use snakepit::solver::{find_package, Incompatibility, IncompatibilityCause, Solver, Term};
use snakepit::markers::TargetEnvironment;
use snakepit::text::{chars_of, string_of, trim_chars};

fn v(s: &str) -> Version {
    Version::parse(s).unwrap()
}

#[test]
fn comparison_operators_follow_the_order() {
    assert!(v("1.0") < v("1.0.1"));
    assert!(v("2.0a1") < v("2.0"));
    assert!(v("1.0.dev1") < v("1.0"));
    assert!(v("1.0") < v("1.0.post1"));
    assert!(v("1.0.post1") > v("1.0"));
    assert!(v("1.0") <= v("1.0.0"));
    assert!(v("1.0") >= v("1.0.0"));
    assert!(!(v("1.0") < v("1.0.0")));
    assert_eq!(v("1.0").compare(&v("1.0.0")), Ordering::Equal);
    assert_eq!(v("1.0").compare(&v("1.1")), Ordering::Less);
    assert_eq!(v("1!1.0").compare(&v("9.1")), Ordering::Greater);
    assert_eq!(v("1.0").partial_cmp(&v("1.1")), Some(Ordering::Less));
    assert!(v("1.0").at_most(&v("1.0")));
    assert!(!v("1.1").at_most(&v("1.0")));
}

#[test]
fn operators_and_parts() {
    for op in ["==", ">=", "<=", ">", "<", "!=", "~="] {
        assert!(is_operator_text(op), "{}", op);
    }
    for op in ["", "=", "===", "=>", "~", " ==", "<>"] {
        assert!(!is_operator_text(op), "{:?}", op);
    }
    assert!(Constraint::from_parts("==", v("1.0")).unwrap().same(&Constraint::Exact(v("1.0"))));
    assert_eq!(Constraint::from_parts("=", v("1.0")).err(), Some(ParseError::InvalidRequirementFormat));
    let a = Constraint::from_operator("~=", "1.4.2").unwrap();
    let b = Constraint::from_operator("~=", "1.4.2").unwrap();
    assert!(a.same(&b));
    assert!(a.clone().same(&a));
    assert!(!a.same(&Constraint::from_operator("~=", "1.4.3").unwrap()));
    assert!(!Constraint::Any.same(&a));
    assert!(Constraint::Not(Box::new(Constraint::Any)).same(&Constraint::Not(Box::new(Constraint::Any))));
    assert!(!Constraint::Union(vec![Constraint::Any]).same(&Constraint::Intersection(vec![Constraint::Any])));
    assert!(!Constraint::Union(vec![Constraint::Any]).same(&Constraint::Union(vec![])));
}

#[test]
fn texts_and_characters() {
    assert_eq!(chars_of("héllo"), vec!['h', 'é', 'l', 'l', 'o']);
    assert_eq!(string_of(&vec!['a', 'ß', '€']), "aß€");
    assert_eq!(string_of(&trim_chars(&chars_of(" \t\u{a0}a b\u{3000}\n"))), "a b");
    assert_eq!(string_of(&trim_chars(&chars_of("   "))), "");
    assert_eq!(string_of(&trim_chars(&chars_of("\u{200b}x\u{200b}"))), "\u{200b}x\u{200b}");
}

fn environment() -> TargetEnvironment {
    TargetEnvironment::for_platform("linux", "x86_64")
}

fn package(name: &str, versions: &[&str]) -> PyPIPackageInfo {
    PyPIPackageInfo {
        info: PyPIInfo {
            name: name.to_string(),
            version: String::new(),
            summary: None,
            description: None,
            author: None,
            license: None,
            home_page: None,
            requires_dist: None,
        },
        releases: versions.iter().map(|s| (s.to_string(), Vec::new())).collect(),
    }
}

#[test]
fn conflicts_backtrack_while_the_budget_lasts() {
    let mut s = Solver::new("root".to_string(), v("1.0"), environment(), 1);
    s.require(&"A".to_string(), &Constraint::from_operator(">=", "2.0").unwrap());
    s.start();
    s.supply("A", &package("A", &["1.0"])).unwrap();
    assert_eq!(s.solution.decision_level(), 2);
    let conflict = s.propagate().unwrap();
    assert_eq!(conflict, 0);
    assert!(s.resolve_conflict(conflict).is_ok());
    assert_eq!(s.budget, 0);
    assert_eq!(s.solution.decision_level(), 1);
    assert!(s.solution.get_decision("A").is_none());
    s.supply("A", &package("A", &["1.0"])).unwrap();
    let conflict = s.propagate().unwrap();
    let failure = s.resolve_conflict(conflict).err().unwrap();
    assert_eq!(failure.chain.len(), 0);
    assert_eq!(failure.explanation(), "the root requires A (>=2.0,<9999!9999.9999.9999); therefore no assignment exists");
    assert_eq!(s.solution.decision_level(), 2);
    let causes = s.related_causes(&Incompatibility {
        terms: vec![Term::new("nobody".to_string(), Constraint::Any)],
        cause: IncompatibilityCause::Conflict,
    });
    assert!(causes.is_empty());
}

#[test]
fn registry_lookup_takes_the_first_entry() {
    let registry = vec![package("a", &["1"]), package("b", &["2"]), package("a", &["3"])];
    assert_eq!(find_package(&registry, "a").map(|p| p.releases[0].0.as_str()), Some("1"));
    assert_eq!(find_package(&registry, "b").map(|p| p.releases[0].0.as_str()), Some("2"));
    assert!(find_package(&registry, "A").is_none());
}

#[test]
fn compatible_release_falls_back_on_short_versions() {
    let short = Version::parse("1").unwrap();
    let long = Version::parse("1.4").unwrap();
    assert!(Constraint::falls_back("~=", &short));
    assert!(!Constraint::falls_back("~=", &long));
    assert!(!Constraint::falls_back("==", &short));
    assert!(!Constraint::falls_back("~= ", &short));
    assert!(!Constraint::falls_back("", &short));
    assert!(Constraint::from_operator("~=", "1").unwrap().allows(&Version::parse("99").unwrap()));
}
