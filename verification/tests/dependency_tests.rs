use snakepit::pyproject::{read_project_table, ProjectFileError, ProjectTable};
use snakepit::dependency::{Dependency, ProjectDependencies};
use snakepit::resolver::{ResolvedDependencies, ResolvedDependency};

#[test]
fn test_parse_requirement_line() {
    let dep = ProjectDependencies::parse_requirement_line("requests>=2.25.0").unwrap();
    assert_eq!(dep.name, "requests");
    assert_eq!(dep.version_constraint, Some(">=".to_string()));
    assert_eq!(dep.version, Some("2.25.0".to_string()));
}

#[test]
fn test_parse_simple_package() {
    let dep = ProjectDependencies::parse_requirement_line("numpy").unwrap();
    assert_eq!(dep.name, "numpy");
    assert_eq!(dep.version, None);
    assert_eq!(dep.version_constraint, None);
}

#[test]
fn requirement_lines_split_at_the_first_listed_operator() {
    assert!(ProjectDependencies::parse_requirement_line("   ").is_none());
    assert!(ProjectDependencies::parse_requirement_line("# comment").is_none());
    let d = ProjectDependencies::parse_requirement_line("  a  ~= 1.0  ").unwrap();
    assert_eq!((d.name.as_str(), d.version_constraint.as_deref(), d.version.as_deref()), ("a", Some("~="), Some("1.0")));
    let d = ProjectDependencies::parse_requirement_line("a<2,>=1").unwrap();
    assert_eq!((d.name.as_str(), d.version_constraint.as_deref(), d.version.as_deref()), ("a<2,", Some(">="), Some("1")));
    let d = ProjectDependencies::parse_requirement_line("a<2").unwrap();
    assert_eq!((d.name.as_str(), d.version_constraint.as_deref(), d.version.as_deref()), ("a", Some("<"), Some("2")));
    assert!(!d.is_dev);
    assert_eq!(d.source, None);
}

#[test]
fn requirements_text_is_read_line_by_line() {
    let deps = ProjectDependencies::from_requirements_txt("# top\nrequests>=2.0\r\n\n  numpy \nflask==1.0");
    let names: Vec<&str> = deps.dependencies.iter().map(|d| d.name.as_str()).collect();
    assert_eq!(names, vec!["requests", "numpy", "flask"]);
    assert!(deps.dev_dependencies.is_empty());
}

#[test]
fn requirements_file_is_written_out() {
    let mut deps = ProjectDependencies::new();
    assert_eq!(deps.to_requirements_txt(), "\n# Dependencies\n");
    deps.project_name = Some("demo".to_string());
    deps.python_version = Some(">=3.8".to_string());
    deps.dependencies.push(Dependency {
        name: "requests".to_string(),
        version: Some("2.0".to_string()),
        version_constraint: Some(">=".to_string()),
        is_dev: false,
        source: Some("https://example.org".to_string()),
    });
    deps.dependencies.push(Dependency {
        name: "numpy".to_string(),
        version: Some("1.0".to_string()),
        version_constraint: None,
        is_dev: false,
        source: None,
    });
    deps.dev_dependencies.push(Dependency {
        name: "pytest".to_string(),
        version: None,
        version_constraint: None,
        is_dev: true,
        source: None,
    });
    assert_eq!(
        deps.to_requirements_txt(),
        "# Project: demo\n# Python version: >=3.8\n\n# Dependencies\nrequests>=2.0 @ https://example.org\nnumpy\n\n# Development dependencies\npytest\n"
    );
    assert_eq!(deps.format_dependency(&deps.dependencies[0]), "requests>=2.0 @ https://example.org");
}

#[test]
fn resolved_dependencies_are_pinned() {
    let mut r = ResolvedDependencies::new();
    assert_eq!(r.to_requirements_txt(), "# Resolved dependencies\n");
    r.dependencies.push(ResolvedDependency {
        name: "a".to_string(),
        version: "1.0".to_string(),
        is_dev: false,
        dependencies: Vec::new(),
        source: None,
    });
    r.dev_dependencies.push(ResolvedDependency {
        name: "b".to_string(),
        version: "2.0".to_string(),
        is_dev: true,
        dependencies: Vec::new(),
        source: None,
    });
    assert_eq!(r.to_requirements_txt(), "# Resolved dependencies\na==1.0\n\n# Development dependencies\nb==2.0\n");
}

#[test]
fn project_file_declares_dependencies() {
    let content = r##"
[build-system]
requires = ["setuptools"]

[project]
name = "demo"
requires-python = ">=3.8"
dependencies = [
    "requests>=2.25.0",
    "  ",
    "# not a requirement",
    7,
    "numpy",
    "flask==1.0 @ https://example.org/flask",
]

[project.optional-dependencies]
dev = ["pytest>=7.0", "black"]
docs = ["sphinx"]
"##;
    let deps = ProjectDependencies::from_pyproject_toml(content).unwrap();
    assert_eq!(deps.project_name.as_deref(), Some("demo"));
    assert_eq!(deps.python_version.as_deref(), Some(">=3.8"));
    let names: Vec<&str> = deps.dependencies.iter().map(|d| d.name.as_str()).collect();
    assert_eq!(names, vec!["requests", "numpy", "flask"]);
    assert_eq!(deps.dependencies[0].version.as_deref(), Some("2.25.0"));
    assert_eq!(deps.dependencies[0].version_constraint.as_deref(), Some(">="));
    assert!(deps.dependencies.iter().all(|d| !d.is_dev));
    let dev: Vec<&str> = deps.dev_dependencies.iter().map(|d| d.name.as_str()).collect();
    assert_eq!(dev, vec!["pytest", "black"]);
    assert!(deps.dev_dependencies.iter().all(|d| d.is_dev));
    assert_eq!(deps.dev_dependencies[0].version.as_deref(), Some("7.0"));
}

#[test]
fn project_file_without_project_table_declares_nothing() {
    let deps = ProjectDependencies::from_pyproject_toml("[tool.x]\nname = \"y\"\n").unwrap();
    assert!(deps.project_name.is_none());
    assert!(deps.python_version.is_none());
    assert!(deps.dependencies.is_empty());
    assert!(deps.dev_dependencies.is_empty());
    let deps = ProjectDependencies::from_pyproject_toml("").unwrap();
    assert!(deps.dependencies.is_empty());
    let odd = "project = \"text\"\n";
    let deps = ProjectDependencies::from_pyproject_toml(odd).unwrap();
    assert!(deps.project_name.is_none() && deps.dependencies.is_empty());
    let partial = "[project]\nname = 3\ndependencies = \"requests\"\n";
    let deps = ProjectDependencies::from_pyproject_toml(partial).unwrap();
    assert!(deps.project_name.is_none() && deps.dependencies.is_empty());
}

#[test]
fn project_file_that_is_no_document_fails() {
    assert_eq!(
        ProjectDependencies::from_pyproject_toml("name = = 3").err(),
        Some(ProjectFileError::Unreadable)
    );
}

#[test]
fn project_table_gives_the_dependencies() {
    let table = Some(ProjectTable {
        name: None,
        requires_python: Some("3.11".to_string()),
        dependencies: vec!["a<2".to_string(), "#x".to_string()],
        dev_dependencies: vec!["".to_string(), "b".to_string()],
    });
    let deps = ProjectDependencies::from_project_table(&table);
    assert!(deps.project_name.is_none());
    assert_eq!(deps.python_version.as_deref(), Some("3.11"));
    assert_eq!(deps.dependencies.len(), 1);
    assert_eq!(deps.dependencies[0].name, "a");
    assert_eq!(deps.dependencies[0].version_constraint.as_deref(), Some("<"));
    assert_eq!(deps.dev_dependencies.len(), 1);
    assert!(deps.dev_dependencies[0].is_dev);
    let none = ProjectDependencies::from_project_table(&None);
    assert!(none.dependencies.is_empty() && none.dev_dependencies.is_empty());
    let table = read_project_table("[project]\ndependencies = [\"x\", 1, \"y\"]\n").unwrap().unwrap();
    assert_eq!(table.dependencies, vec!["x", "y"]);
    assert!(table.dev_dependencies.is_empty());
}
