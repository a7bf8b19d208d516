use snakepit::config::{ProjectConfig, SnakepitConfig};

#[test]
fn test_default_config() {
    let config = SnakepitConfig::default();
    assert_eq!(config.default_backend, Some("pip".to_string()));
    assert_eq!(config.cache_enabled, Some(true));
}

#[test]
fn test_project_config() {
    let config = ProjectConfig::new("test-project".to_string());
    assert_eq!(config.name, "test-project");
    assert!(config.dependencies.is_empty());
}

#[test]
fn test_config_builder() {
    let config = SnakepitConfig::new()
        .with_backend("conda")
        .with_python_version("3.9")
        .with_cache(false);

    assert_eq!(config.default_backend, Some("conda".to_string()));
    assert_eq!(config.python_version, Some("3.9".to_string()));
    assert_eq!(config.cache_enabled, Some(false));
}

#[test]
fn default_config_has_every_default() {
    let config = SnakepitConfig::new();
    assert_eq!(config.default_venv_backend, Some("venv".to_string()));
    assert_eq!(config.venv_path, None);
    assert_eq!(config.mirrors, None);
    assert_eq!(config.timeout, Some(30));
    assert_eq!(config.retries, Some(3));
    assert_eq!(config.user_agent, Some("snakepit/0.1.0".to_string()));
}

#[test]
fn builders_set_one_field_each() {
    let config = SnakepitConfig::new()
        .with_venv_backend("conda")
        .with_venv_path("/tmp/venvs")
        .with_mirrors(vec!["https://mirror.example".to_string()])
        .with_timeout(7)
        .with_retries(9);
    assert_eq!(config.default_backend, Some("pip".to_string()));
    assert_eq!(config.default_venv_backend, Some("conda".to_string()));
    assert_eq!(config.venv_path, Some("/tmp/venvs".to_string()));
    assert_eq!(config.mirrors, Some(vec!["https://mirror.example".to_string()]));
    assert_eq!(config.timeout, Some(7));
    assert_eq!(config.retries, Some(9));
}

#[test]
fn paths_are_made_of_their_parts() {
    assert_eq!(SnakepitConfig::get_config_path(Some("/home/u/.config")), vec!["/home/u/.config", "snakepit", "config.toml"]);
    assert_eq!(SnakepitConfig::get_config_path(None), vec![".snakepit", "config.toml"]);
    let config = SnakepitConfig::new();
    assert_eq!(config.get_venv_path(Some("/home/u")), vec!["/home/u", ".snakepit", "venvs"]);
    assert_eq!(config.get_venv_path(None), vec![".snakepit", "venvs"]);
    assert_eq!(config.get_cache_path(Some("/var/cache")), vec!["/var/cache", "snakepit"]);
    assert_eq!(config.get_cache_path(None), vec![".snakepit", "cache"]);
    let config = config.with_venv_path("/opt/venvs");
    assert_eq!(config.get_venv_path(Some("/home/u")), vec!["/opt/venvs"]);
}

#[test]
fn project_builders() {
    let p = ProjectConfig::new("p".to_string())
        .with_version("1.0")
        .with_description("d")
        .with_python_version("3.11")
        .with_backend("pip")
        .with_venv_name("env")
        .add_dependency("a>=1")
        .add_dependency("b")
        .add_dev_dependency("pytest")
        .add_script("test", "pytest")
        .add_script("lint", "ruff")
        .add_script("test", "pytest -q");
    assert_eq!(p.version, Some("1.0".to_string()));
    assert_eq!(p.description, Some("d".to_string()));
    assert_eq!(p.python_version, Some("3.11".to_string()));
    assert_eq!(p.backend, Some("pip".to_string()));
    assert_eq!(p.venv_name, Some("env".to_string()));
    assert_eq!(p.dependencies, vec!["a>=1", "b"]);
    assert_eq!(p.dev_dependencies, vec!["pytest"]);
    assert_eq!(
        p.scripts,
        Some(vec![("test".to_string(), "pytest -q".to_string()), ("lint".to_string(), "ruff".to_string())])
    );
}
