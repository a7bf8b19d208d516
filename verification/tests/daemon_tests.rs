use std::time::Duration;

use snakepit::config::SnakepitConfig;
use snakepit::daemon::{DaemonConfig, Reaction, SnakepitDaemon};
use snakepit::installer::InstallerBackend;
use snakepit::text::split_lines;

fn daemon(config: DaemonConfig) -> SnakepitDaemon {
    SnakepitDaemon::new(config, &SnakepitConfig::default(), "d-1".to_string())
}

#[test]
fn test_daemon_config_default() {
    let config = DaemonConfig::default();
    assert!(config.enabled);
    assert!(config.auto_install);
    assert_eq!(Duration::from_secs(config.check_interval), Duration::from_secs(5));
}

#[test]
fn default_settings_of_the_daemon() {
    let config = DaemonConfig::default();
    assert_eq!(config.max_install_attempts, 3);
    assert!(config.whitelist_modules.is_empty());
    assert_eq!(config.blacklist_modules, vec!["sys", "os", "builtins"]);
    assert!(config.log_file.is_none() && config.pid_file.is_none() && config.git_log_repo.is_none());
    let copy = config.clone();
    assert_eq!(copy.blacklist_modules, config.blacklist_modules);
    assert_eq!(copy.check_interval, 5);
}

#[test]
fn daemon_installs_as_the_settings_say() {
    let mut settings = SnakepitConfig::default();
    assert_eq!(daemon(DaemonConfig::default()).installer.backend, InstallerBackend::Pip);
    settings.default_backend = Some("conda".to_string());
    assert_eq!(
        SnakepitDaemon::new(DaemonConfig::default(), &settings, "x".to_string()).installer.backend,
        InstallerBackend::Conda
    );
    settings.default_backend = Some("poetry".to_string());
    assert_eq!(
        SnakepitDaemon::new(DaemonConfig::default(), &settings, "x".to_string()).installer.backend,
        InstallerBackend::Poetry
    );
    settings.default_backend = Some("Conda".to_string());
    assert_eq!(
        SnakepitDaemon::new(DaemonConfig::default(), &settings, "x".to_string()).installer.backend,
        InstallerBackend::Pip
    );
    settings.default_backend = None;
    let d = SnakepitDaemon::new(DaemonConfig::default(), &settings, "x".to_string());
    assert_eq!(d.installer.backend, InstallerBackend::Pip);
    assert!(!d.running && d.error_cache.is_empty() && d.daemon_id == "x");
}

#[test]
fn python_processes_are_told_by_name_or_command() {
    let none: Vec<String> = Vec::new();
    assert!(SnakepitDaemon::is_python_process("python3.11", &none));
    assert!(SnakepitDaemon::is_python_process("/usr/bin/PyThOn", &none));
    assert!(!SnakepitDaemon::is_python_process("pytho", &none));
    assert!(!SnakepitDaemon::is_python_process("", &none));
    let cmd = vec!["/bin/sh".to_string(), "run-python.sh".to_string()];
    assert!(SnakepitDaemon::is_python_process("sh", &cmd));
    let upper = vec!["PYTHON".to_string()];
    assert!(!SnakepitDaemon::is_python_process("sh", &upper));
    let split = vec!["py".to_string(), "thon".to_string()];
    assert!(!SnakepitDaemon::is_python_process("sh", &split));
}

#[test]
fn crash_logs_name_the_missing_module() {
    let log = "Traceback (most recent call last):\n  File \"app.py\", line 1\nModuleNotFoundError: No module named 'requests'\n";
    assert_eq!(SnakepitDaemon::detect_missing_module(log), Some("requests".to_string()));
    let two = "ModuleNotFoundError: No module named 'old'\r\nModuleNotFoundError: No module named 'new' and 'more'";
    assert_eq!(SnakepitDaemon::detect_missing_module(two), Some("new".to_string()));
    let unquoted = "ModuleNotFoundError: No module named 'kept'\nModuleNotFoundError without a name\nModuleNotFoundError: one ' only\n";
    assert_eq!(SnakepitDaemon::detect_missing_module(unquoted), Some("kept".to_string()));
    assert_eq!(SnakepitDaemon::detect_missing_module("ImportError: 'x'\n"), None);
    assert_eq!(SnakepitDaemon::detect_missing_module(""), None);
    assert_eq!(SnakepitDaemon::detect_missing_module("ModuleNotFoundError ''"), Some(String::new()));
}

#[test]
fn crash_logs_are_read_over_their_last_twenty_lines() {
    let tail: String = (0..19).map(|i| format!("line {}\n", i)).collect();
    let inside = format!("ModuleNotFoundError: No module named 'edge'\n{}", tail);
    assert_eq!(SnakepitDaemon::detect_missing_module(&inside), Some("edge".to_string()));
    let outside = format!("ModuleNotFoundError: No module named 'edge'\nmore\n{}", tail);
    assert_eq!(SnakepitDaemon::detect_missing_module(&outside), None);
    let unfinished = format!("ModuleNotFoundError: No module named 'edge'\n{}last", tail);
    assert_eq!(SnakepitDaemon::detect_missing_module(&unfinished), None);
}

#[test]
fn lines_are_split_as_the_standard_library_splits_them() {
    for text in ["", "\n", "a", "a\n", "a\r\n", "a\r", "a\n\nb", "\r\n\r\n", "a\r\r\n", "x\ny\r\nz\r", "\n\n", "\r"] {
        let chars: Vec<char> = text.chars().collect();
        let ours: Vec<String> = split_lines(&chars).iter().map(|l| l.iter().collect()).collect();
        let theirs: Vec<String> = text.lines().map(|l| l.to_string()).collect();
        assert_eq!(ours, theirs, "{:?}", text);
    }
}

#[test]
fn missing_modules_are_installed_a_few_times() {
    let mut d = daemon(DaemonConfig::default());
    assert_eq!(d.attempts("numpy", 41), None);
    assert_eq!(d.handle_missing_module("numpy", 41, 1000), Reaction::Install);
    assert_eq!(d.attempts("numpy", 41), Some(1));
    assert_eq!(d.error_cache[0].0, "numpy:41");
    assert_eq!(d.error_cache[0].1.module_name, "numpy");
    assert_eq!(d.error_cache[0].1.error_message, "Missing module detected");
    assert_eq!(d.error_cache[0].1.process_id, 0);
    assert_eq!(d.error_cache[0].1.timestamp, 1000);
    assert_eq!(d.handle_missing_module("numpy", 41, 1001), Reaction::Install);
    assert_eq!(d.handle_missing_module("numpy", 42, 1001), Reaction::Install);
    assert_eq!(d.handle_missing_module("numpy", 41, 1002), Reaction::Install);
    assert_eq!(d.attempts("numpy", 41), Some(3));
    assert_eq!(d.attempts("numpy", 42), Some(1));
    assert_eq!(d.handle_missing_module("numpy", 41, 1003), Reaction::Ignore);
    assert_eq!(d.attempts("numpy", 41), Some(3));
    assert_eq!(d.status().error_count, 4);
    d.install_finished("numpy", 41, false);
    assert_eq!(d.attempts("numpy", 41), Some(3));
    d.install_finished("numpy", 41, true);
    assert_eq!(d.attempts("numpy", 41), None);
    assert_eq!(d.attempts("numpy", 42), Some(1));
    assert_eq!(d.error_cache.len(), 1);
    assert_eq!(d.handle_missing_module("numpy", 41, 1004), Reaction::Install);
    assert_eq!(d.attempts("numpy", 41), Some(1));
}

#[test]
fn lists_and_settings_decide_the_reaction() {
    let mut d = daemon(DaemonConfig::default());
    assert_eq!(d.handle_missing_module("os", 1, 0), Reaction::Ignore);
    assert_eq!(d.handle_missing_module("builtins", 1, 0), Reaction::Ignore);
    assert!(d.error_cache.is_empty());
    let mut config = DaemonConfig::default();
    config.whitelist_modules = vec!["flask".to_string(), "sys".to_string()];
    let mut d = daemon(config);
    assert_eq!(d.handle_missing_module("numpy", 1, 0), Reaction::Ignore);
    assert_eq!(d.handle_missing_module("sys", 1, 0), Reaction::Ignore);
    assert_eq!(d.handle_missing_module("flask", 1, 0), Reaction::Install);
    let mut config = DaemonConfig::default();
    config.auto_install = false;
    let mut d = daemon(config);
    assert_eq!(d.handle_missing_module("numpy", 1, 0), Reaction::Notify);
    assert_eq!(d.handle_missing_module("numpy", 1, 0), Reaction::Notify);
    assert!(d.error_cache.is_empty());
    let mut config = DaemonConfig::default();
    config.max_install_attempts = 0;
    let mut d = daemon(config);
    assert_eq!(d.handle_missing_module("numpy", 1, 0), Reaction::Install);
    assert_eq!(d.handle_missing_module("numpy", 1, 0), Reaction::Ignore);
}

#[test]
fn daemon_reports_its_state() {
    let mut d = daemon(DaemonConfig::default());
    assert!(!d.status().running);
    d.start();
    let status = d.status();
    assert!(status.running);
    assert_eq!(status.daemon_id, "d-1");
    assert_eq!(status.error_count, 0);
    assert_eq!(status.config.max_install_attempts, 3);
    d.stop();
    assert!(!d.status().running);
}
