use snakepit::installer::{IntegrityError, InstallerBackend, PackageInstaller};
use snakepit::installsnake::{Direction, Position, SnakeConfig, Theme};
use snakepit::lockfile::{Lockfile, LockedPackage, PackageSource};
use snakepit::native::hardware::HardwareCapabilities;
use snakepit::snake_egg::chrono_capacitus::{ChronoCapacitus, GeminiModel};
use snakepit::snake_egg::dna::GestationMilestone;
use snakepit::pep440::Version;
use snakepit::venv::{VenvBackend, VirtualEnvironmentManager};

#[test]
fn installer_test_backend_detection() {
    let backend = InstallerBackend::detect();
    assert!(matches!(
        backend,
        InstallerBackend::Uv | InstallerBackend::Pip | InstallerBackend::Conda | InstallerBackend::Poetry | InstallerBackend::Native
    ));
}

#[test]
fn installer_builders() {
    let i = PackageInstaller::new();
    assert_eq!(i.backend, InstallerBackend::Native);
    assert_eq!(i.venv_path, None);
    assert!(i.use_cache);
    let i = i.with_backend(InstallerBackend::Uv).with_venv("/v".to_string()).with_cache(false);
    assert_eq!(i.backend, InstallerBackend::Uv);
    assert_eq!(i.venv_path, Some("/v".to_string()));
    assert!(!i.use_cache);
}

#[test]
fn test_direction_apply() {
    let pos = Position { x: 5, y: 5 };
    let new_pos = Direction::Right.apply(pos, 10, 10).unwrap();
    assert_eq!(new_pos, Position { x: 6, y: 5 });
}

#[test]
fn directions_stop_at_the_border() {
    let origin = Position { x: 0, y: 0 };
    assert_eq!(Direction::Up.apply(origin, 10, 10), Some(Position { x: 0, y: 0 }));
    assert_eq!(Direction::Left.apply(origin, 10, 10), Some(Position { x: 0, y: 0 }));
    let corner = Position { x: 9, y: 9 };
    assert_eq!(Direction::Down.apply(corner, 10, 10), Some(Position { x: 9, y: 9 }));
    assert_eq!(Direction::Right.apply(corner, 10, 10), Some(Position { x: 9, y: 9 }));
    assert_eq!(Direction::Down.apply(Position { x: 2, y: 3 }, 10, 10), Some(Position { x: 2, y: 4 }));
    assert_eq!(Direction::Up.apply(Position { x: 20, y: 3 }, 10, 10), None);
    assert_eq!(Direction::Down.apply(Position { x: 2, y: usize::MAX }, 10, 10), Some(Position { x: 2, y: 9 }));
    assert_eq!(Direction::Right.apply(origin, 0, 0), None);
    assert_eq!(Direction::Up.symbol(), '▲');
    assert_eq!(Direction::Right.symbol(), '►');
}

#[test]
fn themes() {
    assert_eq!(Theme::RetroGreen.head_color(), "\x1b[92m");
    assert_eq!(Theme::ErrorPunk.body_color(), "\x1b[31m");
    assert_eq!(Theme::Matrix.pellet_char(), '●');
    assert_eq!(Theme::MonochromeMinimal.pellet_char(), '*');
    assert_eq!(Theme::AmberTerminal.body_char(), '█');
    let c = SnakeConfig::default();
    assert_eq!((c.width, c.height, c.fps, c.theme, c.sound, c.show_debug), (60, 15, 12, Theme::RetroGreen, false, false));
}

#[test]
fn venv_test_backend_detection() {
    let backend = VenvBackend::detect(false, false, false);
    assert!(matches!(
        backend,
        VenvBackend::Venv | VenvBackend::Virtualenv | VenvBackend::Conda | VenvBackend::Poetry
    ));
    assert_eq!(VenvBackend::detect(true, true, true), VenvBackend::Conda);
    assert_eq!(VenvBackend::detect(false, true, true), VenvBackend::Poetry);
    assert_eq!(VenvBackend::detect(false, false, true), VenvBackend::Virtualenv);
    assert_eq!(VenvBackend::detect(false, false, false), VenvBackend::Venv);
}

#[test]
fn test_default_venv_path() {
    let path = VirtualEnvironmentManager::get_default_venv_path(Some("/home/user"));
    assert!(path.join("/").contains("snakepit"));
    assert_eq!(VirtualEnvironmentManager::get_default_venv_path(None), vec![".snakepit", "venvs"]);
}

#[test]
fn venv_manager_paths() {
    let m = VirtualEnvironmentManager::new(VenvBackend::Venv, Some("/h"));
    assert_eq!(m.get_venv_path("demo"), vec!["/h", ".snakepit", "venvs", "demo"]);
    let m = m.with_backend(VenvBackend::Conda).with_base_path(vec!["/opt".to_string()]);
    assert_eq!(m.backend, VenvBackend::Conda);
    assert_eq!(m.get_venv_path("x"), vec!["/opt", "x"]);
}

#[test]
fn lockfiles() {
    let resolved = vec![
        ("a".to_string(), Version::parse("1.0").unwrap()),
        ("b".to_string(), Version::parse("2.0rc1").unwrap()),
    ];
    let mut lock = Lockfile::from_resolved(&resolved, 1700000000);
    assert_eq!(lock.metadata.version, "1.0");
    assert_eq!(lock.metadata.generator, "snakepit");
    assert_eq!(lock.metadata.timestamp, 1700000000);
    assert_eq!(lock.packages.len(), 2);
    assert_eq!(lock.packages[1].name, "b");
    assert_eq!(lock.packages[1].version, "2.0rc1");
    assert!(matches!(&lock.packages[0].source, PackageSource::PyPI { url } if url == "https://pypi.org/simple/a/"));
    assert!(!lock.verify_integrity());
    assert!(Lockfile::new(0).verify_integrity());
    lock.packages[0].hashes.push("h".to_string());
    lock.packages[1].hashes.push("h".to_string());
    assert!(lock.verify_integrity());
    lock.add_package(LockedPackage {
        name: "c".to_string(),
        version: "3".to_string(),
        dependencies: Vec::new(),
        hashes: Vec::new(),
        source: PackageSource::Path { path: ".".to_string() },
    });
    assert_eq!(lock.packages.len(), 3);
    assert!(!lock.verify_integrity());
}

#[test]
fn milestones_and_capacities() {
    let mut m = GestationMilestone::Zygote;
    let mut seen = vec![m.progress_percentage()];
    while let Some(n) = m.next() {
        assert!(n.progress_percentage() > m.progress_percentage());
        seen.push(n.progress_percentage());
        m = n;
    }
    assert_eq!(seen, vec![0, 16, 33, 50, 75, 100]);
    assert_eq!(m, GestationMilestone::Adult);
    assert_eq!(GeminiModel::Flash2_0.api_name(), "gemini-2.0-flash-exp");
    assert_eq!(GeminiModel::Pro2_5.api_name(), "gemini-2.5-pro");
    let c = ChronoCapacitus { model: GeminiModel::Pro2_0, api_call_interval_seconds: 30, max_tokens_per_call: 4096, priority_level: 4 };
    assert!(!c.can_make_call(29));
    assert!(c.can_make_call(30));
    let h = |gpu: bool, mem: u64| HardwareCapabilities { has_nvidia_gpu: gpu, total_memory_gb: 64, available_memory_gb: mem };
    assert!(h(true, 0).can_run_local_llm());
    assert!(h(false, 8).can_run_local_llm());
    assert!(!h(false, 7).can_run_local_llm());
}

#[test]
fn downloaded_bytes_are_held_against_their_digests() {
    let sha = "ba7816bf8f01cfea414140de5dae2223b00361a396177a9cb410ff61f20015ad";
    let md5 = "900150983cd24fb0d6963f7d28e17f72";
    assert!(PackageInstaller::verify_wheel_integrity(b"abc", Some(sha), Some(md5)).is_ok());
    assert!(PackageInstaller::verify_wheel_integrity(b"abc", Some(sha), Some("wrong")).is_ok());
    assert!(PackageInstaller::verify_wheel_integrity(b"abc", None, Some(md5)).is_ok());
    assert!(PackageInstaller::verify_wheel_integrity(b"abc", None, None).is_ok());
    match PackageInstaller::verify_wheel_integrity(b"abd", Some(sha), Some(md5)) {
        Err(IntegrityError::Sha256 { expected, actual }) => {
            assert_eq!(expected, sha);
            assert_eq!(actual, "a52d159f262b2c6ddb724a61840befc36eb30c88877a4030b65cbe86298449c9");
        }
        other => panic!("expected a SHA-256 mismatch, got {:?}", other),
    }
    match PackageInstaller::verify_wheel_integrity(b"abc", None, Some(&md5.to_uppercase())) {
        Err(IntegrityError::Md5 { expected, actual }) => {
            assert_eq!(expected, md5.to_uppercase());
            assert_eq!(actual, md5);
        }
        other => panic!("expected an MD5 mismatch, got {:?}", other),
    }
}
