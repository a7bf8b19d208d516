use snakepit::installer::WheelSelector;
use snakepit::system_libs::{os_from_release, SystemLibDetector, SystemLibrary};

#[test]
fn test_extract_library() {
    let detector = SystemLibDetector::new();
    let error = "ImportError: libpq.so.5: cannot open shared object file: No such file or directory";
    assert_eq!(detector.extract_library_from_error(error), Some("libpq.so.5".to_string()));
}

#[test]
fn test_find_package() {
    let detector = SystemLibDetector::new();
    if let Some(lib) = detector.find_package("libpq.so.5", "ubuntu") {
        assert!(!lib.package_name.is_empty());
    }
}

#[test]
fn libraries_in_error_messages() {
    let d = SystemLibDetector::new();
    assert_eq!(d.extract_library_from_error("all fine"), None);
    assert_eq!(d.extract_library_from_error("libpq.so.5 is here"), None);
    assert_eq!(d.extract_library_from_error("x\nOSError: libmysqlclient.so: cannot open shared object file"), None);
    assert_eq!(d.extract_library_from_error("x\nOSError: libmysqlclient.so cannot open shared object file"), Some("libmysqlclient.so".to_string()));
    assert_eq!(d.extract_library_from_error("x\r\n  libssl.so.3,,:: No such file or directory\r\n"), Some("libssl.so.3".to_string()));
    assert_eq!(d.extract_library_from_error("cannot open shared object file libfoo.txt liba.so"), Some("liba.so".to_string()));
    assert_eq!(d.extract_library_from_error("cannot open shared object file\nlibz.so"), None);
    assert_eq!(d.extract_library_from_error("No such file or directory: xlib.so lib.so.x"), Some("lib.so.x".to_string()));
}

#[test]
fn packages_by_system() {
    let d = SystemLibDetector::new();
    assert_eq!(d.library_map.len(), 7);
    let lib = d.find_package("libpq.so.5", "fedora").unwrap();
    assert_eq!((lib.name.as_str(), lib.package_name.as_str(), lib.os.as_str()), ("libpq.so.5", "postgresql-devel", "fedora"));
    let lib = d.find_package("libssl.so.99", "arch").unwrap();
    assert_eq!((lib.name.as_str(), lib.package_name.as_str()), ("libssl.so.99", "openssl"));
    assert_eq!(d.find_package("libsqlite3.so", "debian").unwrap().package_name, "libsqlite3-dev");
    assert_eq!(d.find_package("libmysqlclient.so", "macos").unwrap().package_name, "mysql");
    assert!(d.find_package("libpq.so", "windows").is_none());
    assert!(d.find_package("libnothing.so", "ubuntu").is_none());
    assert!(d.find_package("libpq", "ubuntu").is_none());
    let lib = |os: &str| SystemLibrary { name: "l".to_string(), package_name: "p".to_string(), os: os.to_string() };
    assert_eq!(d.get_install_command(&lib("ubuntu")), Some("sudo apt install p".to_string()));
    assert_eq!(d.get_install_command(&lib("debian")), Some("sudo apt install p".to_string()));
    assert_eq!(d.get_install_command(&lib("fedora")), Some("sudo dnf install p".to_string()));
    assert_eq!(d.get_install_command(&lib("arch")), Some("sudo pacman -S p".to_string()));
    assert_eq!(d.get_install_command(&lib("macos")), Some("brew install p".to_string()));
    assert_eq!(d.get_install_command(&lib("plan9")), None);
}

#[test]
fn operating_system_from_release_file() {
    assert_eq!(os_from_release("NAME=\"Ubuntu\"\nID=ubuntu\nID_LIKE=debian\n"), "ubuntu");
    assert_eq!(os_from_release("ID=\"fedora\" \r\n"), "fedora");
    assert_eq!(os_from_release("VERSION_ID=1\n"), "unknown");
    assert_eq!(os_from_release(""), "unknown");
    assert_eq!(os_from_release("ID=aID=b"), "ab");
}

#[test]
fn wheel_scores() {
    let linux = WheelSelector::new("linux", "x86_64");
    assert_eq!(linux.python_version, "310");
    assert_eq!(linux.score_wheel("numpy-1.21.0-cp310-cp310-manylinux_2_17_x86_64.whl"), 100 + 50 + 50 + 20);
    assert_eq!(linux.score_wheel("numpy-1.21.0-cp39-cp39-linux_x86_64.whl"), 100 + 50 + 5);
    assert_eq!(linux.score_wheel("requests-2.0-py3-none-any.whl"), 10 + 10 + 10);
    assert_eq!(linux.score_wheel("requests-2.0-py2.py3-abi3-any.whl.whl"), 30);
    assert_eq!(linux.score_wheel("requests-2.0-py2-none-any.whl"), 0);
    assert_eq!(linux.score_wheel("numpy-1.21.0-cp310-cp310-win_amd64.whl"), 0);
    assert_eq!(linux.score_wheel("numpy-1.21.0-cp310-cp310-manylinux_aarch64.whl"), 0);
    assert_eq!(linux.score_wheel("numpy-1.21.0-cp310.whl"), 0);
    assert_eq!(linux.score_wheel(""), 0);
    let mac = WheelSelector::new("macos", "aarch64");
    assert_eq!(mac.score_wheel("a-1-cp310-abi3-macosx_11_0_arm64.whl"), 150 + 50 + 10);
    let win = WheelSelector::new("windows", "x86_64");
    assert_eq!(win.score_wheel("a-1-cp310-cp310-win_amd64.whl"), 150 + 50 + 20);
    assert_eq!(WheelSelector::new("plan9", "x86_64").score_wheel("a-1-cp310-cp310-plan9_x86_64.whl"), 0);
}
