//! The choice of the program that installs packages.

use crate::native::hash::{
    compute_hex, compute_sha256_hex, hex_text, max_input, md5_digest, sha256_digest,
};
use crate::system_libs::ends_with;
use crate::text::{
    chars_of, contains_chars, contains_text, copy_range, owned, push_str, rows, same_chars,
    same_text, split, split_chars, text_at_pos,
};
use vstd::prelude::*;

verus! {

/// A program that installs packages.
#[derive(Debug, Clone, Copy, PartialEq, Eq, Structural)]
pub enum InstallerBackend {
    Native,
    Uv,
    Pip,
    Conda,
    Poetry,
}

/// The settings of an installation.
#[derive(Debug)]
pub struct PackageInstaller {
    pub backend: InstallerBackend,
    pub venv_path: Option<String>,
    pub use_cache: bool,
}

impl InstallerBackend {
    /// The installer to use: the built-in one, which is always there.
    pub fn detect() -> (r: InstallerBackend)
        ensures
            r == InstallerBackend::Native,
    {
        InstallerBackend::Native
    }
}

impl PackageInstaller {
    /// An installation with the built-in installer, outside any
    /// environment, with the cache in use.
    pub fn new() -> (r: PackageInstaller)
        ensures
            r.backend == InstallerBackend::Native,
            r.venv_path is None,
            r.use_cache,
    {
        PackageInstaller { backend: InstallerBackend::detect(), venv_path: None, use_cache: true }
    }

    /// The installation with another installer.
    pub fn with_backend(self, backend: InstallerBackend) -> (r: PackageInstaller)
        ensures
            r == (PackageInstaller { backend, ..self }),
    {
        let mut r = self;
        r.backend = backend;
        r
    }

    /// The installation into the environment at `venv_path`.
    pub fn with_venv(self, venv_path: String) -> (r: PackageInstaller)
        ensures
            r == (PackageInstaller { venv_path: Some(venv_path), ..self }),
    {
        let mut r = self;
        r.venv_path = Some(venv_path);
        r
    }

    /// The installation with the cache in use or not.
    pub fn with_cache(self, use_cache: bool) -> (r: PackageInstaller)
        ensures
            r == (PackageInstaller { use_cache, ..self }),
    {
        let mut r = self;
        r.use_cache = use_cache;
        r
    }
}

// ---------------------------------------------------------------------------
// The integrity of a downloaded file
// ---------------------------------------------------------------------------

/// Why a downloaded file is not the file that was announced: its digest, in
/// hexadecimal, is `actual` where `expected` was announced.
#[derive(Debug)]
pub enum IntegrityError {
    Sha256 { expected: String, actual: String },
    Md5 { expected: String, actual: String },
}

/// Whether the bytes have the announced digest: the SHA-256 digest where
/// one is announced, else the MD5 digest where one is announced; bytes for
/// which nothing is announced pass.
pub open spec fn is_intact(bytes: Seq<u8>, sha256: Option<&str>, md5: Option<&str>) -> bool {
    match (sha256, md5) {
        (Some(e), _) => hex_text(sha256_digest(bytes)) == e@,
        (None, Some(e)) => hex_text(md5_digest(bytes)) == e@,
        (None, None) => true,
    }
}

impl PackageInstaller {
    /// Holds the bytes of a downloaded file against the digests that were
    /// announced for it: see [`is_intact`]. The failure names the digest
    /// that differs, as announced and as computed.
    pub fn verify_wheel_integrity(bytes: &[u8], sha256: Option<&str>, md5: Option<&str>) -> (r: Result<
        (),
        IntegrityError,
    >)
        requires
            bytes@.len() <= max_input(),
        ensures
            r is Ok == is_intact(bytes@, sha256, md5),
            match r {
                Ok(()) => true,
                Err(IntegrityError::Sha256 { expected, actual }) => {
                    &&& sha256 matches Some(e)
                    &&& expected@ == e@
                    &&& actual@ == hex_text(sha256_digest(bytes@))
                },
                Err(IntegrityError::Md5 { expected, actual }) => {
                    &&& sha256 is None
                    &&& md5 matches Some(e)
                    &&& expected@ == e@
                    &&& actual@ == hex_text(md5_digest(bytes@))
                },
            },
    {
        match sha256 {
            Some(expected) => {
                let actual = compute_sha256_hex(bytes);
                if !same_text(actual.as_str(), expected) {
                    return Err(IntegrityError::Sha256 { expected: owned(expected), actual });
                }
                return Ok(());
            },
            None => {},
        }
        match md5 {
            Some(expected) => {
                let actual = compute_hex(bytes);
                if !same_text(actual.as_str(), expected) {
                    return Err(IntegrityError::Md5 { expected: owned(expected), actual });
                }
                Ok(())
            },
            None => Ok(()),
        }
    }
}

// ---------------------------------------------------------------------------
// The choice of a wheel
// ---------------------------------------------------------------------------

/// What wheels are chosen for: an operating system, a machine, and the
/// interpreter's version as the wheel tags write it, such as `310`.
#[derive(Debug)]
pub struct WheelSelector {
    pub os: String,
    pub arch: String,
    pub python_version: String,
}

/// A file name without the `.whl`s at its end.
pub open spec fn without_whl(name: Seq<char>) -> Seq<char>
    decreases name.len(),
{
    if name.len() >= 4 && ends_with(name, ".whl"@) {
        without_whl(name.subrange(0, name.len() - 4))
    } else {
        name
    }
}

/// Whether a platform tag is one of the operating system.
pub open spec fn platform_matches(os: Seq<char>, tag: Seq<char>) -> bool {
    if os == "linux"@ {
        contains_text(tag, "manylinux"@) || contains_text(tag, "linux"@)
    } else if os == "macos"@ {
        contains_text(tag, "macosx"@) || contains_text(tag, "darwin"@)
    } else if os == "windows"@ {
        contains_text(tag, "win"@)
    } else {
        false
    }
}

/// Whether a platform tag is one of the machine.
pub open spec fn arch_matches(arch: Seq<char>, tag: Seq<char>) -> bool {
    ||| (arch == "x86_64"@ && (contains_text(tag, "x86_64"@) || contains_text(tag, "amd64"@)))
    ||| (arch == "aarch64"@ && (contains_text(tag, "aarch64"@) || contains_text(tag, "arm64"@)))
}

/// The points for the platform tag: 10 for `any`, 150 for a tag of the
/// operating system and the machine; nothing for another one.
pub open spec fn platform_score(os: Seq<char>, arch: Seq<char>, tag: Seq<char>) -> Option<int> {
    if tag == "any"@ {
        Some(10)
    } else if platform_matches(os, tag) && arch_matches(arch, tag) {
        Some(150)
    } else {
        None
    }
}

/// The points for the interpreter tag: 10 for any interpreter of version 3,
/// 50 for the very version, 5 for some version 3 of the reference
/// interpreter; nothing for another one.
pub open spec fn python_score(version: Seq<char>, tag: Seq<char>) -> Option<int> {
    if tag == "py3"@ || tag == "py2.py3"@ {
        Some(10)
    } else if contains_text(tag, "cp"@ + version) {
        Some(50)
    } else if contains_text(tag, "cp3"@) {
        Some(5)
    } else {
        None
    }
}

/// The points for the ABI tag: 10 for none or the stable ABI, 20 for that
/// of the very version, else 0.
pub open spec fn abi_score(version: Seq<char>, tag: Seq<char>) -> int {
    if tag == "none"@ || tag == "abi3"@ {
        10
    } else if contains_text(tag, "cp"@ + version) {
        20
    } else {
        0
    }
}

/// How well a wheel suits: 0 for a file name with fewer than five pieces
/// between hyphens or with a platform or interpreter that does not suit,
/// else the points of its platform, interpreter and ABI tags together.
pub open spec fn wheel_score(
    os: Seq<char>,
    arch: Seq<char>,
    version: Seq<char>,
    filename: Seq<char>,
) -> int {
    let parts = split(without_whl(filename), '-');
    if parts.len() < 5 {
        0
    } else {
        match (platform_score(os, arch, parts[4]), python_score(version, parts[2])) {
            (Some(a), Some(b)) => a + b + abi_score(version, parts[3]),
            _ => 0,
        }
    }
}

fn is_text(v: &Vec<char>, s: &str) -> (r: bool)
    ensures
        r == (v@ == s@),
{
    let w = chars_of(s);
    same_chars(v, &w)
}

fn has_text(v: &Vec<char>, s: &str) -> (r: bool)
    ensures
        r == contains_text(v@, s@),
{
    let w = chars_of(s);
    contains_chars(v, &w)
}

impl WheelSelector {
    /// The selector for an operating system and a machine, with the
    /// interpreter version 3.10.
    pub fn new(os: &str, arch: &str) -> (r: WheelSelector)
        ensures
            r.os@ == os@,
            r.arch@ == arch@,
            r.python_version@ == "310"@,
    {
        WheelSelector { os: owned(os), arch: owned(arch), python_version: owned("310") }
    }

    /// How well the wheel of the given file name suits: see
    /// [`wheel_score`].
    pub fn score_wheel(&self, filename: &str) -> (r: i32)
        ensures
            r == wheel_score(self.os@, self.arch@, self.python_version@, filename@),
    {
        let all = chars_of(filename);
        let whl = chars_of(".whl");
        proof {
            reveal_strlit(".whl");
        }
        let mut end: usize = all.len();
        assert(all@.subrange(0, all.len() as int) =~= all@);
        while end >= 4 && text_at_pos(&all, end - 4, &whl)
            invariant
                end <= all.len(),
                whl@ == ".whl"@,
                whl@.len() == 4,
                without_whl(all@.subrange(0, end as int)) == without_whl(all@),
            decreases end,
        {
            proof {
                let cur = all@.subrange(0, end as int);
                assert(cur.subrange(cur.len() - 4, cur.len() as int) =~= all@.subrange(
                    end - 4,
                    end as int,
                ));
                assert(cur.subrange(0, cur.len() - 4) =~= all@.subrange(0, end - 4));
            }
            end -= 4;
        }
        proof {
            let cur = all@.subrange(0, end as int);
            if end >= 4 {
                assert(cur.subrange(cur.len() - 4, cur.len() as int) =~= all@.subrange(
                    end - 4,
                    end as int,
                ));
            }
            assert(without_whl(cur) == cur);
        }
        let name = copy_range(&all, 0, end);
        let parts = split_chars(&name, '-');
        if parts.len() < 5 {
            return 0;
        }
        assert(rows(parts@)[2] == parts[2]@);
        assert(rows(parts@)[3] == parts[3]@);
        assert(rows(parts@)[4] == parts[4]@);
        let python_tag = &parts[2];
        let abi_tag = &parts[3];
        let platform_tag = &parts[4];
        let os = chars_of(self.os.as_str());
        let arch = chars_of(self.arch.as_str());
        let mut score: i32 = 0;
        let platform_match = if is_text(&os, "linux") {
            has_text(platform_tag, "manylinux") || has_text(platform_tag, "linux")
        } else if is_text(&os, "macos") {
            has_text(platform_tag, "macosx") || has_text(platform_tag, "darwin")
        } else if is_text(&os, "windows") {
            has_text(platform_tag, "win")
        } else {
            false
        };
        if is_text(platform_tag, "any") {
            score = score + 10;
        } else if platform_match {
            if is_text(&arch, "x86_64") && (has_text(platform_tag, "x86_64") || has_text(
                platform_tag,
                "amd64",
            )) {
                score = score + 150;
            } else if is_text(&arch, "aarch64") && (has_text(platform_tag, "aarch64") || has_text(
                platform_tag,
                "arm64",
            )) {
                score = score + 150;
            } else {
                return 0;
            }
        } else {
            return 0;
        }
        let mut own: Vec<char> = Vec::new();
        push_str(&mut own, "cp");
        push_str(&mut own, self.python_version.as_str());
        assert(own@ =~= "cp"@ + self.python_version@);
        if is_text(python_tag, "py3") || is_text(python_tag, "py2.py3") {
            score = score + 10;
        } else if contains_chars(python_tag, &own) {
            score = score + 50;
        } else if has_text(python_tag, "cp3") {
            score = score + 5;
        } else {
            return 0;
        }
        if is_text(abi_tag, "none") || is_text(abi_tag, "abi3") {
            score = score + 10;
        } else if contains_chars(abi_tag, &own) {
            score = score + 20;
        }
        score
    }
}

} // verus!
