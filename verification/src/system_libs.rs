//! The system packages that provide shared libraries, by operating system.

use crate::markers::run_start;
use crate::text::{
    chars_of, contains_chars, contains_text, copy_range, owned, push_str, rows, same_chars,
    skip_spaces, skip_word, space_end, split, split_chars, string_of, text_at, text_at_pos,
    word_end,
};
use vstd::prelude::*;

verus! {

/// A shared library and the package that provides it on an operating
/// system.
#[derive(Debug)]
pub struct SystemLibrary {
    pub name: String,
    pub package_name: String,
    pub os: String,
}

/// The table of libraries: for each library name, the package names by
/// operating system.
#[derive(Debug)]
pub struct SystemLibDetector {
    pub library_map: Vec<(String, Vec<(String, String)>)>,
}

/// The text that a table of pairs holds for `key`, looked up from position
/// `i` on.
pub open spec fn pair_from(table: Seq<(String, String)>, key: Seq<char>, i: int) -> Option<
    Seq<char>,
>
    decreases table.len() - i,
{
    if 0 <= i < table.len() {
        if table[i].0@ == key {
            Some(table[i].1@)
        } else {
            pair_from(table, key, i + 1)
        }
    } else {
        None
    }
}

/// The package that the table names for `library` on `os`, looked up from
/// position `i` on: the first entry for the library decides.
pub open spec fn package_from(
    map: Seq<(String, Vec<(String, String)>)>,
    library: Seq<char>,
    os: Seq<char>,
    i: int,
) -> Option<Seq<char>>
    decreases map.len() - i,
{
    if 0 <= i < map.len() {
        if map[i].0@ == library {
            pair_from(map[i].1@, os, 0)
        } else {
            package_from(map, library, os, i + 1)
        }
    } else {
        None
    }
}

/// The name of a library without its version: its first two pieces between
/// dots, with a dot between them.
pub open spec fn base_name(library: Seq<char>) -> Seq<char> {
    let parts = split(library, '.');
    if parts.len() >= 2 {
        parts[0] + seq!['.'] + parts[1]
    } else {
        parts[0]
    }
}

/// The package for `library` on `os`: that of the library itself, else
/// that of the library without its version.
pub open spec fn find_package_spec(
    map: Seq<(String, Vec<(String, String)>)>,
    library: Seq<char>,
    os: Seq<char>,
) -> Option<Seq<char>> {
    match package_from(map, library, os, 0) {
        Some(p) => Some(p),
        None => package_from(map, base_name(library), os, 0),
    }
}

/// The command that installs `package` on `os`, where the operating system
/// is a known one.
pub open spec fn install_command_spec(os: Seq<char>, package: Seq<char>) -> Option<Seq<char>> {
    if os == "ubuntu"@ || os == "debian"@ {
        Some("sudo apt install "@ + package)
    } else if os == "fedora"@ {
        Some("sudo dnf install "@ + package)
    } else if os == "arch"@ {
        Some("sudo pacman -S "@ + package)
    } else if os == "macos"@ {
        Some("brew install "@ + package)
    } else {
        None
    }
}

/// The texts of a table of pairs.
pub open spec fn pair_texts(table: Seq<(String, String)>) -> Seq<(Seq<char>, Seq<char>)> {
    Seq::new(table.len(), |i: int| (table[i].0@, table[i].1@))
}

/// The texts of a table of libraries.
pub open spec fn library_texts(map: Seq<(String, Vec<(String, String)>)>) -> Seq<
    (Seq<char>, Seq<(Seq<char>, Seq<char>)>),
> {
    Seq::new(map.len(), |i: int| (map[i].0@, pair_texts(map[i].1@)))
}

/// The package names of one library on Ubuntu and Debian, Fedora, Arch and
/// macOS.
pub open spec fn os_packages(
    ubuntu: Seq<char>,
    fedora: Seq<char>,
    arch: Seq<char>,
    macos: Seq<char>,
) -> Seq<(Seq<char>, Seq<char>)> {
    seq![
        ("ubuntu"@, ubuntu),
        ("debian"@, ubuntu),
        ("fedora"@, fedora),
        ("arch"@, arch),
        ("macos"@, macos),
    ]
}

/// The known libraries with their packages.
pub open spec fn known_libraries() -> Seq<(Seq<char>, Seq<(Seq<char>, Seq<char>)>)> {
    seq![
        (
            "libpq.so"@,
            os_packages("libpq-dev"@, "postgresql-devel"@, "postgresql-libs"@, "postgresql"@),
        ),
        (
            "libpq.so.5"@,
            os_packages("libpq-dev"@, "postgresql-devel"@, "postgresql-libs"@, "postgresql"@),
        ),
        ("libssl.so"@, os_packages("libssl-dev"@, "openssl-devel"@, "openssl"@, "openssl"@)),
        ("libssl.so.1.1"@, os_packages("libssl-dev"@, "openssl-devel"@, "openssl"@, "openssl"@)),
        ("libssl.so.3"@, os_packages("libssl-dev"@, "openssl-devel"@, "openssl"@, "openssl"@)),
        (
            "libmysqlclient.so"@,
            os_packages("libmysqlclient-dev"@, "mysql-devel"@, "mariadb-libs"@, "mysql"@),
        ),
        (
            "libsqlite3.so"@,
            os_packages("libsqlite3-dev"@, "sqlite-devel"@, "sqlite"@, "sqlite"@),
        ),
    ]
}

fn names(ubuntu: &str, fedora: &str, arch: &str, macos: &str) -> (r: Vec<(String, String)>)
    ensures
        pair_texts(r@) == os_packages(ubuntu@, fedora@, arch@, macos@),
{
    let r = vec![
        (owned("ubuntu"), owned(ubuntu)),
        (owned("debian"), owned(ubuntu)),
        (owned("fedora"), owned(fedora)),
        (owned("arch"), owned(arch)),
        (owned("macos"), owned(macos)),
    ];
    assert(pair_texts(r@) =~= os_packages(ubuntu@, fedora@, arch@, macos@));
    r
}

fn lookup_pair(table: &Vec<(String, String)>, key: &str) -> (r: Option<String>)
    ensures
        crate::text::text_of(r) == pair_from(table@, key@, 0),
{
    let mut i: usize = 0;
    while i < table.len()
        invariant
            i <= table.len(),
            pair_from(table@, key@, i as int) == pair_from(table@, key@, 0),
        decreases table.len() - i,
    {
        if crate::text::same_text(table[i].0.as_str(), key) {
            return Some(table[i].1.clone());
        }
        i += 1;
    }
    None
}

fn lookup_package(map: &Vec<(String, Vec<(String, String)>)>, library: &Vec<char>, os: &str) -> (r:
    Option<String>)
    ensures
        crate::text::text_of(r) == package_from(map@, library@, os@, 0),
{
    let mut i: usize = 0;
    while i < map.len()
        invariant
            i <= map.len(),
            package_from(map@, library@, os@, i as int) == package_from(map@, library@, os@, 0),
        decreases map.len() - i,
    {
        let key = chars_of(map[i].0.as_str());
        if same_chars(&key, library) {
            return lookup_pair(&map[i].1, os);
        }
        i += 1;
    }
    None
}

impl SystemLibDetector {
    /// The table of the known libraries: those of PostgreSQL, OpenSSL, MySQL
    /// and SQLite, each under its names with and without version.
    pub fn new() -> (r: SystemLibDetector)
        ensures
            library_texts(r.library_map@) == known_libraries(),
    {
        let map = vec![
            (owned("libpq.so"), names("libpq-dev", "postgresql-devel", "postgresql-libs", "postgresql")),
            (owned("libpq.so.5"), names("libpq-dev", "postgresql-devel", "postgresql-libs", "postgresql")),
            (owned("libssl.so"), names("libssl-dev", "openssl-devel", "openssl", "openssl")),
            (owned("libssl.so.1.1"), names("libssl-dev", "openssl-devel", "openssl", "openssl")),
            (owned("libssl.so.3"), names("libssl-dev", "openssl-devel", "openssl", "openssl")),
            (
                owned("libmysqlclient.so"),
                names("libmysqlclient-dev", "mysql-devel", "mariadb-libs", "mysql"),
            ),
            (owned("libsqlite3.so"), names("libsqlite3-dev", "sqlite-devel", "sqlite", "sqlite")),
        ];
        assert(library_texts(map@) =~= known_libraries());
        SystemLibDetector { library_map: map }
    }

    /// The package that provides `library` on the operating system `os`:
    /// the one named for the library itself, else the one named for the
    /// library without its version.
    pub fn find_package(&self, library: &str, os: &str) -> (r: Option<SystemLibrary>)
        ensures
            match r {
                Some(lib) => lib.name@ == library@ && lib.os@ == os@ && find_package_spec(
                    self.library_map@,
                    library@,
                    os@,
                ) == Some(lib.package_name@),
                None => find_package_spec(self.library_map@, library@, os@) is None,
            },
    {
        let name = chars_of(library);
        let found = match lookup_package(&self.library_map, &name, os) {
            Some(p) => Some(p),
            None => {
                let parts = split_chars(&name, '.');
                proof {
                    crate::text::lemma_split_nonempty(name@, '.', 0);
                }
                let mut base: Vec<char> = Vec::new();
                assert(rows(parts@)[0] == parts[0]@);
                crate::text::push_range(&mut base, &parts[0], 0, parts[0].len());
                assert(parts[0]@.subrange(0, parts[0]@.len() as int) =~= parts[0]@);
                if parts.len() >= 2 {
                    assert(rows(parts@)[1] == parts[1]@);
                    base.push('.');
                    crate::text::push_range(&mut base, &parts[1], 0, parts[1].len());
                    assert(parts[1]@.subrange(0, parts[1]@.len() as int) =~= parts[1]@);
                }
                assert(base@ =~= base_name(library@));
                lookup_package(&self.library_map, &base, os)
            },
        };
        match found {
            Some(package_name) => Some(
                SystemLibrary { name: owned(library), package_name, os: owned(os) },
            ),
            None => None,
        }
    }

    /// The command that installs the package of `library`, where its
    /// operating system is a known one.
    pub fn get_install_command(&self, library: &SystemLibrary) -> (r: Option<String>)
        ensures
            crate::text::text_of(r) == install_command_spec(library.os@, library.package_name@),
    {
        let os = library.os.as_str();
        let prefix = if crate::text::same_text(os, "ubuntu") || crate::text::same_text(
            os,
            "debian",
        ) {
            "sudo apt install "
        } else if crate::text::same_text(os, "fedora") {
            "sudo dnf install "
        } else if crate::text::same_text(os, "arch") {
            "sudo pacman -S "
        } else if crate::text::same_text(os, "macos") {
            "brew install "
        } else {
            return None;
        };
        let mut out: Vec<char> = Vec::new();
        push_str(&mut out, prefix);
        push_str(&mut out, library.package_name.as_str());
        assert(out@ =~= prefix@ + library.package_name@);
        Some(string_of(&out))
    }
}

// ---------------------------------------------------------------------------
// Libraries named in error messages
// ---------------------------------------------------------------------------

/// Whether `w` ends with `tail`.
pub open spec fn ends_with(w: Seq<char>, tail: Seq<char>) -> bool {
    w.len() >= tail.len() && w.subrange(w.len() - tail.len(), w.len() as int) == tail
}

/// Whether a word names a shared library: it begins with `lib` and ends
/// with `.so` or holds `.so.`.
pub open spec fn is_library_word(w: Seq<char>) -> bool {
    text_at(w, 0, "lib"@) && (ends_with(w, ".so"@) || contains_text(w, ".so."@))
}

/// A word without the colons at its end and then without the commas at its
/// end.
pub open spec fn without_punctuation(w: Seq<char>) -> Seq<char> {
    w.subrange(0, run_start(w, ',', 0, run_start(w, ':', 0, w.len() as int)))
}

/// The first word of `line` at or after `i` that names a shared library,
/// without the punctuation at its end.
pub open spec fn library_word_from(line: Seq<char>, i: int) -> Option<Seq<char>>
    decreases line.len() - i,
{
    let a = space_end(line, i);
    let b = word_end(line, a);
    if 0 <= i <= a < b <= line.len() {
        if is_library_word(line.subrange(a, b)) {
            Some(without_punctuation(line.subrange(a, b)))
        } else {
            library_word_from(line, b)
        }
    } else {
        None
    }
}

/// Whether a line reports a library that could not be loaded.
pub open spec fn reports_missing(line: Seq<char>) -> bool {
    contains_text(line, "cannot open shared object file"@) || contains_text(
        line,
        "No such file or directory"@,
    )
}

/// The library that the lines from `i` on report as missing: the first
/// library word of the first line that reports one and holds one.
pub open spec fn missing_library_from(lines: Seq<Seq<char>>, i: int) -> Option<Seq<char>>
    decreases lines.len() - i,
{
    if 0 <= i < lines.len() {
        if reports_missing(lines[i]) && library_word_from(lines[i], 0) is Some {
            library_word_from(lines[i], 0)
        } else {
            missing_library_from(lines, i + 1)
        }
    } else {
        None
    }
}

fn ends_with_chars(w: &Vec<char>, tail: &Vec<char>) -> (r: bool)
    ensures
        r == ends_with(w@, tail@),
{
    if w.len() < tail.len() {
        return false;
    }
    let r = text_at_pos(w, w.len() - tail.len(), tail);
    r
}

fn strip_punctuation(w: &Vec<char>) -> (r: Vec<char>)
    ensures
        r@ == without_punctuation(w@),
{
    let mut hi: usize = w.len();
    while hi > 0 && w[hi - 1] == ':'
        invariant
            hi <= w.len(),
            run_start(w@, ':', 0, hi as int) == run_start(w@, ':', 0, w.len() as int),
        decreases hi,
    {
        hi -= 1;
    }
    let ghost mid = hi;
    while hi > 0 && w[hi - 1] == ','
        invariant
            hi <= mid <= w.len(),
            mid == run_start(w@, ':', 0, w.len() as int),
            run_start(w@, ',', 0, hi as int) == run_start(w@, ',', 0, mid as int),
        decreases hi,
    {
        hi -= 1;
    }
    copy_range(w, 0, hi)
}

fn library_word(line: &Vec<char>) -> (r: Option<Vec<char>>)
    ensures
        match r {
            Some(w) => library_word_from(line@, 0) == Some(w@),
            None => library_word_from(line@, 0) is None,
        },
{
    let lib = chars_of("lib");
    let so = chars_of(".so");
    let so_dot = chars_of(".so.");
    let mut i: usize = 0;
    loop
        invariant
            i <= line.len(),
            lib@ == "lib"@,
            so@ == ".so"@,
            so_dot@ == ".so."@,
            library_word_from(line@, i as int) == library_word_from(line@, 0),
        decreases line.len() - i,
    {
        let a = skip_spaces(line, i);
        let b = skip_word(line, a);
        if a >= b {
            return None;
        }
        let w = copy_range(line, a, b);
        if text_at_pos(&w, 0, &lib) && (ends_with_chars(&w, &so) || contains_chars(&w, &so_dot)) {
            return Some(strip_punctuation(&w));
        }
        i = b;
    }
}

impl SystemLibDetector {
    /// The library that an error message reports as missing: the first word
    /// that names a shared library in the first line that says that a shared
    /// object file cannot be opened or that there is no such file, without
    /// the punctuation at the word's end.
    pub fn extract_library_from_error(&self, error: &str) -> (r: Option<String>)
        ensures
            crate::text::text_of(r) == missing_library_from(split(error@, '\n'), 0),
    {
        let cannot = chars_of("cannot open shared object file");
        let no_such = chars_of("No such file or directory");
        let lines = split_chars(&chars_of(error), '\n');
        let ghost ls = rows(lines@);
        let mut i: usize = 0;
        while i < lines.len()
            invariant
                i <= lines.len(),
                ls == rows(lines@),
                ls == split(error@, '\n'),
                cannot@ == "cannot open shared object file"@,
                no_such@ == "No such file or directory"@,
                missing_library_from(ls, i as int) == missing_library_from(ls, 0),
            decreases lines.len() - i,
        {
            assert(ls[i as int] == lines[i as int]@);
            if contains_chars(&lines[i], &cannot) || contains_chars(&lines[i], &no_such) {
                match library_word(&lines[i]) {
                    Some(w) => {
                        return Some(string_of(&w));
                    },
                    None => {},
                }
            }
            i += 1;
        }
        None
    }
}

/// The identifier of the operating system that the lines from `i` on of an
/// `os-release` file give: what follows `ID=` in the first line that begins
/// so, without any `ID=` and quotation marks, trimmed.
pub open spec fn os_id_from(lines: Seq<Seq<char>>, i: int) -> Option<Seq<char>>
    decreases lines.len() - i,
{
    if 0 <= i < lines.len() {
        if text_at(lines[i], 0, "ID="@) {
            Some(
                crate::text::trimmed(
                    crate::native::pattern::replace_spec(
                        crate::native::pattern::replace_spec(lines[i], "ID="@, ""@),
                        "\""@,
                        ""@,
                    ),
                ),
            )
        } else {
            os_id_from(lines, i + 1)
        }
    } else {
        None
    }
}

/// The operating system that the text of an `os-release` file names;
/// `unknown` where it names none.
pub fn os_from_release(content: &str) -> (r: String)
    ensures
        r@ == (match os_id_from(split(content@, '\n'), 0) {
            Some(id) => id,
            None => "unknown"@,
        }),
{
    let key = chars_of("ID=");
    let lines = split_chars(&chars_of(content), '\n');
    let ghost ls = rows(lines@);
    let mut i: usize = 0;
    while i < lines.len()
        invariant
            i <= lines.len(),
            ls == rows(lines@),
            ls == split(content@, '\n'),
            key@ == "ID="@,
            os_id_from(ls, i as int) == os_id_from(ls, 0),
        decreases lines.len() - i,
    {
        assert(ls[i as int] == lines[i as int]@);
        if text_at_pos(&lines[i], 0, &key) {
            let line = string_of(&lines[i]);
            let a = crate::native::pattern::replace_all(line.as_str(), "ID=", "");
            let b = crate::native::pattern::replace_all(a.as_str(), "\"", "");
            let t = crate::text::trim_chars(&chars_of(b.as_str()));
            return string_of(&t);
        }
        i += 1;
    }
    owned("unknown")
}

} // verus!
