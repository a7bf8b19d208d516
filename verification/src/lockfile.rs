//! Lockfiles: the packages of a resolution, pinned to their versions.

use crate::markers::{parse_requirement, requirement_spec};
use crate::pep440::{format_spec, Version};
use crate::resolver::{PyPIPackageInfo, PyPIRelease};
use crate::text::{chars_of, owned, push_str, same_text, string_of, texts};
use crate::walk::{held, DependencyResolver, ResolveError, ResolveFailure};
use vstd::prelude::*;

verus! {

/// Where a locked package comes from.
#[derive(Debug)]
pub enum PackageSource {
    PyPI { url: String },
    Git { url: String, rev: String },
    Path { path: String },
}

/// One locked package.
#[derive(Debug)]
pub struct LockedPackage {
    pub name: String,
    pub version: String,
    pub dependencies: Vec<String>,
    pub hashes: Vec<String>,
    pub source: PackageSource,
}

/// What a lockfile says of itself.
#[derive(Debug)]
pub struct LockfileMetadata {
    pub version: String,
    pub generator: String,
    pub timestamp: u64,
    pub python_version: Option<String>,
}

/// A lockfile.
#[derive(Debug)]
pub struct Lockfile {
    pub metadata: LockfileMetadata,
    pub packages: Vec<LockedPackage>,
}

/// The address of a package in the index.
pub open spec fn index_url(name: Seq<char>) -> Seq<char> {
    "https://pypi.org/simple/"@ + name + seq!['/']
}

/// Whether the package is `name` at `version` from the index, with neither
/// dependencies nor hashes recorded.
pub open spec fn is_pinned(p: LockedPackage, name: Seq<char>, version: Seq<char>) -> bool {
    &&& p.name@ == name
    &&& p.version@ == version
    &&& p.dependencies@.len() == 0
    &&& p.hashes@.len() == 0
    &&& p.source matches PackageSource::PyPI { url }
    &&& url@ == index_url(name)
}

/// Whether `m` is what a lockfile made at the time `timestamp` says of
/// itself: the format `1.0`, this generator, and no interpreter version.
pub open spec fn made_at(m: LockfileMetadata, timestamp: u64) -> bool {
    &&& m.version@ == "1.0"@
    &&& m.generator@ == "snakepit"@
    &&& m.timestamp == timestamp
    &&& m.python_version is None
}

impl Lockfile {
    /// An empty lockfile made at the time `timestamp`, in seconds since the
    /// epoch.
    pub fn new(timestamp: u64) -> (r: Lockfile)
        ensures
            made_at(r.metadata, timestamp),
            r.packages@.len() == 0,
    {
        Lockfile {
            metadata: LockfileMetadata {
                version: owned("1.0"),
                generator: owned("snakepit"),
                timestamp,
                python_version: None,
            },
            packages: Vec::new(),
        }
    }

    /// Adds a package at the end.
    pub fn add_package(&mut self, package: LockedPackage)
        ensures
            final(self).metadata == old(self).metadata,
            final(self).packages@ == old(self).packages@.push(package),
    {
        self.packages.push(package);
    }

    /// Whether every package has at least one hash.
    pub fn verify_integrity(&self) -> (r: bool)
        ensures
            r == (forall|i: int|
                0 <= i < self.packages@.len() ==> (#[trigger] self.packages@[i]).hashes@.len()
                    > 0),
    {
        let mut i: usize = 0;
        while i < self.packages.len()
            invariant
                i <= self.packages.len(),
                forall|j: int| 0 <= j < i ==> (#[trigger] self.packages@[j]).hashes@.len() > 0,
            decreases self.packages.len() - i,
        {
            if self.packages[i].hashes.len() == 0 {
                return false;
            }
            i += 1;
        }
        true
    }

    /// The lockfile of a resolution, made at the time `timestamp`: one
    /// package from the index for each entry, in order, pinned to the text
    /// of its version.
    pub fn from_resolved(resolved: &Vec<(String, Version)>, timestamp: u64) -> (r: Lockfile)
        ensures
            made_at(r.metadata, timestamp),
            r.packages@.len() == resolved@.len(),
            forall|i: int|
                0 <= i < resolved@.len() ==> is_pinned(
                    #[trigger] r.packages@[i],
                    resolved@[i].0@,
                    format_spec(resolved@[i].1@),
                ),
    {
        let mut lockfile = Lockfile::new(timestamp);
        let mut i: usize = 0;
        while i < resolved.len()
            invariant
                i <= resolved.len(),
                made_at(lockfile.metadata, timestamp),
                lockfile.packages@.len() == i,
                forall|j: int|
                    0 <= j < i ==> is_pinned(
                        #[trigger] lockfile.packages@[j],
                        resolved@[j].0@,
                        format_spec(resolved@[j].1@),
                    ),
            decreases resolved.len() - i,
        {
            let name = &resolved[i].0;
            let mut url: Vec<char> = Vec::new();
            push_str(&mut url, "https://pypi.org/simple/");
            push_str(&mut url, name.as_str());
            url.push('/');
            assert(url@ =~= index_url(name@));
            let locked = LockedPackage {
                name: name.clone(),
                version: resolved[i].1.format(),
                dependencies: Vec::new(),
                hashes: Vec::new(),
                source: PackageSource::PyPI { url: string_of(&url) },
            };
            lockfile.add_package(locked);
            i += 1;
        }
        lockfile
    }
}

/// The files that the metadata lists under the version text `version`,
/// looked up from position `i` on: the first entry of that version counts.
pub open spec fn files_from(info: PyPIPackageInfo, version: Seq<char>, i: int) -> Option<
    Seq<PyPIRelease>,
>
    decreases info.releases@.len() - i,
{
    if i < 0 || i >= info.releases@.len() {
        None
    } else if info.releases@[i].0@ == version {
        Some(info.releases@[i].1@)
    } else {
        files_from(info, version, i + 1)
    }
}

/// The digest of the kind `kind` among the digests from position `i` on:
/// the first of that kind counts.
pub open spec fn digest_from(digests: Seq<(String, String)>, kind: Seq<char>, i: int) -> Option<
    Seq<char>,
>
    decreases digests.len() - i,
{
    if i < 0 || i >= digests.len() {
        None
    } else if digests[i].0@ == kind {
        Some(digests[i].1@)
    } else {
        digest_from(digests, kind, i + 1)
    }
}

/// The SHA-256 digest that is recorded for a file.
pub open spec fn sha256_of(file: PyPIRelease) -> Option<Seq<char>> {
    match file.digests {
        Some(digests) => digest_from(digests@, "sha256"@, 0),
        None => None,
    }
}

/// The hashes of the files from `i` on, appended to `acc`: for each file
/// with a SHA-256 digest the text `sha256:` and the digest.
pub open spec fn hashes_acc(files: Seq<PyPIRelease>, i: int, acc: Seq<Seq<char>>) -> Seq<Seq<char>>
    decreases files.len() - i,
{
    if i < 0 || i >= files.len() {
        acc
    } else {
        match sha256_of(files[i]) {
            Some(d) => hashes_acc(files, i + 1, acc.push("sha256:"@ + d)),
            None => hashes_acc(files, i + 1, acc),
        }
    }
}

/// The hashes of the files that the metadata lists under `version`.
pub open spec fn hashes_spec(info: PyPIPackageInfo, version: Seq<char>) -> Seq<Seq<char>> {
    match files_from(info, version, 0) {
        Some(files) => hashes_acc(files, 0, Seq::empty()),
        None => Seq::empty(),
    }
}

/// The pins for the requirements from `i` on, appended to `acc`: for each
/// requirement that can be read its name, `==` and `version`.
pub open spec fn pins_acc(reqs: Seq<Seq<char>>, version: Seq<char>, i: int, acc: Seq<Seq<char>>) -> Seq<
    Seq<char>,
>
    decreases reqs.len() - i,
{
    if i < 0 || i >= reqs.len() {
        acc
    } else {
        match requirement_spec(reqs[i]) {
            Ok(d) => pins_acc(reqs, version, i + 1, acc.push(d.name + "=="@ + version)),
            Err(_) => pins_acc(reqs, version, i + 1, acc),
        }
    }
}

/// The requirements that the metadata states, as text.
pub open spec fn stated_texts(info: PyPIPackageInfo) -> Seq<Seq<char>> {
    match info.info.requires_dist {
        Some(v) => texts(v@),
        None => Seq::empty(),
    }
}

/// Whether the package is `name` at `version` from the index, with the
/// hashes and the pinned dependencies that the metadata `info` gives.
pub open spec fn is_locked(p: LockedPackage, name: Seq<char>, version: Seq<char>, info: PyPIPackageInfo) -> bool {
    &&& p.name@ == name
    &&& p.version@ == version
    &&& texts(p.dependencies@) == pins_acc(stated_texts(info), version, 0, Seq::empty())
    &&& texts(p.hashes@) == hashes_spec(info, version)
    &&& p.source matches PackageSource::PyPI { url }
    &&& url@ == index_url(name)
}

/// The digest of the kind `kind` among the digests.
fn find_digest<'a>(digests: &'a Vec<(String, String)>, kind: &str) -> (r: Option<&'a String>)
    ensures
        match r {
            Some(d) => digest_from(digests@, kind@, 0) == Some(d@),
            None => digest_from(digests@, kind@, 0) is None,
        },
{
    let mut i: usize = 0;
    while i < digests.len()
        invariant
            i <= digests.len(),
            digest_from(digests@, kind@, i as int) == digest_from(digests@, kind@, 0),
        decreases digests.len() - i,
    {
        if same_text(digests[i].0.as_str(), kind) {
            return Some(&digests[i].1);
        }
        i += 1;
    }
    None
}

/// The files that the metadata lists under the version text `version`.
fn find_files<'a>(info: &'a PyPIPackageInfo, version: &str) -> (r: Option<&'a Vec<PyPIRelease>>)
    ensures
        match r {
            Some(files) => files_from(*info, version@, 0) == Some(files@),
            None => files_from(*info, version@, 0) is None,
        },
{
    let mut i: usize = 0;
    while i < info.releases.len()
        invariant
            i <= info.releases.len(),
            files_from(*info, version@, i as int) == files_from(*info, version@, 0),
        decreases info.releases.len() - i,
    {
        if same_text(info.releases[i].0.as_str(), version) {
            return Some(&info.releases[i].1);
        }
        i += 1;
    }
    None
}

/// The hashes of the files that the metadata lists under `version`.
fn collect_hashes(info: &PyPIPackageInfo, version: &str) -> (r: Vec<String>)
    ensures
        texts(r@) == hashes_spec(*info, version@),
{
    let mut out: Vec<String> = Vec::new();
    assert(texts(out@) =~= Seq::<Seq<char>>::empty());
    let files = match find_files(info, version) {
        Some(files) => files,
        None => {
            return out;
        },
    };
    let mut i: usize = 0;
    while i < files.len()
        invariant
            i <= files.len(),
            hashes_acc(files@, i as int, texts(out@)) == hashes_acc(files@, 0, Seq::empty()),
        decreases files.len() - i,
    {
        let ghost before = texts(out@);
        match &files[i].digests {
            Some(digests) => match find_digest(digests, "sha256") {
                Some(d) => {
                    let mut line: Vec<char> = Vec::new();
                    push_str(&mut line, "sha256:");
                    push_str(&mut line, d.as_str());
                    assert(line@ =~= "sha256:"@ + d@);
                    out.push(string_of(&line));
                    assert(texts(out@) =~= before.push("sha256:"@ + d@));
                },
                None => {},
            },
            None => {},
        }
        i += 1;
    }
    out
}

/// The pins for the requirements that the metadata states.
fn collect_pins(info: &PyPIPackageInfo, version: &str) -> (r: Vec<String>)
    ensures
        texts(r@) == pins_acc(stated_texts(*info), version@, 0, Seq::empty()),
{
    let mut out: Vec<String> = Vec::new();
    assert(texts(out@) =~= Seq::<Seq<char>>::empty());
    let stated = match &info.info.requires_dist {
        Some(list) => list,
        None => {
            return out;
        },
    };
    let ghost reqs = texts(stated@);
    let mut i: usize = 0;
    while i < stated.len()
        invariant
            i <= stated.len(),
            reqs == texts(stated@),
            reqs == stated_texts(*info),
            pins_acc(reqs, version@, i as int, texts(out@)) == pins_acc(
                reqs,
                version@,
                0,
                Seq::empty(),
            ),
        decreases stated.len() - i,
    {
        let ghost before = texts(out@);
        assert(reqs[i as int] == stated[i as int]@);
        match parse_requirement(stated[i].as_str()) {
            Ok(d) => {
                let mut line: Vec<char> = chars_of(d.name.as_str());
                push_str(&mut line, "==");
                push_str(&mut line, version);
                assert(line@ =~= d@.name + "=="@ + version@);
                out.push(string_of(&line));
                assert(texts(out@) =~= before.push(d@.name + "=="@ + version@));
            },
            Err(_) => {},
        }
        i += 1;
    }
    out
}

/// Makes lockfiles with the hashes and dependencies that metadata gives.
#[derive(Debug)]
pub struct LockfileGenerator {
    pub resolver: DependencyResolver,
}

impl LockfileGenerator {
    /// A generator that holds no metadata.
    pub fn new() -> (r: LockfileGenerator)
        ensures
            r.resolver.known@.len() == 0,
    {
        LockfileGenerator { resolver: DependencyResolver::new() }
    }

    /// The locked package for `name` at `version`, with what the metadata
    /// `info` gives: the hash of each file released under the version that
    /// has a SHA-256 digest, and one pin for each requirement that can be
    /// read.
    pub fn create_locked_package(name: &str, version: &Version, info: &PyPIPackageInfo) -> (r:
        LockedPackage)
        ensures
            is_locked(r, name@, format_spec(version@), *info),
    {
        let text = version.format();
        let hashes = collect_hashes(info, text.as_str());
        let dependencies = collect_pins(info, text.as_str());
        let mut url: Vec<char> = Vec::new();
        push_str(&mut url, "https://pypi.org/simple/");
        push_str(&mut url, name);
        url.push('/');
        assert(url@ =~= index_url(name@));
        LockedPackage {
            name: owned(name),
            version: text,
            dependencies,
            hashes,
            source: PackageSource::PyPI { url: string_of(&url) },
        }
    }

    /// The lockfile of a resolution, made at the time `timestamp`, with the
    /// metadata that the generator holds: one locked package for each
    /// entry, in order. It fails at the first entry whose metadata is
    /// lacking or whose package the index does not know.
    pub fn generate_from_solver(&self, resolved: &Vec<(String, Version)>, timestamp: u64) -> (r: Result<
        Lockfile,
        ResolveError,
    >)
        ensures
            match r {
                Ok(lockfile) => {
                    &&& made_at(lockfile.metadata, timestamp)
                    &&& lockfile.packages@.len() == resolved@.len()
                    &&& forall|i: int|
                        0 <= i < resolved@.len() ==> locked_from(
                            self.resolver.known@,
                            #[trigger] lockfile.packages@[i],
                            resolved@[i],
                        )
                },
                Err(e) => exists|i: int|
                    first_lack(self.resolver.known@, resolved@, i) && #[trigger] lack_of(
                        self.resolver.known@,
                        resolved@[i].0@,
                    ) == Some(e@),
            },
    {
        let mut lockfile = Lockfile::new(timestamp);
        let mut i: usize = 0;
        while i < resolved.len()
            invariant
                i <= resolved.len(),
                made_at(lockfile.metadata, timestamp),
                lockfile.packages@.len() == i,
                forall|j: int|
                    0 <= j < i ==> locked_from(
                        self.resolver.known@,
                        #[trigger] lockfile.packages@[j],
                        resolved@[j],
                    ),
                forall|j: int|
                    0 <= j < i ==> lack_of(self.resolver.known@, (#[trigger] resolved@[j]).0@) is None,
            decreases resolved.len() - i,
        {
            let name = &resolved[i].0;
            match self.resolver.fetch_package_info(name.as_str()) {
                None => {
                    assert(first_lack(self.resolver.known@, resolved@, i as int));
                    return Err(ResolveError::Needs(owned(name.as_str())));
                },
                Some(None) => {
                    assert(first_lack(self.resolver.known@, resolved@, i as int));
                    return Err(ResolveError::NotFound(owned(name.as_str())));
                },
                Some(Some(info)) => {
                    let locked = LockfileGenerator::create_locked_package(
                        name.as_str(),
                        &resolved[i].1,
                        info,
                    );
                    lockfile.add_package(locked);
                },
            }
            i += 1;
        }
        Ok(lockfile)
    }
}

/// Whether `p` is the locked package for the entry, with what the metadata
/// on the shelf gives for it.
pub open spec fn locked_from(
    shelf: Seq<(String, Option<PyPIPackageInfo>)>,
    p: LockedPackage,
    entry: (String, Version),
) -> bool {
    match held(shelf, entry.0@) {
        Some(Some(info)) => is_locked(p, entry.0@, format_spec(entry.1@), info),
        _ => false,
    }
}

/// Why the shelf cannot serve the package `name`, if it cannot: its
/// metadata was not fetched, or the index does not know it.
pub open spec fn lack_of(shelf: Seq<(String, Option<PyPIPackageInfo>)>, name: Seq<char>) -> Option<
    ResolveFailure,
> {
    match held(shelf, name) {
        None => Some(ResolveFailure::Needs(name)),
        Some(None) => Some(ResolveFailure::NotFound(name)),
        Some(Some(_)) => None,
    }
}

/// Whether the entry at `i` is the first whose package the shelf cannot
/// serve.
pub open spec fn first_lack(
    shelf: Seq<(String, Option<PyPIPackageInfo>)>,
    resolved: Seq<(String, Version)>,
    i: int,
) -> bool {
    &&& 0 <= i < resolved.len()
    &&& lack_of(shelf, resolved[i].0@) is Some
    &&& forall|j: int| 0 <= j < i ==> lack_of(shelf, (#[trigger] resolved[j]).0@) is None
}

} // verus!
