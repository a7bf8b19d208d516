//! Package metadata as an index supplies it, and the outcome of resolving a
//! project's dependencies.

use crate::dependency::{Dependency, DependencyView};
use crate::text::{
    chars_of, is_pair, copy_range, owned, push_str, same_text, skip_spaces, skip_word, space_end,
    string_of, word_end,
};
use vstd::prelude::*;

verus! {

/// A short description of a package.
#[derive(Debug)]
pub struct PackageInfo {
    pub name: String,
    pub version: String,
    pub description: Option<String>,
    pub dependencies: Vec<String>,
    pub author: Option<String>,
    pub license: Option<String>,
    pub homepage: Option<String>,
}

/// What the index knows of a package: its description and, for each version
/// text, the files released under it.
#[derive(Debug)]
pub struct PyPIPackageInfo {
    pub info: PyPIInfo,
    pub releases: Vec<(String, Vec<PyPIRelease>)>,
}

/// The description of a package in the index; `requires_dist` holds its
/// requirements as text.
#[derive(Debug)]
pub struct PyPIInfo {
    pub name: String,
    pub version: String,
    pub summary: Option<String>,
    pub description: Option<String>,
    pub author: Option<String>,
    pub license: Option<String>,
    pub home_page: Option<String>,
    pub requires_dist: Option<Vec<String>>,
}

/// One released file.
#[derive(Debug)]
pub struct PyPIRelease {
    pub filename: String,
    pub url: String,
    pub size: Option<u64>,
    pub upload_time: Option<String>,
    pub digests: Option<Vec<(String, String)>>,
}

/// A dependency with the version chosen for it and its own dependencies.
#[derive(Debug)]
pub struct ResolvedDependency {
    pub name: String,
    pub version: String,
    pub is_dev: bool,
    pub dependencies: Vec<ResolvedDependency>,
    pub source: Option<String>,
}

/// The resolved dependencies of a project.
#[derive(Debug)]
pub struct ResolvedDependencies {
    pub dependencies: Vec<ResolvedDependency>,
    pub dev_dependencies: Vec<ResolvedDependency>,
}

/// The line `name==version` with its line break.
pub open spec fn pinned_line(name: Seq<char>, version: Seq<char>) -> Seq<char> {
    name + seq!['=', '='] + version + seq!['\n']
}

/// The lines of the dependencies from `i` on.
pub open spec fn pinned_lines(deps: Seq<ResolvedDependency>, i: int) -> Seq<char>
    decreases deps.len() - i,
{
    if 0 <= i < deps.len() {
        pinned_line(deps[i].name@, deps[i].version@) + pinned_lines(deps, i + 1)
    } else {
        Seq::empty()
    }
}

/// The requirements file of resolved dependencies: a heading, one pinned
/// line for each dependency and, where there are any, the development
/// dependencies under a heading of their own.
pub open spec fn resolved_text(
    deps: Seq<ResolvedDependency>,
    dev: Seq<ResolvedDependency>,
) -> Seq<char> {
    "# Resolved dependencies\n"@ + pinned_lines(deps, 0) + (if dev.len() > 0 {
        "\n# Development dependencies\n"@ + pinned_lines(dev, 0)
    } else {
        Seq::empty()
    })
}

fn push_pinned(out: &mut Vec<char>, deps: &Vec<ResolvedDependency>)
    ensures
        final(out)@ == old(out)@ + pinned_lines(deps@, 0),
{
    let ghost before = out@;
    let mut i: usize = 0;
    assert(before + Seq::<char>::empty() =~= before);
    let ghost mut done: Seq<char> = Seq::empty();
    while i < deps.len()
        invariant
            i <= deps.len(),
            out@ == before + done,
            done + pinned_lines(deps@, i as int) == pinned_lines(deps@, 0),
        decreases deps.len() - i,
    {
        let ghost start = out@;
        push_str(out, deps[i].name.as_str());
        out.push('=');
        out.push('=');
        push_str(out, deps[i].version.as_str());
        out.push('\n');
        proof {
            let line = pinned_line(deps@[i as int].name@, deps@[i as int].version@);
            assert(out@ =~= start + line);
            assert((done + line) + pinned_lines(deps@, i + 1) =~= done + (line + pinned_lines(
                deps@,
                i + 1,
            )));
            assert(out@ =~= before + (done + line));
            done = done + line;
        }
        i += 1;
    }
    proof {
        assert(done + Seq::<char>::empty() =~= done);
    }
}

impl ResolvedDependencies {
    /// No dependencies.
    pub fn new() -> (r: ResolvedDependencies)
        ensures
            r.dependencies@.len() == 0,
            r.dev_dependencies@.len() == 0,
    {
        ResolvedDependencies { dependencies: Vec::new(), dev_dependencies: Vec::new() }
    }

    /// The requirements file that pins every dependency to its version.
    pub fn to_requirements_txt(&self) -> (r: String)
        ensures
            r@ == resolved_text(self.dependencies@, self.dev_dependencies@),
    {
        let mut out: Vec<char> = Vec::new();
        push_str(&mut out, "# Resolved dependencies\n");
        push_pinned(&mut out, &self.dependencies);
        if self.dev_dependencies.len() > 0 {
            let ghost start = out@;
            push_str(&mut out, "\n# Development dependencies\n");
            push_pinned(&mut out, &self.dev_dependencies);
            assert(out@ =~= start + ("\n# Development dependencies\n"@ + pinned_lines(
                self.dev_dependencies@,
                0,
            )));
        } else {
            assert(out@ + Seq::<char>::empty() =~= out@);
        }
        string_of(&out)
    }
}

// ---------------------------------------------------------------------------
// Semantic versions
// ---------------------------------------------------------------------------

/// The canonical text of the semantic version that `text` denotes; nothing
/// where it denotes none.
pub uninterp spec fn semver_canonical(text: Seq<char>) -> Option<Seq<char>>;

/// Whether `text` is a requirement on semantic versions.
pub uninterp spec fn semver_requirement(text: Seq<char>) -> bool;

/// Whether the semantic version `version` meets the requirement
/// `requirement`; nothing where one of the two texts does not denote what it
/// should.
pub uninterp spec fn semver_satisfies(requirement: Seq<char>, version: Seq<char>) -> Option<bool>;

/// Whether the semantic version `a` precedes the semantic version `b`;
/// nothing where one of the two texts denotes no version.
pub uninterp spec fn semver_precedes(a: Seq<char>, b: Seq<char>) -> Option<bool>;

/// `semver::Version::parse` and the version's `to_string`: the text of the
/// parsed version as the crate writes it, or nothing where parsing fails.
/// The result is a function of the text alone.
#[verifier::external_body]
fn canonical_semver(text: &str) -> (r: Option<String>)
    ensures
        crate::text::text_of(r) == semver_canonical(text@),
{
    match semver::Version::parse(text) {
        Ok(v) => Some(v.to_string()),
        Err(_) => None,
    }
}

/// `semver::VersionReq::parse`: whether the text parses as a requirement.
#[verifier::external_body]
fn is_semver_requirement(text: &str) -> (r: bool)
    ensures
        r == semver_requirement(text@),
{
    semver::VersionReq::parse(text).is_ok()
}

/// `semver::VersionReq::matches`, on a requirement and a version given as
/// text: what `matches` returns for the two parsed values, or nothing where
/// one of them does not parse.
#[verifier::external_body]
fn satisfies_semver(requirement: &str, version: &str) -> (r: Option<bool>)
    ensures
        r == semver_satisfies(requirement@, version@),
{
    match (semver::VersionReq::parse(requirement), semver::Version::parse(version)) {
        (Ok(r), Ok(v)) => Some(r.matches(&v)),
        _ => None,
    }
}

/// The order of `semver::Version`, on two versions given as text: whether
/// the first parsed value is less than the second, or nothing where one of
/// them does not parse.
#[verifier::external_body]
fn precedes_semver(a: &str, b: &str) -> (r: Option<bool>)
    ensures
        r == semver_precedes(a@, b@),
{
    match (semver::Version::parse(a), semver::Version::parse(b)) {
        (Ok(x), Ok(y)) => Some(x < y),
        _ => None,
    }
}

/// Why no version was found.
#[derive(Debug, Clone, Copy, PartialEq, Eq, Structural)]
pub enum VersionChoiceError {
    /// The requested version is no requirement on semantic versions.
    InvalidRequirement,
    /// The requested version is not among the releases.
    ExactVersionNotFound,
}

/// The best candidate after `candidate` has been looked at: `candidate`
/// where it meets the requirement and there was no best yet or the best
/// precedes it, else the best as it was.
pub open spec fn next_best_spec(
    best: Option<usize>,
    candidate: usize,
    allowed: Option<bool>,
    follows: Option<bool>,
) -> Option<usize> {
    if allowed == Some(true) && (best is None || follows == Some(true)) {
        Some(candidate)
    } else {
        best
    }
}

/// The best candidate after `candidate` has been looked at, given whether
/// the candidate meets the requirement and whether the best so far precedes
/// it.
pub fn next_best(
    best: Option<usize>,
    candidate: usize,
    allowed: Option<bool>,
    follows: Option<bool>,
) -> (r: Option<usize>)
    ensures
        r == next_best_spec(best, candidate, allowed, follows),
{
    let ok = match allowed {
        Some(true) => true,
        _ => false,
    };
    let better = match (best, follows) {
        (None, _) => true,
        (Some(_), Some(true)) => true,
        _ => false,
    };
    if ok && better {
        Some(candidate)
    } else {
        best
    }
}

/// The position of the best among the first `n` keys for the requirement:
/// of the keys that are semantic versions and meet it, the one that no
/// later one of them follows.
pub open spec fn best_semver(keys: Seq<Seq<char>>, requirement: Seq<char>, n: int) -> Option<
    usize,
>
    decreases n,
{
    if n <= 0 || n > keys.len() || n > usize::MAX {
        None
    } else {
        let prev = best_semver(keys, requirement, n - 1);
        next_best_spec(
            prev,
            (n - 1) as usize,
            if semver_canonical(keys[n - 1]) is Some {
                semver_satisfies(requirement, keys[n - 1])
            } else {
                None
            },
            match prev {
                Some(b) => semver_precedes(keys[b as int], keys[n - 1]),
                None => None,
            },
        )
    }
}

/// Whether `version` is one of the keys.
pub open spec fn has_key(keys: Seq<Seq<char>>, version: Seq<char>) -> bool {
    exists|i: int| 0 <= i < keys.len() && #[trigger] keys[i] == version
}

/// The version to take for a request: with the constraint `>=` the best
/// release that meets `>=requested` as semantic versions go, and the
/// requested version itself where none does; with `==` the requested
/// version, which must be among the releases; otherwise the package's
/// current version.
pub open spec fn find_best_spec(
    keys: Seq<Seq<char>>,
    current: Seq<char>,
    requested: Seq<char>,
    constraint: Option<Seq<char>>,
) -> Result<Seq<char>, VersionChoiceError> {
    if constraint == Some(seq!['>', '=']) {
        if !semver_requirement(seq!['>', '='] + requested) {
            Err(VersionChoiceError::InvalidRequirement)
        } else {
            match best_semver(keys, seq!['>', '='] + requested, keys.len() as int) {
                Some(b) => Ok(semver_canonical(keys[b as int])->0),
                None => Ok(requested),
            }
        }
    } else if constraint == Some(seq!['=', '=']) {
        if has_key(keys, requested) {
            Ok(requested)
        } else {
            Err(VersionChoiceError::ExactVersionNotFound)
        }
    } else {
        Ok(current)
    }
}

/// The version texts under which the package has releases.
pub open spec fn release_keys(info: PyPIPackageInfo) -> Seq<Seq<char>> {
    Seq::new(info.releases@.len(), |i: int| info.releases@[i].0@)
}

/// The version to take for the request of `requested_version` under
/// `constraint`: see [`find_best_spec`].
pub fn find_best_version_static(
    package_info: &PyPIPackageInfo,
    requested_version: &str,
    constraint: &Option<String>,
) -> (r: Result<String, VersionChoiceError>)
    ensures
        match r {
            Ok(v) => find_best_spec(
                release_keys(*package_info),
                package_info.info.version@,
                requested_version@,
                crate::text::text_of(*constraint),
            ) == Ok::<Seq<char>, VersionChoiceError>(v@),
            Err(e) => find_best_spec(
                release_keys(*package_info),
                package_info.info.version@,
                requested_version@,
                crate::text::text_of(*constraint),
            ) == Err::<Seq<char>, VersionChoiceError>(e),
        },
{
    let ghost keys = release_keys(*package_info);
    let op: Vec<char> = match constraint {
        Some(c) => chars_of(c.as_str()),
        None => Vec::new(),
    };
    if constraint.is_some() && is_pair(&op, '>', '=') {
        let mut req: Vec<char> = Vec::new();
        req.push('>');
        req.push('=');
        push_str(&mut req, requested_version);
        assert(req@ =~= seq!['>', '='] + requested_version@);
        let requirement = string_of(&req);
        if !is_semver_requirement(requirement.as_str()) {
            return Err(VersionChoiceError::InvalidRequirement);
        }
        let mut best: Option<usize> = None;
        let mut i: usize = 0;
        while i < package_info.releases.len()
            invariant
                i <= package_info.releases.len(),
                keys == release_keys(*package_info),
                requirement@ == seq!['>', '='] + requested_version@,
                best == best_semver(keys, requirement@, i as int),
                best matches Some(b) ==> b < i && semver_canonical(keys[b as int]) is Some,
            decreases package_info.releases.len() - i,
        {
            let key = package_info.releases[i].0.as_str();
            assert(keys[i as int] == key@);
            let allowed = match canonical_semver(key) {
                Some(_) => satisfies_semver(requirement.as_str(), key),
                None => None,
            };
            let follows = match best {
                Some(b) => {
                    assert(keys[b as int] == package_info.releases[b as int].0@);
                    precedes_semver(package_info.releases[b].0.as_str(), key)
                },
                None => None,
            };
            best = next_best(best, i, allowed, follows);
            i += 1;
        }
        match best {
            Some(b) => {
                assert(keys[b as int] == package_info.releases[b as int].0@);
                match canonical_semver(package_info.releases[b].0.as_str()) {
                    Some(text) => Ok(text),
                    None => Ok(owned(requested_version)),
                }
            },
            None => Ok(owned(requested_version)),
        }
    } else if constraint.is_some() && is_pair(&op, '=', '=') {
        let mut i: usize = 0;
        assert(seq!['=', '='][0] != seq!['>', '='][0]);
        while i < package_info.releases.len()
            invariant
                i <= package_info.releases.len(),
                keys == release_keys(*package_info),
                crate::text::text_of(*constraint) == Some(seq!['=', '=']),
                seq!['=', '='] != seq!['>', '='],
                forall|j: int| 0 <= j < i ==> #[trigger] keys[j] != requested_version@,
            decreases package_info.releases.len() - i,
        {
            assert(keys[i as int] == package_info.releases[i as int].0@);
            if same_text(package_info.releases[i].0.as_str(), requested_version) {
                return Ok(owned(requested_version));
            }
            i += 1;
        }
        Err(VersionChoiceError::ExactVersionNotFound)
    } else {
        Ok(package_info.info.version.clone())
    }
}

// ---------------------------------------------------------------------------
// Requirements in words
// ---------------------------------------------------------------------------

/// The dependency that a requirement in words denotes: its first word is
/// the name and its second, where it has one, the version; none for a
/// blank text.
pub open spec fn requirement_words_spec(req: Seq<char>) -> Option<DependencyView> {
    let a = space_end(req, 0);
    let b = word_end(req, a);
    let c = space_end(req, b);
    let d = word_end(req, c);
    if a >= req.len() {
        None
    } else {
        Some(
            DependencyView {
                name: req.subrange(a, b),
                version: if c < req.len() {
                    Some(req.subrange(c, d))
                } else {
                    None
                },
                version_constraint: None,
                is_dev: false,
                source: None,
            },
        )
    }
}

/// The dependency that a requirement in words, such as `requests 2.0`,
/// denotes.
pub fn parse_requirement_string_static(req: &str) -> (r: Option<Dependency>)
    ensures
        match r {
            Some(d) => requirement_words_spec(req@) == Some(d@),
            None => requirement_words_spec(req@) is None,
        },
{
    let s = chars_of(req);
    let a = skip_spaces(&s, 0);
    if a >= s.len() {
        return None;
    }
    let b = skip_word(&s, a);
    let c = skip_spaces(&s, b);
    let d = skip_word(&s, c);
    let version = if c < s.len() {
        Some(string_of(&copy_range(&s, c, d)))
    } else {
        None
    };
    Some(
        Dependency {
            name: string_of(&copy_range(&s, a, b)),
            version,
            version_constraint: None,
            is_dev: false,
            source: None,
        },
    )
}

} // verus!
