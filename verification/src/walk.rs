//! The walk over the dependencies of a project: each declared dependency
//! gets a version, and below it the dependencies that its metadata states,
//! as a tree. The walk reads metadata from what the resolver holds and does
//! no fetching: where it lacks the metadata of a package it stops and names
//! the package, to be run again once the metadata is there. A package is
//! not entered again below itself, and the tree is cut at a given depth.

use crate::dependency::{Dependency, DependencyView, ProjectDependencies};
use crate::resolver::{
    find_best_spec, find_best_version_static, parse_requirement_string_static, release_keys,
    requirement_words_spec, PyPIPackageInfo, ResolvedDependencies, ResolvedDependency,
    VersionChoiceError,
};
use crate::solver::requirement_texts;
use crate::text::{
    chars_of, clone_strings, contains_chars, contains_text, copy_text, includes, owned, same_text,
    texts,
};
use vstd::prelude::*;

verus! {

/// The mathematical value of a [`ResolvedDependency`].
pub struct ResolvedView {
    pub name: Seq<char>,
    pub version: Seq<char>,
    pub is_dev: bool,
    pub dependencies: Seq<ResolvedView>,
    pub source: Option<Seq<char>>,
}

/// The value of a resolved dependency, with the values of those below it.
pub open spec fn tree_of(d: ResolvedDependency) -> ResolvedView
    decreases d,
{
    ResolvedView {
        name: d.name@,
        version: d.version@,
        is_dev: d.is_dev,
        dependencies: Seq::new(
            d.dependencies.len() as nat,
            |i: int|
                if 0 <= i < d.dependencies.len() {
                    tree_of(d.dependencies[i])
                } else {
                    arbitrary()
                },
        ),
        source: crate::text::text_of(d.source),
    }
}

/// The values of a sequence of resolved dependencies.
pub open spec fn trees_of(v: Seq<ResolvedDependency>) -> Seq<ResolvedView> {
    Seq::new(v.len(), |i: int| tree_of(v[i]))
}

/// Why a walk stopped.
#[derive(Debug)]
pub enum ResolveError {
    /// The resolver does not hold the metadata of this package yet.
    Needs(String),
    /// The index does not know this package.
    NotFound(String),
    /// No version could be chosen for a declared dependency.
    Choice(VersionChoiceError),
}

/// The mathematical value of a [`ResolveError`].
pub enum ResolveFailure {
    Needs(Seq<char>),
    NotFound(Seq<char>),
    Choice(VersionChoiceError),
}

impl View for ResolveError {
    type V = ResolveFailure;

    open spec fn view(&self) -> ResolveFailure {
        match self {
            ResolveError::Needs(name) => ResolveFailure::Needs(name@),
            ResolveError::NotFound(name) => ResolveFailure::NotFound(name@),
            ResolveError::Choice(e) => ResolveFailure::Choice(*e),
        }
    }
}

/// What the resolver holds: for each package name the metadata that was
/// fetched for it, or that the index does not know the package.
pub type Shelf = Seq<(String, Option<PyPIPackageInfo>)>;

/// What the shelf holds for `name`, looked up from position `i` on: the
/// first entry of that name counts.
pub open spec fn held_from(shelf: Shelf, name: Seq<char>, i: int) -> Option<Option<PyPIPackageInfo>>
    decreases shelf.len() - i,
{
    if i < 0 || i >= shelf.len() {
        None
    } else if shelf[i].0@ == name {
        Some(shelf[i].1)
    } else {
        held_from(shelf, name, i + 1)
    }
}

/// Whether no name has two entries on the shelf.
pub open spec fn distinct_keys(shelf: Shelf) -> bool {
    forall|i: int, j: int|
        0 <= i < j < shelf.len() ==> (#[trigger] shelf[i]).0@ != (#[trigger] shelf[j]).0@
}

/// What the shelf holds for `name`.
pub open spec fn held(shelf: Shelf, name: Seq<char>) -> Option<Option<PyPIPackageInfo>> {
    held_from(shelf, name, 0)
}

/// The text that marks a requirement as belonging to an extra.
pub open spec fn extra_mark() -> Seq<char> {
    seq!['e', 'x', 't', 'r', 'a', ' ', '=', '=']
}

/// The version for a declared dependency of a package with the metadata
/// `info`: the best for the requested version where the dependency requests
/// one, else the package's current version.
pub open spec fn chosen_version(info: PyPIPackageInfo, dep: DependencyView) -> Result<
    Seq<char>,
    VersionChoiceError,
> {
    match dep.version {
        Some(requested) => find_best_spec(
            release_keys(info),
            info.info.version@,
            requested,
            dep.version_constraint,
        ),
        None => Ok(info.info.version@),
    }
}

/// The tree below the dependency `dep`, entered with the packages of
/// `visited` above it, `depth` levels deep at most.
pub open spec fn node_spec(shelf: Shelf, dep: DependencyView, visited: Seq<Seq<char>>, depth: nat) -> Result<
    ResolvedView,
    ResolveFailure,
>
    decreases depth, 1nat, 0nat,
{
    match held(shelf, dep.name) {
        None => Err(ResolveFailure::Needs(dep.name)),
        Some(None) => Err(ResolveFailure::NotFound(dep.name)),
        Some(Some(info)) => match chosen_version(info, dep) {
            Err(e) => Err(ResolveFailure::Choice(e)),
            Ok(version) => {
                let below = if depth == 0 {
                    Ok(Seq::empty())
                } else {
                    children_spec(
                        shelf,
                        requirement_texts(info),
                        visited.push(dep.name),
                        (depth - 1) as nat,
                        0,
                        Seq::empty(),
                    )
                };
                match below {
                    Err(name) => Err(ResolveFailure::Needs(name)),
                    Ok(dependencies) => Ok(
                        ResolvedView {
                            name: dep.name,
                            version,
                            is_dev: dep.is_dev,
                            dependencies,
                            source: dep.source,
                        },
                    ),
                }
            },
        },
    }
}

/// The trees below the requirements from `i` on, appended to `acc`; or the
/// package whose metadata is lacking. A requirement of an extra, one that
/// names no package and one about a package of `visited` are passed over,
/// and so is one whose tree fails for another reason than lacking
/// metadata.
pub open spec fn children_spec(
    shelf: Shelf,
    reqs: Seq<Seq<char>>,
    visited: Seq<Seq<char>>,
    depth: nat,
    i: int,
    acc: Seq<ResolvedView>,
) -> Result<Seq<ResolvedView>, Seq<char>>
    decreases depth, 2nat, reqs.len() - i,
{
    if i < 0 || i >= reqs.len() {
        Ok(acc)
    } else if contains_text(reqs[i], extra_mark()) {
        children_spec(shelf, reqs, visited, depth, i + 1, acc)
    } else {
        match requirement_words_spec(reqs[i]) {
            None => children_spec(shelf, reqs, visited, depth, i + 1, acc),
            Some(sub) => if visited.contains(sub.name) {
                children_spec(shelf, reqs, visited, depth, i + 1, acc)
            } else {
                match node_spec(shelf, sub, visited, depth) {
                    Ok(node) => children_spec(shelf, reqs, visited, depth, i + 1, acc.push(node)),
                    Err(ResolveFailure::Needs(name)) => Err(name),
                    Err(_) => children_spec(shelf, reqs, visited, depth, i + 1, acc),
                }
            },
        }
    }
}

/// The tree `node`, marked as a development dependency where `dev` holds.
pub open spec fn marked(node: ResolvedView, dev: bool) -> ResolvedView {
    ResolvedView {
        name: node.name,
        version: node.version,
        is_dev: dev || node.is_dev,
        dependencies: node.dependencies,
        source: node.source,
    }
}

/// The trees of the declared dependencies from `i` on, appended to `acc`.
/// Each is entered with the dependencies declared before it as visited.
/// The first that fails fails the whole.
pub open spec fn roots_spec(
    shelf: Shelf,
    deps: Seq<DependencyView>,
    visited: Seq<Seq<char>>,
    depth: nat,
    dev: bool,
    i: int,
    acc: Seq<ResolvedView>,
) -> Result<Seq<ResolvedView>, ResolveFailure>
    decreases deps.len() - i,
{
    if i < 0 || i >= deps.len() {
        Ok(acc)
    } else {
        match node_spec(shelf, deps[i], visited, depth) {
            Err(e) => Err(e),
            Ok(node) => roots_spec(
                shelf,
                deps,
                visited.push(deps[i].name),
                depth,
                dev,
                i + 1,
                acc.push(marked(node, dev)),
            ),
        }
    }
}

/// The names of the first `n` dependencies.
pub open spec fn names_of(deps: Seq<DependencyView>, n: int) -> Seq<Seq<char>> {
    Seq::new(n as nat, |k: int| deps[k].name)
}

/// The trees of a project's dependencies and of its development
/// dependencies.
pub open spec fn resolved_spec(
    shelf: Shelf,
    main: Seq<DependencyView>,
    dev: Seq<DependencyView>,
    depth: nat,
) -> Result<(Seq<ResolvedView>, Seq<ResolvedView>), ResolveFailure> {
    match roots_spec(shelf, main, Seq::empty(), depth, false, 0, Seq::empty()) {
        Err(e) => Err(e),
        Ok(a) => match roots_spec(
            shelf,
            dev,
            names_of(main, main.len() as int),
            depth,
            true,
            0,
            Seq::empty(),
        ) {
            Err(e) => Err(e),
            Ok(b) => Ok((a, b)),
        },
    }
}

/// The walk over dependencies, with the metadata that it holds.
#[derive(Debug)]
pub struct DependencyResolver {
    pub known: Vec<(String, Option<PyPIPackageInfo>)>,
}

impl DependencyResolver {
    /// A resolver that holds no metadata.
    pub fn new() -> (r: DependencyResolver)
        ensures
            r.known@.len() == 0,
            distinct_keys(r.known@),
    {
        DependencyResolver { known: Vec::new() }
    }

    /// What the resolver holds for the package `name`: its metadata, or
    /// that the index does not know it; nothing where it was not fetched.
    pub fn fetch_package_info(&self, package_name: &str) -> (r: Option<&Option<PyPIPackageInfo>>)
        ensures
            match r {
                Some(entry) => held(self.known@, package_name@) == Some(*entry),
                None => held(self.known@, package_name@) is None && forall|k: int|
                    0 <= k < self.known@.len() ==> (#[trigger] self.known@[k]).0@
                        != package_name@,
            },
    {
        let mut i: usize = 0;
        while i < self.known.len()
            invariant
                i <= self.known.len(),
                forall|k: int| 0 <= k < i ==> (#[trigger] self.known@[k]).0@ != package_name@,
                held_from(self.known@, package_name@, i as int) == held(self.known@, package_name@),
            decreases self.known.len() - i,
        {
            if same_text(self.known[i].0.as_str(), package_name) {
                return Some(&self.known[i].1);
            }
            i += 1;
        }
        None
    }

    /// Takes in what a fetch for `name` gave: the metadata, or none where
    /// the index does not know the package. What the resolver holds for a
    /// name already stays as it is.
    pub fn remember(&mut self, name: String, info: Option<PyPIPackageInfo>)
        ensures
            distinct_keys(old(self).known@) ==> distinct_keys(final(self).known@),
            forall|n: Seq<char>|
                #[trigger] held(final(self).known@, n) == (if n == name@ && held(
                    old(self).known@,
                    n,
                ) is None {
                    Some(info)
                } else {
                    held(old(self).known@, n)
                }),
    {
        if self.fetch_package_info(name.as_str()).is_some() {
            return ;
        }
        let ghost before = self.known@;
        let ghost key = name@;
        self.known.push((name, info));
        proof {
            if distinct_keys(before) {
                assert forall|i: int, j: int| 0 <= i < j < self.known@.len() implies (
                #[trigger] self.known@[i]).0@ != (#[trigger] self.known@[j]).0@ by {
                    assert(self.known@[i] == before[i]);
                    if j < before.len() {
                        assert(self.known@[j] == before[j]);
                    }
                }
            }
            assert(self.known@.take(before.len() as int) =~= before);
            assert forall|n: Seq<char>|
                #[trigger] held(self.known@, n) == (if n == key && held(before, n) is None {
                    Some(info)
                } else {
                    held(before, n)
                }) by {
                lemma_held_push(before, self.known@, n, 0);
            }
        }
    }

    /// The tree below the dependency `dep`: see [`node_spec`].
    #[verifier::loop_isolation(false)]
    pub fn resolve_recursive(&self, dep: &Dependency, visited: &Vec<String>, depth: usize) -> (r: Result<
        ResolvedDependency,
        ResolveError,
    >)
        ensures
            match r {
                Ok(node) => node_spec(self.known@, dep@, texts(visited@), depth as nat) == Ok::<
                    ResolvedView,
                    ResolveFailure,
                >(tree_of(node)),
                Err(e) => node_spec(self.known@, dep@, texts(visited@), depth as nat) == Err::<
                    ResolvedView,
                    ResolveFailure,
                >(e@),
            },
        decreases depth, 0nat,
    {
        let info = match self.fetch_package_info(dep.name.as_str()) {
            None => {
                return Err(ResolveError::Needs(owned(dep.name.as_str())));
            },
            Some(None) => {
                return Err(ResolveError::NotFound(owned(dep.name.as_str())));
            },
            Some(Some(info)) => info,
        };
        let version = match &dep.version {
            Some(requested) => match find_best_version_static(
                info,
                requested.as_str(),
                &dep.version_constraint,
            ) {
                Ok(v) => v,
                Err(e) => {
                    return Err(ResolveError::Choice(e));
                },
            },
            None => owned(info.info.version.as_str()),
        };
        let mut seen = clone_strings(visited);
        seen.push(owned(dep.name.as_str()));
        assert(texts(seen@) =~= texts(visited@).push(dep@.name));
        let mut children: Vec<ResolvedDependency> = Vec::new();
        assert(trees_of(children@) =~= Seq::<ResolvedView>::empty());
        if depth > 0 {
            match self.resolve_children(info, &seen, depth - 1) {
                Ok(found) => {
                    children = found;
                },
                Err(name) => {
                    return Err(ResolveError::Needs(name));
                },
            }
        }
        let node = ResolvedDependency {
            name: owned(dep.name.as_str()),
            version,
            is_dev: dep.is_dev,
            dependencies: children,
            source: copy_text(&dep.source),
        };
        assert(tree_of(node).dependencies =~= trees_of(children@));
        Ok(node)
    }

    /// The trees below the requirements that the metadata `info` states:
    /// see [`children_spec`].
    #[verifier::loop_isolation(false)]
    fn resolve_children(&self, info: &PyPIPackageInfo, seen: &Vec<String>, depth: usize) -> (r: Result<
        Vec<ResolvedDependency>,
        String,
    >)
        ensures
            match r {
                Ok(found) => children_spec(
                    self.known@,
                    requirement_texts(*info),
                    texts(seen@),
                    depth as nat,
                    0,
                    Seq::empty(),
                ) == Ok::<Seq<ResolvedView>, Seq<char>>(trees_of(found@)),
                Err(name) => children_spec(
                    self.known@,
                    requirement_texts(*info),
                    texts(seen@),
                    depth as nat,
                    0,
                    Seq::empty(),
                ) == Err::<Seq<ResolvedView>, Seq<char>>(name@),
            },
        decreases depth, 1nat,
    {
        let mut children: Vec<ResolvedDependency> = Vec::new();
        assert(trees_of(children@) =~= Seq::<ResolvedView>::empty());
        let stated = match &info.info.requires_dist {
            Some(list) => list,
            None => {
                return Ok(children);
            },
        };
        let ghost reqs = requirement_texts(*info);
        let ghost goal = children_spec(
            self.known@,
            reqs,
            texts(seen@),
            depth as nat,
            0,
            Seq::empty(),
        );
        let mark = chars_of("extra ==");
        proof {
            reveal_strlit("extra ==");
            assert(mark@ =~= extra_mark());
        }
        let mut i: usize = 0;
        while i < stated.len()
            invariant
                i <= stated.len(),
                reqs == texts(stated@),
                mark@ == extra_mark(),
                children_spec(
                    self.known@,
                    reqs,
                    texts(seen@),
                    depth as nat,
                    i as int,
                    trees_of(children@),
                ) == goal,
            decreases stated.len() - i,
        {
            let line = chars_of(stated[i].as_str());
            assert(reqs[i as int] == stated[i as int]@);
            if !contains_chars(&line, &mark) {
                match parse_requirement_string_static(stated[i].as_str()) {
                    Some(sub) => {
                        if !includes(seen, sub.name.as_str()) {
                            match self.resolve_recursive(&sub, seen, depth) {
                                Ok(node) => {
                                    let ghost before = children@;
                                    children.push(node);
                                    assert(trees_of(children@) =~= trees_of(before).push(tree_of(node)));
                                },
                                Err(ResolveError::Needs(name)) => {
                                    return Err(name);
                                },
                                Err(_) => {},
                            }
                        }
                    },
                    None => {},
                }
            }
            i += 1;
        }
        Ok(children)
    }

    /// The trees of the declared dependencies `deps`, each entered with
    /// `visited` and the dependencies before it as visited: see
    /// [`roots_spec`]. The names of `deps` join `visited`.
    #[verifier::loop_isolation(false)]
    fn resolve_roots(&self, deps: &Vec<Dependency>, visited: &mut Vec<String>, depth: usize, dev: bool) -> (r:
        Result<Vec<ResolvedDependency>, ResolveError>)
        ensures
            match r {
                Ok(found) => {
                    &&& roots_spec(
                        self.known@,
                        crate::dependency::dependency_views(deps@),
                        texts(old(visited)@),
                        depth as nat,
                        dev,
                        0,
                        Seq::empty(),
                    ) == Ok::<Seq<ResolvedView>, ResolveFailure>(trees_of(found@))
                    &&& texts(final(visited)@) == texts(old(visited)@) + names_of(
                        crate::dependency::dependency_views(deps@),
                        deps@.len() as int,
                    )
                },
                Err(e) => roots_spec(
                    self.known@,
                    crate::dependency::dependency_views(deps@),
                    texts(old(visited)@),
                    depth as nat,
                    dev,
                    0,
                    Seq::empty(),
                ) == Err::<Seq<ResolvedView>, ResolveFailure>(e@),
            },
    {
        let ghost views = crate::dependency::dependency_views(deps@);
        let ghost start = texts(visited@);
        let ghost goal = roots_spec(self.known@, views, start, depth as nat, dev, 0, Seq::empty());
        let mut out: Vec<ResolvedDependency> = Vec::new();
        assert(trees_of(out@) =~= Seq::<ResolvedView>::empty());
        assert(texts(visited@) =~= start + names_of(views, 0));
        let mut i: usize = 0;
        while i < deps.len()
            invariant
                i <= deps.len(),
                views == crate::dependency::dependency_views(deps@),
                texts(visited@) == start + names_of(views, i as int),
                roots_spec(
                    self.known@,
                    views,
                    texts(visited@),
                    depth as nat,
                    dev,
                    i as int,
                    trees_of(out@),
                ) == goal,
            decreases deps.len() - i,
        {
            assert(views[i as int] == deps[i as int]@);
            match self.resolve_recursive(&deps[i], visited, depth) {
                Err(e) => {
                    return Err(e);
                },
                Ok(node) => {
                    let ghost before = out@;
                    let ghost seen = texts(visited@);
                    let ghost plain = tree_of(node);
                    let mut node = node;
                    if dev {
                        node.is_dev = true;
                    }
                    assert(tree_of(node).dependencies =~= plain.dependencies);
                    assert(tree_of(node) == marked(plain, dev));
                    out.push(node);
                    visited.push(owned(deps[i].name.as_str()));
                    assert(trees_of(out@) =~= trees_of(before).push(marked(plain, dev)));
                    assert(texts(visited@) =~= seen.push(views[i as int].name));
                    assert(texts(visited@) =~= start + names_of(views, i + 1));
                },
            }
            i += 1;
        }
        Ok(out)
    }

    /// The trees of the project's dependencies and of its development
    /// dependencies, which are marked as such: see [`resolved_spec`]. Each
    /// tree is `depth` levels deep at most below its root.
    pub fn resolve_dependencies(&self, project: &ProjectDependencies, depth: usize) -> (r: Result<
        ResolvedDependencies,
        ResolveError,
    >)
        ensures
            match r {
                Ok(all) => resolved_spec(
                    self.known@,
                    crate::dependency::dependency_views(project.dependencies@),
                    crate::dependency::dependency_views(project.dev_dependencies@),
                    depth as nat,
                ) == Ok::<(Seq<ResolvedView>, Seq<ResolvedView>), ResolveFailure>(
                    (trees_of(all.dependencies@), trees_of(all.dev_dependencies@)),
                ),
                Err(e) => resolved_spec(
                    self.known@,
                    crate::dependency::dependency_views(project.dependencies@),
                    crate::dependency::dependency_views(project.dev_dependencies@),
                    depth as nat,
                ) == Err::<(Seq<ResolvedView>, Seq<ResolvedView>), ResolveFailure>(e@),
            },
    {
        let mut visited: Vec<String> = Vec::new();
        assert(texts(visited@) =~= Seq::<Seq<char>>::empty());
        let dependencies = match self.resolve_roots(&project.dependencies, &mut visited, depth, false) {
            Ok(found) => found,
            Err(e) => {
                return Err(e);
            },
        };
        assert(texts(visited@) =~= names_of(
            crate::dependency::dependency_views(project.dependencies@),
            project.dependencies@.len() as int,
        ));
        let dev_dependencies = match self.resolve_roots(
            &project.dev_dependencies,
            &mut visited,
            depth,
            true,
        ) {
            Ok(found) => found,
            Err(e) => {
                return Err(e);
            },
        };
        Ok(ResolvedDependencies { dependencies, dev_dependencies })
    }
}

/// What a shelf holds for a name after one entry was appended.
proof fn lemma_held_push(before: Shelf, after: Shelf, n: Seq<char>, i: int)
    requires
        0 <= i <= before.len(),
        after.len() == before.len() + 1,
        after.take(before.len() as int) == before,
    ensures
        held_from(after, n, i) == match held_from(before, n, i) {
            Some(e) => Some(e),
            None => if after[before.len() as int].0@ == n {
                Some(after[before.len() as int].1)
            } else {
                None
            },
        },
    decreases before.len() - i,
{
    if i < before.len() {
        assert(after.take(before.len() as int)[i] == after[i]);
        lemma_held_push(before, after, n, i + 1);
    } else {
        assert(held_from(after, n, i + 1) is None);
    }
}

} // verus!
