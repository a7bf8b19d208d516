//! The project file: what a `pyproject.toml` states of a project and of its
//! dependencies. The document is read by the `toml` crate; what the project
//! table states is then taken out of it as plain values, from which the
//! dependencies of the project follow.

use crate::dependency::{
    dependency_views, lines_acc, requirement_line_spec, DependencyView, ProjectDependencies,
};
use crate::text::{copy_text, owned, text_of, texts};
use vstd::prelude::*;

verus! {

/// `toml::Value`, a value of a TOML document, as an opaque value.
#[verifier::external_type_specification]
#[verifier::external_body]
pub struct ExTomlValue(toml::Value);

/// `toml::de::Error`, the reason why a text is no TOML document, as an
/// opaque value.
#[verifier::external_type_specification]
#[verifier::external_body]
pub struct ExTomlError(toml::de::Error);

/// The strings that a TOML value holds, each under the path of keys that
/// leads from the value to it. A value that is a string holds itself under
/// the empty path; a table holds under a key and a path what its entry for
/// the key holds under the path; any other value holds no string.
pub uninterp spec fn toml_strings(value: toml::Value) -> Map<Seq<Seq<char>>, Seq<char>>;

/// The arrays that a TOML value holds, by paths of keys as with
/// [`toml_strings`]. An array stands as the sequence of its items, each of
/// them the text of the item where the item is a string, and nothing where
/// it is not.
pub uninterp spec fn toml_arrays(value: toml::Value) -> Map<Seq<Seq<char>>, Seq<Option<Seq<char>>>>;

/// What `toml::from_str` reads from a text: the strings and the arrays that
/// the document holds, or nothing where the text is no TOML document.
pub uninterp spec fn toml_read(text: Seq<char>) -> Option<
    (Map<Seq<Seq<char>>, Seq<char>>, Map<Seq<Seq<char>>, Seq<Option<Seq<char>>>>),
>;

/// Of what is held by paths, the part under the key `key`, by the paths
/// that follow the key.
pub open spec fn below<V>(held: Map<Seq<Seq<char>>, V>, key: Seq<char>) -> Map<Seq<Seq<char>>, V> {
    Map::new(
        |path: Seq<Seq<char>>| held.contains_key(seq![key] + path),
        |path: Seq<Seq<char>>| held[seq![key] + path],
    )
}

/// What is held under the path `path`, if anything is.
pub open spec fn held_at<V>(held: Map<Seq<Seq<char>>, V>, path: Seq<Seq<char>>) -> Option<V> {
    if held.contains_key(path) {
        Some(held[path])
    } else {
        None
    }
}

/// The items of an array: for each the text of the item where it is a
/// string.
pub open spec fn item_texts(items: Seq<toml::Value>) -> Seq<Option<Seq<char>>> {
    Seq::new(items.len(), |i: int| held_at(toml_strings(items[i]), Seq::empty()))
}

/// `toml::from_str`, for a whole document: the value of the document, or
/// the reason why the text is none. The document holds the strings and
/// arrays that [`toml_read`] names for the text, and the call fails where
/// that names nothing.
#[verifier::external_body]
fn read_document(content: &str) -> (r: Result<toml::Value, toml::de::Error>)
    ensures
        match r {
            Ok(document) => toml_read(content@) == Some(
                (toml_strings(document), toml_arrays(document)),
            ),
            Err(_) => toml_read(content@) is None,
        },
{
    toml::from_str(content)
}

/// `toml::Value::get` with a key: the entry under the key, where the value
/// is a table that has the key. The entry holds what the value holds below
/// the key; a value without such an entry holds nothing below the key.
#[verifier::external_body]
fn entry_at<'a>(value: &'a toml::Value, key: &str) -> (r: Option<&'a toml::Value>)
    ensures
        match r {
            Some(entry) => toml_strings(*entry) == below(toml_strings(*value), key@)
                && toml_arrays(*entry) == below(toml_arrays(*value), key@),
            None => below(toml_strings(*value), key@) == Map::<Seq<Seq<char>>, Seq<char>>::empty()
                && below(toml_arrays(*value), key@) == Map::<
                Seq<Seq<char>>,
                Seq<Option<Seq<char>>>,
            >::empty(),
        },
{
    value.get(key)
}

/// `toml::Value::as_str`: the text of the value, where the value is a
/// string. That text is what the value holds under the empty path.
#[verifier::external_body]
fn text_in<'a>(value: &'a toml::Value) -> (r: Option<&'a str>)
    ensures
        match r {
            Some(text) => held_at(toml_strings(*value), Seq::empty()) == Some(text@),
            None => held_at(toml_strings(*value), Seq::empty()) is None,
        },
{
    value.as_str()
}

/// `toml::Value::as_array`: the items of the value, where the value is an
/// array. That array is what the value holds under the empty path.
#[verifier::external_body]
fn items_in<'a>(value: &'a toml::Value) -> (r: Option<&'a Vec<toml::Value>>)
    ensures
        match r {
            Some(items) => held_at(toml_arrays(*value), Seq::empty()) == Some(item_texts(items@)),
            None => held_at(toml_arrays(*value), Seq::empty()) is None,
        },
{
    value.as_array()
}

/// Why a project file could not be used.
#[derive(Debug, Clone, Copy, PartialEq, Eq, Structural)]
pub enum ProjectFileError {
    /// The text is no TOML document.
    Unreadable,
}

/// What the project table of a project file states: the name, the
/// interpreter versions, and the requirements of the project and of its
/// development, as text.
#[derive(Debug)]
pub struct ProjectTable {
    pub name: Option<String>,
    pub requires_python: Option<String>,
    pub dependencies: Vec<String>,
    pub dev_dependencies: Vec<String>,
}

/// The mathematical value of a [`ProjectTable`].
pub struct ProjectTableView {
    pub name: Option<Seq<char>>,
    pub requires_python: Option<Seq<char>>,
    pub dependencies: Seq<Seq<char>>,
    pub dev_dependencies: Seq<Seq<char>>,
}

impl View for ProjectTable {
    type V = ProjectTableView;

    open spec fn view(&self) -> ProjectTableView {
        ProjectTableView {
            name: text_of(self.name),
            requires_python: text_of(self.requires_python),
            dependencies: texts(self.dependencies@),
            dev_dependencies: texts(self.dev_dependencies@),
        }
    }
}

/// What a project table states, where a file without a project table
/// states nothing.
pub open spec fn table_of(table: Option<ProjectTable>) -> ProjectTableView {
    match table {
        Some(t) => t@,
        None => ProjectTableView {
            name: None,
            requires_python: None,
            dependencies: Seq::empty(),
            dev_dependencies: Seq::empty(),
        },
    }
}

/// The strings among the items from `i` on, appended to `acc`.
pub open spec fn strings_among(items: Seq<Option<Seq<char>>>, i: int, acc: Seq<Seq<char>>) -> Seq<
    Seq<char>,
>
    decreases items.len() - i,
{
    if 0 <= i < items.len() {
        match items[i] {
            Some(text) => strings_among(items, i + 1, acc.push(text)),
            None => strings_among(items, i + 1, acc),
        }
    } else {
        acc
    }
}

/// The strings of the array under the path `path`, in order; none where
/// there is no array under the path.
pub open spec fn strings_at(
    arrays: Map<Seq<Seq<char>>, Seq<Option<Seq<char>>>>,
    path: Seq<Seq<char>>,
) -> Seq<Seq<char>> {
    match held_at(arrays, path) {
        Some(items) => strings_among(items, 0, Seq::empty()),
        None => Seq::empty(),
    }
}

/// What the project table of a document with these strings and arrays
/// states: the name and the interpreter versions are the strings `name`
/// and `requires-python` of the table `project`, the requirements of the
/// project the strings of its array `dependencies`, and those of its
/// development the strings of the array `dev` of its table
/// `optional-dependencies`.
pub open spec fn stated_table(
    strings: Map<Seq<Seq<char>>, Seq<char>>,
    arrays: Map<Seq<Seq<char>>, Seq<Option<Seq<char>>>>,
) -> ProjectTableView {
    ProjectTableView {
        name: held_at(strings, seq!["project"@, "name"@]),
        requires_python: held_at(strings, seq!["project"@, "requires-python"@]),
        dependencies: strings_at(arrays, seq!["project"@, "dependencies"@]),
        dev_dependencies: strings_at(
            arrays,
            seq!["project"@, "optional-dependencies"@, "dev"@],
        ),
    }
}

/// The dependency `d` as one of development.
pub open spec fn for_development(d: DependencyView) -> DependencyView {
    DependencyView {
        name: d.name,
        version: d.version,
        version_constraint: d.version_constraint,
        is_dev: true,
        source: d.source,
    }
}

/// The development dependencies that the lines from `i` on add to `acc`.
pub open spec fn development_acc(lines: Seq<Seq<char>>, i: int, acc: Seq<DependencyView>) -> Seq<
    DependencyView,
>
    decreases lines.len() - i,
{
    if 0 <= i < lines.len() {
        match requirement_line_spec(lines[i]) {
            Some(d) => development_acc(lines, i + 1, acc.push(for_development(d))),
            None => development_acc(lines, i + 1, acc),
        }
    } else {
        acc
    }
}

/// Whether `deps` are the dependencies that a project table with the value
/// `table` declares: the name and the interpreter versions as stated, and
/// one dependency for each requirement that is neither blank nor a
/// comment.
pub open spec fn declares(deps: ProjectDependencies, table: ProjectTableView) -> bool {
    &&& text_of(deps.project_name) == table.name
    &&& text_of(deps.python_version) == table.requires_python
    &&& dependency_views(deps.dependencies@) == lines_acc(table.dependencies, 0, Seq::empty())
    &&& dependency_views(deps.dev_dependencies@) == development_acc(
        table.dev_dependencies,
        0,
        Seq::empty(),
    )
}

/// Whether `deps` are the dependencies of the project whose file has the
/// project table `table`, or none: see [`declares`]. Without a project
/// table there is nothing.
pub open spec fn is_project_of(deps: ProjectDependencies, table: Option<ProjectTable>) -> bool {
    declares(deps, table_of(table))
}

/// What is held below a key under a path is held under the key and the
/// path.
pub proof fn lemma_below<V>(held: Map<Seq<Seq<char>>, V>, key: Seq<char>, path: Seq<Seq<char>>)
    ensures
        held_at(below(held, key), path) == held_at(held, seq![key] + path),
{
}

/// The text of the entry `key` of a table, where it is a string.
fn text_under(table: &toml::Value, key: &str) -> (r: Option<String>)
    ensures
        text_of(r) == held_at(toml_strings(*table), seq![key@]),
{
    proof {
        lemma_below(toml_strings(*table), key@, Seq::empty());
        assert(seq![key@] + Seq::<Seq<char>>::empty() =~= seq![key@]);
    }
    match entry_at(table, key) {
        Some(value) => match text_in(value) {
            Some(text) => Some(owned(text)),
            None => None,
        },
        None => None,
    }
}

/// The items of the entry `key` of a table that are strings, in order;
/// none where the entry is no array.
fn texts_under(table: &toml::Value, key: &str) -> (r: Vec<String>)
    ensures
        texts(r@) == strings_at(toml_arrays(*table), seq![key@]),
{
    proof {
        lemma_below(toml_arrays(*table), key@, Seq::empty());
        assert(seq![key@] + Seq::<Seq<char>>::empty() =~= seq![key@]);
    }
    let mut out: Vec<String> = Vec::new();
    assert(texts(out@) =~= Seq::<Seq<char>>::empty());
    let items = match entry_at(table, key) {
        Some(value) => match items_in(value) {
            Some(items) => items,
            None => {
                return out;
            },
        },
        None => {
            return out;
        },
    };
    let ghost all = item_texts(items@);
    let mut i: usize = 0;
    while i < items.len()
        invariant
            i <= items.len(),
            all == item_texts(items@),
            strings_among(all, i as int, texts(out@)) == strings_among(all, 0, Seq::empty()),
        decreases items.len() - i,
    {
        let ghost before = texts(out@);
        match text_in(&items[i]) {
            Some(text) => {
                out.push(owned(text));
                assert(texts(out@) =~= before.push(text@));
            },
            None => {},
        }
        i += 1;
    }
    out
}

/// What the project table of the project file `content` states; nothing
/// where the file has no project table. The requirements of the project are
/// the strings of `dependencies`, those of its development the strings of
/// the group `dev` of `optional-dependencies`: see [`stated_table`]. It
/// fails where the `toml` crate reads no document from the text.
pub fn read_project_table(content: &str) -> (r: Result<Option<ProjectTable>, ProjectFileError>)
    ensures
        match r {
            Ok(table) => toml_read(content@) matches Some(held) && table_of(table) == stated_table(
                held.0,
                held.1,
            ),
            Err(e) => e == ProjectFileError::Unreadable && toml_read(content@) is None,
        },
{
    let document = match read_document(content) {
        Ok(document) => document,
        Err(_) => {
            return Err(ProjectFileError::Unreadable);
        },
    };
    let ghost strings = toml_strings(document);
    let ghost arrays = toml_arrays(document);
    proof {
        lemma_below(strings, "project"@, seq!["name"@]);
        lemma_below(strings, "project"@, seq!["requires-python"@]);
        lemma_below(arrays, "project"@, seq!["dependencies"@]);
        lemma_below(arrays, "project"@, seq!["optional-dependencies"@, "dev"@]);
        lemma_below(below(arrays, "project"@), "optional-dependencies"@, seq!["dev"@]);
        assert(seq!["project"@] + seq!["name"@] =~= seq!["project"@, "name"@]);
        assert(seq!["project"@] + seq!["requires-python"@] =~= seq!["project"@, "requires-python"@]);
        assert(seq!["project"@] + seq!["dependencies"@] =~= seq!["project"@, "dependencies"@]);
        assert(seq!["optional-dependencies"@] + seq!["dev"@] =~= seq![
            "optional-dependencies"@,
            "dev"@,
        ]);
        assert(seq!["project"@] + seq!["optional-dependencies"@, "dev"@] =~= seq![
            "project"@,
            "optional-dependencies"@,
            "dev"@,
        ]);
    }
    let project = match entry_at(&document, "project") {
        Some(project) => project,
        None => {
            return Ok(None);
        },
    };
    let dev_dependencies = match entry_at(project, "optional-dependencies") {
        Some(groups) => texts_under(groups, "dev"),
        None => {
            let none: Vec<String> = Vec::new();
            assert(texts(none@) =~= Seq::<Seq<char>>::empty());
            none
        },
    };
    let table = ProjectTable {
        name: text_under(project, "name"),
        requires_python: text_under(project, "requires-python"),
        dependencies: texts_under(project, "dependencies"),
        dev_dependencies,
    };
    Ok(Some(table))
}

impl ProjectDependencies {
    /// The dependencies of the project whose file has the project table
    /// `table`: see [`is_project_of`].
    pub fn from_project_table(table: &Option<ProjectTable>) -> (r: ProjectDependencies)
        ensures
            is_project_of(r, *table),
    {
        let mut deps = ProjectDependencies::new();
        let t = match table {
            Some(t) => t,
            None => {
                assert(dependency_views(deps.dependencies@) =~= Seq::<DependencyView>::empty());
                assert(dependency_views(deps.dev_dependencies@) =~= Seq::<DependencyView>::empty());
                return deps;
            },
        };
        deps.project_name = copy_text(&t.name);
        deps.python_version = copy_text(&t.requires_python);
        let ghost main = texts(t.dependencies@);
        assert(dependency_views(deps.dependencies@) =~= Seq::<DependencyView>::empty());
        let mut i: usize = 0;
        while i < t.dependencies.len()
            invariant
                i <= t.dependencies.len(),
                main == texts(t.dependencies@),
                text_of(deps.project_name) == text_of(t.name),
                text_of(deps.python_version) == text_of(t.requires_python),
                deps.dev_dependencies@.len() == 0,
                lines_acc(main, i as int, dependency_views(deps.dependencies@)) == lines_acc(
                    main,
                    0,
                    Seq::empty(),
                ),
            decreases t.dependencies.len() - i,
        {
            assert(main[i as int] == t.dependencies[i as int]@);
            match ProjectDependencies::parse_requirement_line(t.dependencies[i].as_str()) {
                Some(dep) => {
                    let ghost before = deps.dependencies@;
                    deps.dependencies.push(dep);
                    assert(dependency_views(deps.dependencies@) =~= dependency_views(before).push(
                        dep@,
                    ));
                },
                None => {},
            }
            i += 1;
        }
        let ghost dev = texts(t.dev_dependencies@);
        assert(dependency_views(deps.dev_dependencies@) =~= Seq::<DependencyView>::empty());
        let mut j: usize = 0;
        while j < t.dev_dependencies.len()
            invariant
                j <= t.dev_dependencies.len(),
                dev == texts(t.dev_dependencies@),
                text_of(deps.project_name) == text_of(t.name),
                text_of(deps.python_version) == text_of(t.requires_python),
                dependency_views(deps.dependencies@) == lines_acc(main, 0, Seq::empty()),
                development_acc(dev, j as int, dependency_views(deps.dev_dependencies@))
                    == development_acc(dev, 0, Seq::empty()),
            decreases t.dev_dependencies.len() - j,
        {
            assert(dev[j as int] == t.dev_dependencies[j as int]@);
            match ProjectDependencies::parse_requirement_line(t.dev_dependencies[j].as_str()) {
                Some(dep) => {
                    let ghost before = deps.dev_dependencies@;
                    let ghost plain = dep@;
                    let mut dep = dep;
                    dep.is_dev = true;
                    assert(dep@ == for_development(plain));
                    deps.dev_dependencies.push(dep);
                    assert(dependency_views(deps.dev_dependencies@) =~= dependency_views(
                        before,
                    ).push(for_development(plain)));
                },
                None => {},
            }
            j += 1;
        }
        deps
    }

    /// The dependencies that the project file `content` declares: those of
    /// the project table that the `toml` crate reads from it, see
    /// [`stated_table`] and [`declares`]. It fails where the `toml` crate
    /// reads no document from the text, and only there.
    pub fn from_pyproject_toml(content: &str) -> (r: Result<ProjectDependencies, ProjectFileError>)
        ensures
            match toml_read(content@) {
                Some(held) => r matches Ok(deps) && declares(deps, stated_table(held.0, held.1)),
                None => r matches Err(e) && e == ProjectFileError::Unreadable,
            },
    {
        match read_project_table(content) {
            Ok(table) => Ok(ProjectDependencies::from_project_table(&table)),
            Err(e) => Err(e),
        }
    }
}

} // verus!
