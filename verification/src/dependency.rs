//! The dependencies that a project declares, as lines of a requirements
//! file.

use crate::text::{
    chars_of, copy_range, find_spec, position_of_text, push_str, rows, split, split_chars,
    string_of, text_of, trim_chars, trimmed,
};
use vstd::prelude::*;

verus! {

/// One declared dependency.
#[derive(Debug)]
pub struct Dependency {
    pub name: String,
    pub version: Option<String>,
    pub version_constraint: Option<String>,
    pub is_dev: bool,
    pub source: Option<String>,
}

/// The mathematical value of a [`Dependency`].
pub struct DependencyView {
    pub name: Seq<char>,
    pub version: Option<Seq<char>>,
    pub version_constraint: Option<Seq<char>>,
    pub is_dev: bool,
    pub source: Option<Seq<char>>,
}

/// The dependencies of a project.
#[derive(Debug)]
pub struct ProjectDependencies {
    pub dependencies: Vec<Dependency>,
    pub dev_dependencies: Vec<Dependency>,
    pub python_version: Option<String>,
    pub project_name: Option<String>,
}

impl View for Dependency {
    type V = DependencyView;

    open spec fn view(&self) -> DependencyView {
        DependencyView {
            name: self.name@,
            version: text_of(self.version),
            version_constraint: text_of(self.version_constraint),
            is_dev: self.is_dev,
            source: text_of(self.source),
        }
    }
}

/// The values of a sequence of dependencies.
pub open spec fn dependency_views(v: Seq<Dependency>) -> Seq<DependencyView> {
    Seq::new(v.len(), |i: int| v[i]@)
}

/// The operators that a requirement line is searched for, in this order.
pub open spec fn line_operators() -> Seq<Seq<char>> {
    seq![
        seq!['>', '='],
        seq!['<', '='],
        seq!['=', '='],
        seq!['!', '='],
        seq!['~', '='],
        seq!['>'],
        seq!['<'],
    ]
}

/// The dependency with name, operator and version split at the first
/// occurrence of the operator `ops[k]`, for the first `k` from `i` on whose
/// operator occurs in the line; the whole line as the name where none does.
pub open spec fn split_line(line: Seq<char>, ops: Seq<Seq<char>>, k: int) -> DependencyView
    decreases ops.len() - k,
{
    if 0 <= k < ops.len() {
        match find_spec(line, ops[k], 0) {
            Some(i) => DependencyView {
                name: trimmed(line.subrange(0, i)),
                version: Some(trimmed(line.subrange(i + ops[k].len(), line.len() as int))),
                version_constraint: Some(ops[k]),
                is_dev: false,
                source: None,
            },
            None => split_line(line, ops, k + 1),
        }
    } else {
        DependencyView {
            name: line,
            version: None,
            version_constraint: None,
            is_dev: false,
            source: None,
        }
    }
}

/// The dependency that a line of a requirements file denotes; none for a
/// blank line and for a comment.
pub open spec fn requirement_line_spec(line: Seq<char>) -> Option<DependencyView> {
    let t = trimmed(line);
    if t.len() == 0 || t[0] == '#' {
        None
    } else {
        Some(split_line(t, line_operators(), 0))
    }
}

/// The dependencies that the lines from `i` on add to `acc`.
pub open spec fn lines_acc(lines: Seq<Seq<char>>, i: int, acc: Seq<DependencyView>) -> Seq<
    DependencyView,
>
    decreases lines.len() - i,
{
    if 0 <= i < lines.len() {
        match requirement_line_spec(lines[i]) {
            Some(d) => lines_acc(lines, i + 1, acc.push(d)),
            None => lines_acc(lines, i + 1, acc),
        }
    } else {
        acc
    }
}

/// The text of one dependency: its name, its operator and version where it
/// has both, and ` @ ` with its source where it has one.
pub open spec fn dependency_text(d: DependencyView) -> Seq<char> {
    d.name + (if d.version_constraint is Some && d.version is Some {
        d.version_constraint->0 + d.version->0
    } else {
        Seq::empty()
    }) + (match d.source {
        Some(s) => seq![' ', '@', ' '] + s,
        None => Seq::empty(),
    })
}

/// The lines of the dependencies from `i` on.
pub open spec fn dependency_lines(deps: Seq<DependencyView>, i: int) -> Seq<char>
    decreases deps.len() - i,
{
    if 0 <= i < deps.len() {
        dependency_text(deps[i]) + seq!['\n'] + dependency_lines(deps, i + 1)
    } else {
        Seq::empty()
    }
}

/// The requirements file of a project: its name and interpreter version as
/// comments where it has them, its dependencies under a heading and, where
/// there are any, its development dependencies under another.
pub open spec fn requirements_text(
    project_name: Option<Seq<char>>,
    python_version: Option<Seq<char>>,
    deps: Seq<DependencyView>,
    dev: Seq<DependencyView>,
) -> Seq<char> {
    (match project_name {
        Some(n) => "# Project: "@ + n + seq!['\n'],
        None => Seq::empty(),
    }) + (match python_version {
        Some(v) => "# Python version: "@ + v + seq!['\n'],
        None => Seq::empty(),
    }) + "\n# Dependencies\n"@ + dependency_lines(deps, 0) + (if dev.len() > 0 {
        "\n# Development dependencies\n"@ + dependency_lines(dev, 0)
    } else {
        Seq::empty()
    })
}

fn operators() -> (r: Vec<Vec<char>>)
    ensures
        rows(r@) == line_operators(),
{
    let r = vec![
        vec!['>', '='],
        vec!['<', '='],
        vec!['=', '='],
        vec!['!', '='],
        vec!['~', '='],
        vec!['>'],
        vec!['<'],
    ];
    proof {
        assert(r[0]@ =~= seq!['>', '=']);
        assert(r[1]@ =~= seq!['<', '=']);
        assert(r[2]@ =~= seq!['=', '=']);
        assert(r[3]@ =~= seq!['!', '=']);
        assert(r[4]@ =~= seq!['~', '=']);
        assert(r[5]@ =~= seq!['>']);
        assert(r[6]@ =~= seq!['<']);
        assert(rows(r@) =~= line_operators());
    }
    r
}

fn push_dependency(out: &mut Vec<char>, dep: &Dependency)
    ensures
        final(out)@ == old(out)@ + dependency_text(dep@),
{
    push_str(out, dep.name.as_str());
    let ghost a = out@;
    match (&dep.version_constraint, &dep.version) {
        (Some(c), Some(v)) => {
            push_str(out, c.as_str());
            push_str(out, v.as_str());
            assert(out@ =~= a + (c@ + v@));
        },
        _ => {
            assert(out@ =~= a + Seq::<char>::empty());
        },
    }
    let ghost b = out@;
    match &dep.source {
        Some(s) => {
            out.push(' ');
            out.push('@');
            out.push(' ');
            push_str(out, s.as_str());
            assert(out@ =~= b + (seq![' ', '@', ' '] + s@));
        },
        None => {
            assert(out@ =~= b + Seq::<char>::empty());
        },
    }
}

fn push_dependencies(out: &mut Vec<char>, deps: &Vec<Dependency>)
    ensures
        final(out)@ == old(out)@ + dependency_lines(dependency_views(deps@), 0),
{
    let ghost head = out@;
    let ghost ds = dependency_views(deps@);
    let ghost mut done: Seq<char> = Seq::empty();
    assert(head + done =~= head);
    let mut i: usize = 0;
    while i < deps.len()
        invariant
            i <= deps.len(),
            ds == dependency_views(deps@),
            out@ == head + done,
            done + dependency_lines(ds, i as int) == dependency_lines(ds, 0),
        decreases deps.len() - i,
    {
        assert(ds[i as int] == deps[i as int]@);
        push_dependency(out, &deps[i]);
        out.push('\n');
        proof {
            let line = dependency_text(ds[i as int]) + seq!['\n'];
            assert(out@ =~= head + (done + line));
            assert((done + line) + dependency_lines(ds, i + 1) =~= done + (dependency_text(
                ds[i as int],
            ) + seq!['\n'] + dependency_lines(ds, i + 1)));
            done = done + line;
        }
        i += 1;
    }
    proof {
        assert(done + Seq::<char>::empty() =~= done);
    }
}

fn push_comment(out: &mut Vec<char>, label: &str, value: &Option<String>)
    ensures
        final(out)@ == old(out)@ + (match text_of(*value) {
            Some(v) => label@ + v + seq!['\n'],
            None => Seq::empty(),
        }),
{
    match value {
        Some(v) => {
            push_str(out, label);
            push_str(out, v.as_str());
            out.push('\n');
            assert(out@ =~= old(out)@ + (label@ + v@ + seq!['\n']));
        },
        None => {
            assert(out@ =~= old(out)@ + Seq::<char>::empty());
        },
    }
}

impl ProjectDependencies {
    /// No dependencies, no name, no interpreter version.
    pub fn new() -> (r: ProjectDependencies)
        ensures
            r.dependencies@.len() == 0,
            r.dev_dependencies@.len() == 0,
            r.python_version is None,
            r.project_name is None,
    {
        ProjectDependencies {
            dependencies: Vec::new(),
            dev_dependencies: Vec::new(),
            python_version: None,
            project_name: None,
        }
    }

    /// The dependency that a line of a requirements file denotes: the line
    /// is split at the first of `>=`, `<=`, `==`, `!=`, `~=`, `>` and `<`
    /// that occurs in it; a blank line and a comment denote none.
    pub fn parse_requirement_line(line: &str) -> (r: Option<Dependency>)
        ensures
            match r {
                Some(d) => requirement_line_spec(line@) == Some(d@),
                None => requirement_line_spec(line@) is None,
            },
    {
        let t = trim_chars(&chars_of(line));
        if t.len() == 0 || t[0] == '#' {
            return None;
        }
        let ops = operators();
        let ghost os = rows(ops@);
        let mut k: usize = 0;
        while k < ops.len()
            invariant
                k <= ops.len(),
                os == rows(ops@),
                os == line_operators(),
                t@ == trimmed(line@),
                t@.len() > 0,
                t@[0] != '#',
                split_line(t@, os, k as int) == split_line(t@, os, 0),
            decreases ops.len() - k,
        {
            assert(os[k as int] == ops[k as int]@);
            match position_of_text(&t, 0, &ops[k]) {
                Some(i) => {
                    let name = trim_chars(&copy_range(&t, 0, i));
                    let version = trim_chars(&copy_range(&t, i + ops[k].len(), t.len()));
                    return Some(
                        Dependency {
                            name: string_of(&name),
                            version: Some(string_of(&version)),
                            version_constraint: Some(string_of(&ops[k])),
                            is_dev: false,
                            source: None,
                        },
                    );
                },
                None => {},
            }
            k += 1;
        }
        Some(
            Dependency {
                name: string_of(&t),
                version: None,
                version_constraint: None,
                is_dev: false,
                source: None,
            },
        )
    }

    /// The dependencies that the text of a requirements file declares, one
    /// for each line that is neither blank nor a comment.
    pub fn from_requirements_txt(content: &str) -> (r: ProjectDependencies)
        ensures
            dependency_views(r.dependencies@) == lines_acc(split(content@, '\n'), 0, Seq::empty()),
            r.dev_dependencies@.len() == 0,
            r.python_version is None,
            r.project_name is None,
    {
        let mut deps = ProjectDependencies::new();
        let lines = split_chars(&chars_of(content), '\n');
        let ghost ls = rows(lines@);
        assert(dependency_views(deps.dependencies@) =~= Seq::<DependencyView>::empty());
        let mut i: usize = 0;
        while i < lines.len()
            invariant
                i <= lines.len(),
                ls == rows(lines@),
                deps.dev_dependencies@.len() == 0,
                deps.python_version is None,
                deps.project_name is None,
                lines_acc(ls, i as int, dependency_views(deps.dependencies@)) == lines_acc(
                    ls,
                    0,
                    Seq::empty(),
                ),
            decreases lines.len() - i,
        {
            assert(ls[i as int] == lines[i as int]@);
            let text = string_of(&lines[i]);
            match ProjectDependencies::parse_requirement_line(text.as_str()) {
                Some(dep) => {
                    let ghost before = deps.dependencies@;
                    deps.dependencies.push(dep);
                    assert(dependency_views(deps.dependencies@) =~= dependency_views(before).push(
                        dep@,
                    ));
                },
                None => {},
            }
            i += 1;
        }
        deps
    }

    /// The requirements file of the project.
    pub fn to_requirements_txt(&self) -> (r: String)
        ensures
            r@ == requirements_text(
                text_of(self.project_name),
                text_of(self.python_version),
                dependency_views(self.dependencies@),
                dependency_views(self.dev_dependencies@),
            ),
    {
        let mut out: Vec<char> = Vec::new();
        push_comment(&mut out, "# Project: ", &self.project_name);
        assert(out@ =~= (match text_of(self.project_name) {
            Some(n) => "# Project: "@ + n + seq!['\n'],
            None => Seq::empty(),
        }));
        push_comment(&mut out, "# Python version: ", &self.python_version);
        push_str(&mut out, "\n# Dependencies\n");
        push_dependencies(&mut out, &self.dependencies);
        let ghost a = out@;
        if self.dev_dependencies.len() > 0 {
            push_str(&mut out, "\n# Development dependencies\n");
            push_dependencies(&mut out, &self.dev_dependencies);
            assert(out@ =~= a + ("\n# Development dependencies\n"@ + dependency_lines(
                dependency_views(self.dev_dependencies@),
                0,
            )));
        } else {
            assert(out@ =~= a + Seq::<char>::empty());
        }
        string_of(&out)
    }

    /// The text of one dependency.
    pub fn format_dependency(&self, dep: &Dependency) -> (r: String)
        ensures
            r@ == dependency_text(dep@),
    {
        let mut out: Vec<char> = Vec::new();
        push_dependency(&mut out, dep);
        assert(out@ =~= dependency_text(dep@));
        string_of(&out)
    }
}

} // verus!
