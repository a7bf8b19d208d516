//! Settings of the tool and of a project.

use crate::text::{owned, same_text, text_of};
use vstd::prelude::*;

verus! {

/// The settings of the tool.
#[derive(Debug)]
pub struct SnakepitConfig {
    pub default_backend: Option<String>,
    pub default_venv_backend: Option<String>,
    pub venv_path: Option<String>,
    pub cache_enabled: Option<bool>,
    pub python_version: Option<String>,
    pub mirrors: Option<Vec<String>>,
    pub timeout: Option<u64>,
    pub retries: Option<u32>,
    pub user_agent: Option<String>,
}

/// The settings of a project.
#[derive(Debug)]
pub struct ProjectConfig {
    pub name: String,
    pub version: Option<String>,
    pub description: Option<String>,
    pub python_version: Option<String>,
    pub backend: Option<String>,
    pub venv_name: Option<String>,
    pub dependencies: Vec<String>,
    pub dev_dependencies: Vec<String>,
    pub scripts: Option<Vec<(String, String)>>,
}

impl Default for SnakepitConfig {
    fn default() -> (r: SnakepitConfig)
        ensures
            text_of(r.default_backend) == Some("pip"@),
            text_of(r.default_venv_backend) == Some("venv"@),
            r.venv_path is None,
            r.cache_enabled == Some(true),
            r.python_version is None,
            r.mirrors is None,
            r.timeout == Some(30u64),
            r.retries == Some(3u32),
            text_of(r.user_agent) == Some("snakepit/0.1.0"@),
    {
        SnakepitConfig {
            default_backend: Some(owned("pip")),
            default_venv_backend: Some(owned("venv")),
            venv_path: None,
            cache_enabled: Some(true),
            python_version: None,
            mirrors: None,
            timeout: Some(30),
            retries: Some(3),
            user_agent: Some(owned("snakepit/0.1.0")),
        }
    }
}

fn path2(a: &str, b: &str) -> (r: Vec<String>)
    ensures
        crate::text::texts(r@) == seq![a@, b@],
{
    let r = vec![owned(a), owned(b)];
    assert(crate::text::texts(r@) =~= seq![a@, b@]);
    r
}

fn path3(a: &str, b: &str, c: &str) -> (r: Vec<String>)
    ensures
        crate::text::texts(r@) == seq![a@, b@, c@],
{
    let r = vec![owned(a), owned(b), owned(c)];
    assert(crate::text::texts(r@) =~= seq![a@, b@, c@]);
    r
}

impl SnakepitConfig {
    /// The default settings.
    pub fn new() -> (r: SnakepitConfig)
        ensures
            text_of(r.default_backend) == Some("pip"@),
            text_of(r.default_venv_backend) == Some("venv"@),
            r.venv_path is None,
            r.cache_enabled == Some(true),
            r.python_version is None,
            r.mirrors is None,
            r.timeout == Some(30u64),
            r.retries == Some(3u32),
            text_of(r.user_agent) == Some("snakepit/0.1.0"@),
    {
        SnakepitConfig::default()
    }

    /// The parts of the path of the settings file: `snakepit/config.toml`
    /// under the user's configuration directory, or `.snakepit/config.toml`
    /// where there is none.
    pub fn get_config_path(config_dir: Option<&str>) -> (r: Vec<String>)
        ensures
            crate::text::texts(r@) == (match config_dir {
                Some(d) => seq![d@, "snakepit"@, "config.toml"@],
                None => seq![".snakepit"@, "config.toml"@],
            }),
    {
        match config_dir {
            Some(d) => path3(d, "snakepit", "config.toml"),
            None => path2(".snakepit", "config.toml"),
        }
    }

    /// The parts of the path under which environments are kept: the
    /// configured one, else `.snakepit/venvs` under the user's home
    /// directory, or under the working directory where there is none.
    pub fn get_venv_path(&self, home_dir: Option<&str>) -> (r: Vec<String>)
        ensures
            crate::text::texts(r@) == (match self.venv_path {
                Some(p) => seq![p@],
                None => match home_dir {
                    Some(h) => seq![h@, ".snakepit"@, "venvs"@],
                    None => seq![".snakepit"@, "venvs"@],
                },
            }),
    {
        match &self.venv_path {
            Some(p) => {
                let r = vec![p.clone()];
                assert(crate::text::texts(r@) =~= seq![p@]);
                r
            },
            None => match home_dir {
                Some(h) => path3(h, ".snakepit", "venvs"),
                None => path2(".snakepit", "venvs"),
            },
        }
    }

    /// The parts of the path of the cache: `snakepit` under the user's cache
    /// directory, or `.snakepit/cache` where there is none.
    pub fn get_cache_path(&self, cache_dir: Option<&str>) -> (r: Vec<String>)
        ensures
            crate::text::texts(r@) == (match cache_dir {
                Some(d) => seq![d@, "snakepit"@],
                None => seq![".snakepit"@, "cache"@],
            }),
    {
        match cache_dir {
            Some(d) => path2(d, "snakepit"),
            None => path2(".snakepit", "cache"),
        }
    }

    /// The settings with `backend` as the default installer.
    pub fn with_backend(self, backend: &str) -> (r: SnakepitConfig)
        ensures
            text_of(r.default_backend) == Some(backend@),
            r == (SnakepitConfig { default_backend: r.default_backend, ..self }),
    {
        let mut r = self;
        r.default_backend = Some(owned(backend));
        r
    }

    /// The settings with `backend` as the default maker of environments.
    pub fn with_venv_backend(self, backend: &str) -> (r: SnakepitConfig)
        ensures
            text_of(r.default_venv_backend) == Some(backend@),
            r == (SnakepitConfig { default_venv_backend: r.default_venv_backend, ..self }),
    {
        let mut r = self;
        r.default_venv_backend = Some(owned(backend));
        r
    }

    /// The settings with `path` as the place of environments.
    pub fn with_venv_path(self, path: &str) -> (r: SnakepitConfig)
        ensures
            text_of(r.venv_path) == Some(path@),
            r == (SnakepitConfig { venv_path: r.venv_path, ..self }),
    {
        let mut r = self;
        r.venv_path = Some(owned(path));
        r
    }

    /// The settings with `version` as the interpreter version.
    pub fn with_python_version(self, version: &str) -> (r: SnakepitConfig)
        ensures
            text_of(r.python_version) == Some(version@),
            r == (SnakepitConfig { python_version: r.python_version, ..self }),
    {
        let mut r = self;
        r.python_version = Some(owned(version));
        r
    }

    /// The settings with the cache switched on or off.
    pub fn with_cache(self, enabled: bool) -> (r: SnakepitConfig)
        ensures
            r == (SnakepitConfig { cache_enabled: Some(enabled), ..self }),
    {
        let mut r = self;
        r.cache_enabled = Some(enabled);
        r
    }

    /// The settings with `mirrors` as the mirrors of the index.
    pub fn with_mirrors(self, mirrors: Vec<String>) -> (r: SnakepitConfig)
        ensures
            r == (SnakepitConfig { mirrors: Some(mirrors), ..self }),
    {
        let mut r = self;
        r.mirrors = Some(mirrors);
        r
    }

    /// The settings with a timeout of `timeout` seconds.
    pub fn with_timeout(self, timeout: u64) -> (r: SnakepitConfig)
        ensures
            r == (SnakepitConfig { timeout: Some(timeout), ..self }),
    {
        let mut r = self;
        r.timeout = Some(timeout);
        r
    }

    /// The settings with `retries` attempts.
    pub fn with_retries(self, retries: u32) -> (r: SnakepitConfig)
        ensures
            r == (SnakepitConfig { retries: Some(retries), ..self }),
    {
        let mut r = self;
        r.retries = Some(retries);
        r
    }
}

/// The command that the table of scripts holds for `name`, looked up from
/// position `i` on: the first entry of that name decides.
pub open spec fn script_from(scripts: Seq<(String, String)>, name: Seq<char>, i: int) -> Option<
    Seq<char>,
>
    decreases scripts.len() - i,
{
    if 0 <= i < scripts.len() {
        if scripts[i].0@ == name {
            Some(scripts[i].1@)
        } else {
            script_from(scripts, name, i + 1)
        }
    } else {
        None
    }
}

/// The command of the script `name`, if the project has one.
pub open spec fn script_of(scripts: Option<Vec<(String, String)>>, name: Seq<char>) -> Option<
    Seq<char>,
> {
    match scripts {
        Some(v) => script_from(v@, name, 0),
        None => None,
    }
}

proof fn lemma_script_update(
    d: Seq<(String, String)>,
    i: int,
    e: (String, String),
    x: Seq<char>,
    j: int,
)
    requires
        0 <= i < d.len(),
        0 <= j <= d.len(),
        d[i].0@ == e.0@,
        forall|k: int| 0 <= k < i ==> (#[trigger] d[k]).0@ != e.0@,
    ensures
        script_from(d.update(i, e), x, j) == (if x == e.0@ && j <= i {
            Some(e.1@)
        } else {
            script_from(d, x, j)
        }),
    decreases d.len() - j,
{
    if j < d.len() {
        lemma_script_update(d, i, e, x, j + 1);
    }
}

proof fn lemma_script_push(d: Seq<(String, String)>, e: (String, String), x: Seq<char>, j: int)
    requires
        0 <= j <= d.len(),
        forall|k: int| 0 <= k < d.len() ==> (#[trigger] d[k]).0@ != e.0@,
    ensures
        script_from(d.push(e), x, j) == (if x == e.0@ {
            Some(e.1@)
        } else {
            script_from(d, x, j)
        }),
    decreases d.len() - j,
{
    if j < d.len() {
        lemma_script_push(d, e, x, j + 1);
    } else {
        assert(script_from(d.push(e), x, j + 1) is None);
    }
}

impl ProjectConfig {
    /// The settings of a project of the given name, with nothing else set.
    pub fn new(name: String) -> (r: ProjectConfig)
        ensures
            r.name == name,
            r.version is None,
            r.description is None,
            r.python_version is None,
            r.backend is None,
            r.venv_name is None,
            r.dependencies@.len() == 0,
            r.dev_dependencies@.len() == 0,
            r.scripts is None,
    {
        ProjectConfig {
            name,
            version: None,
            description: None,
            python_version: None,
            backend: None,
            venv_name: None,
            dependencies: Vec::new(),
            dev_dependencies: Vec::new(),
            scripts: None,
        }
    }

    /// The settings with `version` as the project's version.
    pub fn with_version(self, version: &str) -> (r: ProjectConfig)
        ensures
            text_of(r.version) == Some(version@),
            r == (ProjectConfig { version: r.version, ..self }),
    {
        let mut r = self;
        r.version = Some(owned(version));
        r
    }

    /// The settings with `description` as the project's description.
    pub fn with_description(self, description: &str) -> (r: ProjectConfig)
        ensures
            text_of(r.description) == Some(description@),
            r == (ProjectConfig { description: r.description, ..self }),
    {
        let mut r = self;
        r.description = Some(owned(description));
        r
    }

    /// The settings with `version` as the interpreter version.
    pub fn with_python_version(self, version: &str) -> (r: ProjectConfig)
        ensures
            text_of(r.python_version) == Some(version@),
            r == (ProjectConfig { python_version: r.python_version, ..self }),
    {
        let mut r = self;
        r.python_version = Some(owned(version));
        r
    }

    /// The settings with `backend` as the installer.
    pub fn with_backend(self, backend: &str) -> (r: ProjectConfig)
        ensures
            text_of(r.backend) == Some(backend@),
            r == (ProjectConfig { backend: r.backend, ..self }),
    {
        let mut r = self;
        r.backend = Some(owned(backend));
        r
    }

    /// The settings with `name` as the name of the environment.
    pub fn with_venv_name(self, name: &str) -> (r: ProjectConfig)
        ensures
            text_of(r.venv_name) == Some(name@),
            r == (ProjectConfig { venv_name: r.venv_name, ..self }),
    {
        let mut r = self;
        r.venv_name = Some(owned(name));
        r
    }

    /// The settings with `dependency` added to the dependencies.
    pub fn add_dependency(self, dependency: &str) -> (r: ProjectConfig)
        ensures
            crate::text::texts(r.dependencies@) == crate::text::texts(self.dependencies@).push(
                dependency@,
            ),
            r == (ProjectConfig { dependencies: r.dependencies, ..self }),
    {
        let mut r = self;
        r.dependencies.push(owned(dependency));
        assert(crate::text::texts(r.dependencies@) =~= crate::text::texts(self.dependencies@).push(
            dependency@,
        ));
        r
    }

    /// The settings with `dependency` added to the development
    /// dependencies.
    pub fn add_dev_dependency(self, dependency: &str) -> (r: ProjectConfig)
        ensures
            crate::text::texts(r.dev_dependencies@) == crate::text::texts(
                self.dev_dependencies@,
            ).push(dependency@),
            r == (ProjectConfig { dev_dependencies: r.dev_dependencies, ..self }),
    {
        let mut r = self;
        r.dev_dependencies.push(owned(dependency));
        assert(crate::text::texts(r.dev_dependencies@) =~= crate::text::texts(
            self.dev_dependencies@,
        ).push(dependency@));
        r
    }

    /// The settings with the script `name` set to `command`, in place of an
    /// earlier script of that name.
    pub fn add_script(self, name: &str, command: &str) -> (r: ProjectConfig)
        ensures
            r.scripts is Some,
            forall|x: Seq<char>|
                #[trigger] script_of(r.scripts, x) == (if x == name@ {
                    Some(command@)
                } else {
                    script_of(self.scripts, x)
                }),
            r == (ProjectConfig { scripts: r.scripts, ..self }),
    {
        let mut r = self;
        let mut scripts: Vec<(String, String)> = match r.scripts {
            Some(v) => v,
            None => Vec::new(),
        };
        let ghost before = scripts@;
        let entry = (owned(name), owned(command));
        let mut i: usize = 0;
        let mut found: Option<usize> = None;
        while i < scripts.len()
            invariant_except_break
                found is None,
            invariant
                i <= scripts.len(),
                forall|k: int| 0 <= k < i ==> (#[trigger] scripts@[k]).0@ != name@,
            ensures
                match found {
                    Some(f) => f < scripts.len() && scripts@[f as int].0@ == name@ && forall|k: int|
                        0 <= k < f ==> (#[trigger] scripts@[k]).0@ != name@,
                    None => forall|k: int|
                        0 <= k < scripts.len() ==> (#[trigger] scripts@[k]).0@ != name@,
                },
            decreases scripts.len() - i,
        {
            if same_text(scripts[i].0.as_str(), name) {
                found = Some(i);
                break ;
            }
            i += 1;
        }
        match found {
            Some(f) => {
                scripts.remove(f);
                scripts.insert(f, entry);
                proof {
                    assert(scripts@ =~= before.update(f as int, entry));
                    assert forall|x: Seq<char>|
                        #[trigger] script_from(scripts@, x, 0) == (if x == name@ {
                            Some(command@)
                        } else {
                            script_from(before, x, 0)
                        }) by {
                        lemma_script_update(before, f as int, entry, x, 0);
                    }
                }
            },
            None => {
                scripts.push(entry);
                proof {
                    assert forall|x: Seq<char>|
                        #[trigger] script_from(scripts@, x, 0) == (if x == name@ {
                            Some(command@)
                        } else {
                            script_from(before, x, 0)
                        }) by {
                        lemma_script_push(before, entry, x, 0);
                    }
                }
            },
        }
        r.scripts = Some(scripts);
        r
    }
}

} // verus!
