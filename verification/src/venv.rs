//! The choice of the program that makes virtual environments, and where
//! environments are kept.

use crate::text::{owned, texts};
use vstd::prelude::*;

verus! {

/// A program that makes virtual environments.
#[derive(Debug, Clone, Copy, PartialEq, Eq, Structural)]
pub enum VenvBackend {
    Venv,
    Virtualenv,
    Conda,
    Poetry,
}

/// Where environments are kept, as the parts of a path, and what makes
/// them.
#[derive(Debug)]
pub struct VirtualEnvironmentManager {
    pub backend: VenvBackend,
    pub base_path: Vec<String>,
}

impl VenvBackend {
    /// The program to use, given which of them are installed: conda before
    /// poetry before virtualenv, and the interpreter's own module where
    /// none is.
    pub fn detect(conda: bool, poetry: bool, virtualenv: bool) -> (r: VenvBackend)
        ensures
            r == (if conda {
                VenvBackend::Conda
            } else if poetry {
                VenvBackend::Poetry
            } else if virtualenv {
                VenvBackend::Virtualenv
            } else {
                VenvBackend::Venv
            }),
    {
        if conda {
            VenvBackend::Conda
        } else if poetry {
            VenvBackend::Poetry
        } else if virtualenv {
            VenvBackend::Virtualenv
        } else {
            VenvBackend::Venv
        }
    }
}

/// The parts of the default path of environments: `.snakepit/venvs` under
/// the home directory, or under the working directory where there is none.
pub open spec fn default_venv_path(home: Option<Seq<char>>) -> Seq<Seq<char>> {
    match home {
        Some(h) => seq![h, ".snakepit"@, "venvs"@],
        None => seq![".snakepit"@, "venvs"@],
    }
}

impl VirtualEnvironmentManager {
    /// The manager that works with `backend` and keeps environments at the
    /// default path for the given home directory.
    pub fn new(backend: VenvBackend, home_dir: Option<&str>) -> (r: VirtualEnvironmentManager)
        ensures
            r.backend == backend,
            texts(r.base_path@) == default_venv_path(
                match home_dir {
                    Some(h) => Some(h@),
                    None => None,
                },
            ),
    {
        VirtualEnvironmentManager {
            backend,
            base_path: VirtualEnvironmentManager::get_default_venv_path(home_dir),
        }
    }

    /// The manager with another program.
    pub fn with_backend(self, backend: VenvBackend) -> (r: VirtualEnvironmentManager)
        ensures
            r == (VirtualEnvironmentManager { backend, ..self }),
    {
        let mut r = self;
        r.backend = backend;
        r
    }

    /// The manager with another place for environments.
    pub fn with_base_path(self, path: Vec<String>) -> (r: VirtualEnvironmentManager)
        ensures
            r == (VirtualEnvironmentManager { base_path: path, ..self }),
    {
        let mut r = self;
        r.base_path = path;
        r
    }

    /// The parts of the default path of environments.
    pub fn get_default_venv_path(home_dir: Option<&str>) -> (r: Vec<String>)
        ensures
            texts(r@) == default_venv_path(
                match home_dir {
                    Some(h) => Some(h@),
                    None => None,
                },
            ),
    {
        match home_dir {
            Some(h) => {
                let r = vec![owned(h), owned(".snakepit"), owned("venvs")];
                assert(texts(r@) =~= seq![h@, ".snakepit"@, "venvs"@]);
                r
            },
            None => {
                let r = vec![owned(".snakepit"), owned("venvs")];
                assert(texts(r@) =~= seq![".snakepit"@, "venvs"@]);
                r
            },
        }
    }

    /// The parts of the path of the environment `name`: the place of
    /// environments and the name.
    pub fn get_venv_path(&self, name: &str) -> (r: Vec<String>)
        ensures
            texts(r@) == texts(self.base_path@).push(name@),
    {
        let mut r = crate::text::clone_strings(&self.base_path);
        let ghost before = r@;
        r.push(owned(name));
        assert(texts(r@) =~= texts(before).push(name@));
        r
    }
}

} // verus!
