//! The decisions of the daemon that watches Python processes for missing
//! modules: which processes it looks at, what it reads out of a crash log,
//! and whether a missing module is installed. The daemon keeps count of its
//! attempts for each module and process.

use crate::config::SnakepitConfig;
use crate::installer::{InstallerBackend, PackageInstaller};
use crate::text::{
    chars_of, clone_strings, contains_chars, contains_text, copy_range, copy_text, decimal,
    find_char, includes, index_of, lines_of, owned, push_decimal, push_str, rows, same_text,
    split_lines, string_of, text_of, texts,
};
use vstd::prelude::*;

verus! {

/// The settings of the daemon; `check_interval` is in seconds.
#[derive(Debug)]
pub struct DaemonConfig {
    pub enabled: bool,
    pub auto_install: bool,
    pub check_interval: u64,
    pub max_install_attempts: u32,
    pub whitelist_modules: Vec<String>,
    pub blacklist_modules: Vec<String>,
    pub log_file: Option<String>,
    pub pid_file: Option<String>,
    pub git_log_repo: Option<String>,
}

/// The modules that are never installed, unless the settings say
/// otherwise.
pub open spec fn default_blacklist() -> Seq<Seq<char>> {
    seq!["sys"@, "os"@, "builtins"@]
}

impl Default for DaemonConfig {
    fn default() -> (r: DaemonConfig)
        ensures
            r.enabled,
            r.auto_install,
            r.check_interval == 5,
            r.max_install_attempts == 3,
            r.whitelist_modules@.len() == 0,
            texts(r.blacklist_modules@) == default_blacklist(),
            r.log_file is None,
            r.pid_file is None,
            r.git_log_repo is None,
    {
        let mut blacklist: Vec<String> = Vec::new();
        blacklist.push(owned("sys"));
        blacklist.push(owned("os"));
        blacklist.push(owned("builtins"));
        assert(texts(blacklist@) =~= default_blacklist());
        DaemonConfig {
            enabled: true,
            auto_install: true,
            check_interval: 5,
            max_install_attempts: 3,
            whitelist_modules: Vec::new(),
            blacklist_modules: blacklist,
            log_file: None,
            pid_file: None,
            git_log_repo: None,
        }
    }
}

/// Whether two settings say the same.
pub open spec fn same_config(a: DaemonConfig, b: DaemonConfig) -> bool {
    &&& a.enabled == b.enabled
    &&& a.auto_install == b.auto_install
    &&& a.check_interval == b.check_interval
    &&& a.max_install_attempts == b.max_install_attempts
    &&& texts(a.whitelist_modules@) == texts(b.whitelist_modules@)
    &&& texts(a.blacklist_modules@) == texts(b.blacklist_modules@)
    &&& text_of(a.log_file) == text_of(b.log_file)
    &&& text_of(a.pid_file) == text_of(b.pid_file)
    &&& text_of(a.git_log_repo) == text_of(b.git_log_repo)
}

impl Clone for DaemonConfig {
    fn clone(&self) -> (r: DaemonConfig)
        ensures
            same_config(r, *self),
    {
        DaemonConfig {
            enabled: self.enabled,
            auto_install: self.auto_install,
            check_interval: self.check_interval,
            max_install_attempts: self.max_install_attempts,
            whitelist_modules: clone_strings(&self.whitelist_modules),
            blacklist_modules: clone_strings(&self.blacklist_modules),
            log_file: copy_text(&self.log_file),
            pid_file: copy_text(&self.pid_file),
            git_log_repo: copy_text(&self.git_log_repo),
        }
    }
}

/// A missing module that the daemon has tried to install; `timestamp` is
/// in seconds since the epoch.
#[derive(Debug)]
pub struct ModuleError {
    pub module_name: String,
    pub error_message: String,
    pub process_id: u32,
    pub timestamp: u64,
    pub install_attempts: u32,
}

/// What the daemon says of itself.
#[derive(Debug)]
pub struct DaemonStatus {
    pub running: bool,
    pub daemon_id: String,
    pub error_count: usize,
    pub config: DaemonConfig,
}

/// What the daemon does about a missing module.
#[derive(Debug, Clone, Copy, PartialEq, Eq, Structural)]
pub enum Reaction {
    /// Nothing.
    Ignore,
    /// It reports the module.
    Notify,
    /// It reports the module and installs it.
    Install,
}

/// The daemon: its settings, how it installs, and the modules it has tried
/// to install, by module and process.
#[derive(Debug)]
pub struct SnakepitDaemon {
    pub config: DaemonConfig,
    pub installer: PackageInstaller,
    pub error_cache: Vec<(String, ModuleError)>,
    pub running: bool,
    pub daemon_id: String,
}

/// The program that installs for the daemon: the one that the settings
/// name, if that is `conda` or `poetry`, else `pip`.
pub open spec fn backend_for(name: Option<Seq<char>>) -> InstallerBackend {
    if name == Some("conda"@) {
        InstallerBackend::Conda
    } else if name == Some("poetry"@) {
        InstallerBackend::Poetry
    } else {
        InstallerBackend::Pip
    }
}

/// A character with an upper-case letter of ASCII made lower-case.
pub open spec fn lower(c: char) -> char {
    if 'A' <= c <= 'Z' {
        ((c as u8) + 32) as char
    } else {
        c
    }
}

/// A text with its upper-case letters of ASCII made lower-case.
pub open spec fn lowered(s: Seq<char>) -> Seq<char> {
    Seq::new(s.len(), |i: int| lower(s[i]))
}

/// Whether a process with the name `name` and the command line `cmd` runs
/// Python: its name holds `python` in whatever case, or an argument holds
/// `python`.
pub open spec fn runs_python(name: Seq<char>, cmd: Seq<Seq<char>>) -> bool {
    contains_text(lowered(name), "python"@) || exists|i: int|
        0 <= i < cmd.len() && contains_text(#[trigger] cmd[i], "python"@)
}

/// What stands between the first two apostrophes of a line.
pub open spec fn quoted(line: Seq<char>) -> Option<Seq<char>> {
    let a = index_of(line, '\'', 0);
    let b = index_of(line, '\'', a + 1);
    if a < line.len() && b < line.len() {
        Some(line.subrange(a + 1, b))
    } else {
        None
    }
}

/// The module that a line of a crash log reports as missing.
pub open spec fn named_module(line: Seq<char>) -> Option<Seq<char>> {
    if contains_text(line, "ModuleNotFoundError"@) {
        quoted(line)
    } else {
        None
    }
}

/// The module that the lines before `i` report as missing, read backwards
/// down to the line `stop`.
pub open spec fn reported_before(lines: Seq<Seq<char>>, i: int, stop: int) -> Option<Seq<char>>
    decreases i,
{
    if i <= 0 || i <= stop || i > lines.len() {
        None
    } else {
        match named_module(lines[i - 1]) {
            Some(m) => Some(m),
            None => reported_before(lines, i - 1, stop),
        }
    }
}

/// The module that a crash log reports as missing: the one of the last
/// line among its last twenty that names one.
pub open spec fn missing_module(log: Seq<char>) -> Option<Seq<char>> {
    let lines = lines_of(log);
    reported_before(lines, lines.len() as int, lines.len() - 20)
}

/// The key under which attempts for a module and a process are counted.
pub open spec fn cache_key(module: Seq<char>, pid: u32) -> Seq<char> {
    module + ":"@ + decimal(pid as nat)
}

/// The number of attempts recorded under `key`: the last entry counts.
pub open spec fn attempts_of(cache: Seq<(String, ModuleError)>, key: Seq<char>) -> Option<u32>
    decreases cache.len(),
{
    if cache.len() == 0 {
        None
    } else if cache.last().0@ == key {
        Some(cache.last().1.install_attempts)
    } else {
        attempts_of(cache.drop_last(), key)
    }
}

/// What the daemon does about the missing module `module` after
/// `attempts` attempts to install it: nothing for a module on the
/// blacklist, for one that a whitelist leaves out, and after as many
/// attempts as the settings allow; otherwise it installs where the
/// settings say so, and reports.
pub open spec fn reaction_spec(config: DaemonConfig, module: Seq<char>, attempts: Option<u32>) -> Reaction {
    if texts(config.blacklist_modules@).contains(module) {
        Reaction::Ignore
    } else if config.whitelist_modules@.len() > 0 && !texts(config.whitelist_modules@).contains(
        module,
    ) {
        Reaction::Ignore
    } else if attempts is Some && attempts->0 >= config.max_install_attempts {
        Reaction::Ignore
    } else if config.auto_install {
        Reaction::Install
    } else {
        Reaction::Notify
    }
}

/// The number of the next attempt.
pub open spec fn next_attempt(attempts: Option<u32>) -> int {
    match attempts {
        Some(n) => n + 1,
        None => 1,
    }
}

/// Whether `entry` records the attempt that follows `attempts` to install
/// `module` for the process `pid` at the time `now`.
pub open spec fn records(
    entry: (String, ModuleError),
    module: Seq<char>,
    pid: u32,
    now: u64,
    attempts: Option<u32>,
) -> bool {
    &&& entry.0@ == cache_key(module, pid)
    &&& entry.1.module_name@ == module
    &&& entry.1.error_message@ == "Missing module detected"@
    &&& entry.1.process_id == 0
    &&& entry.1.timestamp == now
    &&& entry.1.install_attempts == next_attempt(attempts)
}

fn lower_char(c: char) -> (r: char)
    ensures
        r == lower(c),
{
    if 'A' <= c && c <= 'Z' {
        ((c as u8) + 32) as char
    } else {
        c
    }
}

fn lower_chars(v: &Vec<char>) -> (r: Vec<char>)
    ensures
        r@ == lowered(v@),
{
    let mut out: Vec<char> = Vec::new();
    let mut i: usize = 0;
    while i < v.len()
        invariant
            i <= v.len(),
            out@.len() == i,
            forall|j: int| 0 <= j < i ==> out@[j] == lower(v@[j]),
        decreases v.len() - i,
    {
        out.push(lower_char(v[i]));
        i += 1;
    }
    assert(out@ =~= lowered(v@));
    out
}

/// The key under which attempts for a module and a process are counted.
fn key_of(module: &str, pid: u32) -> (r: String)
    ensures
        r@ == cache_key(module@, pid),
{
    let mut out = chars_of(module);
    push_str(&mut out, ":");
    push_decimal(&mut out, pid as u64);
    assert(out@ =~= cache_key(module@, pid));
    string_of(&out)
}

/// The module that a line of a crash log reports as missing.
fn module_in_line(line: &Vec<char>) -> (r: Option<String>)
    ensures
        text_of(r) == named_module(line@),
{
    let mark = chars_of("ModuleNotFoundError");
    if !contains_chars(line, &mark) {
        return None;
    }
    let a = find_char(line, '\'', 0);
    if a >= line.len() {
        return None;
    }
    let b = find_char(line, '\'', a + 1);
    if b >= line.len() {
        return None;
    }
    Some(string_of(&copy_range(line, a + 1, b)))
}

impl SnakepitDaemon {
    /// A daemon with the given settings and name, not running, that has
    /// tried nothing yet and installs as `snakepit_config` says.
    pub fn new(config: DaemonConfig, snakepit_config: &SnakepitConfig, daemon_id: String) -> (r:
        SnakepitDaemon)
        ensures
            r.config == config,
            r.daemon_id == daemon_id,
            !r.running,
            r.error_cache@.len() == 0,
            r.installer.backend == backend_for(text_of(snakepit_config.default_backend)),
            r.installer.venv_path is None,
            r.installer.use_cache,
    {
        let backend = match &snakepit_config.default_backend {
            Some(name) => {
                if same_text(name.as_str(), "conda") {
                    InstallerBackend::Conda
                } else if same_text(name.as_str(), "poetry") {
                    InstallerBackend::Poetry
                } else {
                    InstallerBackend::Pip
                }
            },
            None => InstallerBackend::Pip,
        };
        SnakepitDaemon {
            config,
            installer: PackageInstaller::new().with_backend(backend),
            error_cache: Vec::new(),
            running: false,
            daemon_id,
        }
    }

    /// Whether a process with this name and command line runs Python.
    pub fn is_python_process(name: &str, cmd: &Vec<String>) -> (r: bool)
        ensures
            r == runs_python(name@, texts(cmd@)),
    {
        let word = chars_of("python");
        if contains_chars(&lower_chars(&chars_of(name)), &word) {
            return true;
        }
        let mut i: usize = 0;
        while i < cmd.len()
            invariant
                i <= cmd.len(),
                word@ == "python"@,
                !contains_text(lowered(name@), "python"@),
                forall|j: int| 0 <= j < i ==> !contains_text(#[trigger] texts(cmd@)[j], "python"@),
            decreases cmd.len() - i,
        {
            assert(texts(cmd@)[i as int] == cmd[i as int]@);
            if contains_chars(&chars_of(cmd[i].as_str()), &word) {
                return true;
            }
            i += 1;
        }
        false
    }

    /// The module that a crash log reports as missing: see
    /// [`missing_module`].
    pub fn detect_missing_module(log: &str) -> (r: Option<String>)
        ensures
            text_of(r) == missing_module(log@),
    {
        let lines = split_lines(&chars_of(log));
        let ghost ls = rows(lines@);
        let n = lines.len();
        let stop: usize = if n > 20 {
            n - 20
        } else {
            0
        };
        let mut i: usize = n;
        while i > stop
            invariant
                stop <= i <= n,
                n == lines.len(),
                ls == rows(lines@),
                ls == lines_of(log@),
                stop == 0 || stop == n - 20,
                stop >= n - 20,
                reported_before(ls, i as int, n - 20) == missing_module(log@),
            decreases i,
        {
            assert(ls[i - 1] == lines[i - 1]@);
            match module_in_line(&lines[i - 1]) {
                Some(m) => {
                    return Some(m);
                },
                None => {},
            }
            i -= 1;
        }
        None
    }

    /// The number of attempts recorded for a module and a process.
    pub fn attempts(&self, module_name: &str, pid: u32) -> (r: Option<u32>)
        ensures
            r == attempts_of(self.error_cache@, cache_key(module_name@, pid)),
    {
        let key = key_of(module_name, pid);
        let ghost cache = self.error_cache@;
        let mut i: usize = self.error_cache.len();
        assert(cache.take(i as int) =~= cache);
        while i > 0
            invariant
                i <= self.error_cache.len(),
                cache == self.error_cache@,
                key@ == cache_key(module_name@, pid),
                attempts_of(cache.take(i as int), key@) == attempts_of(cache, key@),
            decreases i,
        {
            assert(cache.take(i as int).last() == cache[i - 1]);
            assert(cache.take(i as int).drop_last() =~= cache.take(i - 1));
            if same_text(self.error_cache[i - 1].0.as_str(), key.as_str()) {
                return Some(self.error_cache[i - 1].1.install_attempts);
            }
            i -= 1;
        }
        None
    }

    /// Decides what to do about a module that the process `pid` misses,
    /// at the time `now`: see [`reaction_spec`]. Where the module is to be
    /// installed, the attempt is recorded.
    pub fn handle_missing_module(&mut self, module_name: &str, pid: u32, now: u64) -> (r: Reaction)
        ensures
            r == reaction_spec(
                old(self).config,
                module_name@,
                attempts_of(old(self).error_cache@, cache_key(module_name@, pid)),
            ),
            final(self).config == old(self).config,
            final(self).installer == old(self).installer,
            final(self).running == old(self).running,
            final(self).daemon_id == old(self).daemon_id,
            r != Reaction::Install ==> final(self).error_cache == old(self).error_cache,
            r == Reaction::Install ==> final(self).error_cache@.len() == old(self).error_cache@.len()
                + 1 && final(self).error_cache@.drop_last() == old(self).error_cache@ && records(
                final(self).error_cache@.last(),
                module_name@,
                pid,
                now,
                attempts_of(old(self).error_cache@, cache_key(module_name@, pid)),
            ),
    {
        if includes(&self.config.blacklist_modules, module_name) {
            return Reaction::Ignore;
        }
        if self.config.whitelist_modules.len() > 0 && !includes(
            &self.config.whitelist_modules,
            module_name,
        ) {
            return Reaction::Ignore;
        }
        let attempts = self.attempts(module_name, pid);
        let next: u32 = match attempts {
            Some(n) => {
                if n >= self.config.max_install_attempts {
                    return Reaction::Ignore;
                }
                n + 1
            },
            None => 1,
        };
        if !self.config.auto_install {
            return Reaction::Notify;
        }
        let ghost before = self.error_cache@;
        let entry = (
            key_of(module_name, pid),
            ModuleError {
                module_name: owned(module_name),
                error_message: owned("Missing module detected"),
                process_id: 0,
                timestamp: now,
                install_attempts: next,
            },
        );
        self.error_cache.push(entry);
        assert(self.error_cache@.drop_last() =~= before);
        Reaction::Install
    }

    /// Takes in how an installation for a module and a process ended:
    /// after a success nothing is recorded for them any more.
    pub fn install_finished(&mut self, module_name: &str, pid: u32, succeeded: bool)
        ensures
            final(self).config == old(self).config,
            final(self).installer == old(self).installer,
            final(self).running == old(self).running,
            final(self).daemon_id == old(self).daemon_id,
            forall|key: Seq<char>|
                #[trigger] attempts_of(final(self).error_cache@, key) == (if succeeded && key
                    == cache_key(module_name@, pid) {
                    None
                } else {
                    attempts_of(old(self).error_cache@, key)
                }),
    {
        if !succeeded {
            return ;
        }
        let key = key_of(module_name, pid);
        let ghost cache = self.error_cache@;
        let mut kept: Vec<(String, ModuleError)> = Vec::new();
        let mut i: usize = 0;
        while i < self.error_cache.len()
            invariant
                i <= self.error_cache.len(),
                cache == self.error_cache@,
                self.config == old(self).config,
                self.installer == old(self).installer,
                self.running == old(self).running,
                self.daemon_id == old(self).daemon_id,
                key@ == cache_key(module_name@, pid),
                forall|k: Seq<char>|
                    #[trigger] attempts_of(kept@, k) == (if k == key@ {
                        None
                    } else {
                        attempts_of(cache.take(i as int), k)
                    }),
            decreases self.error_cache.len() - i,
        {
            let ghost held = kept@;
            let e = &self.error_cache[i];
            proof {
                assert(cache.take(i + 1).drop_last() =~= cache.take(i as int));
                assert(cache.take(i + 1).last() == cache[i as int]);
            }
            if !same_text(e.0.as_str(), key.as_str()) {
                kept.push(
                    (
                        owned(e.0.as_str()),
                        ModuleError {
                            module_name: owned(e.1.module_name.as_str()),
                            error_message: owned(e.1.error_message.as_str()),
                            process_id: e.1.process_id,
                            timestamp: e.1.timestamp,
                            install_attempts: e.1.install_attempts,
                        },
                    ),
                );
                proof {
                    assert(kept@.drop_last() =~= held);
                    assert(kept@.last().0@ == cache[i as int].0@);
                    assert(kept@.last().1.install_attempts == cache[i as int].1.install_attempts);
                }
            }
            proof {
                let longer = cache.take(i + 1);
                assert forall|k: Seq<char>|
                    #[trigger] attempts_of(kept@, k) == (if k == key@ {
                        None
                    } else {
                        attempts_of(longer, k)
                    }) by {
                    assert(attempts_of(held, k) == (if k == key@ {
                        None
                    } else {
                        attempts_of(cache.take(i as int), k)
                    }));
                    assert(attempts_of(longer, k) == (if longer.last().0@ == k {
                        Some(longer.last().1.install_attempts)
                    } else {
                        attempts_of(longer.drop_last(), k)
                    }));
                }
            }
            i += 1;
        }
        assert(cache.take(i as int) =~= cache);
        self.error_cache = kept;
    }

    /// Marks the daemon as running.
    pub fn start(&mut self)
        ensures
            final(self).running,
            final(self).config == old(self).config,
            final(self).installer == old(self).installer,
            final(self).error_cache == old(self).error_cache,
            final(self).daemon_id == old(self).daemon_id,
    {
        self.running = true;
    }

    /// Marks the daemon as stopped.
    pub fn stop(&mut self)
        ensures
            !final(self).running,
            final(self).config == old(self).config,
            final(self).installer == old(self).installer,
            final(self).error_cache == old(self).error_cache,
            final(self).daemon_id == old(self).daemon_id,
    {
        self.running = false;
    }

    /// What the daemon says of itself: whether it runs, its name, how many
    /// attempts it has recorded, and its settings.
    pub fn status(&self) -> (r: DaemonStatus)
        ensures
            r.running == self.running,
            r.daemon_id@ == self.daemon_id@,
            r.error_count == self.error_cache@.len(),
            same_config(r.config, self.config),
    {
        DaemonStatus {
            running: self.running,
            daemon_id: owned(self.daemon_id.as_str()),
            error_count: self.error_cache.len(),
            config: self.config.clone(),
        }
    }
}

} // verus!
