//! Changes to the source text of a forked Python module: code that is put
//! in at the definition of a function, either before the definition or
//! right after its signature.

use crate::text::{
    chars_of, contains_chars, contains_text, decimal, find_char, find_spec, index_of, owned,
    position_of_text, push_decimal, push_range, push_str, string_of,
};
use vstd::prelude::*;

verus! {

/// What is put in at a function.
#[derive(Debug)]
pub enum ModificationType {
    /// A log entry on every call.
    InjectLogging,
    /// A wrapper that calls again after a failure.
    InjectRetry { max_attempts: u32, backoff_ms: u64 },
    /// A cache of the results.
    InjectCache { ttl_seconds: u64 },
    /// A fixed result in place of the body.
    MockReturn { return_value: String },
    /// A line of code at the start of the body.
    CustomCode { code: String },
}

/// The mathematical value of a [`ModificationType`].
pub enum ModificationView {
    InjectLogging,
    InjectRetry { max_attempts: u32, backoff_ms: u64 },
    InjectCache { ttl_seconds: u64 },
    MockReturn { return_value: Seq<char> },
    CustomCode { code: Seq<char> },
}

impl View for ModificationType {
    type V = ModificationView;

    open spec fn view(&self) -> ModificationView {
        match self {
            ModificationType::InjectLogging => ModificationView::InjectLogging,
            ModificationType::InjectRetry { max_attempts, backoff_ms } => ModificationView::InjectRetry {
                max_attempts: *max_attempts,
                backoff_ms: *backoff_ms,
            },
            ModificationType::InjectCache { ttl_seconds } => ModificationView::InjectCache {
                ttl_seconds: *ttl_seconds,
            },
            ModificationType::MockReturn { return_value } => ModificationView::MockReturn {
                return_value: return_value@,
            },
            ModificationType::CustomCode { code } => ModificationView::CustomCode { code: code@ },
        }
    }
}

/// One change: what is put in, and at which function of which module.
#[derive(Debug)]
pub struct ModificationRule {
    pub target_module: String,
    pub target_function: String,
    pub modification_type: ModificationType,
}

/// The changes to make to forked modules, and the directory that holds the
/// forks.
#[derive(Debug)]
pub struct HallucinatoryFangs {
    pub sandbox_dir: String,
    pub modifications: Vec<ModificationRule>,
}

/// Why a change could not be made.
#[derive(Debug)]
pub enum FangsError {
    /// The text defines no function of this name, or the definition has no
    /// colon after it.
    FunctionNotFound(String),
}

/// The text with which the definition of the function `name` begins.
pub open spec fn definition_mark(name: Seq<char>) -> Seq<char> {
    "def "@ + name + "("@
}

/// Where the first definition of the function `name` begins.
pub open spec fn definition_of(content: Seq<char>, name: Seq<char>) -> Option<int> {
    find_spec(content, definition_mark(name), 0)
}

/// Where the body of the first definition of the function `name` begins:
/// behind the first colon from the definition on.
pub open spec fn body_of(content: Seq<char>, name: Seq<char>) -> Option<int> {
    match definition_of(content, name) {
        Some(p) => if index_of(content, ':', p) < content.len() {
            Some(index_of(content, ':', p) + 1)
        } else {
            None
        },
        None => None,
    }
}

/// The text `content` with `piece` put in at the position `at`.
pub open spec fn put_in(content: Seq<char>, at: int, piece: Seq<char>) -> Seq<char> {
    content.subrange(0, at) + piece + content.subrange(at, content.len() as int)
}

/// The lines that log a call of the function `name`.
pub open spec fn logging_code(name: Seq<char>) -> Seq<char> {
    "\n    import logging\n    logging.info('\u{1F50D} Calling "@ + name + "()')\n"@
}

/// The wrapper that calls a function up to `max_attempts` times, waiting
/// `backoff_ms` milliseconds after each failure, and the line that puts
/// the wrapper around the definition that follows.
pub open spec fn retry_code(max_attempts: u32, backoff_ms: u64) -> Seq<char> {
    "def _retry_wrapper(func):\n    def wrapper(*args, **kwargs):\n        for attempt in range("@
        + decimal(max_attempts as nat)
        + "):\n            try:\n                return func(*args, **kwargs)\n            except Exception as e:\n                if attempt == "@
        + decimal(max_attempts as nat)
        + " - 1:\n                    raise\n                import time\n                time.sleep("@
        + decimal(backoff_ms as nat)
        + " / 1000.0)\n        return None\n    return wrapper\n\n@_retry_wrapper\n"@
}

/// The line that puts a cache around the definition that follows.
pub open spec fn cache_code() -> Seq<char> {
    "@functools.lru_cache(maxsize=128)\n"@
}

/// The line that returns `value`.
pub open spec fn mock_code(value: Seq<char>) -> Seq<char> {
    "\n    return "@ + value + "\n"@
}

/// The line that holds `code`.
pub open spec fn custom_code(code: Seq<char>) -> Seq<char> {
    "\n    "@ + code + "\n"@
}

/// The text with the import of `functools` at its top, if it holds none.
pub open spec fn with_functools(content: Seq<char>) -> Seq<char> {
    if contains_text(content, "import functools"@) {
        content
    } else {
        "import functools\n"@ + content
    }
}

/// The text `content` after the change `change` at the function `name`;
/// none where the change cannot be made. Logging, a fixed result and custom
/// code go behind the signature; the retry wrapper and the cache go before
/// the definition.
pub open spec fn modified(content: Seq<char>, name: Seq<char>, change: ModificationView) -> Option<
    Seq<char>,
> {
    match change {
        ModificationView::InjectLogging => match body_of(content, name) {
            Some(at) => Some(put_in(content, at, logging_code(name))),
            None => None,
        },
        ModificationView::InjectRetry { max_attempts, backoff_ms } => match definition_of(
            content,
            name,
        ) {
            Some(at) => Some(put_in(content, at, retry_code(max_attempts, backoff_ms))),
            None => None,
        },
        ModificationView::InjectCache { .. } => match definition_of(content, name) {
            Some(at) => Some(with_functools(put_in(content, at, cache_code()))),
            None => None,
        },
        ModificationView::MockReturn { return_value } => match body_of(content, name) {
            Some(at) => Some(put_in(content, at, mock_code(return_value))),
            None => None,
        },
        ModificationView::CustomCode { code } => match body_of(content, name) {
            Some(at) => Some(put_in(content, at, custom_code(code))),
            None => None,
        },
    }
}

/// Whether `r` is the outcome of the change `change` at the function
/// `name` of the text `content`: the changed text, or the name of the
/// function that was not found.
pub open spec fn is_outcome(
    r: Result<String, FangsError>,
    content: Seq<char>,
    name: Seq<char>,
    change: ModificationView,
) -> bool {
    match r {
        Ok(text) => modified(content, name, change) == Some(text@),
        Err(FangsError::FunctionNotFound(missing)) => modified(content, name, change) is None
            && missing@ == name,
    }
}

/// Where the first definition of the function `name` begins.
fn find_definition(content: &Vec<char>, name: &str) -> (r: Option<usize>)
    ensures
        match r {
            Some(p) => definition_of(content@, name@) == Some(p as int) && p <= content.len(),
            None => definition_of(content@, name@) is None,
        },
{
    let mut mark: Vec<char> = Vec::new();
    push_str(&mut mark, "def ");
    push_str(&mut mark, name);
    push_str(&mut mark, "(");
    assert(mark@ =~= definition_mark(name@));
    position_of_text(content, 0, &mark)
}

/// Where the body of the first definition of the function `name` begins.
fn find_body(content: &Vec<char>, name: &str) -> (r: Option<usize>)
    ensures
        match r {
            Some(p) => body_of(content@, name@) == Some(p as int) && p <= content.len(),
            None => body_of(content@, name@) is None,
        },
{
    match find_definition(content, name) {
        Some(p) => {
            let colon = find_char(content, ':', p);
            if colon < content.len() {
                Some(colon + 1)
            } else {
                None
            }
        },
        None => None,
    }
}

/// The text `content` with `piece` put in at the position `at`.
fn insert_at(content: &Vec<char>, at: usize, piece: &Vec<char>) -> (r: Vec<char>)
    requires
        at <= content.len(),
    ensures
        r@ == put_in(content@, at as int, piece@),
{
    let mut out: Vec<char> = Vec::new();
    push_range(&mut out, content, 0, at);
    push_range(&mut out, piece, 0, piece.len());
    push_range(&mut out, content, at, content.len());
    assert(piece@.subrange(0, piece@.len() as int) =~= piece@);
    assert(out@ =~= put_in(content@, at as int, piece@));
    out
}

/// The failure for the function `name`.
fn not_found(name: &str) -> (r: Result<String, FangsError>)
    ensures
        r matches Err(FangsError::FunctionNotFound(missing)) && missing@ == name@,
{
    Err(FangsError::FunctionNotFound(owned(name)))
}

impl HallucinatoryFangs {
    /// No changes, for forks kept in the directory `sandbox_dir`.
    pub fn new(sandbox_dir: String) -> (r: HallucinatoryFangs)
        ensures
            r.sandbox_dir == sandbox_dir,
            r.modifications@.len() == 0,
    {
        HallucinatoryFangs { sandbox_dir, modifications: Vec::new() }
    }

    /// Adds a change at the end.
    pub fn add_modification(&mut self, rule: ModificationRule)
        ensures
            final(self).sandbox_dir == old(self).sandbox_dir,
            final(self).modifications@ == old(self).modifications@.push(rule),
    {
        self.modifications.push(rule);
    }

    /// The text with a log entry at the start of the function's body.
    pub fn inject_logging(&self, content: &str, function_name: &str) -> (r: Result<String, FangsError>)
        ensures
            is_outcome(r, content@, function_name@, ModificationView::InjectLogging),
    {
        let text = chars_of(content);
        match find_body(&text, function_name) {
            Some(at) => {
                let mut piece: Vec<char> = Vec::new();
                push_str(&mut piece, "\n    import logging\n    logging.info('\u{1F50D} Calling ");
                push_str(&mut piece, function_name);
                push_str(&mut piece, "()')\n");
                assert(piece@ =~= logging_code(function_name@));
                Ok(string_of(&insert_at(&text, at, &piece)))
            },
            None => not_found(function_name),
        }
    }

    /// The text with the retry wrapper before the function's definition.
    pub fn inject_retry(&self, content: &str, function_name: &str, max_attempts: u32, backoff_ms: u64) -> (r:
        Result<String, FangsError>)
        ensures
            is_outcome(
                r,
                content@,
                function_name@,
                ModificationView::InjectRetry { max_attempts, backoff_ms },
            ),
    {
        let text = chars_of(content);
        match find_definition(&text, function_name) {
            Some(at) => {
                let mut piece: Vec<char> = Vec::new();
                push_str(
                    &mut piece,
                    "def _retry_wrapper(func):\n    def wrapper(*args, **kwargs):\n        for attempt in range(",
                );
                push_decimal(&mut piece, max_attempts as u64);
                push_str(
                    &mut piece,
                    "):\n            try:\n                return func(*args, **kwargs)\n            except Exception as e:\n                if attempt == ",
                );
                push_decimal(&mut piece, max_attempts as u64);
                push_str(
                    &mut piece,
                    " - 1:\n                    raise\n                import time\n                time.sleep(",
                );
                push_decimal(&mut piece, backoff_ms);
                push_str(
                    &mut piece,
                    " / 1000.0)\n        return None\n    return wrapper\n\n@_retry_wrapper\n",
                );
                assert(piece@ =~= retry_code(max_attempts, backoff_ms));
                Ok(string_of(&insert_at(&text, at, &piece)))
            },
            None => not_found(function_name),
        }
    }

    /// The text with the cache before the function's definition, and with
    /// the import that the cache needs.
    pub fn inject_cache(&self, content: &str, function_name: &str, ttl_seconds: u64) -> (r: Result<
        String,
        FangsError,
    >)
        ensures
            is_outcome(r, content@, function_name@, ModificationView::InjectCache { ttl_seconds }),
    {
        let text = chars_of(content);
        match find_definition(&text, function_name) {
            Some(at) => {
                let piece = chars_of("@functools.lru_cache(maxsize=128)\n");
                let changed = insert_at(&text, at, &piece);
                let import = chars_of("import functools");
                if contains_chars(&changed, &import) {
                    Ok(string_of(&changed))
                } else {
                    let mut out = chars_of("import functools\n");
                    push_range(&mut out, &changed, 0, changed.len());
                    assert(changed@.subrange(0, changed@.len() as int) =~= changed@);
                    Ok(string_of(&out))
                }
            },
            None => not_found(function_name),
        }
    }

    /// The text with a fixed result at the start of the function's body.
    pub fn mock_return(&self, content: &str, function_name: &str, return_value: &str) -> (r: Result<
        String,
        FangsError,
    >)
        ensures
            is_outcome(
                r,
                content@,
                function_name@,
                ModificationView::MockReturn { return_value: return_value@ },
            ),
    {
        let text = chars_of(content);
        match find_body(&text, function_name) {
            Some(at) => {
                let mut piece: Vec<char> = Vec::new();
                push_str(&mut piece, "\n    return ");
                push_str(&mut piece, return_value);
                push_str(&mut piece, "\n");
                assert(piece@ =~= mock_code(return_value@));
                Ok(string_of(&insert_at(&text, at, &piece)))
            },
            None => not_found(function_name),
        }
    }

    /// The text with the line `code` at the start of the function's body.
    pub fn inject_custom_code(&self, content: &str, function_name: &str, code: &str) -> (r: Result<
        String,
        FangsError,
    >)
        ensures
            is_outcome(r, content@, function_name@, ModificationView::CustomCode { code: code@ }),
    {
        let text = chars_of(content);
        match find_body(&text, function_name) {
            Some(at) => {
                let mut piece: Vec<char> = Vec::new();
                push_str(&mut piece, "\n    ");
                push_str(&mut piece, code);
                push_str(&mut piece, "\n");
                assert(piece@ =~= custom_code(code@));
                Ok(string_of(&insert_at(&text, at, &piece)))
            },
            None => not_found(function_name),
        }
    }

    /// The text of a module after the change that the rule describes, at
    /// the function that the rule names.
    pub fn apply_modification(&self, content: &str, rule: &ModificationRule) -> (r: Result<
        String,
        FangsError,
    >)
        ensures
            is_outcome(r, content@, rule.target_function@, rule.modification_type@),
    {
        let name = rule.target_function.as_str();
        match &rule.modification_type {
            ModificationType::InjectLogging => self.inject_logging(content, name),
            ModificationType::InjectRetry { max_attempts, backoff_ms } => self.inject_retry(
                content,
                name,
                *max_attempts,
                *backoff_ms,
            ),
            ModificationType::InjectCache { ttl_seconds } => self.inject_cache(
                content,
                name,
                *ttl_seconds,
            ),
            ModificationType::MockReturn { return_value } => self.mock_return(
                content,
                name,
                return_value.as_str(),
            ),
            ModificationType::CustomCode { code } => self.inject_custom_code(
                content,
                name,
                code.as_str(),
            ),
        }
    }
}

} // verus!
