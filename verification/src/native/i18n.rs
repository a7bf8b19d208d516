//! Texts by locale: each locale has a JSON document of texts, a text is
//! looked up by a key of names joined by dots, and where the current locale
//! has no text for a key, English is asked, and then the key itself stands
//! for the text. The documents are read by the `serde_json` crate.

use crate::pyproject::{below, held_at, lemma_below};
use crate::text::{chars_of, owned, rows, same_text, split, split_chars, string_of, text_of};
use vstd::prelude::*;

verus! {

/// `serde_json::Value`, a value of a JSON document, as an opaque value.
#[verifier::external_type_specification]
#[verifier::external_body]
pub struct ExJsonValue(serde_json::Value);

/// `serde_json::Error`, the reason why a text is no JSON document, as an
/// opaque value.
#[verifier::external_type_specification]
#[verifier::external_body]
pub struct ExJsonError(serde_json::Error);

/// The strings that a JSON value holds, each under the path of keys that
/// leads from the value to it. A value that is a string holds itself under
/// the empty path; an object holds under a key and a path what its member
/// for the key holds under the path; any other value holds no string.
pub uninterp spec fn json_strings(value: serde_json::Value) -> Map<Seq<Seq<char>>, Seq<char>>;

/// What `serde_json::from_str` reads from a text: the strings that the
/// document holds, or nothing where the text is no JSON document.
pub uninterp spec fn json_read(text: Seq<char>) -> Option<Map<Seq<Seq<char>>, Seq<char>>>;

/// `serde_json::from_str`, for a whole document: the value of the document,
/// or the reason why the text is none. The document holds the strings that
/// [`json_read`] names for the text, and the call fails where that names
/// nothing.
#[verifier::external_body]
fn read_json(content: &str) -> (r: Result<serde_json::Value, serde_json::Error>)
    ensures
        match r {
            Ok(document) => json_read(content@) == Some(json_strings(document)),
            Err(_) => json_read(content@) is None,
        },
{
    serde_json::from_str(content)
}

/// `serde_json::Value::get` with a key: the member under the key, where the
/// value is an object that has the key. The member holds what the value
/// holds below the key; a value without such a member holds nothing below
/// the key.
#[verifier::external_body]
fn json_entry<'a>(value: &'a serde_json::Value, key: &str) -> (r: Option<&'a serde_json::Value>)
    ensures
        match r {
            Some(entry) => json_strings(*entry) == below(json_strings(*value), key@),
            None => below(json_strings(*value), key@) == Map::<Seq<Seq<char>>, Seq<char>>::empty(),
        },
{
    value.get(key)
}

/// `serde_json::Value::as_str`: the text of the value, where the value is a
/// string. That text is what the value holds under the empty path.
#[verifier::external_body]
fn json_text<'a>(value: &'a serde_json::Value) -> (r: Option<&'a str>)
    ensures
        match r {
            Some(text) => held_at(json_strings(*value), Seq::empty()) == Some(text@),
            None => held_at(json_strings(*value), Seq::empty()) is None,
        },
{
    value.as_str()
}

/// The texts that were loaded, by locale, and the locale in use.
#[derive(Debug)]
pub struct Locales {
    pub current: String,
    pub cache: Vec<(String, serde_json::Value)>,
}

/// The strings that are loaded for `locale` among the first `n` entries:
/// the last entry for the locale counts.
pub open spec fn loaded_among(cache: Seq<(String, serde_json::Value)>, locale: Seq<char>, n: int) -> Option<
    Map<Seq<Seq<char>>, Seq<char>>,
>
    decreases n,
{
    if n <= 0 || n > cache.len() {
        None
    } else if cache[n - 1].0@ == locale {
        Some(json_strings(cache[n - 1].1))
    } else {
        loaded_among(cache, locale, n - 1)
    }
}

/// The strings that are loaded for `locale`.
pub open spec fn loaded(cache: Seq<(String, serde_json::Value)>, locale: Seq<char>) -> Option<
    Map<Seq<Seq<char>>, Seq<char>>,
> {
    loaded_among(cache, locale, cache.len() as int)
}

/// The text for `key` among the strings of a locale: the string under the
/// path of the names that the key joins by dots.
pub open spec fn text_for(strings: Option<Map<Seq<Seq<char>>, Seq<char>>>, key: Seq<char>) -> Option<
    Seq<char>,
> {
    match strings {
        Some(held) => held_at(held, split(key, '.')),
        None => None,
    }
}

/// The text for `key`: that of the locale `current` where it has one, else
/// that of English, else the key itself.
pub open spec fn translated(
    current: Seq<char>,
    cache: Seq<(String, serde_json::Value)>,
    key: Seq<char>,
) -> Seq<char> {
    match text_for(loaded(cache, current), key) {
        Some(text) => text,
        None => if current != "en"@ {
            match text_for(loaded(cache, "en"@), key) {
                Some(text) => text,
                None => key,
            }
        } else {
            key
        },
    }
}

/// The texts of English that are there from the start.
pub open spec fn default_texts() -> Seq<char> {
    "{\"cli\": {\"welcome\": \"Welcome to Snakepit\", \"installing\": \"Installing package...\", \"success\": \"Success!\", \"error\": \"Error occurred\"}, \"installer\": {\"downloading\": \"Downloading...\", \"verifying\": \"Verifying integrity...\", \"extracting\": \"Extracting files...\"}}"@
}

/// The text under the path of the names that `key` joins by dots, where
/// the value holds a string there.
pub fn get_nested(value: &serde_json::Value, key: &str) -> (r: Option<String>)
    ensures
        text_of(r) == held_at(json_strings(*value), split(key@, '.')),
{
    let parts = split_chars(&chars_of(key), '.');
    let ghost names = rows(parts@);
    let ghost held = json_strings(*value);
    let mut current: &serde_json::Value = value;
    let mut i: usize = 0;
    assert(names.take(0) =~= Seq::<Seq<char>>::empty());
    assert forall|path: Seq<Seq<char>>|
        held_at(json_strings(*current), path) == held_at(held, #[trigger] (names.take(0) + path)) by {
        assert(names.take(0) + path =~= path);
    }
    while i < parts.len()
        invariant
            i <= parts.len(),
            names == rows(parts@),
            names == split(key@, '.'),
            held == json_strings(*value),
            forall|path: Seq<Seq<char>>|
                held_at(json_strings(*current), path) == held_at(
                    held,
                    #[trigger] (names.take(i as int) + path),
                ),
        decreases parts.len() - i,
    {
        let name = string_of(&parts[i]);
        let ghost before = json_strings(*current);
        let ghost prefix = names.take(i as int);
        assert(names[i as int] == name@);
        match json_entry(current, name.as_str()) {
            Some(next) => {
                proof {
                    assert forall|path: Seq<Seq<char>>|
                        held_at(json_strings(*next), path) == held_at(
                            held,
                            #[trigger] (names.take(i + 1) + path),
                        ) by {
                        lemma_below(before, name@, path);
                        assert(held_at(before, seq![name@] + path) == held_at(
                            held,
                            prefix + (seq![name@] + path),
                        ));
                        assert(names.take(i + 1) + path =~= prefix + (seq![name@] + path));
                    }
                }
                current = next;
            },
            None => {
                proof {
                    let rest = names.skip(i + 1);
                    lemma_below(before, name@, rest);
                    assert(held_at(before, seq![name@] + rest) == held_at(
                        held,
                        prefix + (seq![name@] + rest),
                    ));
                    assert(prefix + (seq![name@] + rest) =~= names);
                }
                return None;
            },
        }
        i += 1;
    }
    proof {
        assert(names.take(i as int) + Seq::<Seq<char>>::empty() =~= names);
    }
    match json_text(current) {
        Some(text) => Some(owned(text)),
        None => None,
    }
}

impl Locales {
    /// No texts, with English as the locale in use.
    pub fn new() -> (r: Locales)
        ensures
            r.current@ == "en"@,
            r.cache@.len() == 0,
    {
        Locales { current: owned("en"), cache: Vec::new() }
    }

    /// Takes `locale` as the locale in use.
    pub fn set_locale(&mut self, locale: &str)
        ensures
            final(self).current@ == locale@,
            final(self).cache == old(self).cache,
    {
        self.current = owned(locale);
    }

    /// The locale in use.
    pub fn get_locale(&self) -> (r: String)
        ensures
            r@ == self.current@,
    {
        owned(self.current.as_str())
    }

    /// Loads the texts of `locale` from a JSON document, in place of those
    /// loaded for it before. A text that is no JSON document changes
    /// nothing.
    pub fn load_locale(&mut self, locale: &str, json_content: &str)
        ensures
            final(self).current == old(self).current,
            match json_read(json_content@) {
                Some(strings) => {
                    &&& final(self).cache@.len() == old(self).cache@.len() + 1
                    &&& final(self).cache@.drop_last() == old(self).cache@
                    &&& final(self).cache@.last().0@ == locale@
                    &&& json_strings(final(self).cache@.last().1) == strings
                },
                None => final(self).cache == old(self).cache,
            },
    {
        match read_json(json_content) {
            Ok(document) => {
                let ghost before = self.cache@;
                self.cache.push((owned(locale), document));
                assert(self.cache@.drop_last() =~= before);
            },
            Err(_) => {},
        }
    }

    /// Loads the texts of English that are there from the start.
    pub fn init_defaults(&mut self)
        ensures
            final(self).current == old(self).current,
            match json_read(default_texts()) {
                Some(strings) => {
                    &&& final(self).cache@.len() == old(self).cache@.len() + 1
                    &&& final(self).cache@.drop_last() == old(self).cache@
                    &&& final(self).cache@.last().0@ == "en"@
                    &&& json_strings(final(self).cache@.last().1) == strings
                },
                None => final(self).cache == old(self).cache,
            },
    {
        self.load_locale(
            "en",
            "{\"cli\": {\"welcome\": \"Welcome to Snakepit\", \"installing\": \"Installing package...\", \"success\": \"Success!\", \"error\": \"Error occurred\"}, \"installer\": {\"downloading\": \"Downloading...\", \"verifying\": \"Verifying integrity...\", \"extracting\": \"Extracting files...\"}}",
        );
    }

    /// The document that is loaded for `locale`.
    fn document_of(&self, locale: &str) -> (r: Option<&serde_json::Value>)
        ensures
            match r {
                Some(document) => loaded(self.cache@, locale@) == Some(json_strings(*document)),
                None => loaded(self.cache@, locale@) is None,
            },
    {
        let mut i: usize = self.cache.len();
        while i > 0
            invariant
                i <= self.cache.len(),
                loaded_among(self.cache@, locale@, i as int) == loaded(self.cache@, locale@),
            decreases i,
        {
            if same_text(self.cache[i - 1].0.as_str(), locale) {
                return Some(&self.cache[i - 1].1);
            }
            i -= 1;
        }
        None
    }

    /// The text for `key` in the locale `locale`, where texts are loaded
    /// for it and hold one for the key.
    fn text_in(&self, locale: &str, key: &str) -> (r: Option<String>)
        ensures
            text_of(r) == text_for(loaded(self.cache@, locale@), key@),
    {
        match self.document_of(locale) {
            Some(document) => get_nested(document, key),
            None => None,
        }
    }

    /// The text for `key`: that of the locale in use where it has one, else
    /// that of English, else the key itself.
    pub fn t(&self, key: &str) -> (r: String)
        ensures
            r@ == translated(self.current@, self.cache@, key@),
    {
        match self.text_in(self.current.as_str(), key) {
            Some(text) => {
                return text;
            },
            None => {},
        }
        if !same_text(self.current.as_str(), "en") {
            match self.text_in("en", key) {
                Some(text) => {
                    return text;
                },
                None => {},
            }
        }
        owned(key)
    }
}

} // verus!
