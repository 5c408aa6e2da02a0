//! The language of a file: what its name says, else what the configuration
//! says of its ending, else plain text.

use vstd::prelude::*;
use crate::config::{Config, Language};
use crate::strings::{chars_end_with, ends_with, to_chars};

verus! {

/// The identifier of the language that `detect_lang::from_path` finds for a
/// path, as the target platform reads paths; `None` where it finds none.
pub uninterp spec fn detected_language_id(path: Seq<char>) -> Option<Seq<char>>;

/// What `str::to_lowercase` makes of a string.
pub uninterp spec fn lowercase(s: Seq<char>) -> Seq<char>;

/// `detect_lang::from_path`, and of the language found its identifier.
#[verifier::external_body]
fn detect_language_id(path: &str) -> (id: Option<String>)
    ensures
        id is Some <==> detected_language_id(path@) is Some,
        id matches Some(found) ==> detected_language_id(path@) == Some(found@),
{
    match detect_lang::from_path(path) {
        Some(language) => Some(language.id().to_string()),
        None => None,
    }
}

/// `str::to_lowercase`.
#[verifier::external_body]
fn to_lowercase(s: &str) -> (lower: String)
    ensures
        lower@ == lowercase(s@),
{
    s.to_lowercase()
}

/// The language claims the path: the path ends with one of its file types.
pub open spec fn handles(language: Language, path: Seq<char>) -> bool {
    exists|i: int| 0 <= i < language.types@.len() && ends_with(path, #[trigger] language.types@[i]@)
}

/// The name of the first language that claims the path; `text` where none
/// does.
pub open spec fn configured_language(path: Seq<char>, languages: Seq<Language>) -> Seq<char>
    decreases languages.len(),
{
    if languages.len() == 0 {
        "text"@
    } else if handles(languages[0], path) {
        languages[0].name@
    } else {
        configured_language(path, languages.drop_first())
    }
}

/// The language of a path: the detected identifier in lower case, else the
/// configured language.
pub open spec fn language_of(path: Seq<char>, languages: Seq<Language>) -> Seq<char> {
    match detected_language_id(path) {
        Some(id) => lowercase(id),
        None => configured_language(path, languages),
    }
}

/// Whether the language claims the path.
pub fn language_handles(language: &Language, path: &Vec<char>) -> (r: bool)
    ensures
        r == handles(*language, path@),
{
    let mut i: usize = 0;
    while i < language.types.len()
        invariant
            0 <= i <= language.types@.len(),
            forall|j: int| 0 <= j < i ==> !ends_with(path@, #[trigger] language.types@[j]@),
        decreases language.types@.len() - i,
    {
        let ending = to_chars(language.types[i].as_str());
        if chars_end_with(path, &ending) {
            return true;
        }
        i += 1;
    }
    false
}

/// The name of the first configured language that claims the path; `text`
/// where none does.
pub fn configured_language_for(path: &str, conf: &Config) -> (name: String)
    ensures
        name@ == configured_language(path@, conf.language@),
{
    let chars = to_chars(path);
    let mut i: usize = 0;
    proof {
        assert(conf.language@.skip(0) =~= conf.language@);
    }
    while i < conf.language.len()
        invariant
            chars@ == path@,
            0 <= i <= conf.language@.len(),
            configured_language(path@, conf.language@) == configured_language(
                path@,
                conf.language@.skip(i as int),
            ),
        decreases conf.language@.len() - i,
    {
        let ghost rest = conf.language@.skip(i as int);
        proof {
            assert(rest[0] == conf.language@[i as int]);
            assert(rest.drop_first() =~= conf.language@.skip(i + 1));
        }
        if language_handles(&conf.language[i], &chars) {
            return conf.language[i].name.clone();
        }
        i += 1;
    }
    proof {
        assert(conf.language@.skip(i as int).len() == 0);
    }
    "text".to_string()
}

/// The language of a path, given what was detected for it: the detected
/// identifier, else the configured language.
pub fn pick_language(detected: Option<String>, path: &str, conf: &Config) -> (name: String)
    ensures
        name@ == match detected {
            Some(id) => id@,
            None => configured_language(path@, conf.language@),
        },
{
    match detected {
        Some(id) => id,
        None => configured_language_for(path, conf),
    }
}

/// The language of a path: the detected identifier in lower case, else the
/// configured language.
pub fn language_for(path: &str, conf: &Config) -> (name: String)
    ensures
        name@ == language_of(path@, conf.language@),
{
    let detected = match detect_language_id(path) {
        Some(id) => Some(to_lowercase(id.as_str())),
        None => None,
    };
    pick_language(detected, path, conf)
}

} // verus!
