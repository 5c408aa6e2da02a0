//! Which of the editor's own files answers a request for a page.

use vstd::prelude::*;
use vstd::string::StrSliceExecFns;
use crate::strings::{str_eq, to_chars};

verus! {

/// What answers a request for a page.
#[derive(Debug, Clone, Copy, PartialEq, Eq, Structural)]
pub enum StaticRoute {
    /// The editor's front page.
    Index,
    /// The file that was asked for.
    Asset,
    /// Nothing: the file is not there.
    NotFound,
}

/// The index of the first character from `at` on that is not a slash.
pub open spec fn skip_slashes(s: Seq<char>, at: int) -> int
    decreases s.len() - at,
{
    if 0 <= at < s.len() && s[at] == '/' {
        skip_slashes(s, at + 1)
    } else {
        at
    }
}

/// The name of the file that a request path asks for: the path without the
/// slashes it begins with.
pub open spec fn asset_name(uri_path: Seq<char>) -> Seq<char> {
    uri_path.subrange(skip_slashes(uri_path, 0), uri_path.len() as int)
}

/// What answers a request for the file `name`, given whether the editor
/// has such a file: the front page for no name and for `index.html`; the
/// file where there is one; where there is none, nothing for a name with a
/// dot in it, and the front page for any other.
pub open spec fn route_of(name: Seq<char>, found: bool) -> StaticRoute {
    if name.len() == 0 || name == "index.html"@ {
        StaticRoute::Index
    } else if found {
        StaticRoute::Asset
    } else if name.contains('.') {
        StaticRoute::NotFound
    } else {
        StaticRoute::Index
    }
}

/// The name of the file that a request path asks for.
pub fn asset_path(uri_path: &str) -> (name: String)
    ensures
        name@ == asset_name(uri_path@),
{
    let chars = to_chars(uri_path);
    let mut at: usize = 0;
    while at < chars.len() && chars[at] == '/'
        invariant
            chars@ == uri_path@,
            0 <= at <= chars@.len(),
            skip_slashes(chars@, 0) == skip_slashes(chars@, at as int),
        decreases chars@.len() - at,
    {
        at += 1;
    }
    uri_path.substring_char(at, chars.len()).to_string()
}

/// What answers a request for the file `name`, given whether the editor
/// has such a file.
pub fn static_route(name: &str, found: bool) -> (route: StaticRoute)
    ensures
        route == route_of(name@, found),
{
    let chars = to_chars(name);
    if chars.len() == 0 || str_eq(name, "index.html") {
        return StaticRoute::Index;
    }
    if found {
        return StaticRoute::Asset;
    }
    let mut i: usize = 0;
    while i < chars.len()
        invariant
            chars@ == name@,
            name@.len() != 0,
            name@ != "index.html"@,
            !found,
            0 <= i <= chars@.len(),
            forall|j: int| 0 <= j < i ==> chars@[j] != '.',
        decreases chars@.len() - i,
    {
        if chars[i] == '.' {
            return StaticRoute::NotFound;
        }
        i += 1;
    }
    StaticRoute::Index
}

} // verus!
