//! Paths, ignore lists and colours.

use vstd::prelude::*;
use vstd::string::StrSliceExecFns;
use crate::strings::{chars_end_with, ends_with, str_eq, to_chars};

verus! {

/// The directory names that listings and searches pass over.
pub const DEFAULT_IGNORE_DIRS: [&'static str; 112] = [
    ".git", ".idea", ".vscode", ".vim", ".netrwhist", ".vs", "node_modules", "dist", "target",
    "build", "out", "bin", "obj", "__pycache__", ".pytest_cache", ".mypy_cache", ".tox",
    ".coverage", ".venv", "venv", "env", ".next", ".nuxt", ".output", "coverage", ".nyc_output",
    ".gradle", ".m2", "classes", "packages", ".bundle", "vendor", "vendor", ".DS_Store",
    "Thumbs.db", "desktop.ini", "tmp", "temp", ".tmp", ".cache", "cache", "logs", "log",
    "docs/_build", "site", "_site", ".terraform", ".terragrunt-cache", ".pulumi", ".vagrant",
    ".docker", ".kube", ".minikube", ".helm", ".serverless", ".github", ".gitlab-ci",
    ".circleci", ".buildkite", ".jenkins", ".azure-pipelines", ".expo", ".expo-shared",
    "ios/build", "android/build", "android/.gradle", "ios/Pods", "ios/DerivedData",
    ".flutter-plugins", ".flutter-plugins-dependencies", "Library", "Temp", "Logs",
    "MemoryCaptures", "Builds", "UserSettings", ".stack-work", ".cabal-sandbox", "_build",
    ".merlin", ".eunit", ".rebar", ".rebar3", ".mix", "deps", ".dart_tool", ".pio",
    ".platformio", ".ipynb_checkpoints", ".spyderproject", ".spyproject", ".RData", ".Rhistory",
    ".Rproj.user", "data", "db", ".svelte-kit", ".routify", ".sapper", ".astro", ".solid",
    ".qwik", ".bzr", ".hg", ".svn", "CVS", "SCCS", ".eslintcache", ".stylelintcache", ".backup",
    "backup", "backups",
];

/// The file names that listings and searches pass over. A name that begins
/// with `*` stands for every file name that ends with the rest of it.
pub const DEFAULT_IGNORE_FILES: [&'static str; 85] = [
    ".DS_Store", "Thumbs.db", "desktop.ini", ".env", ".env.local", ".env.development",
    ".env.production", ".envrc", ".direnv", "package-lock.json", "yarn.lock", "pnpm-lock.yaml",
    "Cargo.lock", "Pipfile.lock", "poetry.lock", "composer.lock", "Gemfile.lock", ".gitignore",
    ".gitattributes", ".gitmodules", ".vimrc", ".editorconfig", ".clang-format", "Makefile",
    "CMakeLists.txt", "meson.build", "requirements.txt", "setup.py", "pyproject.toml",
    "package.json", "tsconfig.json", "webpack.config.js", "Dockerfile", "docker-compose.yml",
    "docker-compose.yaml", ".travis.yml", ".gitlab-ci.yml", "appveyor.yml",
    "azure-pipelines.yml", "buildspec.yml", "*.tmp", "*.swp", "*.swo", "*.bak", "*.orig", "*~",
    "*.log", "*.db", "*.sqlite", "*.sqlite3", "*.pem", "*.key", "*.crt", "*.p12", "*.png",
    "*.jpg", "*.jpeg", "*.gif", "*.bmp", "*.tiff", "*.webp", "*.svg", "*.ico", "*.mp4", "*.mov",
    "*.avi", "*.mkv", "*.webm", "*.flv", "*.wmv", "*mp3", "*.wav", "*.ogg", "*.aac", "*.flac",
    "*.m4a", "*.opus", "*.wma", "*.zip", "*.tar", "*.gz", "*.bz2", "*.xz", "*.7z", "coder.rs",
];

/// One entry of a directory as it was read: its path and whether it is a
/// directory.
#[derive(Debug, Clone)]
pub struct DirEntry {
    pub path: String,
    pub is_dir: bool,
}

/// The final component of a path as `Path::file_name` gives it, read as the
/// target platform reads paths; `None` where the path has none.
pub uninterp spec fn path_file_name(path: Seq<char>) -> Option<Seq<char>>;

/// The components of a path as `Path::iter` gives them, read as the target
/// platform reads paths.
pub uninterp spec fn path_parts(path: Seq<char>) -> Seq<Seq<char>>;

/// What `pathdiff::diff_paths` makes of a path and a base, read as the
/// target platform reads paths: the path that leads from the base to the
/// path, where it finds one.
pub uninterp spec fn path_from_base(path: Seq<char>, base: Seq<char>) -> Option<Seq<char>>;

/// What `Path::strip_prefix` leaves of a path, read as the target platform
/// reads paths; `None` where the base is no prefix of the path.
pub uninterp spec fn path_below(path: Seq<char>, base: Seq<char>) -> Option<Seq<char>>;

/// `Path::file_name`, the component found made a string.
#[verifier::external_body]
fn final_component(input: &str) -> (name: Option<String>)
    ensures
        name is Some <==> path_file_name(input@) is Some,
        name matches Some(found) ==> path_file_name(input@) == Some(found@),
{
    match std::path::Path::new(input).file_name() {
        Some(name) => Some(name.to_string_lossy().into_owned()),
        None => None,
    }
}

/// `Path::iter`, each component made a string.
#[verifier::external_body]
fn components(path: &str) -> (parts: Vec<String>)
    ensures
        string_views(parts@) == path_parts(path@),
{
    let mut parts: Vec<String> = Vec::new();
    for part in std::path::Path::new(path).iter() {
        parts.push(part.to_string_lossy().into_owned());
    }
    parts
}

/// `pathdiff::diff_paths`, the path found made a string.
#[verifier::external_body]
fn diff_paths(path: &str, base: &str) -> (relative: Option<String>)
    ensures
        relative is Some <==> path_from_base(path@, base@) is Some,
        relative matches Some(found) ==> path_from_base(path@, base@) == Some(found@),
{
    match pathdiff::diff_paths(path, base) {
        Some(relative) => Some(relative.to_string_lossy().into_owned()),
        None => None,
    }
}

/// `Path::strip_prefix`, what is left made a string.
#[verifier::external_body]
fn strip_prefix(path: &str, base: &str) -> (below: Option<String>)
    ensures
        below is Some <==> path_below(path@, base@) is Some,
        below matches Some(found) ==> path_below(path@, base@) == Some(found@),
{
    match std::path::Path::new(path).strip_prefix(base) {
        Ok(below) => Some(below.to_string_lossy().into_owned()),
        Err(_) => None,
    }
}

/// The strings of a list as the contracts see them.
pub open spec fn string_views(list: Seq<String>) -> Seq<Seq<char>> {
    list.map_values(|s: String| s@)
}

/// The string literals of a list as the contracts see them.
pub open spec fn literal_views(list: Seq<&'static str>) -> Seq<Seq<char>> {
    list.map_values(|s: &'static str| s@)
}

/// The characters with the Unicode property White_Space.
pub open spec fn is_whitespace(c: char) -> bool {
    let u = c as u32;
    ||| 0x09 <= u <= 0x0D
    ||| u == 0x20
    ||| u == 0x85
    ||| u == 0xA0
    ||| u == 0x1680
    ||| 0x2000 <= u <= 0x200A
    ||| u == 0x2028
    ||| u == 0x2029
    ||| u == 0x202F
    ||| u == 0x205F
    ||| u == 0x3000
}

/// The index of the first comma at or after `from`, or the length of the
/// text where there is none.
pub open spec fn field_end(s: Seq<char>, from: int) -> int
    decreases s.len() - from,
{
    if from >= s.len() || s[from] == ',' {
        from
    } else {
        field_end(s, from + 1)
    }
}

/// The index of the first character from `from` on, before `end`, that is
/// not white space; `end` where there is none.
pub open spec fn skip_whitespace(s: Seq<char>, from: int, end: int) -> int
    decreases end - from,
{
    if from < end && is_whitespace(s[from]) {
        skip_whitespace(s, from + 1, end)
    } else {
        from
    }
}

/// The index just past the last character before `end`, from `from` on,
/// that is not white space; `from` where there is none.
pub open spec fn drop_whitespace(s: Seq<char>, from: int, end: int) -> int
    decreases end - from,
{
    if from < end && is_whitespace(s[end - 1]) {
        drop_whitespace(s, from, end - 1)
    } else {
        end
    }
}

/// A field ends at or after its start.
pub proof fn lemma_field_end(s: Seq<char>, from: int)
    requires
        0 <= from <= s.len(),
    ensures
        from <= field_end(s, from) <= s.len(),
        field_end(s, from) < s.len() ==> s[field_end(s, from)] == ',',
        forall|j: int| from <= j < field_end(s, from) ==> s[j] != ',',
    decreases s.len() - from,
{
    if from >= s.len() || s[from] == ',' {
    } else {
        lemma_field_end(s, from + 1);
    }
}

/// The entries of a list written with commas, from index `from` on: the
/// fields between the commas, each without the white space around it, the
/// empty ones left out.
pub open spec fn extra_entries(s: Seq<char>, from: int) -> Seq<Seq<char>>
    decreases s.len() - from + 1,
{
    if from < 0 || from > s.len() {
        Seq::empty()
    } else {
        let end = field_end(s, from);
        let first = skip_whitespace(s, from, end);
        let last = drop_whitespace(s, first, end);
        let rest = {
            proof {
                lemma_field_end(s, from);
            }
            extra_entries(s, end + 1)
        };
        if first < last {
            seq![s.subrange(first, last)] + rest
        } else {
            rest
        }
    }
}

/// The entries that a caller adds to a default list; none where it adds no
/// list.
pub open spec fn extras(extra: Option<Seq<char>>) -> Seq<Seq<char>> {
    match extra {
        Some(list) => extra_entries(list, 0),
        None => Seq::empty(),
    }
}

/// The directory names passed over: the defaults, then the caller's.
pub open spec fn ignore_dirs(extra: Option<Seq<char>>) -> Seq<Seq<char>> {
    literal_views(DEFAULT_IGNORE_DIRS@) + extras(extra)
}

/// The file names passed over: the defaults, then the caller's.
pub open spec fn ignore_files(extra: Option<Seq<char>>) -> Seq<Seq<char>> {
    literal_views(DEFAULT_IGNORE_FILES@) + extras(extra)
}

/// A pattern of an ignore list covers a file name: a pattern of more than
/// one character that begins with `*` covers the names that end with the
/// rest of it, any other pattern covers itself.
pub open spec fn covers(pattern: Seq<char>, name: Seq<char>) -> bool {
    if pattern.len() > 1 && pattern[0] == '*' {
        ends_with(name, pattern.subrange(1, pattern.len() as int))
    } else {
        name == pattern
    }
}

/// Some pattern of the list covers the file name.
pub open spec fn covered(patterns: Seq<Seq<char>>, name: Seq<char>) -> bool {
    exists|i: int| 0 <= i < patterns.len() && covers(#[trigger] patterns[i], name)
}

/// Some component of the path is a name of the list.
pub open spec fn has_part_in(parts: Seq<Seq<char>>, names: Seq<Seq<char>>) -> bool {
    exists|i: int, j: int|
        0 <= i < parts.len() && 0 <= j < names.len() && #[trigger] parts[i] == #[trigger] names[j]
}

/// A path is passed over: one of its components is an ignored directory
/// name, or its final component is an ignored file name.
pub open spec fn ignored_path(
    path: Seq<char>,
    extra_dirs: Option<Seq<char>>,
    extra_files: Option<Seq<char>>,
) -> bool {
    ||| has_part_in(path_parts(path), ignore_dirs(extra_dirs))
    ||| path_file_name(path) matches Some(name) && covered(ignore_files(extra_files), name)
}

/// Whether the character has the Unicode property White_Space.
pub fn is_whitespace_char(c: char) -> (r: bool)
    ensures
        r == is_whitespace(c),
{
    let u = c as u32;
    (0x09 <= u && u <= 0x0D) || u == 0x20 || u == 0x85 || u == 0xA0 || u == 0x1680 || (0x2000 <= u
        && u <= 0x200A) || u == 0x2028 || u == 0x2029 || u == 0x202F || u == 0x205F || u == 0x3000
}

/// The entries of a list written with commas: the fields between the
/// commas, each without the white space around it, the empty ones left out.
pub fn parse_extra(extra: &str) -> (entries: Vec<String>)
    ensures
        string_views(entries@) == extra_entries(extra@, 0),
{
    let chars = to_chars(extra);
    let n = chars.len();
    let ghost s = extra@;
    let mut entries: Vec<String> = Vec::new();
    let mut from: usize = 0;
    proof {
        assert(string_views(entries@) =~= Seq::empty());
    }
    loop
        invariant_except_break
            extra_entries(s, 0) == string_views(entries@) + extra_entries(s, from as int),
        invariant
            chars@ == s,
            s == extra@,
            n == s.len(),
            0 <= from <= n,
        ensures
            extra_entries(s, 0) == string_views(entries@),
        decreases n - from,
    {
        let mut end = from;
        while end < n && chars[end] != ','
            invariant
                chars@ == s,
                n == s.len(),
                from <= end <= n,
                field_end(s, from as int) == field_end(s, end as int),
            decreases n - end,
        {
            end += 1;
        }
        let mut first = from;
        while first < end && is_whitespace_char(chars[first])
            invariant
                chars@ == s,
                from <= first <= end <= n,
                n == s.len(),
                skip_whitespace(s, from as int, end as int) == skip_whitespace(
                    s,
                    first as int,
                    end as int,
                ),
            decreases end - first,
        {
            first += 1;
        }
        let mut last = end;
        while first < last && is_whitespace_char(chars[last - 1])
            invariant
                chars@ == s,
                first <= last <= end <= n,
                n == s.len(),
                drop_whitespace(s, first as int, end as int) == drop_whitespace(
                    s,
                    first as int,
                    last as int,
                ),
            decreases last - first,
        {
            last -= 1;
        }
        let ghost listed = string_views(entries@);
        let ghost rest = extra_entries(s, end + 1);
        if first < last {
            let entry = extra.substring_char(first, last).to_string();
            entries.push(entry);
            proof {
                let entry = s.subrange(first as int, last as int);
                assert(string_views(entries@) =~= listed.push(entry));
                assert(listed + (seq![entry] + rest) =~= string_views(entries@) + rest);
            }
        }
        if end == n {
            proof {
                assert(rest =~= Seq::empty());
                assert(string_views(entries@) + rest =~= string_views(entries@));
            }
            break ;
        }
        from = end + 1;
    }
    entries
}

/// The default list with the caller's entries after it.
fn with_extras(defaults: &[&'static str], extra: Option<&str>) -> (list: Vec<String>)
    ensures
        string_views(list@) == literal_views(defaults@) + extras(
            match extra {
                Some(e) => Some(e@),
                None => None,
            },
        ),
{
    let mut list: Vec<String> = Vec::new();
    let mut i: usize = 0;
    while i < defaults.len()
        invariant
            0 <= i <= defaults@.len(),
            string_views(list@) =~= literal_views(defaults@).subrange(0, i as int),
        decreases defaults@.len() - i,
    {
        let ghost copied = string_views(list@);
        list.push(defaults[i].to_string());
        proof {
            assert(string_views(list@) =~= copied.push(defaults@[i as int]@));
        }
        i += 1;
    }
    let ghost copied = string_views(list@);
    proof {
        assert(copied =~= literal_views(defaults@));
    }
    match extra {
        Some(e) => {
            let mut more = parse_extra(e);
            let ghost added = string_views(more@);
            list.append(&mut more);
            proof {
                assert(string_views(list@) =~= copied + added);
            }
        },
        None => {
            proof {
                assert(string_views(list@) =~= copied + Seq::<Seq<char>>::empty());
            }
        },
    }
    list
}

/// The view of an optional string.
pub open spec fn option_view(extra: Option<&str>) -> Option<Seq<char>> {
    match extra {
        Some(e) => Some(e@),
        None => None,
    }
}

/// The directory names that listings and searches pass over: the defaults,
/// then the entries of `extra`, a list written with commas.
pub fn get_ignore_dirs(extra: Option<&str>) -> (dirs: Vec<String>)
    ensures
        string_views(dirs@) == ignore_dirs(option_view(extra)),
{
    with_extras(DEFAULT_IGNORE_DIRS.as_slice(), extra)
}

/// The file names that listings and searches pass over: the defaults, then
/// the entries of `extra`, a list written with commas.
pub fn get_ignore_files(extra: Option<&str>) -> (files: Vec<String>)
    ensures
        string_views(files@) == ignore_files(option_view(extra)),
{
    with_extras(DEFAULT_IGNORE_FILES.as_slice(), extra)
}

/// Whether `name` is one of `names`.
fn is_listed(names: &Vec<String>, name: &str) -> (r: bool)
    ensures
        r == exists|j: int| 0 <= j < names@.len() && name@ == #[trigger] string_views(names@)[j],
{
    let mut j: usize = 0;
    while j < names.len()
        invariant
            0 <= j <= names@.len(),
            forall|k: int| 0 <= k < j ==> name@ != #[trigger] string_views(names@)[k],
        decreases names@.len() - j,
    {
        if str_eq(names[j].as_str(), name) {
            assert(string_views(names@)[j as int] == name@);
            return true;
        }
        j += 1;
    }
    false
}

/// Whether one of `parts` is one of `names`.
pub fn any_listed(parts: &Vec<String>, names: &Vec<String>) -> (r: bool)
    ensures
        r == has_part_in(string_views(parts@), string_views(names@)),
{
    let ghost part_views = string_views(parts@);
    let ghost name_views = string_views(names@);
    let mut i: usize = 0;
    while i < parts.len()
        invariant
            part_views == string_views(parts@),
            name_views == string_views(names@),
            0 <= i <= parts@.len(),
            forall|k: int, j: int|
                0 <= k < i && 0 <= j < name_views.len() ==> #[trigger] part_views[k]
                    != #[trigger] name_views[j],
        decreases parts@.len() - i,
    {
        if is_listed(names, parts[i].as_str()) {
            proof {
                let j = choose|j: int|
                    0 <= j < names@.len() && parts@[i as int]@ == #[trigger] name_views[j];
                assert(part_views[i as int] == name_views[j]);
            }
            return true;
        }
        i += 1;
    }
    false
}

/// Whether a component of the path is an ignored directory name. `extra`
/// adds names to the defaults.
pub fn is_ignored_dir(path: &str, extra: Option<&str>) -> (r: bool)
    ensures
        r == has_part_in(path_parts(path@), ignore_dirs(option_view(extra))),
{
    let names = get_ignore_dirs(extra);
    let parts = components(path);
    any_listed(&parts, &names)
}

/// Whether a pattern of an ignore list covers a file name.
pub fn pattern_covers(pattern: &str, name: &Vec<char>) -> (r: bool)
    ensures
        r == covers(pattern@, name@),
{
    let chars = to_chars(pattern);
    if chars.len() > 1 && chars[0] == '*' {
        let mut ending: Vec<char> = Vec::new();
        let mut i: usize = 1;
        while i < chars.len()
            invariant
                1 <= i <= chars@.len(),
                ending@ =~= chars@.subrange(1, i as int),
            decreases chars@.len() - i,
        {
            ending.push(chars[i]);
            i += 1;
        }
        chars_end_with(name, &ending)
    } else {
        let r = chars.len() == name.len() && chars_end_with(name, &chars);
        proof {
            if chars@.len() == name@.len() {
                assert(name@.subrange(0, name@.len() as int) =~= name@);
            }
        }
        r
    }
}

/// Whether the file name is an ignored one. `extra` adds patterns to the
/// defaults.
pub fn is_ignored_file(file_name: &str, extra: Option<&str>) -> (r: bool)
    ensures
        r == covered(ignore_files(option_view(extra)), file_name@),
{
    let patterns = get_ignore_files(extra);
    let name = to_chars(file_name);
    let ghost views = string_views(patterns@);
    let mut i: usize = 0;
    while i < patterns.len()
        invariant
            name@ == file_name@,
            views == string_views(patterns@),
            views == ignore_files(option_view(extra)),
            0 <= i <= patterns@.len(),
            forall|k: int| 0 <= k < i ==> !covers(#[trigger] views[k], file_name@),
        decreases patterns@.len() - i,
    {
        if pattern_covers(patterns[i].as_str(), &name) {
            proof {
                assert(covers(views[i as int], file_name@));
            }
            return true;
        }
        i += 1;
    }
    false
}

/// Whether the path is passed over: a component of it is an ignored
/// directory name, or its final component is an ignored file name.
pub fn is_ignored_path(path: &str, extra_dirs: Option<&str>, extra_files: Option<&str>) -> (r: bool)
    ensures
        r == ignored_path(path@, option_view(extra_dirs), option_view(extra_files)),
{
    if is_ignored_dir(path, extra_dirs) {
        return true;
    }
    match final_component(path) {
        Some(name) => is_ignored_file(name.as_str(), extra_files),
        None => false,
    }
}

/// The final component of a path, where it has one.
pub fn checked_file_name(input: &str) -> (name: Option<String>)
    ensures
        name is Some <==> path_file_name(input@) is Some,
        name matches Some(found) ==> path_file_name(input@) == Some(found@),
{
    match final_component(input) {
        Some(_) => Some(get_file_name(input)),
        None => None,
    }
}

/// The final component of a path that has one.
pub fn file_name(input: &str) -> (name: String)
    requires
        path_file_name(input@) is Some,
    ensures
        path_file_name(input@) == Some(name@),
{
    match final_component(input) {
        Some(name) => name,
        None => String::new(),
    }
}

/// The final component of a path that has one.
pub fn get_file_name(input: &str) -> (name: String)
    requires
        path_file_name(input@) is Some,
    ensures
        path_file_name(input@) == Some(name@),
{
    file_name(input)
}

/// The path relative to a base, given what the difference of the two was
/// found to be: that difference, else the path itself.
pub fn relative_or_same(input: &str, difference: Option<String>) -> (relative: String)
    ensures
        relative@ == match difference {
            Some(found) => found@,
            None => input@,
        },
{
    match difference {
        Some(found) => found,
        None => input.to_string(),
    }
}

/// The path that leads to `input` from the current directory; `input`
/// itself where there is no current directory or no such path.
pub fn relative_path(input: &str, current_dir: Option<&str>) -> (relative: String)
    ensures
        relative@ == match current_dir {
            Some(base) => match path_from_base(input@, base@) {
                Some(found) => found,
                None => input@,
            },
            None => input@,
        },
{
    match current_dir {
        Some(base) => relative_or_same(input, diff_paths(input, base)),
        None => input.to_string(),
    }
}

/// What is left of `path` below the current directory; `None` where there
/// is no current directory or the path does not lie below it.
pub fn relative_to_current_dir(path: &str, current_dir: Option<&str>) -> (relative: Option<String>)
    ensures
        match current_dir {
            Some(base) => {
                &&& relative is Some <==> path_below(path@, base@) is Some
                &&& relative matches Some(found) ==> path_below(path@, base@) == Some(found@)
            },
            None => relative is None,
        },
{
    match current_dir {
        Some(base) => strip_prefix(path, base),
        None => None,
    }
}

/// The number of bytes that encode `c` in UTF-8.
pub open spec fn utf8_width(c: char) -> int {
    let u = c as u32;
    if u < 0x80 {
        1
    } else if u < 0x800 {
        2
    } else if u < 0x10000 {
        3
    } else {
        4
    }
}

/// The value of a hexadecimal digit, in either case; `None` for any other
/// character.
pub open spec fn hex_value(c: char) -> Option<int> {
    let u = c as u32;
    if 0x30 <= u <= 0x39 {
        Some(u - 0x30)
    } else if 0x61 <= u <= 0x66 {
        Some(u - 0x61 + 10)
    } else if 0x41 <= u <= 0x46 {
        Some(u - 0x41 + 10)
    } else {
        None
    }
}

/// The number that two one-byte characters spell in base 16: two digits, or
/// a plus sign and one digit; 0 where they spell none.
pub open spec fn two_digits(high: char, low: char) -> int {
    if high == '+' {
        match hex_value(low) {
            Some(d) => d,
            None => 0,
        }
    } else {
        match (hex_value(high), hex_value(low)) {
            (Some(h), Some(l)) => 16 * h + l,
            _ => 0,
        }
    }
}

/// The index of the first character from `at` on that is not `#`.
pub open spec fn skip_hashes(s: Seq<char>, at: int) -> int
    decreases s.len() - at,
{
    if 0 <= at < s.len() && s[at] == '#' {
        skip_hashes(s, at + 1)
    } else {
        at
    }
}

/// The number that the two bytes from the character at `at` on spell in
/// base 16, and the index of the character after them; `None` where two
/// bytes do not end with a character. One character of two bytes spells no
/// number, and counts as 0.
pub open spec fn channel(s: Seq<char>, at: int) -> Option<(int, int)> {
    if 0 <= at < s.len() && utf8_width(s[at]) == 2 {
        Some((0, at + 1))
    } else if 0 <= at && at + 1 < s.len() && utf8_width(s[at]) == 1 && utf8_width(s[at + 1]) == 1 {
        Some((two_digits(s[at], s[at + 1]), at + 2))
    } else {
        None
    }
}

/// The red, green and blue of a colour written in base 16 after any number
/// of `#`: three channels of two bytes each. `None` where the text is too
/// short for them or a channel does not end with a character.
pub open spec fn rgb(s: Seq<char>) -> Option<(int, int, int)> {
    match channel(s, skip_hashes(s, 0)) {
        Some((red, green_at)) => match channel(s, green_at) {
            Some((green, blue_at)) => match channel(s, blue_at) {
                Some((blue, _)) => Some((red, green, blue)),
                None => None,
            },
            None => None,
        },
        None => None,
    }
}

/// The value of a hexadecimal digit.
fn hex_value_of(c: char) -> (r: Option<u8>)
    ensures
        r is Some <==> hex_value(c) is Some,
        r matches Some(d) ==> hex_value(c) == Some(d as int) && d < 16,
{
    let u = c as u32;
    if 0x30 <= u && u <= 0x39 {
        Some((u - 0x30) as u8)
    } else if 0x61 <= u && u <= 0x66 {
        Some((u - 0x61 + 10) as u8)
    } else if 0x41 <= u && u <= 0x46 {
        Some((u - 0x41 + 10) as u8)
    } else {
        None
    }
}

/// The channel that starts with the character at `at`.
fn channel_at(chars: &Vec<char>, at: usize) -> (r: Option<(u8, usize)>)
    ensures
        r is Some <==> channel(chars@, at as int) is Some,
        r matches Some((value, next)) ==> channel(chars@, at as int) == Some(
            (value as int, next as int),
        ) && next <= chars@.len(),
{
    if at >= chars.len() {
        return None;
    }
    let high = chars[at] as u32;
    if 0x80 <= high && high < 0x800 {
        return Some((0, at + 1));
    }
    if high >= 0x80 || at + 1 >= chars.len() || chars[at + 1] as u32 >= 0x80 {
        return None;
    }
    let value = if chars[at] == '+' {
        match hex_value_of(chars[at + 1]) {
            Some(d) => d,
            None => 0,
        }
    } else {
        match (hex_value_of(chars[at]), hex_value_of(chars[at + 1])) {
            (Some(h), Some(l)) => 16 * h + l,
            _ => 0,
        }
    };
    Some((value, at + 2))
}

/// The red, green and blue of a colour written in base 16 after any number
/// of `#`, where the text holds three channels.
pub fn checked_hex_to_rgb(hex_color: &str) -> (r: Option<(u8, u8, u8)>)
    ensures
        r is Some <==> rgb(hex_color@) is Some,
        r matches Some((red, green, blue)) ==> rgb(hex_color@) == Some(
            (red as int, green as int, blue as int),
        ),
{
    let chars = to_chars(hex_color);
    let mut at: usize = 0;
    while at < chars.len() && chars[at] == '#'
        invariant
            chars@ == hex_color@,
            0 <= at <= chars@.len(),
            skip_hashes(chars@, 0) == skip_hashes(chars@, at as int),
        decreases chars@.len() - at,
    {
        at += 1;
    }
    let (red, green_at) = match channel_at(&chars, at) {
        Some(found) => found,
        None => { return None; },
    };
    let (green, blue_at) = match channel_at(&chars, green_at) {
        Some(found) => found,
        None => { return None; },
    };
    match channel_at(&chars, blue_at) {
        Some((blue, _)) => Some((red, green, blue)),
        None => None,
    }
}

/// The red, green and blue of a colour written in base 16 after any number
/// of `#`. The text must hold three channels of two bytes each.
pub fn hex_to_rgb(hex_color: &str) -> (r: (u8, u8, u8))
    requires
        rgb(hex_color@) is Some,
    ensures
        rgb(hex_color@) == Some((r.0 as int, r.1 as int, r.2 as int)),
{
    match checked_hex_to_rgb(hex_color) {
        Some(found) => found,
        None => (0, 0, 0),
    }
}

} // verus!
