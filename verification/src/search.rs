//! Search in a line of text: where a pattern occurs, and what to show of
//! the line around each occurrence.

use vstd::prelude::*;
use vstd::string::StrSliceExecFns;
use crate::strings::{chars_match_at, occurs_at, to_chars};
use crate::utils::{
    ignored_path, is_ignored_path, option_view, path_below, relative_or_same,
    relative_to_current_dir, string_views, DirEntry,
};

verus! {

/// How many characters of the line a preview shows on each side of a match.
pub const PREVIEW_MARGIN: usize = 50;

/// One occurrence of a pattern: the line, the column of its first
/// character, counted in characters, and the part of the line around it.
#[derive(Debug, Clone)]
pub struct SearchResult {
    pub line: usize,
    pub column: usize,
    pub preview: String,
}

/// The occurrences of a pattern in one file.
#[derive(Debug, Clone)]
pub struct FileSearchResult {
    pub file_path: String,
    pub matches: Vec<SearchResult>,
}

/// An occurrence as the contracts see it.
pub struct SearchResultView {
    pub line: nat,
    pub column: nat,
    pub preview: Seq<char>,
}

impl View for SearchResult {
    type V = SearchResultView;

    open spec fn view(&self) -> SearchResultView {
        SearchResultView {
            line: self.line as nat,
            column: self.column as nat,
            preview: self.preview@,
        }
    }
}

/// The occurrences of a list as the contracts see them.
pub open spec fn result_views(results: Seq<SearchResult>) -> Seq<SearchResultView> {
    results.map_values(|r: SearchResult| r@)
}

/// The first index at or after `from` at which `pattern` occurs in `s`.
pub open spec fn next_match(s: Seq<char>, pattern: Seq<char>, from: int) -> Option<int>
    decreases s.len() - from + 1,
{
    if from < 0 || from + pattern.len() > s.len() {
        None
    } else if occurs_at(s, pattern, from) {
        Some(from)
    } else {
        next_match(s, pattern, from + 1)
    }
}

/// The part of the line shown for a match at `at`: the match with up to
/// `PREVIEW_MARGIN` characters before it and as many after it.
pub open spec fn preview(s: Seq<char>, at: int, pattern_len: int) -> Seq<char> {
    s.subrange(
        if at >= PREVIEW_MARGIN {
            at - PREVIEW_MARGIN
        } else {
            0
        },
        if at + pattern_len + PREVIEW_MARGIN <= s.len() {
            at + pattern_len + PREVIEW_MARGIN
        } else {
            s.len() as int
        },
    )
}

/// A match lies at or after the index from which it was looked for, and
/// inside the text.
pub proof fn lemma_next_match(s: Seq<char>, pattern: Seq<char>, from: int)
    ensures
        next_match(s, pattern, from) matches Some(at) ==> from <= at && occurs_at(s, pattern, at),
        forall|j: int|
            0 <= from <= j && (next_match(s, pattern, from) matches Some(at) ==> j < at)
                ==> !occurs_at(s, pattern, j),
    decreases s.len() - from + 1,
{
    if from < 0 || from + pattern.len() > s.len() {
    } else if occurs_at(s, pattern, from) {
    } else {
        lemma_next_match(s, pattern, from + 1);
    }
}

/// The occurrences of `pattern` in the line `s` from index `from` on, from
/// left to right, each looked for after the end of the one before it. An
/// empty pattern has none.
pub open spec fn matches_from(s: Seq<char>, pattern: Seq<char>, line: nat, from: int) -> Seq<
    SearchResultView,
>
    decreases s.len() - from + 1,
{
    if pattern.len() == 0 {
        Seq::empty()
    } else {
        match next_match(s, pattern, from) {
            None => Seq::empty(),
            Some(at) => {
                let rest = {
                    proof {
                        lemma_next_match(s, pattern, from);
                    }
                    matches_from(s, pattern, line, at + pattern.len())
                };
                seq![
                    SearchResultView {
                        line,
                        column: at as nat,
                        preview: preview(s, at, pattern.len() as int),
                    },
                ] + rest
            },
        }
    }
}

/// The first index at or after `from` at which the pattern occurs.
fn find_from(chars: &Vec<char>, pattern: &Vec<char>, from: usize) -> (r: Option<usize>)
    requires
        pattern@.len() > 0,
    ensures
        r is Some <==> next_match(chars@, pattern@, from as int) is Some,
        r matches Some(at) ==> next_match(chars@, pattern@, from as int) == Some(at as int),
{
    let mut at = from;
    while at <= chars.len() && pattern.len() <= chars.len() - at
        invariant
            from <= at,
            pattern@.len() > 0,
            next_match(chars@, pattern@, from as int) == next_match(chars@, pattern@, at as int),
        decreases chars@.len() + 1 - at,
    {
        if chars_match_at(chars, pattern, at) {
            return Some(at);
        }
        at += 1;
    }
    None
}

/// The occurrences of `pattern` in a line, from left to right, each looked
/// for after the end of the one before it. Each carries `line_number`, its
/// column and the part of the line around it.
pub fn line_search(line_content: &str, pattern: &str, line_number: usize) -> (results: Vec<
    SearchResult,
>)
    requires
        pattern@.len() > 0,
    ensures
        result_views(results@) == matches_from(line_content@, pattern@, line_number as nat, 0),
{
    let chars = to_chars(line_content);
    let wanted = to_chars(pattern);
    let ghost s = line_content@;
    let ghost p = pattern@;
    let mut results: Vec<SearchResult> = Vec::new();
    let mut search_start: usize = 0;
    let len = chars.len();
    proof {
        assert(result_views(results@) =~= Seq::empty());
    }
    loop
        invariant_except_break
            matches_from(s, p, line_number as nat, 0) == result_views(results@) + matches_from(
                s,
                p,
                line_number as nat,
                search_start as int,
            ),
        invariant
            chars@ == s,
            wanted@ == p,
            s == line_content@,
            p.len() > 0,
            len == s.len(),
            0 <= search_start <= s.len(),
        ensures
            matches_from(s, p, line_number as nat, 0) == result_views(results@),
        decreases s.len() - search_start,
    {
        let ghost found = result_views(results@);
        match find_from(&chars, &wanted, search_start) {
            None => {
                proof {
                    assert(found + Seq::<SearchResultView>::empty() =~= found);
                }
                break ;
            },
            Some(at) => {
                proof {
                    lemma_next_match(s, p, search_start as int);
                    assert(at + wanted@.len() <= chars@.len());
                }
                let preview_start = if at >= PREVIEW_MARGIN {
                    at - PREVIEW_MARGIN
                } else {
                    0
                };
                let match_end = at + wanted.len();
                let preview_end = if len - match_end >= PREVIEW_MARGIN {
                    match_end + PREVIEW_MARGIN
                } else {
                    len
                };
                let shown = line_content.substring_char(preview_start, preview_end).to_string();
                results.push(SearchResult { line: line_number, column: at, preview: shown });
                proof {
                    let hit = SearchResultView {
                        line: line_number as nat,
                        column: at as nat,
                        preview: preview(s, at as int, p.len() as int),
                    };
                    let rest = matches_from(s, p, line_number as nat, match_end as int);
                    assert(result_views(results@) =~= found.push(hit));
                    assert(found + (seq![hit] + rest) =~= result_views(results@) + rest);
                }
                search_start = match_end;
            },
        }
    }
    results
}

/// The occurrences found in a file, under the path to show for it; `None`
/// where nothing was found.
pub fn file_result(file_path: String, matches: Vec<SearchResult>) -> (r: Option<FileSearchResult>)
    ensures
        r is Some <==> matches@.len() > 0,
        r matches Some(found) ==> found.file_path == file_path && found.matches == matches,
{
    if matches.len() == 0 {
        None
    } else {
        Some(FileSearchResult { file_path, matches })
    }
}

/// The paths, among the entries from index `from` on, of the directories
/// (`dirs` true) or of the files (`dirs` false) that are not passed over.
pub open spec fn kept_paths(
    entries: Seq<DirEntry>,
    dirs: bool,
    extra_dirs: Option<Seq<char>>,
    extra_files: Option<Seq<char>>,
    from: int,
) -> Seq<Seq<char>>
    decreases entries.len() - from,
{
    if from < 0 || from >= entries.len() {
        Seq::empty()
    } else {
        let entry = entries[from];
        let rest = kept_paths(entries, dirs, extra_dirs, extra_files, from + 1);
        if entry.is_dir == dirs && !ignored_path(entry.path@, extra_dirs, extra_files) {
            seq![entry.path@] + rest
        } else {
            rest
        }
    }
}

/// One step of the walk that collects the files below a directory: of the
/// entries read from one directory, the files that are not passed over join
/// `collected`, and the directories that are not passed over are returned,
/// for the walk to read next. The order of the entries is kept.
pub fn collect_files_inner(
    entries: &Vec<DirEntry>,
    extra_dirs: Option<&str>,
    extra_files: Option<&str>,
    collected: &mut Vec<String>,
) -> (to_visit: Vec<String>)
    ensures
        string_views(final(collected)@) == string_views(old(collected)@) + kept_paths(
            entries@,
            false,
            option_view(extra_dirs),
            option_view(extra_files),
            0,
        ),
        string_views(to_visit@) == kept_paths(
            entries@,
            true,
            option_view(extra_dirs),
            option_view(extra_files),
            0,
        ),
{
    let mut to_visit: Vec<String> = Vec::new();
    let ghost xd = option_view(extra_dirs);
    let ghost xf = option_view(extra_files);
    let ghost before = string_views(collected@);
    let mut i: usize = 0;
    proof {
        assert(string_views(to_visit@) =~= Seq::empty());
        assert(before + Seq::<Seq<char>>::empty() =~= before);
    }
    while i < entries.len()
        invariant
            xd == option_view(extra_dirs),
            xf == option_view(extra_files),
            before == string_views(old(collected)@),
            0 <= i <= entries@.len(),
            before + kept_paths(entries@, false, xd, xf, 0) == string_views(collected@)
                + kept_paths(entries@, false, xd, xf, i as int),
            kept_paths(entries@, true, xd, xf, 0) == string_views(to_visit@) + kept_paths(
                entries@,
                true,
                xd,
                xf,
                i as int,
            ),
        decreases entries@.len() - i,
    {
        let entry = &entries[i];
        let ghost files = string_views(collected@);
        let ghost dirs = string_views(to_visit@);
        let ghost rest_files = kept_paths(entries@, false, xd, xf, i + 1);
        let ghost rest_dirs = kept_paths(entries@, true, xd, xf, i + 1);
        if !is_ignored_path(entry.path.as_str(), extra_dirs, extra_files) {
            if entry.is_dir {
                to_visit.push(entry.path.clone());
                proof {
                    assert(string_views(to_visit@) =~= dirs.push(entry.path@));
                    assert(dirs + (seq![entry.path@] + rest_dirs) =~= string_views(to_visit@)
                        + rest_dirs);
                }
            } else {
                collected.push(entry.path.clone());
                proof {
                    assert(string_views(collected@) =~= files.push(entry.path@));
                    assert(files + (seq![entry.path@] + rest_files) =~= string_views(collected@)
                        + rest_files);
                }
            }
        }
        i += 1;
    }
    proof {
        assert(string_views(collected@) + Seq::<Seq<char>>::empty() =~= string_views(
            collected@,
        ));
        assert(string_views(to_visit@) + Seq::<Seq<char>>::empty() =~= string_views(to_visit@));
    }
    to_visit
}

/// The path under which a file's occurrences are shown: what is left of
/// the path below the current directory, else the path itself.
pub fn display_path(path: &str, current_dir: Option<&str>) -> (shown: String)
    ensures
        shown@ == match current_dir {
            Some(base) => match path_below(path@, base@) {
                Some(below) => below,
                None => path@,
            },
            None => path@,
        },
{
    relative_or_same(path, relative_to_current_dir(path, current_dir))
}

} // verus!
