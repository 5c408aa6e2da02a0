use anycode::assets::{asset_path, static_route, StaticRoute};
use anycode::search::{collect_files_inner, display_path, file_result, line_search};
use anycode::strings::{chars_end_with, chars_match_at, str_eq, to_chars};
use anycode::terminal_handler::{
    buffer_output, data_channel, default_shell, drain_output, needs_buffer, terminal_id,
    TerminalCloseRequest, TerminalInputRequest, TerminalReconnectRequest, TerminalResizeRequest,
    TerminalStartRequest, MAX_TERMINAL_BUFFER,
};
use anycode::text::{utf16_length, utf16_units_of};
use anycode::utils::{
    any_listed, checked_file_name, checked_hex_to_rgb, file_name, get_file_name, get_ignore_dirs,
    get_ignore_files, hex_to_rgb, is_ignored_dir, is_ignored_file, is_ignored_path,
    is_whitespace_char, parse_extra, pattern_covers, relative_path, relative_to_current_dir,
    DirEntry, DEFAULT_IGNORE_DIRS, DEFAULT_IGNORE_FILES,
};
use std::collections::VecDeque;

#[test]
fn file_names() {
    assert_eq!(file_name("/work/src/main.rs"), "main.rs");
    assert_eq!(get_file_name("src/"), "src");
    assert_eq!(checked_file_name("a/b.txt"), Some("b.txt".to_string()));
    assert_eq!(checked_file_name("/"), None);
    assert_eq!(checked_file_name("a/.."), None);
    assert_eq!(checked_file_name(""), None);
}

#[test]
fn ignore_lists_take_the_callers_entries_last() {
    assert_eq!(DEFAULT_IGNORE_DIRS.len(), 112);
    assert_eq!(DEFAULT_IGNORE_FILES.len(), 85);
    let dirs = get_ignore_dirs(None);
    assert_eq!(dirs.len(), 112);
    assert_eq!(dirs[0], ".git");
    assert_eq!(dirs[111], "backups");
    let more = get_ignore_dirs(Some(" one, two ,,three,   ,"));
    assert_eq!(more.len(), 115);
    assert_eq!(&more[112..], &["one".to_string(), "two".to_string(), "three".to_string()]);
    let files = get_ignore_files(Some("x.y"));
    assert_eq!(files.len(), 86);
    assert_eq!(files[84], "coder.rs");
    assert_eq!(files[85], "x.y");
}

#[test]
fn entries_between_commas() {
    assert_eq!(parse_extra(""), Vec::<String>::new());
    assert_eq!(parse_extra(","), Vec::<String>::new());
    assert_eq!(parse_extra(" \t "), Vec::<String>::new());
    assert_eq!(parse_extra("a"), vec!["a".to_string()]);
    assert_eq!(parse_extra("a b ,c"), vec!["a b".to_string(), "c".to_string()]);
    assert_eq!(parse_extra("\u{00A0}caf\u{00E9}\u{3000},x"), vec!["caf\u{00E9}".to_string(), "x".to_string()]);
}

#[test]
fn white_space_is_what_the_standard_library_says() {
    for code in 0..0x11000u32 {
        if let Some(c) = char::from_u32(code) {
            assert_eq!(is_whitespace_char(c), c.is_whitespace(), "U+{:04X}", code);
        }
    }
}

#[test]
fn ignored_directories() {
    assert!(is_ignored_dir("/work/node_modules/pkg/index.js", None));
    assert!(is_ignored_dir("target", None));
    assert!(!is_ignored_dir("/work/src/main.rs", None));
    assert!(!is_ignored_dir("/work/targets/main.rs", None));
    assert!(!is_ignored_dir("/work/mine/main.rs", None));
    assert!(is_ignored_dir("/work/mine/main.rs", Some("other, mine")));
}

#[test]
fn a_part_that_is_listed() {
    let list = |items: &[&str]| items.iter().map(|s| s.to_string()).collect::<Vec<String>>();
    assert!(any_listed(&list(&["/", "work", "target"]), &list(&["build", "target"])));
    assert!(!any_listed(&list(&["/", "work", "targets"]), &list(&["build", "target"])));
    assert!(!any_listed(&list(&[]), &list(&["build"])));
    assert!(!any_listed(&list(&["build"]), &list(&[])));
}

#[test]
fn ignored_files() {
    assert!(is_ignored_file("Cargo.lock", None));
    assert!(is_ignored_file("photo.png", None));
    assert!(is_ignored_file("song.mp3", None));
    assert!(is_ignored_file("backup~", None));
    assert!(!is_ignored_file("main.rs", None));
    assert!(!is_ignored_file("Cargo.lock.orig2", None));
    assert!(is_ignored_file("main.rs", Some("*.rs")));
    assert!(is_ignored_file("*", Some("*")));
    assert!(!is_ignored_file("a", Some("*")));

    assert!(pattern_covers("*.log", &to_chars("a.log")));
    assert!(!pattern_covers("*.log", &to_chars(".lo")));
    assert!(pattern_covers("*.log", &to_chars(".log")));
    assert!(pattern_covers("Makefile", &to_chars("Makefile")));
    assert!(!pattern_covers("Makefile", &to_chars("GNUMakefile")));
}

#[test]
fn ignored_paths() {
    assert!(is_ignored_path("/work/.git/config", None, None));
    assert!(is_ignored_path("/work/src/Cargo.lock", None, None));
    assert!(!is_ignored_path("/work/src/main.rs", None, None));
    assert!(is_ignored_path("/work/src/main.rs", Some("src"), None));
    assert!(is_ignored_path("/work/src/main.rs", None, Some("main.rs")));
    assert!(!is_ignored_path("/", None, None));
}

#[test]
fn colours() {
    assert_eq!(hex_to_rgb("#ff8000"), (255, 128, 0));
    assert_eq!(hex_to_rgb("FFFFFF"), (255, 255, 255));
    assert_eq!(hex_to_rgb("##0a0B0c"), (10, 11, 12));
    assert_eq!(hex_to_rgb("#12345678"), (0x12, 0x34, 0x56));
    // What is no number in base 16 counts as 0; a plus sign may stand first.
    assert_eq!(hex_to_rgb("#zz+f-1"), (0, 15, 0));
    assert_eq!(hex_to_rgb("#\u{00E9}1020"), (0, 0x10, 0x20));
    assert_eq!(checked_hex_to_rgb("#fff"), None);
    assert_eq!(checked_hex_to_rgb(""), None);
    assert_eq!(checked_hex_to_rgb("#a\u{00E9}1020"), None);
    assert_eq!(checked_hex_to_rgb("#\u{20AC}1020"), None);
    assert_eq!(checked_hex_to_rgb("#102030"), Some((16, 32, 48)));
}

#[test]
fn colours_agree_with_the_standard_library() {
    let digits = ['0', '9', 'a', 'f', 'A', 'F', 'g', '+', '-', ' ', 'x'];
    for high in digits {
        for low in digits {
            let text = format!("#{}{}0000", high, low);
            let expected = u8::from_str_radix(&text[1..3], 16).unwrap_or(0);
            assert_eq!(hex_to_rgb(&text).0, expected, "{}", text);
        }
    }
}

#[test]
fn relative_paths() {
    assert_eq!(relative_path("/work/src/main.rs", Some("/work")), "src/main.rs");
    assert_eq!(relative_path("/work", Some("/work/src")), "..");
    assert_eq!(relative_path("/work", Some("/work")), "");
    assert_eq!(relative_path("src/main.rs", Some("/work")), "src/main.rs");
    assert_eq!(relative_path("/work/a", None), "/work/a");
    assert_eq!(relative_to_current_dir("/work/src/a.rs", Some("/work")), Some("src/a.rs".to_string()));
    assert_eq!(relative_to_current_dir("/other/a.rs", Some("/work")), None);
    assert_eq!(relative_to_current_dir("/work/a.rs", None), None);
    assert_eq!(display_path("/work/src/a.rs", Some("/work")), "src/a.rs");
    assert_eq!(display_path("/other/a.rs", Some("/work")), "/other/a.rs");
}

#[test]
fn strings() {
    assert!(str_eq("abc", "abc"));
    assert!(!str_eq("abc", "abd"));
    assert!(!str_eq("abc", "ab"));
    assert!(str_eq("", ""));
    assert!(str_eq("\u{00E9}", "\u{00E9}"));
    assert!(!str_eq("\u{00E9}", "e"));
    assert_eq!(to_chars("a\u{1F600}"), vec!['a', '\u{1F600}']);
    assert!(chars_end_with(&to_chars("main.rs"), &to_chars(".rs")));
    assert!(chars_end_with(&to_chars("main.rs"), &to_chars("")));
    assert!(!chars_end_with(&to_chars("rs"), &to_chars(".rs")));
    assert!(chars_match_at(&to_chars("hello"), &to_chars("ll"), 2));
    assert!(!chars_match_at(&to_chars("hello"), &to_chars("ll"), 3));
    assert!(!chars_match_at(&to_chars("hello"), &to_chars("lo"), 4));
    assert!(chars_match_at(&to_chars("hello"), &to_chars(""), 5));
    assert!(!chars_match_at(&to_chars("hello"), &to_chars(""), 6));
}

#[test]
fn utf16_lengths() {
    assert_eq!(utf16_units_of('a'), 1);
    assert_eq!(utf16_units_of('\u{FFFF}'), 1);
    assert_eq!(utf16_units_of('\u{10000}'), 2);
    assert_eq!(utf16_length(""), Some(0));
    assert_eq!(utf16_length("a\u{1F600}\u{20AC}"), Some(4));
    let text = "mixed \u{1F600} text \u{10FFFF}";
    assert_eq!(utf16_length(text), Some(text.encode_utf16().count()));
}

#[test]
fn matches_do_not_overlap() {
    let results = line_search("aaaa", "aa", 7);
    assert_eq!(results.len(), 2);
    assert_eq!((results[0].line, results[0].column), (7, 0));
    assert_eq!((results[1].line, results[1].column), (7, 2));
    assert_eq!(results[0].preview, "aaaa");
}

#[test]
fn previews_show_fifty_characters_on_each_side() {
    let line = format!("{}needle{}", "x".repeat(60), "y".repeat(10));
    let results = line_search(&line, "needle", 0);
    assert_eq!(results.len(), 1);
    assert_eq!(results[0].column, 60);
    assert_eq!(results[0].preview, format!("{}needle{}", "x".repeat(50), "y".repeat(10)));
    let exact = format!("{}needle{}", "x".repeat(50), "y".repeat(50));
    assert_eq!(line_search(&exact, "needle", 0)[0].preview, exact);
    assert!(line_search("short", "longer than the line", 0).is_empty());
    assert_eq!(line_search("needle", "needle", 3)[0].preview, "needle");
}

#[test]
fn files_without_matches_give_no_result() {
    assert!(file_result("a.rs".to_string(), Vec::new()).is_none());
    let found = file_result("a.rs".to_string(), line_search("let a", "a", 0)).unwrap();
    assert_eq!(found.file_path, "a.rs");
    assert_eq!(found.matches.len(), 1);
}

#[test]
fn the_walk_collects_files_and_hands_directories_on() {
    let entry = |path: &str, is_dir: bool| DirEntry { path: path.to_string(), is_dir };
    let entries = vec![
        entry("/work/src", true),
        entry("/work/b.rs", false),
        entry("/work/target", true),
        entry("/work/a.png", false),
        entry("/work/a.rs", false),
    ];
    let mut collected = vec!["/work/first.rs".to_string()];
    let to_visit = collect_files_inner(&entries, None, None, &mut collected);
    assert_eq!(to_visit, vec!["/work/src".to_string()]);
    assert_eq!(
        collected,
        vec!["/work/first.rs".to_string(), "/work/b.rs".to_string(), "/work/a.rs".to_string()]
    );
}

#[test]
fn terminal_names() {
    assert_eq!(terminal_id("s1", "main"), "s1-main");
    assert_eq!(terminal_id("", ""), "-");
    assert_eq!(data_channel("main"), "terminal:data:main");
    let start = TerminalStartRequest {
        name: "t".to_string(),
        session: "s".to_string(),
        cmd: None,
        rows: None,
        cols: Some(120),
    };
    assert_eq!(start.id(), "s-t");
    assert_eq!(start.size(), (30, 120));
    let sized = TerminalStartRequest { rows: Some(50), cols: None, ..start.clone() };
    assert_eq!(sized.size(), (50, 80));
    let input = TerminalInputRequest { name: "t".to_string(), input: "ls".to_string(), session: "s".to_string() };
    assert_eq!(input.id(), "s-t");
    let resize = TerminalResizeRequest { name: "t".to_string(), session: "s".to_string(), cols: 1, rows: 2 };
    assert_eq!(resize.id(), "s-t");
    let close = TerminalCloseRequest { name: "t".to_string(), session: "s".to_string() };
    assert_eq!(close.id(), "s-t");
    let reconnect = TerminalReconnectRequest { name: "t".to_string(), session: "s".to_string() };
    assert_eq!(reconnect.id(), "s-t");
}

#[test]
fn the_shell_to_run() {
    assert_eq!(default_shell(true, Some("/bin/fish".to_string()), &vec![true, true, true]), "cmd.exe");
    assert_eq!(default_shell(false, Some("/bin/fish".to_string()), &vec![true, true, true]), "/bin/fish");
    assert_eq!(default_shell(false, None, &vec![true, true, true]), "/bin/zsh");
    assert_eq!(default_shell(false, None, &vec![false, true, true]), "/bin/bash");
    assert_eq!(default_shell(false, None, &vec![false, false, true]), "/bin/sh");
    assert_eq!(default_shell(false, None, &vec![false, false, false]), "/bin/sh");
    assert_eq!(default_shell(false, None, &Vec::new()), "/bin/sh");
}

#[test]
fn output_is_held_back_when_a_session_is_away() {
    assert!(needs_buffer(&Vec::new()));
    assert!(!needs_buffer(&vec![true, true]));
    assert!(needs_buffer(&vec![true, false]));
}

#[test]
fn the_buffer_keeps_the_last_five_hundred_chunks() {
    let mut buffer: VecDeque<String> = VecDeque::new();
    for i in 0..(MAX_TERMINAL_BUFFER + 3) {
        buffer_output(&mut buffer, format!("chunk {}", i));
    }
    assert_eq!(buffer.len(), 500);
    assert_eq!(buffer.front().unwrap(), "chunk 3");
    assert_eq!(buffer.back().unwrap(), "chunk 502");
    let chunks = drain_output(&mut buffer);
    assert_eq!(chunks.len(), 500);
    assert_eq!(chunks[0], "chunk 3");
    assert_eq!(chunks[499], "chunk 502");
    assert!(buffer.is_empty());
}

#[test]
fn pages() {
    assert_eq!(asset_path("/assets/app.js"), "assets/app.js");
    assert_eq!(asset_path("///"), "");
    assert_eq!(asset_path("index.html"), "index.html");
    assert_eq!(static_route("", false), StaticRoute::Index);
    assert_eq!(static_route("index.html", true), StaticRoute::Index);
    assert_eq!(static_route("assets/app.js", true), StaticRoute::Asset);
    assert_eq!(static_route("assets/app.js", false), StaticRoute::NotFound);
    assert_eq!(static_route("some/route", false), StaticRoute::Index);
    assert_eq!(static_route("some/route", true), StaticRoute::Asset);
}
