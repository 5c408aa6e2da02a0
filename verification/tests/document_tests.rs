use anycode::code::{Change, Code, Operation, PendingWrite};
use anycode::config::{Config, IndentConfig, Language};
use anycode::error::DocError;

fn text_of(code: &Code) -> String {
    code.text.to_string()
}

fn hello_world() -> Code {
    let mut code = Code::new();
    code.insert_text("hello", 0, 0).unwrap();
    code.insert_text(" world", 0, 5).unwrap();
    code
}

#[test]
fn two_insertions_build_the_text_and_the_history() {
    let code = hello_world();
    assert_eq!(text_of(&code), "hello world");
    assert!(code.changed);
    assert_eq!(code.undo_history.len(), 2);
    assert_eq!(code.undo_history[0].start, 0);
    assert_eq!(code.undo_history[0].text, "hello");
    assert_eq!(code.undo_history[0].operation, Operation::Insert);
    assert_eq!(code.undo_history[1].start, 5);
    assert_eq!(code.undo_history[1].text, " world");
    assert_eq!(code.undo_history[1].row, 0);
    assert_eq!(code.undo_history[1].column, 5);
    assert!(code.redo_history.is_empty());
}

#[test]
fn removal_records_what_it_took_out() {
    let mut code = Code::from_str("hello world");
    code.remove_text(0, 5, 0, 11).unwrap();
    assert_eq!(text_of(&code), "hello");
    let last = code.undo_history.last().unwrap();
    assert_eq!(last.operation, Operation::Remove);
    assert_eq!(last.start, 5);
    assert_eq!(last.text, " world");
    assert_eq!(last.row, 0);
    assert_eq!(last.column, 11);
}

#[test]
fn undo_steps_back_one_edit_at_a_time() {
    let mut code = hello_world();

    let first = code.undo().unwrap();
    assert_eq!(text_of(&code), "hello");
    assert_eq!(first.changes.len(), 1);
    assert_eq!(first.changes[0].text, " world");

    let second = code.undo().unwrap();
    assert_eq!(text_of(&code), "");
    assert_eq!(second.changes[0].text, "hello");

    assert!(code.undo().is_none());
    assert_eq!(text_of(&code), "");
    assert_eq!(code.redo_history.len(), 2);
}

#[test]
fn redo_steps_forward_in_the_order_of_the_edits() {
    let mut code = hello_world();
    code.undo();
    code.undo();
    assert!(code.undo().is_none());

    assert!(code.redo().is_some());
    assert_eq!(text_of(&code), "hello");
    assert!(code.redo().is_some());
    assert_eq!(text_of(&code), "hello world");
    assert!(code.redo().is_none());

    code.insert_text("!", 0, 11).unwrap();
    assert_eq!(text_of(&code), "hello world!");
    code.undo();
    assert_eq!(text_of(&code), "hello world");
    code.redo();
    assert_eq!(text_of(&code), "hello world!");
}

#[test]
fn one_undo_takes_a_whole_replacement_back() {
    let mut code = Code::from_str("hello world");
    code.replace_text(0, 0, 0, 5, "HELLO").unwrap();
    assert_eq!(text_of(&code), "HELLO world");
    let kinds: Vec<Operation> = code.undo_history.iter().map(|c| c.operation).collect();
    assert_eq!(
        kinds,
        vec![
            Operation::Insert,
            Operation::Start,
            Operation::Remove,
            Operation::Insert,
            Operation::End
        ]
    );

    let undone = code.undo().unwrap();
    assert_eq!(text_of(&code), "hello world");
    assert_eq!(undone.changes.len(), 2);
    assert_eq!(undone.changes[0].operation, Operation::Insert);
    assert_eq!(undone.changes[0].text, "HELLO");
    assert_eq!(undone.changes[1].operation, Operation::Remove);
    assert_eq!(undone.changes[1].text, "hello");
    assert_eq!(code.undo_history.len(), 1);
}

#[test]
fn a_new_edit_after_an_undo_leaves_nothing_to_redo() {
    let mut code = hello_world();
    code.undo();
    assert_eq!(code.redo_history.len(), 1);
    code.insert_text2("!", 5).unwrap();
    assert!(code.redo_history.is_empty());
    assert!(code.redo().is_none());
    assert_eq!(text_of(&code), "hello!");
}

#[test]
fn a_group_without_its_opening_marker_reports_nothing_but_is_undone() {
    let mut code = Code::new();
    code.set_text("abc");
    code.undo_history.push(Change {
        start: 0,
        operation: Operation::Insert,
        text: "abc".to_string(),
        row: 0,
        column: 0,
    });
    code.undo_history.push(Change {
        start: 0,
        operation: Operation::End,
        text: String::new(),
        row: 0,
        column: 0,
    });
    assert!(code.undo().is_none());
    assert_eq!(text_of(&code), "");
    assert_eq!(code.redo_history.len(), 1);
}

#[test]
fn an_undo_that_would_leave_the_text_is_refused() {
    let mut code = Code::from_str("hello world");
    assert!(code.can_undo());
    assert!(code.can_redo());
    // The text is replaced behind the history's back: the insertion of
    // eleven characters cannot be taken out of three.
    code.set_text("abc");
    assert!(!code.can_undo());
    assert_eq!(code.checked_undo().unwrap_err(), DocError::OffsetOutOfRange);
    assert_eq!(text_of(&code), "abc");
    assert_eq!(code.undo_history.len(), 1);
    assert!(code.redo_history.is_empty());

    code.set_text("hello world, again");
    assert!(code.can_undo());
    let undone = code.checked_undo().unwrap().unwrap();
    assert_eq!(undone.changes.len(), 1);
    assert_eq!(text_of(&code), ", again");
    assert_eq!(code.checked_undo().unwrap().map(|m| m.changes.len()), None);

    // The redo puts eleven characters back at offset 0, which fits any text.
    assert!(code.can_redo());
    code.set_text("");
    assert!(code.checked_redo().unwrap().is_some());
    assert_eq!(text_of(&code), "hello world");
}

#[test]
fn a_group_is_refused_as_a_whole() {
    let mut code = Code::from_str("hello world");
    code.replace_text(0, 0, 0, 5, "HELLO").unwrap();
    assert_eq!(text_of(&code), "HELLO world");
    // The insertion of the group still fits, its removal at offset 0 too;
    // the entry below the group does not matter to this undo.
    code.set_text("12345");
    assert!(code.can_undo());
    assert!(code.checked_undo().unwrap().is_some());
    assert_eq!(text_of(&code), "hello");

    let mut short = Code::from_str("hello world");
    short.replace_text(0, 6, 0, 11, "W").unwrap();
    assert_eq!(text_of(&short), "hello W");
    // The insertion at offset 6 cannot be taken out of six characters:
    // nothing of the group is taken back.
    short.set_text("123456");
    assert!(!short.can_undo());
    assert_eq!(short.checked_undo().unwrap_err(), DocError::OffsetOutOfRange);
    assert_eq!(text_of(&short), "123456");
    assert_eq!(short.undo_history.len(), 5);
}

#[test]
fn edits_outside_the_text_are_refused_and_change_nothing() {
    let mut code = Code::from_str("hello");
    assert_eq!(code.insert_text2("x", 6), Err(DocError::OffsetOutOfRange));
    assert_eq!(code.insert_text("x", 0, 6), Err(DocError::OffsetOutOfRange));
    assert_eq!(code.insert_text("x", 2, 0), Err(DocError::OffsetOutOfRange));
    assert_eq!(code.remove_text2(2, 6), Err(DocError::OffsetOutOfRange));
    assert_eq!(code.remove_text2(3, 2), Err(DocError::OffsetOutOfRange));
    assert_eq!(code.remove_text(0, 3, 0, 2), Err(DocError::OffsetOutOfRange));
    assert_eq!(code.replace_text(0, 0, 0, 6, "x"), Err(DocError::OffsetOutOfRange));
    assert_eq!(code.insert_text("x", 0, usize::MAX), Err(DocError::OffsetOutOfRange));
    assert_eq!(text_of(&code), "hello");
    assert_eq!(code.undo_history.len(), 1);

    // The end of the text, and the line one past the last, are positions.
    assert_eq!(code.insert_text2("!", 5), Ok(()));
    assert_eq!(code.insert_text("?", 1, 0), Ok(()));
    assert_eq!(text_of(&code), "hello!?");
}

#[test]
fn lines_end_with_every_kind_of_break() {
    let code = Code::from_str("a\nbc\r\nd\re\u{0085}f\u{2028}g\u{2029}h\u{000B}i\u{000C}");
    assert_eq!(code.len_lines(), 9);
    assert_eq!(code.position(0), (0, 0));
    assert_eq!(code.position(2), (1, 0));
    // The line feed of a CR LF pair stands on the line that the pair ends.
    assert_eq!(code.position(5), (1, 3));
    assert_eq!(code.position(6), (2, 0));
    assert_eq!(code.position(8), (3, 0));
    assert_eq!(code.position(10), (4, 0));
    assert_eq!(code.position(12), (5, 0));
    assert_eq!(code.position(14), (6, 0));
    assert_eq!(code.position(16), (7, 0));
    assert_eq!(code.position(18), (8, 0));
    assert_eq!(code.offset_at(1, 0), Some(2));
    assert_eq!(code.offset_at(2, 1), Some(7));
    assert_eq!(code.offset_at(8, 0), Some(18));
    assert_eq!(code.offset_at(9, 0), Some(18));
    assert_eq!(code.offset_at(10, 0), None);
    assert_eq!(code.offset_at(0, 19), None);
}

#[test]
fn line_lengths_leave_the_break_out() {
    let code = Code::from_str("ab\ncde\r\n\nlast");
    assert_eq!(code.len_lines(), 4);
    assert_eq!(code.line_len(0), 2);
    assert_eq!(code.line_len(1), 3);
    assert_eq!(code.line_len(2), 0);
    assert_eq!(code.line_len(3), 4);

    let ends_with_break = Code::from_str("ab\n");
    assert_eq!(ends_with_break.len_lines(), 2);
    assert_eq!(ends_with_break.line_len(0), 2);
    assert_eq!(ends_with_break.line_len(1), 0);

    let empty = Code::new();
    assert_eq!(empty.len_lines(), 1);
    assert_eq!(empty.line_len(0), 0);
}

#[test]
fn utf16_offsets_map_to_characters_and_back() {
    // U+1F600 takes two UTF-16 code units.
    let code = Code::from_str("a\u{1F600}b");
    assert_eq!(code.len_chars(), 3);
    assert_eq!(code.len_utf16(), 4);
    assert_eq!(code.utf16_to_char_offset(0), 0);
    assert_eq!(code.utf16_to_char_offset(1), 1);
    // An offset inside the pair addresses the character after it.
    assert_eq!(code.utf16_to_char_offset(2), 2);
    assert_eq!(code.utf16_to_char_offset(3), 2);
    assert_eq!(code.utf16_to_char_offset(4), 3);
    // An offset past the end addresses the end.
    assert_eq!(code.utf16_to_char_offset(100), 3);

    // After the pair: back through the UTF-16 column.
    let offset = code.utf16_to_char_offset(3);
    assert_eq!(code.char_to_position(offset), (0, 3));
    assert_eq!(code.position(offset), (0, 2));
}

#[test]
fn utf16_columns_count_from_the_start_of_the_line() {
    let code = Code::from_str("x\u{1F600}\n\u{1F600}\u{1F600}y");
    assert_eq!(code.char_to_position(3), (1, 0));
    assert_eq!(code.char_to_position(4), (1, 2));
    assert_eq!(code.char_to_position(5), (1, 4));
    assert_eq!(code.char_to_position(6), (1, 5));
    // Flat offset 8 = 4 units of the first line + 4 of the second.
    let offset = code.utf16_to_char_offset(8);
    assert_eq!(offset, 5);
    let (line, column) = code.char_to_position(offset);
    assert_eq!((line, column), (1, 4));
}

#[test]
fn saving_writes_only_what_is_dirty() {
    let mut code = Code::new();
    assert_eq!(code.pending_save(), None);
    assert_eq!(code.save_file(Ok(())), Ok(()));
    assert!(!code.changed);

    code.insert_text2("text", 0).unwrap();
    code.abs_path = "/work/a.txt".to_string();
    assert_eq!(
        code.pending_save(),
        Some(PendingWrite { path: "/work/a.txt".to_string(), text: "text".to_string() })
    );
    assert_eq!(code.save_file(Err(DocError::FileAccess)), Err(DocError::FileAccess));
    assert!(code.changed);
    assert_eq!(code.save_file(Ok(())), Ok(()));
    assert!(!code.changed);
    assert_eq!(code.pending_save(), None);
}

#[test]
fn slices_are_counted_in_characters() {
    let code = Code::from_str("a\u{1F600}b\u{00E9}c");
    assert_eq!(code.slice(1, 4), Ok("\u{1F600}b\u{00E9}".to_string()));
    assert_eq!(code.slice(0, 5), Ok("a\u{1F600}b\u{00E9}c".to_string()));
    assert_eq!(code.slice(5, 5), Ok(String::new()));
    assert_eq!(code.slice(2, 1), Err(DocError::OffsetOutOfRange));
    assert_eq!(code.slice(0, 6), Err(DocError::OffsetOutOfRange));
}

#[test]
fn set_text_replaces_the_text_and_keeps_the_history() {
    let mut code = Code::from_str("hello");
    code.set_text("other text");
    assert_eq!(text_of(&code), "other text");
    assert!(code.changed);
    assert_eq!(code.undo_history.len(), 1);
    assert_eq!(code.content(), "other text");
}

#[test]
fn reload_replaces_everything_as_one_group() {
    let mut code = Code::from_str("one\ntwo");
    code.reload("three");
    assert_eq!(text_of(&code), "three");
    let end = code.undo_history.last().unwrap();
    assert_eq!(end.operation, Operation::End);
    assert_eq!(end.row, 1);
    assert_eq!(end.column, 3);
    code.undo();
    assert_eq!(text_of(&code), "one\ntwo");
}

#[test]
fn ensure_file_exists_records_the_new_path() {
    let mut code = Code::new();
    code.set_file_name("notes.txt".to_string());
    assert_eq!(code.file_name, "notes.txt");
    assert_eq!(code.ensure_file_exists(None), Ok(()));
    assert_eq!(code.abs_path, "");
    assert_eq!(code.ensure_file_exists(Some(Err(DocError::FileAccess))), Err(DocError::FileAccess));
    assert_eq!(code.abs_path, "");
    assert_eq!(code.ensure_file_exists(Some(Ok("/tmp/notes.txt".to_string()))), Ok(()));
    assert_eq!(code.abs_path, "/tmp/notes.txt");
}

fn language(name: &str, types: &[&str]) -> Language {
    Language {
        name: name.to_string(),
        types: types.iter().map(|t| t.to_string()).collect(),
        comment: "#".to_string(),
        lsp: None,
        indent: IndentConfig { width: 4, unit: " ".to_string() },
        executable: None,
        exec_command: None,
        exectest: None,
    }
}

#[test]
fn from_file_names_the_document_and_finds_its_language() {
    let conf = Config::default();
    let code = Code::from_file("src/main.rs", "/work/src/main.rs".to_string(), "fn main() {}\n", &conf)
        .unwrap();
    assert_eq!(code.file_name, "main.rs");
    assert_eq!(code.abs_path, "/work/src/main.rs");
    assert_eq!(code.lang, "rust");
    assert_eq!(text_of(&code), "fn main() {}\n");
    assert!(!code.changed);
    assert!(code.undo_history.is_empty());

    // The detected identifier is put in lower case.
    let shader = Code::from_file("a.hlsl", "/a.hlsl".to_string(), "", &conf).unwrap();
    assert_eq!(shader.lang, "hlsl");
}

#[test]
fn from_file_falls_back_on_the_configuration_then_on_text() {
    let mut conf = Config::default();
    conf.language.push(language("zig", &[".zig", ".zon"]));
    conf.language.push(language("second", &[".zon"]));
    let zon = Code::from_file("build.zon", "/build.zon".to_string(), "", &conf).unwrap();
    assert_eq!(zon.lang, "zig");
    let unknown = Code::from_file("notes.unknown", "/notes.unknown".to_string(), "", &conf).unwrap();
    assert_eq!(unknown.lang, "text");
}

#[test]
fn from_file_refuses_a_path_without_a_name() {
    let conf = Config::default();
    let refused = Code::from_file("..", "/".to_string(), "", &conf);
    assert!(matches!(refused, Err(DocError::PathResolution)));
}

#[test]
fn default_configuration() {
    let conf = Config::default();
    assert_eq!(conf.theme, "default");
    assert!(conf.language.is_empty());
    assert!(conf.terminal.is_none());
}

#[test]
fn error_messages() {
    assert_eq!(DocError::PathResolution.message(), "path cannot be resolved");
    assert_eq!(DocError::FileAccess.message(), "file cannot be accessed");
    assert_eq!(DocError::OffsetOutOfRange.message(), "offset out of range");
    assert_eq!(DocError::UnknownOperation.message(), "unknown operation");
}
