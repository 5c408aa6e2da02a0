use anycode::code::Code;

#[test]
fn test_code_empty() {
    let buffer = Code::new();
    assert_eq!(buffer.text.to_string(), "");
}

#[test]
fn test_code_from_str() {
    let buffer = Code::from_str("hello");
    assert_eq!(buffer.text.to_string(), "hello");
}

#[test]
fn test_code_insert() {
    let mut buffer = Code::new();
    buffer.insert_text("hello", 0, 0).unwrap();
    buffer.insert_text(" world", 0, 5).unwrap();
    assert_eq!(buffer.text.to_string(), "hello world");
}

#[test]
fn test_code_remove() {
    let mut buffer = Code::new();

    buffer.insert_text("hello world", 0, 0).unwrap();
    assert_eq!(buffer.text.to_string(), "hello world");

    buffer.remove_text(0, 5, 0, 11).unwrap();
    assert_eq!(buffer.text.to_string(), "hello");
}

#[test]
fn test_code_undo() {
    let mut buffer = Code::new();

    buffer.insert_text("hello", 0, 0).unwrap();
    buffer.insert_text(" world", 0, 5).unwrap();

    println!("{}", buffer.text.to_string());
    println!("{:?}", buffer.undo_history);

    buffer.undo();

    println!("{}", buffer.text.to_string());
    println!("{:?}", buffer.undo_history);
}

#[test]
fn test_code_redo() {
    let mut buffer = Code::new();

    // Insert initial text
    buffer.insert_text("hello", 0, 0).unwrap();
    buffer.insert_text(" world", 0, 5).unwrap();
    assert_eq!(buffer.text.to_string(), "hello world");

    // Undo the last change
    buffer.undo();
    assert_eq!(buffer.text.to_string(), "hello");

    // Redo the change
    buffer.redo();
    assert_eq!(buffer.text.to_string(), "hello world");

    // Test multiple operations
    buffer.insert_text("!", 0, 11).unwrap();
    assert_eq!(buffer.text.to_string(), "hello world!");

    // Undo multiple times
    buffer.undo();
    assert_eq!(buffer.text.to_string(), "hello world");
    buffer.undo();
    assert_eq!(buffer.text.to_string(), "hello");
    buffer.undo();
    assert_eq!(buffer.text.to_string(), "");

    // Redo multiple times
    buffer.redo();
    assert_eq!(buffer.text.to_string(), "hello");
    buffer.redo();
    assert_eq!(buffer.text.to_string(), "hello world");
    buffer.redo();
    assert_eq!(buffer.text.to_string(), "hello world!");
}
