use mdiff_core::text_buffer::TextBuffer;

#[test]
fn test_new_empty() {
    let buf = TextBuffer::new();
    assert_eq!(buf.text(), "");
    assert!(buf.is_empty());
    assert_eq!(buf.cursor_char_index(), 0);
}

#[test]
fn test_from() {
    let buf = TextBuffer::from("hello");
    assert_eq!(buf.text(), "hello");
    assert_eq!(buf.cursor_char_index(), 5);
}

#[test]
fn test_insert_char() {
    let mut buf = TextBuffer::new();
    buf.insert_char('a');
    buf.insert_char('b');
    buf.insert_char('c');
    assert_eq!(buf.text(), "abc");
    assert_eq!(buf.cursor_char_index(), 3);
}

#[test]
fn test_insert_at_middle() {
    let mut buf = TextBuffer::from("ac");
    buf.move_left();
    buf.insert_char('b');
    assert_eq!(buf.text(), "abc");
    assert_eq!(buf.cursor_char_index(), 2);
}

#[test]
fn test_delete_back() {
    let mut buf = TextBuffer::from("abc");
    buf.delete_back();
    assert_eq!(buf.text(), "ab");
    buf.delete_back();
    assert_eq!(buf.text(), "a");
    buf.delete_back();
    assert_eq!(buf.text(), "");
    buf.delete_back();
    assert_eq!(buf.text(), "");
}

#[test]
fn test_delete_back_middle() {
    let mut buf = TextBuffer::from("abc");
    buf.move_left();
    buf.delete_back();
    assert_eq!(buf.text(), "ac");
    assert_eq!(buf.cursor_char_index(), 1);
}

#[test]
fn test_move_left_right() {
    let mut buf = TextBuffer::from("abc");
    assert_eq!(buf.cursor_char_index(), 3);
    buf.move_left();
    assert_eq!(buf.cursor_char_index(), 2);
    buf.move_left();
    assert_eq!(buf.cursor_char_index(), 1);
    buf.move_right();
    assert_eq!(buf.cursor_char_index(), 2);
    buf.move_right();
    assert_eq!(buf.cursor_char_index(), 3);
    buf.move_right();
    assert_eq!(buf.cursor_char_index(), 3);
}

#[test]
fn test_home_end() {
    let mut buf = TextBuffer::from("hello");
    buf.move_home();
    assert_eq!(buf.cursor_char_index(), 0);
    buf.move_end();
    assert_eq!(buf.cursor_char_index(), 5);
}

#[test]
fn test_clear() {
    let mut buf = TextBuffer::from("hello");
    buf.clear();
    assert_eq!(buf.text(), "");
    assert_eq!(buf.cursor_char_index(), 0);
}

#[test]
fn test_set() {
    let mut buf = TextBuffer::from("old");
    buf.set("new text");
    assert_eq!(buf.text(), "new text");
    assert_eq!(buf.cursor_char_index(), 8);
}

#[test]
fn test_delete_word_back_simple() {
    let mut buf = TextBuffer::from("hello world");
    buf.delete_word_back();
    assert_eq!(buf.text(), "hello ");
}

#[test]
fn test_delete_word_back_trailing_spaces() {
    let mut buf = TextBuffer::from("hello   ");
    buf.delete_word_back();
    assert_eq!(buf.text(), "");
}

#[test]
fn test_delete_word_back_single_word() {
    let mut buf = TextBuffer::from("hello");
    buf.delete_word_back();
    assert_eq!(buf.text(), "");
}

#[test]
fn test_delete_word_back_multiple() {
    let mut buf = TextBuffer::from("one two three");
    buf.delete_word_back();
    assert_eq!(buf.text(), "one two ");
    buf.delete_word_back();
    assert_eq!(buf.text(), "one ");
    buf.delete_word_back();
    assert_eq!(buf.text(), "");
}

#[test]
fn test_delete_word_back_at_start() {
    let mut buf = TextBuffer::new();
    buf.delete_word_back();
    assert_eq!(buf.text(), "");
}

#[test]
fn test_utf8_multibyte() {
    let mut buf = TextBuffer::new();
    buf.insert_char('é');
    buf.insert_char('ñ');
    assert_eq!(buf.text(), "éñ");
    assert_eq!(buf.cursor_char_index(), 2);
    buf.move_left();
    assert_eq!(buf.cursor_char_index(), 1);
    buf.delete_back();
    assert_eq!(buf.text(), "ñ");
    assert_eq!(buf.cursor_char_index(), 0);
}

#[test]
fn test_utf8_emoji() {
    let mut buf = TextBuffer::new();
    buf.insert_char('🎉');
    buf.insert_char('x');
    assert_eq!(buf.text(), "🎉x");
    assert_eq!(buf.cursor_char_index(), 2);
    buf.move_left();
    buf.move_left();
    assert_eq!(buf.cursor_char_index(), 0);
    buf.move_right();
    assert_eq!(buf.cursor_char_index(), 1);
}

#[test]
fn test_newline_insert() {
    let mut buf = TextBuffer::from("ab");
    buf.move_left();
    buf.insert_char('\n');
    assert_eq!(buf.text(), "a\nb");
}
