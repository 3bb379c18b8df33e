use fjord::editor::{Buffer, Direction, Key};

fn lines(b: &Buffer) -> Vec<String> {
    b.lines()
}

#[test]
fn new_buffer_splits_lines_like_str_lines() {
    let b = Buffer::new("one\r\ntwo\n\nthree\n", 10, 80);
    assert_eq!(lines(&b), vec!["one", "two", "", "three"]);
    assert_eq!(b.cursor(), (0, 0));
    let empty = Buffer::new("", 10, 80);
    assert_eq!(lines(&empty), Vec::<String>::new());
    let lone_cr = Buffer::new("a\r", 10, 80);
    assert_eq!(lines(&lone_cr), vec!["a\r"]);
}

#[test]
fn moving_wraps_and_snaps_to_line_end() {
    let mut b = Buffer::new("hello\nhi\nworld", 10, 80);
    b.move_cursor(Direction::Right);
    b.move_cursor(Direction::Right);
    b.move_cursor(Direction::Right);
    b.move_cursor(Direction::Right);
    assert_eq!(b.cursor(), (0, 4));
    b.move_cursor(Direction::Down);
    assert_eq!(b.cursor(), (1, 2));
    b.move_cursor(Direction::Right);
    assert_eq!(b.cursor(), (2, 0));
    b.move_cursor(Direction::Left);
    assert_eq!(b.cursor(), (1, 2));
    b.move_cursor(Direction::Up);
    assert_eq!(b.cursor(), (0, 2));
    b.move_cursor(Direction::Up);
    assert_eq!(b.cursor(), (0, 2));
}

#[test]
fn typing_then_backspace_restores_text() {
    let mut b = Buffer::new("abc\ndef", 10, 80);
    b.move_cursor(Direction::Right);
    b.insert_char('X');
    assert_eq!(lines(&b), vec!["aXbc", "def"]);
    assert_eq!(b.cursor(), (0, 2));
    b.backspace();
    assert_eq!(lines(&b), vec!["abc", "def"]);
    assert_eq!(b.cursor(), (0, 1));
}

#[test]
fn newline_then_backspace_restores_text() {
    for col in 0..4 {
        let mut b = Buffer::new("abc\ndef", 10, 80);
        for _ in 0..col {
            b.move_cursor(Direction::Right);
        }
        b.insert_newline();
        assert_eq!(b.cursor(), (1, 0));
        assert_eq!(lines(&b).len(), 3);
        b.backspace();
        assert_eq!(lines(&b), vec!["abc", "def"]);
        assert_eq!(b.cursor(), (0, col));
    }
}

#[test]
fn backspace_at_start_of_buffer_changes_nothing() {
    let mut b = Buffer::new("ab\ncd", 10, 80);
    assert!(b.can_backspace());
    b.backspace();
    assert_eq!(lines(&b), vec!["ab", "cd"]);
    assert_eq!(b.cursor(), (0, 0));
    let mut one = Buffer::new("xy", 10, 80);
    assert!(one.accepts(Key::Backspace));
    assert!(one.handle_key(Key::Backspace));
    assert_eq!(lines(&one), vec!["xy"]);
    assert_eq!(one.cursor(), (0, 0));
    b.move_cursor(Direction::Down);
    b.backspace();
    assert_eq!(lines(&b), vec!["abcd"]);
    assert_eq!(b.cursor(), (0, 2));
}

#[test]
fn window_follows_cursor() {
    let mut b = Buffer::new("1\n2\n3\n4\n5", 2, 80);
    b.move_cursor(Direction::Down);
    b.move_cursor(Direction::Down);
    assert_eq!(b.top_line(), 1);
    assert_eq!(b.cursor_screen_pos(), (0, 1));
    b.move_cursor(Direction::Down);
    b.move_cursor(Direction::Down);
    assert_eq!(b.top_line(), 3);
    b.move_cursor(Direction::Up);
    b.move_cursor(Direction::Up);
    b.move_cursor(Direction::Up);
    assert_eq!(b.top_line(), 1);
    assert_eq!(b.visible_rows(), Some(vec!["2".to_string(), "3".to_string()]));
}

#[test]
fn visible_rows_are_cut_to_width() {
    let b = Buffer::new("abcdef\nxy", 5, 3);
    assert_eq!(b.visible_rows(), Some(vec!["abc".to_string(), "xy".to_string()]));
}

#[test]
fn keys_drive_the_buffer() {
    let mut b = Buffer::new("", 5, 10);
    assert!(b.handle_key(Key::Enter));
    assert_eq!(lines(&b), vec![""]);
    assert_eq!(b.cursor(), (0, 0));
    assert!(b.handle_key(Key::Char('h')));
    assert!(b.handle_key(Key::Char('i')));
    assert!(b.handle_key(Key::Enter));
    assert!(b.handle_key(Key::Char('!')));
    assert!(b.handle_key(Key::Backspace));
    assert!(b.handle_key(Key::Backspace));
    assert!(b.handle_key(Key::Other));
    assert_eq!(lines(&b), vec!["hi"]);
    assert!(b.handle_key(Key::Backspace));
    assert!(b.handle_key(Key::Backspace));
    assert_eq!(lines(&b), vec![""]);
    assert!(b.can_backspace());
    assert!(b.handle_key(Key::Backspace));
    assert_eq!(lines(&b), vec![""]);
    assert!(!b.handle_key(Key::Quit));
}

#[test]
fn columns_count_bytes_of_utf8() {
    let mut b = Buffer::new("\u{e9}t\u{e9}", 5, 80);
    assert_eq!(b.current_line_len(), 5);
    b.move_cursor(Direction::Right);
    assert_eq!(b.cursor(), (0, 1));
    // The cursor stands inside a character: typing there is refused.
    assert!(!b.accepts(Key::Char('x')));
    assert!(!b.accepts(Key::Enter));
    b.move_cursor(Direction::Right);
    assert_eq!(b.cursor(), (0, 2));
    assert!(b.accepts(Key::Char('x')));
    assert!(b.handle_key(Key::Char('x')));
    assert_eq!(lines(&b), vec!["\u{e9}xt\u{e9}"]);
    assert_eq!(b.cursor(), (0, 3));
    b.move_cursor(Direction::Down);
    assert_eq!(b.cursor(), (0, 3));
    b.move_cursor(Direction::Right);
    b.move_cursor(Direction::Right);
    b.move_cursor(Direction::Right);
    assert_eq!(b.cursor(), (0, 6));
    b.move_cursor(Direction::Right);
    assert_eq!(b.cursor(), (0, 6));
}

#[test]
fn backspace_inside_a_character_removes_it() {
    let mut b = Buffer::new("\u{e9}x", 5, 80);
    b.move_cursor(Direction::Right);
    assert_eq!(b.cursor(), (0, 1));
    assert!(b.accepts(Key::Backspace));
    b.backspace();
    assert_eq!(lines(&b), vec!["x"]);
    assert_eq!(b.cursor(), (0, 0));
}

#[test]
fn backspace_after_a_wide_character_is_refused() {
    let mut b = Buffer::new("\u{e9}", 5, 80);
    b.move_cursor(Direction::Right);
    b.move_cursor(Direction::Right);
    assert_eq!(b.cursor(), (0, 2));
    assert!(!b.can_backspace());
    assert!(!b.accepts(Key::Backspace));
}

#[test]
fn window_cut_inside_a_character_gives_none() {
    let b = Buffer::new("a\u{e9}b\nxy", 5, 2);
    assert_eq!(b.visible_rows(), None);
    let c = Buffer::new("a\u{e9}b\nxy", 5, 3);
    assert_eq!(c.visible_rows(), Some(vec!["a\u{e9}".to_string(), "xy".to_string()]));
}

#[test]
fn buffer_without_lines_takes_only_keys_that_need_no_line() {
    let mut b = Buffer::new("", 5, 10);
    assert!(b.accepts(Key::Up));
    assert!(b.accepts(Key::Left));
    assert!(b.accepts(Key::Enter));
    assert!(b.accepts(Key::Quit));
    assert!(b.accepts(Key::Other));
    assert!(!b.accepts(Key::Down));
    assert!(!b.accepts(Key::Right));
    assert!(b.accepts(Key::Backspace));
    assert!(!b.accepts(Key::Char('a')));
    assert!(b.handle_key(Key::Backspace));
    assert!(b.handle_key(Key::Up));
    assert!(b.handle_key(Key::Left));
    assert_eq!(lines(&b), Vec::<String>::new());
    assert_eq!(b.cursor(), (0, 0));
    assert_eq!(b.visible_rows(), Some(Vec::new()));
    assert!(b.handle_key(Key::Enter));
    assert_eq!(lines(&b), vec![""]);
    assert_eq!(b.cursor(), (0, 0));
}
