use plinko::text_input::{EditKey, TextInput};

#[test]
fn new_puts_cursor_at_end() {
    let t = TextInput::new("héllo");
    assert_eq!(t.content, "héllo");
    assert_eq!(t.cursor, 6);
    assert!(!t.focused);
}

#[test]
fn insert_str_at_cursor() {
    let mut t = TextInput::new("ad");
    t.cursor = 1;
    t.insert_str("bc");
    assert_eq!(t.content, "abcd");
    assert_eq!(t.cursor, 3);
}

#[test]
fn insert_str_snaps_cursor_inside_multibyte_char() {
    let mut t = TextInput::new("éa");
    t.cursor = 1;
    t.insert_str("x");
    assert_eq!(t.content, "xéa");
    assert_eq!(t.cursor, 1);
}

#[test]
fn backspace_and_delete_forward() {
    let mut t = TextInput::new("aéb");
    t.cursor = 3;
    t.backspace();
    assert_eq!(t.content, "ab");
    assert_eq!(t.cursor, 1);
    t.delete_forward();
    assert_eq!(t.content, "a");
    assert_eq!(t.cursor, 1);
    t.delete_forward();
    assert_eq!(t.content, "a");
}

#[test]
fn backspace_at_start_keeps_everything() {
    let mut t = TextInput::new("ab");
    t.cursor = 0;
    t.backspace();
    assert_eq!(t.content, "ab");
    assert_eq!(t.cursor, 0);
}

#[test]
fn move_right_at_end_leaves_cursor() {
    let mut t = TextInput::new("ab");
    t.cursor = 7;
    t.move_right();
    assert_eq!(t.cursor, 7);
    t.move_left();
    assert_eq!(t.cursor, 1);
    t.move_right();
    assert_eq!(t.cursor, 2);
    t.move_home();
    assert_eq!(t.cursor, 0);
    t.move_end();
    assert_eq!(t.cursor, 2);
}

#[test]
fn word_moves() {
    let mut t = TextInput::new("foo  bar baz");
    t.move_word_left();
    assert_eq!(t.cursor, 9);
    t.move_word_left();
    assert_eq!(t.cursor, 5);
    t.move_word_left();
    assert_eq!(t.cursor, 0);
    t.move_word_right();
    assert_eq!(t.cursor, 5);
    t.move_word_right();
    assert_eq!(t.cursor, 9);
    t.move_word_right();
    assert_eq!(t.cursor, 12);
}

#[test]
fn handle_key_edits_and_reports_consumption() {
    let mut t = TextInput::new("ab");
    assert!(t.handle_key(&EditKey::Space, false));
    assert_eq!(t.content, "ab ");
    assert!(t.handle_key(&EditKey::Character("ç".to_string()), false));
    assert_eq!(t.content, "ab ç");
    assert!(!t.handle_key(&EditKey::Character("\u{7}".to_string()), false));
    assert_eq!(t.content, "ab ç");
    assert!(!t.handle_key(&EditKey::Other, false));
    assert!(t.handle_key(&EditKey::ArrowLeft, true));
    assert_eq!(t.cursor, 3);
    assert!(t.handle_key(&EditKey::Home, false));
    assert_eq!(t.cursor, 0);
    assert!(t.handle_key(&EditKey::Delete, false));
    assert_eq!(t.content, "b ç");
    assert!(t.handle_key(&EditKey::End, false));
    assert!(t.handle_key(&EditKey::Backspace, false));
    assert_eq!(t.content, "b ");
    assert!(t.handle_key(&EditKey::ArrowRight, false));
}

#[test]
fn paste_replaces_newlines() {
    let mut t = TextInput::new("");
    t.handle_paste("a\nb\r\nc");
    assert_eq!(t.content, "a b  c");
    assert_eq!(t.cursor, 6);
}

#[test]
fn set_content_moves_cursor_to_end() {
    let mut t = TextInput::new("abc");
    t.focused = true;
    t.set_content("xy");
    assert_eq!(t.content, "xy");
    assert_eq!(t.cursor, 2);
    assert!(t.focused);
}

#[test]
fn char_classes_match_std() {
    for c in (0u32..=0x10ffff).filter_map(char::from_u32) {
        assert_eq!(plinko::editing::char_is_whitespace(c), c.is_whitespace(), "{c:?}");
        assert_eq!(plinko::editing::char_is_control(c), c.is_control(), "{c:?}");
    }
}
