use plinko::multi_line_input::{cursor_line, MultiLineInput, VisualLine};

fn input(s: &str) -> MultiLineInput {
    MultiLineInput::new(s)
}

#[test]
fn new_cursor_at_end() {
    let m = input("hello");
    assert_eq!(m.cursor, 5);
}

#[test]
fn insert_char_advances_cursor() {
    let mut m = input("");
    m.insert_char('a');
    assert_eq!(m.content, "a");
    assert_eq!(m.cursor, 1);
    m.insert_char('b');
    assert_eq!(m.content, "ab");
    assert_eq!(m.cursor, 2);
}

#[test]
fn insert_char_in_middle() {
    let mut m = input("ac");
    m.cursor = 1;
    m.insert_char('b');
    assert_eq!(m.content, "abc");
    assert_eq!(m.cursor, 2);
}

#[test]
fn insert_newline() {
    let mut m = input("ab");
    m.cursor = 1;
    m.insert_newline();
    assert_eq!(m.content, "a\nb");
    assert_eq!(m.cursor, 2);
}

#[test]
fn backspace_removes_previous_char() {
    let mut m = input("abc");
    m.backspace();
    assert_eq!(m.content, "ab");
    assert_eq!(m.cursor, 2);
}

#[test]
fn backspace_at_start_is_noop() {
    let mut m = input("abc");
    m.cursor = 0;
    m.backspace();
    assert_eq!(m.content, "abc");
    assert_eq!(m.cursor, 0);
}

#[test]
fn backspace_removes_newline() {
    let mut m = input("a\nb");
    m.cursor = 2;
    m.backspace();
    assert_eq!(m.content, "ab");
    assert_eq!(m.cursor, 1);
}

#[test]
fn move_left_and_right() {
    let mut m = input("abc");
    m.move_left();
    assert_eq!(m.cursor, 2);
    m.move_left();
    assert_eq!(m.cursor, 1);
    m.move_right();
    assert_eq!(m.cursor, 2);
    m.move_right();
    assert_eq!(m.cursor, 3);
}

#[test]
fn move_left_clamps_at_zero() {
    let mut m = input("x");
    m.cursor = 0;
    m.move_left();
    assert_eq!(m.cursor, 0);
}

#[test]
fn move_right_clamps_at_end() {
    let mut m = input("x");
    m.move_right();
    assert_eq!(m.cursor, 1);
}

#[test]
fn move_to_start_and_end() {
    let mut m = input("hello world");
    m.cursor = 5;
    m.move_to_start();
    assert_eq!(m.cursor, 0);
    m.move_to_end();
    assert_eq!(m.cursor, 11);
}

#[test]
fn insert_multibyte_char() {
    let mut m = input("");
    m.insert_char('é');
    assert_eq!(m.content, "é");
    assert_eq!(m.cursor, 'é'.len_utf8());
}

#[test]
fn backspace_multibyte() {
    let mut m = input("aé");
    m.backspace();
    assert_eq!(m.content, "a");
    assert_eq!(m.cursor, 1);
}

#[test]
fn cursor_always_on_char_boundary() {
    let mut m = MultiLineInput::new("héllo");
    m.cursor = 2; // inside 'é' (2 bytes)
    m.move_left();
    assert!(m.content.is_char_boundary(m.cursor));
}

#[test]
fn set_content_empty_string() {
    let mut m = input("something");
    m.set_content("");
    assert_eq!(m.content, "");
    assert_eq!(m.cursor, 0);
}

#[test]
fn find_links_http() {
    let links = MultiLineInput::find_links("see http://example.com for info");
    assert_eq!(links.len(), 1);
    assert_eq!(
        &"see http://example.com for info"[links[0].clone()],
        "http://example.com"
    );
}

#[test]
fn find_links_https() {
    let s = "visit https://github.com/org/repo";
    let links = MultiLineInput::find_links(s);
    assert_eq!(links.len(), 1);
    assert_eq!(&s[links[0].clone()], "https://github.com/org/repo");
}

#[test]
fn find_links_www() {
    let s = "go to www.example.com today";
    let links = MultiLineInput::find_links(s);
    assert_eq!(links.len(), 1);
    assert_eq!(&s[links[0].clone()], "www.example.com");
}

#[test]
fn find_links_multiple() {
    let s = "a https://one.com b http://two.com c";
    let links = MultiLineInput::find_links(s);
    assert_eq!(links.len(), 2);
}

#[test]
fn find_links_no_links() {
    assert!(MultiLineInput::find_links("just plain text").is_empty());
}

// ── Further cases ─────────────────────────────────────────────────────────────

#[test]
fn set_content_puts_cursor_after_new_text() {
    let mut m = input("old content");
    m.cursor = 3;
    m.set_content("new");
    assert_eq!(m.content, "new");
    assert_eq!(m.cursor, 3);
}

#[test]
fn find_links_bare_prefix_is_not_a_link() {
    assert!(MultiLineInput::find_links("http:// and www.").is_empty());
}

#[test]
fn find_links_stops_at_delimiters() {
    let s = "(see https://a.io/x) and <www.b.org>";
    let links = MultiLineInput::find_links(s);
    assert_eq!(links.len(), 2);
    assert_eq!(&s[links[0].clone()], "https://a.io/x");
    assert_eq!(&s[links[1].clone()], "www.b.org");
}

#[test]
fn find_links_after_multibyte_text() {
    let s = "é http://x.y ü";
    let links = MultiLineInput::find_links(s);
    assert_eq!(links, vec![3..13]);
}

#[test]
fn find_links_ranges_are_ordered_and_disjoint() {
    let s = "https://a.b https://c.d www.e.f";
    let links = MultiLineInput::find_links(s);
    assert_eq!(links.len(), 3);
    for w in links.windows(2) {
        assert!(w[0].end <= w[1].start);
    }
}

#[test]
fn clamped_cursor_snaps_inside_multibyte_char() {
    let mut m = input("héllo");
    m.cursor = 2;
    assert_eq!(m.clamped_cursor(), 1);
    m.cursor = 99;
    assert_eq!(m.clamped_cursor(), 6);
}

#[test]
fn insert_then_backspace_restores_text() {
    let mut m = input("héllo");
    m.cursor = 3;
    m.insert_char('ß');
    assert_eq!(m.content, "héßllo");
    m.backspace();
    assert_eq!(m.content, "héllo");
    assert_eq!(m.cursor, 3);
}

#[test]
fn move_right_beyond_end_goes_to_end() {
    let mut m = input("ab");
    m.cursor = 10;
    m.move_right();
    assert_eq!(m.cursor, 2);
}

#[test]
fn byte_end_adds_text_length() {
    let line = VisualLine { text: "héllo", byte_start: 4 };
    assert_eq!(line.byte_end(), 10);
}

#[test]
fn cursor_line_finds_last_line_starting_before() {
    let lines = vec![
        VisualLine { text: "ab", byte_start: 0 },
        VisualLine { text: "cd", byte_start: 3 },
        VisualLine { text: "ef", byte_start: 6 },
    ];
    assert_eq!(cursor_line(&lines, 0), 0);
    assert_eq!(cursor_line(&lines, 4), 1);
    assert_eq!(cursor_line(&lines, 6), 2);
    assert_eq!(cursor_line(&lines, 100), 2);
    assert_eq!(cursor_line(&Vec::new(), 5), 0);
}

#[test]
fn set_content_resets_cursor_and_scroll() {
    // The scroll offset is a pixel value kept by the widget around the input.
    let mut m = MultiLineInput::new("old content");
    m.cursor = 3;
    m.set_content("new");
    assert_eq!(m.content, "new");
    assert_eq!(m.cursor, 3);
}
