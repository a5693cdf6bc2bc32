//! A simple single-line text input component with cursor navigation.

use vstd::prelude::*;
use crate::editing::{
    backspace_cursor, backspace_text, char_is_control, cut, delete_forward_text, inserted_cursor,
    inserted_text, is_control_char, left_cursor, splice, string_push, word_left_cursor,
    word_right_cursor, cursor_index, lemma_offset_on_boundary, on_boundary,
};
use crate::utf8_text::{
    byte_len, byte_offset, clamp_to_boundary, fits, lemma_byte_len_concat, lemma_byte_offset_le_len,
    lemma_char_width_bounds, lemma_encode_single, CharTable,
};

verus! {

/// A key press, as far as text editing is concerned.
pub enum EditKey {
    Backspace,
    Delete,
    ArrowLeft,
    ArrowRight,
    Home,
    End,
    Space,
    /// A key that produces text.
    Character(String),
    /// Any other key (Tab, Enter, Escape, …), left to the caller.
    Other,
}

/// No char of `cs` is a control code.
pub open spec fn all_printable(cs: Seq<char>) -> bool {
    forall|i: int| 0 <= i < cs.len() ==> !is_control_char(#[trigger] cs[i])
}

/// `cs` with every newline and carriage return replaced by a space.
pub open spec fn paste_filtered(cs: Seq<char>) -> Seq<char> {
    cs.map_values(|c: char| if c == '\n' || c == '\r' { ' ' } else { c })
}

/// Single-line text input with a byte-index cursor.
pub struct TextInput {
    pub content: String,
    /// Byte index into `content`; the editing operations treat it as the
    /// nearest char boundary at or before it.
    pub cursor: usize,
    pub focused: bool,
}

/// Cursor after moving one char to the right: unchanged at the end.
pub open spec fn right_cursor(cs: Seq<char>, cursor: int) -> int {
    let k = cursor_index(cs, cursor);
    if k >= cs.len() {
        cursor
    } else {
        byte_offset(cs, k + 1) as int
    }
}

/// Moving right from a cursor before the end of the text advances it by
/// exactly one char, onto the next char boundary, and moving left from there
/// comes back to where the cursor stood (snapped to a boundary).
pub proof fn lemma_right_advances_one_char(cs: Seq<char>, cursor: int)
    requires
        0 <= cursor,
        cursor_index(cs, cursor) < cs.len(),
    ensures
        cursor_index(cs, right_cursor(cs, cursor)) == cursor_index(cs, cursor) + 1,
        right_cursor(cs, cursor) > clamp_to_boundary(cs, cursor),
        left_cursor(cs, right_cursor(cs, cursor)) == clamp_to_boundary(cs, cursor),
{
    let k = cursor_index(cs, cursor);
    crate::utf8_text::lemma_floor_index_bounds(cs, cursor);
    crate::utf8_text::lemma_floor_index_of_offset(cs, k + 1);
    crate::utf8_text::lemma_byte_offset_strict_mono(cs, k, k + 1);
}

/// Moving right keeps a cursor that is on a char boundary on one.
pub proof fn lemma_right_keeps_boundary(cs: Seq<char>, cursor: int)
    requires
        0 <= cursor,
        on_boundary(cs, cursor),
    ensures
        on_boundary(cs, right_cursor(cs, cursor)),
{
    crate::utf8_text::lemma_floor_index_bounds(cs, cursor);
    let k = cursor_index(cs, cursor);
    if k < cs.len() {
        lemma_offset_on_boundary(cs, k + 1);
    }
}

proof fn lemma_take_skip_len(cs: Seq<char>, k: int)
    requires
        0 <= k <= cs.len(),
    ensures
        byte_len(cs.take(k)) + byte_len(cs.skip(k)) == byte_len(cs),
{
    assert(cs =~= cs.take(k) + cs.skip(k));
    lemma_byte_len_concat(cs.take(k), cs.skip(k));
}

/// Replacing newlines and carriage returns by spaces keeps the byte length.
pub proof fn lemma_paste_filtered_len(cs: Seq<char>)
    ensures
        paste_filtered(cs).len() == cs.len(),
        byte_len(paste_filtered(cs)) == byte_len(cs),
    decreases cs.len(),
{
    if cs.len() > 0 {
        let rest = cs.drop_first();
        lemma_paste_filtered_len(rest);
        assert(paste_filtered(cs) =~= seq![paste_filtered(cs)[0]] + paste_filtered(rest));
        assert(cs =~= seq![cs[0]] + rest);
        lemma_byte_len_concat(seq![paste_filtered(cs)[0]], paste_filtered(rest));
        lemma_byte_len_concat(seq![cs[0]], rest);
        lemma_encode_single(cs[0]);
        lemma_encode_single(paste_filtered(cs)[0]);
    }
}

impl TextInput {
    /// The content fits in memory (always true of a real string).
    pub open spec fn wf(&self) -> bool {
        fits(self.content@)
    }

    /// Create a new `TextInput` with the given initial content.
    /// The cursor is placed at the end.
    pub fn new(content: &str) -> (r: Self)
        requires
            fits(content@),
        ensures
            r.content@ == content@,
            r.cursor == byte_len(content@),
            !r.focused,
            r.wf(),
    {
        let content = content.to_owned();
        let cursor = content.as_str().len();
        TextInput { content, cursor, focused: false }
    }

    /// Replace the content and reset the cursor to the end.
    pub fn set_content(&mut self, s: &str)
        requires
            fits(s@),
        ensures
            final(self).content@ == s@,
            final(self).cursor == byte_len(s@),
            final(self).focused == old(self).focused,
            final(self).wf(),
    {
        self.content = s.to_owned();
        self.cursor = self.content.as_str().len();
    }

    /// Insert a string at the cursor position and advance the cursor past it.
    pub fn insert_str(&mut self, s: &str)
        requires
            old(self).wf(),
            byte_len(old(self).content@) + byte_len(s@) <= usize::MAX,
        ensures
            final(self).content@ == inserted_text(old(self).content@, old(self).cursor as int, s@),
            final(self).cursor == inserted_cursor(old(self).content@, old(self).cursor as int, s@),
            final(self).focused == old(self).focused,
            final(self).wf(),
    {
        let ghost cs = self.content@;
        let t = CharTable::of(self.content.as_str());
        let k = t.floor_of(self.cursor);
        let r = splice(self.content.as_str(), &t, k, k, s);
        proof {
            lemma_byte_offset_le_len(cs, k as int);
            lemma_take_skip_len(cs, k as int);
            lemma_byte_len_concat(cs.take(k as int), s@);
            lemma_byte_len_concat(cs.take(k as int) + s@, cs.skip(k as int));
        }
        self.content = r;
        self.cursor = t.offsets[k] + s.len();
    }

    /// Delete the character immediately before the cursor (backspace).
    /// Does nothing if the cursor is at position 0.
    pub fn backspace(&mut self)
        requires
            old(self).wf(),
        ensures
            final(self).content@ == backspace_text(old(self).content@, old(self).cursor as int),
            final(self).cursor == backspace_cursor(old(self).content@, old(self).cursor as int),
            final(self).focused == old(self).focused,
            final(self).wf(),
    {
        let ghost cs = self.content@;
        let t = CharTable::of(self.content.as_str());
        let k = t.floor_of(self.cursor);
        if k == 0 {
            return;
        }
        let r = cut(self.content.as_str(), &t, k - 1, k);
        proof {
            lemma_take_skip_len(cs, k - 1);
            lemma_take_skip_len(cs, k as int);
            assert(cs.skip(k - 1) =~= seq![cs[k - 1]] + cs.skip(k as int));
            lemma_byte_len_concat(seq![cs[k - 1]], cs.skip(k as int));
            lemma_byte_len_concat(cs.take(k - 1), cs.skip(k as int));
        }
        self.content = r;
        self.cursor = t.offsets[k - 1];
    }

    /// Move the cursor one character to the left.
    pub fn move_left(&mut self)
        requires
            old(self).wf(),
        ensures
            final(self).content == old(self).content,
            final(self).cursor == left_cursor(old(self).content@, old(self).cursor as int),
            final(self).focused == old(self).focused,
    {
        let t = CharTable::of(self.content.as_str());
        let k = t.floor_of(self.cursor);
        self.cursor = if k == 0 {
            0
        } else {
            t.offsets[k - 1]
        };
    }

    /// Move the cursor one character to the right.
    pub fn move_right(&mut self)
        requires
            old(self).wf(),
        ensures
            final(self).content == old(self).content,
            final(self).cursor == right_cursor(old(self).content@, old(self).cursor as int),
            final(self).focused == old(self).focused,
    {
        let t = CharTable::of(self.content.as_str());
        let k = t.floor_of(self.cursor);
        if k >= t.chars.len() {
            return;
        }
        self.cursor = t.offsets[k + 1];
    }

    /// Move the cursor to the beginning of the content.
    pub fn move_home(&mut self)
        ensures
            final(self).content == old(self).content,
            final(self).cursor == 0,
            final(self).focused == old(self).focused,
    {
        self.cursor = 0;
    }

    /// Move the cursor to the end of the content.
    pub fn move_end(&mut self)
        requires
            old(self).wf(),
        ensures
            final(self).content == old(self).content,
            final(self).cursor == byte_len(old(self).content@),
            final(self).focused == old(self).focused,
    {
        self.cursor = self.content.as_str().len();
    }

    /// Delete the character immediately after the cursor (forward delete / Delete key).
    /// Does nothing if the cursor is at the end.
    pub fn delete_forward(&mut self)
        requires
            old(self).wf(),
        ensures
            final(self).content@ == delete_forward_text(old(self).content@, old(self).cursor as int),
            final(self).cursor == old(self).cursor,
            final(self).focused == old(self).focused,
            final(self).wf(),
    {
        let ghost cs = self.content@;
        let t = CharTable::of(self.content.as_str());
        let k = t.floor_of(self.cursor);
        if k >= t.chars.len() {
            return;
        }
        let r = cut(self.content.as_str(), &t, k, k + 1);
        proof {
            lemma_take_skip_len(cs, k as int);
            assert(cs.skip(k as int) =~= seq![cs[k as int]] + cs.skip(k + 1));
            lemma_byte_len_concat(seq![cs[k as int]], cs.skip(k + 1));
            lemma_byte_len_concat(cs.take(k as int), cs.skip(k + 1));
        }
        self.content = r;
    }

    /// Move the cursor one word to the left (Ctrl+Left).
    pub fn move_word_left(&mut self)
        requires
            old(self).wf(),
        ensures
            final(self).content == old(self).content,
            final(self).cursor == word_left_cursor(old(self).content@, old(self).cursor as int),
            final(self).focused == old(self).focused,
    {
        let t = CharTable::of(self.content.as_str());
        let k = t.floor_of(self.cursor);
        let k = t.skip_back(k, true);
        let k = t.skip_back(k, false);
        self.cursor = t.offsets[k];
    }

    /// Move the cursor one word to the right (Ctrl+Right).
    pub fn move_word_right(&mut self)
        requires
            old(self).wf(),
        ensures
            final(self).content == old(self).content,
            final(self).cursor == word_right_cursor(old(self).content@, old(self).cursor as int),
            final(self).focused == old(self).focused,
    {
        let t = CharTable::of(self.content.as_str());
        let k = t.floor_of(self.cursor);
        let k = t.skip_forward(k, false);
        let k = t.skip_forward(k, true);
        self.cursor = t.offsets[k];
    }

    /// Handle a keyboard key for standard single-line editing.
    ///
    /// Returns `true` if the key was consumed (and the caller should redraw).
    /// Returns `false` for keys the caller must handle (Tab, Enter, Escape, …).
    pub fn handle_key(&mut self, key: &EditKey, control: bool) -> (consumed: bool)
        requires
            old(self).wf(),
            key is Space ==> byte_len(old(self).content@) + 1 <= usize::MAX,
            key matches EditKey::Character(s) ==> byte_len(old(self).content@) + byte_len(s@)
                <= usize::MAX,
        ensures
            final(self).focused == old(self).focused,
            final(self).wf(),
            *key is Backspace ==> consumed && final(self).content@ == backspace_text(
                old(self).content@,
                old(self).cursor as int,
            ) && final(self).cursor == backspace_cursor(old(self).content@, old(self).cursor as int),
            *key is Delete ==> consumed && final(self).content@ == delete_forward_text(
                old(self).content@,
                old(self).cursor as int,
            ) && final(self).cursor == old(self).cursor,
            *key is ArrowLeft ==> consumed && final(self).content == old(self).content
                && final(self).cursor == (if control {
                word_left_cursor(old(self).content@, old(self).cursor as int)
            } else {
                left_cursor(old(self).content@, old(self).cursor as int)
            }),
            *key is ArrowRight ==> consumed && final(self).content == old(self).content
                && final(self).cursor == (if control {
                word_right_cursor(old(self).content@, old(self).cursor as int)
            } else {
                right_cursor(old(self).content@, old(self).cursor as int)
            }),
            *key is Home ==> consumed && final(self).content == old(self).content
                && final(self).cursor == 0,
            *key is End ==> consumed && final(self).content == old(self).content
                && final(self).cursor == byte_len(old(self).content@),
            *key is Space ==> consumed && final(self).content@ == inserted_text(
                old(self).content@,
                old(self).cursor as int,
                seq![' '],
            ) && final(self).cursor == inserted_cursor(
                old(self).content@,
                old(self).cursor as int,
                seq![' '],
            ),
            *key matches EditKey::Character(s) ==> (consumed == all_printable(s@)) && (if consumed {
                final(self).content@ == inserted_text(old(self).content@, old(self).cursor as int, s@)
                    && final(self).cursor == inserted_cursor(
                    old(self).content@,
                    old(self).cursor as int,
                    s@,
                )
            } else {
                final(self).content == old(self).content && final(self).cursor == old(self).cursor
            }),
            *key is Other ==> !consumed && final(self).content == old(self).content
                && final(self).cursor == old(self).cursor,
    {
        match key {
            EditKey::Backspace => {
                self.backspace();
                true
            },
            EditKey::Delete => {
                self.delete_forward();
                true
            },
            EditKey::ArrowLeft => {
                if control {
                    self.move_word_left();
                } else {
                    self.move_left();
                }
                true
            },
            EditKey::ArrowRight => {
                if control {
                    self.move_word_right();
                } else {
                    self.move_right();
                }
                true
            },
            EditKey::Home => {
                self.move_home();
                true
            },
            EditKey::End => {
                self.move_end();
                true
            },
            EditKey::Space => {
                let space = " ";
                proof {
                    reveal_strlit(" ");
                    lemma_encode_single(' ');
                }
                assert(space@ =~= seq![' ']);
                self.insert_str(space);
                true
            },
            EditKey::Character(s) => {
                if printable(s.as_str()) {
                    self.insert_str(s.as_str());
                    true
                } else {
                    false
                }
            },
            EditKey::Other => false,
        }
    }

    /// Paste text into the input at the cursor, replacing newlines with spaces.
    pub fn handle_paste(&mut self, text: &str)
        requires
            old(self).wf(),
            byte_len(old(self).content@) + byte_len(text@) <= usize::MAX,
        ensures
            final(self).content@ == inserted_text(
                old(self).content@,
                old(self).cursor as int,
                paste_filtered(text@),
            ),
            final(self).cursor == inserted_cursor(
                old(self).content@,
                old(self).cursor as int,
                paste_filtered(text@),
            ),
            final(self).focused == old(self).focused,
            final(self).wf(),
    {
        let filtered = newlines_to_spaces(text);
        proof {
            lemma_paste_filtered_len(text@);
        }
        self.insert_str(filtered.as_str());
    }

    /// `self.cursor` moved back to a valid char boundary within `content`.
    fn clamped_cursor(&self) -> (r: usize)
        requires
            self.wf(),
        ensures
            r == clamp_to_boundary(self.content@, self.cursor as int),
    {
        let t = CharTable::of(self.content.as_str());
        let k = t.floor_of(self.cursor);
        t.offsets[k]
    }
}

/// Whether no char of `s` is a control code.
fn printable(s: &str) -> (r: bool)
    requires
        fits(s@),
    ensures
        r == all_printable(s@),
{
    let t = CharTable::of(s);
    let n = t.chars.len();
    let mut i: usize = 0;
    while i < n
        invariant
            t.describes(s@),
            n == s@.len(),
            i <= n,
            forall|j: int| 0 <= j < i ==> !is_control_char(#[trigger] s@[j]),
        decreases n - i,
    {
        if char_is_control(t.chars[i]) {
            return false;
        }
        i = i + 1;
    }
    true
}

/// `text` with newlines and carriage returns replaced by spaces.
fn newlines_to_spaces(text: &str) -> (r: String)
    requires
        fits(text@),
    ensures
        r@ == paste_filtered(text@),
{
    let t = CharTable::of(text);
    let n = t.chars.len();
    let mut r = String::new();
    let mut i: usize = 0;
    while i < n
        invariant
            t.describes(text@),
            n == text@.len(),
            i <= n,
            r@ == paste_filtered(text@).take(i as int),
        decreases n - i,
    {
        let c = t.chars[i];
        let d = if c == '\n' || c == '\r' {
            ' '
        } else {
            c
        };
        string_push(&mut r, d);
        assert(paste_filtered(text@).take(i + 1) =~= paste_filtered(text@).take(i as int).push(d));
        i = i + 1;
    }
    assert(paste_filtered(text@).take(n as int) =~= paste_filtered(text@));
    r
}

} // verus!
