//! The editing model shared by the single-line and multi-line text inputs.
//!
//! A text input holds a text and a byte cursor.  The cursor may be set from
//! outside to any value; every operation first snaps it back to the nearest
//! char boundary at or before it (and to the end of the text if it lies beyond
//! it), then acts on char indices.  The spec functions below state what each
//! operation produces; the executable helpers compute it.

use vstd::prelude::*;
use vstd::string::StringExecFns;
use crate::utf8_text::{
    byte_len, byte_offset, clamp_to_boundary, floor_index, lemma_byte_len_concat,
    lemma_byte_offset_le_len, lemma_byte_offset_prefix, lemma_byte_offset_suffix,
    lemma_floor_index_bounds, lemma_floor_index_of_offset, lemma_floor_index_unique,
    lemma_offset_is_char_boundary, lemma_split_at_offset, CharTable,
};

verus! {

/// The Unicode `White_Space` property: the 25 code points U+0009..U+000D,
/// U+0020, U+0085, U+00A0, U+1680, U+2000..U+200A, U+2028, U+2029, U+202F,
/// U+205F and U+3000.
pub open spec fn is_white_space(c: char) -> bool {
    let v = c as u32;
    ||| 0x9 <= v <= 0xd
    ||| v == 0x20
    ||| v == 0x85
    ||| v == 0xa0
    ||| v == 0x1680
    ||| 0x2000 <= v <= 0x200a
    ||| v == 0x2028
    ||| v == 0x2029
    ||| v == 0x202f
    ||| v == 0x205f
    ||| v == 0x3000
}

/// The Unicode general category `Cc` (control codes): U+0000..U+001F and
/// U+007F..U+009F.
pub open spec fn is_control_char(c: char) -> bool {
    let v = c as u32;
    v <= 0x1f || (0x7f <= v <= 0x9f)
}

/// Whether `c` has the Unicode `White_Space` property (what
/// `char::is_whitespace` answers).
pub fn char_is_whitespace(c: char) -> (r: bool)
    ensures
        r == is_white_space(c),
{
    let v = c as u32;
    (0x9 <= v && v <= 0xd) || v == 0x20 || v == 0x85 || v == 0xa0 || v == 0x1680 || (0x2000 <= v
        && v <= 0x200a) || v == 0x2028 || v == 0x2029 || v == 0x202f || v == 0x205f || v == 0x3000
}

/// Whether `c` is in the Unicode general category `Cc` (what
/// `char::is_control` answers).
pub fn char_is_control(c: char) -> (r: bool)
    ensures
        r == is_control_char(c),
{
    let v = c as u32;
    v <= 0x1f || (0x7f <= v && v <= 0x9f)
}

/// Char index of the cursor after it has been snapped to a boundary.
pub open spec fn cursor_index(cs: Seq<char>, cursor: int) -> int {
    floor_index(cs, cursor) as int
}

/// Walks back from char index `k` over chars whose whitespace-ness is `ws`.
pub open spec fn skip_back(cs: Seq<char>, k: int, ws: bool) -> int
    decreases k,
{
    if k > 0 && k <= cs.len() && is_white_space(cs[k - 1]) == ws {
        skip_back(cs, k - 1, ws)
    } else {
        k
    }
}

/// Walks forward from char index `k` over chars whose whitespace-ness is `ws`.
pub open spec fn skip_forward(cs: Seq<char>, k: int, ws: bool) -> int
    decreases cs.len() - k,
{
    if 0 <= k < cs.len() && is_white_space(cs[k]) == ws {
        skip_forward(cs, k + 1, ws)
    } else {
        k
    }
}

/// Text after inserting `ins` at the cursor.
pub open spec fn inserted_text(cs: Seq<char>, cursor: int, ins: Seq<char>) -> Seq<char> {
    let k = cursor_index(cs, cursor);
    cs.take(k) + ins + cs.skip(k)
}

/// Cursor after inserting `ins` at the cursor: just past the inserted text.
pub open spec fn inserted_cursor(cs: Seq<char>, cursor: int, ins: Seq<char>) -> int {
    (byte_offset(cs, cursor_index(cs, cursor)) + byte_len(ins)) as int
}

/// Text after a backspace: the char before the cursor is gone (none at the start).
pub open spec fn backspace_text(cs: Seq<char>, cursor: int) -> Seq<char> {
    let k = cursor_index(cs, cursor);
    if k == 0 {
        cs
    } else {
        cs.take(k - 1) + cs.skip(k)
    }
}

/// Cursor after a backspace: where the removed char started; unchanged at the start.
pub open spec fn backspace_cursor(cs: Seq<char>, cursor: int) -> int {
    let k = cursor_index(cs, cursor);
    if k == 0 {
        cursor
    } else {
        byte_offset(cs, k - 1) as int
    }
}

/// Cursor one char to the left (stays at 0 at the start).
pub open spec fn left_cursor(cs: Seq<char>, cursor: int) -> int {
    let k = cursor_index(cs, cursor);
    if k == 0 {
        0
    } else {
        byte_offset(cs, k - 1) as int
    }
}

/// Text after deleting the char after the cursor (nothing at the end).
pub open spec fn delete_forward_text(cs: Seq<char>, cursor: int) -> Seq<char> {
    let k = cursor_index(cs, cursor);
    if k >= cs.len() {
        cs
    } else {
        cs.take(k) + cs.skip(k + 1)
    }
}

/// Cursor one word to the left: back over whitespace, then back over the word.
pub open spec fn word_left_cursor(cs: Seq<char>, cursor: int) -> int {
    let k = cursor_index(cs, cursor);
    byte_offset(cs, skip_back(cs, skip_back(cs, k, true), false)) as int
}

/// Cursor one word to the right: forward over the word, then over whitespace.
pub open spec fn word_right_cursor(cs: Seq<char>, cursor: int) -> int {
    let k = cursor_index(cs, cursor);
    byte_offset(cs, skip_forward(cs, skip_forward(cs, k, false), true)) as int
}

proof fn lemma_skip_back_bounds(cs: Seq<char>, k: int, ws: bool)
    requires
        0 <= k <= cs.len(),
    ensures
        0 <= skip_back(cs, k, ws) <= k,
    decreases k,
{
    if k > 0 && is_white_space(cs[k - 1]) == ws {
        lemma_skip_back_bounds(cs, k - 1, ws);
    }
}

proof fn lemma_skip_forward_bounds(cs: Seq<char>, k: int, ws: bool)
    requires
        0 <= k <= cs.len(),
    ensures
        k <= skip_forward(cs, k, ws) <= cs.len(),
    decreases cs.len() - k,
{
    if k < cs.len() && is_white_space(cs[k]) == ws {
        lemma_skip_forward_bounds(cs, k + 1, ws);
    }
}


/// `cursor` lies on a char boundary of `cs` (snapping it changes nothing).
pub open spec fn on_boundary(cs: Seq<char>, cursor: int) -> bool {
    clamp_to_boundary(cs, cursor) == cursor
}

/// The offset of every char index is a boundary.
pub proof fn lemma_offset_on_boundary(cs: Seq<char>, k: int)
    requires
        0 <= k <= cs.len(),
    ensures
        on_boundary(cs, byte_offset(cs, k) as int),
{
    lemma_floor_index_of_offset(cs, k);
}

/// A cursor on a boundary is the offset of its own char index.
pub proof fn lemma_on_boundary_offset(cs: Seq<char>, cursor: int)
    requires
        0 <= cursor,
        on_boundary(cs, cursor),
    ensures
        cursor == byte_offset(cs, cursor_index(cs, cursor)),
        0 <= cursor_index(cs, cursor) <= cs.len(),
{
    lemma_floor_index_bounds(cs, cursor);
}

/// Inserting text always leaves the cursor on a char boundary, just after
/// the inserted text.
pub proof fn lemma_insert_cursor_on_boundary(cs: Seq<char>, cursor: int, ins: Seq<char>)
    requires
        0 <= cursor,
    ensures
        on_boundary(inserted_text(cs, cursor, ins), inserted_cursor(cs, cursor, ins)),
        inserted_cursor(cs, cursor, ins) == byte_offset(
            inserted_text(cs, cursor, ins),
            cursor_index(cs, cursor) + ins.len(),
        ),
{
    let k = cursor_index(cs, cursor);
    lemma_floor_index_bounds(cs, cursor);
    let t = inserted_text(cs, cursor, ins);
    assert(t.take(k + ins.len()) =~= cs.take(k) + ins);
    lemma_byte_len_concat(cs.take(k), ins);
    lemma_offset_on_boundary(t, k + ins.len());
}

/// Moving left always leaves the cursor on a char boundary.
pub proof fn lemma_left_on_boundary(cs: Seq<char>, cursor: int)
    requires
        0 <= cursor,
    ensures
        on_boundary(cs, left_cursor(cs, cursor)),
{
    lemma_floor_index_bounds(cs, cursor);
    let k = cursor_index(cs, cursor);
    if k == 0 {
        lemma_offset_on_boundary(cs, 0);
        crate::utf8_text::lemma_byte_offset_ends(cs);
    } else {
        lemma_offset_on_boundary(cs, k - 1);
    }
}

/// Word-wise moves always leave the cursor on a char boundary.
pub proof fn lemma_word_moves_on_boundary(cs: Seq<char>, cursor: int)
    requires
        0 <= cursor,
    ensures
        on_boundary(cs, word_left_cursor(cs, cursor)),
        on_boundary(cs, word_right_cursor(cs, cursor)),
{
    lemma_floor_index_bounds(cs, cursor);
    let k = cursor_index(cs, cursor);
    lemma_skip_back_bounds(cs, k, true);
    lemma_skip_back_bounds(cs, skip_back(cs, k, true), false);
    lemma_skip_forward_bounds(cs, k, false);
    lemma_skip_forward_bounds(cs, skip_forward(cs, k, false), true);
    lemma_offset_on_boundary(cs, skip_back(cs, skip_back(cs, k, true), false));
    lemma_offset_on_boundary(cs, skip_forward(cs, skip_forward(cs, k, false), true));
}

/// A backspace keeps a cursor that is on a char boundary on one.
pub proof fn lemma_backspace_keeps_boundary(cs: Seq<char>, cursor: int)
    requires
        0 <= cursor,
        on_boundary(cs, cursor),
    ensures
        on_boundary(backspace_text(cs, cursor), backspace_cursor(cs, cursor)),
{
    lemma_on_boundary_offset(cs, cursor);
    let k = cursor_index(cs, cursor);
    if k > 0 {
        let t = backspace_text(cs, cursor);
        assert(t.take(k - 1) =~= cs.take(k - 1));
        lemma_offset_on_boundary(t, k - 1);
    }
}

/// A forward delete keeps a cursor that is on a char boundary on one.
pub proof fn lemma_delete_forward_keeps_boundary(cs: Seq<char>, cursor: int)
    requires
        0 <= cursor,
        on_boundary(cs, cursor),
    ensures
        on_boundary(delete_forward_text(cs, cursor), cursor),
{
    lemma_on_boundary_offset(cs, cursor);
    let k = cursor_index(cs, cursor);
    if k < cs.len() {
        let t = delete_forward_text(cs, cursor);
        assert(t.take(k) =~= cs.take(k));
        lemma_offset_on_boundary(t, k);
    }
}

/// Typing a char and then pressing backspace gives back the original text,
/// with the cursor snapped to the boundary where the char was typed.
pub proof fn lemma_insert_then_backspace(cs: Seq<char>, cursor: int, c: char)
    requires
        0 <= cursor,
    ensures
        backspace_text(inserted_text(cs, cursor, seq![c]), inserted_cursor(cs, cursor, seq![c]))
            == cs,
        backspace_cursor(inserted_text(cs, cursor, seq![c]), inserted_cursor(cs, cursor, seq![c]))
            == clamp_to_boundary(cs, cursor),
{
    let k = cursor_index(cs, cursor);
    lemma_floor_index_bounds(cs, cursor);
    let t = inserted_text(cs, cursor, seq![c]);
    lemma_insert_cursor_on_boundary(cs, cursor, seq![c]);
    lemma_floor_index_of_offset(t, k + 1);
    assert(t.take(k) + t.skip(k + 1) =~= cs);
    assert(t.take(k) =~= cs.take(k));
}

/// Pressing backspace away from the start does what moving left and then
/// deleting forward does.
pub proof fn lemma_backspace_is_left_then_delete(cs: Seq<char>, cursor: int)
    requires
        0 <= cursor,
        cursor_index(cs, cursor) > 0,
    ensures
        backspace_text(cs, cursor) == delete_forward_text(cs, left_cursor(cs, cursor)),
        backspace_cursor(cs, cursor) == left_cursor(cs, cursor),
{
    let k = cursor_index(cs, cursor);
    lemma_floor_index_bounds(cs, cursor);
    lemma_floor_index_of_offset(cs, k - 1);
}

impl CharTable {
    /// The table is the table of its own chars.
    pub open spec fn valid(&self) -> bool {
        self.describes(self.chars@)
    }

    /// Char index of the last boundary at or before byte `pos`.
    pub fn floor_of(&self, pos: usize) -> (k: usize)
        requires
            self.valid(),
        ensures
            k == floor_index(self.chars@, pos as int),
            k <= self.chars@.len(),
    {
        let n = self.chars.len();
        let mut k: usize = 0;
        while k < n && self.offsets[k + 1] <= pos
            invariant
                self.valid(),
                n == self.chars@.len(),
                k <= n,
                self.offsets@[k as int] <= pos,
            decreases n - k,
        {
            k = k + 1;
        }
        proof {
            lemma_floor_index_unique(self.chars@, pos as int, k as int);
        }
        k
    }

    /// Walks back from `k` over chars whose whitespace-ness is `ws`.
    pub fn skip_back(&self, k: usize, ws: bool) -> (r: usize)
        requires
            self.valid(),
            k <= self.chars@.len(),
        ensures
            r == skip_back(self.chars@, k as int, ws),
            r <= k,
    {
        let mut i = k;
        while i > 0 && char_is_whitespace(self.chars[i - 1]) == ws
            invariant
                self.valid(),
                i <= k <= self.chars@.len(),
                skip_back(self.chars@, i as int, ws) == skip_back(self.chars@, k as int, ws),
            decreases i,
        {
            i = i - 1;
        }
        i
    }

    /// Walks forward from `k` over chars whose whitespace-ness is `ws`.
    pub fn skip_forward(&self, k: usize, ws: bool) -> (r: usize)
        requires
            self.valid(),
            k <= self.chars@.len(),
        ensures
            r == skip_forward(self.chars@, k as int, ws),
            k <= r <= self.chars@.len(),
    {
        let n = self.chars.len();
        let mut i = k;
        while i < n && char_is_whitespace(self.chars[i]) == ws
            invariant
                self.valid(),
                n == self.chars@.len(),
                k <= i <= n,
                skip_forward(self.chars@, i as int, ws) == skip_forward(self.chars@, k as int, ws),
            decreases n - i,
        {
            i = i + 1;
        }
        i
    }
}

/// `s` with its chars `from..to` removed.
pub fn cut(s: &str, t: &CharTable, from: usize, to: usize) -> (r: String)
    requires
        t.describes(s@),
        from <= to <= s@.len(),
    ensures
        r@ == s@.take(from as int) + s@.skip(to as int),
{
    let a = t.offsets[from];
    let b = t.offsets[to];
    proof {
        lemma_offset_is_char_boundary(s@, from as int);
        lemma_offset_is_char_boundary(s@, to as int);
        lemma_byte_offset_le_len(s@, from as int);
        lemma_byte_offset_le_len(s@, to as int);
    }
    let (left, left_rest) = s.split_at(a);
    let (right_head, right) = s.split_at(b);
    proof {
        lemma_split_at_offset(s@, from as int, left@, left_rest@);
        lemma_split_at_offset(s@, to as int, right_head@, right@);
    }
    let mut r = left.to_owned();
    r.append(right);
    r
}

/// Calls `String::push`, which appends `c` to `s`.
#[verifier::external_body]
pub(crate) fn string_push(s: &mut String, c: char)
    ensures
        final(s)@ == old(s)@.push(c),
{
    s.push(c);
}

/// `s` with its chars `from..to` replaced by `ins`.
pub fn splice(s: &str, t: &CharTable, from: usize, to: usize, ins: &str) -> (r: String)
    requires
        t.describes(s@),
        from <= to <= s@.len(),
    ensures
        r@ == s@.take(from as int) + ins@ + s@.skip(to as int),
{
    let a = t.offsets[from];
    let b = t.offsets[to];
    proof {
        lemma_offset_is_char_boundary(s@, from as int);
        lemma_offset_is_char_boundary(s@, to as int);
        lemma_byte_offset_le_len(s@, from as int);
        lemma_byte_offset_le_len(s@, to as int);
    }
    let (left, left_rest) = s.split_at(a);
    let (right_head, right) = s.split_at(b);
    proof {
        lemma_split_at_offset(s@, from as int, left@, left_rest@);
        lemma_split_at_offset(s@, to as int, right_head@, right@);
    }
    let mut r = left.to_owned();
    r.append(ins);
    r.append(right);
    r
}

} // verus!
