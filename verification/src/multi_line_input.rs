//! Multi-line text input component: editing, link detection and the
//! cursor-to-line lookup used by word-wrapped layout.

use std::ops::Range;
use vstd::prelude::*;
use crate::editing::{
    lemma_offset_on_boundary, on_boundary, backspace_cursor, backspace_text, char_is_whitespace, cursor_index, cut, inserted_cursor,
    inserted_text, is_white_space, left_cursor, splice, string_push,
};
use crate::utf8_text::{
    byte_len, byte_offset, clamp_to_boundary, fits, lemma_byte_len_concat,
    lemma_byte_offset_ends, lemma_byte_offset_le_len, lemma_byte_offset_strict_mono, lemma_encode_single, CharTable,
};

verus! {

/// A single rendered line produced by word-wrapping.
pub struct VisualLine<'a> {
    /// Slice of the original content string for this line (no trailing newline).
    pub text: &'a str,
    /// Byte offset of `text` within the full content string.
    pub byte_start: usize,
}

impl VisualLine<'_> {
    /// Byte offset just past the end of the line within the full content.
    pub fn byte_end(&self) -> (r: usize)
        requires
            self.byte_start + byte_len(self.text@) <= usize::MAX,
        ensures
            r == self.byte_start + byte_len(self.text@),
    {
        self.byte_start + self.text.len()
    }
}

/// Index of the last of the first `n` lines that starts at or before
/// `cursor`, or 0 when none does.
pub open spec fn line_of_cursor(lines: Seq<VisualLine>, cursor: int, n: int) -> int
    decreases n,
{
    if n <= 0 {
        0
    } else if lines[n - 1].byte_start <= cursor {
        n - 1
    } else {
        line_of_cursor(lines, cursor, n - 1)
    }
}

/// Index of the visual line holding `cursor`: the last line that starts at or
/// before it (0 when there is none).
pub fn cursor_line(lines: &Vec<VisualLine>, cursor: usize) -> (r: usize)
    ensures
        r == line_of_cursor(lines@, cursor as int, lines@.len() as int),
        lines@.len() > 0 ==> r < lines@.len(),
{
    let mut n = lines.len();
    while n > 0
        invariant
            n <= lines@.len(),
            line_of_cursor(lines@, cursor as int, n as int) == line_of_cursor(
                lines@,
                cursor as int,
                lines@.len() as int,
            ),
        decreases n,
    {
        if lines[n - 1].byte_start <= cursor {
            return n - 1;
        }
        n = n - 1;
    }
    0
}

/// The three prefixes that start a link: `https://`, `http://` and `www.`.
pub open spec fn link_prefix(i: int) -> Seq<char> {
    if i == 0 {
        seq!['h', 't', 't', 'p', 's', ':', '/', '/']
    } else if i == 1 {
        seq!['h', 't', 't', 'p', ':', '/', '/']
    } else {
        seq!['w', 'w', 'w', '.']
    }
}

/// `p` occurs in `cs` starting at char index `k`.
pub open spec fn has_prefix_at(cs: Seq<char>, k: int, p: Seq<char>) -> bool {
    0 <= k && k + p.len() <= cs.len() && cs.subrange(k, k + p.len()) == p
}

/// The first link prefix, in the order above, that occurs at char index `k`.
pub open spec fn prefix_at(cs: Seq<char>, k: int) -> Option<int> {
    if has_prefix_at(cs, k, link_prefix(0)) {
        Some(0)
    } else if has_prefix_at(cs, k, link_prefix(1)) {
        Some(1)
    } else if has_prefix_at(cs, k, link_prefix(2)) {
        Some(2)
    } else {
        None
    }
}

/// A char that ends a link: whitespace or one of `"`, `<`, `>`, `)`, `]`.
pub open spec fn ends_link(c: char) -> bool {
    is_white_space(c) || c == '"' || c == '<' || c == '>' || c == ')' || c == ']'
}

/// Char index of the first link-ending char at or after `j` (the end of the
/// text when there is none).
pub open spec fn link_end(cs: Seq<char>, j: int) -> int
    decreases cs.len() - j,
{
    if j < 0 || j >= cs.len() {
        cs.len() as int
    } else if ends_link(cs[j]) {
        j
    } else {
        link_end(cs, j + 1)
    }
}

/// A link starts at char index `k`: a prefix occurs there and the text up to
/// the first link-ending char is longer (in bytes) than the prefix.
pub open spec fn link_starts_at(cs: Seq<char>, k: int) -> bool {
    &&& prefix_at(cs, k) is Some
    &&& byte_offset(cs, link_end(cs, k)) - byte_offset(cs, k) > link_prefix(
        prefix_at(cs, k)->0,
    ).len()
}

/// The byte ranges of the links found scanning from char index `k`: after a
/// link the scan resumes at its end, otherwise one char further.
pub open spec fn links_from(cs: Seq<char>, k: int) -> Seq<(int, int)>
    decreases cs.len() - k,
{
    if k < 0 || k >= cs.len() {
        seq![]
    } else if link_starts_at(cs, k) {
        let e = link_end(cs, k);
        seq![(byte_offset(cs, k) as int, byte_offset(cs, e) as int)] + links_from(
            cs,
            if k < e <= cs.len() {
                e
            } else {
                k + 1
            },
        )
    } else {
        links_from(cs, k + 1)
    }
}

/// The start and end of each range.
pub open spec fn range_bounds(v: Seq<Range<usize>>) -> Seq<(int, int)> {
    v.map_values(|r: Range<usize>| (r.start as int, r.end as int))
}

/// Cursor after moving one char to the right (the end of the text at the end).
pub open spec fn next_cursor(cs: Seq<char>, cursor: int) -> int {
    let k = cursor_index(cs, cursor);
    if k >= cs.len() {
        byte_len(cs) as int
    } else {
        byte_offset(cs, k + 1) as int
    }
}

proof fn lemma_link_end_bounds(cs: Seq<char>, j: int)
    requires
        0 <= j <= cs.len(),
    ensures
        j <= link_end(cs, j) <= cs.len(),
    decreases cs.len() - j,
{
    if j < cs.len() && !ends_link(cs[j]) {
        lemma_link_end_bounds(cs, j + 1);
    }
}

proof fn lemma_links_from_ordered(cs: Seq<char>, k: int)
    requires
        0 <= k <= cs.len(),
    ensures
        forall|i: int|
            0 <= i < links_from(cs, k).len() ==> byte_offset(cs, k) <= (#[trigger] links_from(
                cs,
                k,
            )[i]).0 < links_from(cs, k)[i].1 <= byte_len(cs),
        forall|i: int, j: int|
            0 <= i < j < links_from(cs, k).len() ==> (#[trigger] links_from(cs, k)[i]).1
                <= (#[trigger] links_from(cs, k)[j]).0,
    decreases cs.len() - k,
{
    if k < cs.len() {
        lemma_link_end_bounds(cs, k);
        let e = link_end(cs, k);
        if link_starts_at(cs, k) {
            assert(e > k) by {
                if e <= k {
                    assert(e == k);
                }
            }
            lemma_byte_offset_strict_mono(cs, k, e);
            lemma_byte_offset_le_len(cs, e);
            lemma_links_from_ordered(cs, e);
            let rest = links_from(cs, e);
            let all = links_from(cs, k);
            assert(all =~= seq![(byte_offset(cs, k) as int, byte_offset(cs, e) as int)] + rest);
            assert forall|i: int| 0 <= i < all.len() implies byte_offset(cs, k) <= (
            #[trigger] all[i]).0 < all[i].1 <= byte_len(cs) by {
                if i > 0 {
                    assert(all[i] == rest[i - 1]);
                }
            }
            assert forall|i: int, j: int| 0 <= i < j < all.len() implies (#[trigger] all[i]).1
                <= (#[trigger] all[j]).0 by {
                assert(all[j] == rest[j - 1]);
                if i > 0 {
                    assert(all[i] == rest[i - 1]);
                }
            }
        } else {
            lemma_byte_offset_strict_mono(cs, k, k + 1);
            lemma_links_from_ordered(cs, k + 1);
            assert(links_from(cs, k) == links_from(cs, k + 1));
        }
    }
}

/// The links found are non-empty byte ranges inside the text, in increasing
/// order and not overlapping.
pub proof fn lemma_links_ordered(cs: Seq<char>)
    ensures
        forall|i: int|
            0 <= i < links_from(cs, 0).len() ==> 0 <= (#[trigger] links_from(cs, 0)[i]).0
                < links_from(cs, 0)[i].1 <= byte_len(cs),
        forall|i: int, j: int|
            0 <= i < j < links_from(cs, 0).len() ==> (#[trigger] links_from(cs, 0)[i]).1
                <= (#[trigger] links_from(cs, 0)[j]).0,
{
    lemma_links_from_ordered(cs, 0);
}

/// The byte range of the link that starts at char index `k`.
pub open spec fn link_range(cs: Seq<char>, k: int) -> (int, int) {
    (byte_offset(cs, k) as int, byte_offset(cs, link_end(cs, k)) as int)
}

proof fn lemma_link_end_stops(cs: Seq<char>, j: int)
    requires
        0 <= j <= cs.len(),
    ensures
        link_end(cs, j) < cs.len() ==> ends_link(cs[link_end(cs, j)]),
        forall|m: int| j <= m < link_end(cs, j) ==> !ends_link(#[trigger] cs[m]),
    decreases cs.len() - j,
{
    if j < cs.len() && !ends_link(cs[j]) {
        lemma_link_end_stops(cs, j + 1);
    }
}

/// The char indices at which the links found scanning from char index `k`
/// start (the same scan as [`links_from`]).
pub open spec fn link_starts_from(cs: Seq<char>, k: int) -> Seq<int>
    decreases cs.len() - k,
{
    if k < 0 || k >= cs.len() {
        seq![]
    } else if link_starts_at(cs, k) {
        let e = link_end(cs, k);
        seq![k] + link_starts_from(
            cs,
            if k < e <= cs.len() {
                e
            } else {
                k + 1
            },
        )
    } else {
        link_starts_from(cs, k + 1)
    }
}

proof fn lemma_links_from_sound(cs: Seq<char>, j: int)
    requires
        0 <= j <= cs.len(),
    ensures
        links_from(cs, j).len() == link_starts_from(cs, j).len(),
        forall|i: int|
            0 <= i < links_from(cs, j).len() ==> j <= #[trigger] link_starts_from(cs, j)[i]
                < cs.len() && link_starts_at(cs, link_starts_from(cs, j)[i]) && links_from(cs, j)[i]
                == link_range(cs, link_starts_from(cs, j)[i]),
    decreases cs.len() - j,
{
    if j < cs.len() {
        lemma_link_end_bounds(cs, j);
        let e = link_end(cs, j);
        if link_starts_at(cs, j) {
            assert(e > j) by {
                if e <= j {
                    assert(e == j);
                }
            }
            lemma_links_from_sound(cs, e);
            let rest = links_from(cs, e);
            let all = links_from(cs, j);
            let srest = link_starts_from(cs, e);
            let starts = link_starts_from(cs, j);
            assert(all =~= seq![link_range(cs, j)] + rest);
            assert(starts =~= seq![j] + srest);
            assert forall|i: int| 0 <= i < all.len() implies j <= #[trigger] starts[i] < cs.len()
                && link_starts_at(cs, starts[i]) && all[i] == link_range(cs, starts[i]) by {
                if i > 0 {
                    assert(all[i] == rest[i - 1]);
                    assert(starts[i] == srest[i - 1]);
                }
            }
        } else {
            lemma_links_from_sound(cs, j + 1);
            assert(links_from(cs, j) == links_from(cs, j + 1));
            assert(link_starts_from(cs, j) == link_starts_from(cs, j + 1));
        }
    }
}

proof fn lemma_links_from_complete(cs: Seq<char>, j: int, k: int)
    requires
        0 <= j <= k < cs.len(),
        link_starts_at(cs, k),
    ensures
        exists|i: int|
            0 <= i < links_from(cs, j).len() && (#[trigger] links_from(cs, j)[i]).0 <= byte_offset(
                cs,
                k,
            ) < links_from(cs, j)[i].1,
    decreases k - j,
{
    lemma_link_end_bounds(cs, j);
    let e = link_end(cs, j);
    let all = links_from(cs, j);
    if link_starts_at(cs, j) {
        assert(e > j) by {
            if e <= j {
                assert(e == j);
            }
        }
        let rest = links_from(cs, e);
        assert(all =~= seq![link_range(cs, j)] + rest);
        if k < e {
            if j < k {
                lemma_byte_offset_strict_mono(cs, j, k);
            }
            lemma_byte_offset_strict_mono(cs, k, e);
            assert(all[0].0 <= byte_offset(cs, k) < all[0].1);
        } else {
            lemma_links_from_complete(cs, e, k);
            let i = choose|i: int|
                0 <= i < rest.len() && (#[trigger] rest[i]).0 <= byte_offset(cs, k) < rest[i].1;
            assert(all[i + 1] == rest[i]);
        }
    } else {
        assert(j != k);
        lemma_links_from_complete(cs, j + 1, k);
        assert(links_from(cs, j) == links_from(cs, j + 1));
    }
}

/// Each link found is the byte range from a link prefix up to (not
/// including) the first link-ending char after it, or up to the end of the
/// text.
pub proof fn lemma_links_found(cs: Seq<char>, i: int)
    requires
        0 <= i < links_from(cs, 0).len(),
    ensures
        ({
            let k = link_starts_from(cs, 0)[i];
            &&& 0 <= k < cs.len()
            &&& prefix_at(cs, k) is Some
            &&& links_from(cs, 0)[i] == link_range(cs, k)
            &&& k < link_end(cs, k) <= cs.len()
            &&& link_end(cs, k) < cs.len() ==> ends_link(cs[link_end(cs, k)])
            &&& forall|m: int| k <= m < link_end(cs, k) ==> !ends_link(#[trigger] cs[m])
        }),
{
    lemma_links_from_sound(cs, 0);
    let k = link_starts_from(cs, 0)[i];
    lemma_link_end_stops(cs, k);
    lemma_link_end_bounds(cs, k);
    assert(link_end(cs, k) != k);
}

/// Each link found starts with `https://`, `http://` or `www.` and stops
/// before the first whitespace char (a space, a tab, a line break, …) or
/// `"`, `<`, `>`, `)`, `]` after it: no char inside it is one of those, and
/// the char right after it, if any, is.
pub proof fn lemma_links_stop_at_whitespace(cs: Seq<char>, i: int)
    requires
        0 <= i < links_from(cs, 0).len(),
    ensures
        ({
            let k = link_starts_from(cs, 0)[i];
            let m = link_end(cs, k);
            &&& 0 <= k < m <= cs.len()
            &&& links_from(cs, 0)[i] == (byte_offset(cs, k) as int, byte_offset(cs, m) as int)
            &&& (k + 8 <= cs.len() && cs.subrange(k, k + 8) == seq!['h', 't', 't', 'p', 's', ':', '/', '/'])
                || (k + 7 <= cs.len() && cs.subrange(k, k + 7) == seq!['h', 't', 't', 'p', ':', '/', '/'])
                || (k + 4 <= cs.len() && cs.subrange(k, k + 4) == seq!['w', 'w', 'w', '.'])
            &&& forall|j: int|
                k <= j < m ==> !is_white_space(#[trigger] cs[j]) && cs[j] != '"' && cs[j] != '<'
                    && cs[j] != '>' && cs[j] != ')' && cs[j] != ']'
            &&& m < cs.len() ==> (is_white_space(cs[m]) || cs[m] == '"' || cs[m] == '<' || cs[m]
                == '>' || cs[m] == ')' || cs[m] == ']')
        }),
{
    lemma_links_found(cs, i);
    let k = link_starts_from(cs, 0)[i];
    let m = link_end(cs, k);
    assert forall|j: int| k <= j < m implies !is_white_space(#[trigger] cs[j]) && cs[j] != '"'
        && cs[j] != '<' && cs[j] != '>' && cs[j] != ')' && cs[j] != ']' by {
        assert(!ends_link(cs[j]));
    }
}

/// No link is missed: wherever a link could start, that position lies within
/// a link found.
pub proof fn lemma_no_link_missed(cs: Seq<char>, k: int)
    requires
        0 <= k < cs.len(),
        link_starts_at(cs, k),
    ensures
        exists|i: int|
            0 <= i < links_from(cs, 0).len() && (#[trigger] links_from(cs, 0)[i]).0 <= byte_offset(
                cs,
                k,
            ) < links_from(cs, 0)[i].1,
{
    lemma_links_from_complete(cs, 0, k);
}

/// Moving right from a cursor before the end of the text advances it by
/// exactly one char, and moving left from there comes back to where the
/// cursor stood (snapped to a boundary).
pub proof fn lemma_next_cursor_advances_one_char(cs: Seq<char>, cursor: int)
    requires
        0 <= cursor,
        cursor_index(cs, cursor) < cs.len(),
    ensures
        cursor_index(cs, next_cursor(cs, cursor)) == cursor_index(cs, cursor) + 1,
        next_cursor(cs, cursor) > clamp_to_boundary(cs, cursor),
        left_cursor(cs, next_cursor(cs, cursor)) == clamp_to_boundary(cs, cursor),
{
    let k = cursor_index(cs, cursor);
    crate::utf8_text::lemma_floor_index_bounds(cs, cursor);
    crate::utf8_text::lemma_floor_index_of_offset(cs, k + 1);
    lemma_byte_offset_strict_mono(cs, k, k + 1);
}

/// Moving right always leaves the cursor on a char boundary.
pub proof fn lemma_next_cursor_on_boundary(cs: Seq<char>, cursor: int)
    requires
        0 <= cursor,
    ensures
        on_boundary(cs, next_cursor(cs, cursor)),
{
    crate::utf8_text::lemma_floor_index_bounds(cs, cursor);
    let k = cursor_index(cs, cursor);
    lemma_byte_offset_ends(cs);
    if k >= cs.len() {
        lemma_offset_on_boundary(cs, cs.len() as int);
    } else {
        lemma_offset_on_boundary(cs, k + 1);
    }
}

proof fn lemma_take_skip_len(cs: Seq<char>, k: int)
    requires
        0 <= k <= cs.len(),
    ensures
        byte_len(cs.take(k)) + byte_len(cs.skip(k)) == byte_len(cs),
{
    assert(cs =~= cs.take(k) + cs.skip(k));
    lemma_byte_len_concat(cs.take(k), cs.skip(k));
}

/// Multi-line text input with a byte-index cursor.
pub struct MultiLineInput {
    pub content: String,
    /// Byte-index cursor position; the editing operations treat it as the
    /// nearest char boundary at or before it.
    pub cursor: usize,
    pub focused: bool,
}

impl MultiLineInput {
    /// The content fits in memory (always true of a real string).
    pub open spec fn wf(&self) -> bool {
        fits(self.content@)
    }

    /// A new input holding `content`, with the cursor at the end.
    pub fn new(content: &str) -> (r: Self)
        requires
            fits(content@),
        ensures
            r.content@ == content@,
            r.cursor == byte_len(content@),
            !r.focused,
            r.wf(),
    {
        let content = content.to_owned();
        let cursor = content.as_str().len();
        MultiLineInput { content, cursor, focused: false }
    }

    /// Replaces the content and puts the cursor at the end.
    pub fn set_content(&mut self, s: &str)
        requires
            fits(s@),
        ensures
            final(self).content@ == s@,
            final(self).cursor == byte_len(s@),
            final(self).focused == old(self).focused,
            final(self).wf(),
    {
        self.content = s.to_owned();
        self.cursor = self.content.as_str().len();
    }

    /// The cursor moved back to the nearest char boundary at or before it,
    /// and to the end of the content if it lies beyond it.
    pub fn clamped_cursor(&self) -> (r: usize)
        requires
            self.wf(),
        ensures
            r == clamp_to_boundary(self.content@, self.cursor as int),
    {
        let t = CharTable::of(self.content.as_str());
        let k = t.floor_of(self.cursor);
        t.offsets[k]
    }

    /// Inserts `ch` at the cursor and moves the cursor past it.
    pub fn insert_char(&mut self, ch: char)
        requires
            old(self).wf(),
            byte_len(old(self).content@) + 4 <= usize::MAX,
        ensures
            final(self).content@ == inserted_text(old(self).content@, old(self).cursor as int, seq![ch]),
            final(self).cursor == inserted_cursor(
                old(self).content@,
                old(self).cursor as int,
                seq![ch],
            ),
            final(self).focused == old(self).focused,
            final(self).wf(),
    {
        let ghost cs = self.content@;
        let mut one = String::new();
        string_push(&mut one, ch);
        proof {
            assert(one@ =~= seq![ch]);
            lemma_encode_single(ch);
        }
        let t = CharTable::of(self.content.as_str());
        let k = t.floor_of(self.cursor);
        let r = splice(self.content.as_str(), &t, k, k, one.as_str());
        proof {
            lemma_byte_offset_le_len(cs, k as int);
            lemma_take_skip_len(cs, k as int);
            lemma_byte_len_concat(cs.take(k as int), one@);
            lemma_byte_len_concat(cs.take(k as int) + one@, cs.skip(k as int));
        }
        self.content = r;
        self.cursor = t.offsets[k] + utf8_len_of(ch);
    }

    /// Inserts a line break at the cursor.
    pub fn insert_newline(&mut self)
        requires
            old(self).wf(),
            byte_len(old(self).content@) + 4 <= usize::MAX,
        ensures
            final(self).content@ == inserted_text(
                old(self).content@,
                old(self).cursor as int,
                seq!['\n'],
            ),
            final(self).cursor == inserted_cursor(
                old(self).content@,
                old(self).cursor as int,
                seq!['\n'],
            ),
            final(self).focused == old(self).focused,
            final(self).wf(),
    {
        self.insert_char('\n');
    }

    /// Deletes the char before the cursor; does nothing at the start.
    pub fn backspace(&mut self)
        requires
            old(self).wf(),
        ensures
            final(self).content@ == backspace_text(old(self).content@, old(self).cursor as int),
            final(self).cursor == backspace_cursor(old(self).content@, old(self).cursor as int),
            final(self).focused == old(self).focused,
            final(self).wf(),
    {
        let ghost cs = self.content@;
        let t = CharTable::of(self.content.as_str());
        let k = t.floor_of(self.cursor);
        if k == 0 {
            return;
        }
        let r = cut(self.content.as_str(), &t, k - 1, k);
        proof {
            lemma_take_skip_len(cs, k - 1);
            lemma_take_skip_len(cs, k as int);
            assert(cs.skip(k - 1) =~= seq![cs[k - 1]] + cs.skip(k as int));
            lemma_byte_len_concat(seq![cs[k - 1]], cs.skip(k as int));
            lemma_byte_len_concat(cs.take(k - 1), cs.skip(k as int));
        }
        self.content = r;
        self.cursor = t.offsets[k - 1];
    }

    /// Moves the cursor one char to the left (stays at 0 at the start).
    pub fn move_left(&mut self)
        requires
            old(self).wf(),
        ensures
            final(self).content == old(self).content,
            final(self).cursor == left_cursor(old(self).content@, old(self).cursor as int),
            final(self).focused == old(self).focused,
    {
        let t = CharTable::of(self.content.as_str());
        let k = t.floor_of(self.cursor);
        self.cursor = if k == 0 {
            0
        } else {
            t.offsets[k - 1]
        };
    }

    /// Moves the cursor one char to the right (to the end at the end).
    pub fn move_right(&mut self)
        requires
            old(self).wf(),
        ensures
            final(self).content == old(self).content,
            final(self).cursor == next_cursor(old(self).content@, old(self).cursor as int),
            final(self).focused == old(self).focused,
    {
        let t = CharTable::of(self.content.as_str());
        let k = t.floor_of(self.cursor);
        let n = t.chars.len();
        proof {
            lemma_byte_offset_ends(self.content@);
        }
        self.cursor = if k >= n {
            t.offsets[n]
        } else {
            t.offsets[k + 1]
        };
    }

    /// Moves the cursor to the start of the content.
    pub fn move_to_start(&mut self)
        ensures
            final(self).content == old(self).content,
            final(self).cursor == 0,
            final(self).focused == old(self).focused,
    {
        self.cursor = 0;
    }

    /// Moves the cursor to the end of the content.
    pub fn move_to_end(&mut self)
        requires
            old(self).wf(),
        ensures
            final(self).content == old(self).content,
            final(self).cursor == byte_len(old(self).content@),
            final(self).focused == old(self).focused,
    {
        self.cursor = self.content.as_str().len();
    }

    /// Find all URL spans in `s`, returning byte ranges.
    pub fn find_links(s: &str) -> (links: Vec<Range<usize>>)
        requires
            fits(s@),
        ensures
            range_bounds(links@) == links_from(s@, 0),
    {
        let t = CharTable::of(s);
        let n = t.chars.len();
        let mut links: Vec<Range<usize>> = Vec::new();
        let mut k: usize = 0;
        while k < n
            invariant
                t.describes(s@),
                n == s@.len(),
                k <= n,
                range_bounds(links@) + links_from(s@, k as int) == links_from(s@, 0),
            decreases n - k,
        {
            let ghost before = links@;
            let found = link_prefix_at(&t, k);
            if let Some(i) = found {
                let e = link_end_from(&t, k);
                proof {
                    if k < e {
                        lemma_byte_offset_strict_mono(s@, k as int, e as int);
                    }
                }
                let plen = prefix_len(i);
                if e > k && t.offsets[e] - t.offsets[k] > plen {
                    links.push(Range { start: t.offsets[k], end: t.offsets[e] });
                    assert(range_bounds(links@) =~= range_bounds(before) + seq![
                        (t.offsets@[k as int] as int, t.offsets@[e as int] as int),
                    ]);
                    k = e;
                    continue;
                }
            }
            k = k + 1;
        }
        assert(links_from(s@, k as int) =~= Seq::<(int, int)>::empty());
        assert(range_bounds(links@) =~= range_bounds(links@) + links_from(s@, k as int));
        links
    }
}

/// Number of bytes `c` takes in UTF-8.
fn utf8_len_of(c: char) -> (w: usize)
    ensures
        w == byte_len(seq![c]),
{
    proof {
        lemma_encode_single(c);
    }
    crate::utf8_text::utf8_width(c)
}

/// The chars of link prefix `i`.
fn link_prefix_chars(i: usize) -> (p: Vec<char>)
    requires
        i < 3,
    ensures
        p@ == link_prefix(i as int),
{
    let p = if i == 0 {
        vec!['h', 't', 't', 'p', 's', ':', '/', '/']
    } else if i == 1 {
        vec!['h', 't', 't', 'p', ':', '/', '/']
    } else {
        vec!['w', 'w', 'w', '.']
    };
    assert(p@ =~= link_prefix(i as int));
    p
}

/// The length in bytes (and chars) of link prefix `i`.
fn prefix_len(i: usize) -> (l: usize)
    requires
        i < 3,
    ensures
        l == link_prefix(i as int).len(),
{
    if i == 0 {
        8
    } else if i == 1 {
        7
    } else {
        4
    }
}

/// Whether `p` occurs in the table's text at char index `k`.
fn has_prefix(t: &CharTable, k: usize, p: &Vec<char>) -> (r: bool)
    requires
        t.valid(),
        k <= t.chars@.len(),
    ensures
        r == has_prefix_at(t.chars@, k as int, p@),
{
    let n = t.chars.len();
    let m = p.len();
    if m > n - k {
        return false;
    }
    let mut j: usize = 0;
    while j < m
        invariant
            t.valid(),
            n == t.chars@.len(),
            m == p@.len(),
            k + m <= n,
            j <= m,
            forall|i: int| 0 <= i < j ==> t.chars@[k + i] == p@[i],
        decreases m - j,
    {
        if t.chars[k + j] != p[j] {
            assert(t.chars@.subrange(k as int, k + m)[j as int] != p@[j as int]);
            return false;
        }
        j = j + 1;
    }
    assert(t.chars@.subrange(k as int, k + m) =~= p@);
    true
}

/// The first link prefix that occurs at char index `k`.
fn link_prefix_at(t: &CharTable, k: usize) -> (r: Option<usize>)
    requires
        t.valid(),
        k <= t.chars@.len(),
    ensures
        r matches Some(i) ==> i < 3,
        r == (match prefix_at(t.chars@, k as int) {
            Some(i) => Some(i as usize),
            None => None::<usize>,
        }),
{
    let mut i: usize = 0;
    while i < 3
        invariant
            t.valid(),
            k <= t.chars@.len(),
            i <= 3,
            forall|j: int| 0 <= j < i ==> !has_prefix_at(t.chars@, k as int, #[trigger] link_prefix(j)),
        decreases 3 - i,
    {
        let p = link_prefix_chars(i);
        if has_prefix(t, k, &p) {
            return Some(i);
        }
        i = i + 1;
    }
    assert(!has_prefix_at(t.chars@, k as int, link_prefix(0)));
    assert(!has_prefix_at(t.chars@, k as int, link_prefix(1)));
    assert(!has_prefix_at(t.chars@, k as int, link_prefix(2)));
    None
}

/// Char index of the first link-ending char at or after `k`.
fn link_end_from(t: &CharTable, k: usize) -> (e: usize)
    requires
        t.valid(),
        k <= t.chars@.len(),
    ensures
        e == link_end(t.chars@, k as int),
        k <= e <= t.chars@.len(),
{
    let n = t.chars.len();
    let mut j = k;
    while j < n
        invariant
            t.valid(),
            n == t.chars@.len(),
            k <= j <= n,
            link_end(t.chars@, j as int) == link_end(t.chars@, k as int),
        decreases n - j,
    {
        let c = t.chars[j];
        if char_is_whitespace(c) || c == '"' || c == '<' || c == '>' || c == ')' || c == ']' {
            return j;
        }
        j = j + 1;
    }
    j
}

} // verus!
