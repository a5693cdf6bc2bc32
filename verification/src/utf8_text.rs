//! Byte offsets in UTF-8 text.
//!
//! Strings are viewed as sequences of `char`s; the editing components keep
//! their cursors as byte offsets into the UTF-8 encoding, as `str` does.  This
//! module relates the two views and provides the executable helpers that the
//! editors and scanners are built on.

use vstd::prelude::*;
use vstd::utf8::*;
use vstd::std_specs::iter::IteratorSpec;

verus! {

broadcast use {vstd::utf8::encode_utf8_valid_utf8, vstd::utf8::encode_utf8_decode_utf8};

/// Number of bytes in the UTF-8 encoding of `c`.
pub open spec fn char_width(c: char) -> nat {
    encode_scalar(c as u32).len()
}

/// Number of bytes in the UTF-8 encoding of `cs`.
pub open spec fn byte_len(cs: Seq<char>) -> nat {
    encode_utf8(cs).len()
}

/// Byte offset at which the char with index `k` starts (or the end of the
/// text when `k == cs.len()`).
pub open spec fn byte_offset(cs: Seq<char>, k: int) -> nat {
    byte_len(cs.take(k))
}

/// The text's encoding fits in memory addressed by `usize`.
pub open spec fn fits(cs: Seq<char>) -> bool {
    byte_len(cs) <= usize::MAX
}

/// Index of the last char that starts at or before byte `pos`, searching the
/// char indices `0..=k`.
pub open spec fn floor_index_upto(cs: Seq<char>, pos: int, k: int) -> nat
    decreases k,
{
    if k <= 0 {
        0
    } else if byte_offset(cs, k) <= pos {
        k as nat
    } else {
        floor_index_upto(cs, pos, k - 1)
    }
}

/// Index of the last char boundary at or before byte `pos`.
pub open spec fn floor_index(cs: Seq<char>, pos: int) -> nat {
    floor_index_upto(cs, pos, cs.len() as int)
}

/// `pos` moved back to the nearest char boundary at or before it (and to the
/// end of the text if it lies beyond it).
pub open spec fn clamp_to_boundary(cs: Seq<char>, pos: int) -> nat {
    byte_offset(cs, floor_index(cs, pos) as int)
}

/// Every char encodes to between one and four bytes.
pub proof fn lemma_char_width_bounds(c: char)
    ensures
        1 <= char_width(c) <= 4,
{
}

/// The encoding of a concatenation is the concatenation of the encodings.
pub proof fn lemma_encode_concat(a: Seq<char>, b: Seq<char>)
    ensures
        encode_utf8(a + b) == encode_utf8(a) + encode_utf8(b),
    decreases a.len(),
{
    if a.len() == 0 {
        assert(a + b =~= b);
        assert(encode_utf8(a) =~= Seq::<u8>::empty());
        assert(encode_utf8(a) + encode_utf8(b) =~= encode_utf8(b));
    } else {
        let ab = a + b;
        assert(ab[0] == a[0]);
        assert(ab.drop_first() =~= a.drop_first() + b);
        lemma_encode_concat(a.drop_first(), b);
        assert(encode_utf8(ab) =~= encode_scalar(a[0] as u32) + encode_utf8(a.drop_first() + b));
        assert(encode_utf8(ab) =~= encode_utf8(a) + encode_utf8(b));
    }
}

/// The encoding of a single char is its scalar encoding.
pub proof fn lemma_encode_single(c: char)
    ensures
        encode_utf8(seq![c]) == encode_scalar(c as u32),
{
    let s = seq![c];
    assert(s.drop_first() =~= Seq::<char>::empty());
    assert(encode_utf8(s.drop_first()) =~= Seq::<u8>::empty());
    assert(encode_utf8(s) =~= encode_scalar(c as u32));
}

/// Byte lengths add up over concatenation.
pub proof fn lemma_byte_len_concat(a: Seq<char>, b: Seq<char>)
    ensures
        byte_len(a + b) == byte_len(a) + byte_len(b),
{
    lemma_encode_concat(a, b);
}

/// The offset of the next char is the offset of this one plus its width.
pub proof fn lemma_byte_offset_step(cs: Seq<char>, k: int)
    requires
        0 <= k < cs.len(),
    ensures
        byte_offset(cs, k + 1) == byte_offset(cs, k) + char_width(cs[k]),
{
    assert(cs.take(k + 1) =~= cs.take(k) + seq![cs[k]]);
    lemma_encode_concat(cs.take(k), seq![cs[k]]);
    lemma_encode_single(cs[k]);
}

/// The first and last offsets.
pub proof fn lemma_byte_offset_ends(cs: Seq<char>)
    ensures
        byte_offset(cs, 0) == 0,
        byte_offset(cs, cs.len() as int) == byte_len(cs),
{
    assert(cs.take(0) =~= Seq::<char>::empty());
    assert(encode_utf8(cs.take(0)) =~= Seq::<u8>::empty());
    assert(cs.take(cs.len() as int) =~= cs);
}

/// Byte offsets strictly increase with the char index.
pub proof fn lemma_byte_offset_strict_mono(cs: Seq<char>, j: int, k: int)
    requires
        0 <= j < k <= cs.len(),
    ensures
        byte_offset(cs, j) < byte_offset(cs, k),
    decreases k - j,
{
    lemma_byte_offset_step(cs, k - 1);
    lemma_char_width_bounds(cs[k - 1]);
    if j < k - 1 {
        lemma_byte_offset_strict_mono(cs, j, k - 1);
    }
}

/// Byte offsets never exceed the byte length.
pub proof fn lemma_byte_offset_le_len(cs: Seq<char>, k: int)
    requires
        0 <= k <= cs.len(),
    ensures
        byte_offset(cs, k) <= byte_len(cs),
{
    lemma_byte_offset_ends(cs);
    if k < cs.len() {
        lemma_byte_offset_strict_mono(cs, k, cs.len() as int);
    }
}

/// Offsets in a prefix are the offsets in the whole text.
pub proof fn lemma_byte_offset_prefix(cs: Seq<char>, k: int, j: int)
    requires
        0 <= j <= k <= cs.len(),
    ensures
        byte_offset(cs.take(k), j) == byte_offset(cs, j),
{
    assert(cs.take(k).take(j) =~= cs.take(j));
}

/// Offsets in a suffix are the offsets in the whole text, shifted.
pub proof fn lemma_byte_offset_suffix(cs: Seq<char>, k: int, j: int)
    requires
        0 <= k <= cs.len(),
        0 <= j <= cs.len() - k,
    ensures
        byte_offset(cs.skip(k), j) + byte_offset(cs, k) == byte_offset(cs, k + j),
{
    assert(cs.take(k + j) =~= cs.take(k) + cs.skip(k).take(j));
    lemma_byte_len_concat(cs.take(k), cs.skip(k).take(j));
}

/// The offset of a char index lies on a char boundary of the encoding.
pub proof fn lemma_offset_is_char_boundary(cs: Seq<char>, k: int)
    requires
        0 <= k <= cs.len(),
    ensures
        is_char_boundary(encode_utf8(cs), byte_offset(cs, k) as int),
    decreases cs.len(),
{
    lemma_byte_offset_ends(cs);
    if k == 0 {
    } else {
        let bytes = encode_utf8(cs);
        let rest = cs.drop_first();
        encode_utf8_first_scalar(cs);
        assert(pop_first_scalar(bytes) =~= encode_utf8(rest));
        assert(cs.take(k) =~= seq![cs[0]] + rest.take(k - 1));
        lemma_encode_concat(seq![cs[0]], rest.take(k - 1));
        lemma_encode_single(cs[0]);
        lemma_offset_is_char_boundary(rest, k - 1);
        lemma_byte_offset_le_len(cs, k);
    }
}

/// Splitting the encoding at the offset of char index `k` splits the text at `k`.
pub proof fn lemma_split_at_offset(cs: Seq<char>, k: int, left: Seq<char>, right: Seq<char>)
    requires
        0 <= k <= cs.len(),
        encode_utf8(left) == encode_utf8(cs).subrange(0, byte_offset(cs, k) as int),
        encode_utf8(right) == encode_utf8(cs).subrange(
            byte_offset(cs, k) as int,
            byte_len(cs) as int,
        ),
    ensures
        left == cs.take(k),
        right == cs.skip(k),
{
    assert(cs =~= cs.take(k) + cs.skip(k));
    lemma_encode_concat(cs.take(k), cs.skip(k));
    assert(encode_utf8(cs).subrange(0, byte_offset(cs, k) as int) =~= encode_utf8(cs.take(k)));
    assert(encode_utf8(cs).subrange(byte_offset(cs, k) as int, byte_len(cs) as int)
        =~= encode_utf8(cs.skip(k)));
    assert(decode_utf8(encode_utf8(left)) == left);
    assert(decode_utf8(encode_utf8(cs.take(k))) == cs.take(k));
    assert(decode_utf8(encode_utf8(right)) == right);
    assert(decode_utf8(encode_utf8(cs.skip(k))) == cs.skip(k));
}

/// `floor_index` picks the unique index whose offset is at most `pos` while
/// every later offset exceeds `pos`.
pub proof fn lemma_floor_index_unique(cs: Seq<char>, pos: int, k: int)
    requires
        0 <= k <= cs.len(),
        byte_offset(cs, k) <= pos,
        k == cs.len() || byte_offset(cs, k + 1) > pos,
    ensures
        floor_index(cs, pos) == k,
{
    lemma_floor_index_upto(cs, pos, k, cs.len() as int);
}

proof fn lemma_floor_index_upto(cs: Seq<char>, pos: int, k: int, m: int)
    requires
        0 <= k <= m <= cs.len(),
        byte_offset(cs, k) <= pos,
        k == cs.len() || byte_offset(cs, k + 1) > pos,
    ensures
        floor_index_upto(cs, pos, m) == k,
    decreases m - k,
{
    if m > k {
        if k + 1 < m {
            lemma_byte_offset_strict_mono(cs, k + 1, m);
        }
        lemma_floor_index_upto(cs, pos, k, m - 1);
    }
}

/// `floor_index` stays within the text and its offset is at most `pos`.
pub proof fn lemma_floor_index_bounds(cs: Seq<char>, pos: int)
    requires
        0 <= pos,
    ensures
        floor_index(cs, pos) <= cs.len(),
        byte_offset(cs, floor_index(cs, pos) as int) <= pos,
{
    lemma_floor_index_upto_bounds(cs, pos, cs.len() as int);
}

proof fn lemma_floor_index_upto_bounds(cs: Seq<char>, pos: int, m: int)
    requires
        0 <= pos,
        0 <= m <= cs.len(),
    ensures
        floor_index_upto(cs, pos, m) <= m,
        byte_offset(cs, floor_index_upto(cs, pos, m) as int) <= pos,
    decreases m,
{
    lemma_byte_offset_ends(cs);
    if m > 0 {
        lemma_floor_index_upto_bounds(cs, pos, m - 1);
    }
}

/// The offset of a char boundary is its own floor.
pub proof fn lemma_floor_index_of_offset(cs: Seq<char>, k: int)
    requires
        0 <= k <= cs.len(),
    ensures
        floor_index(cs, byte_offset(cs, k) as int) == k,
{
    if k < cs.len() {
        lemma_byte_offset_strict_mono(cs, k, k + 1);
    }
    lemma_floor_index_unique(cs, byte_offset(cs, k) as int, k);
}

/// Whether two texts are equal (compared byte by byte).
pub fn text_eq(a: &str, b: &str) -> (r: bool)
    ensures
        r == (a@ == b@),
{
    let x = a.as_bytes();
    let y = b.as_bytes();
    let n = x.len();
    if n != y.len() {
        proof {
            if a@ == b@ {
                assert(x@ == y@);
            }
        }
        return false;
    }
    let mut i: usize = 0;
    while i < n
        invariant
            x@ == encode_utf8(a@),
            y@ == encode_utf8(b@),
            n == x@.len(),
            n == y@.len(),
            i <= n,
            forall|j: int| 0 <= j < i ==> x@[j] == y@[j],
        decreases n - i,
    {
        if x[i] != y[i] {
            proof {
                if a@ == b@ {
                    assert(x@ == y@);
                }
            }
            return false;
        }
        i = i + 1;
    }
    assert(x@ =~= y@);
    assert(decode_utf8(encode_utf8(a@)) == a@);
    assert(decode_utf8(encode_utf8(b@)) == b@);
    true
}

/// Byte length of a part of a text is at most that of the text.
pub proof fn lemma_byte_len_subrange(cs: Seq<char>, a: int, b: int)
    requires
        0 <= a <= b <= cs.len(),
    ensures
        byte_len(cs.subrange(a, b)) <= byte_len(cs),
{
    assert(cs =~= cs.take(a) + (cs.subrange(a, b) + cs.skip(b)));
    lemma_byte_len_concat(cs.subrange(a, b), cs.skip(b));
    lemma_byte_len_concat(cs.take(a), cs.subrange(a, b) + cs.skip(b));
}

/// Number of bytes that `c` takes in UTF-8 (what `char::len_utf8` returns).
pub fn utf8_width(c: char) -> (w: usize)
    ensures
        w == char_width(c),
{
    let v = c as u32;
    proof {
        vstd::utf8::char_is_scalar(c);
    }
    if v <= 0x7F {
        1
    } else if v <= 0x7FF {
        2
    } else if v <= 0xFFFF {
        3
    } else {
        4
    }
}

/// The chars of a text together with the byte offset of every char index.
pub struct CharTable {
    /// The chars of the text, in order.
    pub chars: Vec<char>,
    /// `offsets[k]` is the byte offset of char `k`; the last entry is the
    /// byte length of the text.
    pub offsets: Vec<usize>,
}

impl CharTable {
    /// The table describes the text `cs`.
    pub open spec fn describes(&self, cs: Seq<char>) -> bool {
        &&& self.chars@ == cs
        &&& self.offsets@.len() == cs.len() + 1
        &&& forall|k: int| 0 <= k <= cs.len() ==> #[trigger] self.offsets@[k] == byte_offset(cs, k)
    }

    /// Builds the table of `s`.
    pub fn of(s: &str) -> (t: CharTable)
        requires
            fits(s@),
        ensures
            t.describes(s@),
    {
        broadcast use vstd::string::axiom_spec_iter, vstd::string::next_postcondition;

        let mut chars: Vec<char> = Vec::new();
        let mut offsets: Vec<usize> = Vec::new();
        let mut pos: usize = 0;
        offsets.push(0);
        proof {
            lemma_byte_offset_ends(s@);
        }
        let mut it = s.chars();
        loop
            invariant
                chars@ + it.remaining() == s@,
                offsets@.len() == chars@.len() + 1,
                pos == byte_offset(s@, chars@.len() as int),
                forall|k: int|
                    0 <= k <= chars@.len() ==> #[trigger] offsets@[k] == byte_offset(s@, k),
                fits(s@),
                it.obeys_prophetic_iter_laws(),
                it.decrease() is Some,
            ensures
                chars@ == s@,
                offsets@.len() == chars@.len() + 1,
                forall|k: int|
                    0 <= k <= chars@.len() ==> #[trigger] offsets@[k] == byte_offset(s@, k),
            decreases it.decrease()->0,
        {
            let ghost prev = it.remaining();
            let next = it.next();
            match next {
                Some(c) => {
                    let ghost k = chars@.len() as int;
                    assert(s@[k] == c) by {
                        assert((chars@ + prev)[k] == prev[0]);
                    }
                    proof {
                        lemma_byte_offset_step(s@, k);
                        lemma_byte_offset_le_len(s@, k + 1);
                    }
                    let w = utf8_width(c);
                    pos = pos + w;
                    chars.push(c);
                    offsets.push(pos);
                    assert(chars@ + it.remaining() =~= s@) by {
                        assert(it.remaining() == prev.drop_first());
                    }
                },
                None => {
                    assert(chars@ =~= s@);
                    break;
                },
            }
        }
        CharTable { chars, offsets }
    }
}

} // verus!
