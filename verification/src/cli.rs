//! Command-line handling: the port given with `-p`.

use vstd::prelude::*;
use crate::utf8_text::{fits, CharTable};

verus! {

/// `c` is an ASCII decimal digit.
pub open spec fn is_digit(c: char) -> bool {
    '0' <= c <= '9'
}

/// The number written by the decimal digits `ds`.
pub open spec fn digits_value(ds: Seq<char>) -> nat
    decreases ds.len(),
{
    if ds.len() == 0 {
        0
    } else {
        digits_value(ds.drop_last()) * 10 + (ds.last() as nat - 48) as nat
    }
}

/// Every char of `ds` is a digit.
pub open spec fn all_digits(ds: Seq<char>) -> bool {
    forall|i: int| 0 <= i < ds.len() ==> is_digit(#[trigger] ds[i])
}

/// `cs` without a leading `+`.
pub open spec fn digit_part(cs: Seq<char>) -> Seq<char> {
    if cs.len() > 0 && cs[0] == '+' {
        cs.drop_first()
    } else {
        cs
    }
}

/// What `u16::from_str` accepts: an optional `+` followed by one or more
/// ASCII digits whose value fits in a `u16`.
pub open spec fn parsed_u16(cs: Seq<char>) -> Option<u16> {
    let ds = digit_part(cs);
    if ds.len() > 0 && all_digits(ds) && digits_value(ds) <= 65535 {
        Some(digits_value(ds) as u16)
    } else {
        None
    }
}

proof fn lemma_digits_value_grows(ds: Seq<char>, k: int)
    requires
        0 <= k <= ds.len(),
        forall|i: int| 0 <= i < ds.len() ==> is_digit(#[trigger] ds[i]),
    ensures
        digits_value(ds.take(k)) <= digits_value(ds),
    decreases ds.len() - k,
{
    if k < ds.len() {
        lemma_digits_value_grows(ds, k + 1);
        assert(ds.take(k + 1).drop_last() =~= ds.take(k));
    } else {
        assert(ds.take(k) =~= ds);
    }
}

/// Parses a port number the way `str::parse::<u16>` does.
pub fn parse_u16(s: &str) -> (r: Option<u16>)
    requires
        fits(s@),
    ensures
        r == parsed_u16(s@),
{
    let t = CharTable::of(s);
    let cs = &t.chars;
    let n = cs.len();
    let start: usize = if n > 0 && cs[0] == '+' {
        1
    } else {
        0
    };
    let ghost ds = cs@.skip(start as int);
    assert(ds =~= digit_part(cs@));
    if start >= n {
        return None;
    }
    let mut acc: u32 = 0;
    let mut i = start;
    while i < n
        invariant
            n == cs@.len(),
            start <= i <= n,
            ds == cs@.skip(start as int),
            cs@ == s@,
            ds == digit_part(cs@),
            forall|j: int| 0 <= j < i - start ==> is_digit(#[trigger] ds[j]),
            acc == digits_value(ds.take(i - start)),
            acc <= 65535,
        decreases n - i,
    {
        let c = cs[i];
        assert(ds[i - start] == c);
        if !('0' <= c && c <= '9') {
            assert(!is_digit(ds[i - start]));
            return None;
        }
        let d = (c as u32) - 48;
        assert(ds.take(i - start + 1).drop_last() =~= ds.take(i - start));
        let next = acc * 10 + d;
        assert(digits_value(ds.take(i - start + 1)) == next) by {
            assert(ds.take(i - start + 1).last() == c);
        }
        if next > 65535 {
            proof {
                if ds.len() > 0 && all_digits(ds) {
                    lemma_digits_value_grows(ds, i - start + 1);
                    assert(digits_value(ds) > 65535);
                }
            }
            return None;
        }
        acc = next;
        i = i + 1;
    }
    assert(ds.take(n - start) =~= ds);
    Some(acc as u16)
}

/// The views of a list of strings.
pub open spec fn texts(args: Seq<String>) -> Seq<Seq<char>> {
    args.map_values(|s: String| s@)
}

/// `a` is the text `-p`.
pub open spec fn is_port_flag(a: Seq<char>) -> bool {
    a.len() == 2 && a[0] == '-' && a[1] == 'p'
}

/// `a` starts with `-p` and carries the value after it.
pub open spec fn has_port_prefix(a: Seq<char>) -> bool {
    a.len() >= 2 && a[0] == '-' && a[1] == 'p'
}

/// The port given by the arguments from index `i` on: the first argument
/// that is `-p` takes the next argument as its value, the first that starts
/// with `-p` carries its value after the flag.  `None` when no argument is a
/// port flag; `Some(None)` when the value is missing or not a port.
pub open spec fn port_arg_from(args: Seq<Seq<char>>, i: int) -> Option<Option<u16>>
    decreases args.len() - i,
{
    if i < 0 || i >= args.len() {
        None
    } else if is_port_flag(args[i]) {
        Some(
            if i + 1 < args.len() {
                parsed_u16(args[i + 1])
            } else {
                None
            },
        )
    } else if has_port_prefix(args[i]) {
        Some(parsed_u16(args[i].skip(2)))
    } else {
        port_arg_from(args, i + 1)
    }
}

/// The port named on the command line `args` (the program name first), if any.
pub open spec fn port_arg(args: Seq<Seq<char>>) -> Option<u16> {
    match port_arg_from(args, 1) {
        Some(p) => p,
        None => None,
    }
}

/// Finds the port given with `-p PORT` or `-pPORT` among the command-line
/// arguments (whose first item is the program name).
pub fn parse_port_arg(args: &Vec<String>) -> (r: Option<u16>)
    requires
        forall|i: int| 0 <= i < args@.len() ==> fits(#[trigger] args@[i]@),
    ensures
        r == port_arg(texts(args@)),
{
    let ghost a = texts(args@);
    let n = args.len();
    let mut i: usize = 1;
    while i < n
        invariant
            n == args@.len(),
            1 <= i,
            a == texts(args@),
            forall|j: int| 0 <= j < args@.len() ==> fits(#[trigger] args@[j]@),
            port_arg_from(a, i as int) == port_arg_from(a, 1),
        decreases n - i,
    {
        let t = CharTable::of(args[i].as_str());
        let cs = &t.chars;
        assert(cs@ == a[i as int]);
        if cs.len() >= 2 && cs[0] == '-' && cs[1] == 'p' {
            if cs.len() == 2 {
                if i + 1 < n {
                    return parse_u16(args[i + 1].as_str());
                }
                return None;
            }
            let rest = value_after_flag(args[i].as_str());
            return parse_u16(rest);
        }
        i = i + 1;
    }
    None
}

/// The text after the leading `-p` of an argument.
fn value_after_flag(s: &str) -> (r: &str)
    requires
        fits(s@),
        has_port_prefix(s@),
    ensures
        r@ == s@.skip(2),
        fits(r@),
{
    let t = CharTable::of(s);
    proof {
        crate::utf8_text::lemma_offset_is_char_boundary(s@, 2);
        crate::utf8_text::lemma_byte_offset_le_len(s@, 2);
    }
    let (head, tail) = s.split_at(t.offsets[2]);
    proof {
        crate::utf8_text::lemma_split_at_offset(s@, 2, head@, tail@);
        crate::utf8_text::lemma_byte_len_subrange(s@, 2, s@.len() as int);
        assert(s@.subrange(2, s@.len() as int) =~= s@.skip(2));
    }
    tail
}

} // verus!
