//! Request handling rules of the static file server: which file a request
//! line asks for, which content type a file is served with, and the reply
//! that is sent.

use vstd::prelude::*;
use crate::editing::string_push;
use crate::cli::digits_value;
use crate::utf8_text::{fits, text_eq, CharTable};
use vstd::string::StringExecFns;
use vstd::utf8::encode_utf8;

verus! {

/// The extension that `Path::extension` finds in the path written as
/// `path`: the text after the last `.` of the file name, if the name has a
/// `.` that is not its first char.
pub uninterp spec fn path_extension_text(path: Seq<char>) -> Option<Seq<char>>;

/// Calls `Path::extension` on the path written as `path`. The extension of a
/// path given as UTF-8 text is UTF-8 itself, so `OsStr::to_str` only changes
/// its type back to `&str`.
#[verifier::external_body]
fn path_extension(path: &str) -> (r: Option<&str>)
    ensures
        opt_str_view(r) == path_extension_text(path@),
{
    std::path::Path::new(path).extension().and_then(|e| e.to_str())
}

/// The content type a file with extension `ext` is served with.
pub open spec fn content_type_of(ext: Option<Seq<char>>) -> Seq<char> {
    match ext {
        Some(e) => if e == "html"@ {
            "text/html; charset=utf-8"@
        } else if e == "js"@ || e == "mjs"@ {
            "application/javascript"@
        } else if e == "css"@ {
            "text/css"@
        } else if e == "svg"@ {
            "image/svg+xml"@
        } else if e == "png"@ {
            "image/png"@
        } else if e == "ico"@ {
            "image/x-icon"@
        } else if e == "woff2"@ {
            "font/woff2"@
        } else if e == "woff"@ {
            "font/woff"@
        } else if e == "json"@ {
            "application/json"@
        } else {
            "application/octet-stream"@
        },
        None => "application/octet-stream"@,
    }
}

/// The view of an optional text.
pub open spec fn opt_str_view(o: Option<&str>) -> Option<Seq<char>> {
    match o {
        Some(s) => Some(s@),
        None => None,
    }
}

/// The content type for a file extension.
pub fn content_type_for_extension(ext: Option<&str>) -> (r: &'static str)
    ensures
        r@ == content_type_of(opt_str_view(ext)),
{
    match ext {
        Some(e) => {
            if text_eq(e, "html") {
                "text/html; charset=utf-8"
            } else if text_eq(e, "js") || text_eq(e, "mjs") {
                "application/javascript"
            } else if text_eq(e, "css") {
                "text/css"
            } else if text_eq(e, "svg") {
                "image/svg+xml"
            } else if text_eq(e, "png") {
                "image/png"
            } else if text_eq(e, "ico") {
                "image/x-icon"
            } else if text_eq(e, "woff2") {
                "font/woff2"
            } else if text_eq(e, "woff") {
                "font/woff"
            } else if text_eq(e, "json") {
                "application/json"
            } else {
                "application/octet-stream"
            }
        },
        None => "application/octet-stream",
    }
}

/// The content type a file is served with, chosen by the extension of its
/// path (given as text).
pub fn content_type_for(path: &str) -> (r: &'static str)
    ensures
        r@ == content_type_of(path_extension_text(path@)),
{
    let ext = path_extension(path);
    content_type_for_extension(ext)
}

/// Index of the first `c` in `cs` at or after `i` (the length when there is none).
pub open spec fn find_from(cs: Seq<char>, c: char, i: int) -> int
    decreases cs.len() - i,
{
    if i < 0 || i >= cs.len() {
        cs.len() as int
    } else if cs[i] == c {
        i
    } else {
        find_from(cs, c, i + 1)
    }
}

/// Index of the first char at or after `i` that is not `c`.
pub open spec fn skip_char(cs: Seq<char>, c: char, i: int) -> int
    decreases cs.len() - i,
{
    if 0 <= i < cs.len() && cs[i] == c {
        skip_char(cs, c, i + 1)
    } else {
        i
    }
}

/// The path of a request line `METHOD PATH VERSION`: the text after the
/// first space up to the next space, if the line has a space at all.
pub open spec fn request_target(line: Seq<char>) -> Option<Seq<char>> {
    let sp = find_from(line, ' ', 0);
    if sp >= line.len() {
        None
    } else {
        Some(line.subrange(sp + 1, find_from(line, ' ', sp + 1)))
    }
}

/// The file a request line asks for, relative to the served directory: the
/// request path without its query string and leading slashes, or
/// `index.html` when nothing is left.  `None` when the line has no path.
pub open spec fn requested_file_spec(line: Seq<char>) -> Option<Seq<char>> {
    match request_target(line) {
        None => None,
        Some(target) => {
            let path = target.take(find_from(target, '?', 0));
            let rel = path.skip(skip_char(path, '/', 0));
            if rel.len() == 0 {
                Some("index.html"@)
            } else {
                Some(rel)
            }
        },
    }
}

proof fn lemma_find_from_bounds(cs: Seq<char>, c: char, i: int)
    requires
        0 <= i <= cs.len(),
    ensures
        i <= find_from(cs, c, i) <= cs.len(),
    decreases cs.len() - i,
{
    if i < cs.len() && cs[i] != c {
        lemma_find_from_bounds(cs, c, i + 1);
    }
}

proof fn lemma_skip_char_bounds(cs: Seq<char>, c: char, i: int)
    requires
        0 <= i <= cs.len(),
    ensures
        i <= skip_char(cs, c, i) <= cs.len(),
    decreases cs.len() - i,
{
    if i < cs.len() && cs[i] == c {
        lemma_skip_char_bounds(cs, c, i + 1);
    }
}

fn find_char(cs: &Vec<char>, c: char, from: usize) -> (r: usize)
    requires
        from <= cs@.len(),
    ensures
        r == find_from(cs@, c, from as int),
        from <= r <= cs@.len(),
{
    let n = cs.len();
    let mut i = from;
    while i < n
        invariant
            n == cs@.len(),
            from <= i <= n,
            find_from(cs@, c, i as int) == find_from(cs@, c, from as int),
        decreases n - i,
    {
        if cs[i] == c {
            return i;
        }
        i = i + 1;
    }
    i
}

/// The chars `from..to` of `cs` as a string.
fn collect_chars(cs: &Vec<char>, from: usize, to: usize) -> (r: String)
    requires
        from <= to <= cs@.len(),
    ensures
        r@ == cs@.subrange(from as int, to as int),
{
    let mut r = String::new();
    let mut i = from;
    while i < to
        invariant
            from <= i <= to <= cs@.len(),
            r@ == cs@.subrange(from as int, i as int),
        decreases to - i,
    {
        string_push(&mut r, cs[i]);
        assert(cs@.subrange(from as int, i + 1) =~= cs@.subrange(from as int, i as int).push(
            cs@[i as int],
        ));
        i = i + 1;
    }
    r
}

/// The file a request line asks for (see `requested_file_spec`).
pub fn requested_file(request_line: &str) -> (r: Option<String>)
    requires
        fits(request_line@),
    ensures
        match requested_file_spec(request_line@) {
            Some(f) => r matches Some(x) && x@ == f,
            None => r is None,
        },
{
    let t = CharTable::of(request_line);
    let cs = &t.chars;
    let n = cs.len();
    let sp = find_char(cs, ' ', 0);
    if sp >= n {
        return None;
    }
    let end = find_char(cs, ' ', sp + 1);
    let ghost target = cs@.subrange(sp + 1, end as int);
    let q = find_char(cs, '?', sp + 1);
    let path_end = if q < end {
        q
    } else {
        end
    };
    proof {
        lemma_find_from_bounds(target, '?', 0);
        assert(find_from(target, '?', 0) == path_end - (sp + 1)) by {
            lemma_find_shift(cs@, '?', sp + 1, end as int, sp + 1);
        }
    }
    let mut start = sp + 1;
    while start < path_end && cs[start] == '/'
        invariant
            sp + 1 <= start <= path_end <= end <= n,
            n == cs@.len(),
            skip_char(cs@.subrange(sp + 1, path_end as int), '/', start - (sp + 1)) == skip_char(
                cs@.subrange(sp + 1, path_end as int),
                '/',
                0,
            ),
        decreases path_end - start,
    {
        start = start + 1;
    }
    let ghost path = target.take(path_end - (sp + 1));
    assert(path =~= cs@.subrange(sp + 1, path_end as int));
    proof {
        lemma_skip_char_bounds(path, '/', 0);
    }
    if start == path_end {
        let r = "index.html".to_owned();
        assert(path.skip(skip_char(path, '/', 0)).len() == 0);
        return Some(r);
    }
    let r = collect_chars(cs, start, path_end);
    assert(path.skip(skip_char(path, '/', 0)) =~= cs@.subrange(start as int, path_end as int));
    Some(r)
}

/// Searching a slice `lo..hi` of `cs` from its start finds the same place as
/// searching `cs` from `lo`, cut at `hi`.
proof fn lemma_find_shift(cs: Seq<char>, c: char, lo: int, hi: int, i: int)
    requires
        0 <= lo <= i <= hi <= cs.len(),
    ensures
        find_from(cs.subrange(lo, hi), c, i - lo) + lo == if find_from(cs, c, i) < hi {
            find_from(cs, c, i)
        } else {
            hi
        },
    decreases hi - i,
{
    lemma_find_from_bounds(cs, c, i);
    let sub = cs.subrange(lo, hi);
    if i < hi {
        assert(sub[i - lo] == cs[i]);
        if cs[i] != c {
            lemma_find_shift(cs, c, lo, hi, i + 1);
        }
    }
}

// ── Replies ───────────────────────────────────────────────────────────────────

/// A reply of the static server: status line text, body and content type.
pub struct Reply {
    pub status: &'static str,
    pub body: Vec<u8>,
    pub content_type: &'static str,
}

/// The reply for a request that names an existing file: the file's bytes if
/// it could be read, otherwise an internal server error.
pub fn file_reply(read: Option<Vec<u8>>, content_type: &'static str) -> (r: Reply)
    ensures
        match read {
            Some(bytes) => r.status@ == "200 OK"@ && r.body == bytes && r.content_type
                == content_type,
            None => r.status@ == "500 Internal Server Error"@ && r.body@
                == encode_utf8("Internal Server Error"@)
                && r.content_type@ == "text/plain"@,
        },
{
    match read {
        Some(bytes) => Reply { status: "200 OK", body: bytes, content_type },
        None => Reply {
            status: "500 Internal Server Error",
            body: text_bytes("Internal Server Error"),
            content_type: "text/plain",
        },
    }
}

/// The reply for a request that names no file: the app's `index.html` (so
/// the web app's own routing can handle the path), or not found when that
/// cannot be read either.
pub fn fallback_reply(index: Option<Vec<u8>>) -> (r: Reply)
    ensures
        match index {
            Some(bytes) => r.status@ == "200 OK"@ && r.body == bytes && r.content_type@
                == "text/html; charset=utf-8"@,
            None => r.status@ == "404 Not Found"@ && r.body@ == encode_utf8("404 Not Found"@) && r.content_type@ == "text/plain"@,
        },
{
    match index {
        Some(bytes) => Reply { status: "200 OK", body: bytes, content_type: "text/html; charset=utf-8" },
        None => Reply {
            status: "404 Not Found",
            body: text_bytes("404 Not Found"),
            content_type: "text/plain",
        },
    }
}

/// The UTF-8 bytes of a text.
fn text_bytes(s: &str) -> (r: Vec<u8>)
    ensures
        r@ == encode_utf8(s@),
{
    let b = s.as_bytes();
    let mut r: Vec<u8> = Vec::new();
    let mut i: usize = 0;
    while i < b.len()
        invariant
            b@ == encode_utf8(s@),
            i <= b@.len(),
            r@ == b@.take(i as int),
        decreases b@.len() - i,
    {
        r.push(b[i]);
        assert(b@.take(i + 1) =~= b@.take(i as int).push(b@[i as int]));
        i = i + 1;
    }
    assert(b@.take(b@.len() as int) =~= b@);
    r
}

/// The decimal digits of `n`.
pub open spec fn decimal(n: nat) -> Seq<char>
    decreases n,
{
    if n < 10 {
        seq![digit_char(n)]
    } else {
        decimal(n / 10).push(digit_char(n % 10))
    }
}

/// The digit char for a value below ten.
pub open spec fn digit_char(d: nat) -> char {
    ((d + 48) as u8) as char
}

/// The decimal text of `n` is what reading it back needs: one or more
/// digits `0`..`9`, no leading zero unless `n` is 0, and read back in base
/// ten (each digit times its power of ten) it is `n` again.
pub proof fn lemma_decimal_reads_back(n: nat)
    ensures
        decimal(n).len() >= 1,
        forall|i: int| 0 <= i < decimal(n).len() ==> '0' <= #[trigger] decimal(n)[i] <= '9',
        decimal(n)[0] == '0' ==> n == 0,
        digits_value(decimal(n)) == n,
    decreases n,
{
    if n < 10 {
        assert(digit_char(n) as nat == n + 48);
        let ds = decimal(n);
        assert(ds == seq![digit_char(n)]);
        assert(ds.drop_last() =~= Seq::<char>::empty());
        assert(digits_value(ds.drop_last()) == 0);
        assert(ds.last() == digit_char(n));
    } else {
        lemma_decimal_reads_back(n / 10);
        let d = decimal(n / 10);
        assert(digit_char(n % 10) as nat == n % 10 + 48);
        assert(decimal(n).drop_last() =~= d);
        assert(decimal(n)[0] == d[0]);
        assert(decimal(n).last() == digit_char(n % 10));
        assert(digits_value(decimal(n)) == digits_value(d) * 10 + n % 10);
        assert(n == (n / 10) * 10 + n % 10);
    }
}

/// Writes the decimal digits of `n` at the end of `s`.
fn push_decimal(s: &mut String, n: usize)
    ensures
        final(s)@ == old(s)@ + decimal(n as nat),
    decreases n,
{
    if n >= 10 {
        push_decimal(s, n / 10);
    }
    let d = (n % 10) as u8;
    string_push(s, (d + 48) as char);
    assert(((d + 48) as char) == digit_char((n % 10) as nat));
}

/// The header of an HTTP reply with the given status, content type and body
/// length.
pub open spec fn header_text(status: Seq<char>, content_type: Seq<char>, len: nat) -> Seq<char> {
    "HTTP/1.1 "@ + status + "\r\nContent-Type: "@ + content_type + "\r\nContent-Length: "@
        + decimal(len) + "\r\nConnection: close\r\n\r\n"@
}

/// Builds the header of a reply.
pub fn reply_header(reply: &Reply) -> (r: String)
    ensures
        r@ == header_text(reply.status@, reply.content_type@, reply.body@.len()),
{
    let mut r = "HTTP/1.1 ".to_owned();
    r.append(reply.status);
    r.append("\r\nContent-Type: ");
    r.append(reply.content_type);
    r.append("\r\nContent-Length: ");
    push_decimal(&mut r, reply.body.len());
    r.append("\r\nConnection: close\r\n\r\n");
    r
}

} // verus!
