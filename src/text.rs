//! Text helpers: decimal rendering, whitespace trimming and paginated
//! truncation.
use vstd::prelude::*;
use vstd::utf8::encode_utf8;

verus! {

/// The decimal digit for `d` (taken modulo ten).
pub open spec fn digit_char(d: nat) -> char {
    let d = d % 10;
    if d == 0 { '0' }
    else if d == 1 { '1' }
    else if d == 2 { '2' }
    else if d == 3 { '3' }
    else if d == 4 { '4' }
    else if d == 5 { '5' }
    else if d == 6 { '6' }
    else if d == 7 { '7' }
    else if d == 8 { '8' }
    else { '9' }
}

/// The decimal rendering of `n`, without sign or leading zeros.
pub open spec fn decimal(n: nat) -> Seq<char>
    decreases n,
{
    if n < 10 {
        seq![digit_char(n)]
    } else {
        decimal(n / 10).push(digit_char(n % 10))
    }
}

/// Number of bytes of the UTF-8 encoding of `s`, counted in a `usize` as
/// `str::len` reports it.
pub open spec fn byte_len(s: Seq<char>) -> nat {
    (encode_utf8(s).len() as usize) as nat
}

/// The note appended to a truncated text.
pub open spec fn truncation_note(shown: nat, total: nat) -> Seq<char> {
    "\n\n---\ntruncated ["@ + decimal(shown) + "/"@ + decimal(total) + " chars]"@
}

/// What `truncate_text` returns: the characters from index `start` on, at
/// most `min(end, bytes) - start` of them, where `bytes` is the UTF-8 length of
/// the content; when `end` falls short of that length a note with both
/// numbers follows.
pub open spec fn truncated(content: Seq<char>, start: nat, end: nat) -> Seq<char> {
    let total = byte_len(content);
    let end_idx = if end < total { end } else { total };
    let take: nat = if end_idx > start { (end_idx - start) as nat } else { 0 };
    let lo = if start < content.len() { start } else { content.len() };
    let hi = if start + take < content.len() { start + take } else { content.len() };
    let body = content.subrange(lo as int, hi as int);
    if end_idx < total {
        body + truncation_note(end_idx, total)
    } else {
        body
    }
}

/// Whitespace as `char::is_whitespace` defines it (Unicode `White_Space`).
pub open spec fn is_white_space(c: char) -> bool {
    let u = c as u32;
    (0x09 <= u && u <= 0x0d) || u == 0x20 || u == 0x85 || u == 0xa0 || u == 0x1680
        || (0x2000 <= u && u <= 0x200a) || u == 0x2028 || u == 0x2029 || u == 0x202f
        || u == 0x205f || u == 0x3000
}

/// `s` without its leading whitespace.
pub open spec fn trim_start(s: Seq<char>) -> Seq<char>
    decreases s.len(),
{
    if s.len() > 0 && is_white_space(s[0]) {
        trim_start(s.drop_first())
    } else {
        s
    }
}

/// `s` without its trailing whitespace.
pub open spec fn trim_end(s: Seq<char>) -> Seq<char>
    decreases s.len(),
{
    if s.len() > 0 && is_white_space(s.last()) {
        trim_end(s.drop_last())
    } else {
        s
    }
}

/// `s` without leading and trailing whitespace.
pub open spec fn trimmed(s: Seq<char>) -> Seq<char> {
    trim_end(trim_start(s))
}

/// Relies on `str::trim`: leading and trailing whitespace removed.
#[verifier::external_body]
pub(crate) fn trim(s: &str) -> (r: &str)
    ensures
        r@ == trimmed(s@),
{
    s.trim()
}

/// Relies on `String::push`: the character is appended at the end.
#[verifier::external_body]
pub(crate) fn push_char(s: &mut String, c: char)
    ensures
        final(s)@ == old(s)@.push(c),
{
    s.push(c);
}

/// Appends `text` to `s`.
pub fn push_str(s: &mut String, text: &str)
    ensures
        final(s)@ == old(s)@ + text@,
{
    s.append(text);
}

fn digit(d: u64) -> (c: char)
    requires
        d < 10,
    ensures
        c == digit_char(d as nat),
{
    if d == 0 { '0' }
    else if d == 1 { '1' }
    else if d == 2 { '2' }
    else if d == 3 { '3' }
    else if d == 4 { '4' }
    else if d == 5 { '5' }
    else if d == 6 { '6' }
    else if d == 7 { '7' }
    else if d == 8 { '8' }
    else { '9' }
}

/// Appends the decimal rendering of `n` to `s`.
pub fn push_decimal(s: &mut String, n: u64)
    ensures
        final(s)@ == old(s)@ + decimal(n as nat),
    decreases n,
{
    let ghost before = s@;
    if n >= 10 {
        push_decimal(s, n / 10);
    }
    push_char(s, digit(n % 10));
    proof {
        if n >= 10 {
            assert(s@ =~= before + decimal(n as nat));
        } else {
            assert(s@ =~= before + decimal(n as nat));
        }
    }
}

/// Truncates `content` for display, page by page.
///
/// Keeps the characters from `start` on, up to `min(end, len) - start` of
/// them, where `len` is the content's length in bytes. When `end` is below
/// that length the text `"\n\n---\ntruncated [<shown>/<total> chars]"` is
/// appended, with `<shown> = min(end, len)` and `<total> = len`.
pub fn truncate_text(content: String, start: usize, end: usize) -> (r: String)
    ensures
        r@ == truncated(content@, start as nat, end as nat),
{
    let total = content.as_str().len();
    let end_idx = if end < total { end } else { total };
    let take: usize = if end_idx > start { end_idx - start } else { 0 };
    let n = content.as_str().unicode_len();
    let lo = if start < n { start } else { n };
    let hi = if take < n - lo && lo == start { start + take } else { n };
    let mut result = content.as_str().substring_char(lo, hi).to_owned();
    if end_idx < total {
        push_str(&mut result, "\n\n---\ntruncated [");
        push_decimal(&mut result, end_idx as u64);
        push_str(&mut result, "/");
        push_decimal(&mut result, total as u64);
        push_str(&mut result, " chars]");
        assert(result@ =~= truncated(content@, start as nat, end as nat));
    }
    result
}

} // verus!
