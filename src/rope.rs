use ropey::Rope;
use vstd::prelude::*;

verus! {

/// `ropey`'s rope, held opaque: what it holds is `rope_text`.
#[verifier::external_type_specification]
#[verifier::external_body]
pub struct ExRope(Rope);

/// The characters that a rope holds.
pub uninterp spec fn rope_text(r: Rope) -> Seq<char>;

/// Index `i` of `s` ends a line break: LF, VT, FF, NEL, LS, PS, or a CR that
/// no LF follows (a CR LF pair is one break, which ends at the LF).
pub open spec fn is_break_end(s: Seq<char>, i: int) -> bool {
    0 <= i < s.len() && {
        let c = s[i];
        c == '\n' || c == '\u{b}' || c == '\u{c}' || c == '\u{85}' || c == '\u{2028}' || c
            == '\u{2029}' || (c == '\r' && !(i + 1 < s.len() && s[i + 1] == '\n'))
    }
}

/// The number of line breaks that end before index `c`.
pub open spec fn breaks_before(s: Seq<char>, c: int) -> nat
    decreases c,
{
    if c <= 0 {
        0
    } else {
        breaks_before(s, c - 1) + if is_break_end(s, c - 1) {
            1nat
        } else {
            0nat
        }
    }
}

/// The number of lines of `s`: one more than its line breaks.
pub open spec fn line_count(s: Seq<char>) -> nat {
    breaks_before(s, s.len() as int) + 1
}

/// Line `l` of `s` starts at index `c`.
pub open spec fn is_line_start(s: Seq<char>, l: int, c: int) -> bool {
    0 <= c <= s.len() && breaks_before(s, c) == l && (c == 0 || is_break_end(s, c - 1))
}

/// Relies on `Rope::from_str`: the rope holds the characters of `s`.
#[verifier::external_body]
pub(crate) fn rope_from_str(s: &str) -> (r: Rope)
    ensures
        rope_text(r) == s@,
{
    Rope::from_str(s)
}

/// Relies on `Rope::len_lines`: one more than the number of line breaks.
#[verifier::external_body]
pub(crate) fn rope_len_lines(r: &Rope) -> (n: usize)
    ensures
        n == line_count(rope_text(*r)),
{
    r.len_lines()
}

/// Relies on `Rope::line_to_char`: the index where line `l` starts, and the
/// length of the text for the line one past the last.
#[verifier::external_body]
pub(crate) fn rope_line_to_char(r: &Rope, l: usize) -> (c: usize)
    requires
        l <= line_count(rope_text(*r)),
    ensures
        l < line_count(rope_text(*r)) ==> is_line_start(rope_text(*r), l as int, c as int),
        l == line_count(rope_text(*r)) ==> c == rope_text(*r).len(),
{
    r.line_to_char(l)
}

/// Relies on `Rope::char_to_line`: the number of line breaks before index `c`.
#[verifier::external_body]
pub(crate) fn rope_char_to_line(r: &Rope, c: usize) -> (l: usize)
    requires
        c <= rope_text(*r).len(),
    ensures
        l == breaks_before(rope_text(*r), c as int),
{
    r.char_to_line(c)
}

/// Relies on `Rope::remove`: the characters in `[start, end)` are removed.
#[verifier::external_body]
pub(crate) fn rope_remove(r: &mut Rope, start: usize, end: usize)
    requires
        start <= end <= rope_text(*old(r)).len(),
    ensures
        rope_text(*final(r)) == rope_text(*old(r)).subrange(0, start as int) + rope_text(
            *old(r),
        ).subrange(end as int, rope_text(*old(r)).len() as int),
{
    r.remove(start..end)
}

/// Relies on `Rope::insert`: `text` is inserted at index `at`.
#[verifier::external_body]
pub(crate) fn rope_insert(r: &mut Rope, at: usize, text: &str)
    requires
        at <= rope_text(*old(r)).len(),
    ensures
        rope_text(*final(r)) == rope_text(*old(r)).subrange(0, at as int) + text@ + rope_text(
            *old(r),
        ).subrange(at as int, rope_text(*old(r)).len() as int),
{
    r.insert(at, text)
}

/// Relies on `Rope`'s `Display`: the rope's characters as one string.
#[verifier::external_body]
pub(crate) fn rope_to_string(r: &Rope) -> (s: String)
    ensures
        s@ == rope_text(*r),
{
    r.to_string()
}

/// Relies on `Rope::slice` and `RopeSlice`'s `Display`: the characters in
/// `[start, end)`.
#[verifier::external_body]
pub(crate) fn rope_slice_to_string(r: &Rope, start: usize, end: usize) -> (s: String)
    requires
        start <= end <= rope_text(*r).len(),
    ensures
        s@ == rope_text(*r).subrange(start as int, end as int),
{
    r.slice(start..end).to_string()
}

/// Relies on `Rope::char`: the character at index `i`.
#[verifier::external_body]
pub(crate) fn rope_char(r: &Rope, i: usize) -> (c: char)
    requires
        i < rope_text(*r).len(),
    ensures
        c == rope_text(*r)[i as int],
{
    r.char(i)
}

} // verus!
