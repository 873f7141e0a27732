use crate::regions::{chars_of, lit_at};
use vstd::prelude::*;
use vstd::string::*;

verus! {

/// What a problem found in a template is.
#[derive(Debug, Clone, Copy, PartialEq, Eq, Structural)]
pub enum ProblemKind {
    /// A `{` still open at the end of its line, outside scripts.
    UnclosedBrace,
    /// More `{#if` openers than `{/if}` closers.
    UnclosedIf,
    /// More `{#each` openers than `{/each}` closers.
    UnclosedEach,
    /// More `<script` tags than `</script>` tags.
    UnclosedScript,
}

/// A problem and the characters `[start, end)` it points at.
#[derive(Debug, Clone, Copy, PartialEq, Eq, Structural)]
pub struct Problem {
    pub kind: ProblemKind,
    pub start: usize,
    pub end: usize,
}

impl ProblemKind {
    /// The text shown to the user.
    pub fn message(&self) -> &'static str {
        match self {
            ProblemKind::UnclosedBrace => "Unclosed brace",
            ProblemKind::UnclosedIf => "Unclosed {#if} block - missing {/if}",
            ProblemKind::UnclosedEach => "Unclosed {#each} block - missing {/each}",
            ProblemKind::UnclosedScript => "Unclosed <script> tag",
        }
    }
}

/// The last index `i` with `p` at `i` and ending at or before `e`.
pub open spec fn last_before(t: Seq<char>, p: Seq<char>, e: int) -> Option<int>
    decreases e,
{
    if e < p.len() || e <= 0 {
        None
    } else if lit_at(t, e - p.len(), p) {
        Some(e - p.len())
    } else {
        last_before(t, p, e - 1)
    }
}

/// Index `pos` lies after a `<script` that no later `</script>` closes
/// before `pos`.
pub open spec fn in_script(t: Seq<char>, pos: int) -> bool {
    match (last_before(t, "<script"@, pos), last_before(t, "</script>"@, pos)) {
        (Some(o), Some(c)) => o > c,
        (Some(_), None) => true,
        _ => false,
    }
}

fn last_before_exec(t: &Vec<char>, p: &str, e: usize) -> (r: Option<usize>)
    requires
        e <= t@.len(),
    ensures
        match r {
            Some(i) => last_before(t@, p@, e as int) == Some(i as int),
            None => last_before(t@, p@, e as int) is None,
        },
{
    let n = p.unicode_len();
    let mut k = e;
    while k > 0 && k >= n
        invariant
            k <= e <= t@.len(),
            n == p@.len(),
            last_before(t@, p@, e as int) == last_before(t@, p@, k as int),
        decreases k,
    {
        if crate::regions::lit_at_exec(t, k - n, p) {
            return Some(k - n);
        }
        k -= 1;
    }
    None
}

/// Whether character `pos` of `text` lies in a script block.
pub fn is_in_script_block(text: &str, pos: usize) -> (b: bool)
    requires
        pos <= text@.len(),
    ensures
        b == in_script(text@, pos as int),
{
    let t = chars_of(text);
    is_in_script_chars(&t, pos)
}

fn is_in_script_chars(t: &Vec<char>, pos: usize) -> (b: bool)
    requires
        pos <= t@.len(),
    ensures
        b == in_script(t@, pos as int),
{
    let open = last_before_exec(t, "<script", pos);
    let close = last_before_exec(t, "</script>", pos);
    match (open, close) {
        (Some(o), Some(c)) => o > c,
        (Some(_), None) => true,
        _ => false,
    }
}

/// The brace scanner: `mode` 0 reads markup, 1 skips a `{/* */}` comment,
/// 2 a `{-- --}` comment; `depth` counts open braces, `start` is where the
/// outermost one opened, `acc` holds the `(start, line end)` of each brace
/// left open at a line end outside scripts.
pub open spec fn brace_scan(
    t: Seq<char>,
    i: int,
    mode: int,
    depth: int,
    start: Option<int>,
    acc: Seq<(int, int)>,
) -> Seq<(int, int)>
    decreases t.len() - i, mode,
{
    if i < 0 || i >= t.len() {
        acc
    } else if mode > 0 {
        if i + 2 < t.len() {
            let close = if mode == 1 {
                "*/}"@
            } else {
                "--}"@
            };
            if lit_at(t, i, close) {
                brace_scan(t, i + 3, 0, depth, start, acc)
            } else {
                brace_scan(t, i + 1, mode, depth, start, acc)
            }
        } else {
            brace_scan(t, i, 0, depth, start, acc)
        }
    } else if i + 2 < t.len() && t[i] == '{' && t[i + 1] == '/' && t[i + 2] == '*' {
        brace_scan(t, i + 3, 1, depth, start, acc)
    } else if i + 2 < t.len() && t[i] == '{' && t[i + 1] == '-' && t[i + 2] == '-' {
        brace_scan(t, i + 3, 2, depth, start, acc)
    } else if t[i] == '{' {
        brace_scan(
            t,
            i + 1,
            0,
            depth + 1,
            if depth == 0 {
                Some(i)
            } else {
                start
            },
            acc,
        )
    } else if t[i] == '}' {
        brace_scan(
            t,
            i + 1,
            0,
            if depth > 0 {
                depth - 1
            } else {
                depth
            },
            start,
            acc,
        )
    } else if t[i] == '\n' && depth > 0 && !in_script(t, i) {
        let next = match start {
            Some(s) => acc.push((s, i)),
            None => acc,
        };
        brace_scan(t, i + 1, 0, 0, None, next)
    } else {
        brace_scan(t, i + 1, 0, depth, start, acc)
    }
}

/// The braces of `t` left open at a line end outside scripts.
pub open spec fn unclosed_braces(t: Seq<char>) -> Seq<(int, int)> {
    brace_scan(t, 0, 0, 0, None, Seq::empty())
}


pub open spec fn pairs_view(s: Seq<(usize, usize)>) -> Seq<(int, int)> {
    s.map_values(|p: (usize, usize)| (p.0 as int, p.1 as int))
}

pub open spec fn opt_int(o: Option<usize>) -> Option<int> {
    match o {
        Some(v) => Some(v as int),
        None => None,
    }
}

fn find_unclosed_braces(t: &Vec<char>) -> (r: Vec<(usize, usize)>)
    ensures
        pairs_view(r@) == unclosed_braces(t@),
{
    proof {
        reveal_strlit("*/}");
        reveal_strlit("--}");
    }
    let mut out: Vec<(usize, usize)> = Vec::new();
    let n = t.len();
    let mut i: usize = 0;
    let mut mode: u8 = 0;
    let mut depth: usize = 0;
    let mut start: Option<usize> = None;
    assert(pairs_view(out@) =~= Seq::<(int, int)>::empty());
    while i < n
        invariant
            n == t@.len(),
            i <= n,
            depth <= i,
            mode <= 2,
            unclosed_braces(t@) == brace_scan(
                t@,
                i as int,
                mode as int,
                depth as int,
                opt_int(start),
                pairs_view(out@),
            ),
        decreases n - i, mode,
    {
        if mode > 0 {
            if n - i > 2 {
                let close = if mode == 1 {
                    "*/}"
                } else {
                    "--}"
                };
                if crate::regions::lit_at_exec(t, i, close) {
                    i += 3;
                    mode = 0;
                } else {
                    i += 1;
                }
            } else {
                mode = 0;
            }
        } else if n - i > 2 && t[i] == '{' && t[i + 1] == '/' && t[i + 2] == '*' {
            i += 3;
            mode = 1;
        } else if n - i > 2 && t[i] == '{' && t[i + 1] == '-' && t[i + 2] == '-' {
            i += 3;
            mode = 2;
        } else if t[i] == '{' {
            if depth == 0 {
                start = Some(i);
            }
            depth += 1;
            i += 1;
        } else if t[i] == '}' {
            if depth > 0 {
                depth -= 1;
            }
            i += 1;
        } else if t[i] == '\n' && depth > 0 && !is_in_script_chars(t, i) {
            if let Some(s) = start {
                assert(pairs_view(out@.push((s, i))) =~= pairs_view(out@).push((s as int, i as int)));
                out.push((s, i));
            }
            depth = 0;
            start = None;
            i += 1;
        } else {
            i += 1;
        }
    }
    out
}

/// Uninterpreted: whether `c` belongs to the regular-expression word class
/// `\w` (Unicode: `Alphabetic`, `Join_Control`, `Decimal_Number`, `Mark`,
/// `Connector_Punctuation`).
pub uninterp spec fn regex_word(c: char) -> bool;

/// Relies on `regex_syntax::is_word_character`: membership of `c` in the
/// Unicode word class `\w`.
#[verifier::external_body]
pub(crate) fn is_word_character(c: char) -> (b: bool)
    ensures
        b == regex_word(c),
{
    regex_syntax::is_word_character(c)
}

/// A word ends before index `j`: `j` is the end of `t`, or no identifier
/// character (the class `\w`) stands there.
pub open spec fn word_boundary(t: Seq<char>, j: int) -> bool {
    j >= t.len() || !regex_word(t[j])
}

/// `{#w` at `i`, ending a word.
pub open spec fn block_open_at(t: Seq<char>, i: int, w: Seq<char>) -> bool {
    lit_at(t, i, "{#"@) && lit_at(t, i + 2, w) && word_boundary(t, i + 2 + w.len())
}

/// `{/w}` at `i`.
pub open spec fn block_close_at(t: Seq<char>, i: int, w: Seq<char>) -> bool {
    lit_at(t, i, "{/"@) && lit_at(t, i + 2, w) && lit_at(t, i + 2 + w.len(), "}"@)
}

/// The number of indices below `n` at which `f` holds.
pub open spec fn count_where(n: int, f: spec_fn(int) -> bool) -> nat
    decreases n,
{
    if n <= 0 {
        0
    } else {
        count_where(n - 1, f) + if f(n - 1) {
            1nat
        } else {
            0nat
        }
    }
}

/// The first index from `i` up to `n` at which `f` holds, or `n`.
pub open spec fn first_where(i: int, n: int, f: spec_fn(int) -> bool) -> int
    decreases n - i,
{
    if i >= n {
        n
    } else if f(i) {
        i
    } else {
        first_where(i + 1, n, f)
    }
}

/// One problem of kind `k` at the first index where `open` holds, of
/// length `len`, when `open` holds more often than `close`.
pub open spec fn imbalance(
    t: Seq<char>,
    k: ProblemKind,
    open: spec_fn(int) -> bool,
    close: spec_fn(int) -> bool,
    len: int,
) -> Seq<(ProblemKind, int, int)> {
    if count_where(t.len() as int, open) > count_where(t.len() as int, close) {
        let f = first_where(0, t.len() as int, open);
        seq![(k, f, f + len)]
    } else {
        Seq::empty()
    }
}

/// One open-brace problem per `(start, end)` pair.
pub open spec fn brace_problems(s: Seq<(int, int)>) -> Seq<(ProblemKind, int, int)> {
    s.map_values(|p: (int, int)| (ProblemKind::UnclosedBrace, p.0, p.1))
}

/// The markers that are counted: 0 `{#if`, 1 `{/if}`, 2 `{#each`,
/// 3 `{/each}`, 4 `<script`, 5 `</script>`.
pub open spec fn marker(t: Seq<char>, which: int) -> spec_fn(int) -> bool {
    |i: int|
        if which == 0 {
            block_open_at(t, i, "if"@)
        } else if which == 1 {
            block_close_at(t, i, "if"@)
        } else if which == 2 {
            block_open_at(t, i, "each"@)
        } else if which == 3 {
            block_close_at(t, i, "each"@)
        } else if which == 4 {
            lit_at(t, i, "<script"@)
        } else {
            lit_at(t, i, "</script>"@)
        }
}

/// All problems of `t`: open braces, then unbalanced `{#if}` and `{#each}`
/// blocks, then an unclosed `<script>`.
pub open spec fn problems(t: Seq<char>) -> Seq<(ProblemKind, int, int)> {
    brace_problems(unclosed_braces(t)) + imbalance(t, ProblemKind::UnclosedIf, marker(t, 0), marker(t, 1), 4) + imbalance(
        t,
        ProblemKind::UnclosedEach,
        marker(t, 2),
        marker(t, 3),
        6,
    ) + imbalance(t, ProblemKind::UnclosedScript, marker(t, 4), marker(t, 5), 7)
}

pub open spec fn problems_view(v: Seq<Problem>) -> Seq<(ProblemKind, int, int)> {
    v.map_values(|p: Problem| (p.kind, p.start as int, p.end as int))
}


fn marker_at(t: &Vec<char>, i: usize, which: u8) -> (b: bool)
    requires
        which <= 5,
        i < t@.len(),
    ensures
        b == marker(t@, which as int)(i as int),
        b ==> i + if which == 0 {
            4int
        } else if which == 2 {
            6int
        } else if which == 4 {
            7int
        } else {
            0int
        } <= t@.len(),
{
    proof {
        reveal_strlit("{#");
        reveal_strlit("{/");
        reveal_strlit("if");
        reveal_strlit("each");
        reveal_strlit("<script");
    }
    if which == 4 {
        return crate::regions::lit_at_exec(t, i, "<script");
    }
    if which == 5 {
        return crate::regions::lit_at_exec(t, i, "</script>");
    }
    let w = if which <= 1 {
        "if"
    } else {
        "each"
    };
    let closing = which == 1 || which == 3;
    if !crate::regions::lit_at_exec(t, i, if closing {
        "{/"
    } else {
        "{#"
    }) {
        return false;
    }
    if !crate::regions::lit_at_exec(t, i + 2, w) {
        return false;
    }
    let j = i + 2 + w.unicode_len();
    if closing {
        crate::regions::lit_at_exec(t, j, "}")
    } else {
        j >= t.len() || !is_word_character(t[j])
    }
}

fn push_imbalance(
    t: &Vec<char>,
    k: ProblemKind,
    open: u8,
    close: u8,
    len: usize,
    out: &mut Vec<Problem>,
)
    requires
        open <= 5,
        close <= 5,
        (open == 0 && len == 4) || (open == 2 && len == 6) || (open == 4 && len == 7),
    ensures
        problems_view(final(out)@) == problems_view(old(out)@) + imbalance(
            t@,
            k,
            marker(t@, open as int),
            marker(t@, close as int),
            len as int,
        ),
{
    let ghost fo = marker(t@, open as int);
    let ghost fc = marker(t@, close as int);
    let n = t.len();
    let mut i: usize = 0;
    let mut opens: usize = 0;
    let mut closes: usize = 0;
    let mut first: Option<usize> = None;
    while i < n
        invariant
            n == t@.len(),
            i <= n,
            opens <= i,
            closes <= i,
            open <= 5,
            close <= 5,
            (open == 0 && len == 4) || (open == 2 && len == 6) || (open == 4 && len == 7),
            fo == marker(t@, open as int),
            fc == marker(t@, close as int),
            opens == count_where(i as int, fo),
            closes == count_where(i as int, fc),
            match first {
                Some(f) => first_where(0, n as int, fo) == f && f + len <= n,
                None => first_where(0, n as int, fo) == first_where(i as int, n as int, fo)
                    && opens == 0,
            },
        decreases n - i,
    {
        if marker_at(t, i, open) {
            opens += 1;
            if first.is_none() {
                first = Some(i);
            }
        }
        if marker_at(t, i, close) {
            closes += 1;
        }
        i += 1;
    }
    if opens > closes {
        if let Some(f) = first {
            let p = Problem { kind: k, start: f, end: f + len };
            assert(problems_view(out@.push(p)) =~= problems_view(out@).push(
                (k, f as int, (f + len) as int),
            ));
            out.push(p);
        }
    } else {
        assert(problems_view(out@) =~= problems_view(out@) + Seq::<(ProblemKind, int, int)>::empty());
    }
}

/// The problems of `text`, with character offsets: braces left open at a
/// line end outside scripts, unbalanced `{#if}` and `{#each}` blocks, and an
/// unclosed `<script>` tag.
pub fn compute_problems(text: &str) -> (r: Vec<Problem>)
    ensures
        problems_view(r@) == problems(text@),
{
    let t = chars_of(text);
    let braces = find_unclosed_braces(&t);
    let mut out: Vec<Problem> = Vec::new();
    let mut q: usize = 0;
    while q < braces.len()
        invariant
            q <= braces@.len(),
            out@.len() == q,
            problems_view(out@) == brace_problems(pairs_view(braces@).subrange(0, q as int)),
        decreases braces@.len() - q,
    {
        let (s, e) = braces[q];
        let p = Problem { kind: ProblemKind::UnclosedBrace, start: s, end: e };
        assert(pairs_view(braces@)[q as int] == (s as int, e as int));
        proof {
            let a = problems_view(out@.push(p));
            let b = brace_problems(pairs_view(braces@).subrange(0, q + 1));
            let c = brace_problems(pairs_view(braces@).subrange(0, q as int));
            assert forall|j: int| 0 <= j < a.len() implies a[j] == b[j] by {
                if j < q {
                    assert(out@.push(p)[j] == out@[j]);
                    assert(a[j] == problems_view(out@)[j]);
                    assert(c[j] == b[j]);
                }
            }
            assert(a =~= b);
        }
        out.push(p);
        q += 1;
    }
    assert(pairs_view(braces@).subrange(0, braces@.len() as int) =~= pairs_view(braces@));
    push_imbalance(&t, ProblemKind::UnclosedIf, 0, 1, 4, &mut out);
    push_imbalance(&t, ProblemKind::UnclosedEach, 2, 3, 6, &mut out);
    push_imbalance(&t, ProblemKind::UnclosedScript, 4, 5, 7, &mut out);
    proof {
        let tv = t@;
        assert(problems_view(out@) =~= problems(tv));
    }
    out
}

} // verus!
