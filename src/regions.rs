use vstd::prelude::*;
use vstd::string::*;

verus! {

/// What a classified span of a template holds.
#[derive(Debug, Clone, Copy, PartialEq, Eq, Structural)]
pub enum RegionType {
    /// Template markup (plain text; never produced by the classifier).
    Template,
    /// A `<script module>` or `<script context="module">` block.
    LuaScriptModule,
    /// A plain `<script>` block.
    LuaScript,
    /// An interpolated expression `{expr}`.
    LuaExpression,
    /// A control-flow marker: `{#if c}`, `{:else}`, `{/each}`, `{!x}`.
    ControlFlow,
    /// A directive: `{@html x}`, `{@local a = b}`, `{@render f()}`.
    Directive,
    /// A markup comment `<!-- ... -->`.
    HtmlComment,
    /// A template comment `{/* ... */}`.
    LuatComment,
}

/// The mathematical value of a `Region`: its kind, its half-open span
/// `[start, end)` in characters, and the text it extracted.
pub struct Span {
    pub kind: RegionType,
    pub start: int,
    pub end: int,
    pub content: Option<Seq<char>>,
}

/// Whitespace as the Unicode `White_Space` property defines it.
pub open spec fn is_space(c: char) -> bool {
    let n = c as u32;
    (9 <= n && n <= 13) || n == 32 || n == 0x85 || n == 0xa0 || n == 0x1680
        || (0x2000 <= n && n <= 0x200a) || n == 0x2028 || n == 0x2029 || n == 0x202f
        || n == 0x205f || n == 0x3000
}

/// `p` occurs in `t` at index `i`.
pub open spec fn lit_at(t: Seq<char>, i: int, p: Seq<char>) -> bool {
    0 <= i && i + p.len() <= t.len() && t.subrange(i, i + p.len()) == p
}

/// The first index at or after `j` that is not whitespace (or the end of `t`).
pub open spec fn skip_ws(t: Seq<char>, j: int) -> int
    decreases t.len() - j,
{
    if 0 <= j < t.len() && is_space(t[j]) {
        skip_ws(t, j + 1)
    } else {
        j
    }
}

/// The first index at or after `from` where `p` occurs.
pub open spec fn find_lit(t: Seq<char>, from: int, p: Seq<char>) -> Option<int>
    decreases t.len() - from,
{
    if from < 0 || from >= t.len() {
        None
    } else if lit_at(t, from, p) {
        Some(from)
    } else {
        find_lit(t, from + 1, p)
    }
}

/// The first index at or after `from` where `p` occurs, provided no line feed
/// comes before it.
pub open spec fn find_lit_in_line(t: Seq<char>, from: int, p: Seq<char>) -> Option<int>
    decreases t.len() - from,
{
    if from < 0 || from >= t.len() {
        None
    } else if lit_at(t, from, p) {
        Some(from)
    } else if t[from] == '\n' {
        None
    } else {
        find_lit_in_line(t, from + 1, p)
    }
}

/// The body of a script whose opening tag ends before `open_end`: up to the
/// first `</script>`. Matches, here and below, are
/// `(end, content_start, content_end)`: a match spans from where it was
/// looked for to `end`.
pub open spec fn script_body(t: Seq<char>, open_end: int) -> Option<(int, int, int)> {
    match find_lit(t, open_end, "</script>"@) {
        Some(j) => Some((j + 9, open_end, j)),
        None => None,
    }
}

/// What follows `<script` and its whitespace in a module tag: `module` or
/// `context = "module"`; the index after it.
pub open spec fn module_attr_end(t: Seq<char>, k: int) -> Option<int> {
    if lit_at(t, k, "module"@) {
        Some(k + 6)
    } else if lit_at(t, k, "context"@) {
        let a = skip_ws(t, k + 7);
        if 0 <= a < t.len() && t[a] == '=' {
            let b = skip_ws(t, a + 1);
            if lit_at(t, b, "\"module\""@) {
                Some(b + 8)
            } else {
                None
            }
        } else {
            None
        }
    } else {
        None
    }
}

/// `<script` ws+ (`module` | `context` ws* `=` ws* `"module"`) ws* `>` ... `</script>`
pub open spec fn module_script_at(t: Seq<char>, i: int) -> Option<(int, int, int)> {
    if lit_at(t, i, "<script"@) {
        let k = skip_ws(t, i + 7);
        if k > i + 7 {
            match module_attr_end(t, k) {
                Some(m) => {
                    let g = skip_ws(t, m);
                    if 0 <= g < t.len() && t[g] == '>' {
                        script_body(t, g + 1)
                    } else {
                        None
                    }
                },
                None => None,
            }
        } else {
            None
        }
    } else {
        None
    }
}

/// `<script` ws* `>` ... `</script>`
pub open spec fn script_at(t: Seq<char>, i: int) -> Option<(int, int, int)> {
    if lit_at(t, i, "<script"@) {
        let g = skip_ws(t, i + 7);
        if 0 <= g < t.len() && t[g] == '>' {
            script_body(t, g + 1)
        } else {
            None
        }
    } else {
        None
    }
}

/// `{/*` ... `*/}` within one line.
pub open spec fn luat_comment_at(t: Seq<char>, i: int) -> Option<(int, int, int)> {
    if lit_at(t, i, "{/*"@) {
        match find_lit_in_line(t, i + 3, "*/}"@) {
            Some(j) => Some((j + 3, i, j + 3)),
            None => None,
        }
    } else {
        None
    }
}

/// `<!--` ... `-->` within one line.
pub open spec fn html_comment_at(t: Seq<char>, i: int) -> Option<(int, int, int)> {
    if lit_at(t, i, "<!--"@) {
        match find_lit_in_line(t, i + 4, "-->"@) {
            Some(j) => Some((j + 3, i, j + 3)),
            None => None,
        }
    } else {
        None
    }
}

/// The characters that open a control-flow marker after `{`.
pub open spec fn is_flow_sigil(c: char) -> bool {
    c == '#' || c == ':' || c == '/' || c == '!'
}

/// The characters after `{` that keep a brace pair from being an expression.
pub open spec fn is_reserved_sigil(c: char) -> bool {
    is_flow_sigil(c) || c == '@'
}

/// From the `{` at `i`, everything up to the first `}` at or after `i + 2`.
pub open spec fn brace_run(t: Seq<char>, i: int) -> Option<(int, int, int)> {
    match find_lit(t, i + 2, "}"@) {
        Some(j) => Some((j + 1, i + 1, j)),
        None => None,
    }
}

/// `{` `#:/!` non-`}`* `}`
pub open spec fn control_flow_at(t: Seq<char>, i: int) -> Option<(int, int, int)> {
    if 0 <= i && i + 1 < t.len() && t[i] == '{' && is_flow_sigil(t[i + 1]) {
        brace_run(t, i)
    } else {
        None
    }
}

/// `{@` non-`}`* `}`
pub open spec fn directive_at(t: Seq<char>, i: int) -> Option<(int, int, int)> {
    if 0 <= i && i + 1 < t.len() && t[i] == '{' && t[i + 1] == '@' {
        brace_run(t, i)
    } else {
        None
    }
}

/// `{` non-`}`+ `}`
pub open spec fn mustache_at(t: Seq<char>, i: int) -> Option<(int, int, int)> {
    if 0 <= i && i + 1 < t.len() && t[i] == '{' && t[i + 1] != '}' {
        brace_run(t, i)
    } else {
        None
    }
}

/// The match of the pattern of kind `k` that starts at `i`, if any.
pub open spec fn match_at(k: RegionType, t: Seq<char>, i: int) -> Option<(int, int, int)> {
    match k {
        RegionType::LuaScriptModule => module_script_at(t, i),
        RegionType::LuaScript => script_at(t, i),
        RegionType::LuatComment => luat_comment_at(t, i),
        RegionType::HtmlComment => html_comment_at(t, i),
        RegionType::ControlFlow => control_flow_at(t, i),
        RegionType::Directive => directive_at(t, i),
        RegionType::LuaExpression => mustache_at(t, i),
        RegionType::Template => None,
    }
}


/// A match found by an executable matcher, seen as integers.
pub open spec fn hit_view(r: Option<(usize, usize, usize)>) -> Option<(int, int, int)> {
    match r {
        Some(h) => Some((h.0 as int, h.1 as int, h.2 as int)),
        None => None,
    }
}

/// A match that starts at `i` is a non-empty span of `t` and holds its content.
pub open spec fn hit_in_bounds(t: Seq<char>, i: int, r: Option<(int, int, int)>) -> bool {
    match r {
        Some(h) => i < h.0 <= t.len() && i <= h.1 <= h.2 <= h.0,
        None => true,
    }
}

pub(crate) fn is_space_char(c: char) -> (b: bool)
    ensures
        b == is_space(c),
{
    let n = c as u32;
    (9 <= n && n <= 13) || n == 32 || n == 0x85 || n == 0xa0 || n == 0x1680 || (0x2000 <= n
        && n <= 0x200a) || n == 0x2028 || n == 0x2029 || n == 0x202f || n == 0x205f || n
        == 0x3000
}

pub(crate) fn lit_at_exec(t: &Vec<char>, i: usize, p: &str) -> (b: bool)
    ensures
        b == lit_at(t@, i as int, p@),
        t@.len() <= usize::MAX,
{
    let n = p.unicode_len();
    if i > t.len() || n > t.len() - i {
        return false;
    }
    let mut k: usize = 0;
    while k < n
        invariant
            n == p@.len(),
            i + n <= t@.len(),
            t@.len() <= usize::MAX,
            k <= n,
            forall|j: int| 0 <= j < k ==> t@[i + j] == p@[j],
        decreases n - k,
    {
        if t[i + k] != p.get_char(k) {
            assert(t@.subrange(i as int, i + n)[k as int] != p@[k as int]);
            return false;
        }
        k += 1;
    }
    assert(t@.subrange(i as int, i + n) =~= p@);
    true
}

pub(crate) fn skip_ws_exec(t: &Vec<char>, j: usize) -> (r: usize)
    requires
        j <= t@.len(),
    ensures
        r as int == skip_ws(t@, j as int),
        j <= r <= t@.len(),
        t@.len() <= usize::MAX,
{
    let mut k = j;
    while k < t.len() && is_space_char(t[k])
        invariant
            j <= k <= t@.len(),
            skip_ws(t@, j as int) == skip_ws(t@, k as int),
        decreases t@.len() - k,
    {
        k += 1;
    }
    k
}

fn find_lit_exec(t: &Vec<char>, from: usize, p: &str) -> (r: Option<usize>)
    ensures
        match r {
            Some(j) => find_lit(t@, from as int, p@) == Some(j as int) && from <= j < t@.len()
                && lit_at(t@, j as int, p@),
            None => find_lit(t@, from as int, p@) is None,
        },
        t@.len() <= usize::MAX,
{
    let mut j = from;
    if j >= t.len() {
        return None;
    }
    while j < t.len()
        invariant
            from <= j,
            t@.len() <= usize::MAX,
            find_lit(t@, from as int, p@) == find_lit(t@, j as int, p@),
        decreases t@.len() - j,
    {
        if lit_at_exec(t, j, p) {
            return Some(j);
        }
        j += 1;
    }
    None
}

fn find_lit_in_line_exec(t: &Vec<char>, from: usize, p: &str) -> (r: Option<usize>)
    ensures
        match r {
            Some(j) => find_lit_in_line(t@, from as int, p@) == Some(j as int) && from <= j
                < t@.len() && lit_at(t@, j as int, p@),
            None => find_lit_in_line(t@, from as int, p@) is None,
        },
        t@.len() <= usize::MAX,
{
    let mut j = from;
    if j >= t.len() {
        return None;
    }
    while j < t.len()
        invariant
            from <= j,
            t@.len() <= usize::MAX,
            find_lit_in_line(t@, from as int, p@) == find_lit_in_line(t@, j as int, p@),
        decreases t@.len() - j,
    {
        if lit_at_exec(t, j, p) {
            return Some(j);
        }
        if t[j] == '\n' {
            return None;
        }
        j += 1;
    }
    None
}

fn script_body_exec(t: &Vec<char>, open_end: usize) -> (r: Option<(usize, usize, usize)>)
    ensures
        hit_view(r) == script_body(t@, open_end as int),
        hit_in_bounds(t@, open_end as int - 1, hit_view(r)),
{
    proof {
        reveal_strlit("</script>");
    }
    match find_lit_exec(t, open_end, "</script>") {
        Some(j) => Some((j + 9, open_end, j)),
        None => None,
    }
}

fn module_script_exec(t: &Vec<char>, i: usize) -> (r: Option<(usize, usize, usize)>)
    ensures
        hit_view(r) == module_script_at(t@, i as int),
        hit_in_bounds(t@, i as int, hit_view(r)),
{
    proof {
        reveal_strlit("<script");
        reveal_strlit("module");
        reveal_strlit("context");
        reveal_strlit("\"module\"");
    }
    if !lit_at_exec(t, i, "<script") {
        return None;
    }
    let k = skip_ws_exec(t, i + 7);
    if k <= i + 7 {
        return None;
    }
    let m = if lit_at_exec(t, k, "module") {
        k + 6
    } else if lit_at_exec(t, k, "context") {
        let a = skip_ws_exec(t, k + 7);
        if a < t.len() && t[a] == '=' {
            let b = skip_ws_exec(t, a + 1);
            if lit_at_exec(t, b, "\"module\"") {
                b + 8
            } else {
                return None;
            }
        } else {
            return None;
        }
    } else {
        return None;
    };
    assert(module_attr_end(t@, k as int) == Some(m as int));
    let g = skip_ws_exec(t, m);
    if g < t.len() && t[g] == '>' {
        script_body_exec(t, g + 1)
    } else {
        None
    }
}

fn script_exec(t: &Vec<char>, i: usize) -> (r: Option<(usize, usize, usize)>)
    ensures
        hit_view(r) == script_at(t@, i as int),
        hit_in_bounds(t@, i as int, hit_view(r)),
{
    proof {
        reveal_strlit("<script");
    }
    if !lit_at_exec(t, i, "<script") {
        return None;
    }
    let g = skip_ws_exec(t, i + 7);
    if g < t.len() && t[g] == '>' {
        script_body_exec(t, g + 1)
    } else {
        None
    }
}

fn luat_comment_exec(t: &Vec<char>, i: usize) -> (r: Option<(usize, usize, usize)>)
    ensures
        hit_view(r) == luat_comment_at(t@, i as int),
        hit_in_bounds(t@, i as int, hit_view(r)),
{
    proof {
        reveal_strlit("{/*");
        reveal_strlit("*/}");
    }
    if !lit_at_exec(t, i, "{/*") {
        return None;
    }
    match find_lit_in_line_exec(t, i + 3, "*/}") {
        Some(j) => Some((j + 3, i, j + 3)),
        None => None,
    }
}

fn html_comment_exec(t: &Vec<char>, i: usize) -> (r: Option<(usize, usize, usize)>)
    ensures
        hit_view(r) == html_comment_at(t@, i as int),
        hit_in_bounds(t@, i as int, hit_view(r)),
{
    proof {
        reveal_strlit("<!--");
        reveal_strlit("-->");
    }
    if !lit_at_exec(t, i, "<!--") {
        return None;
    }
    match find_lit_in_line_exec(t, i + 4, "-->") {
        Some(j) => Some((j + 3, i, j + 3)),
        None => None,
    }
}

fn brace_run_exec(t: &Vec<char>, i: usize) -> (r: Option<(usize, usize, usize)>)
    requires
        i + 1 < t@.len() <= usize::MAX,
    ensures
        hit_view(r) == brace_run(t@, i as int),
        hit_in_bounds(t@, i as int, hit_view(r)),
{
    proof {
        reveal_strlit("}");
    }
    match find_lit_exec(t, i + 2, "}") {
        Some(j) => Some((j + 1, i + 1, j)),
        None => None,
    }
}

fn match_exec(k: RegionType, t: &Vec<char>, i: usize) -> (r: Option<(usize, usize, usize)>)
    ensures
        hit_view(r) == match_at(k, t@, i as int),
        hit_in_bounds(t@, i as int, hit_view(r)),
{
    match k {
        RegionType::LuaScriptModule => module_script_exec(t, i),
        RegionType::LuaScript => script_exec(t, i),
        RegionType::LuatComment => luat_comment_exec(t, i),
        RegionType::HtmlComment => html_comment_exec(t, i),
        RegionType::ControlFlow => {
            if i < t.len() && t.len() - i > 1 && t[i] == '{' && (t[i + 1] == '#' || t[i + 1] == ':'
                || t[i + 1] == '/' || t[i + 1] == '!') {
                brace_run_exec(t, i)
            } else {
                None
            }
        },
        RegionType::Directive => {
            if i < t.len() && t.len() - i > 1 && t[i] == '{' && t[i + 1] == '@' {
                brace_run_exec(t, i)
            } else {
                None
            }
        },
        RegionType::LuaExpression => {
            if i < t.len() && t.len() - i > 1 && t[i] == '{' && t[i + 1] != '}' {
                brace_run_exec(t, i)
            } else {
                None
            }
        },
        RegionType::Template => None,
    }
}


/// A classified span of a document: its kind, its half-open character range
/// `[start, end)`, and, for scripts, expressions, control-flow markers and
/// directives, the text it extracted.
#[derive(Debug, Clone)]
pub struct Region {
    pub region_type: RegionType,
    pub start: usize,
    pub end: usize,
    /// For scripts and expressions the text between the delimiters; for
    /// control-flow markers and directives the whole marker; for comments
    /// nothing.
    pub content: Option<String>,
}

pub open spec fn opt_text(c: Option<String>) -> Option<Seq<char>> {
    match c {
        Some(s) => Some(s@),
        None => None,
    }
}

impl View for Region {
    type V = Span;

    open spec fn view(&self) -> Span {
        Span {
            kind: self.region_type,
            start: self.start as int,
            end: self.end as int,
            content: opt_text(self.content),
        }
    }
}

/// `o` lies in the half-open range of `s`.
pub open spec fn span_contains(s: Span, o: int) -> bool {
    s.start <= o < s.end
}

impl Region {
    pub fn contains(&self, offset: usize) -> (r: bool)
        ensures
            r == span_contains(self@, offset as int),
    {
        offset >= self.start && offset < self.end
    }
}

/// All regions of a document, in ascending order of their start.
#[derive(Debug)]
pub struct DocumentRegions {
    pub regions: Vec<Region>,
}

pub open spec fn spans_of(v: Seq<Region>) -> Seq<Span> {
    v.map_values(|r: Region| r@)
}

impl View for DocumentRegions {
    type V = Seq<Span>;

    open spec fn view(&self) -> Seq<Span> {
        spans_of(self.regions@)
    }
}

/// `s[i]` is the first span of `s` that contains `o`.
pub open spec fn first_at(s: Seq<Span>, o: int, i: int) -> bool {
    0 <= i < s.len() && span_contains(s[i], o) && forall|j: int|
        0 <= j < i ==> !span_contains(#[trigger] s[j], o)
}

/// Some span of `acc` contains `o`.
pub open spec fn inside(acc: Seq<Span>, o: int) -> bool {
    exists|q: int| 0 <= q < acc.len() && span_contains(#[trigger] acc[q], o)
}

/// Some module script of `acc` starts at `o`.
pub open spec fn module_starts_at(acc: Seq<Span>, o: int) -> bool {
    exists|q: int|
        0 <= q < acc.len() && (#[trigger] acc[q]).kind == RegionType::LuaScriptModule
            && acc[q].start == o
}

/// No span of `acc` shares an offset with `[start, end)`.
pub open spec fn clear_of(acc: Seq<Span>, start: int, end: int) -> bool {
    forall|q: int| 0 <= q < acc.len() ==> (#[trigger] acc[q]).end <= start || end <= acc[q].start
}

/// Whether a match of kind `k` at `i` is kept, given what was claimed before.
pub open spec fn admitted(k: RegionType, t: Seq<char>, i: int, acc: Seq<Span>) -> bool {
    match k {
        RegionType::LuaScript => !module_starts_at(acc, i),
        RegionType::ControlFlow => !inside(acc, i),
        RegionType::Directive => !inside(acc, i),
        RegionType::LuaExpression => !inside(acc, i) && !is_reserved_sigil(t[i + 1]),
        _ => true,
    }
}

/// The region that a match `h` of kind `k` at `i` makes.
pub open spec fn span_of(k: RegionType, t: Seq<char>, i: int, h: (int, int, int)) -> Span {
    Span {
        kind: k,
        start: i,
        end: h.0,
        content: match k {
            RegionType::LuaScriptModule => Some(t.subrange(h.1, h.2)),
            RegionType::LuaScript => Some(t.subrange(h.1, h.2)),
            RegionType::LuaExpression => Some(t.subrange(h.1, h.2)),
            RegionType::ControlFlow => Some(t.subrange(i, h.0)),
            RegionType::Directive => Some(t.subrange(i, h.0)),
            _ => None,
        },
    }
}

/// One pass: the leftmost, non-overlapping matches of kind `k` from `pos` on,
/// each appended to `acc` when admitted and clear of every region `acc`
/// already holds.
pub open spec fn scan(k: RegionType, t: Seq<char>, pos: int, acc: Seq<Span>) -> Seq<Span>
    decreases t.len() - pos,
{
    if pos < 0 || pos >= t.len() {
        acc
    } else {
        match match_at(k, t, pos) {
            Some(h) => {
                if pos < h.0 <= t.len() {
                    let next = if admitted(k, t, pos, acc) && clear_of(acc, pos, h.0) {
                        acc.push(span_of(k, t, pos, h))
                    } else {
                        acc
                    };
                    scan(k, t, h.0, next)
                } else {
                    acc
                }
            },
            None => scan(k, t, pos + 1, acc),
        }
    }
}

/// Every region the passes claim, in the order of the passes.
pub open spec fn claimed(t: Seq<char>) -> Seq<Span> {
    let a1 = scan(RegionType::LuaScriptModule, t, 0, Seq::empty());
    let a2 = scan(RegionType::LuaScript, t, 0, a1);
    let a3 = scan(RegionType::LuatComment, t, 0, a2);
    let a4 = scan(RegionType::HtmlComment, t, 0, a3);
    let a5 = scan(RegionType::ControlFlow, t, 0, a4);
    let a6 = scan(RegionType::Directive, t, 0, a5);
    scan(RegionType::LuaExpression, t, 0, a6)
}

/// `x` placed before the first span of `s` that does not start before it.
pub open spec fn insert_by_start(s: Seq<Span>, x: Span) -> Seq<Span>
    decreases s.len(),
{
    if s.len() == 0 {
        seq![x]
    } else if x.start <= s[0].start {
        seq![x] + s
    } else {
        seq![s[0]] + insert_by_start(s.drop_first(), x)
    }
}

/// Stable insertion sort of `s` by start.
pub open spec fn sort_by_start(s: Seq<Span>) -> Seq<Span>
    decreases s.len(),
{
    if s.len() == 0 {
        s
    } else {
        insert_by_start(sort_by_start(s.drop_first()), s[0])
    }
}

/// The regions of text `t`.
pub open spec fn classify(t: Seq<char>) -> Seq<Span> {
    sort_by_start(claimed(t))
}

proof fn lemma_insert_at(s: Seq<Span>, x: Span, k: int)
    requires
        0 <= k <= s.len(),
        forall|j: int| 0 <= j < k ==> s[j].start < x.start,
        k == s.len() || x.start <= s[k].start,
    ensures
        insert_by_start(s, x) == s.insert(k, x),
    decreases s.len(),
{
    if s.len() == 0 {
        assert(s.insert(k, x) =~= seq![x]);
    } else if x.start <= s[0].start {
        assert(seq![x] + s =~= s.insert(k, x));
    } else {
        let r = s.drop_first();
        lemma_insert_at(r, x, k - 1);
        assert(seq![s[0]] + r.insert(k - 1, x) =~= s.insert(k, x));
    }
}

fn is_inside_region(regions: &[Region], offset: usize) -> (b: bool)
    ensures
        b == inside(spans_of(regions@), offset as int),
{
    let mut q: usize = 0;
    while q < regions.len()
        invariant
            q <= regions@.len(),
            forall|j: int| 0 <= j < q ==> !span_contains(#[trigger] regions@[j]@, offset as int),
        decreases regions@.len() - q,
    {
        if regions[q].contains(offset) {
            assert(spans_of(regions@)[q as int] == regions@[q as int]@);
            return true;
        }
        q += 1;
    }
    assert forall|j: int| 0 <= j < spans_of(regions@).len() implies !span_contains(
        #[trigger] spans_of(regions@)[j],
        offset as int,
    ) by {
        assert(spans_of(regions@)[j] == regions@[j]@);
    }
    false
}

fn is_clear_of(acc: &Vec<Region>, start: usize, end: usize) -> (b: bool)
    ensures
        b == clear_of(spans_of(acc@), start as int, end as int),
{
    let mut q: usize = 0;
    while q < acc.len()
        invariant
            q <= acc@.len(),
            forall|j: int|
                0 <= j < q ==> (#[trigger] acc@[j]).end <= start || end <= acc@[j].start,
        decreases acc@.len() - q,
    {
        if !(acc[q].end <= start || end <= acc[q].start) {
            assert(spans_of(acc@)[q as int] == acc@[q as int]@);
            return false;
        }
        q += 1;
    }
    assert forall|j: int| 0 <= j < spans_of(acc@).len() implies (#[trigger] spans_of(
        acc@,
    )[j]).end <= start || end <= spans_of(acc@)[j].start by {
        assert(spans_of(acc@)[j] == acc@[j]@);
    }
    true
}

fn admitted_exec(k: RegionType, t: &Vec<char>, i: usize, acc: &Vec<Region>) -> (b: bool)
    requires
        k == RegionType::LuaExpression ==> i + 1 < t@.len() <= usize::MAX,
    ensures
        b == admitted(k, t@, i as int, spans_of(acc@)),
{
    match k {
        RegionType::LuaScript => {
            let mut q: usize = 0;
            while q < acc.len()
                invariant
                    k == RegionType::LuaScript,
                    q <= acc@.len(),
                    forall|j: int|
                        0 <= j < q ==> !((#[trigger] acc@[j]).region_type
                            == RegionType::LuaScriptModule && acc@[j].start == i),
                decreases acc@.len() - q,
            {
                if acc[q].region_type == RegionType::LuaScriptModule && acc[q].start == i {
                    assert(spans_of(acc@)[q as int] == acc@[q as int]@);
                    assert(module_starts_at(spans_of(acc@), i as int));
                    return false;
                }
                q += 1;
            }
            assert forall|j: int| 0 <= j < spans_of(acc@).len() implies !((
            #[trigger] spans_of(acc@)[j]).kind == RegionType::LuaScriptModule
                && spans_of(acc@)[j].start == i) by {
                assert(spans_of(acc@)[j] == acc@[j]@);
            }
            true
        },
        RegionType::ControlFlow => !is_inside_region(acc.as_slice(), i),
        RegionType::Directive => !is_inside_region(acc.as_slice(), i),
        RegionType::LuaExpression => {
            let c = t[i + 1];
            !is_inside_region(acc.as_slice(), i) && !(c == '#' || c == ':' || c == '/' || c == '!'
                || c == '@')
        },
        _ => true,
    }
}

fn scan_pass(k: RegionType, text: &str, t: &Vec<char>, acc: &mut Vec<Region>)
    requires
        text@ == t@,
    ensures
        spans_of(final(acc)@) == scan(k, t@, 0, spans_of(old(acc)@)),
{
    let mut pos: usize = 0;
    while pos < t.len()
        invariant
            text@ == t@,
            pos <= t@.len(),
            scan(k, t@, 0, spans_of(old(acc)@)) == scan(k, t@, pos as int, spans_of(acc@)),
        decreases t@.len() - pos,
    {
        match match_exec(k, t, pos) {
            Some((end, cs, ce)) => {
                if admitted_exec(k, t, pos, acc) && is_clear_of(acc, pos, end) {
                    let content = match k {
                        RegionType::LuaScriptModule | RegionType::LuaScript
                        | RegionType::LuaExpression => Some(text.substring_char(cs, ce).to_owned()),
                        RegionType::ControlFlow | RegionType::Directive => Some(
                            text.substring_char(pos, end).to_owned(),
                        ),
                        _ => None,
                    };
                    let r = Region { region_type: k, start: pos, end, content };
                    assert(r@ == span_of(k, t@, pos as int, (end as int, cs as int, ce as int)));
                    assert(spans_of(acc@.push(r)) =~= spans_of(acc@).push(r@));
                    acc.push(r);
                }
                pos = end;
            },
            None => {
                pos += 1;
            },
        }
    }
}


pub(crate) fn chars_of(text: &str) -> (r: Vec<char>)
    ensures
        r@ == text@,
{
    let mut v: Vec<char> = Vec::new();
    for c in it: text.chars()
        invariant
            v@ == it.seq().subrange(0, it.index() as int),
    {
        v.push(c);
    }
    proof {
        broadcast use vstd::string::axiom_spec_iter;

    }
    assert(v@ =~= text@);
    v
}

fn sort_regions(v: Vec<Region>) -> (r: Vec<Region>)
    ensures
        spans_of(r@) == sort_by_start(spans_of(v@)),
{
    let ghost s0 = spans_of(v@);
    let mut v = v;
    let mut out: Vec<Region> = Vec::new();
    assert(spans_of(out@) =~= sort_by_start(s0.subrange(s0.len() as int, s0.len() as int)));
    while v.len() > 0
        invariant
            v@.len() <= s0.len(),
            spans_of(v@) == s0.subrange(0, v@.len() as int),
            spans_of(out@) == sort_by_start(s0.subrange(v@.len() as int, s0.len() as int)),
        decreases v@.len(),
    {
        let ghost m = v@.len() as int;
        let ghost old_v = v@;
        let x = v.pop().unwrap();
        assert(x@ == s0[m - 1]) by {
            assert(spans_of(old_v)[m - 1] == old_v[m - 1]@);
        }
        assert(spans_of(v@) =~= s0.subrange(0, v@.len() as int));
        let mut k: usize = 0;
        while k < out.len() && out[k].start < x.start
            invariant
                k <= out@.len(),
                forall|j: int| 0 <= j < k ==> (#[trigger] out@[j]).start < x.start,
            decreases out@.len() - k,
        {
            k += 1;
        }
        let ghost old_out = out@;
        proof {
            assert forall|j: int| 0 <= j < k implies (#[trigger] spans_of(old_out)[j]).start
                < x@.start by {
                assert(spans_of(old_out)[j] == old_out[j]@);
            }
            if k < old_out.len() {
                assert(spans_of(old_out)[k as int] == old_out[k as int]@);
            }
            lemma_insert_at(spans_of(old_out), x@, k as int);
        }
        out.insert(k, x);
        proof {
            let tail = s0.subrange(m - 1, s0.len() as int);
            assert(tail.drop_first() =~= s0.subrange(m, s0.len() as int));
            assert(spans_of(out@) =~= spans_of(old_out).insert(k as int, x@));
        }
    }
    assert(s0.subrange(0, s0.len() as int) =~= s0);
    out
}

impl DocumentRegions {
    /// Classify `text` into regions.
    ///
    /// The passes run in a fixed order (module scripts, scripts, template
    /// comments, markup comments, control flow, directives, expressions), each
    /// over the whole text; a match that overlaps a region kept before it is
    /// dropped. The result is sorted by start and no two regions overlap.
    pub fn parse(text: &str) -> (r: Self)
        ensures
            r@ == classify(text@),
            pairwise_disjoint(r@),
            sorted_by_start(r@),
    {
        proof {
            lemma_regions_disjoint(text@);
        }
        let t = chars_of(text);
        let mut regions: Vec<Region> = Vec::new();
        assert(spans_of(regions@) =~= Seq::<Span>::empty());
        scan_pass(RegionType::LuaScriptModule, text, &t, &mut regions);
        scan_pass(RegionType::LuaScript, text, &t, &mut regions);
        scan_pass(RegionType::LuatComment, text, &t, &mut regions);
        scan_pass(RegionType::HtmlComment, text, &t, &mut regions);
        scan_pass(RegionType::ControlFlow, text, &t, &mut regions);
        scan_pass(RegionType::Directive, text, &t, &mut regions);
        scan_pass(RegionType::LuaExpression, text, &t, &mut regions);
        let regions = sort_regions(regions);
        DocumentRegions { regions }
    }

    /// The first region whose range holds `offset`, if any.
    pub fn region_at_offset(&self, offset: usize) -> (r: Option<&Region>)
        ensures
            match r {
                Some(x) => exists|i: int| first_at(self@, offset as int, i) && *x == self.regions@[i],
                None => !inside(self@, offset as int),
            },
    {
        let mut q: usize = 0;
        while q < self.regions.len()
            invariant
                q <= self@.len(),
                forall|j: int| 0 <= j < q ==> !span_contains(#[trigger] self@[j], offset as int),
            decreases self@.len() - q,
        {
            if self.regions[q].contains(offset) {
                assert(first_at(self@, offset as int, q as int));
                return Some(&self.regions[q]);
            }
            q += 1;
        }
        None
    }

    /// The module scripts and scripts, in document order.
    pub fn scripts(&self) -> (r: Vec<&Region>)
        ensures
            r@.map_values(|x: &Region| x@) == self@.filter(|s: Span| is_script_kind(s.kind)),
    {
        let r = self.of_kind(RegionType::LuaScriptModule, RegionType::LuaScript);
        assert((|s: Span| s.kind == RegionType::LuaScriptModule || s.kind == RegionType::LuaScript)
            =~= (|s: Span| is_script_kind(s.kind)));
        r
    }

    /// The expressions, in document order.
    pub fn expressions(&self) -> (r: Vec<&Region>)
        ensures
            r@.map_values(|x: &Region| x@) == self@.filter(
                |s: Span| s.kind == RegionType::LuaExpression,
            ),
    {
        let r = self.of_kind(RegionType::LuaExpression, RegionType::LuaExpression);
        assert((|s: Span| s.kind == RegionType::LuaExpression || s.kind == RegionType::LuaExpression)
            =~= (|s: Span| s.kind == RegionType::LuaExpression));
        r
    }

    fn of_kind(&self, a: RegionType, b: RegionType) -> (r: Vec<&Region>)
        ensures
            r@.map_values(|x: &Region| x@) == self@.filter(|s: Span| s.kind == a || s.kind == b),
    {
        let ghost f = |s: Span| s.kind == a || s.kind == b;
        let mut out: Vec<&Region> = Vec::new();
        let mut q: usize = 0;
        assert(out@.map_values(|x: &Region| x@) =~= self@.subrange(0, 0).filter(f)) by {
            reveal(Seq::filter);
        }
        while q < self.regions.len()
            invariant
                q <= self@.len(),
                f == (|s: Span| s.kind == a || s.kind == b),
                out@.map_values(|x: &Region| x@) == self@.subrange(0, q as int).filter(f),
            decreases self@.len() - q,
        {
            let ghost prev = out@;
            let x = &self.regions[q];
            if x.region_type == a || x.region_type == b {
                out.push(x);
            }
            proof {
                let sub = self@.subrange(0, q + 1);
                assert(sub.drop_last() =~= self@.subrange(0, q as int));
                assert(sub.last() == x@);
                reveal(Seq::filter);
                if f(x@) {
                    assert(out@.map_values(|x: &Region| x@) =~= prev.map_values(|x: &Region| x@).push(x@));
                } else {
                    assert(out@ == prev);
                }
            }
            q += 1;
        }
        assert(self@.subrange(0, self@.len() as int) =~= self@);
        out
    }

    fn append_scripts(&self, doc: &mut String, k: RegionType)
        ensures
            final(doc)@ == old(doc)@ + script_text(self@, k),
    {
        let mut q: usize = 0;
        assert(old(doc)@ + script_text(self@.subrange(0, 0), k) =~= doc@);
        while q < self.regions.len()
            invariant
                q <= self@.len(),
                doc@ == old(doc)@ + script_text(self@.subrange(0, q as int), k),
            decreases self@.len() - q,
        {
            let ghost prev = doc@;
            let region = &self.regions[q];
            if region.region_type == k {
                if let Some(content) = &region.content {
                    doc.append(content.as_str());
                    doc.append("\n\n");
                }
            }
            proof {
                let sub = self@.subrange(0, q + 1);
                assert(sub.drop_last() =~= self@.subrange(0, q as int));
                assert(sub.last() == region@);
                assert(doc@ =~= old(doc)@ + script_text(sub, k));
            }
            q += 1;
        }
        assert(self@.subrange(0, self@.len() as int) =~= self@);
    }

    fn append_expressions(&self, doc: &mut String)
        ensures
            final(doc)@ == old(doc)@ + expression_lines(self@),
    {
        let mut q: usize = 0;
        assert(old(doc)@ + expression_lines(self@.subrange(0, 0)) =~= doc@);
        while q < self.regions.len()
            invariant
                q <= self@.len(),
                doc@ == old(doc)@ + expression_lines(self@.subrange(0, q as int)),
            decreases self@.len() - q,
        {
            let ghost prev = doc@;
            let region = &self.regions[q];
            if region.region_type == RegionType::LuaExpression {
                if let Some(content) = &region.content {
                    doc.append("  local _ = ");
                    doc.append(content.as_str());
                    doc.append("\n");
                }
            }
            proof {
                let sub = self@.subrange(0, q + 1);
                assert(sub.drop_last() =~= self@.subrange(0, q as int));
                assert(sub.last() == region@);
                assert(doc@ =~= old(doc)@ + expression_lines(sub));
            }
            q += 1;
        }
        assert(self@.subrange(0, self@.len() as int) =~= self@);
    }

    /// A script-language document built from the regions: the module
    /// scripts' contents, then the scripts' contents (each followed by a blank
    /// line), then one `local _ = <expr>` line per expression inside a
    /// wrapper function.
    pub fn virtual_lua_document(&self) -> (r: String)
        ensures
            r@ == virtual_lua(self@),
    {
        let mut doc = String::new();
        self.append_scripts(&mut doc, RegionType::LuaScriptModule);
        self.append_scripts(&mut doc, RegionType::LuaScript);
        doc.append("local function __luat_template(props)\n");
        self.append_expressions(&mut doc);
        doc.append("end\n");
        assert(doc@ =~= virtual_lua(self@));
        doc
    }
}

/// A module script or a script.
pub open spec fn is_script_kind(k: RegionType) -> bool {
    k == RegionType::LuaScriptModule || k == RegionType::LuaScript
}

/// The contents of the regions of kind `k`, in order, each followed by a
/// blank line.
pub open spec fn script_text(s: Seq<Span>, k: RegionType) -> Seq<char>
    decreases s.len(),
{
    if s.len() == 0 {
        Seq::empty()
    } else {
        let last = s.last();
        script_text(s.drop_last(), k) + if last.kind == k && last.content is Some {
            last.content->0 + "\n\n"@
        } else {
            Seq::empty()
        }
    }
}

/// One `  local _ = <content>` line per expression, in order.
pub open spec fn expression_lines(s: Seq<Span>) -> Seq<char>
    decreases s.len(),
{
    if s.len() == 0 {
        Seq::empty()
    } else {
        let last = s.last();
        expression_lines(s.drop_last()) + if last.kind == RegionType::LuaExpression
            && last.content is Some {
            "  local _ = "@ + last.content->0 + "\n"@
        } else {
            Seq::empty()
        }
    }
}

/// The script-language document made of the regions `s`.
pub open spec fn virtual_lua(s: Seq<Span>) -> Seq<char> {
    script_text(s, RegionType::LuaScriptModule) + script_text(s, RegionType::LuaScript)
        + "local function __luat_template(props)\n"@ + expression_lines(s) + "end\n"@
}


/// The spans of `s` are in ascending order of start.
pub open spec fn sorted_by_start(s: Seq<Span>) -> bool {
    forall|i: int, j: int| 0 <= i < j < s.len() ==> s[i].start <= s[j].start
}

/// `a` and `b` share no offset.
pub open spec fn disjoint(a: Span, b: Span) -> bool {
    a.end <= b.start || b.end <= a.start
}

/// No two spans of `s` share an offset.
pub open spec fn pairwise_disjoint(s: Seq<Span>) -> bool {
    forall|i: int, j: int| 0 <= i < j < s.len() ==> disjoint(#[trigger] s[i], #[trigger] s[j])
}

/// The order in which the passes claim their kinds.
pub open spec fn priority(k: RegionType) -> int {
    match k {
        RegionType::LuaScriptModule => 0,
        RegionType::LuaScript => 1,
        RegionType::LuatComment => 2,
        RegionType::HtmlComment => 3,
        RegionType::ControlFlow => 4,
        RegionType::Directive => 5,
        RegionType::LuaExpression => 6,
        RegionType::Template => 7,
    }
}

/// The kinds that are only claimed where no earlier region holds their start.
pub open spec fn is_gated(k: RegionType) -> bool {
    k == RegionType::ControlFlow || k == RegionType::Directive || k == RegionType::LuaExpression
}

/// No control-flow marker, directive or expression of `s` starts inside a
/// span of `s` of a kind claimed before its own.
pub open spec fn excludes_contained(s: Seq<Span>) -> bool {
    forall|i: int, j: int|
        0 <= i < s.len() && 0 <= j < s.len() && is_gated(s[i].kind) && priority(s[j].kind)
            < priority(s[i].kind) ==> !span_contains(#[trigger] s[j], (#[trigger] s[i]).start)
}

/// Every span of `s` is of a kind claimed no later than priority `p`.
pub open spec fn kinds_up_to(s: Seq<Span>, p: int) -> bool {
    forall|i: int| 0 <= i < s.len() ==> priority((#[trigger] s[i]).kind) <= p
}

proof fn lemma_insert_members(s: Seq<Span>, x: Span)
    ensures
        insert_by_start(s, x).len() == s.len() + 1,
        forall|i: int|
            0 <= i < s.len() + 1 ==> #[trigger] insert_by_start(s, x)[i] == x || s.contains(
                insert_by_start(s, x)[i],
            ),
    decreases s.len(),
{
    if s.len() > 0 && x.start > s[0].start {
        let r = s.drop_first();
        lemma_insert_members(r, x);
        let ins = insert_by_start(s, x);
        assert forall|i: int| 0 <= i < s.len() + 1 implies #[trigger] ins[i] == x || s.contains(
            ins[i],
        ) by {
            if i == 0 {
                assert(s[0] == ins[0]);
            } else {
                assert(ins[i] == insert_by_start(r, x)[i - 1]);
                if ins[i] != x {
                    let j = choose|j: int| 0 <= j < r.len() && r[j] == ins[i];
                    assert(s[j + 1] == ins[i]);
                }
            }
        }
    } else if s.len() > 0 {
        let ins = insert_by_start(s, x);
        assert forall|i: int| 0 <= i < s.len() + 1 implies #[trigger] ins[i] == x || s.contains(
            ins[i],
        ) by {
            if i > 0 {
                assert(ins[i] == s[i - 1]);
            }
        }
    }
}

proof fn lemma_sort_members(s: Seq<Span>)
    ensures
        sort_by_start(s).len() == s.len(),
        forall|i: int| 0 <= i < s.len() ==> s.contains(#[trigger] sort_by_start(s)[i]),
    decreases s.len(),
{
    if s.len() > 0 {
        let r = s.drop_first();
        lemma_sort_members(r);
        lemma_insert_members(sort_by_start(r), s[0]);
        let out = sort_by_start(s);
        assert forall|i: int| 0 <= i < s.len() implies s.contains(#[trigger] out[i]) by {
            if out[i] == s[0] {
                assert(s[0] == out[i]);
            } else {
                let k = choose|k: int| 0 <= k < r.len() && sort_by_start(r)[k] == out[i];
                let j = choose|j: int| 0 <= j < r.len() && r[j] == sort_by_start(r)[k];
                assert(s[j + 1] == out[i]);
            }
        }
    }
}

proof fn lemma_insert_sorted(s: Seq<Span>, x: Span)
    requires
        sorted_by_start(s),
    ensures
        sorted_by_start(insert_by_start(s, x)),
    decreases s.len(),
{
    if s.len() > 0 && x.start > s[0].start {
        let r = s.drop_first();
        lemma_insert_sorted(r, x);
        lemma_insert_members(r, x);
        let ins = insert_by_start(s, x);
        assert forall|i: int, j: int| 0 <= i < j < ins.len() implies ins[i].start
            <= ins[j].start by {
            let y = insert_by_start(r, x)[j - 1];
            assert(ins[j] == y);
            if i > 0 {
                assert(ins[i] == insert_by_start(r, x)[i - 1]);
            } else if y != x {
                let k = choose|k: int| 0 <= k < r.len() && r[k] == y;
                assert(s[k + 1] == y);
            }
        }
    } else if s.len() > 0 {
        let ins = insert_by_start(s, x);
        assert forall|i: int, j: int| 0 <= i < j < ins.len() implies ins[i].start
            <= ins[j].start by {
            assert(ins[j] == s[j - 1]);
            if i > 0 {
                assert(ins[i] == s[i - 1]);
            }
        }
    }
}

proof fn lemma_sort_sorted(s: Seq<Span>)
    ensures
        sorted_by_start(sort_by_start(s)),
    decreases s.len(),
{
    if s.len() > 0 {
        lemma_sort_sorted(s.drop_first());
        lemma_insert_sorted(sort_by_start(s.drop_first()), s[0]);
    }
}

proof fn lemma_insert_disjoint(s: Seq<Span>, x: Span)
    requires
        pairwise_disjoint(s),
        forall|j: int| 0 <= j < s.len() ==> disjoint(#[trigger] s[j], x),
    ensures
        pairwise_disjoint(insert_by_start(s, x)),
    decreases s.len(),
{
    let ins = insert_by_start(s, x);
    if s.len() > 0 && x.start > s[0].start {
        let r = s.drop_first();
        assert forall|j: int| 0 <= j < r.len() implies disjoint(#[trigger] r[j], x) by {
            assert(r[j] == s[j + 1]);
        }
        assert forall|i: int, j: int| 0 <= i < j < r.len() implies disjoint(
            #[trigger] r[i],
            #[trigger] r[j],
        ) by {
            assert(r[i] == s[i + 1] && r[j] == s[j + 1]);
        }
        lemma_insert_disjoint(r, x);
        lemma_insert_members(r, x);
        assert forall|i: int, j: int| 0 <= i < j < ins.len() implies disjoint(
            #[trigger] ins[i],
            #[trigger] ins[j],
        ) by {
            let y = insert_by_start(r, x)[j - 1];
            assert(ins[j] == y);
            if i > 0 {
                assert(ins[i] == insert_by_start(r, x)[i - 1]);
            } else if y != x {
                let k = choose|k: int| 0 <= k < r.len() && r[k] == y;
                assert(s[k + 1] == y);
                assert(disjoint(s[0], s[k + 1]));
            } else {
                assert(disjoint(s[0], x));
            }
        }
    } else if s.len() > 0 {
        assert forall|i: int, j: int| 0 <= i < j < ins.len() implies disjoint(
            #[trigger] ins[i],
            #[trigger] ins[j],
        ) by {
            assert(ins[j] == s[j - 1]);
            if i > 0 {
                assert(ins[i] == s[i - 1]);
            }
        }
    }
}

proof fn lemma_sort_disjoint(s: Seq<Span>)
    requires
        pairwise_disjoint(s),
    ensures
        pairwise_disjoint(sort_by_start(s)),
    decreases s.len(),
{
    if s.len() > 0 {
        let r = s.drop_first();
        assert forall|i: int, j: int| 0 <= i < j < r.len() implies disjoint(
            #[trigger] r[i],
            #[trigger] r[j],
        ) by {
            assert(r[i] == s[i + 1] && r[j] == s[j + 1]);
        }
        lemma_sort_disjoint(r);
        lemma_sort_members(r);
        let sr = sort_by_start(r);
        assert forall|j: int| 0 <= j < sr.len() implies disjoint(#[trigger] sr[j], s[0]) by {
            let k = choose|k: int| 0 <= k < r.len() && r[k] == sr[j];
            assert(s[k + 1] == sr[j]);
            assert(disjoint(s[0], s[k + 1]));
        }
        lemma_insert_disjoint(sr, s[0]);
    }
}

proof fn lemma_scan_excludes(k: RegionType, t: Seq<char>, pos: int, acc: Seq<Span>)
    requires
        excludes_contained(acc),
        kinds_up_to(acc, priority(k)),
    ensures
        excludes_contained(scan(k, t, pos, acc)),
        kinds_up_to(scan(k, t, pos, acc), priority(k)),
    decreases t.len() - pos,
{
    if 0 <= pos < t.len() {
        match match_at(k, t, pos) {
            Some(h) => {
                if pos < h.0 <= t.len() {
                    if admitted(k, t, pos, acc) && clear_of(acc, pos, h.0) {
                        let x = span_of(k, t, pos, h);
                        let next = acc.push(x);
                        assert forall|i: int, j: int|
                            0 <= i < next.len() && 0 <= j < next.len() && is_gated(next[i].kind)
                                && priority(next[j].kind) < priority(
                                next[i].kind,
                            ) implies !span_contains(
                            #[trigger] next[j],
                            (#[trigger] next[i]).start,
                        ) by {
                            if i == acc.len() {
                                assert(next[i] == x);
                                assert(j < acc.len());
                                assert(next[j] == acc[j]);
                                assert(!inside(acc, pos));
                            } else {
                                assert(next[i] == acc[i]);
                                assert(j < acc.len());
                            }
                        }
                        lemma_scan_excludes(k, t, h.0, next);
                    } else {
                        lemma_scan_excludes(k, t, h.0, acc);
                    }
                }
            },
            None => {
                lemma_scan_excludes(k, t, pos + 1, acc);
            },
        }
    }
}

proof fn lemma_scan_disjoint(k: RegionType, t: Seq<char>, pos: int, acc: Seq<Span>)
    requires
        pairwise_disjoint(acc),
    ensures
        pairwise_disjoint(scan(k, t, pos, acc)),
    decreases t.len() - pos,
{
    if 0 <= pos < t.len() {
        match match_at(k, t, pos) {
            Some(h) => {
                if pos < h.0 <= t.len() {
                    if admitted(k, t, pos, acc) && clear_of(acc, pos, h.0) {
                        let next = acc.push(span_of(k, t, pos, h));
                        assert forall|i: int, j: int| 0 <= i < j < next.len() implies disjoint(
                            #[trigger] next[i],
                            #[trigger] next[j],
                        ) by {
                            assert(next[i] == acc[i]);
                            if j < acc.len() {
                                assert(next[j] == acc[j]);
                            }
                        }
                        lemma_scan_disjoint(k, t, h.0, next);
                    } else {
                        lemma_scan_disjoint(k, t, h.0, acc);
                    }
                }
            },
            None => {
                lemma_scan_disjoint(k, t, pos + 1, acc);
            },
        }
    }
}

/// The regions of any text share no offset, and are in ascending order of
/// start.
pub proof fn lemma_regions_disjoint(t: Seq<char>)
    ensures
        pairwise_disjoint(classify(t)),
        sorted_by_start(classify(t)),
{
    let a1 = scan(RegionType::LuaScriptModule, t, 0, Seq::empty());
    let a2 = scan(RegionType::LuaScript, t, 0, a1);
    let a3 = scan(RegionType::LuatComment, t, 0, a2);
    let a4 = scan(RegionType::HtmlComment, t, 0, a3);
    let a5 = scan(RegionType::ControlFlow, t, 0, a4);
    let a6 = scan(RegionType::Directive, t, 0, a5);
    lemma_scan_disjoint(RegionType::LuaScriptModule, t, 0, Seq::empty());
    lemma_scan_disjoint(RegionType::LuaScript, t, 0, a1);
    lemma_scan_disjoint(RegionType::LuatComment, t, 0, a2);
    lemma_scan_disjoint(RegionType::HtmlComment, t, 0, a3);
    lemma_scan_disjoint(RegionType::ControlFlow, t, 0, a4);
    lemma_scan_disjoint(RegionType::Directive, t, 0, a5);
    lemma_scan_disjoint(RegionType::LuaExpression, t, 0, a6);
    lemma_sort_disjoint(claimed(t));
    lemma_sort_sorted(claimed(t));
}

/// No control-flow marker, directive or expression starts inside a script,
/// a comment, or another region of a kind that is claimed before its own.
pub proof fn lemma_containment_exclusion(t: Seq<char>)
    ensures
        excludes_contained(classify(t)),
{
    let a1 = scan(RegionType::LuaScriptModule, t, 0, Seq::empty());
    let a2 = scan(RegionType::LuaScript, t, 0, a1);
    let a3 = scan(RegionType::LuatComment, t, 0, a2);
    let a4 = scan(RegionType::HtmlComment, t, 0, a3);
    let a5 = scan(RegionType::ControlFlow, t, 0, a4);
    let a6 = scan(RegionType::Directive, t, 0, a5);
    lemma_scan_excludes(RegionType::LuaScriptModule, t, 0, Seq::empty());
    lemma_scan_excludes(RegionType::LuaScript, t, 0, a1);
    lemma_scan_excludes(RegionType::LuatComment, t, 0, a2);
    lemma_scan_excludes(RegionType::HtmlComment, t, 0, a3);
    lemma_scan_excludes(RegionType::ControlFlow, t, 0, a4);
    lemma_scan_excludes(RegionType::Directive, t, 0, a5);
    lemma_scan_excludes(RegionType::LuaExpression, t, 0, a6);
    let c = claimed(t);
    let out = classify(t);
    lemma_sort_members(c);
    assert forall|i: int, j: int|
        0 <= i < out.len() && 0 <= j < out.len() && is_gated(out[i].kind) && priority(
            out[j].kind,
        ) < priority(out[i].kind) implies !span_contains(
        #[trigger] out[j],
        (#[trigger] out[i]).start,
    ) by {
        let a = choose|a: int| 0 <= a < c.len() && c[a] == out[i];
        let b = choose|b: int| 0 <= b < c.len() && c[b] == out[j];
        assert(!span_contains(c[b], c[a].start));
    }
}

/// Classification depends on the text alone: two classifications of one
/// text give the same regions.
pub proof fn lemma_parse_deterministic(t: Seq<char>, a: DocumentRegions, b: DocumentRegions)
    requires
        a@ == classify(t),
        b@ == classify(t),
    ensures
        a@ == b@,
{
}

} // verus!
