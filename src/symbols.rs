use crate::imports::ident_end;
use crate::regions::{chars_of, is_script_kind, lit_at, lit_at_exec, skip_ws, Span};
use crate::regions::DocumentRegions;
use vstd::prelude::*;
use vstd::string::*;

verus! {

/// What an outline entry names.
#[derive(Debug, Clone, Copy, PartialEq, Eq, Structural)]
pub enum SymbolKind {
    /// A function declared in a script.
    Function,
    /// A component bound in a script: `local Card = require(...)`.
    Component,
    /// A component tag `<Card` in the template, not bound in a script.
    ComponentUsage,
}

/// An outline entry: its kind, its name, and the character offset it is
/// reported at.
#[derive(Debug, Clone)]
pub struct Symbol {
    pub kind: SymbolKind,
    pub name: String,
    pub offset: usize,
}

/// The kinds of name that the outline scans for.
#[derive(Debug, Clone, Copy, PartialEq, Eq, Structural)]
pub enum NamePattern {
    /// At a line start: spaces or tabs, optionally `local` and whitespace,
    /// `function`, whitespace, then the name.
    FunctionDecl,
    /// `local`, whitespace, the name, `=`, `require`, `(`, with whitespace
    /// allowed around `=` and before `(`.
    RequireBinding,
    /// `<`, an ASCII capital, then ASCII letters, digits and `_`.
    ComponentTag,
}

/// The index after the run of spaces and tabs that starts at `j`.
pub open spec fn skip_blanks(t: Seq<char>, j: int) -> int
    decreases t.len() - j,
{
    if 0 <= j < t.len() && (t[j] == ' ' || t[j] == '\t') {
        skip_blanks(t, j + 1)
    } else {
        j
    }
}

/// An ASCII letter, digit or `_`.
pub open spec fn is_ascii_ident(c: char) -> bool {
    ('a' <= c <= 'z') || ('A' <= c <= 'Z') || ('0' <= c <= '9') || c == '_'
}

/// The index after the run of ASCII identifier characters that starts at `j`.
pub open spec fn ascii_ident_end(t: Seq<char>, j: int) -> int
    decreases t.len() - j,
{
    if 0 <= j < t.len() && is_ascii_ident(t[j]) {
        ascii_ident_end(t, j + 1)
    } else {
        j
    }
}

/// A match of `p` at `i`: `(end, name_start, name_end)`.
pub open spec fn name_match_at(p: NamePattern, t: Seq<char>, i: int) -> Option<(int, int, int)> {
    match p {
        NamePattern::FunctionDecl => {
            if !(i == 0 || (0 < i <= t.len() && t[i - 1] == '\n')) {
                None
            } else {
                let j = skip_blanks(t, i);
                let k = skip_ws(t, j + 5);
                let f = if lit_at(t, j, "local"@) && k > j + 5 && lit_at(t, k, "function"@) {
                    k
                } else {
                    j
                };
                let m = skip_ws(t, f + 8);
                let ne = ident_end(t, m);
                if lit_at(t, f, "function"@) && m > f + 8 && ne > m {
                    Some((ne, m, ne))
                } else {
                    None
                }
            }
        },
        NamePattern::RequireBinding => {
            let a = skip_ws(t, i + 5);
            let ne = ident_end(t, a);
            let b = skip_ws(t, ne);
            let c = skip_ws(t, b + 1);
            let d = skip_ws(t, c + 7);
            if lit_at(t, i, "local"@) && a > i + 5 && ne > a && 0 <= b < t.len() && t[b] == '='
                && lit_at(t, c, "require"@) && 0 <= d < t.len() && t[d] == '(' {
                Some((d + 1, a, ne))
            } else {
                None
            }
        },
        NamePattern::ComponentTag => {
            if 0 <= i && i + 1 < t.len() && t[i] == '<' && 'A' <= t[i + 1] <= 'Z' {
                let ne = ascii_ident_end(t, i + 2);
                Some((ne, i + 1, ne))
            } else {
                None
            }
        },
    }
}

/// The leftmost, non-overlapping matches of `p` from `pos` on, as
/// `(match_start, name_start, name_end)`.
pub open spec fn name_matches(p: NamePattern, t: Seq<char>, pos: int) -> Seq<(int, int, int)>
    decreases t.len() - pos,
{
    if pos < 0 || pos >= t.len() {
        Seq::empty()
    } else {
        match name_match_at(p, t, pos) {
            Some(h) => if pos < h.0 <= t.len() {
                seq![(pos, h.1, h.2)] + name_matches(p, t, h.0)
            } else {
                Seq::empty()
            },
            None => name_matches(p, t, pos + 1),
        }
    }
}


/// `x`, or the largest `usize` where `x` exceeds it.
pub open spec fn capped(x: int) -> int {
    if x > usize::MAX {
        usize::MAX as int
    } else {
        x
    }
}

/// Uninterpreted: whether `c` is uppercase in Unicode.
pub uninterp spec fn uppercase(c: char) -> bool;

/// Relies on `char::is_uppercase`: the Unicode `Uppercase` property of `c`.
#[verifier::external_body]
pub(crate) fn is_uppercase(c: char) -> (b: bool)
    ensures
        b == uppercase(c),
{
    c.is_uppercase()
}

/// An outline entry seen as values.
pub open spec fn symbol_view(s: Symbol) -> (SymbolKind, Seq<char>, int) {
    (s.kind, s.name@, s.offset as int)
}

pub open spec fn symbols_view(v: Seq<Symbol>) -> Seq<(SymbolKind, Seq<char>, int)> {
    v.map_values(|s: Symbol| symbol_view(s))
}

/// One entry of kind `k` per name match of `hs` in `c`, at `base` plus the
/// name's index; with `capital`, only names whose first character is
/// uppercase.
pub open spec fn entries(
    k: SymbolKind,
    c: Seq<char>,
    base: int,
    hs: Seq<(int, int, int)>,
    capital: bool,
) -> Seq<(SymbolKind, Seq<char>, int)>
    decreases hs.len(),
{
    if hs.len() == 0 {
        Seq::empty()
    } else {
        let h = hs.last();
        entries(k, c, base, hs.drop_last(), capital) + if !capital || uppercase(c[h.1]) {
            seq![(k, c.subrange(h.1, h.2), capped(base + h.1))]
        } else {
            Seq::empty()
        }
    }
}

/// The functions and the capitalised component bindings of every script
/// region of `s`, in order; offsets count from the region's start plus the
/// length of `<script>`.
pub open spec fn script_entries(s: Seq<Span>) -> Seq<(SymbolKind, Seq<char>, int)>
    decreases s.len(),
{
    if s.len() == 0 {
        Seq::empty()
    } else {
        let r = s.last();
        script_entries(s.drop_last()) + if is_script_kind(r.kind) && r.content is Some {
            let c = r.content->0;
            entries(
                SymbolKind::Function,
                c,
                r.start + 8,
                name_matches(NamePattern::FunctionDecl, c, 0),
                false,
            ) + entries(
                SymbolKind::Component,
                c,
                r.start + 8,
                name_matches(NamePattern::RequireBinding, c, 0),
                true,
            )
        } else {
            Seq::empty()
        }
    }
}

/// `name` is the name of a component entry of `prior`.
pub open spec fn is_bound(prior: Seq<(SymbolKind, Seq<char>, int)>, name: Seq<char>) -> bool {
    exists|j: int|
        0 <= j < prior.len() && (#[trigger] prior[j]).0 == SymbolKind::Component && prior[j].1
            == name
}

/// One `<Name>` entry per component tag of `t` whose name `prior` does not
/// bind, at the tag's `<`.
pub open spec fn usage_entries(
    t: Seq<char>,
    hs: Seq<(int, int, int)>,
    prior: Seq<(SymbolKind, Seq<char>, int)>,
) -> Seq<(SymbolKind, Seq<char>, int)>
    decreases hs.len(),
{
    if hs.len() == 0 {
        Seq::empty()
    } else {
        let h = hs.last();
        let name = t.subrange(h.1, h.2);
        usage_entries(t, hs.drop_last(), prior) + if !is_bound(prior, name) {
            seq![(SymbolKind::ComponentUsage, "<"@ + name + ">"@, h.0)]
        } else {
            Seq::empty()
        }
    }
}

/// The outline of text `t` classified into `regions`.
pub open spec fn outline(t: Seq<char>, regions: Seq<Span>) -> Seq<(SymbolKind, Seq<char>, int)> {
    let prior = script_entries(regions);
    prior + usage_entries(t, name_matches(NamePattern::ComponentTag, t, 0), prior)
}

pub open spec fn triples_view(v: Seq<(usize, usize, usize)>) -> Seq<(int, int, int)> {
    v.map_values(|h: (usize, usize, usize)| (h.0 as int, h.1 as int, h.2 as int))
}

fn skip_blanks_exec(t: &Vec<char>, j: usize) -> (r: usize)
    requires
        j <= t@.len(),
    ensures
        r == skip_blanks(t@, j as int),
        j <= r <= t@.len(),
{
    let mut k = j;
    while k < t.len() && (t[k] == ' ' || t[k] == '\t')
        invariant
            j <= k <= t@.len(),
            skip_blanks(t@, j as int) == skip_blanks(t@, k as int),
        decreases t@.len() - k,
    {
        k += 1;
    }
    k
}

fn ascii_ident_end_exec(t: &Vec<char>, j: usize) -> (r: usize)
    requires
        j <= t@.len(),
    ensures
        r == ascii_ident_end(t@, j as int),
        j <= r <= t@.len(),
{
    let mut k = j;
    while k < t.len() && (('a' <= t[k] && t[k] <= 'z') || ('A' <= t[k] && t[k] <= 'Z') || ('0'
        <= t[k] && t[k] <= '9') || t[k] == '_')
        invariant
            j <= k <= t@.len(),
            ascii_ident_end(t@, j as int) == ascii_ident_end(t@, k as int),
        decreases t@.len() - k,
    {
        k += 1;
    }
    k
}

fn name_match_exec(p: NamePattern, t: &Vec<char>, i: usize) -> (r: Option<(usize, usize, usize)>)
    requires
        i < t@.len(),
    ensures
        match r {
            Some(h) => name_match_at(p, t@, i as int) == Some((h.0 as int, h.1 as int, h.2 as int))
                && i < h.0 <= t@.len() && h.1 <= h.2 <= t@.len() && h.1 < t@.len(),
            None => name_match_at(p, t@, i as int) is None,
        },
{
    proof {
        reveal_strlit("local");
        reveal_strlit("function");
        reveal_strlit("require");
    }
    let n = t.len();
    match p {
        NamePattern::FunctionDecl => {
            if !(i == 0 || t[i - 1] == '\n') {
                return None;
            }
            let j = skip_blanks_exec(t, i);
            let mut f = j;
            if lit_at_exec(t, j, "local") {
                let k = crate::regions::skip_ws_exec(t, j + 5);
                if k > j + 5 && lit_at_exec(t, k, "function") {
                    f = k;
                }
            }
            if !lit_at_exec(t, f, "function") {
                return None;
            }
            let m = crate::regions::skip_ws_exec(t, f + 8);
            let ne = crate::imports::ident_end_exec(t, m);
            if m > f + 8 && ne > m {
                Some((ne, m, ne))
            } else {
                None
            }
        },
        NamePattern::RequireBinding => {
            if !lit_at_exec(t, i, "local") {
                return None;
            }
            let a = crate::regions::skip_ws_exec(t, i + 5);
            let ne = crate::imports::ident_end_exec(t, a);
            let b = crate::regions::skip_ws_exec(t, ne);
            if !(a > i + 5 && ne > a && b < n && t[b] == '=') {
                return None;
            }
            let c = crate::regions::skip_ws_exec(t, b + 1);
            if !lit_at_exec(t, c, "require") {
                return None;
            }
            let d = crate::regions::skip_ws_exec(t, c + 7);
            if d < n && t[d] == '(' {
                Some((d + 1, a, ne))
            } else {
                None
            }
        },
        NamePattern::ComponentTag => {
            if n - i > 1 && t[i] == '<' && 'A' <= t[i + 1] && t[i + 1] <= 'Z' {
                let ne = ascii_ident_end_exec(t, i + 2);
                Some((ne, i + 1, ne))
            } else {
                None
            }
        },
    }
}

fn collect_names(p: NamePattern, t: &Vec<char>) -> (r: Vec<(usize, usize, usize)>)
    ensures
        triples_view(r@) == name_matches(p, t@, 0),
        forall|j: int|
            0 <= j < r@.len() ==> (#[trigger] r@[j]).1 <= r@[j].2 <= t@.len() && r@[j].1
                < t@.len(),
{
    let n = t.len();
    let mut out: Vec<(usize, usize, usize)> = Vec::new();
    let mut pos: usize = 0;
    while pos < n
        invariant
            n == t@.len(),
            pos <= n,
            name_matches(p, t@, 0) == triples_view(out@) + name_matches(p, t@, pos as int),
            forall|j: int|
                0 <= j < out@.len() ==> (#[trigger] out@[j]).1 <= out@[j].2 <= t@.len()
                    && out@[j].1 < t@.len(),
        decreases n - pos,
    {
        match name_match_exec(p, t, pos) {
            Some(h) => {
                let e = (pos, h.1, h.2);
                assert(triples_view(out@.push(e)) =~= triples_view(out@).push(
                    (pos as int, h.1 as int, h.2 as int),
                ));
                assert(triples_view(out@) + name_matches(p, t@, pos as int) =~= triples_view(
                    out@.push(e),
                ) + name_matches(p, t@, h.0 as int));
                out.push(e);
                pos = h.0;
            },
            None => {
                pos += 1;
            },
        }
    }
    assert(triples_view(out@) + Seq::<(int, int, int)>::empty() =~= triples_view(out@));
    out
}


fn push_entries(
    k: SymbolKind,
    content: &str,
    c: &Vec<char>,
    start: usize,
    hs: &Vec<(usize, usize, usize)>,
    capital: bool,
    out: &mut Vec<Symbol>,
)
    requires
        content@ == c@,
        forall|j: int|
            0 <= j < hs@.len() ==> (#[trigger] hs@[j]).1 <= hs@[j].2 <= c@.len() && hs@[j].1
                < c@.len(),
    ensures
        symbols_view(final(out)@) == symbols_view(old(out)@) + entries(
            k,
            c@,
            start + 8,
            triples_view(hs@),
            capital,
        ),
{
    let mut q: usize = 0;
    assert(triples_view(hs@).subrange(0, 0) =~= Seq::<(int, int, int)>::empty());
    assert(symbols_view(out@) =~= symbols_view(old(out)@) + Seq::empty());
    while q < hs.len()
        invariant
            content@ == c@,
            q <= hs@.len(),
            forall|j: int|
                0 <= j < hs@.len() ==> (#[trigger] hs@[j]).1 <= hs@[j].2 <= c@.len() && hs@[j].1
                    < c@.len(),
            symbols_view(out@) == symbols_view(old(out)@) + entries(
                k,
                c@,
                start + 8,
                triples_view(hs@).subrange(0, q as int),
                capital,
            ),
        decreases hs@.len() - q,
    {
        let ghost before = out@;
        let h = hs[q];
        if !capital || is_uppercase(c[h.1]) {
            let name = content.substring_char(h.1, h.2).to_owned();
            let sym = Symbol { kind: k, name, offset: start.saturating_add(h.1.saturating_add(8)) };
            assert(symbols_view(out@.push(sym)) =~= symbols_view(out@).push(symbol_view(sym)));
            out.push(sym);
        }
        proof {
            let sub = triples_view(hs@).subrange(0, q + 1);
            assert(sub.drop_last() =~= triples_view(hs@).subrange(0, q as int));
            assert(sub.last() == (h.0 as int, h.1 as int, h.2 as int));
            assert(symbols_view(out@) =~= symbols_view(old(out)@) + entries(
                k,
                c@,
                start + 8,
                sub,
                capital,
            ));
        }
        q += 1;
    }
    assert(triples_view(hs@).subrange(0, hs@.len() as int) =~= triples_view(hs@));
}

/// The outline of `text` whose regions are `regions`: each script region's
/// functions and capitalised component bindings, then each component tag of
/// the text that no binding names.
pub fn document_outline(text: &str, regions: &DocumentRegions) -> (r: Vec<Symbol>)
    ensures
        symbols_view(r@) == outline(text@, regions@),
{
    let mut out: Vec<Symbol> = Vec::new();
    let mut q: usize = 0;
    assert(symbols_view(out@) =~= script_entries(regions@.subrange(0, 0)));
    while q < regions.regions.len()
        invariant
            q <= regions@.len(),
            symbols_view(out@) == script_entries(regions@.subrange(0, q as int)),
        decreases regions@.len() - q,
    {
        let ghost before = symbols_view(out@);
        let r = &regions.regions[q];
        if r.region_type == crate::regions::RegionType::LuaScriptModule || r.region_type
            == crate::regions::RegionType::LuaScript {
            if let Some(content) = &r.content {
                let c = chars_of(content.as_str());
                let fns = collect_names(NamePattern::FunctionDecl, &c);
                push_entries(SymbolKind::Function, content.as_str(), &c, r.start, &fns, false, &mut out);
                let comps = collect_names(NamePattern::RequireBinding, &c);
                push_entries(
                    SymbolKind::Component,
                    content.as_str(),
                    &c,
                    r.start,
                    &comps,
                    true,
                    &mut out,
                );
            }
        }
        proof {
            let sub = regions@.subrange(0, q + 1);
            assert(sub.drop_last() =~= regions@.subrange(0, q as int));
            assert(sub.last() == r@);
            assert(symbols_view(out@) =~= script_entries(sub));
        }
        q += 1;
    }
    assert(regions@.subrange(0, regions@.len() as int) =~= regions@);
    let ghost prior = symbols_view(out@);
    let prior_len = out.len();
    assert(symbols_view(out@).subrange(0, prior_len as int) =~= prior);
    let t = chars_of(text);
    let tags = collect_names(NamePattern::ComponentTag, &t);
    let mut q: usize = 0;
    assert(symbols_view(out@) =~= prior + usage_entries(text@, triples_view(tags@).subrange(0, 0), prior));
    while q < tags.len()
        invariant
            t@ == text@,
            q <= tags@.len(),
            prior_len == prior.len(),
            prior_len <= out@.len(),
            symbols_view(out@).subrange(0, prior_len as int) == prior,
            forall|j: int|
                0 <= j < tags@.len() ==> (#[trigger] tags@[j]).1 <= tags@[j].2 <= t@.len()
                    && tags@[j].1 < t@.len(),
            symbols_view(out@) == prior + usage_entries(
                text@,
                triples_view(tags@).subrange(0, q as int),
                prior,
            ),
        decreases tags@.len() - q,
    {
        let h = tags[q];
        let name = text.substring_char(h.1, h.2).to_owned();
        let mut bound = false;
        let mut j: usize = 0;
        while j < prior_len
            invariant
                prior_len == prior.len(),
                prior_len <= out@.len(),
                symbols_view(out@).subrange(0, prior_len as int) == prior,
                j <= prior_len,
                bound == exists|i: int|
                    0 <= i < j && (#[trigger] prior[i]).0 == SymbolKind::Component && prior[i].1
                        == name@,
            decreases prior_len - j,
        {
            assert(prior[j as int] == symbol_view(out@[j as int]));
            if out[j].kind == SymbolKind::Component && out[j].name == name {
                bound = true;
            }
            j += 1;
        }
        let ghost before = out@;
        if !bound {
            let mut label = String::new();
            label.append("<");
            label.append(name.as_str());
            label.append(">");
            let sym = Symbol { kind: SymbolKind::ComponentUsage, name: label, offset: h.0 };
            assert(symbols_view(out@.push(sym)) =~= symbols_view(out@).push(symbol_view(sym)));
            out.push(sym);
        }
        proof {
            let sub = triples_view(tags@).subrange(0, q + 1);
            assert(sub.drop_last() =~= triples_view(tags@).subrange(0, q as int));
            assert(sub.last() == (h.0 as int, h.1 as int, h.2 as int));
            assert(symbols_view(out@) =~= prior + usage_entries(text@, sub, prior));
            assert(symbols_view(out@).subrange(0, prior_len as int) =~= prior);
        }
        q += 1;
    }
    assert(triples_view(tags@).subrange(0, tags@.len() as int) =~= triples_view(tags@));
    out
}

} // verus!
