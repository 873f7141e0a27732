use crate::diagnostics::regex_word;
use crate::regions::{chars_of, lit_at, lit_at_exec, opt_text, skip_ws};
use vstd::prelude::*;
use vstd::string::*;

verus! {

/// An identifier character: one of the word class `\w`.
pub open spec fn is_ident(c: char) -> bool {
    regex_word(c)
}

/// A string delimiter: `"` or `'`.
pub open spec fn is_quote(c: char) -> bool {
    c == '"' || c == '\''
}

/// The end of the run of identifier characters that starts at `j`.
pub open spec fn ident_end(t: Seq<char>, j: int) -> int
    decreases t.len() - j,
{
    if 0 <= j < t.len() && is_ident(t[j]) {
        ident_end(t, j + 1)
    } else {
        j
    }
}

/// The first index at or after `j` that holds a quote, or the end of `t`.
pub open spec fn quote_free_end(t: Seq<char>, j: int) -> int
    decreases t.len() - j,
{
    if 0 <= j < t.len() && !is_quote(t[j]) {
        quote_free_end(t, j + 1)
    } else {
        j
    }
}

/// Where a module binding ends, and where its name and its path lie.
pub struct Binding {
    pub end: int,
    pub name_start: int,
    pub name_end: int,
    pub path_start: int,
    pub path_end: int,
}

/// A binding `local <name> = require(<quote><path><quote>)` at `i`, with
/// whitespace allowed around `=`, `(`, the path and `)`.
pub open spec fn binding_at(t: Seq<char>, i: int) -> Option<Binding> {
    if !lit_at(t, i, "local"@) {
        None
    } else {
        let a = skip_ws(t, i + 5);
        let ne = ident_end(t, a);
        let b = skip_ws(t, ne);
        if a == i + 5 || ne == a || !(0 <= b < t.len() && t[b] == '=') {
            None
        } else {
            let c = skip_ws(t, b + 1);
            let d = skip_ws(t, c + 7);
            if !lit_at(t, c, "require"@) || !(0 <= d < t.len() && t[d] == '(') {
                None
            } else {
                let e = skip_ws(t, d + 1);
                let pe = quote_free_end(t, e + 1);
                if !(0 <= e < t.len() && is_quote(t[e])) || pe == e + 1 || pe >= t.len() {
                    None
                } else {
                    let f = skip_ws(t, pe + 1);
                    if 0 <= f < t.len() && t[f] == ')' {
                        Some(
                            Binding {
                                end: f + 1,
                                name_start: a,
                                name_end: ne,
                                path_start: e + 1,
                                path_end: pe,
                            },
                        )
                    } else {
                        None
                    }
                }
            }
        }
    }
}

/// The leftmost, non-overlapping bindings of `t` from `pos` on.
pub open spec fn bindings_from(t: Seq<char>, pos: int) -> Seq<Binding>
    decreases t.len() - pos,
{
    if pos < 0 || pos >= t.len() {
        Seq::empty()
    } else {
        match binding_at(t, pos) {
            Some(b) => if pos < b.end <= t.len() {
                seq![b] + bindings_from(t, b.end)
            } else {
                Seq::empty()
            },
            None => bindings_from(t, pos + 1),
        }
    }
}


/// The first of `bs` whose path span `[path_start, path_end]` holds `o`.
pub open spec fn binding_with_path_at(bs: Seq<Binding>, o: int) -> Option<Binding>
    decreases bs.len(),
{
    if bs.len() == 0 {
        None
    } else if bs[0].path_start <= o <= bs[0].path_end {
        Some(bs[0])
    } else {
        binding_with_path_at(bs.drop_first(), o)
    }
}

/// The first of `bs` whose name in `t` is `name`.
pub open spec fn binding_named(bs: Seq<Binding>, t: Seq<char>, name: Seq<char>) -> Option<Binding>
    decreases bs.len(),
{
    if bs.len() == 0 {
        None
    } else if t.subrange(bs[0].name_start, bs[0].name_end) == name {
        Some(bs[0])
    } else {
        binding_named(bs.drop_first(), t, name)
    }
}

/// The path of a binding, if there is one.
pub open spec fn path_of(t: Seq<char>, b: Option<Binding>) -> Option<Seq<char>> {
    match b {
        Some(b) => Some(t.subrange(b.path_start, b.path_end)),
        None => None,
    }
}

pub open spec fn binding_view(b: (usize, usize, usize, usize, usize)) -> Binding {
    Binding {
        end: b.0 as int,
        name_start: b.1 as int,
        name_end: b.2 as int,
        path_start: b.3 as int,
        path_end: b.4 as int,
    }
}

pub(crate) fn ident_end_exec(t: &Vec<char>, j: usize) -> (r: usize)
    requires
        j <= t@.len(),
    ensures
        r == ident_end(t@, j as int),
        j <= r <= t@.len(),
{
    let mut k = j;
    while k < t.len() && crate::diagnostics::is_word_character(t[k])
        invariant
            j <= k <= t@.len(),
            ident_end(t@, j as int) == ident_end(t@, k as int),
        decreases t@.len() - k,
    {
        k += 1;
    }
    k
}

fn quote_free_end_exec(t: &Vec<char>, j: usize) -> (r: usize)
    requires
        j <= t@.len(),
    ensures
        r == quote_free_end(t@, j as int),
        j <= r <= t@.len(),
{
    let mut k = j;
    while k < t.len() && !(t[k] == '"' || t[k] == '\'')
        invariant
            j <= k <= t@.len(),
            quote_free_end(t@, j as int) == quote_free_end(t@, k as int),
        decreases t@.len() - k,
    {
        k += 1;
    }
    k
}

fn binding_exec(t: &Vec<char>, i: usize) -> (r: Option<(usize, usize, usize, usize, usize)>)
    ensures
        match r {
            Some(b) => binding_at(t@, i as int) == Some(binding_view(b)) && i < b.0 <= t@.len()
                && b.1 <= b.2 <= b.3 <= b.4 <= t@.len(),
            None => binding_at(t@, i as int) is None,
        },
{
    proof {
        reveal_strlit("local");
        reveal_strlit("require");
    }
    if !lit_at_exec(t, i, "local") {
        return None;
    }
    let n = t.len();
    let a = crate::regions::skip_ws_exec(t, i + 5);
    let ne = ident_end_exec(t, a);
    let b = crate::regions::skip_ws_exec(t, ne);
    if a == i + 5 || ne == a || !(b < n && t[b] == '=') {
        return None;
    }
    let c = crate::regions::skip_ws_exec(t, b + 1);
    if !lit_at_exec(t, c, "require") {
        return None;
    }
    let d = crate::regions::skip_ws_exec(t, c + 7);
    if !(d < n && t[d] == '(') {
        return None;
    }
    let e = crate::regions::skip_ws_exec(t, d + 1);
    if !(e < n && (t[e] == '"' || t[e] == '\'')) {
        return None;
    }
    let pe = quote_free_end_exec(t, e + 1);
    if pe == e + 1 || pe >= n {
        return None;
    }
    let f = crate::regions::skip_ws_exec(t, pe + 1);
    if f < n && t[f] == ')' {
        Some((f + 1, a, ne, e + 1, pe))
    } else {
        None
    }
}

fn same_chars(t: &Vec<char>, s: usize, e: usize, w: &Vec<char>) -> (b: bool)
    requires
        s <= e <= t@.len(),
    ensures
        b == (t@.subrange(s as int, e as int) == w@),
{
    if e - s != w.len() {
        return false;
    }
    let mut k: usize = 0;
    while k < w.len()
        invariant
            e - s == w@.len(),
            s <= e <= t@.len(),
            k <= w@.len(),
            forall|j: int| 0 <= j < k ==> t@[s + j] == w@[j],
        decreases w@.len() - k,
    {
        if t[s + k] != w[k] {
            assert(t@.subrange(s as int, e as int)[k as int] != w@[k as int]);
            return false;
        }
        k += 1;
    }
    assert(t@.subrange(s as int, e as int) =~= w@);
    true
}

/// With a name, the first binding of `t` named so; without, the first
/// whose path span holds `offset`.
fn find_binding(t: &Vec<char>, name: Option<&Vec<char>>, offset: usize) -> (r: Option<
    (usize, usize, usize, usize, usize),
>)
    ensures
        match name {
            Some(w) => match r {
                Some(b) => binding_named(bindings_from(t@, 0), t@, w@) == Some(binding_view(b)),
                None => binding_named(bindings_from(t@, 0), t@, w@) is None,
            },
            None => match r {
                Some(b) => binding_with_path_at(bindings_from(t@, 0), offset as int) == Some(
                    binding_view(b),
                ),
                None => binding_with_path_at(bindings_from(t@, 0), offset as int) is None,
            },
        },
        r matches Some(b) ==> b.1 <= b.2 <= b.3 <= b.4 <= t@.len(),
{
    let n = t.len();
    let mut pos: usize = 0;
    while pos < n
        invariant
            n == t@.len(),
            pos <= n,
            match name {
                Some(w) => binding_named(bindings_from(t@, 0), t@, w@) == binding_named(
                    bindings_from(t@, pos as int),
                    t@,
                    w@,
                ),
                None => binding_with_path_at(bindings_from(t@, 0), offset as int)
                    == binding_with_path_at(bindings_from(t@, pos as int), offset as int),
            },
        decreases n - pos,
    {
        match binding_exec(t, pos) {
            Some(b) => {
                let ghost bs = bindings_from(t@, pos as int);
                assert(bs[0] == binding_view(b));
                assert(bs.drop_first() =~= bindings_from(t@, b.0 as int));
                let hit = match name {
                    Some(w) => same_chars(t, b.1, b.2, w),
                    None => b.3 <= offset && offset <= b.4,
                };
                if hit {
                    return Some(b);
                }
                pos = b.0;
            },
            None => {
                pos += 1;
            },
        }
    }
    None
}

/// The path of the first module binding whose path holds character
/// `offset` (its closing quote's index included).
pub fn find_require_path_at_offset(text: &str, offset: usize) -> (r: Option<String>)
    ensures
        opt_text(r) == path_of(text@, binding_with_path_at(bindings_from(text@, 0), offset as int)),
{
    let t = chars_of(text);
    match find_binding(&t, None, offset) {
        Some(b) => Some(text.substring_char(b.3, b.4).to_owned()),
        None => None,
    }
}

/// The path of the first module binding named `name`.
pub fn find_require_path_for_name(text: &str, name: &str) -> (r: Option<String>)
    ensures
        opt_text(r) == path_of(text@, binding_named(bindings_from(text@, 0), text@, name@)),
{
    let t = chars_of(text);
    let w = chars_of(name);
    match find_binding(&t, Some(&w), 0) {
        Some(b) => Some(text.substring_char(b.3, b.4).to_owned()),
        None => None,
    }
}

} // verus!
