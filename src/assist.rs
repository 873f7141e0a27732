use crate::document::{position_offset, word_end, word_start, Document, Position};
use crate::imports::{binding_named, binding_with_path_at, bindings_from, path_of};
use crate::regions::{opt_text, classify, first_at, inside, lit_at, span_contains, RegionType, Span};
use crate::symbols::uppercase;
use vstd::prelude::*;
use vstd::string::*;

verus! {

/// Which completions fit a cursor.
#[derive(Debug, Clone, Copy, PartialEq, Eq, Structural)]
pub enum CompletionContext {
    /// Inside a script block.
    Script,
    /// Inside an expression.
    Expression,
    /// Inside a control-flow marker or a directive: nothing is offered.
    Marker,
    /// In markup, after `{`.
    AfterBrace,
    /// In markup, after `<`.
    AfterTag,
    /// Elsewhere in markup.
    Template,
    /// At the very start of the document, or on a line that does not exist.
    Nowhere,
}

/// What a hover explains.
#[derive(Debug, Clone, Copy, PartialEq, Eq, Structural)]
pub enum HoverTopic {
    IfBlock,
    EachBlock,
    ElseClause,
    ElseIfClause,
    EmptyClause,
    EndIf,
    EndEach,
    HtmlDirective,
    LocalDirective,
    RenderDirective,
    Props,
    Require,
    Children,
}

/// The first span of `s` that holds `o`.
pub open spec fn first_region(s: Seq<Span>, o: int) -> Option<Span>
    decreases s.len(),
{
    if s.len() == 0 {
        None
    } else if span_contains(s[0], o) {
        Some(s[0])
    } else {
        first_region(s.drop_first(), o)
    }
}

proof fn lemma_first_region(s: Seq<Span>, o: int, i: int)
    requires
        first_at(s, o, i),
    ensures
        first_region(s, o) == Some(s[i]),
    decreases i,
{
    if i > 0 {
        let r = s.drop_first();
        assert(!span_contains(s[0], o));
        assert forall|j: int| 0 <= j < i - 1 implies !span_contains(#[trigger] r[j], o) by {
            assert(r[j] == s[j + 1]);
        }
        lemma_first_region(r, o, i - 1);
    }
}

proof fn lemma_no_region(s: Seq<Span>, o: int)
    requires
        !inside(s, o),
    ensures
        first_region(s, o) is None,
    decreases s.len(),
{
    if s.len() > 0 {
        let r = s.drop_first();
        assert(!span_contains(s[0], o));
        assert forall|q: int| 0 <= q < r.len() implies !span_contains(#[trigger] r[q], o) by {
            assert(r[q] == s[q + 1]);
        }
        lemma_no_region(r, o);
    }
}

/// The region that holds the cursor `p` in text `s`, if any.
pub open spec fn region_under(s: Seq<char>, p: Position) -> Option<Span> {
    match position_offset(s, p) {
        Some(o) => first_region(classify(s), o),
        None => None,
    }
}

/// The completion context of cursor `p` in text `s`.
pub open spec fn context_of(s: Seq<char>, p: Position) -> CompletionContext {
    match region_under(s, p) {
        Some(r) => match r.kind {
            RegionType::LuaScript => CompletionContext::Script,
            RegionType::LuaScriptModule => CompletionContext::Script,
            RegionType::LuaExpression => CompletionContext::Expression,
            RegionType::ControlFlow => CompletionContext::Marker,
            RegionType::Directive => CompletionContext::Marker,
            _ => CompletionContext::Template,
        },
        None => match position_offset(s, p) {
            Some(o) => if o > 0 && s[o - 1] == '{' {
                CompletionContext::AfterBrace
            } else if o > 0 && s[o - 1] == '<' {
                CompletionContext::AfterTag
            } else if o > 0 {
                CompletionContext::Template
            } else {
                CompletionContext::Nowhere
            },
            None => CompletionContext::Nowhere,
        },
    }
}

/// The topic of a control-flow marker, by how it starts.
pub open spec fn flow_topic(c: Seq<char>) -> Option<HoverTopic> {
    if lit_at(c, 0, "{#if"@) {
        Some(HoverTopic::IfBlock)
    } else if lit_at(c, 0, "{#each"@) {
        Some(HoverTopic::EachBlock)
    } else if lit_at(c, 0, "{:else}"@) {
        Some(HoverTopic::ElseClause)
    } else if lit_at(c, 0, "{:else if"@) {
        Some(HoverTopic::ElseIfClause)
    } else if lit_at(c, 0, "{:empty}"@) {
        Some(HoverTopic::EmptyClause)
    } else if lit_at(c, 0, "{/if}"@) {
        Some(HoverTopic::EndIf)
    } else if lit_at(c, 0, "{/each}"@) {
        Some(HoverTopic::EndEach)
    } else {
        None
    }
}

/// The topic of a directive, by how it starts.
pub open spec fn directive_topic(c: Seq<char>) -> Option<HoverTopic> {
    if lit_at(c, 0, "{@html"@) {
        Some(HoverTopic::HtmlDirective)
    } else if lit_at(c, 0, "{@local"@) {
        Some(HoverTopic::LocalDirective)
    } else if lit_at(c, 0, "{@render"@) {
        Some(HoverTopic::RenderDirective)
    } else {
        None
    }
}

/// The topic of a known word.
pub open spec fn keyword_topic(w: Seq<char>) -> Option<HoverTopic> {
    if w == "props"@ {
        Some(HoverTopic::Props)
    } else if w == "require"@ {
        Some(HoverTopic::Require)
    } else if w == "children"@ {
        Some(HoverTopic::Children)
    } else {
        None
    }
}

/// The hover topic of cursor `p` in text `s`: a marker or directive under
/// the cursor decides alone; elsewhere the word around the cursor does.
pub open spec fn hover_of(s: Seq<char>, p: Position) -> Option<HoverTopic> {
    let word = match position_offset(s, p) {
        Some(o) => {
            let a = word_start(s, o);
            let b = word_end(s, o);
            if a == b || b > u32::MAX {
                None
            } else {
                keyword_topic(s.subrange(a, b))
            }
        },
        None => None,
    };
    match region_under(s, p) {
        Some(r) => match r.kind {
            RegionType::ControlFlow => match r.content {
                Some(c) => flow_topic(c),
                None => None,
            },
            RegionType::Directive => match r.content {
                Some(c) => directive_topic(c),
                None => None,
            },
            _ => word,
        },
        None => word,
    }
}


fn text_is(w: &Vec<char>, p: &str) -> (b: bool)
    ensures
        b == (w@ == p@),
{
    if w.len() != p.unicode_len() {
        return false;
    }
    let b = crate::regions::lit_at_exec(w, 0, p);
    assert(w@.subrange(0, w@.len() as int) =~= w@);
    b
}

fn flow_topic_exec(c: &str) -> (r: Option<HoverTopic>)
    ensures
        r == flow_topic(c@),
{
    let t = crate::regions::chars_of(c);
    if crate::regions::lit_at_exec(&t, 0, "{#if") {
        Some(HoverTopic::IfBlock)
    } else if crate::regions::lit_at_exec(&t, 0, "{#each") {
        Some(HoverTopic::EachBlock)
    } else if crate::regions::lit_at_exec(&t, 0, "{:else}") {
        Some(HoverTopic::ElseClause)
    } else if crate::regions::lit_at_exec(&t, 0, "{:else if") {
        Some(HoverTopic::ElseIfClause)
    } else if crate::regions::lit_at_exec(&t, 0, "{:empty}") {
        Some(HoverTopic::EmptyClause)
    } else if crate::regions::lit_at_exec(&t, 0, "{/if}") {
        Some(HoverTopic::EndIf)
    } else if crate::regions::lit_at_exec(&t, 0, "{/each}") {
        Some(HoverTopic::EndEach)
    } else {
        None
    }
}

fn directive_topic_exec(c: &str) -> (r: Option<HoverTopic>)
    ensures
        r == directive_topic(c@),
{
    let t = crate::regions::chars_of(c);
    if crate::regions::lit_at_exec(&t, 0, "{@html") {
        Some(HoverTopic::HtmlDirective)
    } else if crate::regions::lit_at_exec(&t, 0, "{@local") {
        Some(HoverTopic::LocalDirective)
    } else if crate::regions::lit_at_exec(&t, 0, "{@render") {
        Some(HoverTopic::RenderDirective)
    } else {
        None
    }
}

/// Which completions fit the cursor `pos` of `doc`.
pub fn completion_context(doc: &Document, pos: Position) -> (r: CompletionContext)
    requires
        doc.wf(),
    ensures
        r == context_of(doc.content(), pos),
{
    let ghost s = doc.content();
    match doc.region_at_position(pos) {
        Some(region) => {
            proof {
                let o = position_offset(s, pos)->0;
                let i = choose|i: int| first_at(classify(s), o, i) && region@ == classify(s)[i];
                lemma_first_region(classify(s), o, i);
            }
            match region.region_type {
                RegionType::LuaScript | RegionType::LuaScriptModule => CompletionContext::Script,
                RegionType::LuaExpression => CompletionContext::Expression,
                RegionType::ControlFlow | RegionType::Directive => CompletionContext::Marker,
                _ => CompletionContext::Template,
            }
        },
        None => {
            proof {
                if let Some(o) = position_offset(s, pos) {
                    lemma_no_region(classify(s), o);
                }
            }
            match doc.position_to_offset(pos) {
                Some(offset) => {
                    if offset == 0 {
                        return CompletionContext::Nowhere;
                    }
                    let text = doc.text();
                    let prev = text.as_str().get_char(offset - 1);
                    if prev == '{' {
                        CompletionContext::AfterBrace
                    } else if prev == '<' {
                        CompletionContext::AfterTag
                    } else {
                        CompletionContext::Template
                    }
                },
                None => CompletionContext::Nowhere,
            }
        },
    }
}

/// What a hover at `pos` of `doc` explains, if anything.
pub fn hover_topic(doc: &Document, pos: Position) -> (r: Option<HoverTopic>)
    requires
        doc.wf(),
    ensures
        r == hover_of(doc.content(), pos),
{
    let ghost s = doc.content();
    match doc.region_at_position(pos) {
        Some(region) => {
            proof {
                let o = position_offset(s, pos)->0;
                let i = choose|i: int| first_at(classify(s), o, i) && region@ == classify(s)[i];
                lemma_first_region(classify(s), o, i);
            }
            match region.region_type {
                RegionType::ControlFlow => {
                    return match &region.content {
                        Some(c) => flow_topic_exec(c.as_str()),
                        None => None,
                    };
                },
                RegionType::Directive => {
                    return match &region.content {
                        Some(c) => directive_topic_exec(c.as_str()),
                        None => None,
                    };
                },
                _ => {},
            }
        },
        None => {
            proof {
                if let Some(o) = position_offset(s, pos) {
                    lemma_no_region(classify(s), o);
                }
            }
        },
    }
    let (word, _range) = match doc.word_at_position(pos) {
        Some(w) => w,
        None => {
            return None;
        },
    };
    let w = crate::regions::chars_of(word.as_str());
    if text_is(&w, "props") {
        Some(HoverTopic::Props)
    } else if text_is(&w, "require") {
        Some(HoverTopic::Require)
    } else if text_is(&w, "children") {
        Some(HoverTopic::Children)
    } else {
        None
    }
}


/// The module path that a go-to-definition at `p` in `s` asks for: for a
/// word that starts with an uppercase letter, the path bound to that name;
/// otherwise the path under the cursor.
pub open spec fn definition_path_of(s: Seq<char>, p: Position) -> Option<Seq<char>> {
    match position_offset(s, p) {
        None => None,
        Some(o) => {
            let a = word_start(s, o);
            let b = word_end(s, o);
            if a == b || b > u32::MAX {
                None
            } else if uppercase(s[a]) {
                path_of(s, binding_named(bindings_from(s, 0), s, s.subrange(a, b)))
            } else {
                path_of(s, binding_with_path_at(bindings_from(s, 0), o))
            }
        },
    }
}

/// Where a module path may be found, relative to the document's directory,
/// in the order to try: this directory, its parent, then the parent's
/// parent; in each, `.luat` before `.lua`, each file itself before the one
/// under `src/`.
pub open spec fn candidate_paths(path: Seq<char>) -> Seq<Seq<char>> {
    Seq::new(
        12,
        |i: int|
            {
                let dir = if i < 4 {
                    ""@
                } else if i < 8 {
                    "../"@
                } else {
                    "../../"@
                };
                let src = if i % 2 == 1 {
                    "src/"@
                } else {
                    ""@
                };
                let ext = if i % 4 < 2 {
                    ".luat"@
                } else {
                    ".lua"@
                };
                dir + src + path + ext
            },
    )
}

proof fn lemma_word_bounds(s: Seq<char>, o: int)
    requires
        0 <= o <= s.len(),
    ensures
        0 <= word_start(s, o) <= o <= word_end(s, o) <= s.len(),
    decreases s.len() - o,
{
    lemma_word_start_below(s, o);
    if 0 <= o < s.len() && crate::document::is_word(s[o]) {
        lemma_word_bounds(s, o + 1);
    }
}

proof fn lemma_word_start_below(s: Seq<char>, o: int)
    requires
        0 <= o <= s.len(),
    ensures
        0 <= word_start(s, o) <= o,
    decreases o,
{
    if 0 < o && crate::document::is_word(s[o - 1]) {
        lemma_word_start_below(s, o - 1);
    }
}

/// The module path that a go-to-definition at `pos` of `doc` asks for.
pub fn definition_path(doc: &Document, pos: Position) -> (r: Option<String>)
    ensures
        opt_text(r) == definition_path_of(doc.content(), pos),
{
    let ghost s = doc.content();
    let offset = match doc.position_to_offset(pos) {
        Some(o) => o,
        None => {
            return None;
        },
    };
    let (word, _range) = match doc.word_at_position(pos) {
        Some(w) => w,
        None => {
            return None;
        },
    };
    proof {
        lemma_word_bounds(s, offset as int);
    }
    let text = doc.text();
    let first = word.as_str().get_char(0);
    if crate::symbols::is_uppercase(first) {
        crate::imports::find_require_path_for_name(text.as_str(), word.as_str())
    } else {
        crate::imports::find_require_path_at_offset(text.as_str(), offset)
    }
}

/// The files that may hold module `path`, relative to the document's
/// directory, in the order to try.
pub fn candidate_files(path: &str) -> (r: Vec<String>)
    ensures
        r@.map_values(|f: String| f@) == candidate_paths(path@),
{
    let mut out: Vec<String> = Vec::new();
    let mut i: usize = 0;
    while i < 12
        invariant
            i <= 12,
            out@.len() == i,
            forall|j: int| 0 <= j < i ==> (#[trigger] out@[j])@ == candidate_paths(path@)[j],
        decreases 12 - i,
    {
        let dir = if i >= 8 {
            "../../"
        } else if i >= 4 {
            "../"
        } else {
            ""
        };
        let src = if i % 2 == 1 {
            "src/"
        } else {
            ""
        };
        let ext = if i % 4 < 2 {
            ".luat"
        } else {
            ".lua"
        };
        let mut f = String::new();
        f.append(dir);
        f.append(src);
        f.append(path);
        f.append(ext);
        proof {
            assert(f@ =~= candidate_paths(path@)[i as int]);
        }
        out.push(f);
        i += 1;
    }
    assert(out@.map_values(|f: String| f@) =~= candidate_paths(path@));
    out
}

} // verus!
