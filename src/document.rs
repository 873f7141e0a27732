use crate::regions::{chars_of, classify, first_at, inside, DocumentRegions, Region};
use crate::rope::{
    breaks_before, is_break_end, is_line_start, line_count, rope_char, rope_char_to_line, rope_from_str, rope_insert,
    rope_len_lines, rope_line_to_char, rope_remove, rope_slice_to_string, rope_text, rope_to_string,
};
use ropey::Rope;
use vstd::prelude::*;
use vstd::string::*;

verus! {

/// A cursor position: zero-based line and column, both counted in characters.
#[derive(Debug, Clone, Copy, PartialEq, Eq, Structural)]
pub struct Position {
    pub line: u32,
    pub character: u32,
}

/// A pair of positions: `start` inclusive, `end` exclusive.
#[derive(Debug, Clone, Copy, PartialEq, Eq, Structural)]
pub struct Range {
    pub start: Position,
    pub end: Position,
}

/// An edit: replace the characters of `range` with `text`, or, without a
/// range, the whole document.
#[derive(Debug, Clone)]
pub struct TextChange {
    pub range: Option<Range>,
    pub text: String,
}

/// Where line `l` of `s` starts.
pub open spec fn line_start(s: Seq<char>, l: int) -> int {
    choose|c: int| is_line_start(s, l, c)
}

/// Where line `l` of `s` ends, its line break included.
pub open spec fn line_end(s: Seq<char>, l: int) -> int {
    if l + 1 < line_count(s) {
        line_start(s, l + 1)
    } else {
        s.len() as int
    }
}

/// The number of characters of the line break that ends line `l`: two for
/// CR LF, one for any other break, none on the last line.
pub open spec fn break_len(s: Seq<char>, l: int) -> int {
    let b = line_end(s, l);
    if l + 1 >= line_count(s) {
        0
    } else if s[b - 1] == '\n' && b - 2 >= line_start(s, l) && s[b - 2] == '\r' {
        2
    } else {
        1
    }
}

/// The number of characters of line `l`, its line break left out.
pub open spec fn line_width(s: Seq<char>, l: int) -> int {
    line_end(s, l) - line_start(s, l) - break_len(s, l)
}

/// The offset of column `col` of line `l`, a column past the line's end
/// standing for the line's end (before its line break).
pub open spec fn clamp_offset(s: Seq<char>, l: int, col: int) -> int {
    let w = line_width(s, l);
    line_start(s, l) + if col > w {
        w
    } else {
        col
    }
}

/// The offset of `p` in `s`, if its line exists.
pub open spec fn position_offset(s: Seq<char>, p: Position) -> Option<int> {
    if (p.line as int) < line_count(s) {
        Some(clamp_offset(s, p.line as int, p.character as int))
    } else {
        None
    }
}

/// `s` after the edit `range`/`text`: an edit whose ends do not both exist,
/// or whose start comes after its end, leaves `s` as it is.
pub open spec fn applied(s: Seq<char>, range: Option<Range>, text: Seq<char>) -> Seq<char> {
    match range {
        None => text,
        Some(r) => match (position_offset(s, r.start), position_offset(s, r.end)) {
            (Some(a), Some(b)) => if a <= b {
                s.subrange(0, a) + text + s.subrange(b, s.len() as int)
            } else {
                s
            },
            _ => s,
        },
    }
}

/// `p` is the position of offset `o` in `s`: its line is the number of line
/// breaks before `o`, its column the distance from that line's start.
pub open spec fn is_position_of(s: Seq<char>, o: int, p: Position) -> bool {
    p.line == breaks_before(s, o) && p.character == o - line_start(s, p.line as int)
}

/// An identifier character: an ASCII letter or digit, or `_`.
pub open spec fn is_word(c: char) -> bool {
    let n = c as u32;
    (48 <= n && n <= 57) || (65 <= n && n <= 90) || (97 <= n && n <= 122) || n == 95
}

/// Where the run of identifier characters that ends at `o` starts.
pub open spec fn word_start(s: Seq<char>, o: int) -> int
    decreases o,
{
    if 0 < o <= s.len() && is_word(s[o - 1]) {
        word_start(s, o - 1)
    } else {
        o
    }
}

/// Where the run of identifier characters that starts at `o` ends.
pub open spec fn word_end(s: Seq<char>, o: int) -> int
    decreases s.len() - o,
{
    if 0 <= o < s.len() && is_word(s[o]) {
        word_end(s, o + 1)
    } else {
        o
    }
}

pub fn is_word_char(c: char) -> (b: bool)
    ensures
        b == is_word(c),
{
    let n = c as u32;
    (48 <= n && n <= 57) || (65 <= n && n <= 90) || (97 <= n && n <= 122) || n == 95
}

proof fn lemma_breaks_monotone(s: Seq<char>, a: int, b: int)
    requires
        a <= b,
    ensures
        breaks_before(s, a) <= breaks_before(s, b),
    decreases b - a,
{
    if a < b {
        lemma_breaks_monotone(s, a, b - 1);
    }
}

proof fn lemma_breaks_at_most(s: Seq<char>, c: int)
    requires
        0 <= c,
    ensures
        breaks_before(s, c) <= c,
    decreases c,
{
    if c > 0 {
        lemma_breaks_at_most(s, c - 1);
    }
}

proof fn lemma_break_counts(s: Seq<char>, a: int, b: int)
    requires
        a < b,
        is_break_end(s, b - 1),
    ensures
        breaks_before(s, a) + 1 <= breaks_before(s, b),
{
    lemma_breaks_monotone(s, a, b - 1);
}

proof fn lemma_line_start_unique(s: Seq<char>, l: int, c: int)
    requires
        is_line_start(s, l, c),
    ensures
        line_start(s, l) == c,
{
    let d = line_start(s, l);
    assert(is_line_start(s, l, d));
    if d < c {
        lemma_break_counts(s, d, c);
    } else if c < d {
        lemma_break_counts(s, c, d);
    }
}

/// Where line `l` of `s` starts and ends, as the rope reports them.
proof fn lemma_line_bounds(s: Seq<char>, l: int, a: int, b: int)
    requires
        0 <= l < line_count(s),
        is_line_start(s, l, a),
        l + 1 < line_count(s) ==> is_line_start(s, l + 1, b),
        l + 1 == line_count(s) ==> b == s.len(),
    ensures
        line_start(s, l) == a,
        line_end(s, l) == b,
        a <= b,
        l + 1 < line_count(s) ==> a < b && is_break_end(s, b - 1),
        0 <= line_width(s, l),
{
    lemma_line_start_unique(s, l, a);
    if l + 1 < line_count(s) {
        lemma_line_start_unique(s, l + 1, b);
        if b <= a {
            lemma_breaks_monotone(s, b, a);
        }
    }
}

proof fn lemma_line_start_exists(s: Seq<char>, c: int, l: int)
    requires
        0 <= c <= s.len(),
        0 <= l <= breaks_before(s, c),
    ensures
        is_line_start(s, l, line_start(s, l)),
    decreases c,
{
    if l == 0 {
        assert(is_line_start(s, 0, 0));
    } else if l <= breaks_before(s, c - 1) {
        lemma_line_start_exists(s, c - 1, l);
    } else {
        assert(is_line_start(s, l, c));
    }
}

/// Round trip: take a line of `s` and any column; the offset of that
/// position maps back to the same line, and to the column clamped to the
/// line's length without its line break.
pub proof fn lemma_position_round_trip(s: Seq<char>, l: int, col: int)
    requires
        0 <= l < line_count(s),
        0 <= col,
    ensures
        ({
            let o = clamp_offset(s, l, col);
            let w = line_width(s, l);
            &&& breaks_before(s, o) == l
            &&& o - line_start(s, l) == if col > w {
                w
            } else {
                col
            }
        }),
{
    let a = line_start(s, l);
    let b = line_end(s, l);
    lemma_line_start_exists(s, s.len() as int, l);
    if l + 1 < line_count(s) {
        lemma_line_start_exists(s, s.len() as int, l + 1);
    }
    lemma_line_bounds(s, l, a, b);
    let o = clamp_offset(s, l, col);
    lemma_breaks_monotone(s, a, o);
    if l + 1 == line_count(s) {
        lemma_breaks_monotone(s, o, s.len() as int);
    } else {
        lemma_breaks_monotone(s, o, b - 1);
    }
}

/// An open document: its identity, its text, and the regions of that text.
pub struct Document {
    uri: String,
    /// The document text stored as a rope for efficient edits
    rope: Rope,
    /// Cached regions (invalidated on change)
    regions: Option<DocumentRegions>,
}

impl Document {
    /// The document's text.
    pub closed spec fn content(&self) -> Seq<char> {
        rope_text(self.rope)
    }

    /// The document's identity.
    pub closed spec fn identity(&self) -> Seq<char> {
        self.uri@
    }

    /// The cached regions are those of the current text.
    pub closed spec fn wf(&self) -> bool {
        self.regions is Some && self.regions->0@ == classify(self.content())
    }

    pub fn new(uri: String, text: String) -> (r: Self)
        ensures
            r.wf(),
            r.identity() == uri@,
            r.content() == text@,
    {
        let rope = rope_from_str(text.as_str());
        let mut doc = Document { uri, rope, regions: None };
        doc.parse_regions();
        doc
    }

    pub fn uri(&self) -> (r: &String)
        ensures
            r@ == self.identity(),
    {
        &self.uri
    }

    pub fn text(&self) -> (r: String)
        ensures
            r@ == self.content(),
    {
        rope_to_string(&self.rope)
    }

    /// The underlying rope.
    pub fn rope(&self) -> (r: &Rope)
        ensures
            rope_text(*r) == self.content(),
    {
        &self.rope
    }

    pub fn regions(&self) -> (r: Option<&DocumentRegions>)
        requires
            self.wf(),
        ensures
            r is Some,
            r->0@ == classify(self.content()),
    {
        self.regions.as_ref()
    }

    /// Apply one edit, then classify the new text.
    ///
    /// With a range, the characters between its two ends are replaced by the
    /// change's text; a range whose ends are not both in the document, or
    /// whose start comes after its end, changes nothing. Without a range the
    /// whole text is replaced.
    pub fn apply_change(&mut self, change: &TextChange)
        ensures
            final(self).wf(),
            final(self).identity() == old(self).identity(),
            final(self).content() == applied(old(self).content(), change.range, change.text@),
    {
        match change.range {
            Some(range) => {
                let start_idx = self.position_to_offset(range.start);
                let end_idx = self.position_to_offset(range.end);
                if let (Some(start), Some(end)) = (start_idx, end_idx) {
                    if start <= end {
                        rope_remove(&mut self.rope, start, end);
                        rope_insert(&mut self.rope, start, change.text.as_str());
                    }
                }
            },
            None => {
                self.rope = rope_from_str(change.text.as_str());
            },
        }
        self.regions = None;
        self.parse_regions();
    }

    /// The offset of `pos`: `None` if its line does not exist; a column past
    /// the end of the line gives the end of the line, before its line break.
    pub fn position_to_offset(&self, pos: Position) -> (r: Option<usize>)
        ensures
            match r {
                Some(o) => position_offset(self.content(), pos) == Some(o as int) && o
                    <= self.content().len(),
                None => position_offset(self.content(), pos) is None,
            },
    {
        let ghost s = self.content();
        let line = pos.line as usize;
        if line >= rope_len_lines(&self.rope) {
            return None;
        }
        let line_start = rope_line_to_char(&self.rope, line);
        let next_start = rope_line_to_char(&self.rope, line + 1);
        proof {
            lemma_line_bounds(s, line as int, line_start as int, next_start as int);
        }
        let mut width = next_start - line_start;
        if line + 1 < rope_len_lines(&self.rope) {
            width = width - 1;
            if rope_char(&self.rope, next_start - 1) == '\n' && width >= 1 && rope_char(
                &self.rope,
                next_start - 2,
            ) == '\r' {
                width = width - 1;
            }
        }
        assert(width == line_width(s, line as int));
        let col = pos.character as usize;
        if col > width {
            Some(line_start + width)
        } else {
            Some(line_start + col)
        }
    }

    /// The position of `offset`: its line is the number of line breaks
    /// before it, its column its distance from the start of that line.
    pub fn offset_to_position(&self, offset: usize) -> (p: Position)
        requires
            offset <= self.content().len(),
            offset <= u32::MAX,
        ensures
            is_position_of(self.content(), offset as int, p),
    {
        let ghost s = self.content();
        let line = rope_char_to_line(&self.rope, offset);
        proof {
            lemma_breaks_monotone(s, offset as int, s.len() as int);
            lemma_breaks_at_most(s, offset as int);
        }
        let line_start = rope_line_to_char(&self.rope, line);
        proof {
            lemma_line_start_unique(s, line as int, line_start as int);
            if line_start > offset {
                lemma_break_counts(s, offset as int, line_start as int);
            }
        }
        let col = offset - line_start;
        Position { line: line as u32, character: col as u32 }
    }

    /// The first region that holds the offset of `pos`.
    pub fn region_at_position(&self, pos: Position) -> (r: Option<&Region>)
        requires
            self.wf(),
        ensures
            match r {
                Some(x) => position_offset(self.content(), pos) is Some && exists|i: int|
                    first_at(
                        classify(self.content()),
                        position_offset(self.content(), pos)->0,
                        i,
                    ) && x@ == classify(self.content())[i],
                None => match position_offset(self.content(), pos) {
                    Some(o) => !inside(classify(self.content()), o),
                    None => true,
                },
            },
    {
        let offset = self.position_to_offset(pos)?;
        let regions = self.regions.as_ref()?;
        let r = regions.region_at_offset(offset);
        proof {
            if let Some(x) = r {
                let i = choose|i: int| first_at(regions@, offset as int, i) && *x == regions.regions@[i];
                assert(regions@[i] == regions.regions@[i]@);
            }
        }
        r
    }

    /// The text between the offsets of the two ends of `range`.
    pub fn get_text_range(&self, range: Range) -> (r: Option<String>)
        ensures
            match (position_offset(self.content(), range.start), position_offset(self.content(), range.end)) {
                (Some(a), Some(b)) => if a <= b {
                    r is Some && r->0@ == self.content().subrange(a, b)
                } else {
                    r is None
                },
                _ => r is None,
            },
    {
        let start = self.position_to_offset(range.start)?;
        let end = self.position_to_offset(range.end)?;
        if start > end {
            return None;
        }
        Some(rope_slice_to_string(&self.rope, start, end))
    }

    /// The identifier around `pos` and its range; `None` where no
    /// identifier character touches it, or where its end lies past the
    /// largest column a position can hold.
    pub fn word_at_position(&self, pos: Position) -> (r: Option<(String, Range)>)
        ensures
            match position_offset(self.content(), pos) {
                None => r is None,
                Some(o) => {
                    let a = word_start(self.content(), o);
                    let b = word_end(self.content(), o);
                    if a == b || b > u32::MAX {
                        r is None
                    } else {
                        r matches Some(w) && w.0@ == self.content().subrange(a, b)
                            && is_position_of(self.content(), a, w.1.start) && is_position_of(
                            self.content(),
                            b,
                            w.1.end,
                        )
                    }
                },
            },
    {
        let ghost s = self.content();
        let offset = self.position_to_offset(pos)?;
        let text = self.text();
        let t = chars_of(text.as_str());
        let mut start = offset;
        while start > 0 && is_word_char(t[start - 1])
            invariant
                t@ == s,
                start <= offset <= s.len(),
                word_start(s, offset as int) == word_start(s, start as int),
            decreases start,
        {
            start -= 1;
        }
        let mut end = offset;
        while end < t.len() && is_word_char(t[end])
            invariant
                t@ == s,
                offset <= end <= s.len(),
                word_end(s, offset as int) == word_end(s, end as int),
            decreases s.len() - end,
        {
            end += 1;
        }
        if start == end {
            return None;
        }
        if end > u32::MAX as usize {
            return None;
        }
        let word = text.substring_char(start, end).to_owned();
        let range = Range { start: self.offset_to_position(start), end: self.offset_to_position(end) };
        Some((word, range))
    }

    fn parse_regions(&mut self)
        ensures
            final(self).wf(),
            final(self).rope == old(self).rope,
            final(self).uri == old(self).uri,
    {
        let text = self.text();
        self.regions = Some(DocumentRegions::parse(text.as_str()));
    }
}

} // verus!
