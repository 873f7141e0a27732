use luat_lsp::document::{is_word_char, Document, Position, Range, TextChange};
use luat_lsp::regions::RegionType;

fn doc(text: &str) -> Document {
    Document::new("file:///tmp/page.luat".to_string(), text.to_string())
}

fn pos(line: u32, character: u32) -> Position {
    Position { line, character }
}

#[test]
fn new_document_keeps_text_and_identity() {
    let d = doc("a\nb");
    assert_eq!(d.text(), "a\nb");
    assert_eq!(d.uri(), "file:///tmp/page.luat");
    assert_eq!(d.rope().len_chars(), 3);
    assert_eq!(d.regions().map(|r| r.regions.len()), Some(0));
}

#[test]
fn position_to_offset_clamps_and_rejects() {
    let d = doc("ab\ncde\n");
    assert_eq!(d.position_to_offset(pos(0, 0)), Some(0));
    assert_eq!(d.position_to_offset(pos(0, 2)), Some(2));
    assert_eq!(d.position_to_offset(pos(0, 9)), Some(2));
    assert_eq!(d.position_to_offset(pos(1, 3)), Some(6));
    assert_eq!(d.position_to_offset(pos(1, 4)), Some(6));
    assert_eq!(d.position_to_offset(pos(1, 1)), Some(4));
    assert_eq!(d.position_to_offset(pos(2, 0)), Some(7));
    assert_eq!(d.position_to_offset(pos(2, 5)), Some(7));
    assert_eq!(d.position_to_offset(pos(3, 0)), None);
}

#[test]
fn offset_to_position_counts_line_breaks() {
    let d = doc("ab\r\ncd\re\u{2028}f");
    assert_eq!(d.offset_to_position(0), pos(0, 0));
    assert_eq!(d.offset_to_position(3), pos(0, 3));
    assert_eq!(d.offset_to_position(4), pos(1, 0));
    assert_eq!(d.offset_to_position(7), pos(2, 0));
    assert_eq!(d.offset_to_position(9), pos(3, 0));
    assert_eq!(d.offset_to_position(10), pos(3, 1));
}

#[test]
fn positions_round_trip() {
    let d = doc("héllo\nwörld\r\nlast\r");
    let widths = [5u32, 5, 4, 0];
    for line in 0..4u32 {
        for col in 0..9u32 {
            let o = d.position_to_offset(pos(line, col)).unwrap();
            let width = widths[line as usize];
            assert_eq!(d.offset_to_position(o), pos(line, col.min(width)));
        }
    }
}

#[test]
fn column_past_line_end_stays_on_its_line() {
    let d = doc("a\nb");
    let o = d.position_to_offset(pos(0, 5)).unwrap();
    assert_eq!(o, 1);
    assert_eq!(d.offset_to_position(o), pos(0, 1));
    let d = doc("ab\r\ncd");
    assert_eq!(d.position_to_offset(pos(0, 7)), Some(2));
    assert_eq!(d.position_to_offset(pos(1, 7)), Some(6));
}

#[test]
fn incremental_edit_replaces_range() {
    let mut d = doc("<p>{name}</p>");
    d.apply_change(&TextChange {
        range: Some(Range { start: pos(0, 4), end: pos(0, 8) }),
        text: "title".to_string(),
    });
    assert_eq!(d.text(), "<p>{title}</p>");
    let regions = d.regions().unwrap();
    assert_eq!(regions.regions.len(), 1);
    assert_eq!(regions.regions[0].content.as_deref(), Some("title"));
    assert_eq!(regions.regions[0].end, 10);
}

#[test]
fn full_edit_replaces_everything() {
    let mut d = doc("{a}");
    d.apply_change(&TextChange { range: None, text: "<!-- x -->".to_string() });
    assert_eq!(d.text(), "<!-- x -->");
    let regions = d.regions().unwrap();
    assert_eq!(regions.regions.len(), 1);
    assert_eq!(regions.regions[0].region_type, RegionType::HtmlComment);
}

#[test]
fn insertion_and_multiline_edit() {
    let mut d = doc("ab\ncd");
    d.apply_change(&TextChange {
        range: Some(Range { start: pos(1, 0), end: pos(1, 0) }),
        text: "X".to_string(),
    });
    assert_eq!(d.text(), "ab\nXcd");
    d.apply_change(&TextChange {
        range: Some(Range { start: pos(0, 1), end: pos(1, 2) }),
        text: "".to_string(),
    });
    assert_eq!(d.text(), "ad");
}

#[test]
fn edit_outside_document_changes_nothing() {
    let mut d = doc("ab");
    d.apply_change(&TextChange {
        range: Some(Range { start: pos(0, 0), end: pos(4, 0) }),
        text: "zz".to_string(),
    });
    assert_eq!(d.text(), "ab");
}

#[test]
fn deleting_script_content_leaves_no_stale_region() {
    let mut d = doc("<script>local x = 1</script>");
    assert_eq!(d.regions().unwrap().regions[0].content.as_deref(), Some("local x = 1"));
    d.apply_change(&TextChange {
        range: Some(Range { start: pos(0, 8), end: pos(0, 19) }),
        text: String::new(),
    });
    assert_eq!(d.text(), "<script></script>");
    let regions = d.regions().unwrap();
    assert_eq!(regions.regions.len(), 1);
    assert_eq!(regions.regions[0].region_type, RegionType::LuaScript);
    assert_eq!(regions.regions[0].content.as_deref(), Some(""));
    assert_eq!((regions.regions[0].start, regions.regions[0].end), (0, 17));
}

#[test]
fn region_at_position_finds_expression() {
    let d = doc("<div>\n  {count}\n</div>");
    let r = d.region_at_position(pos(1, 3)).unwrap();
    assert_eq!(r.region_type, RegionType::LuaExpression);
    assert_eq!(r.content.as_deref(), Some("count"));
    assert!(d.region_at_position(pos(1, 0)).is_none());
    assert!(d.region_at_position(pos(7, 0)).is_none());
}

#[test]
fn text_range_between_positions() {
    let d = doc("hello\nworld");
    let r = Range { start: pos(0, 3), end: pos(1, 2) };
    assert_eq!(d.get_text_range(r).as_deref(), Some("lo\nwo"));
    let reversed = Range { start: pos(1, 2), end: pos(0, 3) };
    assert_eq!(d.get_text_range(reversed), None);
    let missing = Range { start: pos(0, 0), end: pos(5, 0) };
    assert_eq!(d.get_text_range(missing), None);
}

#[test]
fn word_around_cursor() {
    let d = doc("local my_var = props.name\n");
    let (word, range) = d.word_at_position(pos(0, 8)).unwrap();
    assert_eq!(word, "my_var");
    assert_eq!(range, Range { start: pos(0, 6), end: pos(0, 12) });
    let (word, _) = d.word_at_position(pos(0, 12)).unwrap();
    assert_eq!(word, "my_var");
    assert!(d.word_at_position(pos(0, 13)).is_none());
    assert!(d.word_at_position(pos(3, 0)).is_none());
}

#[test]
fn word_on_second_line_with_wide_characters() {
    let d = doc("é\n  abc9 ");
    let (word, range) = d.word_at_position(pos(1, 3)).unwrap();
    assert_eq!(word, "abc9");
    assert_eq!(range, Range { start: pos(1, 2), end: pos(1, 6) });
}

#[test]
fn word_characters() {
    assert!(is_word_char('a'));
    assert!(is_word_char('Z'));
    assert!(is_word_char('7'));
    assert!(is_word_char('_'));
    assert!(!is_word_char('-'));
    assert!(!is_word_char('é'));
    assert!(!is_word_char(' '));
}
