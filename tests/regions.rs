use luat_lsp::regions::{DocumentRegions, Region, RegionType};

fn of_type(regions: &DocumentRegions, t: RegionType) -> Vec<&Region> {
    regions.regions.iter().filter(|r| r.region_type == t).collect()
}

#[test]
fn test_parse_script_regions() {
    let text = r#"
<script module>
local Card = require("Card")
</script>

<script>
local count = 0
</script>

<div>{count}</div>
"#;

    let regions = DocumentRegions::parse(text);

    let scripts: Vec<_> = regions.scripts();
    assert_eq!(scripts.len(), 2);
    assert_eq!(scripts[0].region_type, RegionType::LuaScriptModule);
    assert_eq!(scripts[1].region_type, RegionType::LuaScript);
}

#[test]
fn test_parse_expressions() {
    let text = "<p>{name}</p><span>{count + 1}</span>";
    let regions = DocumentRegions::parse(text);

    let exprs: Vec<_> = regions.expressions();
    assert_eq!(exprs.len(), 2);
    assert_eq!(exprs[0].content.as_deref(), Some("name"));
    assert_eq!(exprs[1].content.as_deref(), Some("count + 1"));
}

#[test]
fn test_parse_control_flow() {
    let text = "{#if visible}<p>Hello</p>{/if}";
    let regions = DocumentRegions::parse(text);

    let control: Vec<_> = regions
        .regions
        .iter()
        .filter(|r| r.region_type == RegionType::ControlFlow)
        .collect();
    assert_eq!(control.len(), 2);
}

#[test]
fn script_block_content_is_extracted() {
    let regions = DocumentRegions::parse("<script>\nlocal x = 1\n</script>");
    assert_eq!(regions.regions.len(), 1);
    let r = &regions.regions[0];
    assert_eq!(r.region_type, RegionType::LuaScript);
    assert_eq!(r.content.as_deref(), Some("\nlocal x = 1\n"));
    assert_eq!((r.start, r.end), (0, 30));
}

#[test]
fn expression_offsets_cover_the_braces() {
    let regions = DocumentRegions::parse("<p>{name}</p>");
    assert_eq!(regions.regions.len(), 1);
    let r = &regions.regions[0];
    assert_eq!(r.region_type, RegionType::LuaExpression);
    assert_eq!(r.content.as_deref(), Some("name"));
    assert_eq!((r.start, r.end), (3, 9));
}

#[test]
fn control_flow_pair_has_no_expression() {
    let regions = DocumentRegions::parse("{#if a}{/if}");
    let control = of_type(&regions, RegionType::ControlFlow);
    assert_eq!(control.len(), 2);
    assert_eq!((control[0].start, control[0].end), (0, 7));
    assert_eq!(control[0].content.as_deref(), Some("{#if a}"));
    assert_eq!((control[1].start, control[1].end), (7, 12));
    assert_eq!(control[1].content.as_deref(), Some("{/if}"));
    assert_eq!(regions.expressions().len(), 0);
}

#[test]
fn unterminated_block_keeps_its_opener() {
    let regions = DocumentRegions::parse("{#if a}");
    assert_eq!(regions.regions.len(), 1);
    assert_eq!(regions.regions[0].region_type, RegionType::ControlFlow);
    assert_eq!((regions.regions[0].start, regions.regions[0].end), (0, 7));
}

#[test]
fn unclosed_brace_gives_no_region() {
    let regions = DocumentRegions::parse("{#if a");
    assert_eq!(regions.regions.len(), 0);
    let regions = DocumentRegions::parse("<script>never closed");
    assert_eq!(regions.regions.len(), 0);
}

#[test]
fn empty_text_has_no_regions() {
    assert_eq!(DocumentRegions::parse("").regions.len(), 0);
}

#[test]
fn classification_is_deterministic() {
    let text = "<script>a</script>{x}<!-- c -->{#each xs as x}{@html y}{/each}";
    let a = DocumentRegions::parse(text);
    let b = DocumentRegions::parse(text);
    assert_eq!(a.regions.len(), b.regions.len());
    for (x, y) in a.regions.iter().zip(b.regions.iter()) {
        assert_eq!(x.region_type, y.region_type);
        assert_eq!((x.start, x.end), (y.start, y.end));
        assert_eq!(x.content, y.content);
    }
}

#[test]
fn regions_are_sorted_and_disjoint() {
    let text = "{x}<script module>m</script><!-- c -->{/* n */}{@local a = 1}<script>s</script>{#if b}";
    let regions = DocumentRegions::parse(text);
    let kinds: Vec<RegionType> = regions.regions.iter().map(|r| r.region_type).collect();
    assert_eq!(
        kinds,
        vec![
            RegionType::LuaExpression,
            RegionType::LuaScriptModule,
            RegionType::HtmlComment,
            RegionType::LuatComment,
            RegionType::Directive,
            RegionType::LuaScript,
            RegionType::ControlFlow,
        ]
    );
    for w in regions.regions.windows(2) {
        assert!(w[0].end <= w[1].start);
    }
}

#[test]
fn nothing_starts_inside_scripts_or_comments() {
    let text = "<script>{a} {#if b}</script><!-- {c} {@html d} -->{/* {e} */}{f}";
    let regions = DocumentRegions::parse(text);
    let kinds: Vec<RegionType> = regions.regions.iter().map(|r| r.region_type).collect();
    assert_eq!(
        kinds,
        vec![
            RegionType::LuaScript,
            RegionType::HtmlComment,
            RegionType::LuatComment,
            RegionType::LuaExpression,
        ]
    );
    assert_eq!(regions.expressions()[0].content.as_deref(), Some("f"));
}

#[test]
fn module_script_forms() {
    let regions = DocumentRegions::parse("<script context = \"module\">a</script><script\tmodule >b</script>");
    let modules = of_type(&regions, RegionType::LuaScriptModule);
    assert_eq!(modules.len(), 2);
    assert_eq!(modules[0].content.as_deref(), Some("a"));
    assert_eq!(modules[1].content.as_deref(), Some("b"));
    assert_eq!(of_type(&regions, RegionType::LuaScript).len(), 0);
}

#[test]
fn script_ends_at_first_closing_tag() {
    let regions = DocumentRegions::parse("<script>a</script>b</script>");
    assert_eq!(regions.regions.len(), 1);
    assert_eq!(regions.regions[0].content.as_deref(), Some("a"));
    assert_eq!(regions.regions[0].end, 18);
}

#[test]
fn comments_stay_on_one_line() {
    let regions = DocumentRegions::parse("<!-- a\nb -->{/* c\n*/}");
    assert_eq!(of_type(&regions, RegionType::HtmlComment).len(), 0);
    assert_eq!(of_type(&regions, RegionType::LuatComment).len(), 0);
    let regions = DocumentRegions::parse("<!-- a -->");
    assert_eq!(regions.regions.len(), 1);
    assert_eq!(regions.regions[0].content, None);
}

#[test]
fn sigil_after_brace_is_not_an_expression() {
    let regions = DocumentRegions::parse("<p>{}</p>{ x }");
    let exprs = regions.expressions();
    assert_eq!(exprs.len(), 1);
    assert_eq!(exprs[0].content.as_deref(), Some(" x "));
    assert_eq!(exprs[0].start, 9);
}

#[test]
fn offsets_count_characters() {
    let regions = DocumentRegions::parse("é→{v}");
    assert_eq!(regions.regions.len(), 1);
    assert_eq!((regions.regions[0].start, regions.regions[0].end), (2, 5));
}

#[test]
fn region_lookup_by_offset() {
    let regions = DocumentRegions::parse("<p>{name}</p>");
    assert!(regions.region_at_offset(2).is_none());
    assert_eq!(regions.region_at_offset(3).map(|r| r.start), Some(3));
    assert_eq!(regions.region_at_offset(8).map(|r| r.end), Some(9));
    assert!(regions.region_at_offset(9).is_none());
}

#[test]
fn region_contains_is_half_open() {
    let r = Region { region_type: RegionType::Directive, start: 2, end: 4, content: None };
    assert!(!r.contains(1));
    assert!(r.contains(2));
    assert!(r.contains(3));
    assert!(!r.contains(4));
}

#[test]
fn virtual_document_orders_modules_scripts_expressions() {
    let text = "<script>local b = 2</script>{b}<script module>local a = 1</script>{a + b}";
    let regions = DocumentRegions::parse(text);
    assert_eq!(
        regions.virtual_lua_document(),
        "local a = 1\n\nlocal b = 2\n\nlocal function __luat_template(props)\n  local _ = b\n  local _ = a + b\nend\n"
    );
}

#[test]
fn virtual_document_of_plain_markup() {
    let regions = DocumentRegions::parse("<p>hi</p>");
    assert_eq!(regions.virtual_lua_document(), "local function __luat_template(props)\nend\n");
}

#[test]
fn comment_crossing_a_script_end_is_dropped() {
    let regions = DocumentRegions::parse("<script><!-- </script> -->");
    assert_eq!(regions.regions.len(), 1);
    assert_eq!(regions.regions[0].region_type, RegionType::LuaScript);
    assert_eq!((regions.regions[0].start, regions.regions[0].end), (0, 22));
}

#[test]
fn nested_comment_is_dropped() {
    let regions = DocumentRegions::parse("<!--{/**/}-->");
    assert_eq!(regions.regions.len(), 1);
    // Template comments are claimed before markup comments.
    assert_eq!(regions.regions[0].region_type, RegionType::LuatComment);
    assert_eq!((regions.regions[0].start, regions.regions[0].end), (4, 10));
}

#[test]
fn brace_run_over_a_script_is_dropped() {
    let regions = DocumentRegions::parse("{a <script>}</script>");
    let kinds: Vec<RegionType> = regions.regions.iter().map(|r| r.region_type).collect();
    assert_eq!(kinds, vec![RegionType::LuaScript]);
    assert_eq!(regions.regions[0].start, 3);
}
