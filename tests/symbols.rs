use luat_lsp::regions::DocumentRegions;
use luat_lsp::symbols::{document_outline, Symbol, SymbolKind};

fn outline(text: &str) -> Vec<(SymbolKind, String, usize)> {
    let regions = DocumentRegions::parse(text);
    document_outline(text, &regions)
        .into_iter()
        .map(|s: Symbol| (s.kind, s.name, s.offset))
        .collect()
}

#[test]
fn functions_and_components_in_scripts() {
    let text = "<script>\nlocal Card = require(\"Card\")\nlocal util = require(\"util\")\nfunction go(x)\nend\n  local function helper()\nend\n</script>";
    assert_eq!(
        outline(text),
        vec![
            (SymbolKind::Function, "go".to_string(), 8 + 68),
            (SymbolKind::Function, "helper".to_string(), 8 + 95),
            (SymbolKind::Component, "Card".to_string(), 8 + 7),
        ]
    );
}

#[test]
fn unbound_component_tags_are_listed() {
    let text = "<script>\nlocal Card = require(\"Card\")\n</script>\n<Card /><Button_2 x/><div></div>";
    assert_eq!(
        outline(text),
        vec![
            (SymbolKind::Component, "Card".to_string(), 15),
            (SymbolKind::ComponentUsage, "<Button_2>".to_string(), 56),
        ]
    );
}

#[test]
fn function_must_start_a_line() {
    let text = "<script>x = function f() end\n\tfunction g() end</script>";
    assert_eq!(outline(text), vec![(SymbolKind::Function, "g".to_string(), 8 + 31)]);
}

#[test]
fn outline_of_plain_markup_is_empty() {
    assert_eq!(outline("<p>hello</p>"), vec![]);
}
