use luat_lsp::assist::{completion_context, hover_topic, CompletionContext, HoverTopic};
use luat_lsp::document::{Document, Position};

fn doc(text: &str) -> Document {
    Document::new("file:///tmp/a.luat".to_string(), text.to_string())
}

fn at(line: u32, character: u32) -> Position {
    Position { line, character }
}

#[test]
fn completion_contexts() {
    let d = doc("<script>x</script>{a}{#if b}<!-- c -->{\n<");
    assert_eq!(completion_context(&d, at(0, 9)), CompletionContext::Script);
    assert_eq!(completion_context(&d, at(0, 19)), CompletionContext::Expression);
    assert_eq!(completion_context(&d, at(0, 23)), CompletionContext::Marker);
    assert_eq!(completion_context(&d, at(0, 30)), CompletionContext::Template);
    assert_eq!(completion_context(&d, at(0, 39)), CompletionContext::AfterBrace);
    assert_eq!(completion_context(&d, at(1, 1)), CompletionContext::AfterTag);
    assert_eq!(completion_context(&d, at(1, 0)), CompletionContext::Template);
    assert_eq!(completion_context(&d, at(5, 0)), CompletionContext::Nowhere);
    assert_eq!(completion_context(&doc("abc"), at(0, 0)), CompletionContext::Nowhere);
}

#[test]
fn hover_on_markers_and_directives() {
    let d = doc("{#if a}{:else if b}{:else}{/if}{#each xs as x}{:empty}{/each}{@html h}{@local l = 1}{@render r()}{!x}{@raw y}");
    assert_eq!(hover_topic(&d, at(0, 2)), Some(HoverTopic::IfBlock));
    assert_eq!(hover_topic(&d, at(0, 8)), Some(HoverTopic::ElseIfClause));
    assert_eq!(hover_topic(&d, at(0, 20)), Some(HoverTopic::ElseClause));
    assert_eq!(hover_topic(&d, at(0, 27)), Some(HoverTopic::EndIf));
    assert_eq!(hover_topic(&d, at(0, 33)), Some(HoverTopic::EachBlock));
    assert_eq!(hover_topic(&d, at(0, 48)), Some(HoverTopic::EmptyClause));
    assert_eq!(hover_topic(&d, at(0, 56)), Some(HoverTopic::EndEach));
    assert_eq!(hover_topic(&d, at(0, 63)), Some(HoverTopic::HtmlDirective));
    assert_eq!(hover_topic(&d, at(0, 73)), Some(HoverTopic::LocalDirective));
    assert_eq!(hover_topic(&d, at(0, 88)), Some(HoverTopic::RenderDirective));
    assert_eq!(hover_topic(&d, at(0, 101)), None);
    assert_eq!(hover_topic(&d, at(0, 106)), None);
}

#[test]
fn hover_on_keywords() {
    let d = doc("<script>local C = require('c')</script><p>{props.children}</p> propsx");
    assert_eq!(hover_topic(&d, at(0, 20)), Some(HoverTopic::Require));
    assert_eq!(hover_topic(&d, at(0, 44)), Some(HoverTopic::Props));
    assert_eq!(hover_topic(&d, at(0, 52)), Some(HoverTopic::Children));
    assert_eq!(hover_topic(&d, at(0, 65)), None);
    assert_eq!(hover_topic(&d, at(0, 2)), None);
}

#[test]
fn definition_paths() {
    let d = doc("<script>\nlocal Card = require(\"ui/Card\")\n</script>\n<Card />");
    // On the binding's path string.
    assert_eq!(luat_lsp::assist::definition_path(&d, at(1, 24)).as_deref(), Some("ui/Card"));
    // On a capitalised word: the path bound to that name.
    assert_eq!(luat_lsp::assist::definition_path(&d, at(3, 2)).as_deref(), Some("ui/Card"));
    // On `local`: nothing.
    assert_eq!(luat_lsp::assist::definition_path(&d, at(1, 2)), None);
    // On a line that does not exist.
    assert_eq!(luat_lsp::assist::definition_path(&d, at(9, 0)), None);
}

#[test]
fn candidate_files_in_order() {
    let c = luat_lsp::assist::candidate_files("ui/Card");
    assert_eq!(
        c,
        vec![
            "ui/Card.luat",
            "src/ui/Card.luat",
            "ui/Card.lua",
            "src/ui/Card.lua",
            "../ui/Card.luat",
            "../src/ui/Card.luat",
            "../ui/Card.lua",
            "../src/ui/Card.lua",
            "../../ui/Card.luat",
            "../../src/ui/Card.luat",
            "../../ui/Card.lua",
            "../../src/ui/Card.lua",
        ]
    );
}
