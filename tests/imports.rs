use luat_lsp::imports::{find_require_path_at_offset, find_require_path_for_name};

const TEXT: &str = "<script>\nlocal Card = require(\"components/Card\")\nlocal  utils=require ( 'lib/utils' )\n</script>";

#[test]
fn path_under_cursor() {
    // `components/Card` spans characters 31..46; the closing quote is at 46.
    assert_eq!(find_require_path_at_offset(TEXT, 30), None);
    assert_eq!(find_require_path_at_offset(TEXT, 31).as_deref(), Some("components/Card"));
    assert_eq!(find_require_path_at_offset(TEXT, 46).as_deref(), Some("components/Card"));
    assert_eq!(find_require_path_at_offset(TEXT, 47), None);
    assert_eq!(find_require_path_at_offset(TEXT, 75).as_deref(), Some("lib/utils"));
}

#[test]
fn path_by_binding_name() {
    assert_eq!(find_require_path_for_name(TEXT, "Card").as_deref(), Some("components/Card"));
    assert_eq!(find_require_path_for_name(TEXT, "utils").as_deref(), Some("lib/utils"));
    assert_eq!(find_require_path_for_name(TEXT, "Car"), None);
    assert_eq!(find_require_path_for_name(TEXT, "Button"), None);
}

#[test]
fn malformed_bindings_are_ignored() {
    assert_eq!(find_require_path_for_name("local X = require(\"\")", "X"), None);
    assert_eq!(find_require_path_for_name("local X = require(\"a\"", "X"), None);
    assert_eq!(find_require_path_for_name("localX = require(\"a\")", "X"), None);
    assert_eq!(find_require_path_for_name("local X = require(a)", "X"), None);
    assert_eq!(find_require_path_for_name("local X = require('a\")", "X").as_deref(), Some("a"));
}

#[test]
fn first_binding_of_a_name_wins() {
    let text = "local A = require('one') local A = require('two')";
    assert_eq!(find_require_path_for_name(text, "A").as_deref(), Some("one"));
}

#[test]
fn unicode_identifiers_and_offsets() {
    let text = "é local Ñame = require('p')";
    assert_eq!(find_require_path_for_name(text, "Ñame").as_deref(), Some("p"));
    assert_eq!(find_require_path_at_offset(text, 24).as_deref(), Some("p"));
}

#[test]
fn binding_names_follow_the_word_class() {
    let text = "local a\u{300}‿b = require('m')";
    assert_eq!(find_require_path_for_name(text, "a\u{300}‿b").as_deref(), Some("m"));
    assert_eq!(find_require_path_for_name("local x² = require('m')", "x²"), None);
}
