use luat_lsp::diagnostics::{compute_problems, is_in_script_block, Problem, ProblemKind};

fn problem(kind: ProblemKind, start: usize, end: usize) -> Problem {
    Problem { kind, start, end }
}

#[test]
fn balanced_template_has_no_problems() {
    let text = "<script>\nlocal x = 1\n</script>\n{#if x}\n<p>{x}</p>\n{/if}\n{#each xs as x}{x}{/each}\n";
    assert_eq!(compute_problems(text), vec![]);
}

#[test]
fn brace_open_at_line_end() {
    let text = "<p>{name</p>\nok {a}\n";
    assert_eq!(compute_problems(text), vec![problem(ProblemKind::UnclosedBrace, 3, 12)]);
}

#[test]
fn nested_braces_report_outermost() {
    let text = "x {a {b}\n{c}\n";
    assert_eq!(compute_problems(text), vec![problem(ProblemKind::UnclosedBrace, 2, 8)]);
}

#[test]
fn braces_inside_scripts_are_not_reported() {
    let text = "<script>\nlocal t = {\n  a = 1,\n}\n</script>\n";
    assert_eq!(compute_problems(text), vec![]);
}

#[test]
fn comments_hide_braces() {
    let text = "{/* { */}\n{-- { --}\n";
    assert_eq!(compute_problems(text), vec![]);
}

#[test]
fn unclosed_if_points_at_first_opener() {
    let text = "ab{#if a}{#if b}{/if}";
    assert_eq!(compute_problems(text), vec![problem(ProblemKind::UnclosedIf, 2, 6)]);
}

#[test]
fn unclosed_each_points_at_first_opener() {
    let text = "{#each xs as x}";
    assert_eq!(compute_problems(text), vec![problem(ProblemKind::UnclosedEach, 0, 6)]);
}

#[test]
fn opener_must_end_a_word() {
    assert_eq!(compute_problems("{#iffy}{#eachx}"), vec![]);
}

#[test]
fn unclosed_script_tag() {
    let text = "é<script>\nlocal x = 1\n";
    assert_eq!(compute_problems(text), vec![problem(ProblemKind::UnclosedScript, 1, 8)]);
}

#[test]
fn problems_come_in_order_of_kind() {
    let text = "<script>{#if a}\n{b\n";
    assert_eq!(
        compute_problems(text),
        vec![
            problem(ProblemKind::UnclosedIf, 8, 12),
            problem(ProblemKind::UnclosedScript, 0, 7),
        ]
    );
    let text = "{b\n{#each x}";
    assert_eq!(
        compute_problems(text),
        vec![
            problem(ProblemKind::UnclosedBrace, 0, 2),
            problem(ProblemKind::UnclosedEach, 3, 9),
        ]
    );
}

#[test]
fn script_block_membership() {
    let text = "a<script>b</script>c<script>d";
    assert!(!is_in_script_block(text, 0));
    assert!(!is_in_script_block(text, 7));
    assert!(is_in_script_block(text, 8));
    assert!(is_in_script_block(text, 9));
    assert!(is_in_script_block(text, 18));
    assert!(!is_in_script_block(text, 19));
    assert!(is_in_script_block(text, 28));
}

#[test]
fn problem_messages() {
    assert_eq!(ProblemKind::UnclosedBrace.message(), "Unclosed brace");
    assert_eq!(ProblemKind::UnclosedIf.message(), "Unclosed {#if} block - missing {/if}");
    assert_eq!(ProblemKind::UnclosedEach.message(), "Unclosed {#each} block - missing {/each}");
    assert_eq!(ProblemKind::UnclosedScript.message(), "Unclosed <script> tag");
}

#[test]
fn opener_word_boundary_follows_the_word_class() {
    // '²' is numeric but not in the word class, so it ends the word.
    assert_eq!(compute_problems("{#if² a}"), vec![problem(ProblemKind::UnclosedIf, 0, 4)]);
    // A combining mark belongs to the word class, so the opener continues.
    assert_eq!(compute_problems("{#if\u{300} a}"), vec![]);
    // So does the connector '‿'.
    assert_eq!(compute_problems("{#each‿x}"), vec![]);
}
