use typst_spell_check::attribute::attribute;
use typst_spell_check::checker::spell_check;
use typst_spell_check::dictionary::{find_unknown, Dictionary};
use typst_spell_check::parens::strip_parenthesized;
use typst_spell_check::pipeline::{join_lines, normalize, strip_trailing_punctuation_fragments, tokenize};
use typst_spell_check::render::{highlight_spans, report_lines};
use typst_spell_check::transform::{collapse_whitespace, strip_commands, strip_equations, strip_punctuation_fragments};

fn strings(v: &[&str]) -> Vec<String> {
    v.iter().map(|s| s.to_string()).collect()
}

fn dict(words: &[&str]) -> Dictionary {
    Dictionary::new(&strings(words))
}

#[test]
fn parens_reach_fixed_point() {
    let once = strip_parenthesized("a ((b) c) d (e");
    assert_eq!(once, "a  d (e");
    assert_eq!(strip_parenthesized(&once), once);
}

#[test]
fn parens_flat_groups_removed_exactly() {
    assert_eq!(strip_parenthesized("x (a) y (b c) z"), "x  y  z");
    assert_eq!(strip_parenthesized("no groups here"), "no groups here");
}

#[test]
fn collapse_leaves_single_spaces() {
    let out = collapse_whitespace("a \t\n b  c\u{00A0}\u{3000}d");
    assert_eq!(out, "a b c d");
    let chars: Vec<char> = out.chars().collect();
    for w in chars.windows(2) {
        assert!(!(w[0].is_whitespace() && w[1].is_whitespace()));
    }
}

#[test]
fn is_known_is_case_insensitive() {
    let d = dict(&["CAT", "dog"]);
    assert!(d.check(&"cat".to_string()));
    assert!(d.check(&"Dog".to_string()));
    assert!(d.check(&"GUD".to_string()) == false);
    let lower = dict(&["gud"]);
    assert!(lower.check(&"GUD".to_string()));
}

#[test]
fn find_unknown_keeps_order_and_repeats() {
    let d = dict(&["cat"]);
    let out = find_unknown(&strings(&["teh", "cat", "teh"]), &d);
    assert_eq!(out, strings(&["teh", "teh"]));
}

#[test]
fn attribution_lists_every_line_with_token() {
    let lines = strings(&["hello gud", "nothing", "gudness is gud"]);
    let rows = attribute(&lines, &strings(&["gud", "gud", "hel"]));
    assert_eq!(rows, vec![strings(&["gud", "hel"]), vec![], strings(&["gud"])]);
}

#[test]
fn scenario_equation_and_punctuation() {
    let lines = strings(&["The $x+y$ result is gud."]);
    let d = dict(&["the", "result", "is"]);
    assert_eq!(normalize(&lines), "the result is gud");
    assert_eq!(tokenize(&normalize(&lines)), strings(&["the", "result", "is", "gud"]));
    let found = spell_check(&lines, &d);
    assert_eq!(found.word_count, 4);
    assert_eq!(found.unknown, strings(&["gud"]));
    let rows = attribute(&lines, &found.unknown);
    assert_eq!(
        report_lines(found.word_count, &rows),
        strings(&["Checked 4 words.", "Line 0: gud"])
    );
}

#[test]
fn scenario_parenthetical_aside() {
    let lines = strings(&["(ignore this) Keep this."]);
    assert_eq!(strip_parenthesized(&lines[0]), " Keep this.");
    assert_eq!(tokenize(&normalize(&lines)), strings(&["keep", "this"]));
}

#[test]
fn scenario_empty_document() {
    let lines: Vec<String> = Vec::new();
    let found = spell_check(&lines, &dict(&["a"]));
    assert_eq!(found.word_count, 0);
    let rows = attribute(&lines, &found.unknown);
    assert_eq!(
        report_lines(found.word_count, &rows),
        strings(&["Checked 0 words.", "All clear! Manually check text in functions and equations."])
    );
}

#[test]
fn scenario_command_removed() {
    let lines = strings(&["see #cite(foo) here"]);
    let found = spell_check(&lines, &dict(&[]));
    assert_eq!(found.unknown, strings(&["see", "here"]));
    assert_eq!(strip_commands("a #cite b @ref c"), "a  b  c");
    assert_eq!(strip_commands("a # b"), "a # b");
}

#[test]
fn equations_are_shortest_spans() {
    assert_eq!(strip_equations("a $x$ b $y$ c"), "a  b  c");
    assert_eq!(strip_equations("a $x\ny$ b"), "a $x\ny$ b");
    assert_eq!(strip_equations("cost $5"), "cost $5");
}

#[test]
fn punctuation_fragments_and_lowercase() {
    assert_eq!(strip_punctuation_fragments("Hello, World.x y"), "Hello World y");
    assert_eq!(strip_trailing_punctuation_fragments("Hello, World.x y"), "hello world y");
    assert_eq!(strip_punctuation_fragments("it's a-b [1] \"q\""), "it a  ");
}

#[test]
fn tokenize_drops_empty_pieces() {
    assert_eq!(tokenize(" a  b "), strings(&["a", "b"]));
    assert_eq!(tokenize(""), Vec::<String>::new());
}

#[test]
fn join_uses_single_spaces() {
    assert_eq!(join_lines(&strings(&["a", "b", "c"])), "a b c");
    assert_eq!(join_lines(&strings(&["only"])), "only");
}

#[test]
fn highlight_spans_leftmost_first() {
    assert_eq!(highlight_spans("a gud gud", &strings(&["gud"])), vec![(2, 5), (6, 9)]);
    assert_eq!(highlight_spans("abc", &strings(&["a", "ab"])), vec![(0, 1)]);
    assert_eq!(highlight_spans("abc", &strings(&["ab", "a"])), vec![(0, 2)]);
    assert_eq!(highlight_spans("a.c abc", &strings(&["a.c"])), vec![(0, 3)]);
    assert_eq!(highlight_spans("abc", &Vec::new()), Vec::<(usize, usize)>::new());
}

#[test]
fn report_lists_only_lines_with_tokens() {
    let rows = vec![strings(&["a", "b"]), vec![], strings(&["c"])];
    assert_eq!(
        report_lines(1234, &rows),
        strings(&["Checked 1234 words.", "Line 0: a, b", "Line 2: c"])
    );
    assert_eq!(
        report_lines(7, &vec![vec![], vec![]]),
        strings(&["Checked 7 words.", "All clear! Manually check text in functions and equations."])
    );
}
