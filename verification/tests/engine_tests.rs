use linelight::highlight::{Highlighter, Token};
use linelight::rules::{PatternGroup, SyntaxPatterns};

fn group(patterns: &[&str], color: &str) -> PatternGroup {
    PatternGroup {
        patterns: patterns.iter().map(|s| s.to_string()).collect(),
        color: color.to_string(),
    }
}

// Distinct colors per group so tests can tell which group claimed a byte.
const STRINGS: &str = "rgb(1, 1, 1)";
const COMMENTS: &str = "rgb(2, 2, 2)";
const NUMBERS: &str = "rgb(3, 3, 3)";
const KEYWORDS: &str = "rgb(4, 4, 4)";
const TYPES: &str = "rgb(5, 5, 5)";
const METHODS: &str = "rgb(6, 6, 6)";
const OPERATORS: &str = "rgb(7, 7, 7)";
const WHITE: &str = "#ffffff";

fn js_rules() -> SyntaxPatterns {
    SyntaxPatterns {
        keywords: group(&["let", "const", "function", "return"], "4, 4, 4"),
        types: group(&["String", "Number"], "5, 5, 5"),
        comments: group(&["//.*"], "2, 2, 2"),
        strings: group(&["\"[^\"]*\"", "'[^']*'"], "1, 1, 1"),
        numbers: group(&["\\b\\d+\\b"], "3, 3, 3"),
        operators: group(&["+", "="], "7, 7, 7"),
        methods: group(&["\\b[a-zA-Z_]+\\("], "6, 6, 6"),
    }
}

fn color_of(tokens: &[Token], pos: usize) -> &str {
    for t in tokens {
        if t.start <= pos && pos < t.end {
            return &t.color;
        }
    }
    panic!("no token covers offset {}", pos);
}

fn concat(tokens: &[Token]) -> String {
    let mut s = String::new();
    for t in tokens {
        s.push_str(&t.text);
    }
    s
}

#[test]
fn empty_line_yields_no_tokens() {
    let h = Highlighter::new(js_rules());
    assert!(h.highlight("", 0).is_empty());
}

#[test]
fn tokens_reconstruct_the_line() {
    let h = Highlighter::new(js_rules());
    let line = "let x = \"hi\" + 5; // done";
    let tokens = h.highlight(line, 0);
    assert_eq!(concat(&tokens), line);
}

#[test]
fn tokens_partition_without_gaps() {
    let h = Highlighter::new(js_rules());
    let line = "const n = 42;";
    let tokens = h.highlight(line, 10);
    assert_eq!(tokens[0].start, 10);
    for w in tokens.windows(2) {
        assert_eq!(w[0].end, w[1].start);
    }
    assert_eq!(tokens.last().unwrap().end, 10 + line.len());
}

#[test]
fn adjacent_tokens_never_share_a_color() {
    let h = Highlighter::new(js_rules());
    let tokens = h.highlight("let x = \"hi\" + 5; // done", 0);
    for w in tokens.windows(2) {
        assert_ne!(w[0].color, w[1].color);
    }
}

#[test]
fn keyword_and_number_take_their_group_colors() {
    let h = Highlighter::new(js_rules());
    let line = "let x = 5;";
    let tokens = h.highlight(line, 0);
    assert_eq!(color_of(&tokens, 0), KEYWORDS); // 'l' of let
    assert_eq!(color_of(&tokens, 8), NUMBERS); // '5'
    assert_eq!(color_of(&tokens, 4), WHITE); // 'x'
}

#[test]
fn strings_beat_comments_on_overlap() {
    let h = Highlighter::new(js_rules());
    // the comment pattern matches from the first "//" on, which lies
    // inside the string literal: strings must win there
    let line = "\"a // b\" // real";
    let tokens = h.highlight(line, 0);
    assert_eq!(color_of(&tokens, 3), STRINGS); // '/' inside the string
    assert_eq!(color_of(&tokens, 9), COMMENTS); // '/' of the real comment
}

#[test]
fn comments_beat_numbers_on_overlap() {
    let h = Highlighter::new(js_rules());
    let line = "// 5";
    let tokens = h.highlight(line, 0);
    assert_eq!(color_of(&tokens, 3), COMMENTS); // the digit inside the comment
}

#[test]
fn keywords_match_whole_words_only() {
    let h = Highlighter::new(js_rules());
    let tokens = h.highlight("letter", 0);
    assert_eq!(tokens.len(), 1);
    assert_eq!(tokens[0].color, WHITE);
}

#[test]
fn types_color_their_word() {
    let h = Highlighter::new(js_rules());
    let tokens = h.highlight("String y", 0);
    assert_eq!(color_of(&tokens, 0), TYPES);
    assert_eq!(color_of(&tokens, 7), WHITE);
}

#[test]
fn method_pattern_colors_call() {
    let h = Highlighter::new(js_rules());
    let tokens = h.highlight("foo(1)", 0);
    assert_eq!(color_of(&tokens, 0), METHODS); // 'f' of foo(
    assert_eq!(color_of(&tokens, 4), NUMBERS);
}

#[test]
fn operator_sources_match_literally_not_as_regex() {
    // "+" is no valid regular expression; as an operator source it is
    // escaped and must match the literal plus sign
    let h = Highlighter::new(js_rules());
    let tokens = h.highlight("a + b", 0);
    assert_eq!(color_of(&tokens, 2), OPERATORS);
    assert_eq!(color_of(&tokens, 0), WHITE);
}

#[test]
fn invalid_pattern_is_skipped_not_fatal() {
    // "[" does not compile; the second numbers pattern and the other
    // groups must still contribute their matches
    let mut rules = js_rules();
    rules.numbers = PatternGroup {
        patterns: vec!["[".to_string(), "\\b\\d+\\b".to_string()],
        color: "3, 3, 3".to_string(),
    };
    let h = Highlighter::new(rules);
    let line = "let x = 5;";
    let tokens = h.highlight(line, 0);
    assert_eq!(color_of(&tokens, 0), KEYWORDS);
    assert_eq!(color_of(&tokens, 8), NUMBERS);
}

#[test]
fn unparsable_group_color_falls_back_to_white_matches() {
    let mut rules = js_rules();
    rules.keywords.color = "no color".to_string();
    let h = Highlighter::new(rules);
    let tokens = h.highlight("let x", 0);
    // the keyword match is still applied, with the default color; the
    // run then coalesces with the uncolored rest of the line
    assert_eq!(tokens.len(), 1);
    assert_eq!(tokens[0].color, WHITE);
}

#[test]
fn line_offset_shifts_token_offsets() {
    let h = Highlighter::new(js_rules());
    let tokens = h.highlight("let", 100);
    assert_eq!(tokens.len(), 1);
    assert_eq!(tokens[0].start, 100);
    assert_eq!(tokens[0].end, 103);
    assert_eq!(tokens[0].color, KEYWORDS);
}
