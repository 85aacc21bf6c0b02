use linelight::driver::{
    candidate_files, find_syntax_file, get_language_file_name, highlight_code, HighlightError,
    PatternStore, StoreEntry,
};
use linelight::rules::{PatternGroup, SyntaxPatterns};

fn group(patterns: &[&str], color: &str) -> PatternGroup {
    PatternGroup {
        patterns: patterns.iter().map(|s| s.to_string()).collect(),
        color: color.to_string(),
    }
}

fn js_rules() -> SyntaxPatterns {
    SyntaxPatterns {
        keywords: group(&["let", "const", "function", "return"], "4, 4, 4"),
        types: group(&["String", "Number"], "5, 5, 5"),
        comments: group(&["//.*"], "2, 2, 2"),
        strings: group(&["\"[^\"]*\"", "'[^']*'"], "1, 1, 1"),
        numbers: group(&["\\b\\d+\\b"], "3, 3, 3"),
        operators: group(&["+", "="], "7, 7, 7"),
        methods: group(&["\\b[a-zA-Z_]+\\("], "6, 6, 6"),
    }
}

fn js_store() -> PatternStore {
    PatternStore {
        entries: vec![StoreEntry {
            path: "resources/syntax/javascript.toml".to_string(),
            rules: Some(js_rules()),
        }],
    }
}

#[test]
fn language_map_resolves_families() {
    for lang in ["js", "jsx", "mjs", "cjs"] {
        assert_eq!(get_language_file_name(lang).as_deref(), Some("javascript.toml"));
    }
    for lang in ["ts", "tsx"] {
        assert_eq!(get_language_file_name(lang).as_deref(), Some("typescript.toml"));
    }
    assert_eq!(get_language_file_name("rs").as_deref(), Some("rust.toml"));
    assert_eq!(get_language_file_name("py").as_deref(), Some("python.toml"));
    assert_eq!(get_language_file_name("json").as_deref(), Some("json.toml"));
    for lang in ["css", "scss", "sass"] {
        assert_eq!(get_language_file_name(lang).as_deref(), Some("css.toml"));
    }
    for lang in ["html", "htm"] {
        assert_eq!(get_language_file_name(lang).as_deref(), Some("html.toml"));
    }
    for lang in ["md", "mdx"] {
        assert_eq!(get_language_file_name(lang).as_deref(), Some("markdown.toml"));
    }
    for lang in ["yml", "yaml"] {
        assert_eq!(get_language_file_name(lang).as_deref(), Some("yaml.toml"));
    }
    assert_eq!(get_language_file_name("xml").as_deref(), Some("xml.toml"));
    assert_eq!(get_language_file_name("xyz"), None);
    // the map itself is exact-match; case folding happens in highlight_code
    assert_eq!(get_language_file_name("JS"), None);
}

#[test]
fn candidate_locations_come_in_order() {
    let v = candidate_files("rust.toml");
    assert_eq!(
        v,
        vec![
            "src-tauri/resources/syntax/rust.toml".to_string(),
            "resources/syntax/rust.toml".to_string(),
            "./resources/syntax/rust.toml".to_string(),
        ]
    );
}

#[test]
fn find_syntax_file_takes_first_existing_candidate() {
    let store = PatternStore {
        entries: vec![
            StoreEntry {
                path: "./resources/syntax/javascript.toml".to_string(),
                rules: Some(js_rules()),
            },
            StoreEntry {
                path: "src-tauri/resources/syntax/javascript.toml".to_string(),
                rules: Some(js_rules()),
            },
        ],
    };
    assert_eq!(
        find_syntax_file("javascript.toml", &store).as_deref(),
        Some("src-tauri/resources/syntax/javascript.toml")
    );
    assert_eq!(find_syntax_file("rust.toml", &store), None);
}

#[test]
fn empty_code_yields_empty_token_sequence() {
    let tokens = highlight_code("", "js", js_store()).unwrap();
    assert!(tokens.is_empty());
}

#[test]
fn unknown_language_is_unsupported() {
    let r = highlight_code("anything", "xyz", PatternStore { entries: vec![] });
    assert_eq!(r.unwrap_err(), HighlightError::UnsupportedLanguage);
}

#[test]
fn missing_rule_file_is_reported() {
    let r = highlight_code("x", "js", PatternStore { entries: vec![] });
    assert_eq!(r.unwrap_err(), HighlightError::PatternFileNotFound);
}

#[test]
fn malformed_rule_file_is_reported() {
    let store = PatternStore {
        entries: vec![StoreEntry {
            path: "resources/syntax/javascript.toml".to_string(),
            rules: None,
        }],
    };
    let r = highlight_code("x", "js", store);
    assert_eq!(r.unwrap_err(), HighlightError::PatternFileParseError);
}

#[test]
fn language_identifier_is_case_insensitive() {
    let tokens = highlight_code("let", "JS", js_store()).unwrap();
    assert_eq!(tokens.len(), 1);
    assert_eq!(tokens[0].color, "rgb(4, 4, 4)");
}

#[test]
fn js_line_colors_comment_keyword_number_and_newline() {
    let code = "let x = 5; // five\n";
    let tokens = highlight_code(code, "js", js_store()).unwrap();
    // concatenation reproduces the document exactly
    let mut whole = String::new();
    for t in &tokens {
        whole.push_str(&t.text);
    }
    assert_eq!(whole, code);
    // "// five" carries the comments color
    let comment = tokens.iter().find(|t| t.text == "// five").unwrap();
    assert_eq!(comment.color, "rgb(2, 2, 2)");
    assert_eq!(comment.start, 11);
    assert_eq!(comment.end, 18);
    // "let" carries the keywords color
    let kw = tokens.iter().find(|t| t.text == "let").unwrap();
    assert_eq!(kw.color, "rgb(4, 4, 4)");
    // the numeric literal carries the numbers color
    let num = tokens.iter().find(|t| t.text == "5").unwrap();
    assert_eq!(num.color, "rgb(3, 3, 3)");
    // the trailing line feed is its own default-colored token
    let last = tokens.last().unwrap();
    assert_eq!(last.text, "\n");
    assert_eq!(last.color, "#ffffff");
    assert_eq!(last.start, 18);
    assert_eq!(last.end, 19);
}

#[test]
fn newline_tokens_sit_between_lines_with_running_offsets() {
    let tokens = highlight_code("a\nb", "js", js_store()).unwrap();
    assert_eq!(tokens.len(), 3);
    assert_eq!((tokens[0].text.as_str(), tokens[0].start, tokens[0].end), ("a", 0, 1));
    assert_eq!((tokens[1].text.as_str(), tokens[1].start, tokens[1].end), ("\n", 1, 2));
    assert_eq!(tokens[1].color, "#ffffff");
    assert_eq!((tokens[2].text.as_str(), tokens[2].start, tokens[2].end), ("b", 2, 3));
}

#[test]
fn identical_calls_give_identical_tokens() {
    let code = "let x = \"s\" + 2; // c\nreturn x;";
    let first = highlight_code(code, "js", js_store()).unwrap();
    let second = highlight_code(code, "js", js_store()).unwrap();
    assert_eq!(first, second);
}
