//! The line driver: resolves a language identifier to a rule set, splits a
//! document into lines, drives the highlighter per line with accumulated
//! absolute offsets, and interleaves synthetic newline tokens.
//!
//! Reading rule files from disk and parsing their contents cannot happen
//! here; the caller hands in a [`PatternStore`] snapshot instead: the
//! candidate rule files that exist, each with its parsed rule set, or
//! `None` for one whose contents did not parse.

use vstd::prelude::*;
use vstd::string::{StrSliceExecFns, StringExecFns};
use crate::default_color;
use crate::highlight::{
    concat_texts, lemma_tokens_reconstruct_line, line_models, Highlighter, Token, TokenModel,
};
use crate::rules::SyntaxPatterns;
use crate::strutil::{push_char, str_eq};

verus! {

/// Why highlighting could not run at all.
#[derive(Debug, Clone, Copy, PartialEq, Eq, Structural)]
pub enum HighlightError {
    /// The language identifier maps to no rule file.
    UnsupportedLanguage,
    /// No candidate location holds the rule file.
    PatternFileNotFound,
    /// The rule file exists but its contents are malformed.
    PatternFileParseError,
}

/// One rule file found on disk: its path, and its parsed rule set
/// (`None` when the contents are malformed).
pub struct StoreEntry {
    pub path: String,
    pub rules: Option<SyntaxPatterns>,
}

/// A snapshot of the pattern store: the rule files that exist.
pub struct PatternStore {
    pub entries: Vec<StoreEntry>,
}

pub open spec fn to_lower_char(c: char) -> char {
    match c {
        'A' => 'a',
        'B' => 'b',
        'C' => 'c',
        'D' => 'd',
        'E' => 'e',
        'F' => 'f',
        'G' => 'g',
        'H' => 'h',
        'I' => 'i',
        'J' => 'j',
        'K' => 'k',
        'L' => 'l',
        'M' => 'm',
        'N' => 'n',
        'O' => 'o',
        'P' => 'p',
        'Q' => 'q',
        'R' => 'r',
        'S' => 's',
        'T' => 't',
        'U' => 'u',
        'V' => 'v',
        'W' => 'w',
        'X' => 'x',
        'Y' => 'y',
        'Z' => 'z',
        _ => c,
    }
}

/// `s` with every ASCII capital letter lowered.
pub open spec fn ascii_lower_spec(s: Seq<char>) -> Seq<char> {
    s.map_values(|c: char| to_lower_char(c))
}

fn lower_char(c: char) -> (r: char)
    ensures
        r == to_lower_char(c),
{
    match c {
        'A' => 'a',
        'B' => 'b',
        'C' => 'c',
        'D' => 'd',
        'E' => 'e',
        'F' => 'f',
        'G' => 'g',
        'H' => 'h',
        'I' => 'i',
        'J' => 'j',
        'K' => 'k',
        'L' => 'l',
        'M' => 'm',
        'N' => 'n',
        'O' => 'o',
        'P' => 'p',
        'Q' => 'q',
        'R' => 'r',
        'S' => 's',
        'T' => 't',
        'U' => 'u',
        'V' => 'v',
        'W' => 'w',
        'X' => 'x',
        'Y' => 'y',
        'Z' => 'z',
        _ => c,
    }
}

/// Lower every ASCII capital letter of `s`.
pub fn ascii_lowercase(s: &str) -> (r: String)
    ensures
        r@ == ascii_lower_spec(s@),
{
    let n = s.unicode_len();
    let mut r = String::new();
    let mut i: usize = 0;
    while i < n
        invariant
            i <= n,
            n == s@.len(),
            r@.len() == i,
            forall|j: int| 0 <= j < i ==> r@[j] == to_lower_char(s@[j]),
        decreases n - i,
    {
        push_char(&mut r, lower_char(s.get_char(i)));
        i += 1;
    }
    proof {
        assert(r@ =~= ascii_lower_spec(s@));
    }
    r
}

/// The rule file each (lower-case) language identifier resolves to.
/// Several identifiers of one language family share a file.
pub open spec fn lang_file_spec(lang: Seq<char>) -> Option<Seq<char>> {
    if lang == "js"@ || lang == "jsx"@ || lang == "mjs"@ || lang == "cjs"@ {
        Some("javascript.toml"@)
    } else if lang == "ts"@ || lang == "tsx"@ {
        Some("typescript.toml"@)
    } else if lang == "rs"@ {
        Some("rust.toml"@)
    } else if lang == "py"@ {
        Some("python.toml"@)
    } else if lang == "json"@ {
        Some("json.toml"@)
    } else if lang == "css"@ || lang == "scss"@ || lang == "sass"@ {
        Some("css.toml"@)
    } else if lang == "html"@ || lang == "htm"@ {
        Some("html.toml"@)
    } else if lang == "md"@ || lang == "mdx"@ {
        Some("markdown.toml"@)
    } else if lang == "yml"@ || lang == "yaml"@ {
        Some("yaml.toml"@)
    } else if lang == "xml"@ {
        Some("xml.toml"@)
    } else {
        None
    }
}

/// The rule file name for a language identifier, already lower-case;
/// `None` for an unsupported language.
pub fn get_language_file_name(language: &str) -> (r: Option<String>)
    ensures
        match r {
            Some(f) => lang_file_spec(language@) == Some(f@),
            None => lang_file_spec(language@) is None,
        },
{
    if str_eq(language, "js") || str_eq(language, "jsx") || str_eq(language, "mjs") || str_eq(
        language,
        "cjs",
    ) {
        Some("javascript.toml".to_owned())
    } else if str_eq(language, "ts") || str_eq(language, "tsx") {
        Some("typescript.toml".to_owned())
    } else if str_eq(language, "rs") {
        Some("rust.toml".to_owned())
    } else if str_eq(language, "py") {
        Some("python.toml".to_owned())
    } else if str_eq(language, "json") {
        Some("json.toml".to_owned())
    } else if str_eq(language, "css") || str_eq(language, "scss") || str_eq(language, "sass") {
        Some("css.toml".to_owned())
    } else if str_eq(language, "html") || str_eq(language, "htm") {
        Some("html.toml".to_owned())
    } else if str_eq(language, "md") || str_eq(language, "mdx") {
        Some("markdown.toml".to_owned())
    } else if str_eq(language, "yml") || str_eq(language, "yaml") {
        Some("yaml.toml".to_owned())
    } else if str_eq(language, "xml") {
        Some("xml.toml".to_owned())
    } else {
        None
    }
}

/// The storage locations tried for a rule file, in order.
pub open spec fn candidate_paths(file: Seq<char>) -> Seq<Seq<char>> {
    seq![
        "src-tauri/resources/syntax/"@ + file,
        "resources/syntax/"@ + file,
        "./resources/syntax/"@ + file,
    ]
}

/// The candidate storage locations for a rule file, in the order they
/// are tried.
pub fn candidate_files(lang_file: &str) -> (v: Vec<String>)
    ensures
        v@.len() == 3,
        forall|i: int| 0 <= i < 3 ==> (#[trigger] v@[i])@ == candidate_paths(lang_file@)[i],
{
    let mut c0 = "src-tauri/resources/syntax/".to_owned();
    c0.append(lang_file);
    let mut c1 = "resources/syntax/".to_owned();
    c1.append(lang_file);
    let mut c2 = "./resources/syntax/".to_owned();
    c2.append(lang_file);
    let mut v: Vec<String> = Vec::new();
    v.push(c0);
    v.push(c1);
    v.push(c2);
    v
}

/// The index of the first store entry whose path is `path`, or the number
/// of entries if there is none.
pub open spec fn store_index_of(entries: Seq<StoreEntry>, path: Seq<char>) -> int
    decreases entries.len(),
{
    if entries.len() == 0 {
        0
    } else if entries[0].path@ == path {
        0
    } else {
        1 + store_index_of(entries.drop_first(), path)
    }
}

/// Whether some store entry has path `path`.
pub open spec fn store_contains(entries: Seq<StoreEntry>, path: Seq<char>) -> bool {
    exists|j: int| 0 <= j < entries.len() && (#[trigger] entries[j]).path@ == path
}

/// The entry a path resolves to: the first with that path.
pub open spec fn store_entry_for(entries: Seq<StoreEntry>, path: Seq<char>) -> StoreEntry {
    entries[store_index_of(entries, path)]
}

pub proof fn lemma_store_index_of(entries: Seq<StoreEntry>, path: Seq<char>)
    ensures
        0 <= store_index_of(entries, path) <= entries.len(),
        store_index_of(entries, path) < entries.len() ==> entries[store_index_of(entries, path)].path@
            == path,
        forall|j: int| 0 <= j < store_index_of(entries, path) ==> (#[trigger] entries[j]).path@ != path,
        (store_index_of(entries, path) < entries.len()) == store_contains(entries, path),
    decreases entries.len(),
{
    if entries.len() > 0 && entries[0].path@ != path {
        lemma_store_index_of(entries.drop_first(), path);
        assert(forall|j: int|
            1 <= j < entries.len() ==> (#[trigger] entries[j]) == entries.drop_first()[j - 1]);
        if store_contains(entries, path) {
            let w = choose|j: int|
                0 <= j < entries.len() && (#[trigger] entries[j]).path@ == path;
            assert(entries.drop_first()[w - 1].path@ == path);
            assert(store_contains(entries.drop_first(), path));
        }
    }
}

/// The first entry index whose path equals `path`, if any.
fn store_lookup_index(store: &PatternStore, path: &str) -> (r: Option<usize>)
    ensures
        match r {
            Some(i) => i < store.entries@.len() && i as int == store_index_of(
                store.entries@,
                path@,
            ),
            None => !store_contains(store.entries@, path@),
        },
{
    proof {
        lemma_store_index_of(store.entries@, path@);
    }
    let m = store.entries.len();
    let mut i: usize = 0;
    while i < m
        invariant
            i <= m,
            m == store.entries@.len(),
            forall|j: int| 0 <= j < i ==> (#[trigger] store.entries@[j]).path@ != path@,
        decreases m - i,
    {
        if str_eq(store.entries[i].path.as_str(), path) {
            proof {
                lemma_store_index_of(store.entries@, path@);
                assert(store_contains(store.entries@, path@));
                if store_index_of(store.entries@, path@) < i {
                    assert(store.entries@[store_index_of(store.entries@, path@)].path@ == path@);
                }
                if store_index_of(store.entries@, path@) > i {
                    assert(store.entries@[i as int].path@ != path@);
                }
            }
            return Some(i);
        }
        i += 1;
    }
    None
}

/// The location the rule file loads from: the first candidate the store
/// holds.
pub open spec fn found_path_spec(entries: Seq<StoreEntry>, file: Seq<char>) -> Option<Seq<char>> {
    let cands = candidate_paths(file);
    if store_contains(entries, cands[0]) {
        Some(cands[0])
    } else if store_contains(entries, cands[1]) {
        Some(cands[1])
    } else if store_contains(entries, cands[2]) {
        Some(cands[2])
    } else {
        None
    }
}

/// Find the rule file among the candidate storage locations the store
/// snapshot holds; the first hit wins.
pub fn find_syntax_file(lang_file: &str, store: &PatternStore) -> (r: Option<String>)
    ensures
        match r {
            Some(p) => found_path_spec(store.entries@, lang_file@) == Some(p@),
            None => found_path_spec(store.entries@, lang_file@) is None,
        },
{
    let mut cands = candidate_files(lang_file);
    let mut k: usize = 0;
    while k < 3
        invariant
            k <= 3,
            cands@.len() == 3,
            forall|i: int| 0 <= i < 3 ==> (#[trigger] cands@[i])@ == candidate_paths(lang_file@)[i],
            forall|i: int| 0 <= i < k ==> !store_contains(store.entries@, candidate_paths(lang_file@)[i]),
        decreases 3 - k,
    {
        if store_lookup_index(store, cands[k].as_str()).is_some() {
            proof {
                lemma_store_index_of(store.entries@, candidate_paths(lang_file@)[k as int]);
            }
            let p = cands.remove(k);
            return Some(p);
        }
        k += 1;
    }
    None
}

/// The index of the first line feed in `s`, or `s.len()` if there is none.
pub open spec fn first_newline(s: Seq<char>) -> int
    decreases s.len(),
{
    if s.len() == 0 {
        0
    } else if s[0] == '\n' {
        0
    } else {
        1 + first_newline(s.drop_first())
    }
}

pub proof fn lemma_first_newline(s: Seq<char>)
    ensures
        0 <= first_newline(s) <= s.len(),
        forall|j: int| 0 <= j < first_newline(s) ==> s[j] != '\n',
        first_newline(s) < s.len() ==> s[first_newline(s)] == '\n',
    decreases s.len(),
{
    if s.len() > 0 && s[0] != '\n' {
        lemma_first_newline(s.drop_first());
        assert forall|j: int| 0 <= j < first_newline(s) implies s[j] != '\n' by {
            if j > 0 {
                assert(s.drop_first()[j - 1] == s[j]);
                assert(s.drop_first()[j - 1] != '\n');
            }
        }
    }
}

/// A position known to follow no line feed, and to hold one or end the
/// text, is the first line feed position.
pub proof fn lemma_first_newline_determined(s: Seq<char>, k: int)
    requires
        0 <= k <= s.len(),
        forall|j: int| 0 <= j < k ==> s[j] != '\n',
        k < s.len() ==> s[k] == '\n',
    ensures
        first_newline(s) == k,
    decreases s.len(),
{
    if s.len() > 0 && k > 0 {
        lemma_first_newline_determined(s.drop_first(), k - 1);
    }
}

/// The synthetic token standing for the line feed at offset `off`.
pub open spec fn newline_model(off: int) -> TokenModel {
    TokenModel { text: seq!['\n'], color: default_color(), start: off, end: off + 1 }
}

/// The token sequence of a whole document from offset `off` on: each
/// line's tokens in order, with a synthetic newline token between
/// consecutive lines.
pub open spec fn doc_models(rules: SyntaxPatterns, code: Seq<char>, off: int) -> Seq<TokenModel>
    decreases code.len(),
    via doc_models_dec
{
    let k = first_newline(code);
    if k >= code.len() {
        line_models(rules, code, off)
    } else {
        line_models(rules, code.take(k), off) + seq![newline_model(off + k)] + doc_models(
            rules,
            code.skip(k + 1),
            off + k + 1,
        )
    }
}

#[via_fn]
proof fn doc_models_dec(rules: SyntaxPatterns, code: Seq<char>, off: int) {
    lemma_first_newline(code);
}

/// The language identifier's rule file, identifiers read
/// case-insensitively.
pub open spec fn resolved_file(language: Seq<char>) -> Option<Seq<char>> {
    lang_file_spec(ascii_lower_spec(language))
}

/// The error `highlight_code` reports for this language and store
/// snapshot, or `None` when highlighting runs.
pub open spec fn highlight_outcome_err(entries: Seq<StoreEntry>, language: Seq<char>) -> Option<
    HighlightError,
> {
    match resolved_file(language) {
        Option::None => Some(HighlightError::UnsupportedLanguage),
        Option::Some(file) => match found_path_spec(entries, file) {
            Option::None => Some(HighlightError::PatternFileNotFound),
            Option::Some(path) => {
                if store_entry_for(entries, path).rules is None {
                    Some(HighlightError::PatternFileParseError)
                } else {
                    None
                }
            },
        },
    }
}

/// The rule set `highlight_code` applies, meaningful when it reports no
/// error.
pub open spec fn highlight_rules(entries: Seq<StoreEntry>, language: Seq<char>) -> SyntaxPatterns {
    store_entry_for(entries, found_path_spec(entries, resolved_file(language)->Some_0)->Some_0)
        .rules->Some_0
}

proof fn lemma_concat_texts_add(a: Seq<TokenModel>, b: Seq<TokenModel>)
    ensures
        concat_texts(a + b) == concat_texts(a) + concat_texts(b),
    decreases a.len(),
{
    if a.len() == 0 {
        assert(a + b =~= b);
        assert(concat_texts(a) + concat_texts(b) =~= concat_texts(b));
    } else {
        lemma_concat_texts_add(a.drop_first(), b);
        assert((a + b).drop_first() =~= a.drop_first() + b);
        assert(concat_texts(a) + concat_texts(b) =~= a[0].text + (concat_texts(a.drop_first())
            + concat_texts(b)));
    }
}

/// Concatenating the whole document's token texts in order, newline
/// tokens included, reproduces the document exactly.
pub proof fn lemma_tokens_reconstruct_document(rules: SyntaxPatterns, code: Seq<char>, off: int)
    ensures
        concat_texts(doc_models(rules, code, off)) == code,
    decreases code.len(),
{
    lemma_first_newline(code);
    let k = first_newline(code);
    if k >= code.len() {
        lemma_tokens_reconstruct_line(rules, code, off);
    } else {
        lemma_tokens_reconstruct_line(rules, code.take(k), off);
        lemma_tokens_reconstruct_document(rules, code.skip(k + 1), off + k + 1);
        let front = line_models(rules, code.take(k), off);
        let mid = seq![newline_model(off + k)];
        let back = doc_models(rules, code.skip(k + 1), off + k + 1);
        lemma_concat_texts_add(front + mid, back);
        lemma_concat_texts_add(front, mid);
        assert(mid.drop_first() =~= Seq::<TokenModel>::empty());
        assert(concat_texts(mid.drop_first()) =~= Seq::<char>::empty());
        assert(concat_texts(mid) =~= seq!['\n']);
        assert(code.take(k) + seq!['\n'] + code.skip(k + 1) =~= code);
    }
}

/// The document token sequence is a function of the code and the rule set
/// alone, so two highlighting runs over the same input and an unchanged
/// store agree token for token: same text, color and offsets throughout.
pub proof fn lemma_highlight_deterministic(
    t1: Seq<Token>,
    t2: Seq<Token>,
    rules: SyntaxPatterns,
    code: Seq<char>,
)
    requires
        t1.map_values(|t: Token| t.model()) == doc_models(rules, code, 0),
        t2.map_values(|t: Token| t.model()) == doc_models(rules, code, 0),
    ensures
        t1.len() == t2.len(),
        forall|k: int| 0 <= k < t1.len() ==> #[trigger] t1[k].model() == t2[k].model(),
{
    assert(t1.map_values(|t: Token| t.model()).len() == t1.len());
    assert(t2.map_values(|t: Token| t.model()).len() == t2.len());
    assert forall|k: int| 0 <= k < t1.len() implies #[trigger] t1[k].model() == t2[k].model() by {
        assert(t1.map_values(|t: Token| t.model())[k] == t1[k].model());
        assert(t2.map_values(|t: Token| t.model())[k] == t2[k].model());
    }
}

/// Highlight a whole document.
///
/// The language identifier is read case-insensitively and resolved to a
/// rule file; the store snapshot supplies that file's parsed rule set.
/// On success the returned tokens cover the document exactly: each line's
/// maximal same-color runs in order, a default-colored newline token
/// between consecutive lines.
pub fn highlight_code(code: &str, language: &str, store: PatternStore) -> (r: Result<
    Vec<Token>,
    HighlightError,
>)
    ensures
        match r {
            Ok(tokens) => highlight_outcome_err(store.entries@, language@) is None && tokens@
                .map_values(|t: Token| t.model()) == doc_models(
                highlight_rules(store.entries@, language@),
                code@,
                0,
            ),
            Err(e) => highlight_outcome_err(store.entries@, language@) == Some(e),
        },
{
    let lower = ascii_lowercase(language);
    let lang_file = match get_language_file_name(lower.as_str()) {
        Some(f) => f,
        None => {
            return Err(HighlightError::UnsupportedLanguage);
        },
    };
    let path = match find_syntax_file(lang_file.as_str(), &store) {
        Some(p) => p,
        None => {
            return Err(HighlightError::PatternFileNotFound);
        },
    };
    let idx = match store_lookup_index(&store, path.as_str()) {
        Some(i) => i,
        None => {
            proof {
                lemma_store_index_of(store.entries@, path@);
                assert(false);
            }
            return Err(HighlightError::PatternFileNotFound);
        },
    };
    let mut entries = store.entries;
    let entry = entries.remove(idx);
    let rules = match entry.rules {
        Some(ru) => ru,
        None => {
            return Err(HighlightError::PatternFileParseError);
        },
    };
    let h = Highlighter::new(rules);
    let ghost grules = h.rules();
    let n = code.unicode_len();
    let mut out: Vec<Token> = Vec::new();
    let mut pos: usize = 0;
    let mut finished = false;
    proof {
        assert(code@.skip(0) =~= code@);
        assert(out@.map_values(|t: Token| t.model()) + doc_models(grules, code@, 0) =~= doc_models(
            grules,
            code@,
            0,
        ));
    }
    while !finished
        invariant
            pos <= n,
            n == code@.len(),
            grules == h.rules(),
            grules == highlight_rules(store.entries@, language@),
            highlight_outcome_err(store.entries@, language@) is None,
            finished ==> out@.map_values(|t: Token| t.model()) == doc_models(grules, code@, 0),
            !finished ==> out@.map_values(|t: Token| t.model()) + doc_models(
                grules,
                code@.skip(pos as int),
                pos as int,
            ) == doc_models(grules, code@, 0),
        decreases n - pos + (if finished { 0int } else { 1int }),
    {
        let mut j = pos;
        while j < n && code.get_char(j) != '\n'
            invariant
                pos <= j <= n,
                n == code@.len(),
                forall|y: int| pos <= y < j ==> code@[y] != '\n',
            decreases n - j,
        {
            j += 1;
        }
        let line = code.substring_char(pos, j);
        let ghost rest = code@.skip(pos as int);
        proof {
            lemma_first_newline_determined(rest, j - pos);
            assert(forall|y: int| 0 <= y < line@.len() ==> line@[y] == code@[pos + y]);
        }
        let mut toks = h.highlight(line, pos);
        proof {
            assert((out@ + toks@).map_values(|t: Token| t.model()) =~= out@.map_values(
                |t: Token| t.model(),
            ) + toks@.map_values(|t: Token| t.model()));
        }
        out.append(&mut toks);
        if j < n {
            let nl = Token {
                text: "\n".to_owned(),
                color: "#ffffff".to_owned(),
                start: j,
                end: j + 1,
            };
            proof {
                reveal_strlit("\n");
                assert(nl.model().text =~= newline_model(j as int).text);
                assert(nl.model() == newline_model(j as int));
                assert((out@ + seq![nl]).map_values(|t: Token| t.model()) =~= out@.map_values(
                    |t: Token| t.model(),
                ) + seq![nl.model()]);
                assert(rest.take(j - pos) =~= line@);
                assert(rest.skip(j - pos + 1) =~= code@.skip(j + 1));
                assert(doc_models(grules, rest, pos as int) == line_models(grules, line@, pos as int)
                    + seq![newline_model(j as int)] + doc_models(
                    grules,
                    code@.skip(j + 1),
                    j + 1,
                ));
            }
            out.push(nl);
            pos = j + 1;
        } else {
            proof {
                assert(rest =~= line@);
                assert(doc_models(grules, rest, pos as int) == line_models(grules, line@, pos as int));
            }
            finished = true;
        }
    }
    Ok(out)
}

} // verus!
