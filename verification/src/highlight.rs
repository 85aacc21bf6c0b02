//! The highlighter: priority compositing of pattern matches into a
//! per-character color assignment, and coalescing of maximal same-color
//! runs into tokens.

use vstd::prelude::*;
use vstd::string::StrSliceExecFns;
use crate::color::parse_color;
use crate::color::parse_color_spec;
use crate::default_color;
use crate::rematch::{build_word_pattern, escape_pattern, find_match_ranges, regex_valid, regex_match_ranges};
use crate::rules::{
    color_at, effective_pattern, group_count, group_covers, lemma_first_cover_from_least,
    lemma_first_cover_from_none, mode_of_group, pattern_covers, PatternGroup, SyntaxPatterns,
};
use crate::strutil::str_eq;

verus! {

/// A contiguous single-color run of source text, with absolute character
/// offsets (`start` inclusive, `end` exclusive).
#[derive(Debug, Clone, PartialEq)]
pub struct Token {
    pub text: String,
    pub color: String,
    pub start: usize,
    pub end: usize,
}

/// The mathematical content of a [`Token`].
pub ghost struct TokenModel {
    pub text: Seq<char>,
    pub color: Seq<char>,
    pub start: int,
    pub end: int,
}

impl Token {
    pub open spec fn model(self) -> TokenModel {
        TokenModel {
            text: self.text@,
            color: self.color@,
            start: self.start as int,
            end: self.end as int,
        }
    }
}

/// The first position at or after `i` where the line's color differs from
/// the color at `s` (or the line's end): the exclusive end of the
/// same-color run around `s`.
pub open spec fn run_end(rules: SyntaxPatterns, line: Seq<char>, s: int, i: int) -> int
    decreases line.len() - i,
{
    if i < 0 || i >= line.len() {
        line.len() as int
    } else if color_at(rules, line, i) != color_at(rules, line, s) {
        i
    } else {
        run_end(rules, line, s, i + 1)
    }
}

pub proof fn lemma_run_end_bounds(rules: SyntaxPatterns, line: Seq<char>, s: int, i: int)
    requires
        0 <= i <= line.len(),
    ensures
        i <= run_end(rules, line, s, i) <= line.len(),
        i < line.len() && color_at(rules, line, i) == color_at(rules, line, s) ==> i < run_end(
            rules,
            line,
            s,
            i,
        ),
        forall|j: int|
            i <= j < run_end(rules, line, s, i) ==> color_at(rules, line, j) == color_at(
                rules,
                line,
                s,
            ),
        run_end(rules, line, s, i) < line.len() ==> color_at(rules, line, run_end(rules, line, s, i))
            != color_at(rules, line, s),
    decreases line.len() - i,
{
    if i < line.len() && color_at(rules, line, i) == color_at(rules, line, s) {
        lemma_run_end_bounds(rules, line, s, i + 1);
    }
}

/// A run known to be uniform up to `e` and to break (or end the line)
/// there ends exactly at `e`.
pub proof fn lemma_run_end_determined(rules: SyntaxPatterns, line: Seq<char>, s: int, i: int, e: int)
    requires
        0 <= i <= e <= line.len(),
        forall|j: int| i <= j < e ==> color_at(rules, line, j) == color_at(rules, line, s),
        e < line.len() ==> color_at(rules, line, e) != color_at(rules, line, s),
    ensures
        run_end(rules, line, s, i) == e,
    decreases e - i,
{
    if i < e {
        lemma_run_end_determined(rules, line, s, i + 1, e);
    }
}

/// The tokens of the line from position `i` on: maximal same-color runs,
/// one token each, with absolute offsets computed from `off`.
pub open spec fn line_models_from(
    rules: SyntaxPatterns,
    line: Seq<char>,
    off: int,
    i: int,
) -> Seq<TokenModel>
    decreases line.len() - i,
    via line_models_from_dec
{
    if i < 0 || i >= line.len() {
        Seq::empty()
    } else {
        let e = run_end(rules, line, i, i);
        seq![
            TokenModel {
                text: line.subrange(i, e),
                color: color_at(rules, line, i),
                start: off + i,
                end: off + e,
            },
        ] + line_models_from(rules, line, off, e)
    }
}

#[via_fn]
proof fn line_models_from_dec(rules: SyntaxPatterns, line: Seq<char>, off: int, i: int) {
    if 0 <= i && i < line.len() {
        lemma_run_end_bounds(rules, line, i, i);
    }
}

/// The token sequence of one whole line.
pub open spec fn line_models(rules: SyntaxPatterns, line: Seq<char>, off: int) -> Seq<TokenModel> {
    line_models_from(rules, line, off, 0)
}

proof fn lemma_concat_texts_from(rules: SyntaxPatterns, line: Seq<char>, off: int, i: int)
    requires
        0 <= i <= line.len(),
    ensures
        concat_texts(line_models_from(rules, line, off, i)) =~= line.subrange(
            i,
            line.len() as int,
        ),
    decreases line.len() - i,
{
    if i < line.len() {
        let e = run_end(rules, line, i, i);
        lemma_run_end_bounds(rules, line, i, i);
        lemma_concat_texts_from(rules, line, off, e);
        let first = TokenModel {
            text: line.subrange(i, e),
            color: color_at(rules, line, i),
            start: off + i,
            end: off + e,
        };
        assert((seq![first] + line_models_from(rules, line, off, e)).drop_first()
            =~= line_models_from(rules, line, off, e));
        assert(line.subrange(i, e) + line.subrange(e, line.len() as int) =~= line.subrange(
            i,
            line.len() as int,
        ));
    }
}

/// The text the tokens of a sequence spell out, in order.
pub open spec fn concat_texts(models: Seq<TokenModel>) -> Seq<char>
    decreases models.len(),
{
    if models.len() == 0 {
        Seq::empty()
    } else {
        models[0].text + concat_texts(models.drop_first())
    }
}

/// Concatenating a line's token texts in order reproduces the line
/// exactly.
pub proof fn lemma_tokens_reconstruct_line(rules: SyntaxPatterns, line: Seq<char>, off: int)
    ensures
        concat_texts(line_models(rules, line, off)) == line,
{
    lemma_concat_texts_from(rules, line, off, 0);
    assert(line.subrange(0, line.len() as int) =~= line);
}

proof fn lemma_partition_from(rules: SyntaxPatterns, line: Seq<char>, off: int, i: int)
    requires
        0 <= i <= line.len(),
    ensures
        i >= line.len() ==> line_models_from(rules, line, off, i).len() == 0,
        i < line.len() ==> line_models_from(rules, line, off, i).len() > 0,
        i < line.len() ==> line_models_from(rules, line, off, i)[0].start == off + i,
        i < line.len() ==> line_models_from(rules, line, off, i).last().end == off + line.len(),
        forall|k: int|
            0 <= k < line_models_from(rules, line, off, i).len() ==> (#[trigger] line_models_from(
                rules,
                line,
                off,
                i,
            )[k]).start < line_models_from(rules, line, off, i)[k].end,
        forall|k: int|
            0 <= k && k + 1 < line_models_from(rules, line, off, i).len() ==> (
            #[trigger] line_models_from(rules, line, off, i)[k]).end == line_models_from(
                rules,
                line,
                off,
                i,
            )[k + 1].start,
    decreases line.len() - i,
{
    if i < line.len() {
        let e = run_end(rules, line, i, i);
        lemma_run_end_bounds(rules, line, i, i);
        lemma_partition_from(rules, line, off, e);
        let first = TokenModel {
            text: line.subrange(i, e),
            color: color_at(rules, line, i),
            start: off + i,
            end: off + e,
        };
        let rest = line_models_from(rules, line, off, e);
        assert(line_models_from(rules, line, off, i) == seq![first] + rest);
        if e == line.len() {
            assert(rest.len() == 0);
            assert((seq![first] + rest).last() == first);
        }
    }
}

/// The tokens of a line fully cover its character range, in order, with
/// no gaps and no overlaps: the first starts at the line's offset, each
/// next token starts where the previous one ends, every token is
/// non-empty, and the last ends at the line's end.
pub proof fn lemma_tokens_partition_line(rules: SyntaxPatterns, line: Seq<char>, off: int)
    ensures
        line.len() == 0 ==> line_models(rules, line, off).len() == 0,
        line.len() > 0 ==> line_models(rules, line, off).len() > 0,
        line.len() > 0 ==> line_models(rules, line, off)[0].start == off,
        line.len() > 0 ==> line_models(rules, line, off).last().end == off + line.len(),
        forall|k: int|
            0 <= k < line_models(rules, line, off).len() ==> (#[trigger] line_models(
                rules,
                line,
                off,
            )[k]).start < line_models(rules, line, off)[k].end,
        forall|k: int|
            0 <= k && k + 1 < line_models(rules, line, off).len() ==> (#[trigger] line_models(
                rules,
                line,
                off,
            )[k]).end == line_models(rules, line, off)[k + 1].start,
{
    lemma_partition_from(rules, line, off, 0);
}

proof fn lemma_token_color_from(
    rules: SyntaxPatterns,
    line: Seq<char>,
    off: int,
    i: int,
    k: int,
    pos: int,
)
    requires
        0 <= i <= line.len(),
        0 <= k < line_models_from(rules, line, off, i).len(),
        line_models_from(rules, line, off, i)[k].start <= pos < line_models_from(
            rules,
            line,
            off,
            i,
        )[k].end,
    ensures
        color_at(rules, line, pos - off) == line_models_from(rules, line, off, i)[k].color,
    decreases line.len() - i,
{
    let e = run_end(rules, line, i, i);
    lemma_run_end_bounds(rules, line, i, i);
    let first = TokenModel {
        text: line.subrange(i, e),
        color: color_at(rules, line, i),
        start: off + i,
        end: off + e,
    };
    let rest = line_models_from(rules, line, off, e);
    assert(line_models_from(rules, line, off, i) == seq![first] + rest);
    if k > 0 {
        lemma_token_color_from(rules, line, off, e, k - 1, pos);
    }
}

/// A token carries exactly the color its characters display: at every
/// character position a token spans, the line's color assignment is the
/// token's color.
pub proof fn lemma_token_color_covers(
    rules: SyntaxPatterns,
    line: Seq<char>,
    off: int,
    k: int,
    pos: int,
)
    requires
        0 <= k < line_models(rules, line, off).len(),
        line_models(rules, line, off)[k].start <= pos < line_models(rules, line, off)[k].end,
    ensures
        color_at(rules, line, pos - off) == line_models(rules, line, off)[k].color,
{
    lemma_token_color_from(rules, line, off, 0, k, pos);
}

proof fn lemma_adjacent_from(rules: SyntaxPatterns, line: Seq<char>, off: int, i: int, k: int)
    requires
        0 <= i <= line.len(),
        0 <= k,
        k + 1 < line_models_from(rules, line, off, i).len(),
    ensures
        line_models_from(rules, line, off, i)[k].color != line_models_from(rules, line, off, i)[k
            + 1].color,
    decreases line.len() - i,
{
    let e = run_end(rules, line, i, i);
    lemma_run_end_bounds(rules, line, i, i);
    let first = TokenModel {
        text: line.subrange(i, e),
        color: color_at(rules, line, i),
        start: off + i,
        end: off + e,
    };
    let rest = line_models_from(rules, line, off, e);
    assert(line_models_from(rules, line, off, i) == seq![first] + rest);
    if k == 0 {
        assert(rest.len() > 0);
        assert(e < line.len());
        assert(rest[0].color == color_at(rules, line, e));
        assert(color_at(rules, line, e) != color_at(rules, line, i));
    } else {
        lemma_adjacent_from(rules, line, off, e, k - 1);
    }
}

/// No two adjacent tokens of one line share a color.
pub proof fn lemma_adjacent_tokens_differ(rules: SyntaxPatterns, line: Seq<char>, off: int, k: int)
    requires
        0 <= k,
        k + 1 < line_models(rules, line, off).len(),
    ensures
        line_models(rules, line, off)[k].color != line_models(rules, line, off)[k + 1].color,
{
    lemma_adjacent_from(rules, line, off, 0, k);
}

/// The color a buffer slot displays.
pub open spec fn slot_color(rules: SyntaxPatterns, slot: Option<u8>) -> Seq<char> {
    match slot {
        Some(v) => parse_color_spec(rules.spec_group(v as int).color@),
        None => default_color(),
    }
}

/// Every assigned buffer slot names the highest-priority group covering
/// that character.
pub open spec fn buf_sound(rules: SyntaxPatterns, line: Seq<char>, buf: Seq<Option<u8>>) -> bool {
    forall|x: int|
        0 <= x < buf.len() ==> match #[trigger] buf[x] {
            Some(v) => 0 <= v < group_count() && group_covers(rules, v as int, line, x) && (forall|
                g2: int,
            |
                0 <= g2 < v ==> !group_covers(rules, g2, line, x)),
            None => true,
        }
}

/// Every unassigned slot is covered by no group of rank below `g`.
pub open spec fn buf_complete_to(
    rules: SyntaxPatterns,
    line: Seq<char>,
    buf: Seq<Option<u8>>,
    g: int,
) -> bool {
    forall|x: int|
        0 <= x < buf.len() && (#[trigger] buf[x]) is None ==> forall|g2: int|
            0 <= g2 < g ==> !group_covers(rules, g2, line, x)
}

/// Every unassigned slot is covered by no pattern of group `g` with index
/// below `p`.
pub open spec fn group_complete_to(
    rules: SyntaxPatterns,
    line: Seq<char>,
    buf: Seq<Option<u8>>,
    g: int,
    p: int,
) -> bool {
    forall|x: int|
        0 <= x < buf.len() && (#[trigger] buf[x]) is None ==> forall|q: int|
            0 <= q < p ==> !pattern_covers(
                effective_pattern(mode_of_group(g), rules.spec_group(g).patterns@[q]@),
                line,
                x,
            )
}

/// Whether one of the first `k` match ranges covers position `x`.
pub open spec fn covered_by(ranges: Seq<(usize, usize)>, x: int, k: int) -> bool {
    exists|k2: int| 0 <= k2 < k && (#[trigger] ranges[k2]).0 <= x < ranges[k2].1
}

/// The highlighting engine for one rule set.
pub struct Highlighter {
    patterns: SyntaxPatterns,
}

impl Highlighter {
    /// The rule set this highlighter applies.
    pub closed spec fn rules(self) -> SyntaxPatterns {
        self.patterns
    }

    pub fn new(patterns: SyntaxPatterns) -> (h: Highlighter)
        ensures
            h.rules() == patterns,
    {
        Highlighter { patterns }
    }

    /// Apply one compiled pattern's match ranges to the buffer: the strings
    /// group (rank 0) overwrites, every other group claims only unassigned
    /// slots.
    fn apply_ranges(&self, buf: &mut Vec<Option<u8>>, ranges: &Vec<(usize, usize)>, g: usize, Ghost(line): Ghost<Seq<char>>, Ghost(pat): Ghost<Seq<char>>)
        requires
            g < group_count(),
            old(buf)@.len() == line.len(),
            buf_sound(self.rules(), line, old(buf)@),
            buf_complete_to(self.rules(), line, old(buf)@, g as int),
            regex_valid(pat),
            ranges@ == regex_match_ranges(pat, line),
            forall|k: int|
                0 <= k < ranges@.len() ==> (#[trigger] ranges@[k]).0 <= ranges@[k].1
                    && ranges@[k].1 <= line.len(),
            exists|p: int|
                0 <= p < self.rules().spec_group(g as int).patterns@.len() && pat
                    == effective_pattern(
                    mode_of_group(g as int),
                    (#[trigger] self.rules().spec_group(g as int).patterns@[p])@,
                ),
        ensures
            final(buf)@.len() == line.len(),
            buf_sound(self.rules(), line, final(buf)@),
            buf_complete_to(self.rules(), line, final(buf)@, g as int),
            forall|y: int|
                0 <= y < line.len() && covered_by(ranges@, y, ranges@.len() as int) ==> (
                #[trigger] final(buf)@[y]) is Some,
            forall|y: int|
                0 <= y < line.len() && (old(buf)@[y]) is Some ==> (#[trigger] final(buf)@[y]) is Some,
    {
        let ghost rules = self.rules();
        let mut k: usize = 0;
        while k < ranges.len()
            invariant
                k <= ranges@.len(),
                g < group_count(),
                buf@.len() == line.len(),
                buf_sound(rules, line, buf@),
                buf_complete_to(rules, line, buf@, g as int),
                regex_valid(pat),
                ranges@ == regex_match_ranges(pat, line),
                forall|k2: int|
                    0 <= k2 < ranges@.len() ==> (#[trigger] ranges@[k2]).0 <= ranges@[k2].1
                        && ranges@[k2].1 <= line.len(),
                exists|p: int|
                    0 <= p < rules.spec_group(g as int).patterns@.len() && pat == effective_pattern(
                        mode_of_group(g as int),
                        (#[trigger] rules.spec_group(g as int).patterns@[p])@,
                    ),
                forall|y: int|
                    0 <= y < line.len() && covered_by(ranges@, y, k as int) ==> (#[trigger] buf@[y]) is Some,
                forall|y: int|
                    0 <= y < line.len() && (old(buf)@[y]) is Some ==> (#[trigger] buf@[y]) is Some,
                rules == self.rules(),
            decreases ranges@.len() - k,
        {
            let s = ranges[k].0;
            let e = ranges[k].1;
            let mut x = s;
            while x < e
                invariant
                    s <= x <= e,
                    e <= line.len(),
                    g < group_count(),
                    buf@.len() == line.len(),
                    buf_sound(rules, line, buf@),
                    buf_complete_to(rules, line, buf@, g as int),
                    regex_valid(pat),
                    ranges@ == regex_match_ranges(pat, line),
                    k < ranges@.len(),
                    ranges@[k as int].0 == s,
                    ranges@[k as int].1 == e,
                    exists|p: int|
                        0 <= p < rules.spec_group(g as int).patterns@.len() && pat
                            == effective_pattern(
                            mode_of_group(g as int),
                            (#[trigger] rules.spec_group(g as int).patterns@[p])@,
                        ),
                    forall|y: int|
                        0 <= y < line.len() && covered_by(ranges@, y, k as int) ==> (
                        #[trigger] buf@[y]) is Some,
                    forall|y: int| s <= y < x ==> (#[trigger] buf@[y]) is Some,
                    forall|y: int|
                        0 <= y < line.len() && (old(buf)@[y]) is Some ==> (#[trigger] buf@[y]) is Some,
                    rules == self.rules(),
                decreases e - x,
            {
                proof {
                    assert(pattern_covers(pat, line, x as int));
                    assert(group_covers(rules, g as int, line, x as int));
                }
                if g == 0 {
                    buf[x] = Some(0u8);
                } else if buf[x].is_none() {
                    buf[x] = Some(g as u8);
                }
                x += 1;
            }
            proof {
                assert(forall|y: int|
                    0 <= y < line.len() && covered_by(ranges@, y, k + 1 as int) ==> covered_by(
                        ranges@,
                        y,
                        k as int,
                    ) || (s <= y < e));
            }
            k += 1;
        }
    }

    /// Run every pattern of every group over the line, in priority order,
    /// and return the per-character group assignment.
    fn fill_buffer(&self, line: &str) -> (buf: Vec<Option<u8>>)
        ensures
            buf@.len() == line@.len(),
            buf_sound(self.rules(), line@, buf@),
            buf_complete_to(self.rules(), line@, buf@, group_count()),
    {
        let ghost rules = self.rules();
        let n = line.unicode_len();
        let mut buf: Vec<Option<u8>> = Vec::new();
        let mut z: usize = 0;
        while z < n
            invariant
                z <= n,
                buf@.len() == z,
                forall|y: int| 0 <= y < z ==> (#[trigger] buf@[y]) is None,
            decreases n - z,
        {
            buf.push(None);
            z += 1;
        }
        let mut g: usize = 0;
        while g < 7
            invariant
                g <= 7,
                n == line@.len(),
                buf@.len() == n,
                buf_sound(rules, line@, buf@),
                buf_complete_to(rules, line@, buf@, g as int),
                rules == self.rules(),
            decreases 7 - g,
        {
            let pg: &PatternGroup = self.patterns.group(g);
            let mut p: usize = 0;
            while p < pg.patterns.len()
                invariant
                    p <= pg.patterns@.len(),
                    g < 7,
                    n == line@.len(),
                    buf@.len() == n,
                    buf_sound(rules, line@, buf@),
                    buf_complete_to(rules, line@, buf@, g as int),
                    group_complete_to(rules, line@, buf@, g as int, p as int),
                    *pg == rules.spec_group(g as int),
                    rules == self.rules(),
                decreases pg.patterns@.len() - p,
            {
                let source: &String = &pg.patterns[p];
                let pat: String = if g == 3 || g == 4 {
                    build_word_pattern(source.as_str())
                } else if g == 6 {
                    escape_pattern(source.as_str())
                } else {
                    source.clone()
                };
                proof {
                    assert(pat@ == effective_pattern(mode_of_group(g as int), source@));
                }
                match find_match_ranges(pat.as_str(), line) {
                    Some(ranges) => {
                        self.apply_ranges(&mut buf, &ranges, g, Ghost(line@), Ghost(pat@));
                        proof {
                            assert forall|x: int|
                                0 <= x < buf@.len() && (#[trigger] buf@[x]) is None implies forall|
                                q: int,
                            |
                                0 <= q < p + 1 ==> !pattern_covers(
                                    effective_pattern(
                                        mode_of_group(g as int),
                                        rules.spec_group(g as int).patterns@[q]@,
                                    ),
                                    line@,
                                    x,
                                ) by {
                                assert(!covered_by(
                                    regex_match_ranges(pat@, line@),
                                    x,
                                    regex_match_ranges(pat@, line@).len() as int,
                                ));
                            }
                        }
                    },
                    None => {
                        proof {
                            assert(!regex_valid(pat@));
                            assert(group_complete_to(rules, line@, buf@, g as int, p + 1 as int));
                        }
                    },
                }
                p += 1;
            }
            proof {
                assert forall|x: int|
                    0 <= x < buf@.len() && (#[trigger] buf@[x]) is None implies forall|g2: int|
                    0 <= g2 < g + 1 ==> !group_covers(rules, g2, line@, x) by {
                    assert(!group_covers(rules, g as int, line@, x));
                }
            }
            g += 1;
        }
        buf
    }

    /// Whether two buffer slots display the same color string.
    fn display_eq(&self, palette: &Vec<String>, white: &String, a: Option<u8>, b: Option<u8>) -> (r:
        bool)
        requires
            palette@.len() == group_count(),
            forall|v: int|
                0 <= v < group_count() ==> (#[trigger] palette@[v])@ == parse_color_spec(
                    self.rules().spec_group(v).color@,
                ),
            white@ == default_color(),
            a matches Some(v) ==> v < group_count(),
            b matches Some(v) ==> v < group_count(),
        ensures
            r == (slot_color(self.rules(), a) == slot_color(self.rules(), b)),
    {
        match (a, b) {
            (None, None) => true,
            (Some(x), Some(y)) => str_eq(palette[x as usize].as_str(), palette[y as usize].as_str()),
            (Some(x), None) => str_eq(palette[x as usize].as_str(), white.as_str()),
            (None, Some(y)) => str_eq(white.as_str(), palette[y as usize].as_str()),
        }
    }

    /// The color string a buffer slot displays.
    fn slot_color_string(&self, palette: &Vec<String>, white: &String, s: Option<u8>) -> (c: String)
        requires
            palette@.len() == group_count(),
            forall|v: int|
                0 <= v < group_count() ==> (#[trigger] palette@[v])@ == parse_color_spec(
                    self.rules().spec_group(v).color@,
                ),
            white@ == default_color(),
            s matches Some(v) ==> v < group_count(),
        ensures
            c@ == slot_color(self.rules(), s),
    {
        match s {
            Some(v) => palette[v as usize].clone(),
            None => white.clone(),
        }
    }

    /// Highlight one line (which must contain no line feed), producing its
    /// token sequence with absolute offsets starting at `line_offset`.
    ///
    /// The tokens are exactly the maximal same-color runs of the line
    /// under the rule set's per-character color assignment: they partition
    /// the line, reproduce its text, and no two adjacent tokens share a
    /// color.
    pub fn highlight(&self, line: &str, line_offset: usize) -> (tokens: Vec<Token>)
        requires
            forall|j: int| 0 <= j < line@.len() ==> line@[j] != '\n',
            line_offset + line@.len() <= usize::MAX,
        ensures
            tokens@.map_values(|t: Token| t.model()) == line_models(
                self.rules(),
                line@,
                line_offset as int,
            ),
    {
        let ghost rules = self.rules();
        let ghost off = line_offset as int;
        let n = line.unicode_len();
        let mut tokens: Vec<Token> = Vec::new();
        if n == 0 {
            proof {
                assert(tokens@.map_values(|t: Token| t.model()) =~= line_models(rules, line@, off));
            }
            return tokens;
        }
        let mut palette: Vec<String> = Vec::new();
        let mut gi: usize = 0;
        while gi < 7
            invariant
                gi <= 7,
                palette@.len() == gi,
                forall|v: int|
                    0 <= v < gi ==> (#[trigger] palette@[v])@ == parse_color_spec(
                        rules.spec_group(v).color@,
                    ),
                rules == self.rules(),
            decreases 7 - gi,
        {
            palette.push(parse_color(self.patterns.group(gi).color.as_str()));
            gi += 1;
        }
        let white: String = "#ffffff".to_owned();
        let buf = self.fill_buffer(line);
        proof {
            assert forall|x: int| 0 <= x < n implies slot_color(rules, #[trigger] buf@[x])
                == color_at(rules, line@, x) by {
                match buf@[x] {
                    Some(v) => {
                        lemma_first_cover_from_least(rules, line@, x, 0, v as int);
                    },
                    None => {
                        lemma_first_cover_from_none(rules, line@, x, 0);
                    },
                }
            }
        }
        let mut cs: usize = 0;
        let mut i: usize = 1;
        while i < n
            invariant
                1 <= i <= n,
                cs < i,
                n == line@.len(),
                buf@.len() == n,
                rules == self.rules(),
                off == line_offset as int,
                line_offset + n <= usize::MAX,
                palette@.len() == group_count(),
                forall|v: int|
                    0 <= v < group_count() ==> (#[trigger] palette@[v])@ == parse_color_spec(
                        rules.spec_group(v).color@,
                    ),
                white@ == default_color(),
                buf_sound(rules, line@, buf@),
                forall|x: int|
                    0 <= x < n ==> slot_color(rules, #[trigger] buf@[x]) == color_at(rules, line@, x),
                forall|j: int|
                    cs <= j < i ==> color_at(rules, line@, j) == color_at(rules, line@, cs as int),
                tokens@.map_values(|t: Token| t.model()) + line_models_from(rules, line@, off, cs as int)
                    == line_models(rules, line@, off),
            decreases n - i,
        {
            let same = self.display_eq(&palette, &white, buf[i], buf[cs]);
            if !same {
                let text = line.substring_char(cs, i).to_owned();
                let color = self.slot_color_string(&palette, &white, buf[cs]);
                let t = Token { text, color, start: line_offset + cs, end: line_offset + i };
                proof {
                    lemma_run_end_determined(rules, line@, cs as int, cs as int, i as int);
                    assert(line_models_from(rules, line@, off, cs as int) == seq![
                        TokenModel {
                            text: line@.subrange(cs as int, i as int),
                            color: color_at(rules, line@, cs as int),
                            start: off + cs,
                            end: off + i,
                        },
                    ] + line_models_from(rules, line@, off, i as int));
                    assert((tokens@ + seq![t]).map_values(|t: Token| t.model()) =~= tokens@
                        .map_values(|t: Token| t.model()) + seq![t.model()]);
                    assert((tokens@ + seq![t]).map_values(|t: Token| t.model())
                        + line_models_from(rules, line@, off, i as int) =~= line_models(
                        rules,
                        line@,
                        off,
                    ));
                }
                tokens.push(t);
                cs = i;
            }
            i += 1;
        }
        let text = line.substring_char(cs, n).to_owned();
        let color = self.slot_color_string(&palette, &white, buf[cs]);
        let t = Token { text, color, start: line_offset + cs, end: line_offset + n };
        proof {
            lemma_run_end_determined(rules, line@, cs as int, cs as int, n as int);
            assert(line_models_from(rules, line@, off, cs as int) == seq![
                TokenModel {
                    text: line@.subrange(cs as int, n as int),
                    color: color_at(rules, line@, cs as int),
                    start: off + cs,
                    end: off + n,
                },
            ] + line_models_from(rules, line@, off, n as int));
            assert(line_models_from(rules, line@, off, n as int) =~= Seq::<TokenModel>::empty());
            assert((tokens@ + seq![t]).map_values(|t: Token| t.model()) =~= tokens@.map_values(
                |t: Token| t.model(),
            ) + seq![t.model()]);
            assert((tokens@ + seq![t]).map_values(|t: Token| t.model()) =~= line_models(
                rules,
                line@,
                off,
            ));
        }
        tokens.push(t);
        if tokens.len() == 0 {
            // Safety net required of the coalescing pass: cover the whole
            // line with one default-colored token.  The final run above
            // always yields a token first, so this cannot be reached.
            let whole = Token {
                text: line.to_owned(),
                color: white,
                start: line_offset,
                end: line_offset + n,
            };
            tokens.push(whole);
        }
        tokens
    }
}

} // verus!
