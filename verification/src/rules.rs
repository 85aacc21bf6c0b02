//! Rule sets: the per-language table of seven pattern groups, and the
//! per-character color assignment they induce on a line.
//!
//! The groups stand in a fixed total priority order: strings > comments >
//! numbers > keywords > types > methods > operators.  A character's color
//! is decided by the first group in that order with a valid pattern whose
//! match covers it; characters no group claims display the default color.

use vstd::prelude::*;
use crate::color::parse_color_spec;
use crate::default_color;
use crate::rematch::{regex_escaped, regex_match_ranges, regex_valid, word_anchored};

verus! {

/// One named category of patterns sharing a display color.
#[derive(Debug)]
pub struct PatternGroup {
    pub patterns: Vec<String>,
    pub color: String,
}

/// The seven pattern groups defined for one language.
#[derive(Debug)]
pub struct SyntaxPatterns {
    pub keywords: PatternGroup,
    pub types: PatternGroup,
    pub comments: PatternGroup,
    pub strings: PatternGroup,
    pub numbers: PatternGroup,
    pub operators: PatternGroup,
    pub methods: PatternGroup,
}

/// How a group's pattern sources are turned into regular expressions:
/// as they stand, anchored as whole words, or escaped to match literally.
pub enum MatchMode {
    Raw,
    Word,
    Literal,
}

/// The number of pattern groups.
pub open spec fn group_count() -> int {
    7
}

impl SyntaxPatterns {
    /// The groups by priority rank, highest first.
    pub open spec fn spec_group(self, g: int) -> PatternGroup {
        if g == 0 {
            self.strings
        } else if g == 1 {
            self.comments
        } else if g == 2 {
            self.numbers
        } else if g == 3 {
            self.keywords
        } else if g == 4 {
            self.types
        } else if g == 5 {
            self.methods
        } else {
            self.operators
        }
    }

    /// The group of priority rank `g`, highest first.
    pub fn group(&self, g: usize) -> (r: &PatternGroup)
        requires
            g < group_count(),
        ensures
            *r == self.spec_group(g as int),
    {
        match g {
            0 => &self.strings,
            1 => &self.comments,
            2 => &self.numbers,
            3 => &self.keywords,
            4 => &self.types,
            5 => &self.methods,
            _ => &self.operators,
        }
    }
}

/// Keywords and types match as whole words; operators match literally;
/// the remaining groups are raw regular expressions.
pub open spec fn mode_of_group(g: int) -> MatchMode {
    if g == 3 || g == 4 {
        MatchMode::Word
    } else if g == 6 {
        MatchMode::Literal
    } else {
        MatchMode::Raw
    }
}

/// The regular expression actually compiled for a pattern source `p`
/// matched under `mode`.
pub open spec fn effective_pattern(mode: MatchMode, p: Seq<char>) -> Seq<char> {
    match mode {
        MatchMode::Raw => p,
        MatchMode::Word => word_anchored(p),
        MatchMode::Literal => regex_escaped(p),
    }
}

/// Whether a (compiled) pattern has a match covering character `i`.
/// A pattern source that does not compile covers nothing.
pub open spec fn pattern_covers(pat: Seq<char>, line: Seq<char>, i: int) -> bool {
    regex_valid(pat) && exists|k: int|
        0 <= k < regex_match_ranges(pat, line).len()
            && (#[trigger] regex_match_ranges(pat, line)[k]).0 <= i
            && i < regex_match_ranges(pat, line)[k].1
}

/// Whether any pattern of group `g` covers character `i` of the line.
pub open spec fn group_covers(rules: SyntaxPatterns, g: int, line: Seq<char>, i: int) -> bool {
    exists|p: int|
        0 <= p < rules.spec_group(g).patterns@.len() && pattern_covers(
            effective_pattern(mode_of_group(g), (#[trigger] rules.spec_group(g).patterns@[p])@),
            line,
            i,
        )
}

/// The first group of rank `g` or beyond that covers character `i`.
pub open spec fn first_cover_from(rules: SyntaxPatterns, line: Seq<char>, i: int, g: int) -> Option<
    int,
>
    decreases group_count() - g,
{
    if g < 0 || g >= group_count() {
        None
    } else if group_covers(rules, g, line, i) {
        Some(g)
    } else {
        first_cover_from(rules, line, i, g + 1)
    }
}

/// The group whose color character `i` displays: the highest-priority
/// group that covers it, if any.
pub open spec fn assigned_group(rules: SyntaxPatterns, line: Seq<char>, i: int) -> Option<int> {
    first_cover_from(rules, line, i, 0)
}

/// The color character `i` of the line displays.
pub open spec fn color_at(rules: SyntaxPatterns, line: Seq<char>, i: int) -> Seq<char> {
    match assigned_group(rules, line, i) {
        Some(g) => parse_color_spec(rules.spec_group(g).color@),
        None => default_color(),
    }
}

/// `first_cover_from` finds exactly the least covering rank.
pub proof fn lemma_first_cover_from_least(
    rules: SyntaxPatterns,
    line: Seq<char>,
    i: int,
    g: int,
    v: int,
)
    requires
        0 <= g <= v < group_count(),
        group_covers(rules, v, line, i),
        forall|g2: int| g <= g2 < v ==> !group_covers(rules, g2, line, i),
    ensures
        first_cover_from(rules, line, i, g) == Some(v),
    decreases v - g,
{
    if g < v {
        lemma_first_cover_from_least(rules, line, i, g + 1, v);
    }
}

/// A character covered by the strings group always displays the strings
/// color, whatever other groups match there.
pub proof fn lemma_strings_priority(rules: SyntaxPatterns, line: Seq<char>, i: int)
    requires
        group_covers(rules, 0, line, i),
    ensures
        color_at(rules, line, i) == parse_color_spec(rules.spec_group(0).color@),
{
}

/// Among the groups, the first in priority order to cover a character
/// decides its color.
pub proof fn lemma_priority_order(rules: SyntaxPatterns, line: Seq<char>, i: int, g: int)
    requires
        0 <= g < group_count(),
        group_covers(rules, g, line, i),
        forall|g2: int| 0 <= g2 < g ==> !group_covers(rules, g2, line, i),
    ensures
        color_at(rules, line, i) == parse_color_spec(rules.spec_group(g).color@),
{
    lemma_first_cover_from_least(rules, line, i, 0, g);
}

proof fn lemma_first_cover_same(
    r1: SyntaxPatterns,
    r2: SyntaxPatterns,
    line: Seq<char>,
    i: int,
    g: int,
)
    requires
        0 <= g,
        forall|g2: int|
            g <= g2 < group_count() ==> group_covers(r1, g2, line, i) == group_covers(
                r2,
                g2,
                line,
                i,
            ),
    ensures
        first_cover_from(r1, line, i, g) == first_cover_from(r2, line, i, g),
    decreases group_count() - g,
{
    if g < group_count() {
        lemma_first_cover_same(r1, r2, line, i, g + 1);
    }
}

/// A pattern whose source does not compile contributes nothing: removing
/// it from its group changes no character's color.  Matches of the other
/// patterns, in its group and in every other, stand as they are.
pub proof fn lemma_invalid_pattern_ignored(
    r1: SyntaxPatterns,
    r2: SyntaxPatterns,
    g: int,
    q: int,
    line: Seq<char>,
    i: int,
)
    requires
        0 <= g < group_count(),
        0 <= q < r1.spec_group(g).patterns@.len(),
        !regex_valid(effective_pattern(mode_of_group(g), r1.spec_group(g).patterns@[q]@)),
        r2.spec_group(g).patterns@.len() + 1 == r1.spec_group(g).patterns@.len(),
        forall|x: int|
            0 <= x < q ==> r2.spec_group(g).patterns@[x] == r1.spec_group(g).patterns@[x],
        forall|x: int|
            q <= x < r2.spec_group(g).patterns@.len() ==> r2.spec_group(g).patterns@[x]
                == r1.spec_group(g).patterns@[x + 1],
        r2.spec_group(g).color == r1.spec_group(g).color,
        forall|g2: int| 0 <= g2 < group_count() && g2 != g ==> r2.spec_group(g2) == r1.spec_group(g2),
    ensures
        color_at(r1, line, i) == color_at(r2, line, i),
{
    assert(group_covers(r1, g, line, i) == group_covers(r2, g, line, i)) by {
        if group_covers(r1, g, line, i) {
            let p1 = choose|p: int|
                0 <= p < r1.spec_group(g).patterns@.len() && pattern_covers(
                    effective_pattern(mode_of_group(g), (#[trigger] r1.spec_group(g).patterns@[p])@),
                    line,
                    i,
                );
            assert(p1 != q);
            if p1 < q {
                assert(r2.spec_group(g).patterns@[p1] == r1.spec_group(g).patterns@[p1]);
                assert(group_covers(r2, g, line, i));
            } else {
                assert(r2.spec_group(g).patterns@[p1 - 1] == r1.spec_group(g).patterns@[p1]);
                assert(group_covers(r2, g, line, i));
            }
        }
        if group_covers(r2, g, line, i) {
            let p2 = choose|p: int|
                0 <= p < r2.spec_group(g).patterns@.len() && pattern_covers(
                    effective_pattern(mode_of_group(g), (#[trigger] r2.spec_group(g).patterns@[p])@),
                    line,
                    i,
                );
            if p2 < q {
                assert(r1.spec_group(g).patterns@[p2] == r2.spec_group(g).patterns@[p2]);
                assert(group_covers(r1, g, line, i));
            } else {
                assert(r1.spec_group(g).patterns@[p2 + 1] == r2.spec_group(g).patterns@[p2]);
                assert(group_covers(r1, g, line, i));
            }
        }
    }
    assert(forall|g2: int|
        0 <= g2 < group_count() && g2 != g ==> group_covers(r1, g2, line, i) == group_covers(
            r2,
            g2,
            line,
            i,
        ));
    lemma_first_cover_same(r1, r2, line, i, 0);
    lemma_first_cover_range(r1, line, i, 0);
    match first_cover_from(r1, line, i, 0) {
        Option::Some(gg) => {
            if gg == g {
                assert(r2.spec_group(g).color@ == r1.spec_group(g).color@);
            } else {
                assert(r2.spec_group(gg) == r1.spec_group(gg));
            }
        },
        Option::None => {
        },
    }
}

proof fn lemma_first_cover_range(rules: SyntaxPatterns, line: Seq<char>, i: int, g: int)
    requires
        0 <= g,
    ensures
        first_cover_from(rules, line, i, g) matches Some(v) ==> g <= v < group_count(),
    decreases group_count() - g,
{
    if g < group_count() {
        lemma_first_cover_range(rules, line, i, g + 1);
    }
}

/// If no group from rank `g` on covers `i`, the search fails.
pub proof fn lemma_first_cover_from_none(rules: SyntaxPatterns, line: Seq<char>, i: int, g: int)
    requires
        0 <= g,
        forall|g2: int| g <= g2 < group_count() ==> !group_covers(rules, g2, line, i),
    ensures
        first_cover_from(rules, line, i, g) is None,
    decreases group_count() - g,
{
    if g < group_count() {
        lemma_first_cover_from_none(rules, line, i, g + 1);
    }
}

} // verus!
