//! The crate's only window onto the regular-expression engine.
//!
//! Pattern compilation and match search are functions of the pattern source
//! and the haystack alone; their results are given names here
//! ([`regex_valid`], [`regex_match_ranges`], [`regex_escaped`]) that the
//! highlighting contracts are stated over.

use vstd::prelude::*;
use vstd::string::StringExecFns;

verus! {

/// Whether a pattern source compiles as a regular expression.
pub uninterp spec fn regex_valid(pattern: Seq<char>) -> bool;

/// The successive non-overlapping matches of a compiled pattern in a line,
/// as half-open character ranges, leftmost first.
pub uninterp spec fn regex_match_ranges(pattern: Seq<char>, line: Seq<char>) -> Seq<(usize, usize)>;

/// A pattern source with every regular-expression meta character escaped,
/// so that it matches the input text literally.
pub uninterp spec fn regex_escaped(s: Seq<char>) -> Seq<char>;

/// Relies on `regex::Regex::new` and `regex::Regex::find_iter`: whether a
/// pattern source compiles, and where the compiled pattern's successive
/// non-overlapping matches lie in a haystack, depend on the pattern source
/// and the haystack alone.  Match byte offsets fall on character
/// boundaries and are converted here to character offsets.
#[verifier::external_body]
pub(crate) fn find_match_ranges(pattern: &str, line: &str) -> (r: Option<Vec<(usize, usize)>>)
    ensures
        r is Some <==> regex_valid(pattern@),
        r matches Some(v) ==> v@ == regex_match_ranges(pattern@, line@),
        r matches Some(v) ==> forall|k: int|
            0 <= k < v@.len() ==> (#[trigger] v@[k]).0 <= v@[k].1 && v@[k].1 <= line@.len(),
{
    match regex::Regex::new(pattern) {
        Ok(re) => {
            let mut v: Vec<(usize, usize)> = Vec::new();
            for m in re.find_iter(line) {
                v.push((line[..m.start()].chars().count(), line[..m.end()].chars().count()));
            }
            Some(v)
        }
        Err(_) => None,
    }
}

/// Relies on `regex::escape`: the escaped text is a function of the input
/// alone.
#[verifier::external_body]
pub(crate) fn escape_pattern(s: &str) -> (r: String)
    ensures
        r@ == regex_escaped(s@),
{
    regex::escape(s)
}

/// The pattern that matches `p` literally, as a whole word: the escaped
/// text between word-boundary anchors.
pub open spec fn word_anchored(p: Seq<char>) -> Seq<char> {
    "\\b"@ + regex_escaped(p) + "\\b"@
}

pub(crate) fn build_word_pattern(p: &str) -> (r: String)
    ensures
        r@ == word_anchored(p@),
{
    let mut r = "\\b".to_owned();
    r.append(escape_pattern(p).as_str());
    r.append("\\b");
    proof {
        assert(r@ =~= word_anchored(p@));
    }
    r
}

} // verus!
