//! Color resolution.
//!
//! A pattern group's color is configured as a raw `"r, g, b"` string.
//! [`parse_color`] resolves it to the canonical form `rgb(r, g, b)`, with
//! each component a decimal integer between 0 and 255.  Any malformation
//! (wrong component count, non-numeric or out-of-range component) yields
//! the default white.

use vstd::prelude::*;
use vstd::string::{StrSliceExecFns, StringExecFns};
use crate::default_color;
use crate::strutil::push_char;

verus! {

/// The characters `str::trim` removes: those with the Unicode
/// `White_Space` property.
pub open spec fn is_space_char(c: char) -> bool {
    c == ' ' || c == '\t' || c == '\n' || c == '\u{b}' || c == '\u{c}' || c == '\r'
        || c == '\u{85}' || c == '\u{a0}' || c == '\u{1680}'
        || ('\u{2000}' <= c && c <= '\u{200a}')
        || c == '\u{2028}' || c == '\u{2029}' || c == '\u{202f}' || c == '\u{205f}'
        || c == '\u{3000}'
}

/// The pieces of `s` between commas, commas excluded; always at least one
/// piece, and one more piece than there are commas.
pub open spec fn split_commas(s: Seq<char>) -> Seq<Seq<char>>
    decreases s.len(),
{
    if s.len() == 0 {
        seq![Seq::<char>::empty()]
    } else if s[0] == ',' {
        seq![Seq::<char>::empty()] + split_commas(s.drop_first())
    } else {
        let rest = split_commas(s.drop_first());
        rest.update(0, seq![s[0]] + rest[0])
    }
}

pub proof fn lemma_split_commas_nonempty(s: Seq<char>)
    ensures
        split_commas(s).len() >= 1,
    decreases s.len(),
{
    if s.len() != 0 {
        lemma_split_commas_nonempty(s.drop_first());
    }
}

pub open spec fn trim_start_spec(s: Seq<char>) -> Seq<char>
    decreases s.len(),
{
    if s.len() > 0 && is_space_char(s[0]) {
        trim_start_spec(s.drop_first())
    } else {
        s
    }
}

pub open spec fn trim_end_spec(s: Seq<char>) -> Seq<char>
    decreases s.len(),
{
    if s.len() > 0 && is_space_char(s.last()) {
        trim_end_spec(s.drop_last())
    } else {
        s
    }
}

/// `s` with surrounding whitespace removed, as `str::trim` does.
pub open spec fn trim_spec(s: Seq<char>) -> Seq<char> {
    trim_end_spec(trim_start_spec(s))
}

pub open spec fn is_digit(c: char) -> bool {
    48 <= c as int && c as int <= 57
}

pub open spec fn digit_val(c: char) -> int {
    c as int - 48
}

pub open spec fn all_digits(s: Seq<char>) -> bool {
    forall|i: int| 0 <= i < s.len() ==> is_digit(#[trigger] s[i])
}

/// The value of a string of decimal digits.
pub open spec fn digits_val(s: Seq<char>) -> int
    decreases s.len(),
{
    if s.len() == 0 {
        0
    } else {
        digits_val(s.drop_last()) * 10 + digit_val(s.last())
    }
}

/// The digits of a decimal literal as `u8::from_str` reads it: an
/// optional leading plus sign, then the digits themselves.
pub open spec fn u8_digits(s: Seq<char>) -> Seq<char> {
    if s.len() > 0 && s[0] == '+' {
        s.drop_first()
    } else {
        s
    }
}

/// Whether `s.parse::<u8>()` succeeds.
pub open spec fn parses_as_u8(s: Seq<char>) -> bool {
    let d = u8_digits(s);
    d.len() > 0 && all_digits(d) && digits_val(d) <= 255
}

/// The value `s.parse::<u8>()` returns when it succeeds.
pub open spec fn u8_value(s: Seq<char>) -> int {
    digits_val(u8_digits(s))
}

pub open spec fn digit_char(n: int) -> char {
    if n == 0 { '0' }
    else if n == 1 { '1' }
    else if n == 2 { '2' }
    else if n == 3 { '3' }
    else if n == 4 { '4' }
    else if n == 5 { '5' }
    else if n == 6 { '6' }
    else if n == 7 { '7' }
    else if n == 8 { '8' }
    else { '9' }
}

/// The decimal rendering of `n`, without leading zeros.
pub open spec fn dec_str(n: int) -> Seq<char>
    decreases n,
{
    if n < 10 {
        seq![digit_char(n)]
    } else {
        dec_str(n / 10).push(digit_char(n % 10))
    }
}

/// The canonical color form `rgb(r, g, b)`.
pub open spec fn rgb_string(r: int, g: int, b: int) -> Seq<char> {
    "rgb("@ + dec_str(r) + ", "@ + dec_str(g) + ", "@ + dec_str(b) + ")"@
}

/// What [`parse_color`] returns for a raw color string: the canonical
/// `rgb(r, g, b)` form when the string is three comma-separated decimal
/// components between 0 and 255 (surrounding whitespace ignored), and
/// the default white otherwise.
pub open spec fn parse_color_spec(s: Seq<char>) -> Seq<char> {
    let parts = split_commas(s);
    if parts.len() == 3 && parses_as_u8(trim_spec(parts[0])) && parses_as_u8(trim_spec(parts[1]))
        && parses_as_u8(trim_spec(parts[2])) {
        rgb_string(
            u8_value(trim_spec(parts[0])),
            u8_value(trim_spec(parts[1])),
            u8_value(trim_spec(parts[2])),
        )
    } else {
        default_color()
    }
}

fn is_space(c: char) -> (b: bool)
    ensures
        b == is_space_char(c),
{
    c == ' ' || c == '\t' || c == '\n' || c == '\u{b}' || c == '\u{c}' || c == '\r'
        || c == '\u{85}' || c == '\u{a0}' || c == '\u{1680}'
        || (c >= '\u{2000}' && c <= '\u{200a}')
        || c == '\u{2028}' || c == '\u{2029}' || c == '\u{202f}' || c == '\u{205f}'
        || c == '\u{3000}'
}

fn split_commas_exec(s: &str) -> (parts: Vec<String>)
    ensures
        parts@.len() == split_commas(s@).len(),
        forall|i: int| 0 <= i < parts@.len() ==> (#[trigger] parts@[i])@ == split_commas(s@)[i],
    decreases s@.len(),
{
    let n = s.unicode_len();
    if n == 0 {
        let mut parts: Vec<String> = Vec::new();
        parts.push(String::new());
        parts
    } else {
        let c = s.get_char(0);
        let rest = s.substring_char(1, n);
        proof {
            assert(rest@ =~= s@.drop_first());
        }
        if c == ',' {
            let mut parts = split_commas_exec(rest);
            parts.insert(0, String::new());
            parts
        } else {
            let mut parts = split_commas_exec(rest);
            proof {
                lemma_split_commas_nonempty(rest@);
            }
            let head = parts.remove(0);
            let mut first = String::new();
            push_char(&mut first, c);
            first.append(head.as_str());
            parts.insert(0, first);
            proof {
                assert(forall|i: int| 0 <= i < parts@.len() ==>
                    (#[trigger] parts@[i])@ == split_commas(s@)[i]);
            }
            parts
        }
    }
}

fn trim_start_exec(s: &str) -> (r: String)
    ensures
        r@ == trim_start_spec(s@),
    decreases s@.len(),
{
    let n = s.unicode_len();
    if n > 0 && is_space(s.get_char(0)) {
        let rest = s.substring_char(1, n);
        proof {
            assert(rest@ =~= s@.drop_first());
        }
        trim_start_exec(rest)
    } else {
        s.to_owned()
    }
}

fn trim_end_exec(s: &str) -> (r: String)
    ensures
        r@ == trim_end_spec(s@),
    decreases s@.len(),
{
    let n = s.unicode_len();
    if n > 0 && is_space(s.get_char(n - 1)) {
        let rest = s.substring_char(0, n - 1);
        proof {
            assert(rest@ =~= s@.drop_last());
        }
        trim_end_exec(rest)
    } else {
        s.to_owned()
    }
}

fn trim_exec(s: &str) -> (r: String)
    ensures
        r@ == trim_spec(s@),
{
    let start = trim_start_exec(s);
    trim_end_exec(start.as_str())
}

/// Once a prefix of a digit string exceeds 255, the whole string does.
proof fn lemma_digits_val_monotone(s: Seq<char>, j: int)
    requires
        all_digits(s),
        0 <= j <= s.len(),
        digits_val(s.take(j)) > 255,
    ensures
        digits_val(s) > 255,
    decreases s.len() - j,
{
    if j == s.len() {
        assert(s.take(j) =~= s);
    } else {
        assert(s.take(j + 1).drop_last() =~= s.take(j));
        assert(all_digits(s.take(j + 1))) by {
            assert(forall|i: int| 0 <= i < j + 1 ==> s.take(j + 1)[i] == s[i]);
        }
        assert(digits_val(s.take(j + 1)) == digits_val(s.take(j)) * 10 + digit_val(s.take(j + 1).last()));
        assert(digit_val(s[j]) >= 0);
        lemma_digits_val_monotone(s, j + 1);
    }
}

fn parse_u8_exec(s: &str) -> (r: Option<u8>)
    ensures
        match r {
            Some(v) => parses_as_u8(s@) && v as int == u8_value(s@),
            None => !parses_as_u8(s@),
        },
{
    let n = s.unicode_len();
    if n == 0 {
        return None;
    }
    let start: usize = if s.get_char(0) == '+' { 1 } else { 0 };
    if start == 1 && n == 1 {
        return None;
    }
    let ghost d: Seq<char> = u8_digits(s@);
    proof {
        assert(d =~= s@.skip(start as int));
    }
    let mut acc: u32 = 0;
    let mut i: usize = start;
    while i < n
        invariant
            start <= i <= n,
            n == s@.len(),
            d == u8_digits(s@),
            d =~= s@.skip(start as int),
            acc <= 255,
            all_digits(d.take(i - start)),
            acc as int == digits_val(d.take(i - start)),
        decreases n - i,
    {
        let c = s.get_char(i);
        let u = c as u32;
        if u < 48 || u > 57 {
            proof {
                assert(d[i - start] == s@[i as int]);
                assert(!is_digit(d[i - start]));
            }
            return None;
        }
        let dv = u - 48;
        let next = acc * 10 + dv;
        proof {
            assert(d.take(i - start + 1).drop_last() =~= d.take(i - start));
            assert(d.take(i - start + 1).last() == s@[i as int]);
            assert(all_digits(d.take(i - start + 1))) by {
                assert(forall|k: int| 0 <= k < i - start ==>
                    d.take(i - start + 1)[k] == #[trigger] d.take(i - start)[k]);
            }
        }
        if next > 255 {
            proof {
                assert(digits_val(d.take(i - start + 1)) == next);
                if all_digits(d) {
                    lemma_digits_val_monotone(d, i - start + 1);
                }
            }
            return None;
        }
        acc = next;
        i += 1;
    }
    proof {
        assert(d.take(i - start) =~= d);
    }
    Some(acc as u8)
}

fn digit_char_exec(d: u8) -> (c: char)
    requires
        d <= 9,
    ensures
        c == digit_char(d as int),
{
    match d {
        0 => '0',
        1 => '1',
        2 => '2',
        3 => '3',
        4 => '4',
        5 => '5',
        6 => '6',
        7 => '7',
        8 => '8',
        _ => '9',
    }
}

fn u8_to_string(v: u8) -> (r: String)
    ensures
        r@ == dec_str(v as int),
{
    let mut r = String::new();
    if v >= 100 {
        push_char(&mut r, digit_char_exec(v / 100));
    }
    if v >= 10 {
        push_char(&mut r, digit_char_exec(v / 10 % 10));
    }
    push_char(&mut r, digit_char_exec(v % 10));
    proof {
        if v < 10 {
            assert(r@ =~= dec_str(v as int));
        } else if v < 100 {
            assert(v / 10 % 10 == v / 10);
            assert(dec_str(v as int) == dec_str(v as int / 10).push(digit_char(v as int % 10)));
            assert(v as int / 10 < 10);
            assert(dec_str(v as int / 10) == seq![digit_char(v as int / 10)]);
            assert((v / 10) as int == v as int / 10);
            assert((v % 10) as int == v as int % 10);
            assert(r@ =~= dec_str(v as int));
        } else {
            assert(dec_str(v as int) == dec_str(v as int / 10).push(digit_char(v as int % 10)));
            assert(v as int / 10 >= 10);
            assert(dec_str(v as int / 10) == dec_str(v as int / 10 / 10).push(digit_char(v as int / 10 % 10)));
            assert(v as int / 10 / 10 == v as int / 100);
            assert(v as int / 100 < 10);
            assert(dec_str(v as int / 100) == seq![digit_char(v as int / 100)]);
            assert((v / 100) as int == v as int / 100);
            assert((v / 10 % 10) as int == v as int / 10 % 10);
            assert((v % 10) as int == v as int % 10);
            assert(r@ =~= dec_str(v as int));
        }
    }
    r
}

fn rgb_string_exec(r: u8, g: u8, b: u8) -> (out: String)
    ensures
        out@ == rgb_string(r as int, g as int, b as int),
{
    let mut out = "rgb(".to_owned();
    out.append(u8_to_string(r).as_str());
    out.append(", ");
    out.append(u8_to_string(g).as_str());
    out.append(", ");
    out.append(u8_to_string(b).as_str());
    out.append(")");
    proof {
        assert(out@ =~= rgb_string(r as int, g as int, b as int));
    }
    out
}

/// Resolve a raw `"r, g, b"` color string to its canonical `rgb(r, g, b)`
/// form, or to the default white if it is malformed in any way.
pub fn parse_color(raw: &str) -> (out: String)
    ensures
        out@ == parse_color_spec(raw@),
{
    let parts = split_commas_exec(raw);
    if parts.len() == 3 {
        let t0 = trim_exec(parts[0].as_str());
        let t1 = trim_exec(parts[1].as_str());
        let t2 = trim_exec(parts[2].as_str());
        let p0 = parse_u8_exec(t0.as_str());
        let p1 = parse_u8_exec(t1.as_str());
        let p2 = parse_u8_exec(t2.as_str());
        match (p0, p1, p2) {
            (Some(r), Some(g), Some(b)) => rgb_string_exec(r, g, b),
            _ => "#ffffff".to_owned(),
        }
    } else {
        "#ffffff".to_owned()
    }
}

} // verus!
