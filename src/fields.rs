use vstd::prelude::*;

use crate::chars::{chars_of, string_of};

verus! {

/// A four-digit year from 1980 to 2030 standing as a whole word.
pub const YEAR_PATTERN: &'static str = r"\b(19[89][0-9]|20[0-2][0-9]|2030)\b";

/// A number, plain or grouped by `.` or `,` in threes, then optional space and `km`
/// in any case; the number is the first group.
pub const MILEAGE_PATTERN: &'static str = r"(\d{1,3}(?:[.,]\d{3})*|\d+)\s*[Kk][Mm]";

/// The text of the leftmost-first match of `pattern` in `text`; `None` where the
/// pattern does not compile or nothing matches.
pub uninterp spec fn leftmost_match(pattern: Seq<char>, text: Seq<char>) -> Option<Seq<char>>;

/// The text of the first group of the leftmost-first match of `pattern` in
/// `text`; `None` where the pattern does not compile, nothing matches, or the
/// group took no part in the match.
pub uninterp spec fn leftmost_group(pattern: Seq<char>, text: Seq<char>) -> Option<Seq<char>>;

/// Relies on `regex::Regex::new` and `Regex::find`: the leftmost-first match of
/// the compiled pattern, as text.
#[verifier::external_body]
fn find_match(pattern: &str, text: &str) -> (r: Option<String>)
    ensures
        opt_view(&r) == leftmost_match(pattern@, text@),
{
    match regex::Regex::new(pattern) {
        Ok(re) => match re.find(text) {
            Some(m) => Some(m.as_str().to_string()),
            None => None,
        },
        Err(_) => None,
    }
}

/// Relies on `regex::Regex::new`, `Regex::captures` and `Captures::get`: the first
/// group of the leftmost-first match, as text.
#[verifier::external_body]
fn find_group(pattern: &str, text: &str) -> (r: Option<String>)
    ensures
        opt_view(&r) == leftmost_group(pattern@, text@),
{
    match regex::Regex::new(pattern) {
        Ok(re) => match re.captures(text) {
            Some(caps) => match caps.get(1) {
                Some(m) => Some(m.as_str().to_string()),
                None => None,
            },
            None => None,
        },
        Err(_) => None,
    }
}

/// The characters of an optional string.
pub open spec fn opt_view(o: &Option<String>) -> Option<Seq<char>> {
    match o {
        Some(s) => Some(s@),
        None => None,
    }
}

pub open spec fn is_ascii_digit(c: char) -> bool {
    '0' <= c && c <= '9'
}

pub open spec fn all_digits(s: Seq<char>) -> bool {
    forall|i: int| 0 <= i < s.len() ==> is_ascii_digit(#[trigger] s[i])
}

/// The value of a string of decimal digits, most significant first.
pub open spec fn decimal_value(s: Seq<char>) -> nat
    decreases s.len(),
{
    if s.len() == 0 {
        0
    } else {
        decimal_value(s.drop_last()) * 10 + ((s.last() as u32) - 48) as nat
    }
}

/// A non-empty run of decimal digits read as a `u32`; `None` where the text
/// holds anything else or the value does not fit.
pub open spec fn decimal_u32(s: Seq<char>) -> Option<u32> {
    if s.len() > 0 && all_digits(s) && decimal_value(s) <= u32::MAX {
        Some(decimal_value(s) as u32)
    } else {
        None
    }
}

/// The year a matched token stands for: its value, where it is a number from
/// 1980 to 2030.
pub open spec fn year_of_token(m: Option<Seq<char>>) -> Option<u32> {
    match m {
        Some(t) => match decimal_u32(t) {
            Some(v) => if 1980 <= v && v <= 2030 {
                Some(v)
            } else {
                None
            },
            None => None,
        },
        None => None,
    }
}

/// `s` without its `.` and `,` characters.
pub open spec fn strip_separators(s: Seq<char>) -> Seq<char>
    decreases s.len(),
{
    if s.len() == 0 {
        Seq::empty()
    } else if s.last() == '.' || s.last() == ',' {
        strip_separators(s.drop_last())
    } else {
        strip_separators(s.drop_last()).push(s.last())
    }
}

/// The kilometres a captured number stands for, with its separators removed.
pub open spec fn mileage_of_number(m: Option<Seq<char>>) -> Option<u32> {
    match m {
        Some(t) => decimal_u32(strip_separators(t)),
        None => None,
    }
}

/// The year found in a listing's text.
pub open spec fn year_in(text: Seq<char>) -> Option<u32> {
    year_of_token(leftmost_match(YEAR_PATTERN@, text))
}

/// The mileage found in a listing's text.
pub open spec fn mileage_in(text: Seq<char>) -> Option<u32> {
    mileage_of_number(leftmost_group(MILEAGE_PATTERN@, text))
}

proof fn lemma_decimal_monotone(s: Seq<char>, i: int)
    requires
        0 <= i <= s.len(),
        all_digits(s),
    ensures
        decimal_value(s.subrange(0, i)) <= decimal_value(s),
    decreases s.len() - i,
{
    if i < s.len() {
        lemma_decimal_monotone(s, i + 1);
        let p = s.subrange(0, i + 1);
        assert(p.drop_last() =~= s.subrange(0, i));
        assert(is_ascii_digit(s[i]));
    } else {
        assert(s.subrange(0, i) =~= s);
    }
}

/// Reads a non-empty run of decimal digits as a `u32`.
pub fn parse_decimal(s: &str) -> (r: Option<u32>)
    ensures
        r == decimal_u32(s@),
{
    let cs = chars_of(s);
    if cs.len() == 0 {
        return None;
    }
    let mut value: u32 = 0;
    let mut i: usize = 0;
    while i < cs.len()
        invariant
            i <= cs@.len(),
            cs@ == s@,
            cs@.len() > 0,
            all_digits(cs@.subrange(0, i as int)),
            value as nat == decimal_value(cs@.subrange(0, i as int)),
        decreases cs@.len() - i,
    {
        let c = cs[i];
        let prefix = Ghost(cs@.subrange(0, i + 1));
        assert(prefix@.drop_last() =~= cs@.subrange(0, i as int));
        if !('0' <= c && c <= '9') {
            assert(!is_ascii_digit(s@[i as int]));
            return None;
        }
        let d: u32 = (c as u32) - 48;
        assert(all_digits(prefix@)) by {
            assert forall|k: int| 0 <= k < prefix@.len() implies is_ascii_digit(#[trigger] prefix@[k]) by {
                if k < i {
                    assert(prefix@[k] == cs@.subrange(0, i as int)[k]);
                }
            }
        }
        if value > (u32::MAX - d) / 10 {
            proof {
                if all_digits(s@) {
                    lemma_decimal_monotone(s@, i + 1);
                }
            }
            return None;
        }
        value = value * 10 + d;
        i = i + 1;
    }
    assert(cs@.subrange(0, cs@.len() as int) =~= cs@);
    Some(value)
}

/// The year that a match of the year pattern stands for.
pub fn year_from_match(found: &Option<String>) -> (r: Option<u32>)
    ensures
        r == year_of_token(opt_view(found)),
{
    match found {
        Some(t) => match parse_decimal(t.as_str()) {
            Some(v) => if 1980 <= v && v <= 2030 {
                Some(v)
            } else {
                None
            },
            None => None,
        },
        None => None,
    }
}

/// Removes every `.` and `,` from `s`.
pub fn remove_separators(s: &str) -> (r: String)
    ensures
        r@ == strip_separators(s@),
{
    let cs = chars_of(s);
    let mut out: Vec<char> = Vec::new();
    let mut i: usize = 0;
    while i < cs.len()
        invariant
            i <= cs@.len(),
            cs@ == s@,
            out@ == strip_separators(cs@.subrange(0, i as int)),
        decreases cs@.len() - i,
    {
        let c = cs[i];
        assert(cs@.subrange(0, i + 1).drop_last() =~= cs@.subrange(0, i as int));
        if c != '.' && c != ',' {
            out.push(c);
        }
        i = i + 1;
    }
    assert(cs@.subrange(0, cs@.len() as int) =~= cs@);
    string_of(&out)
}

/// The kilometres that the number captured by the mileage pattern stands for.
pub fn mileage_from_number(found: &Option<String>) -> (r: Option<u32>)
    ensures
        r == mileage_of_number(opt_view(found)),
{
    match found {
        Some(t) => {
            let digits = remove_separators(t.as_str());
            parse_decimal(digits.as_str())
        },
        None => None,
    }
}

/// Finds a model year in the free text of a listing: the first whole-word
/// four-digit number from 1980 to 2030.
pub fn extract_year(text: &str) -> (r: Option<u32>)
    ensures
        r == year_in(text@),
        r matches Some(y) ==> 1980 <= y && y <= 2030,
{
    let found = find_match(YEAR_PATTERN, text);
    year_from_match(&found)
}

/// Finds a mileage in the free text of a listing: the first number followed by
/// `km`, with its thousands separators removed.
pub fn extract_mileage(text: &str) -> (r: Option<u32>)
    ensures
        r == mileage_in(text@),
{
    let found = find_group(MILEAGE_PATTERN, text);
    mileage_from_number(&found)
}

} // verus!
