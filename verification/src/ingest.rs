//! Transcript ingestion helpers: parsing the transcription service's
//! decimal-seconds time strings into whole milliseconds, decoding object
//! keys, and reading the title and language out of an uploaded video's
//! file name.

use vstd::prelude::*;

use crate::text::{
    prefix_before,
    replace_char,
    spec_find,
    spec_prefix_before,
    spec_replace,
    split_once_char,
    spec_split_once,
    lemma_spec_find,
};

verus! {

/// Whether `c` is a decimal digit.
pub open spec fn is_digit(c: char) -> bool {
    '0' <= c && c <= '9'
}

/// The numeric value of a digit character.
pub open spec fn digit_val(c: char) -> int {
    (c as int) - ('0' as int)
}

/// Whether every character of `s` is a decimal digit.
pub open spec fn all_digits(s: Seq<char>) -> bool {
    forall|i: int| 0 <= i < s.len() ==> is_digit(#[trigger] s[i])
}

/// The value of a digit string, the empty string counting as zero.
pub open spec fn digits_val(s: Seq<char>) -> int
    decreases s.len(),
{
    if s.len() == 0 {
        0
    } else {
        digits_val(s.drop_last()) * 10 + digit_val(s.last())
    }
}

/// Ten to the `n`.
pub open spec fn pow10(n: nat) -> int
    decreases n,
{
    if n == 0 {
        1
    } else {
        10 * pow10((n - 1) as nat)
    }
}

/// A digit string's value lies in `[0, 10^len)`.
pub proof fn lemma_digits_val_bounds(s: Seq<char>)
    requires
        all_digits(s),
    ensures
        0 <= digits_val(s) < pow10(s.len()),
    decreases s.len(),
{
    if s.len() > 0 {
        lemma_digits_val_bounds(s.drop_last());
        assert(is_digit(s.last()));
        assert(digits_val(s.drop_last()) * 10 <= (pow10((s.len() - 1) as nat) - 1) * 10) by (
        nonlinear_arith)
            requires
                digits_val(s.drop_last()) <= pow10((s.len() - 1) as nat) - 1,
        ;
    }
}

/// Extending a digit string cannot shrink its value: the value of a prefix
/// is at most the value of the whole string.
pub proof fn lemma_digits_val_take(s: Seq<char>, j: int)
    requires
        all_digits(s),
        0 <= j <= s.len(),
    ensures
        digits_val(s.take(j)) <= digits_val(s),
    decreases s.len() - j,
{
    if j < s.len() {
        lemma_digits_val_take(s.drop_last(), j);
        assert(s.drop_last().take(j) =~= s.take(j));
        assert(forall|i: int|
            0 <= i < s.drop_last().len() ==> is_digit(#[trigger] s.drop_last()[i]));
        lemma_digits_val_bounds(s.drop_last());
        assert(is_digit(s.last()));
        assert(digits_val(s.drop_last()) * 10 >= digits_val(s.drop_last())) by (nonlinear_arith)
            requires
                digits_val(s.drop_last()) >= 0,
        ;
    } else {
        assert(s.take(j) =~= s);
    }
}

/// The millisecond value of a fractional-seconds digit string: its first
/// three digits, scaled as thousandths; digits past the third are truncated.
pub open spec fn frac_ms(fp: Seq<char>) -> int {
    if fp.len() >= 3 {
        digits_val(fp.take(3))
    } else if fp.len() == 2 {
        digits_val(fp) * 10
    } else if fp.len() == 1 {
        digits_val(fp) * 100
    } else {
        0
    }
}

/// The whole-millisecond reading of a decimal-seconds string: digits, at
/// most one decimal point, at least one digit in all. Anything else (signs,
/// exponents, a second point, the empty string) is rejected. Fractional
/// digits past the millisecond are truncated.
pub open spec fn spec_parse_seconds_ms(s: Seq<char>) -> Option<int> {
    let i = spec_find(s, '.');
    if i == -1 {
        if s.len() > 0 && all_digits(s) {
            Some(digits_val(s) * 1000)
        } else {
            None
        }
    } else {
        let ip = s.take(i);
        let fp = s.skip(i + 1);
        if all_digits(ip) && all_digits(fp) && ip.len() + fp.len() > 0 {
            Some(digits_val(ip) * 1000 + frac_ms(fp))
        } else {
            None
        }
    }
}

/// Whether `c` is a decimal digit.
pub fn is_digit_char(c: char) -> (r: bool)
    ensures
        r == is_digit(c),
{
    '0' <= c && c <= '9'
}

/// Whether every character of `s` is a decimal digit.
fn all_digits_str(s: &str) -> (r: bool)
    ensures
        r == all_digits(s@),
{
    let n = s.unicode_len();
    let mut i: usize = 0;
    while i < n
        invariant
            n == s@.len(),
            0 <= i <= n,
            forall|j: int| 0 <= j < i ==> is_digit(#[trigger] s@[j]),
        decreases n - i,
    {
        if !is_digit_char(s.get_char(i)) {
            return false;
        }
        i += 1;
    }
    true
}

/// The numeric value of a digit character.
fn digit_char_val(c: char) -> (r: u64)
    requires
        is_digit(c),
    ensures
        r as int == digit_val(c),
{
    (c as u32 as u64) - ('0' as u32 as u64)
}

/// Parses a digit string into a `u64`, detecting overflow.
fn parse_digits_u64(s: &str) -> (r: Option<u64>)
    requires
        all_digits(s@),
    ensures
        match r {
            Some(v) => v as int == digits_val(s@),
            None => digits_val(s@) > u64::MAX,
        },
{
    let n = s.unicode_len();
    let mut val: u64 = 0;
    let mut i: usize = 0;
    while i < n
        invariant
            n == s@.len(),
            all_digits(s@),
            0 <= i <= n,
            val as int == digits_val(s@.take(i as int)),
        decreases n - i,
    {
        let c = s.get_char(i);
        let d = digit_char_val(c);
        proof {
            assert(s@.take(i + 1).drop_last() =~= s@.take(i as int));
            assert(s@.take(i + 1).last() == s@[i as int]);
        }
        if val > (u64::MAX - d) / 10 {
            proof {
                assert(val as int * 10 + d as int > u64::MAX) by (nonlinear_arith)
                    requires
                        val as int > ((u64::MAX - d as int) / 10),
                        0 <= d as int <= 9,
                ;
                lemma_digits_val_take(s@, i + 1);
            }
            return None;
        }
        proof {
            assert(val as int * 10 + d as int <= u64::MAX) by (nonlinear_arith)
                requires
                    val as int <= ((u64::MAX - d as int) / 10),
                    0 <= d as int <= 9,
            ;
        }
        val = val * 10 + d;
        i += 1;
    }
    proof {
        assert(s@.take(n as int) =~= s@);
    }
    Some(val)
}

/// Parses a decimal-seconds string into whole milliseconds. Returns the
/// exact reading where it exists and fits; rejects malformed strings and
/// values past `u64::MAX` milliseconds.
pub fn parse_seconds_ms(s: &str) -> (r: Option<u64>)
    ensures
        spec_parse_seconds_ms(s@) is None ==> r is None,
        spec_parse_seconds_ms(s@) matches Some(v) ==> {
            &&& v >= 0
            &&& (v <= u64::MAX ==> r == Some(v as u64))
            &&& (v > u64::MAX ==> r is None)
        },
{
    proof {
        lemma_spec_find(s@, '.');
    }
    match split_once_char(s, '.') {
        None => {
            if s.unicode_len() == 0 {
                return None;
            }
            if !all_digits_str(s) {
                return None;
            }
            proof {
                lemma_digits_val_bounds(s@);
            }
            match parse_digits_u64(s) {
                None => None,
                Some(v) => {
                    if v > u64::MAX / 1000 {
                        proof {
                            assert(v as int * 1000 > u64::MAX) by (nonlinear_arith)
                                requires
                                    v as int > u64::MAX as int / 1000,
                            ;
                        }
                        None
                    } else {
                        proof {
                            assert(v as int * 1000 <= u64::MAX) by (nonlinear_arith)
                                requires
                                    0 <= v as int <= u64::MAX as int / 1000,
                            ;
                        }
                        Some(v * 1000)
                    }
                },
            }
        },
        Some((ip, fp)) => {
            if ip.unicode_len() == 0 && fp.unicode_len() == 0 {
                return None;
            }
            if !all_digits_str(ip.as_str()) {
                return None;
            }
            if !all_digits_str(fp.as_str()) {
                return None;
            }
            let frac = frac_ms_of(fp.as_str());
            proof {
                lemma_digits_val_bounds(ip@);
            }
            match parse_digits_u64(ip.as_str()) {
                None => None,
                Some(v) => {
                    if v > (u64::MAX - frac) / 1000 {
                        proof {
                            assert(v as int * 1000 + frac as int > u64::MAX) by (nonlinear_arith)
                                requires
                                    v as int > ((u64::MAX - frac as int) / 1000),
                                    0 <= frac as int <= 999,
                            ;
                        }
                        None
                    } else {
                        proof {
                            assert(v as int * 1000 + frac as int <= u64::MAX) by (nonlinear_arith)
                                requires
                                    v as int <= ((u64::MAX - frac as int) / 1000),
                                    0 <= frac as int <= 999,
                            ;
                        }
                        Some(v * 1000 + frac)
                    }
                },
            }
        },
    }
}

/// The millisecond value of a fractional-digits string.
fn frac_ms_of(fp: &str) -> (r: u64)
    requires
        all_digits(fp@),
    ensures
        r as int == frac_ms(fp@),
        r <= 999,
{
    proof {
        reveal_with_fuel(pow10, 4);
        assert(pow10(1) == 10);
        assert(pow10(2) == 100);
        assert(pow10(3) == 1000);
    }
    let n = fp.unicode_len();
    if n >= 3 {
        let head = fp.substring_char(0, 3);
        proof {
            assert(head@ =~= fp@.take(3));
            assert(forall|i: int| 0 <= i < head@.len() ==> is_digit(#[trigger] head@[i]));
            lemma_digits_val_bounds(head@);
        }
        match parse_digits_u64(head) {
            Some(v) => v,
            None => 0,
        }
    } else if n == 2 {
        proof {
            lemma_digits_val_bounds(fp@);
        }
        match parse_digits_u64(fp) {
            Some(v) => v * 10,
            None => 0,
        }
    } else if n == 1 {
        proof {
            lemma_digits_val_bounds(fp@);
        }
        match parse_digits_u64(fp) {
            Some(v) => v * 100,
            None => 0,
        }
    } else {
        0
    }
}

/// The percent-decoding of `s`, a pure function of its characters.
pub uninterp spec fn pct_decoded(s: Seq<char>) -> Seq<char>;

/// Relies on `url_escape::decode`: percent-decodes the string, replacing
/// each `%XX` escape by the bytes it names; the result depends on the input
/// characters alone.
#[verifier::external_body]
fn percent_decode(url: &str) -> (r: String)
    ensures
        r@ == pct_decoded(url@),
{
    url_escape::decode(url).into_owned()
}

/// Decodes an object key as the upload pipeline wrote it: percent-decodes
/// it and then reads each `+` as a space.
pub fn url_decode(url: &str) -> (r: String)
    ensures
        r@ == spec_replace(pct_decoded(url@), '+', ' '),
{
    let decoded = percent_decode(url);
    replace_char(decoded.as_str(), '+', ' ')
}

/// The title and language encoded in an uploaded video's file stem
/// `<title>.<lang>[.<more>]`: the part before the first dot and the part
/// between the first and second dots. A stem without a dot has no language
/// and is rejected.
pub open spec fn spec_video_filename(stem: Seq<char>) -> Option<(Seq<char>, Seq<char>)> {
    match spec_split_once(stem, '.') {
        None => None,
        Some((title, rest)) => Some((title, spec_prefix_before(rest, '.'))),
    }
}

/// Splits an uploaded video's file stem into its title and language parts.
pub fn parse_video_filename(stem: &str) -> (r: Option<(String, String)>)
    ensures
        match r {
            Some(p) => spec_video_filename(stem@) == Some((p.0@, p.1@)),
            None => spec_video_filename(stem@) is None,
        },
{
    match split_once_char(stem, '.') {
        None => None,
        Some((title, rest)) => {
            let lang = prefix_before(rest.as_str(), '.');
            Some((title, lang))
        },
    }
}

/// Whether a file extension names a supported video container: `mp4` or
/// `mov`, compared without regard to ASCII letter case.
pub open spec fn is_supported_ext(s: Seq<char>) -> bool {
    s.len() == 3 && (s[0] == 'm' || s[0] == 'M') && ((s[1] == 'p' || s[1] == 'P') && s[2] == '4' || (
    s[1] == 'o' || s[1] == 'O') && (s[2] == 'v' || s[2] == 'V'))
}

/// Whether `ext` is a supported video container extension.
pub fn is_supported_video_ext(ext: &str) -> (r: bool)
    ensures
        r == is_supported_ext(ext@),
{
    if ext.unicode_len() != 3 {
        return false;
    }
    let c0 = ext.get_char(0);
    let c1 = ext.get_char(1);
    let c2 = ext.get_char(2);
    (c0 == 'm' || c0 == 'M') && ((c1 == 'p' || c1 == 'P') && c2 == '4' || (c1 == 'o' || c1 == 'O')
        && (c2 == 'v' || c2 == 'V'))
}

} // verus!
