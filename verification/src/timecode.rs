//! Time codec: renders a non-negative timestamp, held as whole milliseconds,
//! as the fixed-width `HH:MM:SS<sep>mmm` label used by the subtitle formats
//! (`,` for SRT, `.` for WebVTT) and by the search-index body lines.

use vstd::prelude::*;

verus! {

/// The decimal digit character for `d`.
pub open spec fn digit_char(d: int) -> char {
    if d == 0 {
        '0'
    } else if d == 1 {
        '1'
    } else if d == 2 {
        '2'
    } else if d == 3 {
        '3'
    } else if d == 4 {
        '4'
    } else if d == 5 {
        '5'
    } else if d == 6 {
        '6'
    } else if d == 7 {
        '7'
    } else if d == 8 {
        '8'
    } else {
        '9'
    }
}

/// The decimal rendering of `n >= 0`, without padding.
pub open spec fn spec_dec(n: int) -> Seq<char>
    decreases n,
{
    if n < 10 {
        seq![digit_char(n)]
    } else {
        spec_dec(n / 10).push(digit_char(n % 10))
    }
}

/// Decimal rendering of `n`, zero-padded to at least two digits.
pub open spec fn spec_pad2(n: int) -> Seq<char> {
    if n < 10 {
        seq!['0'] + spec_dec(n)
    } else {
        spec_dec(n)
    }
}

/// Decimal rendering of `n`, zero-padded to at least three digits.
pub open spec fn spec_pad3(n: int) -> Seq<char> {
    if n < 100 {
        seq!['0'] + spec_pad2(n)
    } else {
        spec_dec(n)
    }
}

/// The `HH:MM:SS<sep>mmm` label of a timestamp of `ms` milliseconds.
/// Hours are not bounded: a timestamp past a day renders with as many
/// hour digits as it needs, never wrapping around.
pub open spec fn spec_time_label(ms: int, sep: Seq<char>) -> Seq<char> {
    spec_pad2(ms / 3600000) + seq![':'] + spec_pad2((ms / 60000) % 60) + seq![':'] + spec_pad2(
        (ms / 1000) % 60,
    ) + sep + spec_pad3(ms % 1000)
}

/// The one-character string slice for the digit `d`.
fn digit_str(d: u64) -> (s: &'static str)
    requires
        d < 10,
    ensures
        s@ =~= seq![digit_char(d as int)],
{
    proof {
        reveal_strlit("0");
        reveal_strlit("1");
        reveal_strlit("2");
        reveal_strlit("3");
        reveal_strlit("4");
        reveal_strlit("5");
        reveal_strlit("6");
        reveal_strlit("7");
        reveal_strlit("8");
        reveal_strlit("9");
    }
    if d == 0 {
        "0"
    } else if d == 1 {
        "1"
    } else if d == 2 {
        "2"
    } else if d == 3 {
        "3"
    } else if d == 4 {
        "4"
    } else if d == 5 {
        "5"
    } else if d == 6 {
        "6"
    } else if d == 7 {
        "7"
    } else if d == 8 {
        "8"
    } else {
        "9"
    }
}

/// Renders `n` in decimal, without padding.
pub fn dec_string(n: u64) -> (s: String)
    ensures
        s@ == spec_dec(n as int),
    decreases n,
{
    if n < 10 {
        String::from_str(digit_str(n))
    } else {
        assert(n as int / 10 < n as int && n as int / 10 >= 1) by (nonlinear_arith)
            requires
                n >= 10,
        ;
        let mut s = dec_string(n / 10);
        s.append(digit_str(n % 10));
        proof {
            assert(s@ =~= spec_dec(n as int));
        }
        s
    }
}

/// Renders `n` in decimal, zero-padded to at least two digits.
pub fn pad2_string(n: u64) -> (s: String)
    ensures
        s@ == spec_pad2(n as int),
{
    if n < 10 {
        let mut s = String::from_str(digit_str(0));
        s.append(digit_str(n));
        proof {
            assert(s@ =~= spec_pad2(n as int));
        }
        s
    } else {
        dec_string(n)
    }
}

/// Renders `n` in decimal, zero-padded to at least three digits.
pub fn pad3_string(n: u64) -> (s: String)
    ensures
        s@ == spec_pad3(n as int),
{
    if n < 100 {
        let mut s = String::from_str(digit_str(0));
        let rest = pad2_string(n);
        s.append(rest.as_str());
        proof {
            assert(s@ =~= spec_pad3(n as int));
        }
        s
    } else {
        dec_string(n)
    }
}

/// Renders the timestamp `ms` (whole milliseconds) as `HH:MM:SS<sep>mmm`,
/// decomposing by integer division: hours, then minutes, then seconds,
/// then the millisecond remainder, each zero-padded.
pub fn time_format(ms: u64, sep: &str) -> (s: String)
    ensures
        s@ == spec_time_label(ms as int, sep@),
{
    proof {
        reveal_strlit(":");
    }
    let h = ms / 3600000;
    let m = (ms / 60000) % 60;
    let sec = (ms / 1000) % 60;
    let milli = ms % 1000;
    let mut s = pad2_string(h);
    s.append(":");
    let ms_part = pad2_string(m);
    s.append(ms_part.as_str());
    s.append(":");
    let sec_part = pad2_string(sec);
    s.append(sec_part.as_str());
    s.append(sep);
    let milli_part = pad3_string(milli);
    s.append(milli_part.as_str());
    proof {
        assert(":"@ =~= seq![':']);
        assert(s@ =~= spec_time_label(ms as int, sep@));
    }
    s
}

} // verus!
