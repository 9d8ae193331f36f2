use vstd::prelude::*;

use crate::timestamp::{days_in_month, Timestamp};

verus! {

/// Decimal digit characters and their values.
pub open spec fn is_digit(c: char) -> bool {
    48 <= c as int && c as int <= 57
}

pub open spec fn dval(c: char) -> int {
    c as int - 48
}

pub open spec fn digit_char(d: int) -> char {
    if d == 0 {
        '0'
    } else if d == 1 {
        '1'
    } else if d == 2 {
        '2'
    } else if d == 3 {
        '3'
    } else if d == 4 {
        '4'
    } else if d == 5 {
        '5'
    } else if d == 6 {
        '6'
    } else if d == 7 {
        '7'
    } else if d == 8 {
        '8'
    } else {
        '9'
    }
}

/// Value of the two-digit group at position `i`.
pub open spec fn d2(s: Seq<char>, i: int) -> int {
    dval(s[i]) * 10 + dval(s[i + 1])
}

/// Value of the four-digit group at position `i`.
pub open spec fn d4(s: Seq<char>, i: int) -> int {
    d2(s, i) * 100 + d2(s, i + 2)
}

/// Value of the digit run `s[i .. i + len)`.
pub open spec fn digits_val(s: Seq<char>, i: int, len: int) -> int
    decreases len,
{
    if len <= 0 {
        0
    } else {
        digits_val(s, i, len - 1) * 10 + dval(s[i + len - 1])
    }
}

pub open spec fn all_digits(s: Seq<char>, i: int, j: int) -> bool {
    forall|k: int| i <= k < j ==> is_digit(#[trigger] s[k])
}

pub open spec fn pow10(k: nat) -> int
    decreases k,
{
    if k == 0 {
        1
    } else {
        10 * pow10((k - 1) as nat)
    }
}

pub proof fn lemma_pow10_pos(k: nat)
    ensures
        pow10(k) >= 1,
    decreases k,
{
    if k > 0 {
        lemma_pow10_pos((k - 1) as nat);
    }
}

pub proof fn lemma_pow10_mono(a: nat, b: nat)
    requires
        a <= b,
    ensures
        pow10(a) <= pow10(b),
    decreases b,
{
    lemma_pow10_pos(a);
    if a < b {
        lemma_pow10_mono(a, (b - 1) as nat);
    }
}

/// The accepted text form of a timestamp: `YYYY-MM-DDTHH:MM:SS`, optionally
/// followed by a dot and one to nine fractional-second digits.
pub open spec fn shape_ok(s: Seq<char>) -> bool {
    &&& (s.len() == 19 || (21 <= s.len() <= 29 && s[19] == '.' && all_digits(s, 20, s.len() as int)))
    &&& all_digits(s, 0, 4)
    &&& s[4] == '-'
    &&& all_digits(s, 5, 7)
    &&& s[7] == '-'
    &&& all_digits(s, 8, 10)
    &&& s[10] == 'T'
    &&& all_digits(s, 11, 13)
    &&& s[13] == ':'
    &&& all_digits(s, 14, 16)
    &&& s[16] == ':'
    &&& all_digits(s, 17, 19)
}

/// The fractional digits scaled to nanoseconds.
pub open spec fn nanos_of(s: Seq<char>) -> int {
    if s.len() == 19 {
        0
    } else {
        digits_val(s, 20, s.len() - 20) * pow10((9 - (s.len() - 20)) as nat)
    }
}

/// The timestamp spelled by a well-shaped string.
pub open spec fn ts_of(s: Seq<char>) -> Timestamp {
    Timestamp {
        year: d4(s, 0) as u32,
        month: d2(s, 5) as u32,
        day: d2(s, 8) as u32,
        hour: d2(s, 11) as u32,
        minute: d2(s, 14) as u32,
        second: d2(s, 17) as u32,
        nanos: nanos_of(s) as u32,
    }
}

/// What parsing a `start`/`end` query parameter yields: the spelled timestamp
/// when the text has the accepted shape and names a real calendar date and
/// time, nothing otherwise.
pub open spec fn parse_ts(s: Seq<char>) -> Option<Timestamp> {
    if shape_ok(s) && ts_of(s).wf() {
        Some(ts_of(s))
    } else {
        None
    }
}

/// Reads the digit at position `i`, if there is one.
fn digit_at(s: &str, i: usize) -> (r: Option<u32>)
    requires
        i < s@.len(),
    ensures
        match r {
            Some(d) => is_digit(s@[i as int]) && d == dval(s@[i as int]),
            None => !is_digit(s@[i as int]),
        },
{
    let c = s.get_char(i);
    let u = c as u32;
    if 48 <= u && u <= 57 {
        Some(u - 48)
    } else {
        None
    }
}

/// Reads the two-digit group at position `i`, if both are digits.
fn d2_at(s: &str, i: usize) -> (r: Option<u32>)
    requires
        i < usize::MAX,
        i + 1 < s@.len(),
    ensures
        match r {
            Some(d) => is_digit(s@[i as int]) && is_digit(s@[i as int + 1]) && d == d2(
                s@,
                i as int,
            ),
            None => !(is_digit(s@[i as int]) && is_digit(s@[i as int + 1])),
        },
{
    match (digit_at(s, i), digit_at(s, i + 1)) {
        (Some(a), Some(b)) => Some(a * 10 + b),
        _ => None,
    }
}

pub fn days_in_month_exec(y: u32, m: u32) -> (r: u32)
    ensures
        r as int == days_in_month(y as int, m as int),
{
    if m == 2 {
        if y % 4 == 0 && (y % 100 != 0 || y % 400 == 0) {
            29
        } else {
            28
        }
    } else if m == 4 || m == 6 || m == 9 || m == 11 {
        30
    } else {
        31
    }
}

/// Parses a timestamp from its text form; returns nothing when the text does
/// not have the accepted shape or names no real calendar date and time.
pub fn parse_timestamp(s: &str) -> (r: Option<Timestamp>)
    ensures
        r == parse_ts(s@),
{
    let n = s.unicode_len();
    if !(n == 19 || (21 <= n && n <= 29)) {
        return None;
    }
    if s.get_char(4) != '-' || s.get_char(7) != '-' || s.get_char(10) != 'T' || s.get_char(13)
        != ':' || s.get_char(16) != ':' {
        return None;
    }
    let year_hi = match d2_at(s, 0) {
        Some(v) => v,
        None => {
            return None;
        },
    };
    let year_lo = match d2_at(s, 2) {
        Some(v) => v,
        None => {
            return None;
        },
    };
    let month = match d2_at(s, 5) {
        Some(v) => v,
        None => {
            return None;
        },
    };
    let day = match d2_at(s, 8) {
        Some(v) => v,
        None => {
            return None;
        },
    };
    let hour = match d2_at(s, 11) {
        Some(v) => v,
        None => {
            return None;
        },
    };
    let minute = match d2_at(s, 14) {
        Some(v) => v,
        None => {
            return None;
        },
    };
    let second = match d2_at(s, 17) {
        Some(v) => v,
        None => {
            return None;
        },
    };
    let year = year_hi * 100 + year_lo;
    let mut nanos: u32 = 0;
    if n > 19 {
        if s.get_char(19) != '.' {
            return None;
        }
        let mut i: usize = 20;
        let mut v: u32 = 0;
        proof {
            lemma_pow10_mono(0nat, 8nat);
        }
        while i < n
            invariant
                20 <= i <= n <= 29,
                n == s@.len(),
                all_digits(s@, 20, i as int),
                v as int == digits_val(s@, 20, i as int - 20),
                (v as int) < pow10((i - 20) as nat),
            decreases n - i,
        {
            proof {
                lemma_pow10_mono((i - 20) as nat, 8nat);
                assert(pow10(8nat) == 100000000) by {
                    reveal_with_fuel(pow10, 10);
                }
            }
            let d = match digit_at(s, i) {
                Some(d) => d,
                None => {
                    return None;
                },
            };
            v = v * 10 + d;
            i = i + 1;
        }
        let mut digs: usize = n - 20;
        let ghost f: int = n as int - 20;
        proof {
            assert(pow10((digs - f) as nat) == 1);
            vstd::arithmetic::mul::lemma_mul_basics(digits_val(s@, 20, f));
        }
        while digs < 9
            invariant
                f <= digs <= 9,
                1 <= f <= 9,
                v as int == digits_val(s@, 20, f) * pow10((digs - f) as nat),
                (v as int) < pow10(digs as nat),
            decreases 9 - digs,
        {
            proof {
                lemma_pow10_mono(digs as nat, 8nat);
                assert(pow10(8nat) == 100000000) by {
                    reveal_with_fuel(pow10, 10);
                }
                let dv = digits_val(s@, 20, f);
                let p = pow10((digs - f) as nat);
                assert(pow10((digs + 1 - f) as nat) == 10 * p);
                assert(dv * (10 * p) == (dv * p) * 10) by (nonlinear_arith);
            }
            v = v * 10;
            digs = digs + 1;
        }
        nanos = v;
        proof {
            assert(pow10(9nat) == 1000000000) by {
                reveal_with_fuel(pow10, 10);
            }
            assert(nanos as int == nanos_of(s@));
            assert(nanos <= 999_999_999);
        }
    }
    let t = Timestamp { year, month, day, hour, minute, second, nanos };
    if !(1 <= month && month <= 12) {
        return None;
    }
    if !(1 <= day && day <= days_in_month_exec(year, month)) {
        return None;
    }
    if !(hour <= 23 && minute <= 59 && second <= 59) {
        return None;
    }
    proof {
        assert(all_digits(s@, 0, 4)) by {
            assert(is_digit(s@[0]) && is_digit(s@[1]) && is_digit(s@[2]) && is_digit(s@[3]));
        }
        assert(shape_ok(s@));
        assert(year as int == d4(s@, 0));
        assert(t == ts_of(s@));
        assert(t.wf());
    }
    Some(t)
}

/// `n % 10^width` written with exactly `width` digits, leading zeros kept.
pub open spec fn pad(n: int, width: nat) -> Seq<char>
    decreases width,
{
    if width == 0 {
        Seq::empty()
    } else {
        pad(n / 10, (width - 1) as nat).push(digit_char(n % 10))
    }
}

/// The fractional part of the text form: absent for zero nanoseconds, else a
/// dot and the shortest of three, six or nine digits that spells them
/// exactly.
pub open spec fn frac_chars(nanos: int) -> Seq<char> {
    if nanos == 0 {
        Seq::empty()
    } else if nanos % 1000000 == 0 {
        seq!['.'] + pad(nanos / 1000000, 3)
    } else if nanos % 1000 == 0 {
        seq!['.'] + pad(nanos / 1000, 6)
    } else {
        seq!['.'] + pad(nanos, 9)
    }
}

/// The text form of a timestamp: `YYYY-MM-DDTHH:MM:SS` plus the fractional
/// part.
pub open spec fn fmt_ts(t: Timestamp) -> Seq<char> {
    pad(t.year as int, 4) + seq!['-'] + pad(t.month as int, 2) + seq!['-'] + pad(t.day as int, 2)
        + seq!['T'] + pad(t.hour as int, 2) + seq![':'] + pad(t.minute as int, 2) + seq![':'] + pad(
        t.second as int,
        2,
    ) + frac_chars(t.nanos as int)
}

fn digit_char_exec(d: u32) -> (c: char)
    requires
        d < 10,
    ensures
        c == digit_char(d as int),
{
    if d == 0 {
        '0'
    } else if d == 1 {
        '1'
    } else if d == 2 {
        '2'
    } else if d == 3 {
        '3'
    } else if d == 4 {
        '4'
    } else if d == 5 {
        '5'
    } else if d == 6 {
        '6'
    } else if d == 7 {
        '7'
    } else if d == 8 {
        '8'
    } else {
        '9'
    }
}

/// Appends `n` in decimal with exactly `width` digits, leading zeros kept.
pub fn push_pad(out: &mut Vec<char>, n: u32, width: usize)
    ensures
        final (out)@ == old(out)@ + pad(n as int, width as nat),
    decreases width,
{
    if width == 0 {
        proof {
            assert(final (out)@ =~= old(out)@ + pad(n as int, 0nat));
        }
    } else {
        push_pad(out, n / 10, width - 1);
        out.push(digit_char_exec(n % 10));
        proof {
            assert(final (out)@ =~= old(out)@ + pad(n as int, width as nat));
        }
    }
}

/// Appends the text form of a timestamp.
pub fn push_timestamp(out: &mut Vec<char>, t: &Timestamp)
    ensures
        final (out)@ == old(out)@ + fmt_ts(*t),
{
    push_pad(out, t.year, 4);
    out.push('-');
    push_pad(out, t.month, 2);
    out.push('-');
    push_pad(out, t.day, 2);
    out.push('T');
    push_pad(out, t.hour, 2);
    out.push(':');
    push_pad(out, t.minute, 2);
    out.push(':');
    push_pad(out, t.second, 2);
    if t.nanos != 0 {
        out.push('.');
        if t.nanos % 1000000 == 0 {
            push_pad(out, t.nanos / 1000000, 3);
        } else if t.nanos % 1000 == 0 {
            push_pad(out, t.nanos / 1000, 6);
        } else {
            push_pad(out, t.nanos, 9);
        }
    }
    proof {
        assert(final (out)@ =~= old(out)@ + fmt_ts(*t));
    }
}

} // verus!
