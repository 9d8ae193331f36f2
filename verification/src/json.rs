use vstd::prelude::*;

use crate::records::Utilization;
use crate::time_text::{digit_char, fmt_ts, push_timestamp};

verus! {

/// Decimal digits of a non-negative number, no leading zeros.
pub open spec fn dec_chars(n: nat) -> Seq<char>
    decreases n,
{
    if n < 10 {
        seq![digit_char(n as int)]
    } else {
        dec_chars(n / 10).push(digit_char((n % 10) as int))
    }
}

/// Decimal form of a signed number: a minus sign, then the digits of its
/// magnitude.
pub open spec fn int_chars(v: int) -> Seq<char> {
    if v < 0 {
        seq!['-'] + dec_chars((-v) as nat)
    } else {
        dec_chars(v as nat)
    }
}

/// The JSON object for one record:
/// `{"time":"<timestamp>","allocated":<n>,"total":<n>}`.
pub open spec fn record_chars(u: Utilization) -> Seq<char> {
    seq!['{', '"', 't', 'i', 'm', 'e', '"', ':', '"'] + fmt_ts(u.time) + seq![
        '"',
        ',',
        '"',
        'a',
        'l',
        'l',
        'o',
        'c',
        'a',
        't',
        'e',
        'd',
        '"',
        ':',
    ] + int_chars(u.allocated as int) + seq![',', '"', 't', 'o', 't', 'a', 'l', '"', ':']
        + int_chars(u.total as int) + seq!['}']
}

/// The comma-separated objects between the brackets.
pub open spec fn items_chars(s: Seq<Utilization>) -> Seq<char>
    decreases s.len(),
{
    if s.len() == 0 {
        Seq::empty()
    } else if s.len() == 1 {
        record_chars(s[0])
    } else {
        items_chars(s.drop_last()) + seq![','] + record_chars(s.last())
    }
}

/// The whole response body: a JSON array of the records in order; `[]` when
/// there are none.
pub open spec fn json_chars(s: Seq<Utilization>) -> Seq<char> {
    seq!['['] + items_chars(s) + seq![']']
}

fn digit_char_exec(d: u32) -> (c: char)
    requires
        d < 10,
    ensures
        c == digit_char(d as int),
{
    if d == 0 {
        '0'
    } else if d == 1 {
        '1'
    } else if d == 2 {
        '2'
    } else if d == 3 {
        '3'
    } else if d == 4 {
        '4'
    } else if d == 5 {
        '5'
    } else if d == 6 {
        '6'
    } else if d == 7 {
        '7'
    } else if d == 8 {
        '8'
    } else {
        '9'
    }
}

/// Appends the decimal digits of a non-negative number.
fn push_dec(out: &mut Vec<char>, n: u32)
    ensures
        final (out)@ == old(out)@ + dec_chars(n as nat),
    decreases n,
{
    if n < 10 {
        out.push(digit_char_exec(n));
        proof {
            assert(final (out)@ =~= old(out)@ + dec_chars(n as nat));
        }
    } else {
        push_dec(out, n / 10);
        out.push(digit_char_exec(n % 10));
        proof {
            assert(final (out)@ =~= old(out)@ + dec_chars(n as nat));
        }
    }
}

/// Appends the decimal form of a signed number.
fn push_int(out: &mut Vec<char>, v: i32)
    ensures
        final (out)@ == old(out)@ + int_chars(v as int),
{
    if v < 0 {
        out.push('-');
        let mag: u32 = (-(v as i64)) as u32;
        push_dec(out, mag);
        proof {
            assert(final (out)@ =~= old(out)@ + int_chars(v as int));
        }
    } else {
        push_dec(out, v as u32);
    }
}

/// Appends the JSON object for one record.
#[verifier::rlimit(60)]
#[verifier::spinoff_prover]
fn push_record(out: &mut Vec<char>, u: &Utilization)
    ensures
        final (out)@ == old(out)@ + record_chars(*u),
{
    let ghost base = old(out)@;
    out.push('{');
    out.push('"');
    out.push('t');
    out.push('i');
    out.push('m');
    out.push('e');
    out.push('"');
    out.push(':');
    out.push('"');
    proof {
        assert(out@ =~= base + seq!['{', '"', 't', 'i', 'm', 'e', '"', ':', '"']);
    }
    push_timestamp(out, &u.time);
    let ghost c1 = out@;
    out.push('"');
    out.push(',');
    out.push('"');
    out.push('a');
    out.push('l');
    out.push('l');
    out.push('o');
    out.push('c');
    out.push('a');
    out.push('t');
    out.push('e');
    out.push('d');
    out.push('"');
    out.push(':');
    proof {
        assert(out@ =~= c1 + seq![
            '"',
            ',',
            '"',
            'a',
            'l',
            'l',
            'o',
            'c',
            'a',
            't',
            'e',
            'd',
            '"',
            ':',
        ]);
    }
    push_int(out, u.allocated);
    let ghost c2 = out@;
    out.push(',');
    out.push('"');
    out.push('t');
    out.push('o');
    out.push('t');
    out.push('a');
    out.push('l');
    out.push('"');
    out.push(':');
    proof {
        assert(out@ =~= c2 + seq![',', '"', 't', 'o', 't', 'a', 'l', '"', ':']);
    }
    push_int(out, u.total);
    out.push('}');
    proof {
        assert(final (out)@ =~= old(out)@ + record_chars(*u));
    }
}

/// Renders the records as a JSON array, in order.
pub fn render_json(rows: &Vec<Utilization>) -> (out: Vec<char>)
    ensures
        out@ == json_chars(rows@),
{
    let mut out: Vec<char> = Vec::new();
    out.push('[');
    let mut i: usize = 0;
    proof {
        assert(out@ =~= seq!['['] + items_chars(rows@.take(0int)));
    }
    while i < rows.len()
        invariant
            i <= rows.len(),
            out@ == seq!['['] + items_chars(rows@.take(i as int)),
        decreases rows.len() - i,
    {
        proof {
            assert(rows@.take(i as int + 1).drop_last() =~= rows@.take(i as int));
            assert(rows@.take(i as int + 1).last() == rows@[i as int]);
        }
        if i > 0 {
            out.push(',');
        }
        push_record(&mut out, &rows[i]);
        proof {
            assert(out@ =~= seq!['['] + items_chars(rows@.take(i as int + 1)));
        }
        i = i + 1;
    }
    out.push(']');
    proof {
        assert(rows@.take(rows@.len() as int) =~= rows@);
        assert(out@ =~= json_chars(rows@));
    }
    out
}

} // verus!
