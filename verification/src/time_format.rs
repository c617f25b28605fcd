//! Rendering a timestamp as an `HH:MM:SS,mmm` subtitle time. The caller
//! supplies milliseconds; the millisecond field is floored to a multiple of
//! ten before rendering.
use vstd::prelude::*;

verus! {

/// The decimal digit character for `d` in `0..10`.
pub open spec fn digit_char(d: int) -> char {
    if d == 0 {
        '0'
    } else if d == 1 {
        '1'
    } else if d == 2 {
        '2'
    } else if d == 3 {
        '3'
    } else if d == 4 {
        '4'
    } else if d == 5 {
        '5'
    } else if d == 6 {
        '6'
    } else if d == 7 {
        '7'
    } else if d == 8 {
        '8'
    } else {
        '9'
    }
}

/// `n` in `0..100` as two decimal digits, zero-padded.
pub open spec fn two_digits(n: int) -> Seq<char> {
    seq![digit_char(n / 10), digit_char(n % 10)]
}

/// `n` in `0..1000` as three decimal digits, zero-padded.
pub open spec fn three_digits(n: int) -> Seq<char> {
    seq![digit_char(n / 100), digit_char((n / 10) % 10), digit_char(n % 10)]
}

/// `n` as decimal digits without padding.
pub open spec fn dec_digits(n: int) -> Seq<char>
    decreases n,
{
    if n < 10 {
        seq![digit_char(n)]
    } else {
        dec_digits(n / 10).push(digit_char(n % 10))
    }
}

/// The hour field: zero-padded to two digits, wider when the value needs it.
pub open spec fn hour_digits(h: int) -> Seq<char> {
    if h < 10 {
        seq!['0', digit_char(h)]
    } else {
        dec_digits(h)
    }
}

/// A timestamp in milliseconds rendered as `HH:MM:SS,mmm`: hours, minutes
/// and seconds by integer division and modulo, and the millisecond field
/// floored down to its nearest multiple of ten.
pub open spec fn format_time_spec(ms: int) -> Seq<char> {
    let h = ms / 3600000;
    let m = (ms % 3600000) / 60000;
    let s = (ms % 60000) / 1000;
    let c = (ms % 1000) / 10 * 10;
    hour_digits(h) + seq![':'] + two_digits(m) + seq![':'] + two_digits(s) + seq![',']
        + three_digits(c)
}

fn digit_char_of(d: u64) -> (c: char)
    requires
        d < 10,
    ensures
        c == digit_char(d as int),
{
    if d == 0 {
        '0'
    } else if d == 1 {
        '1'
    } else if d == 2 {
        '2'
    } else if d == 3 {
        '3'
    } else if d == 4 {
        '4'
    } else if d == 5 {
        '5'
    } else if d == 6 {
        '6'
    } else if d == 7 {
        '7'
    } else if d == 8 {
        '8'
    } else {
        '9'
    }
}

fn push_dec_digits(n: u64, out: &mut Vec<char>)
    ensures
        final(out)@ == old(out)@ + dec_digits(n as int),
    decreases n,
{
    if n < 10 {
        out.push(digit_char_of(n));
    } else {
        push_dec_digits(n / 10, out);
        out.push(digit_char_of(n % 10));
    }
}

fn push_two_digits(n: u64, out: &mut Vec<char>)
    requires
        n < 100,
    ensures
        final(out)@ == old(out)@ + two_digits(n as int),
{
    out.push(digit_char_of(n / 10));
    out.push(digit_char_of(n % 10));
}

/// Renders `ms` milliseconds as `HH:MM:SS,mmm`, the millisecond field
/// floored to a multiple of ten.
pub fn format_time(ms: u64) -> (r: Vec<char>)
    ensures
        r@ == format_time_spec(ms as int),
{
    let h = ms / 3600000;
    let m = (ms % 3600000) / 60000;
    let s = (ms % 60000) / 1000;
    let c = ms % 1000 / 10 * 10;
    let mut out: Vec<char> = Vec::new();
    if h < 10 {
        out.push('0');
        out.push(digit_char_of(h));
    } else {
        push_dec_digits(h, &mut out);
    }
    out.push(':');
    push_two_digits(m, &mut out);
    out.push(':');
    push_two_digits(s, &mut out);
    out.push(',');
    out.push(digit_char_of(c / 100));
    out.push(digit_char_of(c / 10 % 10));
    out.push(digit_char_of(c % 10));
    proof {
        assert(out@ =~= format_time_spec(ms as int));
    }
    out
}

} // verus!
