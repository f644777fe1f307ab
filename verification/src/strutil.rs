//! Small verified string helpers shared by the formatting and parsing code.
//!
//! All specifications speak about `Seq<char>` views of `str` and `String`.

use vstd::prelude::*;

verus! {

/// Relies on `String::push`: appends exactly one character at the end.
pub assume_specification[ String::push ](s: &mut String, c: char)
    ensures
        final(s)@ == old(s)@.push(c),
;

/// Character sequence of the decimal digits of `n`, most significant first.
pub open spec fn spec_u64_string(n: u64) -> Seq<char>
    decreases n,
{
    if n < 10 {
        seq![digit_char(n as int)]
    } else {
        spec_u64_string(n / 10).push(digit_char((n % 10) as int))
    }
}

/// The character for one decimal digit value.
pub open spec fn digit_char(d: int) -> char {
    if d == 0 { '0' }
    else if d == 1 { '1' }
    else if d == 2 { '2' }
    else if d == 3 { '3' }
    else if d == 4 { '4' }
    else if d == 5 { '5' }
    else if d == 6 { '6' }
    else if d == 7 { '7' }
    else if d == 8 { '8' }
    else { '9' }
}

/// The digit value of a decimal digit character.
pub open spec fn char_digit(c: char) -> int {
    c as int - '0' as int
}

/// Whether `c` is an ASCII decimal digit.
pub open spec fn is_digit_char(c: char) -> bool {
    '0' as int <= c as int <= '9' as int
}

pub fn digit_to_char(d: u8) -> (c: char)
    requires
        d < 10,
    ensures
        c == digit_char(d as int),
{
    match d {
        0 => '0',
        1 => '1',
        2 => '2',
        3 => '3',
        4 => '4',
        5 => '5',
        6 => '6',
        7 => '7',
        8 => '8',
        _ => '9',
    }
}

pub fn char_to_digit(c: char) -> (d: Option<u8>)
    ensures
        d is Some <==> is_digit_char(c),
        d is Some ==> d->0 < 10 && d->0 as int == char_digit(c),
{
    match c {
        '0' => Some(0),
        '1' => Some(1),
        '2' => Some(2),
        '3' => Some(3),
        '4' => Some(4),
        '5' => Some(5),
        '6' => Some(6),
        '7' => Some(7),
        '8' => Some(8),
        '9' => Some(9),
        _ => None,
    }
}

/// Appends the decimal digits of `n` to `out`.
pub fn push_u64(out: &mut String, n: u64)
    ensures
        final(out)@ == old(out)@ + spec_u64_string(n),
    decreases n,
{
    if n < 10 {
        out.push(digit_to_char(n as u8));
        assert(final(out)@ =~= old(out)@ + spec_u64_string(n));
    } else {
        push_u64(out, n / 10);
        out.push(digit_to_char((n % 10) as u8));
        assert(final(out)@ =~= old(out)@ + spec_u64_string(n));
    }
}

/// Character-wise string equality; the result reflects view equality.
pub fn str_eq(a: &str, b: &str) -> (r: bool)
    ensures
        r == (a@ == b@),
{
    let alen = a.unicode_len();
    let blen = b.unicode_len();
    if alen != blen {
        assert(a@.len() != b@.len());
        return false;
    }
    let mut i: usize = 0;
    while i < alen
        invariant
            i <= alen,
            alen == a@.len(),
            alen == b@.len(),
            forall|j: int| 0 <= j < i ==> a@[j] == b@[j],
        decreases alen - i,
    {
        if a.get_char(i) != b.get_char(i) {
            return false;
        }
        i += 1;
    }
    proof {
        assert(a@ =~= b@);
    }
    true
}

} // verus!
