//! Sensor value formatting: fixed-point presentation of decimal number
//! strings with an integer-digit policy, a decimal-digit count and a unit
//! suffix.
//!
//! Numbers are handled as exact decimal digit sequences, so rounding and the
//! carry into the integer part are specified and proved digit by digit.

use vstd::prelude::*;

use crate::strutil::{char_digit, char_to_digit, digit_char, digit_to_char, is_digit_char};

verus! {

/// Policy for the integer part of a formatted value.
#[derive(Debug, Clone, Copy, PartialEq, Eq, Structural)]
pub enum IntegerDigits {
    /// Keep all integer digits.
    Auto,
    /// Only keep the decimal part of a number.
    Zero,
    /// Limit the integer part to the given width, zero-padded, with a
    /// run of `9` digits as the overflow marker.
    Fixed(usize),
}

impl From<i32> for IntegerDigits {
    /// Numeric encoding used by the configuration format: `-1` keeps the
    /// natural width, `0` drops the integer part, positive values fix it.
    fn from(value: i32) -> (r: Self) {
        if value == 0 {
            IntegerDigits::Zero
        } else if value > 0 {
            IntegerDigits::Fixed(value as usize)
        } else {
            IntegerDigits::Auto
        }
    }
}

impl vstd::std_specs::convert::FromSpecImpl<i32> for IntegerDigits {
    open spec fn obeys_from_spec() -> bool {
        true
    }

    open spec fn from_spec(value: i32) -> Self {
        if value == 0 {
            IntegerDigits::Zero
        } else if value > 0 {
            IntegerDigits::Fixed(value as usize)
        } else {
            IntegerDigits::Auto
        }
    }
}

impl From<Option<i32>> for IntegerDigits {
    /// An absent configuration value keeps the natural width.
    fn from(value: Option<i32>) -> (r: Self) {
        match value {
            None => IntegerDigits::Auto,
            Some(digits) => IntegerDigits::from(digits),
        }
    }
}

impl vstd::std_specs::convert::FromSpecImpl<Option<i32>> for IntegerDigits {
    open spec fn obeys_from_spec() -> bool {
        true
    }

    open spec fn from_spec(value: Option<i32>) -> Self {
        match value {
            None => IntegerDigits::Auto,
            Some(digits) => <IntegerDigits as vstd::std_specs::convert::FromSpec<i32>>::from_spec(
                digits,
            ),
        }
    }
}

/// Sign and remaining characters after an optional leading `-` or `+`.
pub open spec fn spec_strip_sign(s: Seq<char>) -> (bool, Seq<char>) {
    if s.len() > 0 && s[0] == '-' {
        (true, s.skip(1))
    } else if s.len() > 0 && s[0] == '+' {
        (false, s.skip(1))
    } else {
        (false, s)
    }
}

/// Whether every character is an ASCII decimal digit.
pub open spec fn all_digits(s: Seq<char>) -> bool {
    forall|i: int| 0 <= i < s.len() ==> is_digit_char(#[trigger] s[i])
}

/// Position of the first `.` character, if any.
pub open spec fn dot_pos(s: Seq<char>) -> Option<int>
    decreases s.len(),
{
    if s.len() == 0 {
        None
    } else if s[0] == '.' {
        Some(0int)
    } else {
        match dot_pos(s.skip(1)) {
            Some(i) => Some(i + 1),
            None => None,
        }
    }
}

/// A value string parses when, after an optional sign, it consists of
/// decimal digits with at most one decimal point and at least one digit.
pub open spec fn spec_parseable(s: Seq<char>) -> bool {
    let t = spec_strip_sign(s).1;
    match dot_pos(t) {
        None => t.len() > 0 && all_digits(t),
        Some(i) => t.len() >= 2 && all_digits(t.take(i)) && all_digits(t.skip(i + 1)),
    }
}

/// Digit values of a digit character sequence.
pub open spec fn digits_of(s: Seq<char>) -> Seq<u8> {
    Seq::new(s.len(), |i: int| char_digit(s[i]) as u8)
}

pub open spec fn spec_neg(s: Seq<char>) -> bool {
    spec_strip_sign(s).0
}

/// Digits before the decimal point (possibly empty).
pub open spec fn spec_int_digits(s: Seq<char>) -> Seq<u8> {
    let t = spec_strip_sign(s).1;
    match dot_pos(t) {
        None => digits_of(t),
        Some(i) => digits_of(t.take(i)),
    }
}

/// Digits after the decimal point (possibly empty).
pub open spec fn spec_frac_digits(s: Seq<char>) -> Seq<u8> {
    let t = spec_strip_sign(s).1;
    match dot_pos(t) {
        None => Seq::empty(),
        Some(i) => digits_of(t.skip(i + 1)),
    }
}

/// A run of zero digit values.
pub open spec fn zero_digits(n: int) -> Seq<u8> {
    Seq::new(if n >= 0 { n as nat } else { 0 }, |i: int| 0u8)
}

/// Adds one to a digit sequence, carrying into a new leading digit if needed.
pub open spec fn seq_inc(ds: Seq<u8>) -> Seq<u8>
    decreases ds.len(),
{
    if ds.len() == 0 {
        seq![1u8]
    } else if ds.last() < 9 {
        ds.update(ds.len() - 1, (ds.last() + 1) as u8)
    } else {
        seq_inc(ds.drop_last()).push(0u8)
    }
}

/// The digits of the value rounded at `d` decimal places, as one combined
/// sequence whose last `d` entries are the decimal digits.  Rounding is half
/// away from zero on the digit magnitude, so a carry propagates into the
/// integer digits.
pub open spec fn spec_rounded(int_ds: Seq<u8>, frac_ds: Seq<u8>, d: int) -> Seq<u8> {
    if frac_ds.len() <= d {
        int_ds + frac_ds + zero_digits(d - frac_ds.len())
    } else {
        let keep = int_ds + frac_ds.take(d);
        if frac_ds[d] >= 5 {
            seq_inc(keep)
        } else {
            keep
        }
    }
}

/// Integer digits of the rounded value.
pub open spec fn spec_round_int(int_ds: Seq<u8>, frac_ds: Seq<u8>, d: int) -> Seq<u8> {
    let c = spec_rounded(int_ds, frac_ds, d);
    c.take(c.len() - d)
}

/// Decimal digits of the rounded value, exactly `d` of them.
pub open spec fn spec_round_frac(int_ds: Seq<u8>, frac_ds: Seq<u8>, d: int) -> Seq<u8> {
    let c = spec_rounded(int_ds, frac_ds, d);
    c.skip(c.len() - d)
}

pub open spec fn is_zero_digits(ds: Seq<u8>) -> bool {
    forall|i: int| 0 <= i < ds.len() ==> #[trigger] ds[i] == 0
}

/// Digits without leading zeros; at least one digit always remains.
pub open spec fn strip_zeros(ds: Seq<u8>) -> Seq<u8>
    decreases ds.len(),
{
    if ds.len() == 0 {
        seq![0u8]
    } else if ds.len() == 1 {
        ds
    } else if ds[0] == 0 {
        strip_zeros(ds.skip(1))
    } else {
        ds
    }
}

pub open spec fn digit_chars(ds: Seq<u8>) -> Seq<char> {
    Seq::new(ds.len(), |i: int| digit_char(ds[i] as int))
}

pub open spec fn nines(n: int) -> Seq<char> {
    Seq::new(if n >= 0 { n as nat } else { 0 }, |i: int| '9')
}

pub open spec fn zero_chars(n: int) -> Seq<char> {
    Seq::new(if n >= 0 { n as nat } else { 0 }, |i: int| '0')
}

/// The integer field of the output.  The sign is shown only when the rounded
/// integer digits are not all zero; `Fixed` pads with zeros after the sign,
/// or marks overflow with a run of nines when even the sign no longer fits.
pub open spec fn spec_int_field(neg: bool, int_ds: Seq<u8>, id: IntegerDigits) -> Seq<char> {
    let show_neg = neg && !is_zero_digits(int_ds);
    let mag = digit_chars(strip_zeros(int_ds));
    let natural = if show_neg {
        seq!['-'] + mag
    } else {
        mag
    };
    match id {
        IntegerDigits::Auto => natural,
        IntegerDigits::Zero => Seq::empty(),
        IntegerDigits::Fixed(n) => {
            if natural.len() > n {
                nines(n as int)
            } else if show_neg {
                seq!['-'] + zero_chars(n - 1 - mag.len()) + mag
            } else {
                zero_chars(n - mag.len()) + mag
            }
        },
    }
}

/// The formatted number without the unit: integer field, and when `d > 0`
/// a decimal point followed by exactly `d` decimal digits.
pub open spec fn spec_formatted_number(s: Seq<char>, id: IntegerDigits, d: int) -> Seq<char> {
    let neg = spec_neg(s);
    let int_ds = spec_int_digits(s);
    let frac_ds = spec_frac_digits(s);
    spec_int_field(neg, spec_round_int(int_ds, frac_ds, d), id) + (if d > 0 {
        seq!['.'] + digit_chars(spec_round_frac(int_ds, frac_ds, d))
    } else {
        Seq::<char>::empty()
    })
}

/// What `format_value` returns: the formatted number with the unit appended,
/// or the input passed through unchanged with the unit appended when it does
/// not parse as a decimal number.
pub open spec fn spec_format_value(
    s: Seq<char>,
    id: IntegerDigits,
    d: int,
    unit: Seq<char>,
) -> Seq<char> {
    if spec_parseable(s) {
        spec_formatted_number(s, id, d) + unit
    } else {
        s + unit
    }
}

pub proof fn lemma_dot_pos_props(t: Seq<char>)
    ensures
        match dot_pos(t) {
            Some(i) => 0 <= i < t.len() && t[i] == '.' && (forall|j: int|
                0 <= j < i ==> t[j] != '.'),
            None => forall|j: int| 0 <= j < t.len() ==> t[j] != '.',
        },
    decreases t.len(),
{
    if t.len() == 0 {
    } else if t[0] == '.' {
    } else {
        lemma_dot_pos_props(t.skip(1));
        match dot_pos(t.skip(1)) {
            Some(i) => {
                assert(t.skip(1)[i] == t[i + 1]);
                assert forall|j: int| 0 <= j < i + 1 implies t[j] != '.' by {
                    if j > 0 {
                        assert(t.skip(1)[j - 1] == t[j]);
                    }
                }
            },
            None => {
                assert forall|j: int| 0 <= j < t.len() implies t[j] != '.' by {
                    if j > 0 {
                        assert(t.skip(1)[j - 1] == t[j]);
                    }
                }
            },
        }
    }
}

pub proof fn lemma_dot_pos_at(t: Seq<char>, i: int)
    requires
        0 <= i < t.len(),
        t[i] == '.',
        forall|j: int| 0 <= j < i ==> t[j] != '.',
    ensures
        dot_pos(t) == Some(i),
    decreases i,
{
    if i == 0 {
    } else {
        assert(t[0] != '.');
        assert(forall|j: int| 0 <= j < t.len() - 1 ==> t.skip(1)[j] == t[j + 1]);
        lemma_dot_pos_at(t.skip(1), i - 1);
    }
}

pub proof fn lemma_dot_pos_none(t: Seq<char>)
    requires
        forall|j: int| 0 <= j < t.len() ==> t[j] != '.',
    ensures
        dot_pos(t) is None,
    decreases t.len(),
{
    if t.len() == 0 {
    } else {
        assert(forall|j: int| 0 <= j < t.len() - 1 ==> t.skip(1)[j] == t[j + 1]);
        lemma_dot_pos_none(t.skip(1));
    }
}

/// A parsed decimal value: sign and exact digit sequences around the point.
pub struct ParsedNumber {
    pub neg: bool,
    pub int_digits: Vec<u8>,
    pub frac_digits: Vec<u8>,
}

pub open spec fn digits_in_range(ds: Seq<u8>) -> bool {
    forall|i: int| 0 <= i < ds.len() ==> #[trigger] ds[i] < 10
}

proof fn lemma_digits_of_in_range(s: Seq<char>)
    requires
        all_digits(s),
    ensures
        digits_in_range(digits_of(s)),
{
    assert forall|i: int| 0 <= i < digits_of(s).len() implies #[trigger] digits_of(s)[i]
        < 10 by {
        assert(is_digit_char(s[i]));
    }
}

/// Parses a decimal value string; succeeds exactly on the grammar of
/// `spec_parseable`.
pub fn parse_decimal(v: &str) -> (r: Option<ParsedNumber>)
    ensures
        r is Some <==> spec_parseable(v@),
        match r {
            Some(p) => p.neg == spec_neg(v@) && p.int_digits@ == spec_int_digits(v@)
                && p.frac_digits@ == spec_frac_digits(v@) && digits_in_range(p.int_digits@)
                && digits_in_range(p.frac_digits@),
            None => true,
        },
{
    let len = v.unicode_len();
    let mut start: usize = 0;
    let mut neg = false;
    if len > 0 {
        let c0 = v.get_char(0);
        if c0 == '-' {
            neg = true;
            start = 1;
        } else if c0 == '+' {
            start = 1;
        }
    }
    let ghost t = v@.skip(start as int);
    proof {
        assert(v@.skip(0) =~= v@);
        assert(neg == spec_strip_sign(v@).0);
        assert(t == spec_strip_sign(v@).1);
        assert(forall|j: int| 0 <= j < t.len() ==> t[j] == v@[j + start]);
    }
    let mut int_digits: Vec<u8> = Vec::new();
    let mut frac_digits: Vec<u8> = Vec::new();
    let mut seen_dot = false;
    let ghost mut dot_idx: int = 0;
    let mut j: usize = start;
    while j < len
        invariant
            start <= j <= len,
            len == v@.len(),
            start <= 1,
            t == v@.skip(start as int),
            neg == spec_strip_sign(v@).0,
            t == spec_strip_sign(v@).1,
            forall|k: int| 0 <= k < t.len() ==> t[k] == v@[k + start],
            t.len() == len - start,
            !seen_dot ==> {
                &&& int_digits@ == digits_of(t.take(j - start))
                &&& all_digits(t.take(j - start))
                &&& frac_digits@.len() == 0
                &&& forall|k: int| 0 <= k < j - start ==> t[k] != '.'
            },
            seen_dot ==> {
                &&& 0 <= dot_idx < j - start
                &&& t[dot_idx] == '.'
                &&& forall|k: int| 0 <= k < dot_idx ==> t[k] != '.'
                &&& all_digits(t.take(dot_idx))
                &&& int_digits@ == digits_of(t.take(dot_idx))
                &&& frac_digits@ == digits_of(t.subrange(dot_idx + 1, j - start))
                &&& all_digits(t.subrange(dot_idx + 1, j - start))
            },
            digits_in_range(int_digits@),
            digits_in_range(frac_digits@),
        decreases len - j,
    {
        let c = v.get_char(j);
        assert(c == t[j - start]);
        if c == '.' {
            if seen_dot {
                proof {
                    lemma_dot_pos_at(t, dot_idx);
                    let p = (j - start) - (dot_idx + 1);
                    assert(t.skip(dot_idx + 1)[p] == '.');
                    assert(!is_digit_char('.'));
                    assert(!all_digits(t.skip(dot_idx + 1)));
                }
                return None;
            }
            seen_dot = true;
            proof {
                dot_idx = j - start;
                assert(t.subrange(dot_idx + 1, dot_idx + 1) =~= Seq::<char>::empty());
                assert(frac_digits@ =~= digits_of(t.subrange(dot_idx + 1, dot_idx + 1)));
            }
        } else {
            match char_to_digit(c) {
                Some(d) => {
                    if seen_dot {
                        frac_digits.push(d);
                        proof {
                            assert(t.subrange(dot_idx + 1, j + 1 - start) =~= t.subrange(
                                dot_idx + 1,
                                j - start,
                            ).push(c));
                            assert(frac_digits@ =~= digits_of(
                                t.subrange(dot_idx + 1, j + 1 - start),
                            ));
                        }
                    } else {
                        int_digits.push(d);
                        proof {
                            assert(t.take(j + 1 - start) =~= t.take(j - start).push(c));
                            assert(int_digits@ =~= digits_of(t.take(j + 1 - start)));
                        }
                    }
                },
                None => {
                    proof {
                        assert(!is_digit_char(c));
                        if seen_dot {
                            lemma_dot_pos_at(t, dot_idx);
                            let p = (j - start) - (dot_idx + 1);
                            assert(t.skip(dot_idx + 1)[p] == c);
                            assert(!all_digits(t.skip(dot_idx + 1)));
                        } else {
                            lemma_dot_pos_props(t);
                            match dot_pos(t) {
                                Some(i) => {
                                    assert(i >= j - start);
                                    if i == j - start {
                                        assert(t[i] == '.');
                                        assert(false);
                                    } else {
                                        assert(t.take(i)[j - start] == c);
                                        assert(!all_digits(t.take(i)));
                                    }
                                },
                                None => {
                                    assert(!all_digits(t));
                                },
                            }
                        }
                    }
                    return None;
                },
            }
        }
        j += 1;
    }
    if len == start {
        proof {
            assert(t.len() == 0);
            lemma_dot_pos_none(t);
        }
        return None;
    }
    if seen_dot {
        proof {
            lemma_dot_pos_at(t, dot_idx);
        }
        if len - start < 2 {
            proof {
                assert(t.len() < 2);
            }
            return None;
        }
        proof {
            assert(t.skip(dot_idx + 1) =~= t.subrange(dot_idx + 1, t.len() as int));
            assert(spec_parseable(v@));
        }
        Some(ParsedNumber { neg, int_digits, frac_digits })
    } else {
        proof {
            lemma_dot_pos_none(t);
            assert(t.take(t.len() as int) =~= t);
            assert(spec_parseable(v@));
        }
        Some(ParsedNumber { neg, int_digits, frac_digits })
    }
}

pub proof fn lemma_seq_inc_len(ds: Seq<u8>)
    ensures
        seq_inc(ds).len() == ds.len() || seq_inc(ds).len() == ds.len() + 1,
        seq_inc(ds).len() >= 1,
    decreases ds.len(),
{
    if ds.len() == 0 {
    } else if ds.last() < 9 {
    } else {
        lemma_seq_inc_len(ds.drop_last());
    }
}

pub proof fn lemma_seq_inc_in_range(ds: Seq<u8>)
    requires
        digits_in_range(ds),
    ensures
        digits_in_range(seq_inc(ds)),
    decreases ds.len(),
{
    if ds.len() == 0 {
        assert(digits_in_range(seq![1u8])) by {
            assert(seq![1u8][0] == 1u8);
        }
    } else if ds.last() < 9 {
        assert forall|i: int| 0 <= i < seq_inc(ds).len() implies #[trigger] seq_inc(ds)[i]
            < 10 by {}
    } else {
        assert(digits_in_range(ds.drop_last())) by {
            assert(forall|i: int| 0 <= i < ds.len() - 1 ==> ds.drop_last()[i] == ds[i]);
        }
        lemma_seq_inc_in_range(ds.drop_last());
        lemma_seq_inc_len(ds.drop_last());
        assert forall|i: int| 0 <= i < seq_inc(ds).len() implies #[trigger] seq_inc(ds)[i]
            < 10 by {
            if i < seq_inc(ds).len() - 1 {
                assert(seq_inc(ds)[i] == seq_inc(ds.drop_last())[i]);
            } else {
                assert(seq_inc(ds)[i] == 0u8);
            }
        }
    }
}

/// Adds one to the digit vector, as `seq_inc` describes.
fn inc_digits(ds: &mut Vec<u8>)
    requires
        digits_in_range(old(ds)@),
    ensures
        final(ds)@ == seq_inc(old(ds)@),
        digits_in_range(final(ds)@),
{
    let ghost orig = ds@;
    let mut idx: usize = ds.len();
    proof {
        assert(orig.take(idx as int) =~= orig);
        assert(ds@.skip(idx as int) =~= Seq::<u8>::empty());
        assert(seq_inc(orig) =~= seq_inc(orig.take(idx as int)) + ds@.skip(idx as int));
    }
    while idx > 0 && ds[idx - 1] == 9
        invariant
            0 <= idx <= ds.len(),
            ds@.len() == orig.len(),
            digits_in_range(orig),
            forall|k: int| 0 <= k < idx ==> ds@[k] == orig[k],
            forall|k: int| idx <= k < ds@.len() ==> ds@[k] == 0u8,
            forall|k: int| idx <= k < orig.len() ==> orig[k] == 9u8,
            seq_inc(orig) == seq_inc(orig.take(idx as int)) + ds@.skip(idx as int),
        decreases idx,
    {
        let ghost pre = ds@;
        ds.set(idx - 1, 0);
        proof {
            let i = idx - 1;
            assert(orig.take(idx as int).last() == orig[i]);
            assert(orig.take(idx as int).drop_last() =~= orig.take(i as int));
            assert(seq_inc(orig.take(idx as int)) == seq_inc(orig.take(i as int)).push(0u8));
            assert(seq_inc(orig.take(i as int)).push(0u8) + pre.skip(idx as int) =~= seq_inc(
                orig.take(i as int),
            ) + ds@.skip(i as int));
        }
        idx -= 1;
    }
    if idx == 0 {
        let ghost pre = ds@;
        proof {
            assert(orig.take(0) =~= Seq::<u8>::empty());
            assert(pre.skip(0) =~= pre);
            assert(seq_inc(orig) == seq![1u8] + pre);
        }
        ds.insert(0, 1);
        proof {
            assert(ds@ =~= seq![1u8] + pre);
            assert(digits_in_range(ds@)) by {
                assert(forall|k: int| 0 <= k < ds@.len() ==> #[trigger] ds@[k] <= 1);
            }
        }
    } else {
        let ghost pre = ds@;
        let d = ds[idx - 1];
        assert(d == orig[idx - 1]);
        assert(d < 9);
        ds.set(idx - 1, d + 1);
        proof {
            let i = idx as int;
            assert(orig.take(i).last() == orig[i - 1]);
            assert(orig.take(i).last() < 9);
            assert(orig.take(i).update(i - 1, (orig[i - 1] + 1) as u8) == seq_inc(orig.take(i)));
            assert(ds@ =~= seq_inc(orig.take(i)) + pre.skip(i));
            assert(ds@ == seq_inc(orig));
            assert(digits_in_range(ds@)) by {
                assert(forall|k: int| 0 <= k < ds@.len() && k != i - 1 ==> ds@[k] == pre[k]);
            }
        }
    }
}

/// Combines integer and decimal digits rounded at `d` decimal places.
fn round_digits(int_digits: Vec<u8>, frac_digits: Vec<u8>, d: usize) -> (r: Vec<u8>)
    requires
        digits_in_range(int_digits@),
        digits_in_range(frac_digits@),
    ensures
        r@ == spec_rounded(int_digits@, frac_digits@, d as int),
        digits_in_range(r@),
        r@.len() >= d,
        r@.len() == int_digits@.len() + d || r@.len() == int_digits@.len() + d + 1,
{
    let ghost int0 = int_digits@;
    let ghost frac0 = frac_digits@;
    let mut out = int_digits;
    if frac_digits.len() <= d {
        let flen = frac_digits.len();
        let mut k: usize = 0;
        while k < flen
            invariant
                k <= flen,
                flen == frac0.len(),
                frac_digits@ == frac0,
                digits_in_range(frac0),
                digits_in_range(int0),
                out@ == int0 + frac0.take(k as int),
            decreases flen - k,
        {
            out.push(frac_digits[k]);
            proof {
                assert(out@ =~= int0 + frac0.take(k + 1));
            }
            k += 1;
        }
        let pad = d - flen;
        let mut z: usize = 0;
        while z < pad
            invariant
                z <= pad,
                frac0.take(frac0.len() as int) == frac0,
                digits_in_range(frac0),
                digits_in_range(int0),
                out@ == int0 + frac0 + zero_digits(z as int),
            decreases pad - z,
        {
            out.push(0);
            proof {
                assert(out@ =~= int0 + frac0 + zero_digits(z + 1));
            }
            z += 1;
        }
        proof {
            assert(frac0.take(frac0.len() as int) =~= frac0);
            assert(out@ == spec_rounded(int0, frac0, d as int));
            assert(digits_in_range(out@)) by {
                assert forall|i: int| 0 <= i < out@.len() implies #[trigger] out@[i] < 10 by {
                    if i < int0.len() {
                        assert(out@[i] == int0[i]);
                    } else if i < int0.len() + frac0.len() {
                        assert(out@[i] == frac0[i - int0.len()]);
                    } else {
                        assert(out@[i] == 0u8);
                    }
                }
            }
        }
        out
    } else {
        let mut k: usize = 0;
        while k < d
            invariant
                k <= d,
                d < frac0.len(),
                frac_digits@ == frac0,
                digits_in_range(frac0),
                digits_in_range(int0),
                out@ == int0 + frac0.take(k as int),
            decreases d - k,
        {
            out.push(frac_digits[k]);
            proof {
                assert(out@ =~= int0 + frac0.take(k + 1));
            }
            k += 1;
        }
        proof {
            assert(digits_in_range(out@)) by {
                assert forall|i: int| 0 <= i < out@.len() implies #[trigger] out@[i] < 10 by {
                    if i < int0.len() {
                        assert(out@[i] == int0[i]);
                    } else {
                        assert(out@[i] == frac0.take(d as int)[i - int0.len()]);
                    }
                }
            }
        }
        if frac_digits[d] >= 5 {
            inc_digits(&mut out);
            proof {
                lemma_seq_inc_len(int0 + frac0.take(d as int));
            }
        }
        out
    }
}

pub proof fn lemma_strip_zeros_skip(ds: Seq<u8>, k: int)
    requires
        0 <= k < ds.len(),
        forall|j: int| 0 <= j < k ==> ds[j] == 0,
        ds[k] != 0,
    ensures
        strip_zeros(ds) == ds.skip(k),
    decreases k,
{
    if k == 0 {
        assert(ds.skip(0) =~= ds);
        if ds.len() == 1 {
        } else {
            assert(ds[0] != 0);
        }
    } else {
        assert(ds.len() >= 2);
        assert(ds[0] == 0);
        assert(forall|j: int| 0 <= j < ds.len() - 1 ==> ds.skip(1)[j] == ds[j + 1]);
        lemma_strip_zeros_skip(ds.skip(1), k - 1);
        assert(ds.skip(1).skip(k - 1) =~= ds.skip(k));
    }
}

pub proof fn lemma_strip_zeros_all_zero(ds: Seq<u8>)
    requires
        is_zero_digits(ds),
    ensures
        strip_zeros(ds) == seq![0u8],
    decreases ds.len(),
{
    if ds.len() == 0 {
    } else if ds.len() == 1 {
        assert(ds[0] == 0);
        assert(ds =~= seq![0u8]);
    } else {
        assert(ds[0] == 0);
        assert(forall|j: int| 0 <= j < ds.len() - 1 ==> ds.skip(1)[j] == ds[j + 1]);
        assert(is_zero_digits(ds.skip(1)));
        lemma_strip_zeros_all_zero(ds.skip(1));
    }
}

/// Appends the characters of the digits `ds[from..to]`.
fn push_digit_chars(out: &mut String, ds: &Vec<u8>, from: usize, to: usize)
    requires
        from <= to <= ds@.len(),
        digits_in_range(ds@),
    ensures
        final(out)@ == old(out)@ + digit_chars(ds@.subrange(from as int, to as int)),
{
    let mut k = from;
    while k < to
        invariant
            from <= k <= to <= ds@.len(),
            digits_in_range(ds@),
            out@ == old(out)@ + digit_chars(ds@.subrange(from as int, k as int)),
        decreases to - k,
    {
        out.push(digit_to_char(ds[k]));
        proof {
            assert(out@ =~= old(out)@ + digit_chars(ds@.subrange(from as int, k + 1)));
        }
        k += 1;
    }
    proof {
        assert(out@ =~= old(out)@ + digit_chars(ds@.subrange(from as int, to as int)));
    }
}

/// Appends `n` copies of `c`.
fn push_repeat(out: &mut String, c: char, n: usize)
    ensures
        final(out)@ == old(out)@ + Seq::new(n as nat, |i: int| c),
{
    let mut k: usize = 0;
    while k < n
        invariant
            k <= n,
            out@ == old(out)@ + Seq::new(k as nat, |i: int| c),
        decreases n - k,
    {
        out.push(c);
        proof {
            assert(out@ =~= old(out)@ + Seq::new((k + 1) as nat, |i: int| c));
        }
        k += 1;
    }
}

/// Builds the integer field of the output from the combined rounded digits,
/// whose first `split` entries are the integer digits.
fn build_int_field(neg: bool, combined: &Vec<u8>, split: usize, id: IntegerDigits) -> (r: String)
    requires
        split <= combined@.len(),
        digits_in_range(combined@),
    ensures
        r@ == spec_int_field(neg, combined@.take(split as int), id),
{
    let ghost int_ds = combined@.take(split as int);
    let mut fnz: usize = 0;
    while fnz < split && combined[fnz] == 0
        invariant
            fnz <= split <= combined@.len(),
            forall|j: int| 0 <= j < fnz ==> combined@[j] == 0u8,
        decreases split - fnz,
    {
        fnz += 1;
    }
    let all_zero = fnz == split;
    proof {
        assert(forall|j: int| 0 <= j < fnz ==> int_ds[j] == 0u8);
        if all_zero {
            assert(is_zero_digits(int_ds));
            lemma_strip_zeros_all_zero(int_ds);
        } else {
            assert(int_ds[fnz as int] == combined@[fnz as int]);
            assert(!is_zero_digits(int_ds));
            lemma_strip_zeros_skip(int_ds, fnz as int);
            assert(int_ds.skip(fnz as int) =~= combined@.subrange(fnz as int, split as int));
        }
    }
    let show_neg = neg && !all_zero;
    let mag_len: usize = if all_zero {
        1
    } else {
        split - fnz
    };
    let ghost mag = digit_chars(strip_zeros(int_ds));
    proof {
        assert(mag.len() == mag_len);
    }
    let mut out = String::new();
    match id {
        IntegerDigits::Auto => {
            if show_neg {
                out.push('-');
            }
            if all_zero {
                out.push('0');
                proof {
                    assert(mag =~= seq!['0']);
                }
            } else {
                push_digit_chars(&mut out, combined, fnz, split);
            }
            proof {
                if show_neg {
                    assert(out@ =~= seq!['-'] + mag);
                } else {
                    assert(out@ =~= mag);
                }
            }
        },
        IntegerDigits::Zero => {
            proof {
                assert(out@ =~= Seq::<char>::empty());
            }
        },
        IntegerDigits::Fixed(n) => {
            let overflow = if show_neg {
                n < 1 || mag_len > n - 1
            } else {
                mag_len > n
            };
            if overflow {
                push_repeat(&mut out, '9', n);
                proof {
                    assert(out@ =~= nines(n as int));
                    if show_neg {
                        assert((seq!['-'] + mag).len() > n);
                    }
                }
            } else if show_neg {
                out.push('-');
                push_repeat(&mut out, '0', n - 1 - mag_len);
                if all_zero {
                    out.push('0');
                    proof {
                        assert(mag =~= seq!['0']);
                    }
                } else {
                    push_digit_chars(&mut out, combined, fnz, split);
                }
                proof {
                    assert((seq!['-'] + mag).len() <= n);
                    assert(out@ =~= seq!['-'] + zero_chars(n - 1 - mag.len()) + mag);
                }
            } else {
                push_repeat(&mut out, '0', n - mag_len);
                if all_zero {
                    out.push('0');
                    proof {
                        assert(mag =~= seq!['0']);
                    }
                } else {
                    push_digit_chars(&mut out, combined, fnz, split);
                }
                proof {
                    assert(out@ =~= zero_chars(n - mag.len()) + mag);
                }
            }
        },
    }
    out
}

/// Formats a sensor value string to a fixed-point number with the given
/// integer-digit policy and decimal-digit count, and appends the unit.
/// A value that does not parse as a decimal number is passed through
/// unchanged with the unit appended.
pub fn format_value(value: &str, integer_digits: IntegerDigits, decimal_digits: usize, unit: &str)
    -> (r: String)
    ensures
        r@ == spec_format_value(value@, integer_digits, decimal_digits as int, unit@),
{
    match parse_decimal(value) {
        None => {
            let mut out = value.to_owned();
            out.append(unit);
            out
        },
        Some(p) => {
            let ghost int0 = p.int_digits@;
            let ghost frac0 = p.frac_digits@;
            let neg = p.neg;
            let combined = round_digits(p.int_digits, p.frac_digits, decimal_digits);
            let split = combined.len() - decimal_digits;
            let mut out = build_int_field(neg, &combined, split, integer_digits);
            proof {
                assert(combined@.take(split as int) == spec_round_int(
                    int0,
                    frac0,
                    decimal_digits as int,
                ));
            }
            if decimal_digits > 0 {
                out.push('.');
                push_digit_chars(&mut out, &combined, split, combined.len());
            }
            proof {
                assert(combined@.subrange(split as int, combined@.len() as int)
                    == spec_round_frac(int0, frac0, decimal_digits as int)) by {
                    assert(combined@.subrange(split as int, combined@.len() as int)
                        =~= combined@.skip(split as int));
                }
                assert(out@ =~= spec_formatted_number(
                    value@,
                    integer_digits,
                    decimal_digits as int,
                ));
            }
            out.append(unit);
            out
        },
    }
}

/// With a fixed integer width, a rounded value whose integer magnitude is
/// wider than the field is shown as exactly that many `9` characters,
/// whatever the sign was.
pub proof fn lemma_fixed_width_overflow(v: Seq<char>, n: usize, d: int, unit: Seq<char>)
    requires
        spec_parseable(v),
        strip_zeros(spec_round_int(spec_int_digits(v), spec_frac_digits(v), d)).len() > n,
    ensures
        spec_format_value(v, IntegerDigits::Fixed(n as usize), d, unit) == nines(n as int) + (if d
            > 0 {
            seq!['.'] + digit_chars(spec_round_frac(spec_int_digits(v), spec_frac_digits(v), d))
        } else {
            Seq::<char>::empty()
        }) + unit,
{
    let int_ds = spec_round_int(spec_int_digits(v), spec_frac_digits(v), d);
    let mag = digit_chars(strip_zeros(int_ds));
    assert(mag.len() > n);
    let show_neg = spec_neg(v) && !is_zero_digits(int_ds);
    if show_neg {
        assert((seq!['-'] + mag).len() > n);
    }
    assert(spec_int_field(spec_neg(v), int_ds, IntegerDigits::Fixed(n as usize)) == nines(
        n as int,
    ));
}

/// A value that does not parse is passed through unchanged, with the unit
/// appended and nothing else done to it.
pub proof fn lemma_unparsable_passthrough(
    v: Seq<char>,
    id: IntegerDigits,
    d: int,
    unit: Seq<char>,
)
    requires
        !spec_parseable(v),
    ensures
        spec_format_value(v, id, d, unit) == v + unit,
{
}

} // verus!
