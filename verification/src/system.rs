//! System-information helpers shared by the sensor producers: storage
//! device kinds and human-readable byte formatting.

use vstd::prelude::*;

use crate::strutil::{digit_char, spec_u64_string, push_u64};

verus! {

/// Kind of storage device a producer may enumerate.
#[derive(Debug, Copy, Clone, PartialEq, Eq, Structural)]
pub enum StorageDevice {
    All,
    Hdd,
    Ssd,
    HddOrSsd,
    Nvme,
}

/// The unit exponent a byte count is displayed with: the largest power of
/// 1024 not above it, capped at petabytes.
pub open spec fn spec_byte_unit(bytes: u64) -> int {
    if bytes < 1024 {
        0
    } else if bytes < 1048576 {
        1
    } else if bytes < 1073741824 {
        2
    } else if bytes < 1099511627776 {
        3
    } else if bytes < 1125899906842624 {
        4
    } else {
        5
    }
}

/// The power of 1024 for a unit exponent.
pub open spec fn spec_unit_den(k: int) -> int {
    if k == 1 {
        1024
    } else if k == 2 {
        1048576
    } else if k == 3 {
        1073741824
    } else if k == 4 {
        1099511627776
    } else {
        1125899906842624
    }
}

/// The unit suffix for a unit exponent.
pub open spec fn spec_unit_chars(k: int) -> Seq<char> {
    if k == 1 {
        seq!['K', 'B']
    } else if k == 2 {
        seq!['M', 'B']
    } else if k == 3 {
        seq!['G', 'B']
    } else if k == 4 {
        seq!['T', 'B']
    } else {
        seq!['P', 'B']
    }
}

/// Division rounded to nearest with ties to even, as decimal display
/// rounding does.
pub open spec fn spec_round_half_even(num: int, den: int) -> int {
    let q = num / den;
    let r = num % den;
    if 2 * r > den {
        q + 1
    } else if 2 * r < den {
        q
    } else if q % 2 == 0 {
        q
    } else {
        q + 1
    }
}

/// What `format_bytes` returns: `0 B` for zero, a plain count below one
/// kibibyte, else the count scaled to the largest fitting power of 1024
/// with two decimal places.
pub open spec fn spec_format_bytes(bytes: u64) -> Seq<char> {
    if bytes == 0 {
        seq!['0', ' ', 'B']
    } else {
        let k = spec_byte_unit(bytes);
        if k == 0 {
            spec_u64_string(bytes) + seq![' ', 'B']
        } else {
            let hundredths = spec_round_half_even(100 * bytes, spec_unit_den(k));
            spec_u64_string((hundredths / 100) as u64) + seq!['.'] + seq![
                digit_char((hundredths / 10) % 10),
                digit_char(hundredths % 10),
            ] + seq![' '] + spec_unit_chars(k)
        }
    }
}

fn round_half_even_u128(num: u128, den: u128) -> (r: u128)
    requires
        0 < den < 0x100000000000000000000000000000,
        num < 0x7fffffffffffffffffffffffffffffff,
    ensures
        r == spec_round_half_even(num as int, den as int),
        r <= num as int / den as int + 1,
{
    let q = num / den;
    let rm = num % den;
    if 2 * rm > den {
        q + 1
    } else if 2 * rm < den {
        q
    } else if q % 2 == 0 {
        q
    } else {
        q + 1
    }
}

/// Formats a byte count into a human-readable string with binary units
/// and two decimal places.
pub fn format_bytes(bytes: u64) -> (r: String)
    ensures
        r@ == spec_format_bytes(bytes),
{
    let mut out = String::new();
    if bytes == 0 {
        out.push('0');
        out.push(' ');
        out.push('B');
        proof {
            assert(out@ =~= spec_format_bytes(bytes));
        }
        return out;
    }
    if bytes < 1024 {
        push_u64(&mut out, bytes);
        out.push(' ');
        out.push('B');
        proof {
            assert(out@ =~= spec_format_bytes(bytes));
        }
        return out;
    }
    let den: u64 = if bytes < 1048576 {
        1024
    } else if bytes < 1073741824 {
        1048576
    } else if bytes < 1099511627776 {
        1073741824
    } else if bytes < 1125899906842624 {
        1099511627776
    } else {
        1125899906842624
    };
    proof {
        assert(den as int == spec_unit_den(spec_byte_unit(bytes)));
    }
    let hundredths = round_half_even_u128(100u128 * (bytes as u128), den as u128);
    proof {
        vstd::arithmetic::div_mod::lemma_fundamental_div_mod(
            100 * (bytes as int),
            den as int,
        );
        assert(100 * (bytes as int) / (den as int) <= 100 * (bytes as int) / 1024)
            by (nonlinear_arith)
            requires
                den >= 1024,
                bytes >= 0,
        ;
        assert(100 * (bytes as int) / 1024 < 0x10000000000000000) by (nonlinear_arith)
            requires
                0 <= bytes < 0x10000000000000000,
        ;
    }
    let whole = (hundredths / 100) as u64;
    let d1 = ((hundredths / 10) % 10) as u8;
    let d0 = (hundredths % 10) as u8;
    push_u64(&mut out, whole);
    out.push('.');
    out.push(crate::strutil::digit_to_char(d1));
    out.push(crate::strutil::digit_to_char(d0));
    out.push(' ');
    if den == 1024 {
        out.push('K');
    } else if den == 1048576 {
        out.push('M');
    } else if den == 1073741824 {
        out.push('G');
    } else if den == 1099511627776 {
        out.push('T');
    } else {
        out.push('P');
    }
    out.push('B');
    proof {
        assert(out@ =~= spec_format_bytes(bytes));
    }
    out
}

} // verus!
