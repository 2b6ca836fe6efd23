//! Printing byte counts for the log line: whole bytes below one kibibyte,
//! above it one decimal place in the matching unit, ties rounded to even.

use vstd::prelude::*;

use crate::num::{dec_digits, digit_char, digit_str, u64_to_dec_string};

verus! {

/// Powers of 1024.
pub open spec fn pow1024(i: nat) -> nat
    decreases i,
{
    if i == 0 {
        1nat
    } else {
        1024 * pow1024((i - 1) as nat)
    }
}

/// Which unit a count is printed in: the largest whose threshold it reaches,
/// capped at terabytes.
pub open spec fn size_unit_index(n: nat) -> nat {
    if n >= pow1024(4) {
        4
    } else if n >= pow1024(3) {
        3
    } else if n >= pow1024(2) {
        2
    } else if n >= pow1024(1) {
        1
    } else {
        0
    }
}

pub open spec fn unit_suffix(i: nat) -> Seq<char> {
    if i == 0 {
        " B"@
    } else if i == 1 {
        " KB"@
    } else if i == 2 {
        " MB"@
    } else if i == 3 {
        " GB"@
    } else {
        " TB"@
    }
}

/// The count scaled into its unit, kept to tenths, ties rounded to even.
pub open spec fn rounded_tenths(n: nat, i: nat) -> nat {
    let div = pow1024(i);
    let q = (n * 10) / div;
    let rem = (n * 10) % div;
    if rem * 2 > div || (rem * 2 == div && q % 2 == 1) {
        q + 1
    } else {
        q
    }
}

/// The printed form of a byte count.
pub open spec fn spec_format_size(n: nat) -> Seq<char> {
    if n == 0 {
        "0 B"@
    } else {
        let i = size_unit_index(n);
        if i == 0 {
            dec_digits(n) + " B"@
        } else {
            let r = rounded_tenths(n, i);
            dec_digits(r / 10) + "."@ + seq![digit_char((r % 10) as int)] + unit_suffix(i)
        }
    }
}

/// Prints a byte count for the log line.
pub fn format_size(bytes: usize) -> (r: String)
    ensures
        r@ == spec_format_size(bytes as nat),
{
    proof {
        assert(pow1024(0) == 1);
        assert(pow1024(1) == 1024);
        assert(pow1024(2) == 1048576);
        assert(pow1024(3) == 1073741824);
        assert(pow1024(4) == 1099511627776);
    }
    if bytes == 0 {
        return String::from_str("0 B");
    }
    let n: u128 = bytes as u128;
    if n < 1024 {
        return u64_to_dec_string(bytes as u64).concat(" B");
    }
    let (div, unit): (u128, &'static str) = if n >= 1099511627776 {
        (1099511627776, " TB")
    } else if n >= 1073741824 {
        (1073741824, " GB")
    } else if n >= 1048576 {
        (1048576, " MB")
    } else {
        (1024, " KB")
    };
    let ghost i = size_unit_index(bytes as nat);
    proof {
        assert(div == pow1024(i));
        assert(unit@ == unit_suffix(i));
    }
    let scaled: u128 = n * 10;
    let q: u128 = scaled / div;
    let rem: u128 = scaled % div;
    let rounded: u128 = if rem * 2 > div || (rem * 2 == div && q % 2 == 1) {
        q + 1
    } else {
        q
    };
    proof {
        assert(rounded == rounded_tenths(bytes as nat, i));
        assert(scaled < 0x100000000000000000000);
        assert(q <= scaled);
        assert(rounded / 10 <= 0xffffffffffffffff);
    }
    let whole: u64 = (rounded / 10) as u64;
    let frac: u8 = (rounded % 10) as u8;
    u64_to_dec_string(whole).concat(".").concat(digit_str(frac)).concat(unit)
}

} // verus!
