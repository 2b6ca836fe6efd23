//! Decimal and hexadecimal conversions: printing unsigned values as decimal
//! strings, parsing decimal port numbers, and parsing hexadecimal chunk sizes.

use vstd::prelude::*;
use vstd::slice::slice_index_get;

verus! {

/// The character printing a single decimal digit.
pub open spec fn digit_char(d: int) -> char {
    if d == 0 {
        '0'
    } else if d == 1 {
        '1'
    } else if d == 2 {
        '2'
    } else if d == 3 {
        '3'
    } else if d == 4 {
        '4'
    } else if d == 5 {
        '5'
    } else if d == 6 {
        '6'
    } else if d == 7 {
        '7'
    } else if d == 8 {
        '8'
    } else {
        '9'
    }
}

/// The decimal digit string of `n`, most significant digit first.
pub open spec fn dec_digits(n: nat) -> Seq<char>
    decreases n,
{
    if n < 10 {
        seq![digit_char(n as int)]
    } else {
        dec_digits(n / 10) + seq![digit_char((n % 10) as int)]
    }
}

/// The characters of a digit list, read back to front.
pub open spec fn rev_digit_chars(v: Seq<u8>) -> Seq<char> {
    Seq::new(v.len(), |i: int| digit_char(v[v.len() - 1 - i] as int))
}

pub open spec fn is_digit(c: char) -> bool {
    '0' <= c && c <= '9'
}

pub open spec fn digit_val(c: char) -> int {
    c as u32 - '0' as u32
}

pub open spec fn all_digits(s: Seq<char>) -> bool {
    forall|i: int| 0 <= i < s.len() ==> is_digit(#[trigger] s[i])
}

/// The value of a decimal digit string.
pub open spec fn dec_val(s: Seq<char>) -> int
    decreases s.len(),
{
    if s.len() == 0 {
        0
    } else {
        dec_val(s.drop_last()) * 10 + digit_val(s.last())
    }
}

/// How `str::parse::<u16>` reads a string: an optional leading `+`, then one
/// or more decimal digits whose value fits in 16 bits.
pub open spec fn spec_parse_u16(s: Seq<char>) -> Option<u16> {
    let body = if s.len() >= 1 && s[0] == '+' {
        s.skip(1)
    } else {
        s
    };
    if body.len() == 0 || !all_digits(body) || dec_val(body) > 65535 {
        None
    } else {
        Some(dec_val(body) as u16)
    }
}

pub open spec fn is_hex_digit(b: u8) -> bool {
    (48 <= b && b <= 57) || (97 <= b && b <= 102) || (65 <= b && b <= 70)
}

pub open spec fn hex_val(b: u8) -> int {
    if 48 <= b && b <= 57 {
        b - 48
    } else if 97 <= b && b <= 102 {
        b - 87
    } else {
        b - 55
    }
}

pub open spec fn all_hex_digits(s: Seq<u8>) -> bool {
    forall|i: int| 0 <= i < s.len() ==> is_hex_digit(#[trigger] s[i])
}

/// The value of a hexadecimal digit string.
pub open spec fn hex_seq_val(s: Seq<u8>) -> int
    decreases s.len(),
{
    if s.len() == 0 {
        0
    } else {
        hex_seq_val(s.drop_last()) * 16 + hex_val(s.last())
    }
}

/// How `usize::from_str_radix(.., 16)` reads a byte string: an optional
/// leading `+`, then one or more hexadecimal digits whose value fits in
/// a `usize`.
pub open spec fn spec_parse_hex_usize(s: Seq<u8>) -> Option<usize> {
    let body = if s.len() >= 1 && s[0] == 43 {
        s.skip(1)
    } else {
        s
    };
    if body.len() == 0 || !all_hex_digits(body) || hex_seq_val(body) > usize::MAX {
        None
    } else {
        Some(hex_seq_val(body) as usize)
    }
}

/// A digit string never has a negative value.
pub proof fn lemma_dec_val_nonneg(s: Seq<char>)
    requires
        all_digits(s),
    ensures
        dec_val(s) >= 0,
    decreases s.len(),
{
    if s.len() > 0 {
        assert(all_digits(s.drop_last())) by {
            assert(forall|i: int|
                0 <= i < s.len() - 1 ==> s.drop_last()[i] == #[trigger] s[i]);
        }
        lemma_dec_val_nonneg(s.drop_last());
        assert(is_digit(s.last()));
    }
}

/// Extending a digit string to the right never lowers its value.
pub proof fn lemma_dec_val_prefix(s: Seq<char>, i: int)
    requires
        all_digits(s),
        0 <= i <= s.len(),
    ensures
        dec_val(s.subrange(0, i)) <= dec_val(s),
    decreases s.len() - i,
{
    if i < s.len() {
        let t = s.subrange(0, i + 1);
        assert(t.drop_last() =~= s.subrange(0, i));
        assert(forall|j: int| 0 <= j < t.len() ==> is_digit(#[trigger] t[j]));
        assert(forall|j: int|
            0 <= j < i ==> is_digit(#[trigger] s.subrange(0, i)[j]));
        lemma_dec_val_nonneg(s.subrange(0, i));
        assert(is_digit(t.last()));
        assert(dec_val(s.subrange(0, i)) <= dec_val(t));
        lemma_dec_val_prefix(s, i + 1);
    } else {
        assert(s.subrange(0, i) =~= s);
    }
}

pub proof fn lemma_hex_val_nonneg(s: Seq<u8>)
    requires
        all_hex_digits(s),
    ensures
        hex_seq_val(s) >= 0,
    decreases s.len(),
{
    if s.len() > 0 {
        assert(all_hex_digits(s.drop_last())) by {
            assert(forall|i: int|
                0 <= i < s.len() - 1 ==> s.drop_last()[i] == #[trigger] s[i]);
        }
        lemma_hex_val_nonneg(s.drop_last());
        assert(is_hex_digit(s.last()));
    }
}

pub proof fn lemma_hex_val_prefix(s: Seq<u8>, i: int)
    requires
        all_hex_digits(s),
        0 <= i <= s.len(),
    ensures
        hex_seq_val(s.subrange(0, i)) <= hex_seq_val(s),
    decreases s.len() - i,
{
    if i < s.len() {
        let t = s.subrange(0, i + 1);
        assert(t.drop_last() =~= s.subrange(0, i));
        assert(forall|j: int| 0 <= j < t.len() ==> is_hex_digit(#[trigger] t[j]));
        assert(forall|j: int|
            0 <= j < i ==> is_hex_digit(#[trigger] s.subrange(0, i)[j]));
        lemma_hex_val_nonneg(s.subrange(0, i));
        assert(is_hex_digit(t.last()));
        assert(hex_seq_val(s.subrange(0, i)) <= hex_seq_val(t));
        lemma_hex_val_prefix(s, i + 1);
    } else {
        assert(s.subrange(0, i) =~= s);
    }
}

/// Printing a value in decimal and reading the digits back yields the value.
pub proof fn lemma_dec_digits_value(n: nat)
    ensures
        dec_digits(n).len() >= 1,
        all_digits(dec_digits(n)),
        dec_val(dec_digits(n)) == n,
    decreases n,
{
    if n < 10 {
        let d = seq![digit_char(n as int)];
        assert(d.drop_last() =~= Seq::<char>::empty());
        assert(d.last() == digit_char(n as int));
        assert(digit_val(digit_char(n as int)) == n);
        assert(dec_val(Seq::<char>::empty()) == 0);
        assert(dec_val(d) == dec_val(d.drop_last()) * 10 + digit_val(d.last()));
        assert(dec_digits(n) == d);
    } else {
        lemma_dec_digits_value(n / 10);
        let a = dec_digits(n / 10);
        let x = digit_char((n % 10) as int);
        assert((a + seq![x]).drop_last() =~= a);
        assert((a + seq![x]).last() == x);
        assert(digit_val(x) == n % 10);
        assert(dec_digits(n) == a + seq![x]);
        assert(dec_val(a + seq![x]) == dec_val(a) * 10 + digit_val(x));
        assert(forall|i: int|
            0 <= i < a.len() ==> (a + seq![x])[i] == #[trigger] a[i]);
        assert(all_digits(a + seq![x]));
    }
}

/// The one-character string printing a single decimal digit.
pub fn digit_str(d: u8) -> (r: &'static str)
    requires
        d < 10,
    ensures
        r@ == seq![digit_char(d as int)],
{
    proof {
        reveal_strlit("0");
        reveal_strlit("1");
        reveal_strlit("2");
        reveal_strlit("3");
        reveal_strlit("4");
        reveal_strlit("5");
        reveal_strlit("6");
        reveal_strlit("7");
        reveal_strlit("8");
        reveal_strlit("9");
    }
    let r = match d {
        0 => "0",
        1 => "1",
        2 => "2",
        3 => "3",
        4 => "4",
        5 => "5",
        6 => "6",
        7 => "7",
        8 => "8",
        _ => "9",
    };
    proof {
        assert(r@ =~= seq![digit_char(d as int)]);
    }
    r
}

/// Prints `n` in decimal.
pub fn u64_to_dec_string(n: u64) -> (r: String)
    ensures
        r@ == dec_digits(n as nat),
{
    let mut digits: Vec<u8> = Vec::new();
    if n == 0 {
        digits.push(0);
        proof {
            assert(rev_digit_chars(digits@) =~= seq![digit_char(0)]);
        }
    } else {
        let mut m: u64 = n;
        while m > 0
            invariant
                if m > 0 {
                    dec_digits(n as nat) =~= dec_digits(m as nat) + rev_digit_chars(digits@)
                } else {
                    dec_digits(n as nat) =~= rev_digit_chars(digits@)
                },
                forall|i: int| 0 <= i < digits@.len() ==> #[trigger] digits@[i] < 10,
            decreases m,
        {
            let d: u8 = (m % 10) as u8;
            let m2: u64 = m / 10;
            proof {
                assert(rev_digit_chars(digits@.push(d)) =~= seq![digit_char(d as int)]
                    + rev_digit_chars(digits@));
                if m >= 10 {
                    assert(dec_digits(m as nat) == dec_digits((m as nat) / 10) + seq![
                        digit_char(((m as nat) % 10) as int),
                    ]);
                    assert(dec_digits(n as nat) =~= dec_digits(m2 as nat)
                        + rev_digit_chars(digits@.push(d)));
                } else {
                    assert(dec_digits(m as nat) == seq![digit_char(m as int)]);
                    assert(dec_digits(n as nat) =~= rev_digit_chars(digits@.push(d)));
                }
            }
            digits.push(d);
            m = m2;
        }
    }
    let mut r = String::new();
    let len: usize = digits.len();
    let mut k: usize = 0;
    while k < len
        invariant
            len == digits@.len(),
            k <= len,
            forall|i: int| 0 <= i < len ==> #[trigger] digits@[i] < 10,
            r@ =~= rev_digit_chars(digits@).subrange(0, k as int),
            dec_digits(n as nat) =~= rev_digit_chars(digits@),
        decreases len - k,
    {
        let d: u8 = digits[len - 1 - k];
        r.append(digit_str(d));
        proof {
            assert(rev_digit_chars(digits@).subrange(0, k as int + 1) =~= rev_digit_chars(
                digits@,
            ).subrange(0, k as int) + seq![digit_char(d as int)]);
        }
        k += 1;
    }
    proof {
        assert(rev_digit_chars(digits@).subrange(0, len as int) =~= rev_digit_chars(digits@));
    }
    r
}

/// Parses a port number the way `str::parse::<u16>` does.
pub fn parse_u16(s: &str) -> (r: Option<u16>)
    ensures
        r == spec_parse_u16(s@),
{
    let n: usize = s.unicode_len();
    let start: usize = if n >= 1 && s.get_char(0) == '+' {
        1
    } else {
        0
    };
    let ghost body = if s@.len() >= 1 && s@[0] == '+' {
        s@.skip(1)
    } else {
        s@
    };
    proof {
        assert(body =~= s@.subrange(start as int, n as int));
    }
    if start == n {
        return None;
    }
    let mut acc: u32 = 0;
    let mut i: usize = start;
    while i < n
        invariant
            n == s@.len(),
            start <= i <= n,
            start == 1 || start == 0,
            body == s@.subrange(start as int, n as int),
            body == (if s@.len() >= 1 && s@[0] == '+' {
                s@.skip(1)
            } else {
                s@
            }),
            acc <= 65535,
            all_digits(body.subrange(0, i - start)),
            acc == dec_val(body.subrange(0, i - start)),
        decreases n - i,
    {
        let c = s.get_char(i);
        if !('0' <= c && c <= '9') {
            proof {
                assert(body[i - start] == c);
                assert(!is_digit(body[i - start]));
            }
            return None;
        }
        let d: u32 = c as u32 - 48;
        proof {
            assert(body.subrange(0, i + 1 - start).drop_last() =~= body.subrange(
                0,
                i - start,
            ));
            assert(body.subrange(0, i + 1 - start).last() == c);
            assert(digit_val(c) == d);
        }
        let next: u32 = acc * 10 + d;
        if next > 65535 {
            proof {
                assert(all_digits(body.subrange(0, i + 1 - start)));
                assert(dec_val(body.subrange(0, i + 1 - start)) == next);
                if all_digits(body) {
                    lemma_dec_val_prefix(body, i + 1 - start);
                    assert(body.subrange(0, body.len() as int) =~= body);
                    assert(dec_val(body) > 65535);
                }
            }
            return None;
        }
        acc = next;
        i += 1;
    }
    proof {
        assert(body.subrange(0, n - start) =~= body);
    }
    Some(acc as u16)
}

/// Parses a chunk-size field the way `usize::from_str_radix(.., 16)` does.
pub fn parse_hex_usize(s: &[u8]) -> (r: Option<usize>)
    ensures
        r == spec_parse_hex_usize(s@),
{
    let n: usize = s.len();
    let start: usize = if n >= 1 && *slice_index_get(s, 0) == 43 {
        1
    } else {
        0
    };
    let ghost body = if s@.len() >= 1 && s@[0] == 43 {
        s@.skip(1)
    } else {
        s@
    };
    proof {
        assert(body =~= s@.subrange(start as int, n as int));
    }
    if start == n {
        return None;
    }
    let mut acc: u128 = 0;
    let mut i: usize = start;
    while i < n
        invariant
            n == s@.len(),
            start <= i <= n,
            start == 1 || start == 0,
            body == s@.subrange(start as int, n as int),
            body == (if s@.len() >= 1 && s@[0] == 43 {
                s@.skip(1)
            } else {
                s@
            }),
            acc <= usize::MAX,
            all_hex_digits(body.subrange(0, i - start)),
            acc == hex_seq_val(body.subrange(0, i - start)),
        decreases n - i,
    {
        let b: u8 = *slice_index_get(s, i);
        if !((48 <= b && b <= 57) || (97 <= b && b <= 102) || (65 <= b && b <= 70)) {
            proof {
                assert(body[i - start] == b);
                assert(!is_hex_digit(body[i - start]));
            }
            return None;
        }
        let d: u128 = if 48 <= b && b <= 57 {
            (b - 48) as u128
        } else if 97 <= b && b <= 102 {
            (b - 87) as u128
        } else {
            (b - 55) as u128
        };
        proof {
            assert(body.subrange(0, i + 1 - start).drop_last() =~= body.subrange(
                0,
                i - start,
            ));
            assert(body.subrange(0, i + 1 - start).last() == b);
            assert(hex_val(b) == d);
        }
        let next: u128 = acc * 16 + d;
        if next > usize::MAX as u128 {
            proof {
                assert(all_hex_digits(body.subrange(0, i + 1 - start)));
                assert(hex_seq_val(body.subrange(0, i + 1 - start)) == next);
                if all_hex_digits(body) {
                    lemma_hex_val_prefix(body, i + 1 - start);
                    assert(body.subrange(0, body.len() as int) =~= body);
                    assert(hex_seq_val(body) > usize::MAX);
                }
            }
            return None;
        }
        acc = next;
        i += 1;
    }
    proof {
        assert(body.subrange(0, n - start) =~= body);
    }
    Some(acc as usize)
}

} // verus!
