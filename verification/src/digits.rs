//! Decimal text: rendering integers as decimal strings and parsing them back.

use vstd::prelude::*;
use vstd::string::StringExecFns;

verus! {

/// The character for a single decimal digit value.
pub open spec fn digit_char(d: int) -> char {
    if d == 0 {
        '0'
    } else if d == 1 {
        '1'
    } else if d == 2 {
        '2'
    } else if d == 3 {
        '3'
    } else if d == 4 {
        '4'
    } else if d == 5 {
        '5'
    } else if d == 6 {
        '6'
    } else if d == 7 {
        '7'
    } else if d == 8 {
        '8'
    } else {
        '9'
    }
}

/// The decimal digit sequence of a nonnegative integer, without sign and
/// without leading zeros (except for the single digit of zero itself).
pub open spec fn dec_digits(n: nat) -> Seq<char>
    decreases n,
{
    if n < 10 {
        seq![digit_char(n as int)]
    } else {
        dec_digits(n / 10).push(digit_char((n % 10) as int))
    }
}

/// The decimal text of an integer: a leading '-' for negative values.
pub open spec fn dec_int(v: int) -> Seq<char> {
    if v < 0 {
        seq!['-'] + dec_digits((-v) as nat)
    } else {
        dec_digits(v as nat)
    }
}

fn digit_str(d: u32) -> (r: &'static str)
    requires
        d < 10,
    ensures
        r@ == seq![digit_char(d as int)],
{
    proof {
        reveal_strlit("0");
        reveal_strlit("1");
        reveal_strlit("2");
        reveal_strlit("3");
        reveal_strlit("4");
        reveal_strlit("5");
        reveal_strlit("6");
        reveal_strlit("7");
        reveal_strlit("8");
        reveal_strlit("9");
    }
    let r: &'static str = match d {
        0 => "0",
        1 => "1",
        2 => "2",
        3 => "3",
        4 => "4",
        5 => "5",
        6 => "6",
        7 => "7",
        8 => "8",
        _ => "9",
    };
    proof {
        assert(r@ =~= seq![digit_char(d as int)]);
    }
    r
}

/// Renders a nonnegative number in decimal.
pub fn u32_to_dec(n: u32) -> (r: String)
    ensures
        r@ == dec_digits(n as nat),
    decreases n,
{
    if n < 10 {
        String::from_str(digit_str(n))
    } else {
        let mut s = u32_to_dec(n / 10);
        s.append(digit_str(n % 10));
        proof {
            assert(s@ =~= dec_digits(n as nat));
        }
        s
    }
}

/// Renders a signed number in decimal, with a leading '-' when negative.
pub fn i32_to_dec(v: i32) -> (r: String)
    ensures
        r@ == dec_int(v as int),
{
    if v >= 0 {
        u32_to_dec(v as u32)
    } else {
        let mag64: i64 = -(v as i64);
        let mag: u32 = mag64 as u32;
        let mut s = String::from_str("-");
        let d = u32_to_dec(mag);
        s.append(d.as_str());
        proof {
            reveal_strlit("-");
            assert(s@ =~= dec_int(v as int));
        }
        s
    }
}

/// Whether a character is a decimal digit.
pub open spec fn is_dec_digit(c: char) -> bool {
    48 <= c as int && c as int <= 57
}

/// The value of a decimal digit character.
pub open spec fn digit_val(c: char) -> int {
    c as int - 48
}

/// Whether every character of the sequence is a decimal digit.
pub open spec fn all_dec_digits(s: Seq<char>) -> bool {
    forall|i: int| 0 <= i < s.len() ==> is_dec_digit(s[i])
}

/// The numeric value of a sequence of decimal digit characters.
pub open spec fn digits_val(s: Seq<char>) -> int
    decreases s.len(),
{
    if s.len() == 0 {
        0
    } else {
        digits_val(s.drop_last()) * 10 + digit_val(s.last())
    }
}

/// What parsing a string as a 32-bit signed integer yields: an optional
/// leading '+' or '-', then one or more decimal digits and nothing else,
/// with the value inside the 32-bit signed range; `None` otherwise.
pub open spec fn parse_i32_spec(s: Seq<char>) -> Option<int> {
    if s.len() == 0 {
        None
    } else {
        let signed = s[0] == '-' || s[0] == '+';
        let ds = if signed {
            s.subrange(1, s.len() as int)
        } else {
            s
        };
        if ds.len() == 0 || !all_dec_digits(ds) {
            None
        } else {
            let v = if s[0] == '-' {
                -digits_val(ds)
            } else {
                digits_val(ds)
            };
            if -0x8000_0000 <= v && v <= 0x7fff_ffff {
                Some(v)
            } else {
                None
            }
        }
    }
}

proof fn lemma_digits_val_nonneg(s: Seq<char>)
    requires
        all_dec_digits(s),
    ensures
        digits_val(s) >= 0,
    decreases s.len(),
{
    if s.len() > 0 {
        assert(all_dec_digits(s.drop_last()));
        lemma_digits_val_nonneg(s.drop_last());
    }
}

/// Parses a string as a 32-bit signed integer, exactly as `parse_i32_spec`
/// describes.
pub fn parse_i32(s: &str) -> (r: Option<i32>)
    ensures
        r is Some <==> parse_i32_spec(s@) is Some,
        r matches Some(v) ==> parse_i32_spec(s@) == Some(v as int),
{
    let n = s.unicode_len();
    if n == 0 {
        return None;
    }
    let first = s.get_char(0);
    let neg: bool = first == '-';
    let start: usize = if first == '-' || first == '+' {
        1
    } else {
        0
    };
    if start >= n {
        return None;
    }
    let ghost ds = if start == 1 {
        s@.subrange(1, n as int)
    } else {
        s@
    };
    let mut i: usize = start;
    let mut acc: i64 = 0;
    while i < n
        invariant
            start <= i <= n,
            n == s@.len(),
            start == 0 || start == 1,
            start == 1 ==> (s@[0] == '-' || s@[0] == '+'),
            start == 0 ==> !(s@[0] == '-' || s@[0] == '+'),
            neg == (s@[0] == '-'),
            start < n,
            ds == (if start == 1 { s@.subrange(1, n as int) } else { s@ }),
            all_dec_digits(s@.subrange(start as int, i as int)),
            0 <= acc <= 0x8000_0001,
            digits_val(s@.subrange(start as int, i as int)) <= 0x8000_0000 ==> acc
                == digits_val(s@.subrange(start as int, i as int)),
            digits_val(s@.subrange(start as int, i as int)) > 0x8000_0000 ==> acc == 0x8000_0001,
        decreases n - i,
    {
        let c = s.get_char(i);
        let cu = c as u32;
        let ghost pref = s@.subrange(start as int, i as int);
        let ghost pref1 = s@.subrange(start as int, i as int + 1);
        proof {
            assert(pref1.drop_last() =~= pref);
            assert(pref1.last() == s@[i as int]);
            lemma_digits_val_nonneg(pref);
        }
        if cu < 48 || cu > 57 {
            proof {
                assert(!is_dec_digit(ds[i - start]));
                assert(!all_dec_digits(ds));
            }
            return None;
        }
        let d: i64 = (cu - 48) as i64;
        proof {
            assert(all_dec_digits(pref1));
            assert(digits_val(pref1) == digits_val(pref) * 10 + digit_val(s@[i as int]));
        }
        acc = acc * 10 + d;
        if acc > 0x8000_0000 {
            acc = 0x8000_0001;
        }
        i += 1;
    }
    proof {
        assert(s@.subrange(start as int, n as int) =~= ds);
        lemma_digits_val_nonneg(ds);
    }
    if neg {
        if acc <= 0x8000_0000 {
            let out: i32 = (-acc) as i32;
            Some(out)
        } else {
            None
        }
    } else {
        if acc <= 0x7fff_ffff {
            let out: i32 = acc as i32;
            Some(out)
        } else {
            None
        }
    }
}

} // verus!
