//! Unsigned integer parsing with the grammar of Rust's `from_str_radix`:
//! an optional `+`, then at least one digit of the radix, with no other
//! characters, and a value no larger than the target type's maximum.
use vstd::prelude::*;

verus! {

/// The value of `c` as a digit in `radix` (digits `0-9`, then letters of
/// either case), if it is one.
pub open spec fn digit_value(c: char, radix: nat) -> Option<nat> {
    let u = c as u32;
    let v: nat = if '0' <= c && c <= '9' {
        (u - 48) as nat
    } else if 'a' <= c && c <= 'z' {
        (u - 97 + 10) as nat
    } else if 'A' <= c && c <= 'Z' {
        (u - 65 + 10) as nat
    } else {
        radix
    };
    if v < radix {
        Some(v)
    } else {
        None
    }
}

/// The value of a digit string read most significant digit first; `None`
/// if a character is not a digit.  The empty string has value 0.
pub open spec fn digits_value(s: Seq<char>, radix: nat) -> Option<nat>
    decreases s.len(),
{
    if s.len() == 0 {
        Some(0)
    } else {
        match (digits_value(s.drop_last(), radix), digit_value(s.last(), radix)) {
            (Some(a), Some(d)) => Some(a * radix + d),
            _ => None,
        }
    }
}

/// What `from_str_radix` accepts for an unsigned type whose largest value
/// is `max`.
pub open spec fn parse_unsigned(s: Seq<char>, radix: nat, max: nat) -> Option<nat> {
    if s.len() == 0 {
        None
    } else {
        let digits = if s[0] == '+' {
            s.drop_first()
        } else {
            s
        };
        if digits.len() == 0 {
            None
        } else {
            match digits_value(digits, radix) {
                Some(v) => if v <= max {
                    Some(v)
                } else {
                    None
                },
                None => None,
            }
        }
    }
}

fn exec_digit_value(c: char, radix: u32) -> (r: Option<u32>)
    requires
        2 <= radix <= 36,
    ensures
        match digit_value(c, radix as nat) {
            Some(v) => r == Some(v as u32),
            None => r is None,
        },
{
    let u = c as u32;
    let v: u32 = if '0' <= c && c <= '9' {
        u - 48
    } else if 'a' <= c && c <= 'z' {
        u - 97 + 10
    } else if 'A' <= c && c <= 'Z' {
        u - 65 + 10
    } else {
        radix
    };
    if v < radix {
        Some(v)
    } else {
        None
    }
}

/// Appending digits never makes the value smaller.
proof fn lemma_digits_value_grows(s: Seq<char>, radix: nat, i: int)
    requires
        radix >= 1,
        0 <= i <= s.len(),
        digits_value(s.subrange(0, i), radix) is Some,
        digits_value(s, radix) is Some,
    ensures
        digits_value(s, radix)->0 >= digits_value(s.subrange(0, i), radix)->0,
    decreases s.len() - i,
{
    if i == s.len() {
        assert(s.subrange(0, i) =~= s);
    } else {
        let t = s.drop_last();
        assert(t.subrange(0, i) =~= s.subrange(0, i));
        lemma_digits_value_grows(t, radix, i);
        let a = digits_value(t, radix)->0;
        let d = digit_value(s.last(), radix)->0;
        assert(a * radix + d >= a) by (nonlinear_arith)
            requires
                radix >= 1,
                a >= 0,
                d >= 0,
        ;
    }
}

/// Parses `s` as an unsigned number in `radix` no larger than `max`, with
/// the grammar of `from_str_radix`.
pub fn parse_unsigned_radix(s: &str, radix: u32, max: u64) -> (r: Option<u64>)
    requires
        2 <= radix <= 36,
    ensures
        match parse_unsigned(s@, radix as nat, max as nat) {
            Some(v) => r == Some(v as u64),
            None => r is None,
        },
{
    let n = s.unicode_len();
    if n == 0 {
        return None;
    }
    let start: usize = if s.get_char(0) == '+' {
        1
    } else {
        0
    };
    if start == n {
        return None;
    }
    let ghost digits = if s@[0] == '+' {
        s@.drop_first()
    } else {
        s@
    };
    assert(digits =~= s@.subrange(start as int, n as int));
    let mut acc: u64 = 0;
    let mut i: usize = start;
    assert(digits.subrange(0, 0) =~= Seq::<char>::empty());
    while i < n
        invariant
            n == s@.len(),
            start <= i <= n,
            2 <= radix <= 36,
            digits == s@.subrange(start as int, n as int),
            s@.len() > 0,
            digits.len() > 0,
            digits == (if s@[0] == '+' {
                s@.drop_first()
            } else {
                s@
            }),
            acc <= max,
            digits_value(digits.subrange(0, i - start), radix as nat) == Some(acc as nat),
        decreases n - i,
    {
        let c = s.get_char(i);
        let ghost pre = digits.subrange(0, i - start);
        let ghost next = digits.subrange(0, i - start + 1);
        assert(next.drop_last() =~= pre);
        assert(next.last() == c);
        match exec_digit_value(c, radix) {
            None => {
                proof {
                    assert(digit_value(next.last(), radix as nat) is None);
                    assert(digits_value(next, radix as nat) is None);
                    lemma_digits_none_extends(digits, radix as nat, i - start + 1);
                }
                return None;
            },
            Some(d) => {
                assert((acc as u128) * (radix as u128) <= 0xffff_ffff_ffff_ffffu128 * 36)
                    by (nonlinear_arith)
                    requires
                        acc <= 0xffff_ffff_ffff_ffffu64,
                        radix <= 36,
                ;
                let wide: u128 = (acc as u128) * (radix as u128) + (d as u128);
                assert(wide == acc * radix + d);
                if wide > max as u128 {
                    proof {
                        if digits_value(digits, radix as nat) is Some {
                            lemma_digits_value_grows(digits, radix as nat, i - start + 1);
                        }
                    }
                    return None;
                }
                acc = wide as u64;
            },
        }
        i += 1;
    }
    assert(digits.subrange(0, n - start) =~= digits);
    Some(acc)
}

/// A non-digit anywhere makes the whole string fail.
proof fn lemma_digits_none_extends(s: Seq<char>, radix: nat, i: int)
    requires
        0 <= i <= s.len(),
        digits_value(s.subrange(0, i), radix) is None,
    ensures
        digits_value(s, radix) is None,
    decreases s.len() - i,
{
    if i == s.len() {
        assert(s.subrange(0, i) =~= s);
    } else {
        let t = s.drop_last();
        assert(t.subrange(0, i) =~= s.subrange(0, i));
        lemma_digits_none_extends(t, radix, i);
    }
}

/// The decimal digit for `d < 10`.
pub open spec fn decimal_digit(d: nat) -> char {
    (48 + d) as char
}

/// `n` written in decimal, without leading zeros.
pub open spec fn decimal(n: nat) -> Seq<char>
    decreases n,
{
    if n < 10 {
        seq![decimal_digit(n)]
    } else {
        decimal(n / 10).push(decimal_digit(n % 10))
    }
}

proof fn lemma_decimal_value(n: nat)
    ensures
        digits_value(decimal(n), 10) == Some(n),
        decimal(n).len() > 0,
        decimal(n)[0] != '+',
    decreases n,
{
    if n < 10 {
        let s = decimal(n);
        assert(s.drop_last() =~= Seq::<char>::empty());
        assert(digit_value(decimal_digit(n), 10) == Some(n));
        assert(s.last() == decimal_digit(n));
        assert(digits_value(s.drop_last(), 10) == Some(0nat));
        assert(digits_value(s, 10) == Some(0 * 10 + n));
    } else {
        lemma_decimal_value(n / 10);
        let s = decimal(n);
        assert(s.drop_last() =~= decimal(n / 10));
        assert(digit_value(decimal_digit(n % 10), 10) == Some(n % 10));
        assert((n / 10) * 10 + n % 10 == n) by (nonlinear_arith);
        assert(s.last() == decimal_digit(n % 10));
        assert(digits_value(s, 10) == Some((n / 10) * 10 + n % 10));
        assert(s[0] == decimal(n / 10)[0]);
    }
}

/// A number written in decimal reads back as itself, up to the maximum.
pub proof fn lemma_decimal_parses(n: nat, max: nat)
    requires
        n <= max,
    ensures
        parse_unsigned(decimal(n), 10, max) == Some(n),
{
    lemma_decimal_value(n);
}

/// `str::parse::<u16>`.
pub fn parse_u16(s: &str) -> (r: Option<u16>)
    ensures
        match parse_unsigned(s@, 10, 0xffff) {
            Some(v) => r == Some(v as u16),
            None => r is None,
        },
{
    match parse_unsigned_radix(s, 10, 0xffff) {
        Some(v) => Some(v as u16),
        None => None,
    }
}

/// `str::parse::<usize>`.
pub fn parse_usize(s: &str) -> (r: Option<usize>)
    ensures
        match parse_unsigned(s@, 10, usize::MAX as nat) {
            Some(v) => r == Some(v as usize),
            None => r is None,
        },
{
    match parse_unsigned_radix(s, 10, usize::MAX as u64) {
        Some(v) => Some(v as usize),
        None => None,
    }
}

/// `u8::from_str_radix(s, 16)`.
pub fn parse_hex_u8(s: &str) -> (r: Option<u8>)
    ensures
        match parse_unsigned(s@, 16, 0xff) {
            Some(v) => r == Some(v as u8),
            None => r is None,
        },
{
    match parse_unsigned_radix(s, 16, 0xff) {
        Some(v) => Some(v as u8),
        None => None,
    }
}

} // verus!
