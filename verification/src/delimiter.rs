//! The delimiter option of a hosted request: a keyword, a `0x` hex byte, or a
//! single ASCII character.
use vstd::prelude::*;

use crate::numeric::{digit_value, digits_value, parse_hex_u8, parse_unsigned};
use crate::text::{ascii_lower, ascii_lower_char, ascii_lower_equals, has_prefix, starts_with};

verus! {

/// The byte a delimiter option names.
///
/// Keywords and their one-character forms are compared without regard to
/// ASCII case: `comma`/`,`, `tab`/`\t` (a backslash and a `t`),
/// `semicolon`/`;`, `pipe`/`|`, `caret`/`^`.  Otherwise a value that starts
/// with `0x` or `0X` is the hex number after it (as `u8::from_str_radix`
/// reads it), and a value of a single byte (one ASCII character) is that
/// byte.  Anything else names no delimiter.
pub open spec fn spec_parse_delimiter(raw: Seq<char>) -> Option<u8> {
    let lower = ascii_lower(raw);
    if lower == "comma"@ || lower == ","@ {
        Some(44u8)
    } else if lower == "tab"@ || lower == "\\t"@ {
        Some(9u8)
    } else if lower == "semicolon"@ || lower == ";"@ {
        Some(59u8)
    } else if lower == "pipe"@ || lower == "|"@ {
        Some(124u8)
    } else if lower == "caret"@ || lower == "^"@ {
        Some(94u8)
    } else if has_prefix(raw, "0x"@) || has_prefix(raw, "0X"@) {
        match parse_unsigned(raw.skip(2), 16, 0xff) {
            Some(v) => Some(v as u8),
            None => None,
        }
    } else if raw.len() == 1 && (raw[0] as u32) < 128 {
        Some((raw[0] as u32) as u8)
    } else {
        None
    }
}

/// Parses a delimiter option; see [`spec_parse_delimiter`].
pub fn parse_delimiter(raw: &str) -> (r: Option<u8>)
    ensures
        r == spec_parse_delimiter(raw@),
{
    if ascii_lower_equals(raw, "comma") || ascii_lower_equals(raw, ",") {
        Some(44u8)
    } else if ascii_lower_equals(raw, "tab") || ascii_lower_equals(raw, "\\t") {
        Some(9u8)
    } else if ascii_lower_equals(raw, "semicolon") || ascii_lower_equals(raw, ";") {
        Some(59u8)
    } else if ascii_lower_equals(raw, "pipe") || ascii_lower_equals(raw, "|") {
        Some(124u8)
    } else if ascii_lower_equals(raw, "caret") || ascii_lower_equals(raw, "^") {
        Some(94u8)
    } else if starts_with(raw, "0x") || starts_with(raw, "0X") {
        proof {
            reveal_strlit("0x");
            reveal_strlit("0X");
        }
        let n = raw.unicode_len();
        let digits = raw.substring_char(2, n);
        assert(digits@ =~= raw@.skip(2));
        parse_hex_u8(digits)
    } else if raw.unicode_len() == 1 && (raw.get_char(0) as u32) < 128 {
        Some((raw.get_char(0) as u32) as u8)
    } else {
        None
    }
}

/// The lower-case hex digit for `d < 16`.
pub open spec fn hex_digit(d: nat) -> char {
    if d < 10 {
        (48 + d) as char
    } else {
        (97 + d - 10) as char
    }
}

/// Every single ASCII character names itself as a delimiter.
pub proof fn lemma_single_ascii_char_is_its_own_delimiter(c: char)
    requires
        (c as u32) < 128,
    ensures
        spec_parse_delimiter(seq![c]) == Some((c as u32) as u8),
{
    reveal_strlit("comma");
    reveal_strlit(",");
    reveal_strlit("tab");
    reveal_strlit("\\t");
    reveal_strlit("semicolon");
    reveal_strlit(";");
    reveal_strlit("pipe");
    reveal_strlit("|");
    reveal_strlit("caret");
    reveal_strlit("^");
    reveal_strlit("0x");
    reveal_strlit("0X");
    let s = seq![c];
    let l = ascii_lower(s);
    assert(l.len() == 1);
    assert(l[0] == crate::text::ascii_lower_char(c));
    if l == ","@ {
        assert(c == ',');
    }
    if l == ";"@ {
        assert(c == ';');
    }
    if l == "|"@ {
        assert(c == '|');
    }
    if l == "^"@ {
        assert(c == '^');
    }
}

/// `0x` followed by the two lower-case hex digits of a byte names that byte.
pub proof fn lemma_hex_byte_roundtrip(b: u8)
    ensures
        spec_parse_delimiter(seq!['0', 'x', hex_digit(b as nat / 16), hex_digit(b as nat % 16)])
            == Some(b),
{
    reveal_strlit("comma");
    reveal_strlit(",");
    reveal_strlit("tab");
    reveal_strlit("\\t");
    reveal_strlit("semicolon");
    reveal_strlit(";");
    reveal_strlit("pipe");
    reveal_strlit("|");
    reveal_strlit("caret");
    reveal_strlit("^");
    reveal_strlit("0x");
    reveal_strlit("0X");
    let hi = b as nat / 16;
    let lo = b as nat % 16;
    let s = seq!['0', 'x', hex_digit(hi), hex_digit(lo)];
    let l = ascii_lower(s);
    assert(l.len() == 4);
    assert(l[0] == '0');
    assert(!(l == "pipe"@)) by {
        assert("pipe"@[0] == 'p');
    }
    assert(has_prefix(s, "0x"@)) by {
        assert(s.subrange(0, 2) =~= "0x"@);
    }
    let digits = s.skip(2);
    assert(digits =~= seq![hex_digit(hi), hex_digit(lo)]);
    assert(crate::numeric::digit_value(hex_digit(hi), 16) == Some(hi));
    assert(crate::numeric::digit_value(hex_digit(lo), 16) == Some(lo));
    assert(digits.drop_last() =~= seq![hex_digit(hi)]);
    assert(digits.drop_last().drop_last() =~= Seq::<char>::empty());
    assert(seq![hex_digit(hi)].drop_last() =~= Seq::<char>::empty());
    assert(crate::numeric::digits_value(Seq::<char>::empty(), 16) == Some(0nat));
    assert(seq![hex_digit(hi)].last() == hex_digit(hi));
    assert(crate::numeric::digits_value(seq![hex_digit(hi)], 16) == Some(hi));
    assert(hi * 16 + lo == b as nat);
}

/// Lower-casing twice is lower-casing once.
pub proof fn lemma_ascii_lower_idempotent(s: Seq<char>)
    ensures
        ascii_lower(ascii_lower(s)) == ascii_lower(s),
{
    assert forall|i: int| 0 <= i < s.len() implies ascii_lower_char(ascii_lower_char(s[i]))
        == ascii_lower_char(s[i]) by {
        let c = s[i];
        if 'A' <= c && c <= 'Z' {
            assert(((c as u32) + 32) as char as u32 == (c as u32) + 32);
        }
    }
    assert(ascii_lower(ascii_lower(s)) =~= ascii_lower(s));
}

/// The keyword forms a delimiter option can take, in lower case.
pub open spec fn is_delimiter_keyword(lower: Seq<char>) -> bool {
    lower == "comma"@ || lower == ","@ || lower == "tab"@ || lower == "\\t"@ || lower
        == "semicolon"@ || lower == ";"@ || lower == "pipe"@ || lower == "|"@ || lower == "caret"@
        || lower == "^"@
}

/// Keywords are read without regard to ASCII case: each names its byte
/// however its letters are written, so a value and its lower-case form name
/// the same delimiter.
pub proof fn lemma_keywords_ignore_ascii_case(raw: Seq<char>)
    ensures
        ascii_lower(raw) == "comma"@ || ascii_lower(raw) == ","@ ==> spec_parse_delimiter(raw)
            == Some(44u8),
        ascii_lower(raw) == "tab"@ || ascii_lower(raw) == "\\t"@ ==> spec_parse_delimiter(raw)
            == Some(9u8),
        ascii_lower(raw) == "semicolon"@ || ascii_lower(raw) == ";"@ ==> spec_parse_delimiter(raw)
            == Some(59u8),
        ascii_lower(raw) == "pipe"@ || ascii_lower(raw) == "|"@ ==> spec_parse_delimiter(raw)
            == Some(124u8),
        ascii_lower(raw) == "caret"@ || ascii_lower(raw) == "^"@ ==> spec_parse_delimiter(raw)
            == Some(94u8),
        is_delimiter_keyword(ascii_lower(raw)) ==> spec_parse_delimiter(raw)
            == spec_parse_delimiter(ascii_lower(raw)),
{
    reveal_strlit("comma");
    reveal_strlit(",");
    reveal_strlit("tab");
    reveal_strlit("\\t");
    reveal_strlit("semicolon");
    reveal_strlit(";");
    reveal_strlit("pipe");
    reveal_strlit("|");
    reveal_strlit("caret");
    reveal_strlit("^");
    lemma_ascii_lower_idempotent(raw);
    assert("comma"@.len() == 5 && "caret"@.len() == 5 && "comma"@[1] != "caret"@[1]);
    assert("semicolon"@.len() == 9 && "pipe"@.len() == 4 && "tab"@.len() == 3);
    assert("\\t"@.len() == 2);
    assert(","@.len() == 1 && ";"@.len() == 1 && "|"@.len() == 1 && "^"@.len() == 1);
    assert(","@[0] != ";"@[0] && ","@[0] != "|"@[0] && ","@[0] != "^"@[0] && ";"@[0] != "|"@[0]
        && ";"@[0] != "^"@[0] && "|"@[0] != "^"@[0]);
}

/// `n` in hex, lower-case digits, no leading zeros.
pub open spec fn hex(n: nat) -> Seq<char>
    decreases n,
{
    if n < 16 {
        seq![hex_digit(n)]
    } else {
        hex(n / 16).push(hex_digit(n % 16))
    }
}

/// `k` zero digits.
pub open spec fn zeros(k: nat) -> Seq<char> {
    Seq::new(k, |i: int| '0')
}

proof fn lemma_hex_value(n: nat)
    ensures
        digits_value(hex(n), 16) == Some(n),
        hex(n).len() > 0,
        hex(n)[0] != '+',
        (hex(n)[0] as u32) >= 48,
    decreases n,
{
    if n < 16 {
        let s = hex(n);
        assert(s.drop_last() =~= Seq::<char>::empty());
        assert(digit_value(hex_digit(n), 16) == Some(n));
        assert(s.last() == hex_digit(n));
        assert(digits_value(s.drop_last(), 16) == Some(0nat));
        assert(digits_value(s, 16) == Some(0 * 16 + n));
    } else {
        lemma_hex_value(n / 16);
        let s = hex(n);
        assert(s.drop_last() =~= hex(n / 16));
        assert(digit_value(hex_digit(n % 16), 16) == Some(n % 16));
        assert((n / 16) * 16 + n % 16 == n) by (nonlinear_arith);
        assert(s.last() == hex_digit(n % 16));
        assert(digits_value(s, 16) == Some((n / 16) * 16 + n % 16));
        assert(s[0] == hex(n / 16)[0]);
    }
}

proof fn lemma_zeros_value(k: nat)
    ensures
        digits_value(zeros(k), 16) == Some(0nat),
    decreases k,
{
    if k > 0 {
        lemma_zeros_value((k - 1) as nat);
        assert(zeros(k).drop_last() =~= zeros((k - 1) as nat));
        assert(zeros(k).last() == '0');
        assert(digit_value('0', 16) == Some(0nat));
    } else {
        assert(zeros(k) =~= Seq::<char>::empty());
    }
}

proof fn lemma_leading_zeros(k: nat, b: Seq<char>)
    ensures
        digits_value(zeros(k) + b, 16) == digits_value(b, 16),
    decreases b.len(),
{
    if b.len() == 0 {
        lemma_zeros_value(k);
        assert(zeros(k) + b =~= zeros(k));
    } else {
        lemma_leading_zeros(k, b.drop_last());
        assert((zeros(k) + b).drop_last() =~= zeros(k) + b.drop_last());
        assert((zeros(k) + b).last() == b.last());
    }
}

/// A `0x` or `0X` value is the hex number after the prefix, with any number
/// of digits and leading zeros: every number up to 255 names that byte, and
/// larger numbers name none.
pub proof fn lemma_hex_values(upper: bool, k: nat, n: nat)
    ensures
        ({
            let prefix = if upper {
                "0X"@
            } else {
                "0x"@
            };
            spec_parse_delimiter(prefix + zeros(k) + hex(n)) == (if n <= 255 {
                Some(n as u8)
            } else {
                None
            })
        }),
{
    reveal_strlit("comma");
    reveal_strlit(",");
    reveal_strlit("tab");
    reveal_strlit("\\t");
    reveal_strlit("semicolon");
    reveal_strlit(";");
    reveal_strlit("pipe");
    reveal_strlit("|");
    reveal_strlit("caret");
    reveal_strlit("^");
    reveal_strlit("0x");
    reveal_strlit("0X");
    let prefix = if upper {
        "0X"@
    } else {
        "0x"@
    };
    let d = zeros(k) + hex(n);
    let s = prefix + d;
    assert(prefix + zeros(k) + hex(n) =~= s);
    lemma_hex_value(n);
    lemma_leading_zeros(k, hex(n));
    assert(s.len() >= 3);
    let l = ascii_lower(s);
    assert(l.len() == s.len());
    assert(l[0] == '0');
    assert(l != "comma"@ && l != "tab"@ && l != "semicolon"@ && l != "pipe"@ && l != "caret"@) by {
        assert("comma"@[0] != '0');
        assert("tab"@[0] != '0');
        assert("semicolon"@[0] != '0');
        assert("pipe"@[0] != '0');
        assert("caret"@[0] != '0');
    }
    assert(s.subrange(0, 2) =~= prefix);
    assert(upper ==> has_prefix(s, "0X"@));
    assert(!upper ==> has_prefix(s, "0x"@));
    assert(s.skip(2) =~= d);
    assert(d[0] != '+') by {
        if k > 0 {
            assert(d[0] == '0');
        } else {
            assert(d[0] == hex(n)[0]);
        }
    }
    assert(d.len() > 0);
    assert(digits_value(d, 16) == Some(n));
    assert(parse_unsigned(d, 16, 0xff) == (if n <= 255 {
        Some(n)
    } else {
        None
    }));
    assert(l != ","@ && l != ";"@ && l != "|"@ && l != "^"@ && l != "\\t"@);
    assert(has_prefix(s, "0x"@) || has_prefix(s, "0X"@));
    assert(!(s.len() == 1));
}

} // verus!
