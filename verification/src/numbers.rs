//! Integer text: parsing as `str::parse` / `from_str_radix` do, and decimal display.

use vstd::prelude::*;

verus! {

/// Value of `c` as a digit in `radix` (10 or 16), if it is one.
pub open spec fn digit_of(c: char, radix: nat) -> Option<nat> {
    if '0' <= c && c <= '9' && ((c as nat) - ('0' as nat)) < radix {
        Some(((c as nat) - ('0' as nat)) as nat)
    } else if radix == 16 && 'a' <= c && c <= 'f' {
        Some(((c as nat) - ('a' as nat) + 10) as nat)
    } else if radix == 16 && 'A' <= c && c <= 'F' {
        Some(((c as nat) - ('A' as nat) + 10) as nat)
    } else {
        None
    }
}

/// Every character is a digit in `radix`.
pub open spec fn all_digits(d: Seq<char>, radix: nat) -> bool {
    forall|i: int| 0 <= i < d.len() ==> (#[trigger] digit_of(d[i], radix)) is Some
}

/// Value of the digit string `d` in `radix`.
pub open spec fn digits_value(d: Seq<char>, radix: nat) -> nat
    decreases d.len(),
{
    if d.len() == 0 {
        0
    } else {
        digits_value(d.drop_last(), radix) * radix + match digit_of(d.last(), radix) {
            Some(v) => v,
            None => 0,
        }
    }
}

/// The digits after an optional leading `+`.
pub open spec fn unsigned_digits(t: Seq<char>) -> Seq<char> {
    if t.len() > 0 && t[0] == '+' {
        t.drop_first()
    } else {
        t
    }
}

/// `from_str_radix` for an unsigned type whose largest value is `max`.
pub open spec fn parse_unsigned(t: Seq<char>, radix: nat, max: nat) -> Option<nat> {
    let d = unsigned_digits(t);
    if d.len() > 0 && all_digits(d, radix) && digits_value(d, radix) <= max {
        Some(digits_value(d, radix))
    } else {
        None
    }
}

/// `i64::from_str`.
pub open spec fn parse_i64_spec(t: Seq<char>) -> Option<int> {
    if t.len() > 0 && t[0] == '-' {
        let d = t.drop_first();
        if d.len() > 0 && all_digits(d, 10) && digits_value(d, 10) <= 0x8000_0000_0000_0000 {
            Some(-(digits_value(d, 10) as int))
        } else {
            None
        }
    } else {
        match parse_unsigned(t, 10, 0x7fff_ffff_ffff_ffff) {
            Some(v) => Some(v as int),
            None => None,
        }
    }
}

pub proof fn lemma_digits_value_mono(d: Seq<char>, radix: nat, i: int)
    requires
        0 <= i <= d.len(),
        radix >= 1,
    ensures
        digits_value(d.take(i), radix) <= digits_value(d, radix),
    decreases d.len() - i,
{
    if i < d.len() {
        lemma_digits_value_mono(d, radix, i + 1);
        let p = d.take(i + 1);
        assert(p.drop_last() =~= d.take(i));
        assert(digits_value(p, radix) >= digits_value(d.take(i), radix) * radix) by (nonlinear_arith)
            requires
                digits_value(p, radix) >= digits_value(p.drop_last(), radix) * radix,
                p.drop_last() == d.take(i),
        {}
        assert(digits_value(d.take(i), radix) * radix >= digits_value(d.take(i), radix)) by (nonlinear_arith)
            requires radix >= 1,
        {}
    } else {
        assert(d.take(i) =~= d);
    }
}

/// Digit value of one character.
pub fn digit_value(c: char, radix: u32) -> (r: Option<u32>)
    requires
        radix == 10 || radix == 16,
    ensures
        match r {
            Some(v) => digit_of(c, radix as nat) == Some(v as nat),
            None => digit_of(c, radix as nat) is None,
        },
{
    if '0' <= c && c <= '9' {
        let v = (c as u32) - ('0' as u32);
        if v < radix {
            Some(v)
        } else {
            None
        }
    } else if radix == 16 && 'a' <= c && c <= 'f' {
        Some((c as u32) - ('a' as u32) + 10)
    } else if radix == 16 && 'A' <= c && c <= 'F' {
        Some((c as u32) - ('A' as u32) + 10)
    } else {
        None
    }
}

/// Value of an all-digit string, or `None` when a character is not a digit
/// or the value exceeds `max`.
pub fn digits_to_u64(d: &[char], radix: u32, max: u64) -> (r: Option<u64>)
    requires
        radix == 10 || radix == 16,
    ensures
        match r {
            Some(v) => all_digits(d@, radix as nat) && digits_value(d@, radix as nat) == v
                && v <= max,
            None => !(all_digits(d@, radix as nat) && digits_value(d@, radix as nat) <= max),
        },
{
    let mut acc: u64 = 0;
    let mut i: usize = 0;
    while i < d.len()
        invariant
            radix == 10 || radix == 16,
            i <= d@.len(),
            all_digits(d@.take(i as int), radix as nat),
            digits_value(d@.take(i as int), radix as nat) == acc,
            acc <= max,
        decreases d.len() - i,
    {
        let ghost p = d@.take(i + 1);
        assert(p.drop_last() =~= d@.take(i as int));
        match digit_value(d[i], radix) {
            None => {
                assert(!all_digits(d@, radix as nat)) by {
                    assert(digit_of(d@[i as int], radix as nat) is None);
                }
                return None;
            },
            Some(dv) => {
                let scaled: u128 = if radix == 10 {
                    (acc as u128) * 10
                } else {
                    (acc as u128) * 16
                };
                assert(dv < 16);
                let wide: u128 = scaled + (dv as u128);
                assert(digits_value(p, radix as nat) == wide);
                if wide > max as u128 {
                    proof {
                        lemma_digits_value_mono(d@, radix as nat, i + 1);
                    }
                    return None;
                }
                acc = wide as u64;
                i += 1;
                assert(all_digits(d@.take(i as int), radix as nat)) by {
                    assert forall|k: int| 0 <= k < i implies (#[trigger] digit_of(
                        d@.take(i as int)[k],
                        radix as nat,
                    )) is Some by {
                        if k < i - 1 {
                            assert(d@.take(i as int)[k] == d@.take(i - 1)[k]);
                        }
                    }
                }
            },
        }
    }
    assert(d@.take(d@.len() as int) =~= d@);
    Some(acc)
}

/// `from_str_radix` for an unsigned integer type whose largest value is `max`.
pub fn parse_unsigned_chars(t: &[char], radix: u32, max: u64) -> (r: Option<u64>)
    requires
        radix == 10 || radix == 16,
    ensures
        match r {
            Some(v) => parse_unsigned(t@, radix as nat, max as nat) == Some(v as nat),
            None => parse_unsigned(t@, radix as nat, max as nat) is None,
        },
{
    let start: usize = if t.len() > 0 && t[0] == '+' {
        1
    } else {
        0
    };
    if start >= t.len() {
        return None;
    }
    let d = crate::text::sub_chars(t, start, t.len());
    assert(d@ =~= unsigned_digits(t@));
    digits_to_u64(&d, radix, max)
}

/// `i64::from_str`.
pub fn parse_i64_chars(t: &[char]) -> (r: Option<i64>)
    ensures
        match r {
            Some(v) => parse_i64_spec(t@) == Some(v as int),
            None => parse_i64_spec(t@) is None,
        },
{
    if t.len() > 0 && t[0] == '-' {
        if t.len() == 1 {
            return None;
        }
        let d = crate::text::sub_chars(t, 1, t.len());
        assert(d@ =~= t@.drop_first());
        match digits_to_u64(&d, 10, 0x8000_0000_0000_0000) {
            Some(v) => {
                let w: i128 = 0i128 - (v as i128);
                Some(w as i64)
            },
            None => None,
        }
    } else {
        match parse_unsigned_chars(t, 10, 0x7fff_ffff_ffff_ffff) {
            Some(v) => Some(v as i64),
            None => None,
        }
    }
}

/// ASCII character of decimal digit `d`.
pub open spec fn digit_char(d: nat) -> char {
    ((d + 48) as u32) as char
}

/// Decimal representation of `n` (`Display` for unsigned integers).
pub open spec fn dec_str(n: nat) -> Seq<char>
    decreases n,
{
    if n < 10 {
        seq![digit_char(n)]
    } else {
        dec_str(n / 10).push(digit_char(n % 10))
    }
}

/// Decimal representation of `n` (`Display` for signed integers).
pub open spec fn int_str(n: int) -> Seq<char> {
    if n < 0 {
        seq!['-'] + dec_str((-n) as nat)
    } else {
        dec_str(n as nat)
    }
}

/// Decimal text of an unsigned value.
pub fn u64_text(n: u64) -> (r: Vec<char>)
    ensures
        r@ == dec_str(n as nat),
    decreases n,
{
    let d = crate::text::char_from_ascii(((n % 10) as u32) + 48);
    if n < 10 {
        let mut r: Vec<char> = Vec::new();
        r.push(d);
        assert(r@ =~= dec_str(n as nat));
        r
    } else {
        let mut r = u64_text(n / 10);
        r.push(d);
        r
    }
}

/// Decimal text of a signed value.
pub fn i64_text(n: i64) -> (r: Vec<char>)
    ensures
        r@ == int_str(n as int),
{
    if n < 0 {
        let m: u64 = (0i128 - (n as i128)) as u64;
        let t = u64_text(m);
        let mut r: Vec<char> = Vec::new();
        r.push('-');
        crate::text::push_all(&mut r, &t);
        assert(r@ =~= int_str(n as int));
        r
    } else {
        u64_text(n as u64)
    }
}

/// Upper-case hexadecimal digit character of `d < 16`.
pub open spec fn hex_char(d: nat) -> char {
    if d < 10 {
        ((d + 48) as u32) as char
    } else {
        ((d + 55) as u32) as char
    }
}

/// `format!("0x{b:02X}")`.
pub open spec fn hex_byte(b: u8) -> Seq<char> {
    seq!['0', 'x', hex_char((b as nat) / 16), hex_char((b as nat) % 16)]
}

/// `format!("{b:02X}")`.
pub open spec fn hex_pair(b: u8) -> Seq<char> {
    seq![hex_char((b as nat) / 16), hex_char((b as nat) % 16)]
}

pub fn hex_digit(d: u8) -> (c: char)
    requires
        d < 16,
    ensures
        c == hex_char(d as nat),
{
    if d < 10 {
        crate::text::char_from_ascii((d as u32) + 48)
    } else {
        crate::text::char_from_ascii((d as u32) + 55)
    }
}

/// Two upper-case hex digits of `b`.
pub fn hex_pair_text(b: u8) -> (r: Vec<char>)
    ensures
        r@ == hex_pair(b),
{
    let mut r: Vec<char> = Vec::new();
    r.push(hex_digit(b / 16));
    r.push(hex_digit(b % 16));
    assert(r@ =~= hex_pair(b));
    r
}

/// `0x` followed by two upper-case hex digits of `b`.
pub fn hex_byte_text(b: u8) -> (r: Vec<char>)
    ensures
        r@ == hex_byte(b),
{
    let mut r: Vec<char> = Vec::new();
    r.push('0');
    r.push('x');
    r.push(hex_digit(b / 16));
    r.push(hex_digit(b % 16));
    assert(r@ =~= hex_byte(b));
    r
}

/// `i32::from_str`.
pub open spec fn parse_i32_spec(t: Seq<char>) -> Option<int> {
    if t.len() > 0 && t[0] == '-' {
        let d = t.drop_first();
        if d.len() > 0 && all_digits(d, 10) && digits_value(d, 10) <= 0x8000_0000 {
            Some(-(digits_value(d, 10) as int))
        } else {
            None
        }
    } else {
        match parse_unsigned(t, 10, 0x7fff_ffff) {
            Some(v) => Some(v as int),
            None => None,
        }
    }
}

/// `i32::from_str`.
pub fn parse_i32_chars(t: &[char]) -> (r: Option<i32>)
    ensures
        match r {
            Some(v) => parse_i32_spec(t@) == Some(v as int),
            None => parse_i32_spec(t@) is None,
        },
{
    if t.len() > 0 && t[0] == '-' {
        if t.len() == 1 {
            return None;
        }
        let d = crate::text::sub_chars(t, 1, t.len());
        assert(d@ =~= t@.drop_first());
        match digits_to_u64(&d, 10, 0x8000_0000) {
            Some(v) => {
                let w: i64 = 0i64 - (v as i64);
                Some(w as i32)
            },
            None => None,
        }
    } else {
        match parse_unsigned_chars(t, 10, 0x7fff_ffff) {
            Some(v) => Some(v as i32),
            None => None,
        }
    }
}

/// `from_str` for a signed integer type whose largest value is `maxpos`
/// (its smallest is `-(maxpos + 1)`).
pub open spec fn parse_signed(t: Seq<char>, maxpos: nat) -> Option<int> {
    if t.len() > 0 && t[0] == '-' {
        let d = t.drop_first();
        if d.len() > 0 && all_digits(d, 10) && digits_value(d, 10) <= maxpos + 1 {
            Some(-(digits_value(d, 10) as int))
        } else {
            None
        }
    } else {
        match parse_unsigned(t, 10, maxpos) {
            Some(v) => Some(v as int),
            None => None,
        }
    }
}

/// `from_str` for a signed integer type whose largest value is `maxpos`.
pub fn parse_signed_chars(t: &[char], maxpos: u64) -> (r: Option<i64>)
    requires
        maxpos <= 0x7fff_ffff_ffff_ffff,
    ensures
        match r {
            Some(v) => parse_signed(t@, maxpos as nat) == Some(v as int),
            None => parse_signed(t@, maxpos as nat) is None,
        },
{
    if t.len() > 0 && t[0] == '-' {
        if t.len() == 1 {
            return None;
        }
        let d = crate::text::sub_chars(t, 1, t.len());
        assert(d@ =~= t@.drop_first());
        match digits_to_u64(&d, 10, maxpos + 1) {
            Some(v) => {
                let w: i128 = 0i128 - (v as i128);
                Some(w as i64)
            },
            None => None,
        }
    } else {
        match parse_unsigned_chars(t, 10, maxpos) {
            Some(v) => Some(v as i64),
            None => None,
        }
    }
}

} // verus!
