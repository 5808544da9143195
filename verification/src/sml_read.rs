//! Reading SML text: `SxFy [W] [<item>] .` messages and bare `<item>` bodies.
//!
//! Item syntax: `<` type `[n]`? values `>`, where the type word (any case) is
//! `L`, `A`, `J`, `B`, `BOOLEAN`, `U1`, `U2`, `U4`, `U8`, `I1`, `I2`, `I4`,
//! `I8`, `F4` or `F8`. A list holds nested items; `A`/`J` hold at most one
//! double-quoted string (`\"` stands for a quote); the others hold
//! whitespace-separated values: bytes and unsigned values in decimal or
//! `0x` hex, signed values in decimal, booleans as `true`/`false`/`t`/`f`/`1`/`0`,
//! floats as decimal text.

use vstd::prelude::*;
use crate::numbers::{
    all_digits, digits_value, parse_signed, parse_signed_chars, parse_unsigned,
    parse_unsigned_chars, digits_to_u64,
};
use crate::secs2::{Item, Secs2, models, lemma_models, lemma_models_take};
use crate::text::{is_ws, is_whitespace, upper, to_upper, lower, to_lower, chars_eq_str, sub_chars, string_of, trim, trim_chars, chars_of};

verus! {

/// A character that ends a value token.
pub open spec fn is_delim(c: char) -> bool {
    is_ws(c) || c == '<' || c == '>'
}

/// First position at or after `i` that is not whitespace.
pub open spec fn ws_end(s: Seq<char>, i: int) -> int
    decreases s.len() - i,
{
    if 0 <= i < s.len() && is_ws(s[i]) {
        ws_end(s, i + 1)
    } else {
        i
    }
}

/// First position at or after `i` that ends a value token.
pub open spec fn tok_end(s: Seq<char>, i: int) -> int
    decreases s.len() - i,
{
    if 0 <= i < s.len() && !is_delim(s[i]) {
        tok_end(s, i + 1)
    } else {
        i
    }
}

/// ASCII letter or digit.
pub open spec fn is_word_char(c: char) -> bool {
    ('0' <= c && c <= '9') || ('a' <= c && c <= 'z') || ('A' <= c && c <= 'Z')
}

/// First position at or after `i` that is not a letter or digit.
pub open spec fn word_end(s: Seq<char>, i: int) -> int
    decreases s.len() - i,
{
    if 0 <= i < s.len() && is_word_char(s[i]) {
        word_end(s, i + 1)
    } else {
        i
    }
}

/// First position at or after `i` that is not a decimal digit.
pub open spec fn digit_end(s: Seq<char>, i: int) -> int
    decreases s.len() - i,
{
    if 0 <= i < s.len() && '0' <= s[i] && s[i] <= '9' {
        digit_end(s, i + 1)
    } else {
        i
    }
}

pub proof fn lemma_ws_end(s: Seq<char>, i: int)
    requires
        0 <= i <= s.len(),
    ensures
        i <= ws_end(s, i) <= s.len(),
    decreases s.len() - i,
{
    if 0 <= i < s.len() && is_ws(s[i]) {
        lemma_ws_end(s, i + 1);
    }
}

pub proof fn lemma_tok_end(s: Seq<char>, i: int)
    requires
        0 <= i <= s.len(),
    ensures
        i <= tok_end(s, i) <= s.len(),
    decreases s.len() - i,
{
    if 0 <= i < s.len() && !is_delim(s[i]) {
        lemma_tok_end(s, i + 1);
    }
}

pub proof fn lemma_word_end(s: Seq<char>, i: int)
    requires
        0 <= i <= s.len(),
    ensures
        i <= word_end(s, i) <= s.len(),
    decreases s.len() - i,
{
    if 0 <= i < s.len() && is_word_char(s[i]) {
        lemma_word_end(s, i + 1);
    }
}

pub proof fn lemma_digit_end(s: Seq<char>, i: int)
    requires
        0 <= i <= s.len(),
    ensures
        i <= digit_end(s, i) <= s.len(),
        forall|k: int| i <= k < digit_end(s, i) ==> '0' <= #[trigger] s[k] && s[k] <= '9',
    decreases s.len() - i,
{
    if 0 <= i < s.len() && '0' <= s[i] && s[i] <= '9' {
        lemma_digit_end(s, i + 1);
    }
}

/// Value tokens from `i` up to the closing `>`: the tokens and the position
/// of `>`, appended to `acc`.
pub open spec fn p_tokens(s: Seq<char>, i: int, acc: Seq<Seq<char>>) -> Option<(Seq<Seq<char>>, int)>
    decreases s.len() - i,
{
    let j = ws_end(s, i);
    if !(0 <= i <= j && j < s.len()) {
        None
    } else if s[j] == '>' {
        Some((acc, j))
    } else if s[j] == '<' {
        None
    } else {
        let k = tok_end(s, j);
        if j < k <= s.len() {
            p_tokens(s, k, acc.push(s.subrange(j, k)))
        } else {
            None
        }
    }
}

/// A quoted string body from `k` (just after the opening quote), appended to
/// `acc`; then optional whitespace and `>`. Gives the text and the position of `>`.
pub open spec fn p_quoted(s: Seq<char>, k: int, acc: Seq<char>) -> Option<(Seq<char>, int)>
    decreases s.len() - k,
{
    if !(0 <= k < s.len()) {
        None
    } else if s[k] == '\\' && k + 1 < s.len() && s[k + 1] == '"' {
        p_quoted(s, k + 2, acc.push('"'))
    } else if s[k] == '"' {
        let e = ws_end(s, k + 1);
        if e < s.len() && s[e] == '>' {
            Some((acc, e))
        } else {
            None
        }
    } else {
        p_quoted(s, k + 1, acc.push(s[k]))
    }
}

/// Text value at `c`: `>` alone (empty text) or one quoted string then `>`.
pub open spec fn p_text(s: Seq<char>, c: int) -> Option<(Seq<char>, int)> {
    if !(0 <= c < s.len()) {
        None
    } else if s[c] == '>' {
        Some((Seq::empty(), c))
    } else if s[c] == '"' {
        p_quoted(s, c + 1, Seq::empty())
    } else {
        None
    }
}

/// An unsigned token (decimal, or hex after `0x`/`0X`) of at most `max`.
pub open spec fn uint_tok(p: Seq<char>, max: nat) -> Option<nat> {
    if p.len() >= 2 && p[0] == '0' && (p[1] == 'x' || p[1] == 'X') {
        parse_unsigned(p.skip(2), 16, max)
    } else {
        parse_unsigned(p, 10, max)
    }
}

/// A boolean token.
pub open spec fn bool_tok(p: Seq<char>) -> Option<bool> {
    let l = lower(p);
    if l == "true"@ || l == "t"@ || l == "1"@ {
        Some(true)
    } else if l == "false"@ || l == "f"@ || l == "0"@ {
        Some(false)
    } else {
        None
    }
}

/// A character that may stand in the text of a float value.
pub open spec fn is_float_char(c: char) -> bool {
    ('0' <= c && c <= '9') || c == '+' || c == '-' || c == '.' || c == 'e' || c == 'E'
}

/// A float token: non-empty, made of digits, signs, `.` and exponent letters.
pub open spec fn float_tok(p: Seq<char>) -> bool {
    p.len() > 0 && forall|i: int| 0 <= i < p.len() ==> is_float_char(#[trigger] p[i])
}

/// Unsigned values of all tokens, if every one is one.
pub open spec fn uint_vals(t: Seq<Seq<char>>, max: nat) -> Option<Seq<nat>>
    decreases t.len(),
{
    if t.len() == 0 {
        Some(Seq::empty())
    } else {
        match (uint_vals(t.drop_last(), max), uint_tok(t.last(), max)) {
            (Some(v), Some(x)) => Some(v.push(x)),
            _ => None,
        }
    }
}

/// Signed values of all tokens, if every one is one.
pub open spec fn int_vals(t: Seq<Seq<char>>, maxpos: nat) -> Option<Seq<int>>
    decreases t.len(),
{
    if t.len() == 0 {
        Some(Seq::empty())
    } else {
        match (int_vals(t.drop_last(), maxpos), parse_signed(t.last(), maxpos)) {
            (Some(v), Some(x)) => Some(v.push(x)),
            _ => None,
        }
    }
}

/// Boolean values of all tokens, if every one is one.
pub open spec fn bool_vals(t: Seq<Seq<char>>) -> Option<Seq<bool>>
    decreases t.len(),
{
    if t.len() == 0 {
        Some(Seq::empty())
    } else {
        match (bool_vals(t.drop_last()), bool_tok(t.last())) {
            (Some(v), Some(x)) => Some(v.push(x)),
            _ => None,
        }
    }
}

/// The tokens, if every one is a float token.
pub open spec fn float_vals(t: Seq<Seq<char>>) -> Option<Seq<Seq<char>>> {
    if forall|i: int| 0 <= i < t.len() ==> float_tok(#[trigger] t[i]) {
        Some(t)
    } else {
        None
    }
}

/// The item of a leaf type word built from its value tokens.
pub open spec fn leaf_item(ty: Seq<char>, t: Seq<Seq<char>>) -> Option<Item> {
    if ty == "B"@ {
        match uint_vals(t, 255) {
            Some(v) => Some(Item::Binary(Seq::new(v.len(), |i: int| v[i] as u8))),
            None => None,
        }
    } else if ty == "BOOLEAN"@ {
        match bool_vals(t) {
            Some(v) => Some(Item::Boolean(v)),
            None => None,
        }
    } else if ty == "U1"@ {
        match uint_vals(t, 0xff) {
            Some(v) => Some(Item::Uint1(Seq::new(v.len(), |i: int| v[i] as u8))),
            None => None,
        }
    } else if ty == "U2"@ {
        match uint_vals(t, 0xffff) {
            Some(v) => Some(Item::Uint2(Seq::new(v.len(), |i: int| v[i] as u16))),
            None => None,
        }
    } else if ty == "U4"@ {
        match uint_vals(t, 0xffff_ffff) {
            Some(v) => Some(Item::Uint4(Seq::new(v.len(), |i: int| v[i] as u32))),
            None => None,
        }
    } else if ty == "U8"@ {
        match uint_vals(t, 0xffff_ffff_ffff_ffff) {
            Some(v) => Some(Item::Uint8(Seq::new(v.len(), |i: int| v[i] as u64))),
            None => None,
        }
    } else if ty == "I1"@ {
        match int_vals(t, 0x7f) {
            Some(v) => Some(Item::Int1(Seq::new(v.len(), |i: int| v[i] as i8))),
            None => None,
        }
    } else if ty == "I2"@ {
        match int_vals(t, 0x7fff) {
            Some(v) => Some(Item::Int2(Seq::new(v.len(), |i: int| v[i] as i16))),
            None => None,
        }
    } else if ty == "I4"@ {
        match int_vals(t, 0x7fff_ffff) {
            Some(v) => Some(Item::Int4(Seq::new(v.len(), |i: int| v[i] as i32))),
            None => None,
        }
    } else if ty == "I8"@ {
        match int_vals(t, 0x7fff_ffff_ffff_ffff) {
            Some(v) => Some(Item::Int8(Seq::new(v.len(), |i: int| v[i] as i64))),
            None => None,
        }
    } else if ty == "F4"@ {
        match float_vals(t) {
            Some(v) => Some(Item::Float4(v)),
            None => None,
        }
    } else if ty == "F8"@ {
        match float_vals(t) {
            Some(v) => Some(Item::Float8(v)),
            None => None,
        }
    } else {
        None
    }
}

/// Position after an optional `[n]` length at `c0` (already past whitespace),
/// then whitespace; `-1` when the brackets are malformed.
pub open spec fn after_length(s: Seq<char>, c0: int) -> int {
    if 0 <= c0 < s.len() && s[c0] == '[' {
        let d = digit_end(s, c0 + 1);
        if c0 + 1 < d < s.len() && s[d] == ']' {
            ws_end(s, d + 1)
        } else {
            -1
        }
    } else {
        c0
    }
}

/// One item starting with `<` at `i`: the item and the position after its `>`.
pub open spec fn p_item(s: Seq<char>, i: int) -> Option<(Item, int)>
    decreases s.len() - i, 0int,
{
    if !(0 <= i < s.len() && s[i] == '<') {
        None
    } else {
        let a = ws_end(s, i + 1);
        let b = word_end(s, a);
        let ty = upper(s.subrange(a, b));
        let c = after_length(s, ws_end(s, b));
        if !(i < a <= b <= c <= s.len()) {
            None
        } else if ty == "L"@ {
            match p_list(s, c, Seq::empty()) {
                Some((v, e)) => Some((Item::List(v), e + 1)),
                None => None,
            }
        } else if ty == "A"@ {
            match p_text(s, c) {
                Some((t, e)) => Some((Item::Ascii(t), e + 1)),
                None => None,
            }
        } else if ty == "J"@ {
            match p_text(s, c) {
                Some((t, e)) => Some((Item::Jis8(vstd::utf8::encode_utf8(t)), e + 1)),
                None => None,
            }
        } else {
            match p_tokens(s, c, Seq::empty()) {
                Some((t, e)) => match leaf_item(ty, t) {
                    Some(x) => Some((x, e + 1)),
                    None => None,
                },
                None => None,
            }
        }
    }
}

/// Items of a list from `i` up to the closing `>`, appended to `acc`: the
/// items and the position of `>`.
pub open spec fn p_list(s: Seq<char>, i: int, acc: Seq<Item>) -> Option<(Seq<Item>, int)>
    decreases s.len() - i, 1int,
{
    let j = ws_end(s, i);
    if !(0 <= i <= j && j < s.len()) {
        None
    } else if s[j] == '>' {
        Some((acc, j))
    } else {
        match p_item(s, j) {
            Some((x, k)) => if j < k <= s.len() {
                p_list(s, k, acc.push(x))
            } else {
                None
            },
            None => None,
        }
    }
}

// ---------------------------------------------------------------------------
// Executable reader.

fn skip_ws(s: &[char], i: usize) -> (r: usize)
    requires
        i <= s@.len(),
    ensures
        r as int == ws_end(s@, i as int),
        i <= r <= s@.len(),
{
    let mut j = i;
    while j < s.len() && is_whitespace(s[j])
        invariant
            i <= j <= s@.len(),
            ws_end(s@, i as int) == ws_end(s@, j as int),
        decreases s.len() - j,
    {
        j += 1;
    }
    j
}

fn skip_token(s: &[char], i: usize) -> (r: usize)
    requires
        i <= s@.len(),
    ensures
        r as int == tok_end(s@, i as int),
        i <= r <= s@.len(),
{
    let mut j = i;
    while j < s.len() && !(is_whitespace(s[j]) || s[j] == '<' || s[j] == '>')
        invariant
            i <= j <= s@.len(),
            tok_end(s@, i as int) == tok_end(s@, j as int),
        decreases s.len() - j,
    {
        j += 1;
    }
    j
}

fn skip_word(s: &[char], i: usize) -> (r: usize)
    requires
        i <= s@.len(),
    ensures
        r as int == word_end(s@, i as int),
        i <= r <= s@.len(),
{
    let mut j = i;
    while j < s.len() && (('0' <= s[j] && s[j] <= '9') || ('a' <= s[j] && s[j] <= 'z') || ('A'
        <= s[j] && s[j] <= 'Z'))
        invariant
            i <= j <= s@.len(),
            word_end(s@, i as int) == word_end(s@, j as int),
        decreases s.len() - j,
    {
        j += 1;
    }
    j
}

pub(crate) fn skip_digits(s: &[char], i: usize) -> (r: usize)
    requires
        i <= s@.len(),
    ensures
        r as int == digit_end(s@, i as int),
        i <= r <= s@.len(),
{
    let mut j = i;
    while j < s.len() && '0' <= s[j] && s[j] <= '9'
        invariant
            i <= j <= s@.len(),
            digit_end(s@, i as int) == digit_end(s@, j as int),
        decreases s.len() - j,
    {
        j += 1;
    }
    j
}

pub open spec fn seqs_view(v: Seq<Vec<char>>) -> Seq<Seq<char>> {
    Seq::new(v.len(), |i: int| v[i]@)
}

fn read_tokens(s: &[char], i: usize) -> (r: Option<(Vec<Vec<char>>, usize)>)
    requires
        i <= s@.len(),
    ensures
        match r {
            Some((t, e)) => p_tokens(s@, i as int, Seq::empty()) == Some((seqs_view(t@), e as int)) && e < s@.len(),
            None => p_tokens(s@, i as int, Seq::empty()) is None,
        },
{
    let mut acc: Vec<Vec<char>> = Vec::new();
    let mut pos = i;
    assert(seqs_view(acc@) =~= Seq::<Seq<char>>::empty());
    loop
        invariant
            pos <= s@.len(),
            p_tokens(s@, i as int, Seq::empty()) == p_tokens(s@, pos as int, seqs_view(acc@)),
        decreases s.len() - pos,
    {
        let j = skip_ws(s, pos);
        if j >= s.len() {
            return None;
        }
        if s[j] == '>' {
            return Some((acc, j));
        }
        if s[j] == '<' {
            return None;
        }
        let k = skip_token(s, j);
        if k <= j {
            return None;
        }
        let ghost prev = acc@;
        acc.push(sub_chars(s, j, k));
        assert(seqs_view(acc@) =~= seqs_view(prev).push(s@.subrange(j as int, k as int)));
        pos = k;
    }
}

fn read_quoted(s: &[char], k: usize) -> (r: Option<(Vec<char>, usize)>)
    requires
        k <= s@.len(),
    ensures
        match r {
            Some((t, e)) => p_quoted(s@, k as int, Seq::empty()) == Some((t@, e as int)) && e < s@.len(),
            None => p_quoted(s@, k as int, Seq::empty()) is None,
        },
{
    let mut acc: Vec<char> = Vec::new();
    let mut pos = k;
    loop
        invariant
            pos <= s@.len(),
            p_quoted(s@, k as int, Seq::empty()) == p_quoted(s@, pos as int, acc@),
        decreases s.len() - pos,
    {
        if pos >= s.len() {
            return None;
        }
        if s[pos] == '\\' && pos + 1 < s.len() && s[pos + 1] == '"' {
            acc.push('"');
            pos += 2;
        } else if s[pos] == '"' {
            let e = skip_ws(s, pos + 1);
            if e < s.len() && s[e] == '>' {
                return Some((acc, e));
            }
            return None;
        } else {
            acc.push(s[pos]);
            pos += 1;
        }
    }
}

fn read_text(s: &[char], c: usize) -> (r: Option<(Vec<char>, usize)>)
    requires
        c <= s@.len(),
    ensures
        match r {
            Some((t, e)) => p_text(s@, c as int) == Some((t@, e as int)) && e < s@.len(),
            None => p_text(s@, c as int) is None,
        },
{
    if c >= s.len() {
        return None;
    }
    if s[c] == '>' {
        return Some((Vec::new(), c));
    }
    if s[c] == '"' {
        return read_quoted(s, c + 1);
    }
    None
}

fn uint_token_value(p: &[char], max: u64) -> (r: Option<u64>)
    ensures
        match r {
            Some(v) => uint_tok(p@, max as nat) == Some(v as nat),
            None => uint_tok(p@, max as nat) is None,
        },
{
    if p.len() >= 2 && p[0] == '0' && (p[1] == 'x' || p[1] == 'X') {
        let d = sub_chars(p, 2, p.len());
        assert(d@ =~= p@.skip(2));
        parse_unsigned_chars(&d, 16, max)
    } else {
        parse_unsigned_chars(p, 10, max)
    }
}

fn read_uints(t: &Vec<Vec<char>>, max: u64) -> (r: Option<Vec<u64>>)
    ensures
        match r {
            Some(v) => uint_vals(seqs_view(t@), max as nat) == Some(Seq::new(v@.len(), |i: int| v@[i] as nat)),
            None => uint_vals(seqs_view(t@), max as nat) is None,
        },
{
    let mut out: Vec<u64> = Vec::new();
    let mut i: usize = 0;
    while i < t.len()
        invariant
            i <= t@.len(),
            uint_vals(seqs_view(t@).take(i as int), max as nat) == Some(Seq::new(out@.len(), |k: int| out@[k] as nat)),
        decreases t.len() - i,
    {
        let ghost pre = seqs_view(t@).take(i + 1);
        assert(pre.drop_last() =~= seqs_view(t@).take(i as int));
        assert(pre.last() == t@[i as int]@);
        match uint_token_value(&t[i], max) {
            Some(x) => {
                out.push(x);
                assert(Seq::new(out@.len(), |k: int| out@[k] as nat) =~= Seq::new((out@.len() - 1) as nat, |k: int| out@[k] as nat).push(x as nat));
            },
            None => {
                proof {
                    lemma_uint_vals_none(seqs_view(t@), max as nat, i + 1);
                }
                return None;
            },
        }
        i += 1;
    }
    assert(seqs_view(t@).take(t@.len() as int) =~= seqs_view(t@));
    Some(out)
}

proof fn lemma_uint_vals_none(t: Seq<Seq<char>>, max: nat, i: int)
    requires
        0 <= i <= t.len(),
        uint_vals(t.take(i), max) is None,
    ensures
        uint_vals(t, max) is None,
    decreases t.len() - i,
{
    if i < t.len() {
        assert(t.take(i + 1).drop_last() =~= t.take(i));
        lemma_uint_vals_none(t, max, i + 1);
    } else {
        assert(t.take(i) =~= t);
    }
}

proof fn lemma_int_vals_none(t: Seq<Seq<char>>, maxpos: nat, i: int)
    requires
        0 <= i <= t.len(),
        int_vals(t.take(i), maxpos) is None,
    ensures
        int_vals(t, maxpos) is None,
    decreases t.len() - i,
{
    if i < t.len() {
        assert(t.take(i + 1).drop_last() =~= t.take(i));
        lemma_int_vals_none(t, maxpos, i + 1);
    } else {
        assert(t.take(i) =~= t);
    }
}

proof fn lemma_bool_vals_none(t: Seq<Seq<char>>, i: int)
    requires
        0 <= i <= t.len(),
        bool_vals(t.take(i)) is None,
    ensures
        bool_vals(t) is None,
    decreases t.len() - i,
{
    if i < t.len() {
        assert(t.take(i + 1).drop_last() =~= t.take(i));
        lemma_bool_vals_none(t, i + 1);
    } else {
        assert(t.take(i) =~= t);
    }
}

fn read_ints(t: &Vec<Vec<char>>, maxpos: u64) -> (r: Option<Vec<i64>>)
    requires
        maxpos <= 0x7fff_ffff_ffff_ffff,
    ensures
        match r {
            Some(v) => int_vals(seqs_view(t@), maxpos as nat) == Some(Seq::new(v@.len(), |i: int| v@[i] as int)),
            None => int_vals(seqs_view(t@), maxpos as nat) is None,
        },
{
    let mut out: Vec<i64> = Vec::new();
    let mut i: usize = 0;
    while i < t.len()
        invariant
            i <= t@.len(),
            maxpos <= 0x7fff_ffff_ffff_ffff,
            int_vals(seqs_view(t@).take(i as int), maxpos as nat) == Some(Seq::new(out@.len(), |k: int| out@[k] as int)),
        decreases t.len() - i,
    {
        let ghost pre = seqs_view(t@).take(i + 1);
        assert(pre.drop_last() =~= seqs_view(t@).take(i as int));
        assert(pre.last() == t@[i as int]@);
        match parse_signed_chars(&t[i], maxpos) {
            Some(x) => {
                out.push(x);
                assert(Seq::new(out@.len(), |k: int| out@[k] as int) =~= Seq::new((out@.len() - 1) as nat, |k: int| out@[k] as int).push(x as int));
            },
            None => {
                proof {
                    lemma_int_vals_none(seqs_view(t@), maxpos as nat, i + 1);
                }
                return None;
            },
        }
        i += 1;
    }
    assert(seqs_view(t@).take(t@.len() as int) =~= seqs_view(t@));
    Some(out)
}

fn bool_token_value(p: &[char]) -> (r: Option<bool>)
    ensures
        r == bool_tok(p@),
{
    let l = to_lower(p);
    if chars_eq_str(&l, "true") || chars_eq_str(&l, "t") || chars_eq_str(&l, "1") {
        Some(true)
    } else if chars_eq_str(&l, "false") || chars_eq_str(&l, "f") || chars_eq_str(&l, "0") {
        Some(false)
    } else {
        None
    }
}

fn read_bools(t: &Vec<Vec<char>>) -> (r: Option<Vec<bool>>)
    ensures
        match r {
            Some(v) => bool_vals(seqs_view(t@)) == Some(v@),
            None => bool_vals(seqs_view(t@)) is None,
        },
{
    let mut out: Vec<bool> = Vec::new();
    let mut i: usize = 0;
    while i < t.len()
        invariant
            i <= t@.len(),
            bool_vals(seqs_view(t@).take(i as int)) == Some(out@),
        decreases t.len() - i,
    {
        let ghost pre = seqs_view(t@).take(i + 1);
        assert(pre.drop_last() =~= seqs_view(t@).take(i as int));
        assert(pre.last() == t@[i as int]@);
        match bool_token_value(&t[i]) {
            Some(x) => {
                out.push(x);
            },
            None => {
                proof {
                    lemma_bool_vals_none(seqs_view(t@), i + 1);
                }
                return None;
            },
        }
        i += 1;
    }
    assert(seqs_view(t@).take(t@.len() as int) =~= seqs_view(t@));
    Some(out)
}

fn read_floats(t: &Vec<Vec<char>>) -> (r: Option<Vec<String>>)
    ensures
        match r {
            Some(v) => float_vals(seqs_view(t@)) == Some(crate::secs2::strings_view(v@)),
            None => float_vals(seqs_view(t@)) is None,
        },
{
    let mut out: Vec<String> = Vec::new();
    let mut i: usize = 0;
    while i < t.len()
        invariant
            i <= t@.len(),
            out@.len() == i,
            forall|k: int| 0 <= k < i ==> (#[trigger] out@[k])@ == t@[k]@,
            forall|k: int| 0 <= k < i ==> float_tok(#[trigger] t@[k]@),
        decreases t.len() - i,
    {
        let p = &t[i];
        assert(seqs_view(t@)[i as int] == p@);
        if p.len() == 0 {
            assert(!float_tok(seqs_view(t@)[i as int]));
            return None;
        }
        let mut j: usize = 0;
        while j < p.len()
            invariant
                j <= p@.len(),
                i < t@.len(),
                seqs_view(t@)[i as int] == p@,
                forall|k: int| 0 <= k < j ==> is_float_char(#[trigger] p@[k]),
            decreases p.len() - j,
        {
            let c = p[j];
            if !(('0' <= c && c <= '9') || c == '+' || c == '-' || c == '.' || c == 'e' || c == 'E') {
                assert(!is_float_char(p@[j as int]));
                assert(!float_tok(seqs_view(t@)[i as int]));
                return None;
            }
            j += 1;
        }
        out.push(string_of(p));
        i += 1;
    }
    assert(crate::secs2::strings_view(out@) =~= seqs_view(t@));
    Some(out)
}

fn read_leaf(ty: &[char], t: &Vec<Vec<char>>) -> (r: Option<Secs2>)
    ensures
        match r {
            Some(x) => leaf_item(ty@, seqs_view(t@)) == Some(x@),
            None => leaf_item(ty@, seqs_view(t@)) is None,
        },
{
    if chars_eq_str(ty, "B") {
        return match read_uints(t, 255) {
            Some(v) => {
                let mut b: Vec<u8> = Vec::new();
                let mut i: usize = 0;
                while i < v.len()
                    invariant
                        i <= v@.len(),
                        b@ == Seq::new(i as nat, |k: int| (v@[k] as nat) as u8),
                    decreases v.len() - i,
                {
                    b.push(v[i] as u8);
                    i += 1;
                    assert(b@ =~= Seq::new(i as nat, |k: int| (v@[k] as nat) as u8));
                }
                assert(b@ =~= Seq::new(v@.len(), |k: int| Seq::new(v@.len(), |j: int| v@[j] as nat)[k] as u8));
                Some(Secs2::Binary(b))
            },
            None => None,
        };
    }
    if chars_eq_str(ty, "BOOLEAN") {
        return match read_bools(t) {
            Some(v) => Some(Secs2::Boolean(v)),
            None => None,
        };
    }
    if chars_eq_str(ty, "U1") {
        return match read_uints(t, 0xff) {
            Some(v) => {
                let mut b: Vec<u8> = Vec::new();
                let mut i: usize = 0;
                while i < v.len()
                    invariant
                        i <= v@.len(),
                        b@ == Seq::new(i as nat, |k: int| (v@[k] as nat) as u8),
                    decreases v.len() - i,
                {
                    b.push(v[i] as u8);
                    i += 1;
                    assert(b@ =~= Seq::new(i as nat, |k: int| (v@[k] as nat) as u8));
                }
                assert(b@ =~= Seq::new(v@.len(), |k: int| Seq::new(v@.len(), |j: int| v@[j] as nat)[k] as u8));
                Some(Secs2::Uint1(b))
            },
            None => None,
        };
    }
    if chars_eq_str(ty, "U2") {
        return match read_uints(t, 0xffff) {
            Some(v) => {
                let mut b: Vec<u16> = Vec::new();
                let mut i: usize = 0;
                while i < v.len()
                    invariant
                        i <= v@.len(),
                        b@ == Seq::new(i as nat, |k: int| (v@[k] as nat) as u16),
                    decreases v.len() - i,
                {
                    b.push(v[i] as u16);
                    i += 1;
                    assert(b@ =~= Seq::new(i as nat, |k: int| (v@[k] as nat) as u16));
                }
                assert(b@ =~= Seq::new(v@.len(), |k: int| Seq::new(v@.len(), |j: int| v@[j] as nat)[k] as u16));
                Some(Secs2::Uint2(b))
            },
            None => None,
        };
    }
    if chars_eq_str(ty, "U4") {
        return match read_uints(t, 0xffff_ffff) {
            Some(v) => {
                let mut b: Vec<u32> = Vec::new();
                let mut i: usize = 0;
                while i < v.len()
                    invariant
                        i <= v@.len(),
                        b@ == Seq::new(i as nat, |k: int| (v@[k] as nat) as u32),
                    decreases v.len() - i,
                {
                    b.push(v[i] as u32);
                    i += 1;
                    assert(b@ =~= Seq::new(i as nat, |k: int| (v@[k] as nat) as u32));
                }
                assert(b@ =~= Seq::new(v@.len(), |k: int| Seq::new(v@.len(), |j: int| v@[j] as nat)[k] as u32));
                Some(Secs2::Uint4(b))
            },
            None => None,
        };
    }
    if chars_eq_str(ty, "U8") {
        return match read_uints(t, 0xffff_ffff_ffff_ffff) {
            Some(v) => {
                assert(v@ =~= Seq::new(v@.len(), |k: int| Seq::new(v@.len(), |j: int| v@[j] as nat)[k] as u64));
                Some(Secs2::Uint8(v))
            },
            None => None,
        };
    }
    if chars_eq_str(ty, "I1") {
        return match read_ints(t, 0x7f) {
            Some(v) => {
                let mut b: Vec<i8> = Vec::new();
                let mut i: usize = 0;
                while i < v.len()
                    invariant
                        i <= v@.len(),
                        b@ == Seq::new(i as nat, |k: int| (v@[k] as int) as i8),
                    decreases v.len() - i,
                {
                    b.push(v[i] as i8);
                    i += 1;
                    assert(b@ =~= Seq::new(i as nat, |k: int| (v@[k] as int) as i8));
                }
                assert(b@ =~= Seq::new(v@.len(), |k: int| Seq::new(v@.len(), |j: int| v@[j] as int)[k] as i8));
                Some(Secs2::Int1(b))
            },
            None => None,
        };
    }
    if chars_eq_str(ty, "I2") {
        return match read_ints(t, 0x7fff) {
            Some(v) => {
                let mut b: Vec<i16> = Vec::new();
                let mut i: usize = 0;
                while i < v.len()
                    invariant
                        i <= v@.len(),
                        b@ == Seq::new(i as nat, |k: int| (v@[k] as int) as i16),
                    decreases v.len() - i,
                {
                    b.push(v[i] as i16);
                    i += 1;
                    assert(b@ =~= Seq::new(i as nat, |k: int| (v@[k] as int) as i16));
                }
                assert(b@ =~= Seq::new(v@.len(), |k: int| Seq::new(v@.len(), |j: int| v@[j] as int)[k] as i16));
                Some(Secs2::Int2(b))
            },
            None => None,
        };
    }
    if chars_eq_str(ty, "I4") {
        return match read_ints(t, 0x7fff_ffff) {
            Some(v) => {
                let mut b: Vec<i32> = Vec::new();
                let mut i: usize = 0;
                while i < v.len()
                    invariant
                        i <= v@.len(),
                        b@ == Seq::new(i as nat, |k: int| (v@[k] as int) as i32),
                    decreases v.len() - i,
                {
                    b.push(v[i] as i32);
                    i += 1;
                    assert(b@ =~= Seq::new(i as nat, |k: int| (v@[k] as int) as i32));
                }
                assert(b@ =~= Seq::new(v@.len(), |k: int| Seq::new(v@.len(), |j: int| v@[j] as int)[k] as i32));
                Some(Secs2::Int4(b))
            },
            None => None,
        };
    }
    if chars_eq_str(ty, "I8") {
        return match read_ints(t, 0x7fff_ffff_ffff_ffff) {
            Some(v) => {
                assert(v@ =~= Seq::new(v@.len(), |k: int| Seq::new(v@.len(), |j: int| v@[j] as int)[k] as i64));
                Some(Secs2::Int8(v))
            },
            None => None,
        };
    }
    if chars_eq_str(ty, "F4") {
        return match read_floats(t) {
            Some(v) => Some(Secs2::Float4(v)),
            None => None,
        };
    }
    if chars_eq_str(ty, "F8") {
        return match read_floats(t) {
            Some(v) => Some(Secs2::Float8(v)),
            None => None,
        };
    }
    None
}

fn skip_length(s: &[char], c0: usize) -> (r: Option<usize>)
    requires
        c0 <= s@.len(),
    ensures
        match r {
            Some(c) => after_length(s@, c0 as int) == c as int && c0 <= c <= s@.len(),
            None => after_length(s@, c0 as int) == -1,
        },
{
    if c0 < s.len() && s[c0] == '[' {
        let d = skip_digits(s, c0 + 1);
        if c0 + 1 < d && d < s.len() && s[d] == ']' {
            Some(skip_ws(s, d + 1))
        } else {
            None
        }
    } else {
        Some(c0)
    }
}

/// Reads one item starting with `<` at `i`.
pub fn read_item(s: &[char], i: usize) -> (r: Option<(Secs2, usize)>)
    requires
        i <= s@.len(),
    ensures
        match r {
            Some((x, e)) => p_item(s@, i as int) == Some((x@, e as int)) && e <= s@.len(),
            None => p_item(s@, i as int) is None,
        },
    decreases s@.len() - i, 0int,
{
    if !(i < s.len() && s[i] == '<') {
        return None;
    }
    let a = skip_ws(s, i + 1);
    let b = skip_word(s, a);
    let word = sub_chars(s, a, b);
    let ty = to_upper(&word);
    let b2 = skip_ws(s, b);
    let c = match skip_length(s, b2) {
        Some(c) => c,
        None => {
            return None;
        },
    };
    if !(i < a) {
        return None;
    }
    if chars_eq_str(&ty, "L") {
        return match read_list(s, c) {
            Some((v, e)) => Some((Secs2::List(v), e + 1)),
            None => None,
        };
    }
    if chars_eq_str(&ty, "A") {
        return match read_text(s, c) {
            Some((t, e)) => Some((Secs2::Ascii(string_of(&t)), e + 1)),
            None => None,
        };
    }
    if chars_eq_str(&ty, "J") {
        return match read_text(s, c) {
            Some((t, e)) => {
                let st = string_of(&t);
                let bytes = st.as_str().as_bytes_vec();
                Some((Secs2::Jis8(bytes), e + 1))
            },
            None => None,
        };
    }
    match read_tokens(s, c) {
        Some((t, e)) => match read_leaf(&ty, &t) {
            Some(x) => Some((x, e + 1)),
            None => None,
        },
        None => None,
    }
}

/// Reads the items of a list from `i` up to the closing `>`.
fn read_list(s: &[char], i: usize) -> (r: Option<(Vec<Secs2>, usize)>)
    requires
        i <= s@.len(),
    ensures
        match r {
            Some((v, e)) => p_list(s@, i as int, Seq::empty()) == Some((models(v@), e as int)) && e < s@.len(),
            None => p_list(s@, i as int, Seq::empty()) is None,
        },
    decreases s@.len() - i, 1int,
{
    let mut acc: Vec<Secs2> = Vec::new();
    let mut k = i;
    let ghost i0 = i as int;
    assert(models(acc@) =~= Seq::<Item>::empty());
    loop
        invariant
            i <= k <= s@.len(),
            i0 == i,
            p_list(s@, i0, Seq::empty()) == p_list(s@, k as int, models(acc@)),
        decreases s.len() - k,
    {
        let j = skip_ws(s, k);
        if j >= s.len() {
            return None;
        }
        if s[j] == '>' {
            return Some((acc, j));
        }
        match read_item(s, j) {
            Some((x, e)) => {
                if !(j < e) {
                    return None;
                }
                let ghost prev = acc@;
                acc.push(x);
                assert(acc@.drop_last() =~= prev);
                k = e;
            },
            None => {
                return None;
            },
        }
    }
}

/// A parsed SML message: header fields and body.
#[derive(Debug)]
pub struct SmlMessage {
    pub stream: u8,
    pub function: u8,
    pub wbit: bool,
    pub body: Secs2,
}

/// Model of an [`SmlMessage`].
pub struct SmlMessageV {
    pub stream: u8,
    pub function: u8,
    pub wbit: bool,
    pub body: Item,
}

impl View for SmlMessage {
    type V = SmlMessageV;

    open spec fn view(&self) -> SmlMessageV {
        SmlMessageV { stream: self.stream, function: self.function, wbit: self.wbit, body: self.body@ }
    }
}

/// Body item at `d` (an item if `<` stands there, else the empty item) and the
/// position after it.
pub open spec fn p_body(s: Seq<char>, d: int) -> Option<(Item, int)> {
    if 0 <= d < s.len() && s[d] == '<' {
        p_item(s, d)
    } else {
        Some((Item::Empty, d))
    }
}

/// A whole SML message `SxFy [W] [<item>] .` (already trimmed), stream at
/// most 127 and function at most 255.
pub open spec fn p_message(s: Seq<char>) -> Option<SmlMessageV> {
    if !(s.len() > 0 && (s[0] == 'S' || s[0] == 's')) {
        None
    } else {
        let a = digit_end(s, 1);
        if !(1 < a < s.len() && (s[a] == 'F' || s[a] == 'f')) {
            None
        } else {
            let b = digit_end(s, a + 1);
            let st = digits_value(s.subrange(1, a), 10);
            let fu = digits_value(s.subrange(a + 1, b), 10);
            if !(a + 1 < b && st <= 127 && fu <= 255) {
                None
            } else {
                let c = ws_end(s, b);
                let w = c < s.len() && (s[c] == 'W' || s[c] == 'w');
                let d = ws_end(s, if w { c + 1 } else { c });
                match p_body(s, d) {
                    Some((x, e)) => {
                        let f = ws_end(s, e);
                        if f < s.len() && s[f] == '.' && ws_end(s, f + 1) == s.len() {
                            Some(SmlMessageV { stream: st as u8, function: fu as u8, wbit: w, body: x })
                        } else {
                            None
                        }
                    },
                    None => None,
                }
            }
        }
    }
}

/// The message that SML text stands for, surrounding whitespace ignored.
pub open spec fn sml_message(text: Seq<char>) -> Option<SmlMessageV> {
    p_message(trim(text))
}

/// Reads an SML message from `text`, surrounding whitespace ignored.
pub fn read_message(text: &str) -> (r: Option<SmlMessage>)
    ensures
        match r {
            Some(m) => sml_message(text@) == Some(m@),
            None => sml_message(text@) is None,
        },
{
    let raw = chars_of(text);
    let s = trim_chars(&raw);
    if !(s.len() > 0 && (s[0] == 'S' || s[0] == 's')) {
        return None;
    }
    let a = skip_digits(&s, 1);
    if !(1 < a && a < s.len() && (s[a] == 'F' || s[a] == 'f')) {
        return None;
    }
    let b = skip_digits(&s, a + 1);
    if !(a + 1 < b) {
        return None;
    }
    proof {
        lemma_digit_end(s@, 1);
        lemma_digit_end(s@, a + 1);
    }
    let sd = sub_chars(&s, 1, a);
    let fd = sub_chars(&s, a + 1, b);
    let st = match digits_to_u64(&sd, 10, 127) {
        Some(v) => v as u8,
        None => {
            return None;
        },
    };
    let fu = match digits_to_u64(&fd, 10, 255) {
        Some(v) => v as u8,
        None => {
            return None;
        },
    };
    let c = skip_ws(&s, b);
    let w = c < s.len() && (s[c] == 'W' || s[c] == 'w');
    let d = skip_ws(&s, if w { c + 1 } else { c });
    let (x, e) = if d < s.len() && s[d] == '<' {
        match read_item(&s, d) {
            Some((x, e)) => (x, e),
            None => {
                return None;
            },
        }
    } else {
        (Secs2::Empty, d)
    };
    let f = skip_ws(&s, e);
    if f < s.len() && s[f] == '.' && skip_ws(&s, f + 1) == s.len() {
        Some(SmlMessage { stream: st, function: fu, wbit: w, body: x })
    } else {
        None
    }
}

} // verus!
