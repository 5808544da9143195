//! What the SML writer writes, the SML reader reads back.

use vstd::prelude::*;
use crate::numbers::{
    dec_str, int_str, digit_char, digit_of, all_digits, digits_value, unsigned_digits,
    parse_unsigned, parse_signed, hex_byte, hex_char,
};
use crate::sml_read::{uint_tok, bool_tok, is_delim, ws_end, tok_end, word_end, is_word_char, p_tokens, uint_vals, int_vals, bool_vals, float_vals, float_tok, leaf_item};
use crate::secs2::Item;
use crate::sml_read::{p_quoted, p_text, p_item, p_list, after_length};
use crate::sml_write::{escape_quotes, sml_item, sml_items, tagged, quoted};
use crate::text::{upper, upper_char};
use crate::sml_write::{type_word, values_text, int_seq_u8, int_seq_u16, int_seq_u32, int_seq_u64, int_seq_i8, int_seq_i16, int_seq_i32, int_seq_i64};
use crate::text::{is_ws, join, trim, lead_ws, trail_ws};
use crate::sml_read::{digit_end, p_body, p_message, sml_message};
use crate::sml_bridge::body_sml_item;
use crate::item_text::bool_word;
use crate::text::lower;

verus! {

proof fn lemma_digit_char(m: nat)
    requires
        m < 10,
    ensures
        '0' <= digit_char(m) <= '9',
        digit_of(digit_char(m), 10) == Some(m),
{
}

/// Decimal text is a non-empty run of digits worth the number.
pub proof fn lemma_dec_str(n: nat)
    ensures
        dec_str(n).len() > 0,
        all_digits(dec_str(n), 10),
        digits_value(dec_str(n), 10) == n,
        forall|k: int| 0 <= k < dec_str(n).len() ==> '0' <= #[trigger] dec_str(n)[k] <= '9',
    decreases n,
{
    if n < 10 {
        lemma_digit_char(n);
        assert(dec_str(n).drop_last() =~= Seq::<char>::empty());
        assert(digits_value(Seq::<char>::empty(), 10) == 0);
        assert(dec_str(n).last() == digit_char(n));
        assert(digits_value(dec_str(n), 10) == 0 * 10 + n);
    } else {
        lemma_dec_str(n / 10);
        lemma_digit_char(n % 10);
        let d = dec_str(n / 10);
        assert(dec_str(n).drop_last() =~= d);
        assert(dec_str(n).last() == digit_char(n % 10));
        assert(digits_value(dec_str(n), 10) == digits_value(d, 10) * 10 + n % 10);
        assert((n / 10) * 10 + n % 10 == n) by (nonlinear_arith);
    }
}

/// Reading decimal text back gives the number.
pub proof fn lemma_parse_dec(n: nat, max: nat)
    requires
        n <= max,
    ensures
        parse_unsigned(dec_str(n), 10, max) == Some(n),
{
    lemma_dec_str(n);
    assert(unsigned_digits(dec_str(n)) == dec_str(n));
}

/// Reading signed decimal text back gives the number.
pub proof fn lemma_parse_int(n: int, maxpos: nat)
    requires
        -(maxpos + 1) <= n <= maxpos,
    ensures
        parse_signed(int_str(n), maxpos) == Some(n),
{
    if n < 0 {
        let d = dec_str((-n) as nat);
        lemma_dec_str((-n) as nat);
        assert((seq!['-'] + d).drop_first() =~= d);
    } else {
        lemma_parse_dec(n as nat, maxpos);
        lemma_dec_str(n as nat);
    }
}

/// `0xHH` reads back as the byte.
pub proof fn lemma_parse_hex_byte(b: u8)
    ensures
        uint_tok(hex_byte(b), 255) == Some(b as nat),
{
    let hi = (b as nat) / 16;
    let lo = (b as nat) % 16;
    let d = seq![hex_char(hi), hex_char(lo)];
    assert(hex_byte(b).skip(2) =~= d);
    assert(d.drop_last() =~= seq![hex_char(hi)]);
    assert(seq![hex_char(hi)].drop_last() =~= Seq::<char>::empty());
    assert(digit_of(hex_char(hi), 16) == Some(hi));
    assert(digit_of(hex_char(lo), 16) == Some(lo));
    assert(unsigned_digits(d) == d);
    assert(digits_value(Seq::<char>::empty(), 16) == 0);
    assert(digits_value(seq![hex_char(hi)], 16) == hi);
    assert(d.last() == hex_char(lo));
    assert(digits_value(d, 16) == hi * 16 + lo);
    assert(hi * 16 + lo == b as nat) by (nonlinear_arith)
        requires
            hi == (b as nat) / 16,
            lo == (b as nat) % 16,
    ;
}

/// `true` and `false` read back as the boolean.
pub proof fn lemma_parse_bool(b: bool)
    ensures
        bool_tok(bool_word(b)) == Some(b),
{
    reveal_strlit("true");
    reveal_strlit("false");
    reveal_strlit("t");
    reveal_strlit("f");
    reveal_strlit("1");
    reveal_strlit("0");
    assert(lower("true"@) =~= "true"@);
    assert(lower("false"@) =~= "false"@);
}


/// Each part preceded by one space.
pub open spec fn spaced(parts: Seq<Seq<char>>) -> Seq<char>
    decreases parts.len(),
{
    if parts.len() == 0 {
        Seq::empty()
    } else {
        seq![' '] + parts[0] + spaced(parts.drop_first())
    }
}

proof fn lemma_spaced_push(p: Seq<Seq<char>>, x: Seq<char>)
    ensures
        spaced(p.push(x)) == spaced(p) + seq![' '] + x,
    decreases p.len(),
{
    if p.len() == 0 {
        assert(p.push(x).drop_first() =~= Seq::<Seq<char>>::empty());
        assert(spaced(Seq::<Seq<char>>::empty()) == Seq::<char>::empty());
        assert(p.push(x)[0] == x);
        assert(spaced(p.push(x)) =~= seq![' '] + x);
    } else {
        assert(p.push(x).drop_first() =~= p.drop_first().push(x));
        lemma_spaced_push(p.drop_first(), x);
        assert(spaced(p.push(x)) =~= spaced(p) + seq![' '] + x);
    }
}

/// A space, then parts joined by spaces, is each part preceded by a space.
pub proof fn lemma_spaced_join(parts: Seq<Seq<char>>)
    requires
        parts.len() > 0,
    ensures
        seq![' '] + join(parts, " "@) == spaced(parts),
    decreases parts.len(),
{
    reveal_strlit(" ");
    assert(" "@ =~= seq![' ']);
    if parts.len() == 1 {
        assert(parts.drop_first() =~= Seq::<Seq<char>>::empty());
        assert(spaced(Seq::<Seq<char>>::empty()) == Seq::<char>::empty());
        assert(spaced(parts) =~= seq![' '] + parts[0]);
    } else {
        let d = parts.drop_last();
        lemma_spaced_join(d);
        lemma_spaced_push(d, parts.last());
        assert(d.push(parts.last()) =~= parts);
        assert(seq![' '] + join(parts, " "@) =~= seq![' '] + join(d, " "@) + seq![' '] + parts.last());
    }
}

proof fn lemma_spaced_len(parts: Seq<Seq<char>>)
    ensures
        spaced(parts).len() >= parts.len(),
    decreases parts.len(),
{
    if parts.len() > 0 {
        lemma_spaced_len(parts.drop_first());
    }
}

/// A value token: non-empty, with no whitespace, `<` or `>`.
pub open spec fn plain_tok(t: Seq<char>) -> bool {
    t.len() > 0 && forall|k: int| 0 <= k < t.len() ==> !is_delim(#[trigger] t[k])
}

proof fn lemma_tok_run(s: Seq<char>, j: int, n: int)
    requires
        0 <= j,
        0 <= n,
        j + n <= s.len(),
        forall|k: int| j <= k < j + n ==> !is_delim(#[trigger] s[k]),
        j + n < s.len() ==> is_delim(s[j + n]),
    ensures
        tok_end(s, j) == j + n,
    decreases n,
{
    if n > 0 {
        lemma_tok_run(s, j + 1, n - 1);
    }
}

proof fn lemma_word_run(s: Seq<char>, j: int, n: int)
    requires
        0 <= j,
        0 <= n,
        j + n <= s.len(),
        forall|k: int| j <= k < j + n ==> is_word_char(#[trigger] s[k]),
        j + n < s.len() ==> !is_word_char(s[j + n]),
    ensures
        word_end(s, j) == j + n,
    decreases n,
{
    if n > 0 {
        lemma_word_run(s, j + 1, n - 1);
    }
}

/// Tokens each preceded by one space, then `>`, read as those tokens.
pub proof fn lemma_p_tokens(s: Seq<char>, j: int, acc: Seq<Seq<char>>, toks: Seq<Seq<char>>)
    requires
        forall|i: int| 0 <= i < toks.len() ==> plain_tok(#[trigger] toks[i]),
        0 <= j,
        j + spaced(toks).len() + 1 <= s.len(),
        s.subrange(j, j + spaced(toks).len() + 1) == spaced(toks) + seq!['>'],
    ensures
        p_tokens(s, j, acc) == Some((acc + toks, j + spaced(toks).len())),
    decreases toks.len(),
{
    let w = spaced(toks) + seq!['>'];
    let L = w.len() as int;
    assert forall|m: int| j <= m < j + L implies #[trigger] s[m] == w[m - j] by {
        assert(s.subrange(j, j + L)[m - j] == s[m]);
    }
    if toks.len() == 0 {
        assert(s[j] == '>');
        assert(ws_end(s, j) == j);
        assert(acc + toks =~= acc);
    } else {
        let t0 = toks[0];
        let rest = toks.drop_first();
        assert(plain_tok(t0));
        assert forall|i: int| 0 <= i < rest.len() implies plain_tok(#[trigger] rest[i]) by {
            assert(rest[i] == toks[i + 1]);
        }
        assert(spaced(toks) == seq![' '] + t0 + spaced(rest));
        let sr = spaced(rest);
        assert(w =~= seq![' '] + t0 + sr + seq!['>']);
        assert(s[j] == ' ');
        assert(s[j + 1] == t0[0]);
        assert(!is_delim(t0[0]));
        assert(ws_end(s, j + 1) == j + 1);
        assert(ws_end(s, j) == j + 1);
        let k = j + 1 + t0.len();
        assert forall|m: int| j + 1 <= m < k implies !is_delim(#[trigger] s[m]) by {
            assert(s[m] == w[m - j]);
            assert(w[m - j] == t0[m - j - 1]);
        }
        assert(s[k] == w[k - j]);
        if rest.len() > 0 {
            assert(sr[0] == ' ');
            assert(w[k - j] == sr[0]);
        } else {
            assert(sr.len() == 0);
            assert(w[k - j] == '>');
        }
        lemma_tok_run(s, j + 1, t0.len() as int);
        assert(s.subrange(j + 1, k) =~= t0) by {
            assert forall|q: int| 0 <= q < t0.len() implies s.subrange(j + 1, k)[q] == t0[q] by {
                assert(s[j + 1 + q] == w[1 + q]);
            }
        }
        assert(s.subrange(k, k + sr.len() + 1) =~= sr + seq!['>']) by {
            assert forall|q: int| 0 <= q < sr.len() + 1 implies s.subrange(k, k + sr.len() + 1)[q] == (sr + seq!['>'])[q] by {
                assert(s[k + q] == w[k + q - j]);
            }
        }
        lemma_p_tokens(s, k, acc.push(t0), rest);
        assert(acc.push(t0) + rest =~= acc + toks);
    }
}


proof fn lemma_uint_vals_dec(vals: Seq<nat>, max: nat)
    requires
        forall|i: int| 0 <= i < vals.len() ==> #[trigger] vals[i] <= max,
    ensures
        uint_vals(Seq::new(vals.len(), |i: int| int_str(vals[i] as int)), max) == Some(vals),
    decreases vals.len(),
{
    let t = Seq::new(vals.len(), |i: int| int_str(vals[i] as int));
    if vals.len() > 0 {
        let d = vals.drop_last();
        lemma_uint_vals_dec(d, max);
        assert(t.drop_last() =~= Seq::new(d.len(), |i: int| int_str(d[i] as int)));
        let x = vals.last();
        lemma_parse_dec(x, max);
        lemma_dec_str(x);
        assert(t.last() == dec_str(x));
        assert(!(dec_str(x).len() >= 2 && dec_str(x)[0] == '0' && (dec_str(x)[1] == 'x' || dec_str(x)[1] == 'X')));
        assert(uint_tok(t.last(), max) == Some(x));
        assert(d.push(x) =~= vals);
    } else {
        assert(vals =~= Seq::<nat>::empty());
    }
}

proof fn lemma_uint_vals_hex(b: Seq<u8>)
    ensures
        uint_vals(Seq::new(b.len(), |i: int| hex_byte(b[i])), 255) == Some(Seq::new(b.len(), |i: int| b[i] as nat)),
    decreases b.len(),
{
    let t = Seq::new(b.len(), |i: int| hex_byte(b[i]));
    if b.len() > 0 {
        let d = b.drop_last();
        lemma_uint_vals_hex(d);
        assert(t.drop_last() =~= Seq::new(d.len(), |i: int| hex_byte(d[i])));
        lemma_parse_hex_byte(b.last());
        assert(Seq::new(d.len(), |i: int| d[i] as nat).push(b.last() as nat) =~= Seq::new(b.len(), |i: int| b[i] as nat));
    } else {
        assert(Seq::new(b.len(), |i: int| b[i] as nat) =~= Seq::<nat>::empty());
    }
}

proof fn lemma_int_vals(vals: Seq<int>, maxpos: nat)
    requires
        forall|i: int| 0 <= i < vals.len() ==> -(maxpos + 1) <= #[trigger] vals[i] <= maxpos,
    ensures
        int_vals(Seq::new(vals.len(), |i: int| int_str(vals[i])), maxpos) == Some(vals),
    decreases vals.len(),
{
    let t = Seq::new(vals.len(), |i: int| int_str(vals[i]));
    if vals.len() > 0 {
        let d = vals.drop_last();
        lemma_int_vals(d, maxpos);
        assert(t.drop_last() =~= Seq::new(d.len(), |i: int| int_str(d[i])));
        lemma_parse_int(vals.last(), maxpos);
        assert(d.push(vals.last()) =~= vals);
    } else {
        assert(vals =~= Seq::<int>::empty());
    }
}

proof fn lemma_bool_vals(v: Seq<bool>)
    ensures
        bool_vals(Seq::new(v.len(), |i: int| bool_word(v[i]))) == Some(v),
    decreases v.len(),
{
    let t = Seq::new(v.len(), |i: int| bool_word(v[i]));
    if v.len() > 0 {
        let d = v.drop_last();
        lemma_bool_vals(d);
        assert(t.drop_last() =~= Seq::new(d.len(), |i: int| bool_word(d[i])));
        lemma_parse_bool(v.last());
        assert(d.push(v.last()) =~= v);
    } else {
        assert(v =~= Seq::<bool>::empty());
    }
}

/// The value tokens the writer gives a leaf item.
pub open spec fn value_toks(item: Item) -> Seq<Seq<char>> {
    match item {
        Item::Binary(b) => Seq::new(b.len(), |i: int| hex_byte(b[i])),
        Item::Boolean(v) => Seq::new(v.len(), |i: int| bool_word(v[i])),
        Item::Uint1(v) => Seq::new(v.len(), |i: int| int_str(v[i] as int)),
        Item::Uint2(v) => Seq::new(v.len(), |i: int| int_str(v[i] as int)),
        Item::Uint4(v) => Seq::new(v.len(), |i: int| int_str(v[i] as int)),
        Item::Uint8(v) => Seq::new(v.len(), |i: int| int_str(v[i] as int)),
        Item::Int1(v) => Seq::new(v.len(), |i: int| int_str(v[i] as int)),
        Item::Int2(v) => Seq::new(v.len(), |i: int| int_str(v[i] as int)),
        Item::Int4(v) => Seq::new(v.len(), |i: int| int_str(v[i] as int)),
        Item::Int8(v) => Seq::new(v.len(), |i: int| int_str(v[i] as int)),
        Item::Float4(t) => t,
        Item::Float8(t) => t,
        _ => Seq::empty(),
    }
}

/// An item written as tagged values (neither list nor text).
pub open spec fn is_leaf(item: Item) -> bool {
    match item {
        Item::Binary(_) | Item::Boolean(_) | Item::Uint1(_) | Item::Uint2(_) | Item::Uint4(_)
        | Item::Uint8(_) | Item::Int1(_) | Item::Int2(_) | Item::Int4(_) | Item::Int8(_)
        | Item::Float4(_) | Item::Float8(_) => true,
        _ => false,
    }
}

/// Float values that the reader takes back: every text a float token.
pub open spec fn floats_ok(t: Seq<Seq<char>>) -> bool {
    forall|i: int| 0 <= i < t.len() ==> float_tok(#[trigger] t[i])
}

pub(crate) proof fn lemma_values_text(item: Item)
    requires
        is_leaf(item),
    ensures
        values_text(item) == join(value_toks(item), " "@),
{
    match item {
        Item::Uint1(v) => assert(Seq::new(int_seq_u8(v).len(), |i: int| int_str(int_seq_u8(v)[i])) =~= value_toks(item)),
        Item::Uint2(v) => assert(Seq::new(int_seq_u16(v).len(), |i: int| int_str(int_seq_u16(v)[i])) =~= value_toks(item)),
        Item::Uint4(v) => assert(Seq::new(int_seq_u32(v).len(), |i: int| int_str(int_seq_u32(v)[i])) =~= value_toks(item)),
        Item::Uint8(v) => assert(Seq::new(int_seq_u64(v).len(), |i: int| int_str(int_seq_u64(v)[i])) =~= value_toks(item)),
        Item::Int1(v) => assert(Seq::new(int_seq_i8(v).len(), |i: int| int_str(int_seq_i8(v)[i])) =~= value_toks(item)),
        Item::Int2(v) => assert(Seq::new(int_seq_i16(v).len(), |i: int| int_str(int_seq_i16(v)[i])) =~= value_toks(item)),
        Item::Int4(v) => assert(Seq::new(int_seq_i32(v).len(), |i: int| int_str(int_seq_i32(v)[i])) =~= value_toks(item)),
        Item::Int8(v) => assert(Seq::new(int_seq_i64(v).len(), |i: int| int_str(int_seq_i64(v)[i])) =~= value_toks(item)),
        _ => {},
    }
}

/// The type words, character by character.
pub proof fn lemma_type_words()
    ensures
        "B"@ == seq!['B'],
        "BOOLEAN"@ == seq!['B', 'O', 'O', 'L', 'E', 'A', 'N'],
        "U1"@ == seq!['U', '1'],
        "U2"@ == seq!['U', '2'],
        "U4"@ == seq!['U', '4'],
        "U8"@ == seq!['U', '8'],
        "I1"@ == seq!['I', '1'],
        "I2"@ == seq!['I', '2'],
        "I4"@ == seq!['I', '4'],
        "I8"@ == seq!['I', '8'],
        "F4"@ == seq!['F', '4'],
        "F8"@ == seq!['F', '8'],
        "L"@ == seq!['L'],
        "A"@ == seq!['A'],
        "J"@ == seq!['J'],
{
    reveal_strlit("B");
    assert("B"@ =~= seq!['B']);
    reveal_strlit("BOOLEAN");
    assert("BOOLEAN"@ =~= seq!['B', 'O', 'O', 'L', 'E', 'A', 'N']);
    reveal_strlit("U1");
    assert("U1"@ =~= seq!['U', '1']);
    reveal_strlit("U2");
    assert("U2"@ =~= seq!['U', '2']);
    reveal_strlit("U4");
    assert("U4"@ =~= seq!['U', '4']);
    reveal_strlit("U8");
    assert("U8"@ =~= seq!['U', '8']);
    reveal_strlit("I1");
    assert("I1"@ =~= seq!['I', '1']);
    reveal_strlit("I2");
    assert("I2"@ =~= seq!['I', '2']);
    reveal_strlit("I4");
    assert("I4"@ =~= seq!['I', '4']);
    reveal_strlit("I8");
    assert("I8"@ =~= seq!['I', '8']);
    reveal_strlit("F4");
    assert("F4"@ =~= seq!['F', '4']);
    reveal_strlit("F8");
    assert("F8"@ =~= seq!['F', '8']);
    reveal_strlit("L");
    assert("L"@ =~= seq!['L']);
    reveal_strlit("A");
    assert("A"@ =~= seq!['A']);
    reveal_strlit("J");
    assert("J"@ =~= seq!['J']);
}

proof fn lemma_leaf_binary(b: Seq<u8>)
    ensures
        leaf_item(type_word(Item::Binary(b)), value_toks(Item::Binary(b))) == Some(Item::Binary(b)),
{
    lemma_type_words();
    lemma_uint_vals_hex(b);
    let v = Seq::new(b.len(), |i: int| b[i] as nat);
    assert(value_toks(Item::Binary(b)) == Seq::new(b.len(), |i: int| hex_byte(b[i])));
    assert(uint_vals(value_toks(Item::Binary(b)), 255) == Some(v));
    let x = Seq::new(v.len(), |i: int| v[i] as u8);
    assert(x =~= b);
}

proof fn lemma_leaf_bool(v: Seq<bool>)
    ensures
        leaf_item(type_word(Item::Boolean(v)), value_toks(Item::Boolean(v))) == Some(Item::Boolean(v)),
{
    lemma_type_words();
    lemma_bool_vals(v);
    assert(type_word(Item::Boolean(v)) == "BOOLEAN"@);
    assert(value_toks(Item::Boolean(v)) == Seq::new(v.len(), |i: int| bool_word(v[i])));
    assert(bool_vals(value_toks(Item::Boolean(v))) == Some(v));
}

proof fn lemma_leaf_uint1(v: Seq<u8>)
    ensures
        leaf_item(type_word(Item::Uint1(v)), value_toks(Item::Uint1(v))) == Some(Item::Uint1(v)),
{
    lemma_type_words();
    let n = Seq::new(v.len(), |i: int| v[i] as nat);
    lemma_uint_vals_dec(n, 0xff);
    assert(Seq::new(n.len(), |i: int| int_str(n[i] as int)) =~= value_toks(Item::Uint1(v)));
    assert(Seq::new(n.len(), |i: int| n[i] as u8) =~= v);
}

proof fn lemma_leaf_uint2(v: Seq<u16>)
    ensures
        leaf_item(type_word(Item::Uint2(v)), value_toks(Item::Uint2(v))) == Some(Item::Uint2(v)),
{
    lemma_type_words();
    let n = Seq::new(v.len(), |i: int| v[i] as nat);
    lemma_uint_vals_dec(n, 0xffff);
    assert(Seq::new(n.len(), |i: int| int_str(n[i] as int)) =~= value_toks(Item::Uint2(v)));
    assert(Seq::new(n.len(), |i: int| n[i] as u16) =~= v);
}

proof fn lemma_leaf_uint4(v: Seq<u32>)
    ensures
        leaf_item(type_word(Item::Uint4(v)), value_toks(Item::Uint4(v))) == Some(Item::Uint4(v)),
{
    lemma_type_words();
    let n = Seq::new(v.len(), |i: int| v[i] as nat);
    lemma_uint_vals_dec(n, 0xffff_ffff);
    assert(Seq::new(n.len(), |i: int| int_str(n[i] as int)) =~= value_toks(Item::Uint4(v)));
    assert(Seq::new(n.len(), |i: int| n[i] as u32) =~= v);
}

proof fn lemma_leaf_uint8(v: Seq<u64>)
    ensures
        leaf_item(type_word(Item::Uint8(v)), value_toks(Item::Uint8(v))) == Some(Item::Uint8(v)),
{
    lemma_type_words();
    let n = Seq::new(v.len(), |i: int| v[i] as nat);
    lemma_uint_vals_dec(n, 0xffff_ffff_ffff_ffff);
    assert(Seq::new(n.len(), |i: int| int_str(n[i] as int)) =~= value_toks(Item::Uint8(v)));
    assert(Seq::new(n.len(), |i: int| n[i] as u64) =~= v);
}

proof fn lemma_leaf_int1(v: Seq<i8>)
    ensures
        leaf_item(type_word(Item::Int1(v)), value_toks(Item::Int1(v))) == Some(Item::Int1(v)),
{
    lemma_type_words();
    let n = Seq::new(v.len(), |i: int| v[i] as int);
    lemma_int_vals(n, 0x7f);
    assert(Seq::new(n.len(), |i: int| int_str(n[i])) =~= value_toks(Item::Int1(v)));
    assert(Seq::new(n.len(), |i: int| n[i] as i8) =~= v);
}

proof fn lemma_leaf_int2(v: Seq<i16>)
    ensures
        leaf_item(type_word(Item::Int2(v)), value_toks(Item::Int2(v))) == Some(Item::Int2(v)),
{
    lemma_type_words();
    let n = Seq::new(v.len(), |i: int| v[i] as int);
    lemma_int_vals(n, 0x7fff);
    assert(Seq::new(n.len(), |i: int| int_str(n[i])) =~= value_toks(Item::Int2(v)));
    assert(Seq::new(n.len(), |i: int| n[i] as i16) =~= v);
}

proof fn lemma_leaf_int4(v: Seq<i32>)
    ensures
        leaf_item(type_word(Item::Int4(v)), value_toks(Item::Int4(v))) == Some(Item::Int4(v)),
{
    lemma_type_words();
    let n = Seq::new(v.len(), |i: int| v[i] as int);
    lemma_int_vals(n, 0x7fff_ffff);
    assert(Seq::new(n.len(), |i: int| int_str(n[i])) =~= value_toks(Item::Int4(v)));
    assert(Seq::new(n.len(), |i: int| n[i] as i32) =~= v);
}

proof fn lemma_leaf_int8(v: Seq<i64>)
    ensures
        leaf_item(type_word(Item::Int8(v)), value_toks(Item::Int8(v))) == Some(Item::Int8(v)),
{
    lemma_type_words();
    let n = Seq::new(v.len(), |i: int| v[i] as int);
    lemma_int_vals(n, 0x7fff_ffff_ffff_ffff);
    assert(Seq::new(n.len(), |i: int| int_str(n[i])) =~= value_toks(Item::Int8(v)));
    assert(Seq::new(n.len(), |i: int| n[i] as i64) =~= v);
}

proof fn lemma_leaf_float4(t: Seq<Seq<char>>)
    requires
        floats_ok(t),
    ensures
        leaf_item(type_word(Item::Float4(t)), value_toks(Item::Float4(t))) == Some(Item::Float4(t)),
{
    lemma_type_words();
    assert(float_vals(t) == Some(t));
}

proof fn lemma_leaf_float8(t: Seq<Seq<char>>)
    requires
        floats_ok(t),
    ensures
        leaf_item(type_word(Item::Float8(t)), value_toks(Item::Float8(t))) == Some(Item::Float8(t)),
{
    lemma_type_words();
    assert(float_vals(t) == Some(t));
}

/// A leaf item's tokens, read under its type word, give the item back.
pub proof fn lemma_leaf_item(item: Item)
    requires
        is_leaf(item),
        (item matches Item::Float4(t) ==> floats_ok(t)),
        (item matches Item::Float8(t) ==> floats_ok(t)),
    ensures
        leaf_item(type_word(item), value_toks(item)) == Some(item),
{
    match item {
        Item::Binary(b) => lemma_leaf_binary(b),
        Item::Boolean(v) => lemma_leaf_bool(v),
        Item::Uint1(v) => lemma_leaf_uint1(v),
        Item::Uint2(v) => lemma_leaf_uint2(v),
        Item::Uint4(v) => lemma_leaf_uint4(v),
        Item::Uint8(v) => lemma_leaf_uint8(v),
        Item::Int1(v) => lemma_leaf_int1(v),
        Item::Int2(v) => lemma_leaf_int2(v),
        Item::Int4(v) => lemma_leaf_int4(v),
        Item::Int8(v) => lemma_leaf_int8(v),
        Item::Float4(t) => lemma_leaf_float4(t),
        Item::Float8(t) => lemma_leaf_float8(t),
        _ => {},
    }
}


/// One character as the SML writer escapes it inside quotes.
pub open spec fn esc1(c: char) -> Seq<char> {
    if c == '"' {
        seq!['\\', '"']
    } else {
        seq![c]
    }
}

proof fn lemma_escape_front(t: Seq<char>)
    requires
        t.len() > 0,
    ensures
        escape_quotes(t) == esc1(t[0]) + escape_quotes(t.drop_first()),
    decreases t.len(),
{
    if t.len() == 1 {
        assert(t.drop_last() =~= Seq::<char>::empty());
        assert(t.drop_first() =~= Seq::<char>::empty());
        assert(escape_quotes(Seq::<char>::empty()) == Seq::<char>::empty());
        assert(escape_quotes(t) =~= esc1(t[0]));
    } else {
        let d = t.drop_last();
        lemma_escape_front(d);
        assert(d.drop_first() =~= t.drop_first().drop_last());
        assert(t.drop_first().last() == t.last());
        assert(escape_quotes(t) =~= esc1(t[0]) + escape_quotes(t.drop_first()));
    }
}

/// Text that does not end with a backslash (which would escape the
/// closing quote).
pub open spec fn no_trailing_backslash(t: Seq<char>) -> bool {
    t.len() == 0 || t.last() != '\\'
}

/// Quoted text as the writer escapes it, then `">`, reads back as the text.
pub proof fn lemma_p_quoted(s: Seq<char>, k: int, acc: Seq<char>, t: Seq<char>)
    requires
        no_trailing_backslash(t),
        0 <= k,
        k + escape_quotes(t).len() + 2 <= s.len(),
        s.subrange(k, k + escape_quotes(t).len() + 2) == escape_quotes(t) + seq!['"', '>'],
    ensures
        p_quoted(s, k, acc) == Some((acc + t, k + escape_quotes(t).len() + 1)),
    decreases t.len(),
{
    let w = escape_quotes(t) + seq!['"', '>'];
    let L = w.len() as int;
    assert forall|m: int| k <= m < k + L implies #[trigger] s[m] == w[m - k] by {
        assert(s.subrange(k, k + L)[m - k] == s[m]);
    }
    if t.len() == 0 {
        assert(escape_quotes(t) == Seq::<char>::empty());
        assert(s[k] == '"');
        assert(s[k + 1] == '>');
        assert(ws_end(s, k + 1) == k + 1);
        assert(acc + t =~= acc);
    } else {
        lemma_escape_front(t);
        let t0 = t[0];
        let rest = t.drop_first();
        let er = escape_quotes(rest);
        assert(no_trailing_backslash(rest)) by {
            if rest.len() > 0 {
                assert(rest.last() == t.last());
            }
        }
        let n = esc1(t0).len() as int;
        assert(w =~= esc1(t0) + er + seq!['"', '>']);
        assert(s.subrange(k + n, k + n + er.len() + 2) =~= er + seq!['"', '>']) by {
            assert forall|q: int| 0 <= q < er.len() + 2 implies s.subrange(k + n, k + n + er.len() + 2)[q] == (er + seq!['"', '>'])[q] by {
                assert(s[k + n + q] == w[n + q]);
            }
        }
        lemma_p_quoted(s, k + n, acc.push(t0), rest);
        assert(acc.push(t0) + rest =~= acc + t);
        if t0 == '"' {
            assert(s[k] == '\\');
            assert(s[k + 1] == '"');
        } else if t0 == '\\' {
            assert(s[k] == '\\');
            assert(rest.len() > 0);
            lemma_escape_front(rest);
            assert(s[k + 1] == er[0]);
            assert(s[k + 1] != '"');
        } else {
            assert(s[k] == t0);
        }
    }
}

/// Type words are read back as written.
pub(crate) proof fn lemma_word_upper(w: Seq<char>)
    requires
        forall|k: int| 0 <= k < w.len() ==> !('a' <= #[trigger] w[k] && w[k] <= 'z'),
    ensures
        upper(w) == w,
{
    assert(upper(w) =~= w);
}

proof fn lemma_sml_items(v: Seq<Item>)
    ensures
        sml_items(v) == Seq::new(v.len(), |k: int| sml_item(v[k])),
    decreases v.len(),
{
    if v.len() > 0 {
        lemma_sml_items(v.drop_last());
        assert(sml_items(v) =~= Seq::new(v.len(), |k: int| sml_item(v[k])));
    } else {
        assert(sml_items(v) =~= Seq::new(v.len(), |k: int| sml_item(v[k])));
    }
}

/// Items the SML writer and reader agree on: no empty item inside a list,
/// no JIS-8 or Unicode text, ASCII text not ending in a backslash, float
/// texts that are float tokens.
pub open spec fn sml_safe(item: Item) -> bool
    decreases item, 0int,
{
    match item {
        Item::List(v) => sml_safe_all(v),
        Item::Ascii(t) => no_trailing_backslash(t),
        Item::Float4(t) => floats_ok(t),
        Item::Float8(t) => floats_ok(t),
        Item::Empty => false,
        Item::Jis8(_) => false,
        Item::Unicode(_) => false,
        _ => true,
    }
}

pub open spec fn sml_safe_all(v: Seq<Item>) -> bool
    decreases v, 1int,
{
    if v.len() == 0 {
        true
    } else {
        sml_safe(v[0]) && sml_safe_all(v.subrange(1, v.len() as int))
    }
}


proof fn lemma_int_str_plain(n: int)
    ensures
        plain_tok(int_str(n)),
        int_str(n)[0] != '[',
{
    if n < 0 {
        lemma_dec_str((-n) as nat);
        let d = dec_str((-n) as nat);
        assert forall|k: int| 0 <= k < int_str(n).len() implies !is_delim(#[trigger] int_str(n)[k]) by {
            if k > 0 {
                assert(int_str(n)[k] == d[k - 1]);
            }
        }
    } else {
        lemma_dec_str(n as nat);
    }
}

proof fn lemma_hex_plain(b: u8)
    ensures
        plain_tok(hex_byte(b)),
        hex_byte(b)[0] != '[',
{
    let h = hex_byte(b);
    assert forall|k: int| 0 <= k < h.len() implies !is_delim(#[trigger] h[k]) by {
        if k == 2 {
            assert(h[2] == hex_char((b as nat) / 16));
        } else if k == 3 {
            assert(h[3] == hex_char((b as nat) % 16));
        }
    }
}

proof fn lemma_bool_plain(x: bool)
    ensures
        plain_tok(bool_word(x)),
        bool_word(x)[0] != '[',
{
    reveal_strlit("true");
    reveal_strlit("false");
    assert("true"@ =~= seq!['t', 'r', 'u', 'e']);
    assert("false"@ =~= seq!['f', 'a', 'l', 's', 'e']);
}

/// Every value token of a leaf is plain and does not start with `[`.
pub(crate) proof fn lemma_toks_plain(item: Item)
    requires
        is_leaf(item),
        (item matches Item::Float4(t) ==> floats_ok(t)),
        (item matches Item::Float8(t) ==> floats_ok(t)),
    ensures
        forall|i: int| 0 <= i < value_toks(item).len() ==> plain_tok(#[trigger] value_toks(item)[i]) && value_toks(item)[i][0] != '[',
{
    let t = value_toks(item);
    assert forall|i: int| 0 <= i < t.len() implies plain_tok(#[trigger] t[i]) && t[i][0] != '[' by {
        match item {
            Item::Binary(b) => lemma_hex_plain(b[i]),
            Item::Boolean(v) => lemma_bool_plain(v[i]),
            Item::Uint1(v) => lemma_int_str_plain(v[i] as int),
            Item::Uint2(v) => lemma_int_str_plain(v[i] as int),
            Item::Uint4(v) => lemma_int_str_plain(v[i] as int),
            Item::Uint8(v) => lemma_int_str_plain(v[i] as int),
            Item::Int1(v) => lemma_int_str_plain(v[i] as int),
            Item::Int2(v) => lemma_int_str_plain(v[i] as int),
            Item::Int4(v) => lemma_int_str_plain(v[i] as int),
            Item::Int8(v) => lemma_int_str_plain(v[i] as int),
            Item::Float4(f) => {
                assert(float_tok(f[i]));
                assert forall|k: int| 0 <= k < f[i].len() implies !is_delim(#[trigger] f[i][k]) by {
                    assert(crate::sml_read::is_float_char(f[i][k]));
                }
            },
            Item::Float8(f) => {
                assert(float_tok(f[i]));
                assert forall|k: int| 0 <= k < f[i].len() implies !is_delim(#[trigger] f[i][k]) by {
                    assert(crate::sml_read::is_float_char(f[i][k]));
                }
            },
            _ => {},
        }
    }
}


proof fn lemma_at(s: Seq<char>, j: int, w: Seq<char>)
    requires
        0 <= j,
        j + w.len() <= s.len(),
        s.subrange(j, j + w.len()) == w,
    ensures
        forall|m: int| 0 <= m < w.len() ==> #[trigger] s[j + m] == w[m],
{
    assert forall|m: int| 0 <= m < w.len() implies #[trigger] s[j + m] == w[m] by {
        assert(s.subrange(j, j + w.len())[m] == s[j + m]);
    }
}

proof fn lemma_sub(s: Seq<char>, j: int, w: Seq<char>, off: int, len: int)
    requires
        0 <= j,
        0 <= off,
        0 <= len,
        off + len <= w.len(),
        j + w.len() <= s.len(),
        s.subrange(j, j + w.len()) == w,
    ensures
        s.subrange(j + off, j + off + len) == w.subrange(off, off + len),
{
    lemma_at(s, j, w);
    assert(s.subrange(j + off, j + off + len) =~= w.subrange(off, off + len)) by {
        assert forall|q: int| 0 <= q < len implies #[trigger] s.subrange(j + off, j + off + len)[q] == w.subrange(off, off + len)[q] by {
            assert(s[j + (off + q)] == w[off + q]);
        }
    }
}

/// A non-empty item's SML text starts with `<`.
proof fn lemma_starts_angle(x: Item)
    requires
        !(x is Empty),
    ensures
        sml_item(x).len() > 0,
        sml_item(x)[0] == '<',
{
    reveal_strlit("<L>");
    assert("<L>"@ =~= seq!['<', 'L', '>']);
}

proof fn lemma_list_item_read(v: Seq<Item>, s: Seq<char>, i: int)
    requires
        sml_safe_all(v),
        0 <= i,
        i + sml_item(Item::List(v)).len() <= s.len(),
        s.subrange(i, i + sml_item(Item::List(v)).len()) == sml_item(Item::List(v)),
    ensures
        p_item(s, i) == Some((Item::List(v), i + sml_item(Item::List(v)).len())),
    decreases v, 2int,
{
    let x = Item::List(v);
    let w = sml_item(x);
    lemma_at(s, i, w);
    lemma_type_words();
    if v.len() == 0 {
        reveal_strlit("<L>");
        assert(w =~= seq!['<', 'L', '>']);
        assert(s[i] == w[0]);
        assert(s[i + 1] == w[1]);
        assert(s[i + 2] == w[2]);
        assert(ws_end(s, i + 1) == i + 1);
        lemma_word_run(s, i + 1, 1);
        assert(s.subrange(i + 1, i + 2) =~= seq!['L']);
        assert(upper(seq!['L']) =~= seq!['L']);
        assert(ws_end(s, i + 2) == i + 2);
        assert(after_length(s, i + 2) == i + 2);
        assert(p_list(s, i + 2, Seq::empty()) == Some((Seq::<Item>::empty(), i + 2)));
        assert(v =~= Seq::<Item>::empty());
        let a = ws_end(s, i + 1);
        let b = word_end(s, a);
        assert(a == i + 1);
        assert(b == i + 2);
        assert(upper(s.subrange(a, b)) == "L"@);
        let c = after_length(s, ws_end(s, b));
        assert(c == i + 2);
        assert(p_item(s, i) == Some((Item::List(Seq::empty()), i + 3)));
    } else {
        let parts = sml_items(v);
        lemma_sml_items(v);
        lemma_spaced_join(parts);
        let sp = spaced(parts);
        reveal_strlit(" ");
        assert(w =~= seq!['<', 'L'] + sp + seq!['>']);
        assert(s[i + 1] == 'L');
        assert(s[i + 2] == ' ');
        assert(sml_safe(v[0]));
        lemma_starts_angle(v[0]);
        assert(sp[1] == parts[0][0]);
        assert(s[i + 3] == '<');
        assert(ws_end(s, i + 1) == i + 1);
        lemma_word_run(s, i + 1, 1);
        assert(s.subrange(i + 1, i + 2) =~= seq!['L']);
        assert(upper(seq!['L']) =~= seq!['L']);
        assert(ws_end(s, i + 3) == i + 3);
        assert(ws_end(s, i + 2) == i + 3);
        assert(after_length(s, i + 3) == i + 3);
        lemma_sub(s, i, w, 2, sp.len() as int + 1);
        assert(w.subrange(2, 2 + sp.len() as int + 1) =~= sp + seq!['>']);
        lemma_list_read(v, s, i + 2, Seq::empty());
        assert(Seq::<Item>::empty() + v =~= v);
        assert(p_list(s, i + 3, Seq::empty()) == p_list(s, i + 2, Seq::empty()));
        assert(p_list(s, i + 3, Seq::empty()) == Some((v, i + 2 + sp.len())));
        let a = ws_end(s, i + 1);
        let b = word_end(s, a);
        assert(a == i + 1);
        assert(b == i + 2);
        assert(upper(s.subrange(a, b)) == "L"@);
        let c = after_length(s, ws_end(s, b));
        assert(c == i + 3);
        assert(w.len() == 3 + sp.len());
        assert(s[i + 0] == w[0]);
        assert(s[i] == '<');
        assert(p_item(s, i) == Some((Item::List(v), i + 3 + sp.len())));
    }

}

proof fn lemma_ascii_read(t: Seq<char>, s: Seq<char>, i: int)
    requires
        no_trailing_backslash(t),
        0 <= i,
        i + sml_item(Item::Ascii(t)).len() <= s.len(),
        s.subrange(i, i + sml_item(Item::Ascii(t)).len()) == sml_item(Item::Ascii(t)),
    ensures
        p_item(s, i) == Some((Item::Ascii(t), i + sml_item(Item::Ascii(t)).len())),
{
    let x = Item::Ascii(t);
    let w = sml_item(x);
    lemma_at(s, i, w);
    lemma_type_words();
    let e = escape_quotes(t);
    reveal_strlit(" \"");
    reveal_strlit("\">");
    assert(" \""@ =~= seq![' ', '"']);
    assert("\">"@ =~= seq!['"', '>']);
    assert(w =~= seq!['<', 'A', ' ', '"'] + e + seq!['"', '>']);
    assert(s[i + 1] == 'A');
    assert(s[i + 2] == ' ');
    assert(s[i + 3] == '"');
    assert(ws_end(s, i + 1) == i + 1);
    lemma_word_run(s, i + 1, 1);
    assert(s.subrange(i + 1, i + 2) =~= seq!['A']);
    assert(upper(seq!['A']) =~= seq!['A']);
    assert(ws_end(s, i + 3) == i + 3);
    assert(ws_end(s, i + 2) == i + 3);
    assert(after_length(s, i + 3) == i + 3);
    lemma_sub(s, i, w, 4, e.len() as int + 2);
    assert(w.subrange(4, 4 + e.len() as int + 2) =~= e + seq!['"', '>']);
    lemma_p_quoted(s, i + 4, Seq::empty(), t);
    assert(Seq::<char>::empty() + t =~= t);
    assert(p_text(s, i + 3) == Some((t, i + 4 + e.len() + 1)));
    let a = ws_end(s, i + 1);
    let b = word_end(s, a);
    assert(a == i + 1);
    assert(b == i + 2);
    assert(upper(s.subrange(a, b)) == "A"@);
    assert("A"@ != "L"@);
    let c = after_length(s, ws_end(s, b));
    assert(c == i + 3);
    assert(w.len() == 6 + e.len());
    assert(s[i + 0] == w[0]);
    assert(s[i] == '<');
    assert(p_item(s, i) == Some((Item::Ascii(t), i + 6 + e.len())));

}

/// `<tw values>` read back through the reader's token path.
proof fn lemma_tagged_read(tw: Seq<char>, t: Seq<Seq<char>>, x: Item, s: Seq<char>, i: int)
    requires
        tw.len() > 0,
        forall|k: int| 0 <= k < tw.len() ==> is_word_char(#[trigger] tw[k]) && !('a' <= tw[k] && tw[k] <= 'z'),
        tw != "L"@,
        tw != "A"@,
        tw != "J"@,
        forall|j: int| 0 <= j < t.len() ==> plain_tok(#[trigger] t[j]) && t[j][0] != '[',
        leaf_item(tw, t) == Some(x),
        0 <= i,
        i + (seq!['<'] + tw + seq![' '] + join(t, " "@) + seq!['>']).len() <= s.len(),
        s.subrange(i, i + (seq!['<'] + tw + seq![' '] + join(t, " "@) + seq!['>']).len()) == seq!['<'] + tw + seq![' '] + join(t, " "@) + seq!['>'],
    ensures
        p_item(s, i) == Some((x, i + (seq!['<'] + tw + seq![' '] + join(t, " "@) + seq!['>']).len())),
{
    let w = seq!['<'] + tw + seq![' '] + join(t, " "@) + seq!['>'];
    lemma_at(s, i, w);
    let n = tw.len() as int;
    let b = i + 1 + n;
    assert(s[i + 0] == w[0]);
    assert(s.subrange(i + 1, b) =~= tw) by {
        assert forall|q: int| 0 <= q < n implies s.subrange(i + 1, b)[q] == tw[q] by {
            assert(s[i + (1 + q)] == w[1 + q]);
        }
    }
    lemma_word_upper(tw);
    assert(ws_end(s, i + 1) == i + 1) by {
        assert(s[i + 1] == w[1]);
    }
    assert forall|k: int| i + 1 <= k < b implies is_word_char(#[trigger] s[k]) by {
        assert(s[i + (k - i)] == w[k - i]);
    }
    assert(s[b] == w[1 + n]);
    lemma_word_run(s, i + 1, n);
    let ghost e: int;
    if t.len() > 0 {
        lemma_spaced_join(t);
        let sp = spaced(t);
        assert(w =~= seq!['<'] + tw + sp + seq!['>']);
        assert(sp[1] == t[0][0]);
        assert(s[b + 1] == w[2 + n]);
        assert(!is_delim(t[0][0]));
        assert(ws_end(s, b + 1) == b + 1);
        assert(ws_end(s, b) == b + 1);
        assert(after_length(s, b + 1) == b + 1);
        lemma_sub(s, i, w, 1 + n, sp.len() as int + 1);
        assert(w.subrange(1 + n, 1 + n + sp.len() as int + 1) =~= sp + seq!['>']);
        lemma_p_tokens(s, b, Seq::empty(), t);
        assert(Seq::<Seq<char>>::empty() + t =~= t);
        assert(p_tokens(s, b + 1, Seq::empty()) == p_tokens(s, b, Seq::empty()));
        e = b + sp.len();
        assert(w.len() == 2 + n + sp.len());
    } else {
        reveal_strlit(" ");
        assert(join(t, " "@) =~= Seq::<char>::empty());
        assert(w =~= seq!['<'] + tw + seq![' ', '>']);
        assert(s[b + 1] == w[2 + n]);
        assert(ws_end(s, b + 1) == b + 1);
        assert(ws_end(s, b) == b + 1);
        assert(after_length(s, b + 1) == b + 1);
        lemma_sub(s, i, w, 2 + n, 1);
        assert(w.subrange(2 + n, 3 + n) =~= spaced(t) + seq!['>']);
        lemma_p_tokens(s, b + 1, Seq::empty(), t);
        assert(Seq::<Seq<char>>::empty() + t =~= t);
        e = b + 1;
        assert(w.len() == 3 + n);
    }
    assert(p_tokens(s, b + 1, Seq::empty()) == Some((t, e)));
    let a = ws_end(s, i + 1);
    let bb = word_end(s, a);
    assert(a == i + 1);
    assert(bb == b);
    assert(upper(s.subrange(a, bb)) == tw);
    assert(after_length(s, ws_end(s, bb)) == b + 1);
    assert(p_item(s, i) == Some((x, e + 1)));
}

proof fn lemma_leaf_read(x: Item, s: Seq<char>, i: int)
    requires
        is_leaf(x),
        sml_safe(x),
        0 <= i,
        i + sml_item(x).len() <= s.len(),
        s.subrange(i, i + sml_item(x).len()) == sml_item(x),
    ensures
        p_item(s, i) == Some((x, i + sml_item(x).len())),
{
    let tw = type_word(x);
    let t = value_toks(x);
    lemma_values_text(x);
    lemma_toks_plain(x);
    lemma_leaf_item(x);
    lemma_type_words();
    assert(sml_item(x) == tagged(tw, values_text(x)));
    assert(sml_item(x) =~= seq!['<'] + tw + seq![' '] + join(t, " "@) + seq!['>']);
    assert(tw.len() > 0);
    assert(tw[0] != 'L' && tw[0] != 'A' && tw[0] != 'J') by {
        match x {
            Item::Binary(_) => assert(tw == seq!['B']),
            Item::Boolean(_) => assert(tw == seq!['B', 'O', 'O', 'L', 'E', 'A', 'N']),
            Item::Uint1(_) => assert(tw == seq!['U', '1']),
            Item::Uint2(_) => assert(tw == seq!['U', '2']),
            Item::Uint4(_) => assert(tw == seq!['U', '4']),
            Item::Uint8(_) => assert(tw == seq!['U', '8']),
            Item::Int1(_) => assert(tw == seq!['I', '1']),
            Item::Int2(_) => assert(tw == seq!['I', '2']),
            Item::Int4(_) => assert(tw == seq!['I', '4']),
            Item::Int8(_) => assert(tw == seq!['I', '8']),
            Item::Float4(_) => assert(tw == seq!['F', '4']),
            Item::Float8(_) => assert(tw == seq!['F', '8']),
            _ => {},
        }
    }
    assert(tw != "L"@ && tw != "A"@ && tw != "J"@);
    assert forall|k: int| 0 <= k < tw.len() implies is_word_char(#[trigger] tw[k]) && !('a' <= tw[k] && tw[k] <= 'z') by {}
    lemma_tagged_read(tw, t, x, s, i);
}

/// SML text written for a safe item reads back as that item, wherever it
/// stands in a longer text.
pub proof fn lemma_item_read(x: Item, s: Seq<char>, i: int)
    requires
        sml_safe(x),
        0 <= i,
        i + sml_item(x).len() <= s.len(),
        s.subrange(i, i + sml_item(x).len()) == sml_item(x),
    ensures
        p_item(s, i) == Some((x, i + sml_item(x).len())),
    decreases x, 0int,
{
    match x {
        Item::List(v) => lemma_list_item_read(v, s, i),
        Item::Ascii(t) => lemma_ascii_read(t, s, i),
        _ => lemma_leaf_read(x, s, i),
    }
}

/// The SML texts of safe items, each after one space, then `>`, read back
/// as those items.
pub proof fn lemma_list_read(v: Seq<Item>, s: Seq<char>, j: int, acc: Seq<Item>)
    requires
        sml_safe_all(v),
        0 <= j,
        j + spaced(sml_items(v)).len() + 1 <= s.len(),
        s.subrange(j, j + spaced(sml_items(v)).len() + 1) == spaced(sml_items(v)) + seq!['>'],
    ensures
        p_list(s, j, acc) == Some((acc + v, j + spaced(sml_items(v)).len())),
    decreases v, 1int,
{
    let parts = sml_items(v);
    let sp = spaced(parts);
    let w = sp + seq!['>'];
    lemma_at(s, j, w);
    lemma_sml_items(v);
    if v.len() == 0 {
        assert(parts.len() == 0);
        assert(s[j] == w[0]);
        assert(ws_end(s, j) == j);
        assert(acc + v =~= acc);
    } else {
        let rest = v.subrange(1, v.len() as int);
        let x = v[0];
        assert(sml_safe(x));
        assert(sml_safe_all(rest));
        let w0 = sml_item(x);
        lemma_sml_items(rest);
        assert(parts.drop_first() =~= sml_items(rest));
        let spr = spaced(sml_items(rest));
        assert(sp == seq![' '] + w0 + spr);
        lemma_starts_angle(x);
        assert(s[j] == w[0]);
        assert(s[j + 1] == w[1]);
        assert(ws_end(s, j + 1) == j + 1);
        assert(ws_end(s, j) == j + 1);
        lemma_sub(s, j, w, 1, w0.len() as int);
        assert(w.subrange(1, 1 + w0.len() as int) =~= w0);
        lemma_item_read(x, s, j + 1);
        let k = j + 1 + w0.len() as int;
        lemma_sub(s, j, w, 1 + w0.len() as int, spr.len() as int + 1);
        assert(w.subrange(1 + w0.len() as int, 1 + w0.len() as int + spr.len() as int + 1) =~= spr + seq!['>']);
        lemma_list_read(rest, s, k, acc.push(x));
        assert(acc.push(x) + rest =~= acc + v);
    }
}


proof fn lemma_ends_angle(x: Item)
    requires
        !(x is Empty),
    ensures
        sml_item(x).len() > 0,
        sml_item(x).last() == '>',
{
    reveal_strlit("<L>");
    reveal_strlit("\">");
    assert("<L>"@ =~= seq!['<', 'L', '>']);
    assert("\">"@ =~= seq!['"', '>']);
}

pub(crate) proof fn lemma_trim_plain(s: Seq<char>)
    requires
        s.len() > 0,
        !is_ws(s[0]),
        !is_ws(s.last()),
    ensures
        trim(s) == s,
{
    assert(lead_ws(s) == 0);
    assert(s.skip(0) =~= s);
    assert(trail_ws(s) == 0);
    assert(s.take(s.len() as int) =~= s);
}

/// A body text that starts with `<`, ends with `>` and reads as `x` from
/// position 5 of `S0F0 <text>.` stands for the body `x`.
proof fn lemma_bare_body(b: Seq<char>, x: Item)
    requires
        b.len() > 0,
        b[0] == '<',
        b.last() == '>',
        p_item("S0F0 "@ + b + "."@, 5) == Some((x, 5 + b.len() as int)),
    ensures
        body_sml_item(b) == Some(x),
{
    lemma_trim_plain(b);
    reveal_strlit(".");
    reveal_strlit("S0F0 ");
    assert(b != "."@);
    let s = "S0F0 "@ + b + "."@;
    let n = b.len() as int;
    assert(s.len() == n + 6);
    assert(s[0] == 'S' && s[1] == '0' && s[2] == 'F' && s[3] == '0' && s[4] == ' ');
    assert(s[5] == '<');
    assert(s[n + 5] == '.');
    assert(s.last() == '.');
    lemma_trim_plain(s);
    assert(digit_end(s, 2) == 2);
    assert(digit_end(s, 1) == 2);
    assert(digit_end(s, 4) == 4);
    assert(digit_end(s, 3) == 4);
    assert(s.subrange(1, 2) =~= seq!['0']);
    assert(s.subrange(3, 4) =~= seq!['0']);
    assert(digits_value(seq!['0'], 10) == 0) by {
        assert(seq!['0'].drop_last() =~= Seq::<char>::empty());
        assert(digits_value(Seq::<char>::empty(), 10) == 0);
        assert(seq!['0'].last() == '0');
        assert(digit_of('0', 10) == Some(0nat));
    }
    assert(ws_end(s, 5) == 5);
    assert(ws_end(s, 4) == 5);
    assert(p_body(s, 5) == Some((x, 5 + n)));
    assert(ws_end(s, 5 + n) == 5 + n);
    assert(ws_end(s, 6 + n) == s.len());
    assert(p_message(s) is Some);
    assert(sml_message(s) == p_message(s));
}

/// The body text written for an item reads back as that item: the empty
/// item has no text and reads back as the empty item; the text of any other
/// item the reader takes back is read as the body of `S0F0 <text>.`.
pub proof fn lemma_body_round_trip(x: Item)
    requires
        x is Empty || sml_safe(x),
    ensures
        body_sml_item(sml_item(x)) == Some(x),
{
    let b = sml_item(x);
    if x is Empty {
        assert(trim(b) =~= b);
    } else {
        lemma_starts_angle(x);
        lemma_ends_angle(x);
        reveal_strlit(".");
        reveal_strlit("S0F0 ");
        let s = "S0F0 "@ + b + "."@;
        assert(s.subrange(5, 5 + b.len() as int) =~= b);
        lemma_item_read(x, s, 5);
        lemma_bare_body(b, x);
    }
}

} // verus!
