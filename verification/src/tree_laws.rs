//! What the body tree shows of an item converts back to that item.

use vstd::prelude::*;
use crate::text::{is_ws, join, split_ws, trim, upper, lower, lemma_word_len_unique};
use crate::numbers::{dec_str, int_str, hex_byte, parse_signed, parse_i64_spec};
use crate::body_tree::{
    BodyFault, BodyNode, float_text, float_tokens, uint_token, uint_tokens, int_tokens, byte_token, byte_tokens, bool_token,
    bools_of, uints_of, ints_of, bytes_of, floats_of, node_item, node_items, tree_item,
};
use crate::body_from_item::{item_node, item_nodes, item_tree};
use crate::item_text::bool_word;
use crate::secs2::Item;
use crate::sml_read::uint_tok;
use crate::sml_write::{type_word, values_text};
use crate::sml_laws::{
    value_toks, plain_tok, lemma_dec_str, lemma_parse_dec, lemma_parse_int, lemma_parse_hex_byte,
    lemma_values_text, lemma_toks_plain, lemma_type_words,
};

verus! {

/// A non-empty token without whitespace.
pub open spec fn ws_free(t: Seq<char>) -> bool {
    t.len() > 0 && forall|k: int| 0 <= k < t.len() ==> !is_ws(#[trigger] t[k])
}

proof fn lemma_join_front(t: Seq<Seq<char>>)
    requires
        t.len() >= 2,
    ensures
        join(t, " "@) == t[0] + " "@ + join(t.drop_first(), " "@),
    decreases t.len(),
{
    if t.len() == 2 {
        assert(t.drop_last() =~= seq![t[0]]);
        assert(t.drop_first() =~= seq![t[1]]);
        assert(join(t.drop_last(), " "@) == t[0]);
        assert(join(t.drop_first(), " "@) == t[1]);
    } else {
        lemma_join_front(t.drop_last());
        assert(t.drop_last().drop_first() =~= t.drop_first().drop_last());
        assert(t.drop_first().last() == t.last());
        assert(join(t, " "@) =~= t[0] + " "@ + join(t.drop_first(), " "@));
    }
}

proof fn lemma_split_single(a: Seq<char>)
    requires
        ws_free(a),
    ensures
        split_ws(a) == seq![a],
{
    lemma_word_len_unique(a, a.len() as int);
    assert(!is_ws(a[0]));
    assert(a.take(a.len() as int) =~= a);
    assert(a.skip(a.len() as int) =~= Seq::<char>::empty());
    assert(split_ws(a.skip(a.len() as int)) == Seq::<Seq<char>>::empty());
    assert(seq![a] + Seq::<Seq<char>>::empty() =~= seq![a]);
}

proof fn lemma_split_word(a: Seq<char>, r: Seq<char>)
    requires
        ws_free(a),
    ensures
        split_ws(a + " "@ + r) == seq![a] + split_ws(r),
{
    reveal_strlit(" ");
    let s = a + " "@ + r;
    let n = a.len() as int;
    assert(s[n] == ' ');
    assert forall|k: int| 0 <= k < n implies !is_ws(#[trigger] s[k]) by {
        assert(s[k] == a[k]);
    }
    lemma_word_len_unique(s, n);
    assert(s.take(n) =~= a);
    let rest = s.skip(n);
    assert(rest =~= " "@ + r);
    assert(rest.drop_first() =~= r);
    assert(is_ws(rest[0]));
    assert(split_ws(rest) == split_ws(r));
    assert(!is_ws(s[0]));
}

/// Space-joined tokens without whitespace split back into those tokens.
pub proof fn lemma_split_join(t: Seq<Seq<char>>)
    requires
        t.len() > 0,
        forall|i: int| 0 <= i < t.len() ==> ws_free(#[trigger] t[i]),
    ensures
        split_ws(join(t, " "@)) == t,
    decreases t.len(),
{
    if t.len() == 1 {
        lemma_split_single(t[0]);
        assert(seq![t[0]] =~= t);
    } else {
        lemma_join_front(t);
        let rest = t.drop_first();
        assert forall|i: int| 0 <= i < rest.len() implies ws_free(#[trigger] rest[i]) by {
            assert(rest[i] == t[i + 1]);
        }
        lemma_split_join(rest);
        lemma_split_word(t[0], join(rest, " "@));
        assert(seq![t[0]] + rest =~= t);
    }
}

/// Space-joined tokens without whitespace have no whitespace at either end.
pub proof fn lemma_join_trimmed(t: Seq<Seq<char>>)
    requires
        t.len() > 0,
        forall|i: int| 0 <= i < t.len() ==> ws_free(#[trigger] t[i]),
    ensures
        join(t, " "@).len() > 0,
        trim(join(t, " "@)) == join(t, " "@),
    decreases t.len(),
{
    let s = join(t, " "@);
    if t.len() == 1 {
        assert(ws_free(t[0]));
        assert(!is_ws(s[0]));
        assert(!is_ws(s.last()));
    } else {
        lemma_join_front(t);
        assert(ws_free(t[0]));
        assert(ws_free(t.last()));
        assert(s[0] == t[0][0]);
        assert(s.last() == t.last().last());
    }
    crate::sml_laws::lemma_trim_plain(s);
}

proof fn lemma_uint_token(n: nat)
    requires
        n <= 0xffff_ffff_ffff_ffff,
    ensures
        uint_token(int_str(n as int)) == Some(n),
{
    lemma_dec_str(n);
    lemma_parse_dec(n, 0xffff_ffff_ffff_ffff);
    let d = dec_str(n);
    assert(int_str(n as int) == d);
    if d.len() >= 2 {
        assert('0' <= d[1] <= '9');
    }
}

proof fn lemma_uint_tokens(vals: Seq<int>)
    requires
        forall|i: int| 0 <= i < vals.len() ==> 0 <= #[trigger] vals[i] <= 0xffff_ffff_ffff_ffff,
    ensures
        uint_tokens(Seq::new(vals.len(), |i: int| int_str(vals[i]))) == Ok::<Seq<u64>, Seq<char>>(
            Seq::new(vals.len(), |i: int| vals[i] as u64),
        ),
    decreases vals.len(),
{
    let t = Seq::new(vals.len(), |i: int| int_str(vals[i]));
    if vals.len() > 0 {
        let d = vals.drop_last();
        lemma_uint_tokens(d);
        assert(t.drop_last() =~= Seq::new(d.len(), |i: int| int_str(d[i])));
        lemma_uint_token(vals.last() as nat);
        assert(Seq::new(d.len(), |i: int| d[i] as u64).push(vals.last() as u64) =~= Seq::new(
            vals.len(),
            |i: int| vals[i] as u64,
        ));
    } else {
        assert(Seq::new(vals.len(), |i: int| vals[i] as u64) =~= Seq::<u64>::empty());
    }
}

proof fn lemma_int_tokens(vals: Seq<int>)
    requires
        forall|i: int| 0 <= i < vals.len() ==> -0x8000_0000_0000_0000 <= #[trigger] vals[i] <= 0x7fff_ffff_ffff_ffff,
    ensures
        int_tokens(Seq::new(vals.len(), |i: int| int_str(vals[i]))) == Ok::<Seq<i64>, Seq<char>>(
            Seq::new(vals.len(), |i: int| vals[i] as i64),
        ),
    decreases vals.len(),
{
    let t = Seq::new(vals.len(), |i: int| int_str(vals[i]));
    if vals.len() > 0 {
        let d = vals.drop_last();
        lemma_int_tokens(d);
        assert(t.drop_last() =~= Seq::new(d.len(), |i: int| int_str(d[i])));
        lemma_parse_int(vals.last(), 0x7fff_ffff_ffff_ffff);
        assert(parse_i64_spec(int_str(vals.last())) == parse_signed(int_str(vals.last()), 0x7fff_ffff_ffff_ffff));
        assert(Seq::new(d.len(), |i: int| d[i] as i64).push(vals.last() as i64) =~= Seq::new(
            vals.len(),
            |i: int| vals[i] as i64,
        ));
    } else {
        assert(Seq::new(vals.len(), |i: int| vals[i] as i64) =~= Seq::<i64>::empty());
    }
}

proof fn lemma_byte_tokens(b: Seq<u8>)
    ensures
        byte_tokens(Seq::new(b.len(), |i: int| hex_byte(b[i]))) == Ok::<Seq<u8>, Seq<char>>(b),
    decreases b.len(),
{
    let t = Seq::new(b.len(), |i: int| hex_byte(b[i]));
    if b.len() > 0 {
        let d = b.drop_last();
        lemma_byte_tokens(d);
        assert(t.drop_last() =~= Seq::new(d.len(), |i: int| hex_byte(d[i])));
        lemma_parse_hex_byte(b.last());
        assert(byte_token(hex_byte(b.last())) == uint_tok(hex_byte(b.last()), 255));
        assert(d.push(b.last()) =~= b);
    } else {
        assert(b =~= Seq::<u8>::empty());
    }
}

/// A byte token without the `0x` prefix is read in base ten: the decimal
/// text of every byte value reads back as that value; with the prefix it
/// is read in base sixteen.
pub proof fn lemma_byte_token_bases(n: nat, b: u8)
    requires
        n <= 255,
    ensures
        byte_token(dec_str(n)) == Some(n),
        byte_token(hex_byte(b)) == Some(b as nat),
{
    lemma_dec_str(n);
    lemma_parse_dec(n, 255);
    let d = dec_str(n);
    if d.len() >= 2 {
        assert('0' <= d[1] <= '9');
    }
    lemma_parse_hex_byte(b);
    assert(byte_token(hex_byte(b)) == uint_tok(hex_byte(b), 255));
}

/// Decimal byte texts, one per value.
pub open spec fn dec_byte_texts(b: Seq<u8>) -> Seq<Seq<char>> {
    Seq::new(b.len(), |i: int| dec_str(b[i] as nat))
}

proof fn lemma_dec_byte_tokens(b: Seq<u8>)
    ensures
        byte_tokens(dec_byte_texts(b)) == Ok::<Seq<u8>, Seq<char>>(b),
    decreases b.len(),
{
    let t = dec_byte_texts(b);
    if b.len() > 0 {
        let d = b.drop_last();
        lemma_dec_byte_tokens(d);
        assert(t.drop_last() =~= dec_byte_texts(d));
        lemma_byte_token_bases(b.last() as nat, 0);
        assert(d.push(b.last()) =~= b);
    } else {
        assert(b =~= Seq::<u8>::empty());
    }
}

/// A `B` leaf whose text is byte values written in decimal and separated by
/// single spaces converts to exactly those bytes (`10 20` is 0x0A 0x14).
pub proof fn lemma_binary_leaf_decimal(n: BodyNode, b: Seq<u8>)
    requires
        upper(n.item_type) == "B"@,
        b.len() > 0,
        n.value == join(dec_byte_texts(b), " "@),
    ensures
        node_item(n) == Ok::<Item, BodyFault>(Item::Binary(b)),
{
    let t = dec_byte_texts(b);
    assert forall|i: int| 0 <= i < t.len() implies ws_free(#[trigger] t[i]) by {
        lemma_dec_str(b[i] as nat);
        let s = dec_str(b[i] as nat);
        assert forall|k: int| 0 <= k < s.len() implies !is_ws(#[trigger] s[k]) by {
            assert('0' <= s[k] <= '9');
        }
    }
    lemma_join_trimmed(t);
    lemma_split_join(t);
    lemma_dec_byte_tokens(b);
    reveal_strlit("B");
    reveal_strlit("L");
    reveal_strlit("A");
    reveal_strlit("J");
    assert(upper(n.item_type)[0] == 'B');
    assert("L"@[0] == 'L' && "A"@[0] == 'A' && "J"@[0] == 'J');
    assert(bytes_of(n.value) == Ok::<Seq<u8>, Seq<char>>(b));
}

proof fn lemma_float_tokens(t: Seq<Seq<char>>)
    requires
        forall|i: int| 0 <= i < t.len() ==> float_text(#[trigger] t[i]),
    ensures
        float_tokens(t) == Ok::<Seq<Seq<char>>, Seq<char>>(t),
    decreases t.len(),
{
    if t.len() > 0 {
        let d = t.drop_last();
        assert forall|i: int| 0 <= i < d.len() implies float_text(#[trigger] d[i]) by {
            assert(d[i] == t[i]);
        }
        lemma_float_tokens(d);
        assert(d.push(t.last()) =~= t);
    } else {
        assert(t =~= Seq::<Seq<char>>::empty());
    }
}

proof fn lemma_bool_token(x: bool)
    ensures
        bool_token(bool_word(x)) == x,
{
    reveal_strlit("true");
    reveal_strlit("false");
    reveal_strlit("1");
    reveal_strlit("yes");
    reveal_strlit("t");
    assert(lower("true"@) =~= "true"@);
    assert(lower("false"@) =~= seq!['f', 'a', 'l', 's', 'e']);
    assert(seq!['f', 'a', 'l', 's', 'e'] != "true"@ && seq!['f', 'a', 'l', 's', 'e'] != "1"@);
    assert(seq!['f', 'a', 'l', 's', 'e'] != "yes"@ && seq!['f', 'a', 'l', 's', 'e'] != "t"@);
}

/// Items the body tree shows and converts back unchanged: no empty item
/// inside a list, no JIS-8 or Unicode text, at least one value in a number
/// item, and float texts that are numbers without whitespace.
pub open spec fn tree_safe(item: Item) -> bool
    decreases item, 0int,
{
    match item {
        Item::Empty => false,
        Item::Jis8(_) => false,
        Item::Unicode(_) => false,
        Item::List(v) => tree_safe_all(v),
        Item::Ascii(_) => true,
        Item::Binary(_) => true,
        Item::Boolean(_) => true,
        Item::Float4(t) => t.len() > 0 && forall|i: int| 0 <= i < t.len() ==> ws_free(#[trigger] t[i]) && float_text(t[i]),
        Item::Float8(t) => t.len() > 0 && forall|i: int| 0 <= i < t.len() ==> ws_free(#[trigger] t[i]) && float_text(t[i]),
        _ => value_toks(item).len() > 0,
    }
}

pub open spec fn tree_safe_all(v: Seq<Item>) -> bool
    decreases v, 1int,
{
    if v.len() == 0 {
        true
    } else {
        tree_safe_all(v.drop_last()) && tree_safe(v.last())
    }
}

proof fn lemma_ws_free_plain(t: Seq<Seq<char>>)
    requires
        forall|i: int| 0 <= i < t.len() ==> plain_tok(#[trigger] t[i]),
    ensures
        forall|i: int| 0 <= i < t.len() ==> ws_free(#[trigger] t[i]),
{
    assert forall|i: int| 0 <= i < t.len() implies ws_free(#[trigger] t[i]) by {
        assert(plain_tok(t[i]));
        assert forall|k: int| 0 <= k < t[i].len() implies !is_ws(#[trigger] t[i][k]) by {
            assert(!crate::sml_read::is_delim(t[i][k]));
        }
    }
}

/// The value text of a leaf, trimmed and split, gives back its tokens.
proof fn lemma_leaf_tokens(x: Item)
    requires
        crate::sml_laws::is_leaf(x),
        tree_safe(x),
    ensures
        values_text(x) == join(value_toks(x), " "@),
        value_toks(x).len() == 0 ==> trim(values_text(x)).len() == 0,
        value_toks(x).len() > 0 ==> trim(values_text(x)).len() > 0 && split_ws(trim(values_text(x)))
            == value_toks(x),
{
    lemma_values_text(x);
    let t = value_toks(x);
    match x {
        Item::Float4(_) => {},
        Item::Float8(_) => {},
        _ => {
            lemma_toks_plain(x);
            lemma_ws_free_plain(t);
        },
    }
    if t.len() == 0 {
        assert(join(t, " "@) == Seq::<char>::empty());
        assert(trim(Seq::<char>::empty()) =~= Seq::<char>::empty());
    } else {
        lemma_join_trimmed(t);
        lemma_split_join(t);
    }
}

/// The type words and `BOOL`, character by character.
proof fn lemma_tree_words()
    ensures
        "BOOL"@ == seq!['B', 'O', 'O', 'L'],
        "B"@ == seq!['B'],
        "BOOLEAN"@ == seq!['B', 'O', 'O', 'L', 'E', 'A', 'N'],
        "U1"@ == seq!['U', '1'],
        "U2"@ == seq!['U', '2'],
        "U4"@ == seq!['U', '4'],
        "U8"@ == seq!['U', '8'],
        "I1"@ == seq!['I', '1'],
        "I2"@ == seq!['I', '2'],
        "I4"@ == seq!['I', '4'],
        "I8"@ == seq!['I', '8'],
        "F4"@ == seq!['F', '4'],
        "F8"@ == seq!['F', '8'],
        "L"@ == seq!['L'],
        "A"@ == seq!['A'],
        "J"@ == seq!['J'],
{
    lemma_type_words();
    reveal_strlit("BOOL");
    assert("BOOL"@ =~= seq!['B', 'O', 'O', 'L']);
}

proof fn lemma_tree_uint1(v: Seq<u8>)
    requires
        v.len() > 0,
    ensures
        node_item(item_node(Item::Uint1(v))) == Ok::<Item, BodyFault>(Item::Uint1(v)),
{
    let x = Item::Uint1(v);
    lemma_tree_words();
    lemma_leaf_tokens(x);
    assert(upper(type_word(x)) =~= type_word(x));
    let n = Seq::new(v.len(), |i: int| v[i] as int);
    lemma_uint_tokens(n);
    assert(Seq::new(n.len(), |i: int| int_str(n[i])) =~= value_toks(x));
    let w = Seq::new(n.len(), |i: int| n[i] as u64);
    assert(Seq::new(w.len(), |i: int| w[i] as u8) =~= v);
}

proof fn lemma_tree_uint2(v: Seq<u16>)
    requires
        v.len() > 0,
    ensures
        node_item(item_node(Item::Uint2(v))) == Ok::<Item, BodyFault>(Item::Uint2(v)),
{
    let x = Item::Uint2(v);
    lemma_tree_words();
    lemma_leaf_tokens(x);
    assert(upper(type_word(x)) =~= type_word(x));
    let n = Seq::new(v.len(), |i: int| v[i] as int);
    lemma_uint_tokens(n);
    assert(Seq::new(n.len(), |i: int| int_str(n[i])) =~= value_toks(x));
    let w = Seq::new(n.len(), |i: int| n[i] as u64);
    assert(Seq::new(w.len(), |i: int| w[i] as u16) =~= v);
}

proof fn lemma_tree_uint4(v: Seq<u32>)
    requires
        v.len() > 0,
    ensures
        node_item(item_node(Item::Uint4(v))) == Ok::<Item, BodyFault>(Item::Uint4(v)),
{
    let x = Item::Uint4(v);
    lemma_tree_words();
    lemma_leaf_tokens(x);
    assert(upper(type_word(x)) =~= type_word(x));
    let n = Seq::new(v.len(), |i: int| v[i] as int);
    lemma_uint_tokens(n);
    assert(Seq::new(n.len(), |i: int| int_str(n[i])) =~= value_toks(x));
    let w = Seq::new(n.len(), |i: int| n[i] as u64);
    assert(Seq::new(w.len(), |i: int| w[i] as u32) =~= v);
}

proof fn lemma_tree_uint8(v: Seq<u64>)
    requires
        v.len() > 0,
    ensures
        node_item(item_node(Item::Uint8(v))) == Ok::<Item, BodyFault>(Item::Uint8(v)),
{
    let x = Item::Uint8(v);
    lemma_tree_words();
    lemma_leaf_tokens(x);
    assert(upper(type_word(x)) =~= type_word(x));
    let n = Seq::new(v.len(), |i: int| v[i] as int);
    lemma_uint_tokens(n);
    assert(Seq::new(n.len(), |i: int| int_str(n[i])) =~= value_toks(x));
    assert(Seq::new(v.len(), |i: int| n[i] as u64) =~= v);
}

proof fn lemma_tree_int1(v: Seq<i8>)
    requires
        v.len() > 0,
    ensures
        node_item(item_node(Item::Int1(v))) == Ok::<Item, BodyFault>(Item::Int1(v)),
{
    let x = Item::Int1(v);
    lemma_tree_words();
    lemma_leaf_tokens(x);
    assert(upper(type_word(x)) =~= type_word(x));
    let n = Seq::new(v.len(), |i: int| v[i] as int);
    lemma_int_tokens(n);
    assert(Seq::new(n.len(), |i: int| int_str(n[i])) =~= value_toks(x));
    let w = Seq::new(n.len(), |i: int| n[i] as i64);
    assert(Seq::new(w.len(), |i: int| w[i] as i8) =~= v);
}

proof fn lemma_tree_int2(v: Seq<i16>)
    requires
        v.len() > 0,
    ensures
        node_item(item_node(Item::Int2(v))) == Ok::<Item, BodyFault>(Item::Int2(v)),
{
    let x = Item::Int2(v);
    lemma_tree_words();
    lemma_leaf_tokens(x);
    assert(upper(type_word(x)) =~= type_word(x));
    let n = Seq::new(v.len(), |i: int| v[i] as int);
    lemma_int_tokens(n);
    assert(Seq::new(n.len(), |i: int| int_str(n[i])) =~= value_toks(x));
    let w = Seq::new(n.len(), |i: int| n[i] as i64);
    assert(Seq::new(w.len(), |i: int| w[i] as i16) =~= v);
}

proof fn lemma_tree_int4(v: Seq<i32>)
    requires
        v.len() > 0,
    ensures
        node_item(item_node(Item::Int4(v))) == Ok::<Item, BodyFault>(Item::Int4(v)),
{
    let x = Item::Int4(v);
    lemma_tree_words();
    lemma_leaf_tokens(x);
    assert(upper(type_word(x)) =~= type_word(x));
    let n = Seq::new(v.len(), |i: int| v[i] as int);
    lemma_int_tokens(n);
    assert(Seq::new(n.len(), |i: int| int_str(n[i])) =~= value_toks(x));
    let w = Seq::new(n.len(), |i: int| n[i] as i64);
    assert(Seq::new(w.len(), |i: int| w[i] as i32) =~= v);
}

proof fn lemma_tree_int8(v: Seq<i64>)
    requires
        v.len() > 0,
    ensures
        node_item(item_node(Item::Int8(v))) == Ok::<Item, BodyFault>(Item::Int8(v)),
{
    let x = Item::Int8(v);
    lemma_tree_words();
    lemma_leaf_tokens(x);
    assert(upper(type_word(x)) =~= type_word(x));
    let n = Seq::new(v.len(), |i: int| v[i] as int);
    lemma_int_tokens(n);
    assert(Seq::new(n.len(), |i: int| int_str(n[i])) =~= value_toks(x));
    assert(Seq::new(v.len(), |i: int| n[i] as i64) =~= v);
}

proof fn lemma_tree_binary(b: Seq<u8>)
    ensures
        node_item(item_node(Item::Binary(b))) == Ok::<Item, BodyFault>(Item::Binary(b)),
{
    let x = Item::Binary(b);
    lemma_type_words();
    lemma_leaf_tokens(x);
    lemma_byte_tokens(b);
    if b.len() == 0 {
        assert(b =~= Seq::<u8>::empty());
    }
    let n = item_node(x);
    assert(n.item_type == seq!['B']);
    assert(upper(n.item_type) =~= seq!['B']);
    assert(seq!['B'][0] == 'B' && "L"@[0] == 'L' && "A"@[0] == 'A' && "J"@[0] == 'J');
    assert(bytes_of(n.value) == Ok::<Seq<u8>, Seq<char>>(b));
}

proof fn lemma_tree_boolean(v: Seq<bool>)
    ensures
        node_item(item_node(Item::Boolean(v))) == Ok::<Item, BodyFault>(Item::Boolean(v)),
{
    let x = Item::Boolean(v);
    lemma_tree_words();
    lemma_leaf_tokens(x);
    assert(upper(type_word(x)) =~= type_word(x));
    let t = value_toks(x);
    if v.len() > 0 {
        assert forall|i: int| 0 <= i < v.len() implies bool_token(t[i]) == v[i] by {
            lemma_bool_token(v[i]);
        }
    }
    assert(bools_of(values_text(x)) =~= v);
}

proof fn lemma_tree_float4(f: Seq<Seq<char>>)
    requires
        tree_safe(Item::Float4(f)),
    ensures
        node_item(item_node(Item::Float4(f))) == Ok::<Item, BodyFault>(Item::Float4(f)),
{
    let x = Item::Float4(f);
    lemma_tree_words();
    lemma_leaf_tokens(x);
    assert(upper(type_word(x)) =~= type_word(x));
    lemma_float_tokens(f);
    assert(floats_of(values_text(x)) == Ok::<Seq<Seq<char>>, Seq<char>>(f));
}

proof fn lemma_tree_float8(f: Seq<Seq<char>>)
    requires
        tree_safe(Item::Float8(f)),
    ensures
        node_item(item_node(Item::Float8(f))) == Ok::<Item, BodyFault>(Item::Float8(f)),
{
    let x = Item::Float8(f);
    lemma_tree_words();
    lemma_leaf_tokens(x);
    assert(upper(type_word(x)) =~= type_word(x));
    lemma_float_tokens(f);
    assert(floats_of(values_text(x)) == Ok::<Seq<Seq<char>>, Seq<char>>(f));
}

proof fn lemma_leaf_round(x: Item)
    requires
        crate::sml_laws::is_leaf(x),
        tree_safe(x),
    ensures
        node_item(item_node(x)) == Ok::<Item, BodyFault>(x),
{
    match x {
        Item::Binary(b) => lemma_tree_binary(b),
        Item::Boolean(v) => lemma_tree_boolean(v),
        Item::Uint1(v) => lemma_tree_uint1(v),
        Item::Uint2(v) => lemma_tree_uint2(v),
        Item::Uint4(v) => lemma_tree_uint4(v),
        Item::Uint8(v) => lemma_tree_uint8(v),
        Item::Int1(v) => lemma_tree_int1(v),
        Item::Int2(v) => lemma_tree_int2(v),
        Item::Int4(v) => lemma_tree_int4(v),
        Item::Int8(v) => lemma_tree_int8(v),
        Item::Float4(f) => lemma_tree_float4(f),
        Item::Float8(f) => lemma_tree_float8(f),
        _ => {},
    }
}

proof fn lemma_item_nodes_len(v: Seq<Item>)
    ensures
        item_nodes(v).len() == v.len(),
    decreases v.len(),
{
    if v.len() > 0 {
        lemma_item_nodes_len(v.drop_last());
    }
}

proof fn lemma_node_round(x: Item)
    requires
        tree_safe(x),
    ensures
        node_item(item_node(x)) == Ok::<Item, BodyFault>(x),
    decreases x, 0int,
{
    lemma_type_words();
    match x {
        Item::List(v) => {
            let n = item_node(x);
            assert(upper(n.item_type) =~= "L"@);
            lemma_item_nodes_len(v);
            if v.len() == 0 {
                assert(v =~= Seq::<Item>::empty());
            } else {
                lemma_nodes_round(v);
            }
        },
        Item::Ascii(a) => {
            let n = item_node(x);
            assert(upper(n.item_type) =~= "A"@);
            assert("L"@[0] == 'L' && "A"@[0] == 'A');
        },
        _ => lemma_leaf_round(x),
    }
}

proof fn lemma_nodes_round(v: Seq<Item>)
    requires
        tree_safe_all(v),
    ensures
        node_items(item_nodes(v)) == Ok::<Seq<Item>, BodyFault>(v),
    decreases v, 1int,
{
    if v.len() > 0 {
        let d = v.drop_last();
        let x = v.last();
        assert(decreases_to!(v => v[v.len() - 1]));
        lemma_nodes_round(d);
        lemma_node_round(x);
        let ns = item_nodes(v);
        assert(ns.drop_last() =~= item_nodes(d));
        assert(ns.last() == item_node(x));
        assert(d.push(x) =~= v);
    } else {
        assert(v =~= Seq::<Item>::empty());
    }
}

/// What the body tree shows of an item converts back to that item: the
/// empty item shows no nodes and converts back to the empty item; any other
/// item the tree holds unchanged shows one node that converts back to it.
pub proof fn lemma_tree_round_trip(x: Item)
    requires
        x is Empty || tree_safe(x),
    ensures
        tree_item(item_tree(x)) == Ok::<Item, BodyFault>(x),
{
    if !(x is Empty) {
        lemma_node_round(x);
        assert(item_tree(x)[0] == item_node(x));
    }
}

} // verus!
