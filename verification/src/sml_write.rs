//! Compact SML text of SECS-II items (no `SxFy` header).

use vstd::prelude::*;
use crate::item_text::{utf8_lossy, lossy_text, nums_text, hex_list, bool_list, float_list, join_ints, hex_list_text, bool_list_text, float_list_text, widen_u8, widen_u16, widen_u32, widen_u64, widen_i8, widen_i16, widen_i32, widen_i64};
use crate::secs2::{Item, Secs2, models, lemma_models, lemma_models_take, strings_view};
use crate::text::{chars_of, push_all, push_str, string_of, join, seqs_of};
use crate::body_tree::{BodyItem, BodyFault, tree_item, nodes, body_tree_to_secs2};

verus! {

/// `s.replace('"', "\\\"")`.
pub open spec fn escape_quotes(s: Seq<char>) -> Seq<char>
    decreases s.len(),
{
    if s.len() == 0 {
        Seq::empty()
    } else {
        escape_quotes(s.drop_last()) + if s.last() == '"' {
            seq!['\\', '"']
        } else {
            seq![s.last()]
        }
    }
}

/// Backslash-escapes every double quote.
pub fn escape_quotes_text(s: &[char]) -> (r: Vec<char>)
    ensures
        r@ == escape_quotes(s@),
{
    let mut r: Vec<char> = Vec::new();
    let mut i: usize = 0;
    while i < s.len()
        invariant
            i <= s@.len(),
            r@ == escape_quotes(s@.take(i as int)),
        decreases s.len() - i,
    {
        assert(s@.take(i + 1).drop_last() =~= s@.take(i as int));
        if s[i] == '"' {
            r.push('\\');
            r.push('"');
        } else {
            r.push(s[i]);
        }
        i += 1;
        assert(r@ =~= escape_quotes(s@.take(i as int)));
    }
    assert(s@.take(s@.len() as int) =~= s@);
    r
}

/// `<tag values>`.
pub open spec fn tagged(tag: Seq<char>, values: Seq<char>) -> Seq<char> {
    seq!['<'] + tag + seq![' '] + values + seq!['>']
}

/// `<tag "text">` with quotes in `text` escaped.
pub open spec fn quoted(tag: Seq<char>, text: Seq<char>) -> Seq<char> {
    seq!['<'] + tag + " \""@ + escape_quotes(text) + "\">"@
}

pub open spec fn int_seq_u8(v: Seq<u8>) -> Seq<int> {
    Seq::new(v.len(), |i: int| v[i] as int)
}

pub open spec fn int_seq_u16(v: Seq<u16>) -> Seq<int> {
    Seq::new(v.len(), |i: int| v[i] as int)
}

pub open spec fn int_seq_u32(v: Seq<u32>) -> Seq<int> {
    Seq::new(v.len(), |i: int| v[i] as int)
}

pub open spec fn int_seq_u64(v: Seq<u64>) -> Seq<int> {
    Seq::new(v.len(), |i: int| v[i] as int)
}

pub open spec fn int_seq_i8(v: Seq<i8>) -> Seq<int> {
    Seq::new(v.len(), |i: int| v[i] as int)
}

pub open spec fn int_seq_i16(v: Seq<i16>) -> Seq<int> {
    Seq::new(v.len(), |i: int| v[i] as int)
}

pub open spec fn int_seq_i32(v: Seq<i32>) -> Seq<int> {
    Seq::new(v.len(), |i: int| v[i] as int)
}

pub open spec fn int_seq_i64(v: Seq<i64>) -> Seq<int> {
    Seq::new(v.len(), |i: int| v[i] as int)
}

/// Integer values of a numeric item, if it is one.
pub open spec fn int_values(item: Item) -> Option<Seq<int>> {
    match item {
        Item::Uint1(v) => Some(int_seq_u8(v)),
        Item::Uint2(v) => Some(int_seq_u16(v)),
        Item::Uint4(v) => Some(int_seq_u32(v)),
        Item::Uint8(v) => Some(int_seq_u64(v)),
        Item::Int1(v) => Some(int_seq_i8(v)),
        Item::Int2(v) => Some(int_seq_i16(v)),
        Item::Int4(v) => Some(int_seq_i32(v)),
        Item::Int8(v) => Some(int_seq_i64(v)),
        _ => None,
    }
}

/// Type word of an item as SML and the body tree write it.
pub open spec fn type_word(item: Item) -> Seq<char> {
    match item {
        Item::Empty => ""@,
        Item::List(_) => "L"@,
        Item::Ascii(_) => "A"@,
        Item::Binary(_) => "B"@,
        Item::Boolean(_) => "BOOLEAN"@,
        Item::Uint1(_) => "U1"@,
        Item::Uint2(_) => "U2"@,
        Item::Uint4(_) => "U4"@,
        Item::Uint8(_) => "U8"@,
        Item::Int1(_) => "I1"@,
        Item::Int2(_) => "I2"@,
        Item::Int4(_) => "I4"@,
        Item::Int8(_) => "I8"@,
        Item::Float4(_) => "F4"@,
        Item::Float8(_) => "F8"@,
        Item::Jis8(_) => "J"@,
        Item::Unicode(_) => "A"@,
    }
}

/// The values of a non-list, non-text item as space-separated text.
pub open spec fn values_text(item: Item) -> Seq<char> {
    match item {
        Item::Binary(b) => hex_list(b),
        Item::Boolean(b) => bool_list(b),
        Item::Float4(t) => float_list(t),
        Item::Float8(t) => float_list(t),
        _ => match int_values(item) {
            Some(v) => nums_text(v),
            None => Seq::empty(),
        },
    }
}

/// Compact SML text of an item.
pub open spec fn sml_item(item: Item) -> Seq<char>
    decreases item, 0int,
{
    match item {
        Item::Empty => Seq::empty(),
        Item::List(v) => if v.len() == 0 {
            "<L>"@
        } else {
            tagged("L"@, join(sml_items(v), " "@))
        },
        Item::Ascii(s) => quoted("A"@, s),
        Item::Jis8(b) => quoted("J"@, utf8_lossy(b)),
        Item::Unicode(b) => quoted("A"@, utf8_lossy(b)),
        _ => tagged(type_word(item), values_text(item)),
    }
}

/// SML texts of a sequence of items.
pub open spec fn sml_items(v: Seq<Item>) -> Seq<Seq<char>>
    decreases v, 1int,
{
    if v.len() == 0 {
        Seq::empty()
    } else {
        sml_items(v.drop_last()).push(sml_item(v.last()))
    }
}

/// The space-separated values of a leaf item that is neither a list nor text.
pub fn values_text_of(item: &Secs2) -> (r: Vec<char>)
    ensures
        r@ == values_text(item@),
{
    match item {
        Secs2::Binary(b) => hex_list_text(b),
        Secs2::Boolean(b) => bool_list_text(b),
        Secs2::Float4(t) => float_list_text(t),
        Secs2::Float8(t) => float_list_text(t),
        Secs2::Uint1(v) => {
            let w = widen_u8(v);
            let r = join_ints(&w);
            assert(Seq::new(w@.len(), |i: int| w@[i] as int) =~= int_seq_u8(v@));
            r
        },
        Secs2::Uint2(v) => {
            let w = widen_u16(v);
            let r = join_ints(&w);
            assert(Seq::new(w@.len(), |i: int| w@[i] as int) =~= int_seq_u16(v@));
            r
        },
        Secs2::Uint4(v) => {
            let w = widen_u32(v);
            let r = join_ints(&w);
            assert(Seq::new(w@.len(), |i: int| w@[i] as int) =~= int_seq_u32(v@));
            r
        },
        Secs2::Uint8(v) => {
            let w = widen_u64(v);
            let r = join_ints(&w);
            assert(Seq::new(w@.len(), |i: int| w@[i] as int) =~= int_seq_u64(v@));
            r
        },
        Secs2::Int1(v) => {
            let w = widen_i8(v);
            let r = join_ints(&w);
            assert(Seq::new(w@.len(), |i: int| w@[i] as int) =~= int_seq_i8(v@));
            r
        },
        Secs2::Int2(v) => {
            let w = widen_i16(v);
            let r = join_ints(&w);
            assert(Seq::new(w@.len(), |i: int| w@[i] as int) =~= int_seq_i16(v@));
            r
        },
        Secs2::Int4(v) => {
            let w = widen_i32(v);
            let r = join_ints(&w);
            assert(Seq::new(w@.len(), |i: int| w@[i] as int) =~= int_seq_i32(v@));
            r
        },
        Secs2::Int8(v) => {
            let w = widen_i64(v);
            let r = join_ints(&w);
            assert(Seq::new(w@.len(), |i: int| w@[i] as int) =~= int_seq_i64(v@));
            r
        },
        _ => Vec::new(),
    }
}

/// The type word of an item.
pub fn type_word_of(item: &Secs2) -> (r: Vec<char>)
    ensures
        r@ == type_word(item@),
{
    match item {
        Secs2::Empty => chars_of(""),
        Secs2::List(_) => chars_of("L"),
        Secs2::Ascii(_) => chars_of("A"),
        Secs2::Binary(_) => chars_of("B"),
        Secs2::Boolean(_) => chars_of("BOOLEAN"),
        Secs2::Uint1(_) => chars_of("U1"),
        Secs2::Uint2(_) => chars_of("U2"),
        Secs2::Uint4(_) => chars_of("U4"),
        Secs2::Uint8(_) => chars_of("U8"),
        Secs2::Int1(_) => chars_of("I1"),
        Secs2::Int2(_) => chars_of("I2"),
        Secs2::Int4(_) => chars_of("I4"),
        Secs2::Int8(_) => chars_of("I8"),
        Secs2::Float4(_) => chars_of("F4"),
        Secs2::Float8(_) => chars_of("F8"),
        Secs2::Jis8(_) => chars_of("J"),
        Secs2::Unicode(_) => chars_of("A"),
    }
}

fn quoted_text(tag: &str, text: &[char]) -> (r: Vec<char>)
    ensures
        r@ == quoted(tag@, text@),
{
    let mut r: Vec<char> = Vec::new();
    r.push('<');
    push_str(&mut r, tag);
    push_str(&mut r, " \"");
    let e = escape_quotes_text(text);
    push_all(&mut r, &e);
    push_str(&mut r, "\">");
    assert(r@ =~= quoted(tag@, text@));
    r
}

/// Compact SML text of an item.
pub fn format_secs2(item: &Secs2) -> (r: Vec<char>)
    ensures
        r@ == sml_item(item@),
    decreases *item,
{
    match item {
        Secs2::Empty => Vec::new(),
        Secs2::List(v) => {
            proof {
                lemma_models(v@);
            }
            if v.len() == 0 {
                return chars_of("<L>");
            }
            let parts = format_list(v);
            let sep = chars_of(" ");
            let inner = crate::text::join_parts(&parts, &sep);
            let mut r: Vec<char> = Vec::new();
            r.push('<');
            push_str(&mut r, "L");
            r.push(' ');
            push_all(&mut r, &inner);
            r.push('>');
            assert(r@ =~= tagged("L"@, join(sml_items(models(v@)), " "@)));
            r
        },
        Secs2::Ascii(s) => {
            let c = chars_of(s.as_str());
            quoted_text("A", &c)
        },
        Secs2::Jis8(b) => {
            let s = lossy_text(b);
            let c = chars_of(s.as_str());
            quoted_text("J", &c)
        },
        Secs2::Unicode(b) => {
            let s = lossy_text(b);
            let c = chars_of(s.as_str());
            quoted_text("A", &c)
        },
        _ => {
            let tag = type_word_of(item);
            let vals = values_text_of(item);
            let mut r: Vec<char> = Vec::new();
            r.push('<');
            push_all(&mut r, &tag);
            r.push(' ');
            push_all(&mut r, &vals);
            r.push('>');
            assert(r@ =~= tagged(type_word(item@), values_text(item@)));
            r
        },
    }
}

fn format_list(v: &Vec<Secs2>) -> (r: Vec<Vec<char>>)
    ensures
        seqs_of(r@) == sml_items(models(v@)),
    decreases v@,
{
    let mut r: Vec<Vec<char>> = Vec::new();
    let mut i: usize = 0;
    while i < v.len()
        invariant
            i <= v@.len(),
            seqs_of(r@) == sml_items(models(v@.take(i as int))),
        decreases v.len() - i,
    {
        let t = format_secs2(&v[i]);
        let ghost prev = r@;
        r.push(t);
        proof {
            lemma_models_take(v@, i as int);
            assert(models(v@.take(i as int)).push(v@[i as int]@).drop_last() =~= models(v@.take(i as int)));
            assert(seqs_of(r@) =~= seqs_of(prev).push(t@));
        }
        i += 1;
    }
    assert(v@.take(v@.len() as int) =~= v@);
    r
}

/// SML body text of an item; the empty item has no text.
pub fn secs2_to_sml_body(item: &Secs2) -> (r: String)
    ensures
        r@ == sml_item(item@),
{
    if item.is_empty_item() {
        return String::new();
    }
    let v = format_secs2(item);
    string_of(&v)
}

/// SML text of the item a body tree stands for, or nothing when the tree
/// does not convert.
pub fn body_tree_to_sml(items: &[BodyItem]) -> (r: String)
    ensures
        r@ == match tree_item(nodes(items@)) {
            Ok(x) => sml_item(x),
            Err(_) => Seq::<char>::empty(),
        },
{
    match body_tree_to_secs2(items) {
        Ok(s) => secs2_to_sml_body(&s),
        Err(_) => String::new(),
    }
}

} // verus!
