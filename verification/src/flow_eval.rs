//! Branch conditions over the results of earlier flow nodes: SECS-II body
//! paths, acknowledge values and text / numeric comparison.

use vstd::prelude::*;
use crate::secs2::{Secs2, Item, models, lemma_models, item_at};
use crate::numbers::{dec_str, int_str, hex_byte, u64_text, i64_text, hex_byte_text, parse_unsigned, parse_unsigned_chars};
use crate::text::{chars_of, string_of, push_all, push_str, chars_eq, chars_eq_str, has_infix, contains_chars, join, seqs_of, join_parts, lower, to_lower};
use crate::catalog::sx_fy_text;
use crate::item_text::bool_word;
use crate::sml_write::{int_seq_u8, int_seq_u16, int_seq_u32, int_seq_u64, int_seq_i8, int_seq_i16, int_seq_i32, int_seq_i64};
use crate::item_text::{widen_u8, widen_u16, widen_u32, widen_u64, widen_i8, widen_i16, widen_i32, widen_i64, int_text};
use crate::secs2::strings_view;
use crate::flow_model::{BranchClause, BranchData, opt_view};

verus! {

/// How two texts compare as numbers, when both read as numbers.
/// `Unordered` is the answer when either number is not a number (NaN).
#[derive(Clone, Copy, Debug, PartialEq, Eq, Structural)]
pub enum NumOrder {
    Less,
    Equal,
    Greater,
    Unordered,
}

/// What a flow node produced: the message received or answered.
#[derive(Debug)]
pub struct NodeResult {
    pub stream: i32,
    pub function: i32,
    pub body: Secs2,
    pub sml: String,
}

// ---------------------------------------------------------------------------
// Body paths

/// `s` cut at every `c` (`str::split`): always at least one part.
pub open spec fn split_on(s: Seq<char>, c: char) -> Seq<Seq<char>>
    decreases s.len(),
{
    if s.len() == 0 {
        seq![Seq::empty()]
    } else {
        let p = split_on(s.drop_last(), c);
        if s.last() == c {
            p.push(Seq::empty())
        } else {
            p.update(p.len() - 1, p.last().push(s.last()))
        }
    }
}

pub proof fn lemma_split_on_len(s: Seq<char>, c: char)
    ensures
        split_on(s, c).len() >= 1,
    decreases s.len(),
{
    if s.len() > 0 {
        lemma_split_on_len(s.drop_last(), c);
    }
}

/// The parts that read as `usize`, in order.
pub open spec fn path_indices(parts: Seq<Seq<char>>) -> Seq<usize>
    decreases parts.len(),
{
    if parts.len() == 0 {
        Seq::empty()
    } else {
        let prev = path_indices(parts.drop_last());
        match parse_unsigned(parts.last(), 10, usize::MAX as nat) {
            Some(v) => prev.push(v as usize),
            None => prev,
        }
    }
}

/// List indices of a dotted path such as `1.0`; parts that are not indices
/// are skipped.
pub open spec fn path_of(path: Seq<char>) -> Seq<usize> {
    path_indices(split_on(path, '.'))
}

/// `s` cut at every `c`.
pub fn split_char(s: &[char], c: char) -> (r: Vec<Vec<char>>)
    ensures
        seqs_of(r@) == split_on(s@, c),
{
    let mut parts: Vec<Vec<char>> = Vec::new();
    let mut cur: Vec<char> = Vec::new();
    let mut i: usize = 0;
    assert(s@.take(0) =~= Seq::<char>::empty());
    while i < s.len()
        invariant
            i <= s@.len(),
            seqs_of(parts@).push(cur@) == split_on(s@.take(i as int), c),
        decreases s.len() - i,
    {
        let ghost before = seqs_of(parts@).push(cur@);
        assert(s@.take(i + 1).drop_last() =~= s@.take(i as int));
        assert(s@.take(i + 1).last() == s@[i as int]);
        if s[i] == c {
            let done = cur;
            parts.push(done);
            cur = Vec::new();
            assert(seqs_of(parts@) =~= before);
            assert(seqs_of(parts@).push(cur@) =~= before.push(Seq::empty()));
        } else {
            let ghost p = seqs_of(parts@);
            cur.push(s[i]);
            assert(seqs_of(parts@).push(cur@) =~= before.update(before.len() - 1, before.last().push(s@[i as int])));
        }
        i += 1;
    }
    assert(s@.take(s@.len() as int) =~= s@);
    let ghost last = seqs_of(parts@).push(cur@);
    parts.push(cur);
    assert(seqs_of(parts@) =~= last);
    parts
}

/// List indices of a dotted path (`"1.0"` is `[1, 0]`).
pub fn parse_path(path: &str) -> (r: Vec<usize>)
    ensures
        r@ == path_of(path@),
{
    let cs = chars_of(path);
    let parts = split_char(&cs, '.');
    let mut out: Vec<usize> = Vec::new();
    let mut i: usize = 0;
    while i < parts.len()
        invariant
            i <= parts@.len(),
            out@ == path_indices(seqs_of(parts@).take(i as int)),
        decreases parts.len() - i,
    {
        assert(seqs_of(parts@).take(i + 1).drop_last() =~= seqs_of(parts@).take(i as int));
        assert(seqs_of(parts@).take(i + 1).last() == parts@[i as int]@);
        match parse_unsigned_chars(&parts[i], 10, usize::MAX as u64) {
            Some(v) => {
                out.push(v as usize);
            },
            None => {},
        }
        i += 1;
    }
    assert(seqs_of(parts@).take(parts@.len() as int) =~= seqs_of(parts@));
    out
}

/// The item at a dotted path in `body`.
pub fn item_at_path(body: &Secs2, path: &str) -> (r: Option<Secs2>)
    ensures
        match r {
            Some(x) => item_at(body@, path_of(path@)) == Some(x@),
            None => item_at(body@, path_of(path@)) is None,
        },
{
    let p = parse_path(path);
    body.get_item(p.as_slice())
}

// ---------------------------------------------------------------------------
// Acknowledge values

/// First leaf value of an item as text, depth first: the first number of a
/// binary, integer or float array, `1`/`0` for a boolean, the text of an
/// ASCII item; nothing for empty arrays, JIS-8, Unicode and the empty item.
pub open spec fn first_ack(item: Item) -> Option<Seq<char>>
    decreases item, 0int,
{
    match item {
        Item::List(xs) => first_ack_in(xs),
        Item::Binary(v) => if v.len() > 0 { Some(dec_str(v[0] as nat)) } else { None },
        Item::Uint1(v) => if v.len() > 0 { Some(dec_str(v[0] as nat)) } else { None },
        Item::Uint2(v) => if v.len() > 0 { Some(dec_str(v[0] as nat)) } else { None },
        Item::Uint4(v) => if v.len() > 0 { Some(dec_str(v[0] as nat)) } else { None },
        Item::Uint8(v) => if v.len() > 0 { Some(dec_str(v[0] as nat)) } else { None },
        Item::Int1(v) => if v.len() > 0 { Some(int_str(v[0] as int)) } else { None },
        Item::Int2(v) => if v.len() > 0 { Some(int_str(v[0] as int)) } else { None },
        Item::Int4(v) => if v.len() > 0 { Some(int_str(v[0] as int)) } else { None },
        Item::Int8(v) => if v.len() > 0 { Some(int_str(v[0] as int)) } else { None },
        Item::Float4(v) => if v.len() > 0 { Some(v[0]) } else { None },
        Item::Float8(v) => if v.len() > 0 { Some(v[0]) } else { None },
        Item::Boolean(v) => if v.len() > 0 {
            Some(
                if v[0] {
                    "1"@
                } else {
                    "0"@
                },
            )
        } else {
            None
        },
        Item::Ascii(s) => Some(s),
        _ => None,
    }
}

/// First acknowledge value among `xs`, in order.
pub open spec fn first_ack_in(xs: Seq<Item>) -> Option<Seq<char>>
    decreases xs, 1int,
{
    if xs.len() == 0 {
        None
    } else {
        match first_ack(xs[0]) {
            Some(v) => Some(v),
            None => first_ack_in(xs.subrange(1, xs.len() as int)),
        }
    }
}

fn text_of_u64(n: u64) -> (r: Option<String>)
    ensures
        opt_view(r) == Some(dec_str(n as nat)),
{
    Some(string_of(&u64_text(n)))
}

fn text_of_i64(n: i64) -> (r: Option<String>)
    ensures
        opt_view(r) == Some(int_str(n as int)),
{
    Some(string_of(&i64_text(n)))
}

/// First leaf value of `item` as text (the acknowledge code of a GEM reply).
pub fn first_ack_value(item: &Secs2) -> (r: Option<String>)
    ensures
        opt_view(r) == first_ack(item@),
    decreases *item,
{
    match item {
        Secs2::List(xs) => first_ack_items(xs),
        Secs2::Binary(v) => if v.len() > 0 { text_of_u64(v[0] as u64) } else { None },
        Secs2::Uint1(v) => if v.len() > 0 { text_of_u64(v[0] as u64) } else { None },
        Secs2::Uint2(v) => if v.len() > 0 { text_of_u64(v[0] as u64) } else { None },
        Secs2::Uint4(v) => if v.len() > 0 { text_of_u64(v[0] as u64) } else { None },
        Secs2::Uint8(v) => if v.len() > 0 { text_of_u64(v[0]) } else { None },
        Secs2::Int1(v) => if v.len() > 0 { text_of_i64(v[0] as i64) } else { None },
        Secs2::Int2(v) => if v.len() > 0 { text_of_i64(v[0] as i64) } else { None },
        Secs2::Int4(v) => if v.len() > 0 { text_of_i64(v[0] as i64) } else { None },
        Secs2::Int8(v) => if v.len() > 0 { text_of_i64(v[0]) } else { None },
        Secs2::Float4(v) => if v.len() > 0 { Some(v[0].clone()) } else { None },
        Secs2::Float8(v) => if v.len() > 0 { Some(v[0].clone()) } else { None },
        Secs2::Boolean(v) => if v.len() > 0 {
            if v[0] {
                let mut t: Vec<char> = Vec::new();
                t.push('1');
                assert(t@ =~= "1"@) by { reveal_strlit("1"); }
                Some(string_of(&t))
            } else {
                let mut t: Vec<char> = Vec::new();
                t.push('0');
                assert(t@ =~= "0"@) by { reveal_strlit("0"); }
                Some(string_of(&t))
            }
        } else {
            None
        },
        Secs2::Ascii(s) => Some(s.clone()),
        _ => None,
    }
}

fn first_ack_items(v: &Vec<Secs2>) -> (r: Option<String>)
    ensures
        opt_view(r) == first_ack_in(models(v@)),
    decreases v@,
{
    let ghost ms = models(v@);
    proof {
        lemma_models(v@);
        assert(ms.subrange(0, ms.len() as int) =~= ms);
    }
    let mut i: usize = 0;
    while i < v.len()
        invariant
            i <= v@.len(),
            ms == models(v@),
            ms.len() == v@.len(),
            forall|k: int| 0 <= k < v@.len() ==> #[trigger] ms[k] == v@[k]@,
            first_ack_in(ms) == first_ack_in(ms.subrange(i as int, ms.len() as int)),
        decreases v.len() - i,
    {
        let ghost t = ms.subrange(i as int, ms.len() as int);
        assert(t[0] == v@[i as int]@);
        assert(t.subrange(1, t.len() as int) =~= ms.subrange(i + 1, ms.len() as int));
        let a = first_ack_value(&v[i]);
        if a.is_some() {
            return a;
        }
        i += 1;
    }
    assert(ms.subrange(i as int, ms.len() as int).len() == 0);
    None
}

// ---------------------------------------------------------------------------
// Compact one-line SML

/// Values in square brackets, separated by `, ` (`Debug` of a vector).
pub open spec fn debug_list(parts: Seq<Seq<char>>) -> Seq<char> {
    "["@ + join(parts, ", "@) + "]"@
}

/// Decimal texts of integers.
pub open spec fn int_parts(v: Seq<int>) -> Seq<Seq<char>> {
    Seq::new(v.len(), |i: int| int_str(v[i]))
}

/// `name(inner)`.
pub open spec fn call_text(name: Seq<char>, inner: Seq<char>) -> Seq<char> {
    name + "("@ + inner + ")"@
}

/// `Variant([values])` of an array item.
pub open spec fn debug_item(item: Item) -> Seq<char> {
    match item {
        Item::Binary(v) => call_text("Binary"@, debug_list(int_parts(int_seq_u8(v)))),
        Item::Boolean(v) => call_text("Boolean"@, debug_list(Seq::new(v.len(), |i: int| bool_word(v[i])))),
        Item::Uint1(v) => call_text("Uint1"@, debug_list(int_parts(int_seq_u8(v)))),
        Item::Uint2(v) => call_text("Uint2"@, debug_list(int_parts(int_seq_u16(v)))),
        Item::Uint4(v) => call_text("Uint4"@, debug_list(int_parts(int_seq_u32(v)))),
        Item::Uint8(v) => call_text("Uint8"@, debug_list(int_parts(int_seq_u64(v)))),
        Item::Int1(v) => call_text("Int1"@, debug_list(int_parts(int_seq_i8(v)))),
        Item::Int2(v) => call_text("Int2"@, debug_list(int_parts(int_seq_i16(v)))),
        Item::Int4(v) => call_text("Int4"@, debug_list(int_parts(int_seq_i32(v)))),
        Item::Int8(v) => call_text("Int8"@, debug_list(int_parts(int_seq_i64(v)))),
        Item::Float4(v) => call_text("Float4"@, debug_list(v)),
        Item::Float8(v) => call_text("Float8"@, debug_list(v)),
        Item::Jis8(v) => call_text("Jis8"@, debug_list(int_parts(int_seq_u8(v)))),
        Item::Unicode(v) => call_text("Unicode"@, debug_list(int_parts(int_seq_u8(v)))),
        _ => Seq::empty(),
    }
}

/// One-line rendering of an item: lists and ASCII in full, binary and
/// one-byte integers by their first value, other arrays as `<Variant([..])>`.
pub open spec fn compact_item(item: Item) -> Seq<char>
    decreases item, 0int,
{
    match item {
        Item::List(xs) => "<L "@ + join(compact_items(xs), " "@) + ">"@,
        Item::Ascii(s) => "<A \""@ + s + "\">"@,
        Item::Binary(b) => if b.len() > 0 {
            "<B "@ + hex_byte(b[0]) + ">"@
        } else {
            "<B>"@
        },
        Item::Uint1(v) => if v.len() > 0 {
            "<U1 "@ + dec_str(v[0] as nat) + ">"@
        } else {
            "<"@ + debug_item(item) + ">"@
        },
        Item::Int1(v) => if v.len() > 0 {
            "<I1 "@ + int_str(v[0] as int) + ">"@
        } else {
            "<"@ + debug_item(item) + ">"@
        },
        Item::Empty => Seq::empty(),
        _ => "<"@ + debug_item(item) + ">"@,
    }
}

pub open spec fn compact_items(xs: Seq<Item>) -> Seq<Seq<char>>
    decreases xs, 1int,
{
    if xs.len() == 0 {
        Seq::empty()
    } else {
        compact_items(xs.drop_last()).push(compact_item(xs.last()))
    }
}

/// `S<stream>F<function> <compact body>`.
pub open spec fn compact_sml_spec(stream: int, function: int, body: Item) -> Seq<char> {
    sx_fy_text(stream, function) + " "@ + compact_item(body)
}

/// Integers in brackets, `, ` between them.
fn debug_ints(v: &Vec<i128>) -> (r: Vec<char>)
    requires
        forall|i: int| 0 <= i < v@.len() ==> -0x8000_0000_0000_0000 <= #[trigger] v@[i] <= 0xffff_ffff_ffff_ffff,
    ensures
        r@ == debug_list(int_parts(Seq::new(v@.len(), |i: int| v@[i] as int))),
{
    let mut parts: Vec<Vec<char>> = Vec::new();
    let mut i: usize = 0;
    while i < v.len()
        invariant
            i <= v@.len(),
            forall|i: int| 0 <= i < v@.len() ==> -0x8000_0000_0000_0000 <= #[trigger] v@[i] <= 0xffff_ffff_ffff_ffff,
            parts@.len() == i,
            forall|k: int| 0 <= k < i ==> (#[trigger] parts@[k])@ == int_str(v@[k] as int),
        decreases v.len() - i,
    {
        parts.push(int_text(v[i]));
        i += 1;
    }
    assert(seqs_of(parts@) =~= int_parts(Seq::new(v@.len(), |i: int| v@[i] as int)));
    bracketed(&parts)
}

/// Parts in brackets, `, ` between them.
fn bracketed(parts: &Vec<Vec<char>>) -> (r: Vec<char>)
    ensures
        r@ == debug_list(seqs_of(parts@)),
{
    let sep = chars_of(", ");
    let inner = join_parts(parts, &sep);
    let mut r: Vec<char> = Vec::new();
    r.push('[');
    push_all(&mut r, &inner);
    r.push(']');
    proof {
        reveal_strlit("[");
        reveal_strlit("]");
    }
    assert(r@ =~= debug_list(seqs_of(parts@)));
    r
}

/// `name(` + `inner` + `)`.
fn wrap_call(name: &str, inner: &[char]) -> (r: Vec<char>)
    ensures
        r@ == name@ + "("@ + inner@ + ")"@,
{
    let mut r = chars_of(name);
    r.push('(');
    push_all(&mut r, inner);
    r.push(')');
    proof {
        reveal_strlit("(");
        reveal_strlit(")");
    }
    assert(r@ =~= name@ + "("@ + inner@ + ")"@);
    r
}

/// `Variant([values])` of an array item.
pub fn debug_text(item: &Secs2) -> (r: Vec<char>)
    ensures
        r@ == debug_item(item@),
{
    match item {
        Secs2::Binary(v) => {
            let w = widen_u8(v);
            assert(Seq::new(w@.len(), |i: int| w@[i] as int) =~= int_seq_u8(v@));
            wrap_call("Binary", &debug_ints(&w))
        },
        Secs2::Boolean(v) => {
            let mut parts: Vec<Vec<char>> = Vec::new();
            let mut i: usize = 0;
            while i < v.len()
                invariant
                    i <= v@.len(),
                    parts@.len() == i,
                    forall|k: int| 0 <= k < i ==> (#[trigger] parts@[k])@ == bool_word(v@[k]),
                decreases v.len() - i,
            {
                if v[i] {
                    parts.push(chars_of("true"));
                } else {
                    parts.push(chars_of("false"));
                }
                i += 1;
            }
            assert(seqs_of(parts@) =~= Seq::new(v@.len(), |i: int| bool_word(v@[i])));
            wrap_call("Boolean", &bracketed(&parts))
        },
        Secs2::Uint1(v) => {
            let w = widen_u8(v);
            assert(Seq::new(w@.len(), |i: int| w@[i] as int) =~= int_seq_u8(v@));
            wrap_call("Uint1", &debug_ints(&w))
        },
        Secs2::Uint2(v) => {
            let w = widen_u16(v);
            assert(Seq::new(w@.len(), |i: int| w@[i] as int) =~= int_seq_u16(v@));
            wrap_call("Uint2", &debug_ints(&w))
        },
        Secs2::Uint4(v) => {
            let w = widen_u32(v);
            assert(Seq::new(w@.len(), |i: int| w@[i] as int) =~= int_seq_u32(v@));
            wrap_call("Uint4", &debug_ints(&w))
        },
        Secs2::Uint8(v) => {
            let w = widen_u64(v);
            assert(Seq::new(w@.len(), |i: int| w@[i] as int) =~= int_seq_u64(v@));
            wrap_call("Uint8", &debug_ints(&w))
        },
        Secs2::Int1(v) => {
            let w = widen_i8(v);
            assert(Seq::new(w@.len(), |i: int| w@[i] as int) =~= int_seq_i8(v@));
            wrap_call("Int1", &debug_ints(&w))
        },
        Secs2::Int2(v) => {
            let w = widen_i16(v);
            assert(Seq::new(w@.len(), |i: int| w@[i] as int) =~= int_seq_i16(v@));
            wrap_call("Int2", &debug_ints(&w))
        },
        Secs2::Int4(v) => {
            let w = widen_i32(v);
            assert(Seq::new(w@.len(), |i: int| w@[i] as int) =~= int_seq_i32(v@));
            wrap_call("Int4", &debug_ints(&w))
        },
        Secs2::Int8(v) => {
            let w = widen_i64(v);
            assert(Seq::new(w@.len(), |i: int| w@[i] as int) =~= int_seq_i64(v@));
            wrap_call("Int8", &debug_ints(&w))
        },
        Secs2::Float4(v) => wrap_call("Float4", &float_parts(v)),
        Secs2::Float8(v) => wrap_call("Float8", &float_parts(v)),
        Secs2::Jis8(v) => {
            let w = widen_u8(v);
            assert(Seq::new(w@.len(), |i: int| w@[i] as int) =~= int_seq_u8(v@));
            wrap_call("Jis8", &debug_ints(&w))
        },
        Secs2::Unicode(v) => {
            let w = widen_u8(v);
            assert(Seq::new(w@.len(), |i: int| w@[i] as int) =~= int_seq_u8(v@));
            wrap_call("Unicode", &debug_ints(&w))
        },
        _ => Vec::new(),
    }
}

fn float_parts(v: &Vec<String>) -> (r: Vec<char>)
    ensures
        r@ == debug_list(strings_view(v@)),
{
    let mut parts: Vec<Vec<char>> = Vec::new();
    let mut i: usize = 0;
    while i < v.len()
        invariant
            i <= v@.len(),
            parts@.len() == i,
            forall|k: int| 0 <= k < i ==> (#[trigger] parts@[k])@ == v@[k]@,
        decreases v.len() - i,
    {
        parts.push(chars_of(v[i].as_str()));
        i += 1;
    }
    assert(seqs_of(parts@) =~= strings_view(v@));
    bracketed(&parts)
}

/// `prefix` + `mid` + `suffix`.
fn framed(prefix: &str, mid: &[char], suffix: &str) -> (r: Vec<char>)
    ensures
        r@ == prefix@ + mid@ + suffix@,
{
    let mut r = chars_of(prefix);
    push_all(&mut r, mid);
    push_str(&mut r, suffix);
    assert(r@ =~= prefix@ + mid@ + suffix@);
    r
}

/// One-line rendering of an item.
pub fn compact_item_text(item: &Secs2) -> (r: Vec<char>)
    ensures
        r@ == compact_item(item@),
    decreases *item,
{
    match item {
        Secs2::List(xs) => {
            let parts = compact_items_text(xs);
            let sep = chars_of(" ");
            let inner = join_parts(&parts, &sep);
            framed("<L ", &inner, ">")
        },
        Secs2::Ascii(s) => {
            let t = chars_of(s.as_str());
            framed("<A \"", &t, "\">")
        },
        Secs2::Binary(b) => if b.len() > 0 {
            framed("<B ", &hex_byte_text(b[0]), ">")
        } else {
            chars_of("<B>")
        },
        Secs2::Uint1(v) => if v.len() > 0 {
            framed("<U1 ", &u64_text(v[0] as u64), ">")
        } else {
            framed("<", &debug_text(item), ">")
        },
        Secs2::Int1(v) => if v.len() > 0 {
            framed("<I1 ", &i64_text(v[0] as i64), ">")
        } else {
            framed("<", &debug_text(item), ">")
        },
        Secs2::Empty => Vec::new(),
        _ => framed("<", &debug_text(item), ">"),
    }
}

fn compact_items_text(v: &Vec<Secs2>) -> (r: Vec<Vec<char>>)
    ensures
        seqs_of(r@) == compact_items(models(v@)),
    decreases v@,
{
    let mut out: Vec<Vec<char>> = Vec::new();
    let mut i: usize = 0;
    assert(models(v@.take(0)) =~= Seq::<Item>::empty()) by {
        assert(v@.take(0) =~= Seq::<Secs2>::empty());
    }
    while i < v.len()
        invariant
            i <= v@.len(),
            seqs_of(out@) == compact_items(models(v@.take(i as int))),
        decreases v.len() - i,
    {
        proof {
            crate::secs2::lemma_models_take(v@, i as int);
        }
        let t = compact_item_text(&v[i]);
        let ghost prev = seqs_of(out@);
        out.push(t);
        assert(seqs_of(out@) =~= prev.push(compact_item(v@[i as int]@)));
        i += 1;
    }
    assert(v@.take(v@.len() as int) =~= v@);
    out
}

/// `S<stream>F<function> <compact body>`, the one-line summary of a result.
pub fn compact_sml(stream: i32, function: i32, body: &Secs2) -> (r: String)
    ensures
        r@ == compact_sml_spec(stream as int, function as int, body@),
{
    let mut v: Vec<char> = Vec::new();
    v.push('S');
    push_all(&mut v, &i64_text(stream as i64));
    v.push('F');
    push_all(&mut v, &i64_text(function as i64));
    v.push(' ');
    push_all(&mut v, &compact_item_text(body));
    proof {
        reveal_strlit(" ");
    }
    assert(v@ =~= compact_sml_spec(stream as int, function as int, body@));
    string_of(&v)
}

impl NodeResult {
    /// `S<stream>F<function>`.
    pub fn sx_fy(&self) -> (r: String)
        ensures
            r@ == sx_fy_text(self.stream as int, self.function as int),
    {
        let mut v: Vec<char> = Vec::new();
        v.push('S');
        push_all(&mut v, &i64_text(self.stream as i64));
        v.push('F');
        push_all(&mut v, &i64_text(self.function as i64));
        string_of(&v)
    }

    /// The result of a received message, with its compact one-line SML.
    pub fn from_hsms(stream: i32, function: i32, body: Secs2) -> (r: NodeResult)
        ensures
            r.stream == stream,
            r.function == function,
            r.body@ == body@,
            r.sml@ == compact_sml_spec(stream as int, function as int, body@),
    {
        let sml = compact_sml(stream, function, &body);
        NodeResult { stream, function, body, sml }
    }
}


// ---------------------------------------------------------------------------
// Comparison

/// `a` sorts before `b`, character by character (`str` ordering).
pub open spec fn text_lt(a: Seq<char>, b: Seq<char>) -> bool
    decreases a.len(),
{
    if b.len() == 0 {
        false
    } else if a.len() == 0 {
        true
    } else if a[0] != b[0] {
        a[0] < b[0]
    } else {
        text_lt(a.drop_first(), b.drop_first())
    }
}

/// Outcome of comparing `left` with `right` under `op` (`eq`, `ne`, `gt`,
/// `lt`, `contains`; anything else is `eq`). `order` is how the two compare
/// as numbers, `None` when either does not read as a number; then the texts
/// are compared.
pub open spec fn compare_spec(op: Seq<char>, left: Seq<char>, right: Seq<char>, order: Option<NumOrder>) -> bool {
    if op == "ne"@ {
        match order {
            Some(o) => o != NumOrder::Equal,
            None => left != right,
        }
    } else if op == "gt"@ {
        match order {
            Some(o) => o == NumOrder::Greater,
            None => text_lt(right, left),
        }
    } else if op == "lt"@ {
        match order {
            Some(o) => o == NumOrder::Less,
            None => text_lt(left, right),
        }
    } else if op == "contains"@ {
        has_infix(left, right)
    } else {
        match order {
            Some(o) => o == NumOrder::Equal,
            None => left == right,
        }
    }
}

/// The same numeric order seen from the other side.
pub open spec fn flipped(order: Option<NumOrder>) -> Option<NumOrder> {
    match order {
        Some(NumOrder::Less) => Some(NumOrder::Greater),
        Some(NumOrder::Greater) => Some(NumOrder::Less),
        o => o,
    }
}

/// How the comparisons relate: `ne` is the negation of `eq`; `gt` is `lt`
/// with the operands swapped (and their numeric order seen from the other
/// side); an unknown operator compares as `eq`.
pub proof fn lemma_compare_ops(op: Seq<char>, left: Seq<char>, right: Seq<char>, order: Option<NumOrder>)
    ensures
        compare_spec("ne"@, left, right, order) == !compare_spec("eq"@, left, right, order),
        compare_spec("gt"@, left, right, order) == compare_spec("lt"@, right, left, flipped(order)),
        (op != "ne"@ && op != "gt"@ && op != "lt"@ && op != "contains"@) ==> compare_spec(op, left, right, order)
            == compare_spec("eq"@, left, right, order),
{
    reveal_strlit("eq");
    reveal_strlit("ne");
    reveal_strlit("gt");
    reveal_strlit("lt");
    reveal_strlit("contains");
    assert("eq"@[0] == 'e' && "ne"@[0] == 'n' && "gt"@[0] == 'g' && "lt"@[0] == 'l');
    assert("contains"@.len() == 8 && "eq"@.len() == 2);
}

/// No text sorts before itself.
pub proof fn lemma_text_lt_irreflexive(a: Seq<char>)
    ensures
        !text_lt(a, a),
    decreases a.len(),
{
    if a.len() > 0 {
        lemma_text_lt_irreflexive(a.drop_first());
    }
}

/// Of two different texts exactly one sorts before the other.
pub proof fn lemma_text_lt_total(a: Seq<char>, b: Seq<char>)
    ensures
        !(text_lt(a, b) && text_lt(b, a)),
        a != b ==> (text_lt(a, b) || text_lt(b, a)),
    decreases a.len(),
{
    if a.len() > 0 && b.len() > 0 && a[0] == b[0] {
        lemma_text_lt_total(a.drop_first(), b.drop_first());
        if a.drop_first() == b.drop_first() {
            assert(a =~= seq![a[0]] + a.drop_first());
            assert(b =~= seq![b[0]] + b.drop_first());
        }
    } else if a.len() == 0 && b.len() == 0 {
        assert(a =~= b);
    }
}

/// Exactly one of `eq`, `gt` and `lt` holds of two operands, unless they are
/// numbers that do not order (NaN), when none does. For numbers, `gt` holds
/// just when the left one is the greater and `lt` just when it is the
/// smaller, so neither holds of equal numbers; texts are `eq` just when they
/// are the same.
pub proof fn lemma_compare_trichotomy(left: Seq<char>, right: Seq<char>, order: Option<NumOrder>)
    ensures
        !(compare_spec("eq"@, left, right, order) && compare_spec("gt"@, left, right, order)),
        !(compare_spec("eq"@, left, right, order) && compare_spec("lt"@, left, right, order)),
        !(compare_spec("gt"@, left, right, order) && compare_spec("lt"@, left, right, order)),
        order != Some(NumOrder::Unordered) ==> (compare_spec("eq"@, left, right, order)
            || compare_spec("gt"@, left, right, order) || compare_spec("lt"@, left, right, order)),
        forall|o: NumOrder| order == Some(o) ==> {
            &&& (compare_spec("gt"@, left, right, order) <==> o == NumOrder::Greater)
            &&& (compare_spec("lt"@, left, right, order) <==> o == NumOrder::Less)
            &&& (compare_spec("eq"@, left, right, order) <==> o == NumOrder::Equal)
        },
        order is None ==> (compare_spec("eq"@, left, right, order) <==> left == right),
        order == Some(NumOrder::Equal) ==> !compare_spec("gt"@, left, right, order)
            && !compare_spec("lt"@, left, right, order),
{
    reveal_strlit("eq");
    reveal_strlit("ne");
    reveal_strlit("gt");
    reveal_strlit("lt");
    reveal_strlit("contains");
    assert("eq"@[0] == 'e' && "ne"@[0] == 'n' && "gt"@[0] == 'g' && "lt"@[0] == 'l');
    assert("contains"@.len() == 8 && "eq"@.len() == 2);
    lemma_text_lt_total(left, right);
    if left == right {
        lemma_text_lt_irreflexive(left);
    }
}

/// `a` sorts before `b`.
pub fn text_less(a: &[char], b: &[char]) -> (r: bool)
    ensures
        r == text_lt(a@, b@),
{
    let mut i: usize = 0;
    assert(a@.skip(0) =~= a@);
    assert(b@.skip(0) =~= b@);
    while i < a.len() && i < b.len()
        invariant
            i <= a@.len(),
            i <= b@.len(),
            text_lt(a@, b@) == text_lt(a@.skip(i as int), b@.skip(i as int)),
        decreases a.len() - i,
    {
        let ghost sa = a@.skip(i as int);
        let ghost sb = b@.skip(i as int);
        assert(sa[0] == a@[i as int]);
        assert(sb[0] == b@[i as int]);
        if a[i] != b[i] {
            return a[i] < b[i];
        }
        assert(sa.drop_first() =~= a@.skip(i + 1));
        assert(sb.drop_first() =~= b@.skip(i + 1));
        i += 1;
    }
    i < b.len()
}

/// Compares `left` with `right` under `op`; `order` is how they compare as
/// numbers (`None` when either is not a number).
pub fn compare(op: &str, left: &str, right: &str, order: Option<NumOrder>) -> (r: bool)
    ensures
        r == compare_spec(op@, left@, right@, order),
{
    let o = chars_of(op);
    let l = chars_of(left);
    let rt = chars_of(right);
    if chars_eq_str(&o, "ne") {
        match order {
            Some(x) => x != NumOrder::Equal,
            None => !chars_eq(&l, &rt),
        }
    } else if chars_eq_str(&o, "gt") {
        match order {
            Some(x) => x == NumOrder::Greater,
            None => text_less(&rt, &l),
        }
    } else if chars_eq_str(&o, "lt") {
        match order {
            Some(x) => x == NumOrder::Less,
            None => text_less(&l, &rt),
        }
    } else if chars_eq_str(&o, "contains") {
        contains_chars(&l, &rt)
    } else {
        match order {
            Some(x) => x == NumOrder::Equal,
            None => chars_eq(&l, &rt),
        }
    }
}

// ---------------------------------------------------------------------------
// Results of earlier nodes

/// Results recorded so far during a walk, by node id; a later result for
/// the same node replaces the earlier one.
#[derive(Debug)]
pub struct FlowContext {
    pub entries: Vec<(String, NodeResult)>,
}

/// The latest result recorded for `id`.
pub open spec fn ctx_lookup(entries: Seq<(String, NodeResult)>, id: Seq<char>) -> Option<NodeResult>
    decreases entries.len(),
{
    if entries.len() == 0 {
        None
    } else if entries.last().0@ == id {
        Some(entries.last().1)
    } else {
        ctx_lookup(entries.drop_last(), id)
    }
}

impl FlowContext {
    pub fn new() -> (r: FlowContext)
        ensures
            r.entries@.len() == 0,
    {
        FlowContext { entries: Vec::new() }
    }

    /// Records `result` for node `id`.
    pub fn insert(&mut self, id: String, result: NodeResult)
        ensures
            final(self).entries@ == old(self).entries@.push((id, result)),
    {
        self.entries.push((id, result));
    }

    /// The latest result recorded for `id`.
    pub fn get(&self, id: &str) -> (r: Option<&NodeResult>)
        ensures
            r == match ctx_lookup(self.entries@, id@) {
                Some(x) => Some(&x),
                None => None,
            },
    {
        let want = chars_of(id);
        let mut i: usize = self.entries.len();
        assert(self.entries@.take(i as int) =~= self.entries@);
        while i > 0
            invariant
                i <= self.entries@.len(),
                want@ == id@,
                ctx_lookup(self.entries@, id@) == ctx_lookup(self.entries@.take(i as int), id@),
            decreases i,
        {
            let ghost t = self.entries@.take(i as int);
            assert(t.last() == self.entries@[i - 1]);
            assert(t.drop_last() =~= self.entries@.take(i - 1));
            let have = chars_of(self.entries[i - 1].0.as_str());
            if chars_eq(&have, &want) {
                return Some(&self.entries[i - 1].1);
            }
            i -= 1;
        }
        None
    }
}

/// Value of `field` of a result: `sxFy`, `sml`, `bodyPath` (the acknowledge
/// value at `path` in the body) or, for any other field, the acknowledge
/// value of the whole body.
pub open spec fn field_spec(r: NodeResult, field: Seq<char>, path: Option<Seq<char>>) -> Option<Seq<char>> {
    if field == "sxFy"@ {
        Some(sx_fy_text(r.stream as int, r.function as int))
    } else if field == "sml"@ {
        Some(r.sml@)
    } else if field == "bodyPath"@ {
        match item_at(
            r.body@,
            path_of(
                match path {
                    Some(p) => p,
                    None => Seq::empty(),
                },
            ),
        ) {
            Some(it) => first_ack(it),
            None => None,
        }
    } else {
        first_ack(r.body@)
    }
}

/// Value of `field` of `result`.
pub fn field_value(result: &NodeResult, field: &str, path: Option<&str>) -> (r: Option<String>)
    ensures
        opt_view(r) == field_spec(
            *result,
            field@,
            match path {
                Some(p) => Some(p@),
                None => None,
            },
        ),
{
    let f = chars_of(field);
    if chars_eq_str(&f, "sxFy") {
        Some(result.sx_fy())
    } else if chars_eq_str(&f, "sml") {
        Some(result.sml.clone())
    } else if chars_eq_str(&f, "bodyPath") {
        let item = match path {
            Some(p) => item_at_path(&result.body, p),
            None => {
                let r = item_at_path(&result.body, "");
                proof {
                    reveal_strlit("");
                }
                r
            },
        };
        match item {
            Some(it) => first_ack_value(&it),
            None => None,
        }
    } else {
        first_ack_value(&result.body)
    }
}

/// Node whose result a clause reads: its own non-empty node id, else the
/// last node that produced a result.
pub open spec fn clause_target(clause: BranchClause, last_id: Option<Seq<char>>) -> Option<Seq<char>> {
    match clause.node_id {
        Some(s) => if s@.len() > 0 {
            Some(s@)
        } else {
            last_id
        },
        None => last_id,
    }
}

/// Left-hand value of a clause, when there is one.
pub open spec fn clause_left(clause: BranchClause, last_id: Option<Seq<char>>, ctx: Seq<(String, NodeResult)>) -> Option<Seq<char>> {
    match clause_target(clause, last_id) {
        None => None,
        Some(id) => match ctx_lookup(ctx, id) {
            None => None,
            Some(r) => field_spec(r, clause.field@, opt_view(clause.path)),
        },
    }
}

/// A clause holds: it has a left-hand value and it compares as asked.
pub open spec fn clause_holds(clause: BranchClause, last_id: Option<Seq<char>>, ctx: Seq<(String, NodeResult)>, order: Option<NumOrder>) -> bool {
    match clause_left(clause, last_id, ctx) {
        None => false,
        Some(l) => compare_spec(clause.op@, l, clause.value@, order),
    }
}

/// The combinator is `or`, in any letter case.
pub open spec fn is_or(combinator: Seq<char>) -> bool {
    lower(combinator) == "or"@
}

/// A branch holds: no clauses; or, under `or`, some clause holds; else all
/// clauses hold. `orders[i]` is the numeric order of clause `i`'s operands.
pub open spec fn branch_holds(data: BranchData, last_id: Option<Seq<char>>, ctx: Seq<(String, NodeResult)>, orders: Seq<Option<NumOrder>>) -> bool {
    let cs = data.clauses@;
    if cs.len() == 0 {
        true
    } else if is_or(data.combinator@) {
        exists|i: int| 0 <= i < cs.len() && #[trigger] clause_holds(cs[i], last_id, ctx, orders[i])
    } else {
        forall|i: int| 0 <= i < cs.len() ==> #[trigger] clause_holds(cs[i], last_id, ctx, orders[i])
    }
}

/// View of an optional text argument.
pub open spec fn opt_str(s: Option<&str>) -> Option<Seq<char>> {
    match s {
        Some(x) => Some(x@),
        None => None,
    }
}

fn target_of<'a>(clause: &'a BranchClause, last_id: Option<&'a str>) -> (r: Option<&'a str>)
    ensures
        opt_str(r) == clause_target(*clause, opt_str(last_id)),
{
    match &clause.node_id {
        Some(s) => {
            let c = chars_of(s.as_str());
            if c.len() > 0 {
                Some(s.as_str())
            } else {
                last_id
            }
        },
        None => last_id,
    }
}

/// Left-hand value of a clause.
pub fn clause_operand(clause: &BranchClause, last_id: Option<&str>, ctx: &FlowContext) -> (r: Option<String>)
    ensures
        opt_view(r) == clause_left(*clause, opt_str(last_id), ctx.entries@),
{
    let id = match target_of(clause, last_id) {
        Some(id) => id,
        None => {
            return None;
        },
    };
    let result = match ctx.get(id) {
        Some(r) => r,
        None => {
            return None;
        },
    };
    let path: Option<&str> = match &clause.path {
        Some(p) => Some(p.as_str()),
        None => None,
    };
    field_value(result, clause.field.as_str(), path)
}

/// Both operands of every clause (left value and the clause's value), in
/// order; these are what numeric orders are asked for.
pub fn branch_operands(data: &BranchData, last_id: Option<&str>, ctx: &FlowContext) -> (r: Vec<Option<(String, String)>>)
    ensures
        r@.len() == data.clauses@.len(),
        forall|i: int| 0 <= i < r@.len() ==> match (#[trigger] r@[i], clause_left(data.clauses@[i], opt_str(last_id), ctx.entries@)) {
            (Some((a, b)), Some(l)) => a@ == l && b@ == data.clauses@[i].value@,
            (None, None) => true,
            _ => false,
        },
{
    let mut out: Vec<Option<(String, String)>> = Vec::new();
    let mut i: usize = 0;
    while i < data.clauses.len()
        invariant
            i <= data.clauses@.len(),
            out@.len() == i,
            forall|k: int| 0 <= k < i ==> match (#[trigger] out@[k], clause_left(data.clauses@[k], opt_str(last_id), ctx.entries@)) {
                (Some((a, b)), Some(l)) => a@ == l && b@ == data.clauses@[k].value@,
                (None, None) => true,
                _ => false,
            },
        decreases data.clauses.len() - i,
    {
        let c = &data.clauses[i];
        match clause_operand(c, last_id, ctx) {
            Some(l) => out.push(Some((l, c.value.clone()))),
            None => out.push(None),
        }
        i += 1;
    }
    out
}

/// Whether one clause holds, given the numeric order of its operands.
pub fn eval_clause(clause: &BranchClause, last_id: Option<&str>, ctx: &FlowContext, order: Option<NumOrder>) -> (r: bool)
    ensures
        r == clause_holds(*clause, opt_str(last_id), ctx.entries@, order),
{
    match clause_operand(clause, last_id, ctx) {
        Some(left) => compare(clause.op.as_str(), left.as_str(), clause.value.as_str(), order),
        None => false,
    }
}

/// Whether a branch holds; `orders[i]` is the numeric order of clause `i`'s
/// operands.
pub fn eval_branch(data: &BranchData, last_id: Option<&str>, ctx: &FlowContext, orders: &Vec<Option<NumOrder>>) -> (r: bool)
    requires
        orders@.len() == data.clauses@.len(),
    ensures
        r == branch_holds(*data, opt_str(last_id), ctx.entries@, orders@),
{
    if data.clauses.len() == 0 {
        return true;
    }
    let comb = to_lower(&chars_of(data.combinator.as_str()));
    let or_mode = chars_eq_str(&comb, "or");
    let mut i: usize = 0;
    while i < data.clauses.len()
        invariant
            i <= data.clauses@.len(),
            orders@.len() == data.clauses@.len(),
            or_mode == is_or(data.combinator@),
            or_mode ==> forall|k: int| 0 <= k < i ==> !#[trigger] clause_holds(data.clauses@[k], opt_str(last_id), ctx.entries@, orders@[k]),
            !or_mode ==> forall|k: int| 0 <= k < i ==> #[trigger] clause_holds(data.clauses@[k], opt_str(last_id), ctx.entries@, orders@[k]),
        decreases data.clauses.len() - i,
    {
        let h = eval_clause(&data.clauses[i], last_id, ctx, orders[i]);
        if or_mode && h {
            return true;
        }
        if !or_mode && !h {
            return false;
        }
        i += 1;
    }
    !or_mode
}

} // verus!
