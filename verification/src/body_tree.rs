//! Editable SECS-II body tree (UI tree editor, SMD `ItemName`s) and its
//! conversion to and from [`Secs2`] items.

use vstd::prelude::*;
use crate::numbers::{
    dec_str, hex_byte, int_str, parse_i64_spec, parse_unsigned, parse_unsigned_chars,
    parse_i64_chars, u64_text, i64_text, hex_byte_text,
};
use crate::secs2::{Item, Secs2, models, lemma_models, strings_view, clone_strings};
use crate::sml_read::digit_end;
use crate::text::{
    chars_of, string_of, trim, trim_chars, split_ws, split_whitespace, seqs_of, upper, to_upper,
    lower, to_lower, join, join_parts, chars_eq_str,
};

verus! {

/// One node of the editable body tree.
///
/// `item_type` is `L`, `A`, `B`, `BOOLEAN`, `U1`..`U8`, `I1`..`I8`, `F4` or `F8`;
/// `value` holds leaf values separated by whitespace.
#[derive(Debug)]
pub struct BodyItem {
    pub id: String,
    pub item_type: String,
    pub name: String,
    pub value: String,
    pub children: Vec<BodyItem>,
}

/// Model of a [`BodyItem`].
pub struct BodyNode {
    pub id: Seq<char>,
    pub item_type: Seq<char>,
    pub name: Seq<char>,
    pub value: Seq<char>,
    pub children: Seq<BodyNode>,
}

impl BodyItem {
    pub open spec fn model(&self) -> BodyNode
        decreases self, 0int,
    {
        BodyNode {
            id: self.id@,
            item_type: self.item_type@,
            name: self.name@,
            value: self.value@,
            children: nodes(self.children@),
        }
    }
}

/// Models of a sequence of body items, in order.
pub open spec fn nodes(v: Seq<BodyItem>) -> Seq<BodyNode>
    decreases v, 1int,
{
    if v.len() == 0 {
        Seq::empty()
    } else {
        nodes(v.drop_last()).push(v.last().model())
    }
}

impl View for BodyItem {
    type V = BodyNode;

    open spec fn view(&self) -> BodyNode {
        self.model()
    }
}

impl BodyItem {
    /// A list node named `name` over `children`, with a fresh id.
    pub fn new_list(name: String, children: Vec<BodyItem>) -> (r: BodyItem)
        ensures
            r@.id.len() == 36,
            r@.item_type == "L"@,
            r@.name == name@,
            r@.value.len() == 0,
            r@.children == nodes(children@),
    {
        BodyItem {
            id: crate::ids::new_id(),
            item_type: String::from_str("L"),
            name,
            value: String::new(),
            children,
        }
    }

    /// A leaf node of type `ty` named `name` holding `value`, with a fresh
    /// id and no children.
    pub fn new_leaf(ty: String, name: String, value: String) -> (r: BodyItem)
        ensures
            r@.id.len() == 36,
            r@.item_type == ty@,
            r@.name == name@,
            r@.value == value@,
            r@.children.len() == 0,
    {
        let r = BodyItem { id: crate::ids::new_id(), item_type: ty, name, value, children: Vec::new() };
        assert(nodes(r.children@) =~= Seq::<BodyNode>::empty());
        r
    }
}

pub proof fn lemma_nodes(v: Seq<BodyItem>)
    ensures
        nodes(v).len() == v.len(),
        forall|i: int| 0 <= i < v.len() ==> #[trigger] nodes(v)[i] == v[i]@,
    decreases v.len(),
{
    if v.len() > 0 {
        lemma_nodes(v.drop_last());
        assert forall|i: int| 0 <= i < v.len() implies #[trigger] nodes(v)[i] == v[i]@ by {
            if i < v.len() - 1 {
                assert(v.drop_last()[i] == v[i]);
            }
        }
    }
}

pub proof fn lemma_nodes_push(v: Seq<BodyItem>, x: BodyItem)
    ensures
        nodes(v.push(x)) == nodes(v).push(x@),
{
    assert(v.push(x).drop_last() =~= v);
}

pub proof fn lemma_nodes_take(v: Seq<BodyItem>, i: int)
    requires
        0 <= i < v.len(),
    ensures
        nodes(v.take(i + 1)) == nodes(v.take(i)).push(v[i]@),
        nodes(v.take(i + 1)).drop_last() == nodes(v.take(i)),
        nodes(v.take(i + 1)).last() == v[i]@,
{
    assert(v.take(i + 1) =~= v.take(i).push(v[i]));
    lemma_nodes_push(v.take(i), v[i]);
    assert(nodes(v.take(i)).push(v[i]@).drop_last() =~= nodes(v.take(i)));
}

impl Clone for BodyItem {
    fn clone(&self) -> (r: Self)
        ensures
            r@ == self@,
        decreases *self,
    {
        BodyItem {
            id: self.id.clone(),
            item_type: self.item_type.clone(),
            name: self.name.clone(),
            value: self.value.clone(),
            children: clone_body_items(&self.children),
        }
    }
}

/// Element-wise copy of a vector of body items.
pub fn clone_body_items(v: &Vec<BodyItem>) -> (r: Vec<BodyItem>)
    ensures
        nodes(r@) == nodes(v@),
    decreases v@,
{
    let mut out: Vec<BodyItem> = Vec::new();
    let mut i: usize = 0;
    while i < v.len()
        invariant
            i <= v@.len(),
            nodes(out@) == nodes(v@.take(i as int)),
        decreases v.len() - i,
    {
        let c = v[i].clone();
        let ghost prev = out@;
        out.push(c);
        proof {
            lemma_nodes_push(prev, c);
            assert(v@.take(i + 1).drop_last() =~= v@.take(i as int));
        }
        i += 1;
    }
    assert(v@.take(v@.len() as int) =~= v@);
    out
}

/// Why a body tree does not convert to an item.
#[derive(Debug)]
pub enum BodyError {
    /// A binary value token is not a byte (`bad binary: <token>`).
    BadBinary(String),
    /// An unsigned value token is not a `u64` (`bad uint: <token>`).
    BadUint(String),
    /// A signed value token is not an `i64` (`bad int: <token>`).
    BadInt(String),
    /// A float value token is not a number (`bad float: <token>`).
    BadFloat(String),
    /// The node type is none of the known ones (`unsupported body type: <type>`).
    Unsupported(String),
}

/// Model of a [`BodyError`].
pub enum BodyFault {
    BadBinary(Seq<char>),
    BadUint(Seq<char>),
    BadInt(Seq<char>),
    BadFloat(Seq<char>),
    Unsupported(Seq<char>),
}

impl View for BodyError {
    type V = BodyFault;

    open spec fn view(&self) -> BodyFault {
        match self {
            BodyError::BadBinary(s) => BodyFault::BadBinary(s@),
            BodyError::BadUint(s) => BodyFault::BadUint(s@),
            BodyError::BadInt(s) => BodyFault::BadInt(s@),
            BodyError::BadFloat(s) => BodyFault::BadFloat(s@),
            BodyError::Unsupported(s) => BodyFault::Unsupported(s@),
        }
    }
}

/// Text of a body error.
pub open spec fn body_fault_text(f: BodyFault) -> Seq<char> {
    match f {
        BodyFault::BadBinary(t) => "bad binary: "@ + t,
        BodyFault::BadUint(t) => "bad uint: "@ + t,
        BodyFault::BadInt(t) => "bad int: "@ + t,
        BodyFault::BadFloat(t) => "bad float: "@ + t,
        BodyFault::Unsupported(t) => "unsupported body type: "@ + t,
    }
}

impl BodyError {
    /// The error text.
    pub fn message(&self) -> (r: String)
        ensures
            r@ == body_fault_text(self@),
    {
        let (head, tail) = match self {
            BodyError::BadBinary(t) => ("bad binary: ", t),
            BodyError::BadUint(t) => ("bad uint: ", t),
            BodyError::BadInt(t) => ("bad int: ", t),
            BodyError::BadFloat(t) => ("bad float: ", t),
            BodyError::Unsupported(t) => ("unsupported body type: ", t),
        };
        let mut v = chars_of(head);
        let t = chars_of(tail.as_str());
        crate::text::push_all(&mut v, &t);
        string_of(&v)
    }
}

/// A byte token: `0x`/`0X` then hex digits, else decimal.
pub open spec fn byte_token(p: Seq<char>) -> Option<nat> {
    if p.len() >= 2 && p[0] == '0' && (p[1] == 'x' || p[1] == 'X') {
        parse_unsigned(p.skip(2), 16, 255)
    } else {
        parse_unsigned(p, 10, 255)
    }
}

/// An unsigned token: `0x`/`0X` then hex digits, else decimal.
pub open spec fn uint_token(p: Seq<char>) -> Option<nat> {
    if p.len() >= 2 && p[0] == '0' && (p[1] == 'x' || p[1] == 'X') {
        parse_unsigned(p.skip(2), 16, 0xffff_ffff_ffff_ffff)
    } else {
        parse_unsigned(p, 10, 0xffff_ffff_ffff_ffff)
    }
}

/// Byte values of the tokens, or the first token that is not one.
pub open spec fn byte_tokens(t: Seq<Seq<char>>) -> Result<Seq<u8>, Seq<char>>
    decreases t.len(),
{
    if t.len() == 0 {
        Ok(Seq::empty())
    } else {
        match byte_tokens(t.drop_last()) {
            Err(e) => Err(e),
            Ok(v) => match byte_token(t.last()) {
                Some(b) => Ok(v.push(b as u8)),
                None => Err(t.last()),
            },
        }
    }
}

/// Unsigned values of the tokens, or the first token that is not one.
pub open spec fn uint_tokens(t: Seq<Seq<char>>) -> Result<Seq<u64>, Seq<char>>
    decreases t.len(),
{
    if t.len() == 0 {
        Ok(Seq::empty())
    } else {
        match uint_tokens(t.drop_last()) {
            Err(e) => Err(e),
            Ok(v) => match uint_token(t.last()) {
                Some(b) => Ok(v.push(b as u64)),
                None => Err(t.last()),
            },
        }
    }
}

/// Signed values of the tokens, or the first token that is not one.
pub open spec fn int_tokens(t: Seq<Seq<char>>) -> Result<Seq<i64>, Seq<char>>
    decreases t.len(),
{
    if t.len() == 0 {
        Ok(Seq::empty())
    } else {
        match int_tokens(t.drop_last()) {
            Err(e) => Err(e),
            Ok(v) => match parse_i64_spec(t.last()) {
                Some(b) => Ok(v.push(b as i64)),
                None => Err(t.last()),
            },
        }
    }
}

/// Whitespace-separated bytes of a `B` leaf; blank text is no bytes.
pub open spec fn bytes_of(raw: Seq<char>) -> Result<Seq<u8>, Seq<char>> {
    if trim(raw).len() == 0 {
        Ok(Seq::empty())
    } else {
        byte_tokens(split_ws(trim(raw)))
    }
}

/// Whitespace-separated unsigned values; blank text is the single value 0.
pub open spec fn uints_of(raw: Seq<char>) -> Result<Seq<u64>, Seq<char>> {
    if trim(raw).len() == 0 {
        Ok(seq![0u64])
    } else {
        uint_tokens(split_ws(trim(raw)))
    }
}

/// Whitespace-separated signed values; blank text is the single value 0.
pub open spec fn ints_of(raw: Seq<char>) -> Result<Seq<i64>, Seq<char>> {
    if trim(raw).len() == 0 {
        Ok(seq![0i64])
    } else {
        int_tokens(split_ws(trim(raw)))
    }
}

/// A boolean token is true when, lower-cased, it is `true`, `1`, `yes` or `t`.
pub open spec fn bool_token(p: Seq<char>) -> bool {
    let l = lower(p);
    l == "true"@ || l == "1"@ || l == "yes"@ || l == "t"@
}

/// Whitespace-separated booleans; blank text is no values.
pub open spec fn bools_of(raw: Seq<char>) -> Seq<bool> {
    let t = split_ws(trim(raw));
    if trim(raw).len() == 0 {
        Seq::empty()
    } else {
        Seq::new(t.len(), |i: int| bool_token(t[i]))
    }
}

/// A number as `f64::from_str` reads it, by its documented grammar (on the
/// lower-cased text): an optional sign, then `inf`, `infinity` or `nan`, or
/// digits with at most one `.` and at least one digit in all, then an
/// optional exponent (`e`, an optional sign, digits).
pub open spec fn float_text(t: Seq<char>) -> bool {
    let s = if t.len() > 0 && (t[0] == '+' || t[0] == '-') {
        t.drop_first()
    } else {
        t
    };
    let l = lower(s);
    if l == "inf"@ || l == "infinity"@ || l == "nan"@ {
        true
    } else {
        number_text(s)
    }
}

/// Digits with at most one `.`, at least one digit, then an optional exponent.
pub open spec fn number_text(s: Seq<char>) -> bool {
    let a = digit_end(s, 0);
    let dot = a < s.len() && s[a] == '.';
    let b = if dot {
        digit_end(s, a + 1)
    } else {
        a
    };
    let digits = if dot {
        b - 1
    } else {
        a
    };
    digits > 0 && (b == s.len() || ((s[b] == 'e' || s[b] == 'E') && exp_text(s, b + 1)))
}

/// An exponent's sign and digits run from `i` to the end of `s`.
pub open spec fn exp_text(s: Seq<char>, i: int) -> bool {
    let j = if i < s.len() && (s[i] == '+' || s[i] == '-') {
        i + 1
    } else {
        i
    };
    let k = digit_end(s, j);
    k > j && k == s.len()
}

/// Whether `t` is a number (`str::parse::<f64>` accepts it).
pub fn is_float_text(t: &[char]) -> (r: bool)
    ensures
        r == float_text(t@),
{
    let s: Vec<char> = if t.len() > 0 && (t[0] == '+' || t[0] == '-') {
        crate::text::sub_chars(t, 1, t.len())
    } else {
        crate::text::copy_chars(t)
    };
    assert(s@ =~= (if t@.len() > 0 && (t@[0] == '+' || t@[0] == '-') { t@.drop_first() } else { t@ }));
    let l = to_lower(&s);
    if chars_eq_str(&l, "inf") || chars_eq_str(&l, "infinity") || chars_eq_str(&l, "nan") {
        return true;
    }
    proof {
        crate::sml_read::lemma_digit_end(s@, 0);
    }
    let a = crate::sml_read::skip_digits(&s, 0);
    let dot = a < s.len() && s[a] == '.';
    let b = if dot {
        crate::sml_read::skip_digits(&s, a + 1)
    } else {
        a
    };
    let digits = if dot {
        b - 1
    } else {
        a
    };
    if digits == 0 {
        return false;
    }
    if b == s.len() {
        return true;
    }
    if !(s[b] == 'e' || s[b] == 'E') {
        return false;
    }
    let i = b + 1;
    let j = if i < s.len() && (s[i] == '+' || s[i] == '-') {
        i + 1
    } else {
        i
    };
    let k = crate::sml_read::skip_digits(&s, j);
    k > j && k == s.len()
}

/// The float tokens, or the first one that is not a number.
pub open spec fn float_tokens(t: Seq<Seq<char>>) -> Result<Seq<Seq<char>>, Seq<char>>
    decreases t.len(),
{
    if t.len() == 0 {
        Ok(Seq::empty())
    } else {
        match float_tokens(t.drop_last()) {
            Err(e) => Err(e),
            Ok(v) => if float_text(t.last()) {
                Ok(v.push(t.last()))
            } else {
                Err(t.last())
            },
        }
    }
}

/// Whitespace-separated float texts; blank text is the single value `0`.
pub open spec fn floats_of(raw: Seq<char>) -> Result<Seq<Seq<char>>, Seq<char>> {
    if trim(raw).len() == 0 {
        Ok(seq!["0"@])
    } else {
        float_tokens(split_ws(trim(raw)))
    }
}

pub open spec fn map_err_uint<T>(r: Result<T, Seq<char>>) -> Result<T, BodyFault> {
    match r {
        Ok(v) => Ok(v),
        Err(t) => Err(BodyFault::BadUint(t)),
    }
}

pub open spec fn map_err_int<T>(r: Result<T, Seq<char>>) -> Result<T, BodyFault> {
    match r {
        Ok(v) => Ok(v),
        Err(t) => Err(BodyFault::BadInt(t)),
    }
}

/// The item a body node stands for.
pub open spec fn node_item(n: BodyNode) -> Result<Item, BodyFault>
    decreases n, 0int,
{
    let ty = upper(n.item_type);
    if ty == "L"@ {
        if n.children.len() == 0 {
            Ok(Item::List(Seq::empty()))
        } else {
            match node_items(n.children) {
                Ok(v) => Ok(Item::List(v)),
                Err(e) => Err(e),
            }
        }
    } else if ty == "A"@ || ty == "J"@ {
        Ok(Item::Ascii(n.value))
    } else if ty == "B"@ {
        match bytes_of(n.value) {
            Ok(v) => Ok(Item::Binary(v)),
            Err(t) => Err(BodyFault::BadBinary(t)),
        }
    } else if ty == "BOOLEAN"@ || ty == "BOOL"@ {
        Ok(Item::Boolean(bools_of(n.value)))
    } else if ty == "U1"@ {
        match map_err_uint(uints_of(n.value)) {
            Ok(v) => Ok(Item::Uint1(Seq::new(v.len(), |i: int| v[i] as u8))),
            Err(e) => Err(e),
        }
    } else if ty == "U2"@ {
        match map_err_uint(uints_of(n.value)) {
            Ok(v) => Ok(Item::Uint2(Seq::new(v.len(), |i: int| v[i] as u16))),
            Err(e) => Err(e),
        }
    } else if ty == "U4"@ {
        match map_err_uint(uints_of(n.value)) {
            Ok(v) => Ok(Item::Uint4(Seq::new(v.len(), |i: int| v[i] as u32))),
            Err(e) => Err(e),
        }
    } else if ty == "U8"@ {
        match map_err_uint(uints_of(n.value)) {
            Ok(v) => Ok(Item::Uint8(v)),
            Err(e) => Err(e),
        }
    } else if ty == "I1"@ {
        match map_err_int(ints_of(n.value)) {
            Ok(v) => Ok(Item::Int1(Seq::new(v.len(), |i: int| v[i] as i8))),
            Err(e) => Err(e),
        }
    } else if ty == "I2"@ {
        match map_err_int(ints_of(n.value)) {
            Ok(v) => Ok(Item::Int2(Seq::new(v.len(), |i: int| v[i] as i16))),
            Err(e) => Err(e),
        }
    } else if ty == "I4"@ {
        match map_err_int(ints_of(n.value)) {
            Ok(v) => Ok(Item::Int4(Seq::new(v.len(), |i: int| v[i] as i32))),
            Err(e) => Err(e),
        }
    } else if ty == "I8"@ {
        match map_err_int(ints_of(n.value)) {
            Ok(v) => Ok(Item::Int8(v)),
            Err(e) => Err(e),
        }
    } else if ty == "F4"@ {
        match floats_of(n.value) {
            Ok(t) => Ok(Item::Float4(t)),
            Err(p) => Err(BodyFault::BadFloat(p)),
        }
    } else if ty == "F8"@ {
        match floats_of(n.value) {
            Ok(t) => Ok(Item::Float8(t)),
            Err(p) => Err(BodyFault::BadFloat(p)),
        }
    } else {
        Err(BodyFault::Unsupported(ty))
    }
}

/// Items of a sequence of nodes, or the first error.
pub open spec fn node_items(s: Seq<BodyNode>) -> Result<Seq<Item>, BodyFault>
    decreases s, 1int,
{
    if s.len() == 0 {
        Ok(Seq::empty())
    } else {
        match node_items(s.drop_last()) {
            Err(e) => Err(e),
            Ok(v) => match node_item(s.last()) {
                Ok(x) => Ok(v.push(x)),
                Err(e) => Err(e),
            },
        }
    }
}

/// The item a body tree stands for: nothing is the empty item, one node is
/// that node's item, several nodes are a list of their items.
pub open spec fn tree_item(items: Seq<BodyNode>) -> Result<Item, BodyFault> {
    if items.len() == 0 {
        Ok(Item::Empty)
    } else if items.len() == 1 {
        node_item(items[0])
    } else {
        match node_items(items) {
            Ok(v) => Ok(Item::List(v)),
            Err(e) => Err(e),
        }
    }
}

/// Byte token parse.
fn parse_byte_token(p: &[char]) -> (r: Option<u8>)
    ensures
        match r {
            Some(b) => byte_token(p@) == Some(b as nat),
            None => byte_token(p@) is None,
        },
{
    if p.len() >= 2 && p[0] == '0' && (p[1] == 'x' || p[1] == 'X') {
        let d = crate::text::sub_chars(p, 2, p.len());
        assert(d@ =~= p@.skip(2));
        match parse_unsigned_chars(&d, 16, 255) {
            Some(v) => Some(v as u8),
            None => None,
        }
    } else {
        match parse_unsigned_chars(p, 10, 255) {
            Some(v) => Some(v as u8),
            None => None,
        }
    }
}

/// Unsigned token parse.
fn parse_uint_token(p: &[char]) -> (r: Option<u64>)
    ensures
        match r {
            Some(b) => uint_token(p@) == Some(b as nat),
            None => uint_token(p@) is None,
        },
{
    if p.len() >= 2 && p[0] == '0' && (p[1] == 'x' || p[1] == 'X') {
        let d = crate::text::sub_chars(p, 2, p.len());
        assert(d@ =~= p@.skip(2));
        parse_unsigned_chars(&d, 16, 0xffff_ffff_ffff_ffff)
    } else {
        parse_unsigned_chars(p, 10, 0xffff_ffff_ffff_ffff)
    }
}

/// The bytes of a `B` leaf.
fn parse_bytes_tokens(toks: &Vec<Vec<char>>) -> (r: Result<Vec<u8>, Vec<char>>)
    ensures
        match r {
            Ok(v) => byte_tokens(seqs_of(toks@)) == Ok::<Seq<u8>, Seq<char>>(v@),
            Err(t) => byte_tokens(seqs_of(toks@)) == Err::<Seq<u8>, Seq<char>>(t@),
        },
{
    let mut out: Vec<u8> = Vec::new();
    let mut i: usize = 0;
    while i < toks.len()
        invariant
            i <= toks@.len(),
            byte_tokens(seqs_of(toks@).take(i as int)) == Ok::<Seq<u8>, Seq<char>>(out@),
        decreases toks.len() - i,
    {
        let ghost pre = seqs_of(toks@).take(i + 1);
        assert(pre.drop_last() =~= seqs_of(toks@).take(i as int));
        assert(pre.last() == toks@[i as int]@);
        match parse_byte_token(&toks[i]) {
            Some(b) => {
                out.push(b);
            },
            None => {
                proof {
                    lemma_first_err_byte(seqs_of(toks@), i + 1);
                }
                return Err(crate::text::copy_chars(&toks[i]));
            },
        }
        i += 1;
    }
    assert(seqs_of(toks@).take(toks@.len() as int) =~= seqs_of(toks@));
    Ok(out)
}

/// See [`bytes_of`].
pub fn parse_bytes(raw: &[char]) -> (r: Result<Vec<u8>, Vec<char>>)
    ensures
        match r {
            Ok(v) => bytes_of(raw@) == Ok::<Seq<u8>, Seq<char>>(v@),
            Err(t) => bytes_of(raw@) == Err::<Seq<u8>, Seq<char>>(t@),
        },
{
    let t = trim_chars(raw);
    if t.len() == 0 {
        return Ok(Vec::new());
    }
    let toks = split_whitespace(&t);
    parse_bytes_tokens(&toks)
}

proof fn lemma_first_err_float(t: Seq<Seq<char>>, i: int)
    requires
        0 <= i <= t.len(),
        float_tokens(t.take(i)) is Err,
    ensures
        float_tokens(t) == float_tokens(t.take(i)),
    decreases t.len() - i,
{
    if i < t.len() {
        assert(t.take(i + 1).drop_last() =~= t.take(i));
        lemma_first_err_float(t, i + 1);
    } else {
        assert(t.take(i) =~= t);
    }
}

proof fn lemma_first_err_byte(t: Seq<Seq<char>>, i: int)
    requires
        0 <= i <= t.len(),
        byte_tokens(t.take(i)) is Err,
    ensures
        byte_tokens(t) == byte_tokens(t.take(i)),
    decreases t.len() - i,
{
    if i < t.len() {
        assert(t.take(i + 1).drop_last() =~= t.take(i));
        lemma_first_err_byte(t, i + 1);
    } else {
        assert(t.take(i) =~= t);
    }
}

proof fn lemma_first_err_uint(t: Seq<Seq<char>>, i: int)
    requires
        0 <= i <= t.len(),
        uint_tokens(t.take(i)) is Err,
    ensures
        uint_tokens(t) == uint_tokens(t.take(i)),
    decreases t.len() - i,
{
    if i < t.len() {
        assert(t.take(i + 1).drop_last() =~= t.take(i));
        lemma_first_err_uint(t, i + 1);
    } else {
        assert(t.take(i) =~= t);
    }
}

proof fn lemma_first_err_int(t: Seq<Seq<char>>, i: int)
    requires
        0 <= i <= t.len(),
        int_tokens(t.take(i)) is Err,
    ensures
        int_tokens(t) == int_tokens(t.take(i)),
    decreases t.len() - i,
{
    if i < t.len() {
        assert(t.take(i + 1).drop_last() =~= t.take(i));
        lemma_first_err_int(t, i + 1);
    } else {
        assert(t.take(i) =~= t);
    }
}

/// The values of an unsigned leaf.
fn parse_u64s_tokens(toks: &Vec<Vec<char>>) -> (r: Result<Vec<u64>, Vec<char>>)
    ensures
        match r {
            Ok(v) => uint_tokens(seqs_of(toks@)) == Ok::<Seq<u64>, Seq<char>>(v@),
            Err(t) => uint_tokens(seqs_of(toks@)) == Err::<Seq<u64>, Seq<char>>(t@),
        },
{
    let mut out: Vec<u64> = Vec::new();
    let mut i: usize = 0;
    while i < toks.len()
        invariant
            i <= toks@.len(),
            uint_tokens(seqs_of(toks@).take(i as int)) == Ok::<Seq<u64>, Seq<char>>(out@),
        decreases toks.len() - i,
    {
        let ghost pre = seqs_of(toks@).take(i + 1);
        assert(pre.drop_last() =~= seqs_of(toks@).take(i as int));
        assert(pre.last() == toks@[i as int]@);
        match parse_uint_token(&toks[i]) {
            Some(b) => {
                out.push(b);
            },
            None => {
                proof {
                    lemma_first_err_uint(seqs_of(toks@), i + 1);
                }
                return Err(crate::text::copy_chars(&toks[i]));
            },
        }
        i += 1;
    }
    assert(seqs_of(toks@).take(toks@.len() as int) =~= seqs_of(toks@));
    Ok(out)
}

/// See [`uints_of`].
pub fn parse_u64s(raw: &[char]) -> (r: Result<Vec<u64>, Vec<char>>)
    ensures
        match r {
            Ok(v) => uints_of(raw@) == Ok::<Seq<u64>, Seq<char>>(v@),
            Err(t) => uints_of(raw@) == Err::<Seq<u64>, Seq<char>>(t@),
        },
{
    let t = trim_chars(raw);
    if t.len() == 0 {
        let mut z: Vec<u64> = Vec::new();
        z.push(0);
        assert(z@ =~= seq![0u64]);
        return Ok(z);
    }
    let toks = split_whitespace(&t);
    parse_u64s_tokens(&toks)
}

/// The values of a signed leaf.
fn parse_i64s_tokens(toks: &Vec<Vec<char>>) -> (r: Result<Vec<i64>, Vec<char>>)
    ensures
        match r {
            Ok(v) => int_tokens(seqs_of(toks@)) == Ok::<Seq<i64>, Seq<char>>(v@),
            Err(t) => int_tokens(seqs_of(toks@)) == Err::<Seq<i64>, Seq<char>>(t@),
        },
{
    let mut out: Vec<i64> = Vec::new();
    let mut i: usize = 0;
    while i < toks.len()
        invariant
            i <= toks@.len(),
            int_tokens(seqs_of(toks@).take(i as int)) == Ok::<Seq<i64>, Seq<char>>(out@),
        decreases toks.len() - i,
    {
        let ghost pre = seqs_of(toks@).take(i + 1);
        assert(pre.drop_last() =~= seqs_of(toks@).take(i as int));
        assert(pre.last() == toks@[i as int]@);
        match parse_i64_chars(&toks[i]) {
            Some(b) => {
                out.push(b);
            },
            None => {
                proof {
                    lemma_first_err_int(seqs_of(toks@), i + 1);
                }
                return Err(crate::text::copy_chars(&toks[i]));
            },
        }
        i += 1;
    }
    assert(seqs_of(toks@).take(toks@.len() as int) =~= seqs_of(toks@));
    Ok(out)
}

/// See [`ints_of`].
pub fn parse_i64s(raw: &[char]) -> (r: Result<Vec<i64>, Vec<char>>)
    ensures
        match r {
            Ok(v) => ints_of(raw@) == Ok::<Seq<i64>, Seq<char>>(v@),
            Err(t) => ints_of(raw@) == Err::<Seq<i64>, Seq<char>>(t@),
        },
{
    let t = trim_chars(raw);
    if t.len() == 0 {
        let mut z: Vec<i64> = Vec::new();
        z.push(0);
        assert(z@ =~= seq![0i64]);
        return Ok(z);
    }
    let toks = split_whitespace(&t);
    parse_i64s_tokens(&toks)
}

/// The values of a boolean leaf.
pub fn parse_bools(raw: &[char]) -> (r: Vec<bool>)
    ensures
        r@ == bools_of(raw@),
{
    let t = trim_chars(raw);
    if t.len() == 0 {
        return Vec::new();
    }
    let toks = split_whitespace(&t);
    let mut out: Vec<bool> = Vec::new();
    let mut i: usize = 0;
    while i < toks.len()
        invariant
            i <= toks@.len(),
            seqs_of(toks@) == split_ws(t@),
            out@.len() == i,
            forall|k: int| 0 <= k < i ==> out@[k] == bool_token(#[trigger] toks@[k]@),
        decreases toks.len() - i,
    {
        let l = to_lower(&toks[i]);
        let b = chars_eq_str(&l, "true") || chars_eq_str(&l, "1") || chars_eq_str(&l, "yes")
            || chars_eq_str(&l, "t");
        out.push(b);
        i += 1;
    }
    assert(out@ =~= bools_of(raw@));
    out
}

/// The float texts of a float leaf, or the first one that does not read as
/// a number.
pub fn float_texts(raw: &[char]) -> (r: Result<Vec<String>, Vec<char>>)
    ensures
        match r {
            Ok(v) => floats_of(raw@) == Ok::<Seq<Seq<char>>, Seq<char>>(strings_view(v@)),
            Err(p) => floats_of(raw@) == Err::<Seq<Seq<char>>, Seq<char>>(p@),
        },
{
    let t = trim_chars(raw);
    let mut out: Vec<String> = Vec::new();
    if t.len() == 0 {
        out.push(String::from_str("0"));
        assert(strings_view(out@) =~= seq!["0"@]);
        return Ok(out);
    }
    let toks = split_whitespace(&t);
    let ghost ts = seqs_of(toks@);
    assert(floats_of(raw@) == float_tokens(ts));
    assert(ts.take(0) =~= Seq::<Seq<char>>::empty());
    assert(strings_view(out@) =~= Seq::<Seq<char>>::empty());
    let mut i: usize = 0;
    while i < toks.len()
        invariant
            i <= toks@.len(),
            ts == seqs_of(toks@),
            floats_of(raw@) == float_tokens(ts),
            float_tokens(ts.take(i as int)) == Ok::<Seq<Seq<char>>, Seq<char>>(strings_view(out@)),
        decreases toks.len() - i,
    {
        let tok = string_of(&toks[i]);
        assert(ts[i as int] == toks@[i as int]@);
        assert(ts.take(i + 1).drop_last() =~= ts.take(i as int));
        assert(ts.take(i + 1).last() == tok@);
        if !is_float_text(&toks[i]) {
            proof {
                lemma_first_err_float(ts, i + 1);
            }
            return Err(crate::text::copy_chars(&toks[i]));
        }
        let ghost prev = out@;
        out.push(tok);
        assert(strings_view(out@) =~= strings_view(prev).push(tok@));
        i += 1;
    }
    assert(ts.take(ts.len() as int) =~= ts);
    Ok(out)
}

/// Convert a body tree to the item it stands for.
pub fn body_tree_to_secs2(items: &[BodyItem]) -> (r: Result<Secs2, BodyError>)
    ensures
        match r {
            Ok(x) => tree_item(nodes(items@)) == Ok::<Item, BodyFault>(x@),
            Err(e) => tree_item(nodes(items@)) == Err::<Item, BodyFault>(e@),
        },
{
    proof {
        lemma_nodes(items@);
    }
    if items.len() == 0 {
        return Ok(Secs2::Empty);
    }
    if items.len() == 1 {
        return item_to_secs2(&items[0]);
    }
    match items_to_secs2(items) {
        Ok(v) => Ok(Secs2::List(v)),
        Err(e) => Err(e),
    }
}

/// Items of a slice of nodes, or the first error.
fn items_to_secs2(items: &[BodyItem]) -> (r: Result<Vec<Secs2>, BodyError>)
    ensures
        match r {
            Ok(v) => node_items(nodes(items@)) == Ok::<Seq<Item>, BodyFault>(models(v@)),
            Err(e) => node_items(nodes(items@)) == Err::<Seq<Item>, BodyFault>(e@),
        },
    decreases items@,
{
    let mut out: Vec<Secs2> = Vec::new();
    let mut i: usize = 0;
    while i < items.len()
        invariant
            i <= items@.len(),
            node_items(nodes(items@.take(i as int))) == Ok::<Seq<Item>, BodyFault>(models(out@)),
        decreases items.len() - i,
    {
        proof {
            lemma_nodes_take(items@, i as int);
        }
        match item_to_secs2(&items[i]) {
            Ok(x) => {
                let ghost prev = out@;
                out.push(x);
                assert(out@.drop_last() =~= prev);
            },
            Err(e) => {
                proof {
                    lemma_first_err_items(items@, i + 1);
                }
                return Err(e);
            },
        }
        i += 1;
    }
    assert(items@.take(items@.len() as int) =~= items@);
    Ok(out)
}

proof fn lemma_first_err_items(t: Seq<BodyItem>, i: int)
    requires
        0 <= i <= t.len(),
        node_items(nodes(t.take(i))) is Err,
    ensures
        node_items(nodes(t)) == node_items(nodes(t.take(i))),
    decreases t.len() - i,
{
    if i < t.len() {
        lemma_nodes_take(t, i);
        lemma_first_err_items(t, i + 1);
    } else {
        assert(t.take(i) =~= t);
    }
}

fn to_u8s(v: &Vec<u64>) -> (r: Vec<u8>)
    ensures
        r@ == Seq::new(v@.len(), |i: int| v@[i] as u8),
{
    let mut r: Vec<u8> = Vec::new();
    let mut i: usize = 0;
    while i < v.len()
        invariant
            i <= v@.len(),
            r@ == Seq::new(i as nat, |k: int| v@[k] as u8),
        decreases v.len() - i,
    {
        r.push(v[i] as u8);
        i += 1;
        assert(r@ =~= Seq::new(i as nat, |k: int| v@[k] as u8));
    }
    r
}

fn to_u16s(v: &Vec<u64>) -> (r: Vec<u16>)
    ensures
        r@ == Seq::new(v@.len(), |i: int| v@[i] as u16),
{
    let mut r: Vec<u16> = Vec::new();
    let mut i: usize = 0;
    while i < v.len()
        invariant
            i <= v@.len(),
            r@ == Seq::new(i as nat, |k: int| v@[k] as u16),
        decreases v.len() - i,
    {
        r.push(v[i] as u16);
        i += 1;
        assert(r@ =~= Seq::new(i as nat, |k: int| v@[k] as u16));
    }
    r
}

fn to_u32s(v: &Vec<u64>) -> (r: Vec<u32>)
    ensures
        r@ == Seq::new(v@.len(), |i: int| v@[i] as u32),
{
    let mut r: Vec<u32> = Vec::new();
    let mut i: usize = 0;
    while i < v.len()
        invariant
            i <= v@.len(),
            r@ == Seq::new(i as nat, |k: int| v@[k] as u32),
        decreases v.len() - i,
    {
        r.push(v[i] as u32);
        i += 1;
        assert(r@ =~= Seq::new(i as nat, |k: int| v@[k] as u32));
    }
    r
}

fn to_i8s(v: &Vec<i64>) -> (r: Vec<i8>)
    ensures
        r@ == Seq::new(v@.len(), |i: int| v@[i] as i8),
{
    let mut r: Vec<i8> = Vec::new();
    let mut i: usize = 0;
    while i < v.len()
        invariant
            i <= v@.len(),
            r@ == Seq::new(i as nat, |k: int| v@[k] as i8),
        decreases v.len() - i,
    {
        r.push(v[i] as i8);
        i += 1;
        assert(r@ =~= Seq::new(i as nat, |k: int| v@[k] as i8));
    }
    r
}

fn to_i16s(v: &Vec<i64>) -> (r: Vec<i16>)
    ensures
        r@ == Seq::new(v@.len(), |i: int| v@[i] as i16),
{
    let mut r: Vec<i16> = Vec::new();
    let mut i: usize = 0;
    while i < v.len()
        invariant
            i <= v@.len(),
            r@ == Seq::new(i as nat, |k: int| v@[k] as i16),
        decreases v.len() - i,
    {
        r.push(v[i] as i16);
        i += 1;
        assert(r@ =~= Seq::new(i as nat, |k: int| v@[k] as i16));
    }
    r
}

fn to_i32s(v: &Vec<i64>) -> (r: Vec<i32>)
    ensures
        r@ == Seq::new(v@.len(), |i: int| v@[i] as i32),
{
    let mut r: Vec<i32> = Vec::new();
    let mut i: usize = 0;
    while i < v.len()
        invariant
            i <= v@.len(),
            r@ == Seq::new(i as nat, |k: int| v@[k] as i32),
        decreases v.len() - i,
    {
        r.push(v[i] as i32);
        i += 1;
        assert(r@ =~= Seq::new(i as nat, |k: int| v@[k] as i32));
    }
    r
}

/// Convert one node.
pub fn item_to_secs2(it: &BodyItem) -> (r: Result<Secs2, BodyError>)
    ensures
        match r {
            Ok(x) => node_item(it@) == Ok::<Item, BodyFault>(x@),
            Err(e) => node_item(it@) == Err::<Item, BodyFault>(e@),
        },
    decreases *it,
{
    let tyc = chars_of(it.item_type.as_str());
    let ty = to_upper(&tyc);
    let val = chars_of(it.value.as_str());
    if chars_eq_str(&ty, "L") {
        if it.children.len() == 0 {
            proof {
                lemma_nodes(it.children@);
            }
            let empty: Vec<Secs2> = Vec::new();
            assert(models(empty@) =~= Seq::<Item>::empty());
            return Ok(Secs2::List(empty));
        }
        proof {
            lemma_nodes(it.children@);
        }
        return match items_to_secs2(it.children.as_slice()) {
            Ok(v) => Ok(Secs2::List(v)),
            Err(e) => Err(e),
        };
    }
    if chars_eq_str(&ty, "A") || chars_eq_str(&ty, "J") {
        return Ok(Secs2::Ascii(it.value.clone()));
    }
    if chars_eq_str(&ty, "B") {
        return match parse_bytes(&val) {
            Ok(b) => Ok(Secs2::Binary(b)),
            Err(t) => Err(BodyError::BadBinary(string_of(&t))),
        };
    }
    if chars_eq_str(&ty, "BOOLEAN") || chars_eq_str(&ty, "BOOL") {
        return Ok(Secs2::Boolean(parse_bools(&val)));
    }
    if chars_eq_str(&ty, "U1") {
        return match parse_u64s(&val) {
            Ok(v) => Ok(Secs2::Uint1(to_u8s(&v))),
            Err(t) => Err(BodyError::BadUint(string_of(&t))),
        };
    }
    if chars_eq_str(&ty, "U2") {
        return match parse_u64s(&val) {
            Ok(v) => Ok(Secs2::Uint2(to_u16s(&v))),
            Err(t) => Err(BodyError::BadUint(string_of(&t))),
        };
    }
    if chars_eq_str(&ty, "U4") {
        return match parse_u64s(&val) {
            Ok(v) => Ok(Secs2::Uint4(to_u32s(&v))),
            Err(t) => Err(BodyError::BadUint(string_of(&t))),
        };
    }
    if chars_eq_str(&ty, "U8") {
        return match parse_u64s(&val) {
            Ok(v) => Ok(Secs2::Uint8(v)),
            Err(t) => Err(BodyError::BadUint(string_of(&t))),
        };
    }
    if chars_eq_str(&ty, "I1") {
        return match parse_i64s(&val) {
            Ok(v) => Ok(Secs2::Int1(to_i8s(&v))),
            Err(t) => Err(BodyError::BadInt(string_of(&t))),
        };
    }
    if chars_eq_str(&ty, "I2") {
        return match parse_i64s(&val) {
            Ok(v) => Ok(Secs2::Int2(to_i16s(&v))),
            Err(t) => Err(BodyError::BadInt(string_of(&t))),
        };
    }
    if chars_eq_str(&ty, "I4") {
        return match parse_i64s(&val) {
            Ok(v) => Ok(Secs2::Int4(to_i32s(&v))),
            Err(t) => Err(BodyError::BadInt(string_of(&t))),
        };
    }
    if chars_eq_str(&ty, "I8") {
        return match parse_i64s(&val) {
            Ok(v) => Ok(Secs2::Int8(v)),
            Err(t) => Err(BodyError::BadInt(string_of(&t))),
        };
    }
    if chars_eq_str(&ty, "F4") {
        return match float_texts(&val) {
            Ok(v) => Ok(Secs2::Float4(v)),
            Err(t) => Err(BodyError::BadFloat(string_of(&t))),
        };
    }
    if chars_eq_str(&ty, "F8") {
        return match float_texts(&val) {
            Ok(v) => Ok(Secs2::Float8(v)),
            Err(t) => Err(BodyError::BadFloat(string_of(&t))),
        };
    }
    Err(BodyError::Unsupported(string_of(&ty)))
}

} // verus!
