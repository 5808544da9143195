//! Text of SECS-II leaf values, shared by the body tree and the SML writer.

use vstd::prelude::*;
use crate::numbers::{dec_str, int_str, hex_byte, u64_text, i64_text, hex_byte_text};
use crate::secs2::strings_view;
use crate::text::{join, seqs_of, string_of, chars_of, push_all};

verus! {

/// Lossy UTF-8 decoding (`String::from_utf8_lossy`): a function of the bytes alone.
pub uninterp spec fn utf8_lossy(b: Seq<u8>) -> Seq<char>;

/// `String::from_utf8_lossy(b).into_owned()`: the bytes decoded as UTF-8, with
/// each invalid sequence replaced by U+FFFD. The result is named by
/// [`utf8_lossy`]; for valid UTF-8 it is the plain decoding.
#[verifier::external_body]
pub(crate) fn lossy_text(b: &[u8]) -> (s: String)
    ensures
        s@ == utf8_lossy(b@),
        vstd::utf8::valid_utf8(b@) ==> s@ == vstd::utf8::decode_utf8(b@),
{
    String::from_utf8_lossy(b).into_owned()
}

/// Values as text, joined with single spaces.
pub open spec fn nums_text(v: Seq<int>) -> Seq<char> {
    join(Seq::new(v.len(), |i: int| int_str(v[i])), " "@)
}

/// Bytes as `0xHH`, joined with single spaces.
pub open spec fn hex_list(b: Seq<u8>) -> Seq<char> {
    join(Seq::new(b.len(), |i: int| hex_byte(b[i])), " "@)
}

/// `true`/`false` words joined with single spaces.
pub open spec fn bool_word(b: bool) -> Seq<char> {
    if b {
        "true"@
    } else {
        "false"@
    }
}

pub open spec fn bool_list(v: Seq<bool>) -> Seq<char> {
    join(Seq::new(v.len(), |i: int| bool_word(v[i])), " "@)
}

/// Float texts joined with single spaces.
pub open spec fn float_list(v: Seq<Seq<char>>) -> Seq<char> {
    join(v, " "@)
}

/// Text of one value in `[i64::MIN, u64::MAX]`.
pub fn int_text(x: i128) -> (r: Vec<char>)
    requires
        -0x8000_0000_0000_0000 <= x <= 0xffff_ffff_ffff_ffff,
    ensures
        r@ == int_str(x as int),
{
    if x < 0 {
        i64_text(x as i64)
    } else {
        u64_text(x as u64)
    }
}

/// The values of `v`, as text, joined with single spaces.
pub fn join_ints(v: &Vec<i128>) -> (r: Vec<char>)
    requires
        forall|i: int| 0 <= i < v@.len() ==> -0x8000_0000_0000_0000 <= #[trigger] v@[i] <= 0xffff_ffff_ffff_ffff,
    ensures
        r@ == nums_text(Seq::new(v@.len(), |i: int| v@[i] as int)),
{
    let mut parts: Vec<Vec<char>> = Vec::new();
    let mut i: usize = 0;
    while i < v.len()
        invariant
            i <= v@.len(),
            forall|i: int| 0 <= i < v@.len() ==> -0x8000_0000_0000_0000 <= #[trigger] v@[i] <= 0xffff_ffff_ffff_ffff,
            parts@.len() == i,
            forall|k: int| 0 <= k < i ==> (#[trigger] parts@[k])@ == int_str(v@[k] as int),
        decreases v.len() - i,
    {
        parts.push(int_text(v[i]));
        i += 1;
    }
    let sep = chars_of(" ");
    let r = crate::text::join_parts(&parts, &sep);
    assert(seqs_of(parts@) =~= Seq::new(v@.len(), |i: int| int_str((Seq::new(v@.len(), |j: int| v@[j] as int))[i])));
    r
}

/// Bytes as `0xHH`, joined with single spaces.
pub fn hex_list_text(b: &[u8]) -> (r: Vec<char>)
    ensures
        r@ == hex_list(b@),
{
    let mut parts: Vec<Vec<char>> = Vec::new();
    let mut i: usize = 0;
    while i < b.len()
        invariant
            i <= b@.len(),
            parts@.len() == i,
            forall|k: int| 0 <= k < i ==> (#[trigger] parts@[k])@ == hex_byte(b@[k]),
        decreases b.len() - i,
    {
        parts.push(hex_byte_text(b[i]));
        i += 1;
    }
    let sep = chars_of(" ");
    assert(seqs_of(parts@) =~= Seq::new(b@.len(), |i: int| hex_byte(b@[i])));
    crate::text::join_parts(&parts, &sep)
}

/// `true`/`false` words joined with single spaces.
pub fn bool_list_text(v: &[bool]) -> (r: Vec<char>)
    ensures
        r@ == bool_list(v@),
{
    let mut parts: Vec<Vec<char>> = Vec::new();
    let mut i: usize = 0;
    while i < v.len()
        invariant
            i <= v@.len(),
            parts@.len() == i,
            forall|k: int| 0 <= k < i ==> (#[trigger] parts@[k])@ == bool_word(v@[k]),
        decreases v.len() - i,
    {
        let w = if v[i] {
            chars_of("true")
        } else {
            chars_of("false")
        };
        parts.push(w);
        i += 1;
    }
    let sep = chars_of(" ");
    assert(seqs_of(parts@) =~= Seq::new(v@.len(), |i: int| bool_word(v@[i])));
    crate::text::join_parts(&parts, &sep)
}

/// Float texts joined with single spaces.
pub fn float_list_text(v: &Vec<String>) -> (r: Vec<char>)
    ensures
        r@ == float_list(strings_view(v@)),
{
    let mut parts: Vec<Vec<char>> = Vec::new();
    let mut i: usize = 0;
    while i < v.len()
        invariant
            i <= v@.len(),
            parts@.len() == i,
            forall|k: int| 0 <= k < i ==> (#[trigger] parts@[k])@ == v@[k]@,
        decreases v.len() - i,
    {
        parts.push(chars_of(v[i].as_str()));
        i += 1;
    }
    let sep = chars_of(" ");
    assert(seqs_of(parts@) =~= strings_view(v@));
    crate::text::join_parts(&parts, &sep)
}

pub fn widen_u8(v: &Vec<u8>) -> (r: Vec<i128>)
    ensures
        r@.len() == v@.len(),
        forall|i: int| 0 <= i < v@.len() ==> #[trigger] r@[i] == v@[i] as i128,
{
    let mut r: Vec<i128> = Vec::new();
    let mut i: usize = 0;
    while i < v.len()
        invariant
            i <= v@.len(),
            r@.len() == i,
            forall|k: int| 0 <= k < i ==> #[trigger] r@[k] == v@[k] as i128,
        decreases v.len() - i,
    {
        r.push(v[i] as i128);
        i += 1;
    }
    r
}

pub fn widen_u16(v: &Vec<u16>) -> (r: Vec<i128>)
    ensures
        r@.len() == v@.len(),
        forall|i: int| 0 <= i < v@.len() ==> #[trigger] r@[i] == v@[i] as i128,
{
    let mut r: Vec<i128> = Vec::new();
    let mut i: usize = 0;
    while i < v.len()
        invariant
            i <= v@.len(),
            r@.len() == i,
            forall|k: int| 0 <= k < i ==> #[trigger] r@[k] == v@[k] as i128,
        decreases v.len() - i,
    {
        r.push(v[i] as i128);
        i += 1;
    }
    r
}

pub fn widen_u32(v: &Vec<u32>) -> (r: Vec<i128>)
    ensures
        r@.len() == v@.len(),
        forall|i: int| 0 <= i < v@.len() ==> #[trigger] r@[i] == v@[i] as i128,
{
    let mut r: Vec<i128> = Vec::new();
    let mut i: usize = 0;
    while i < v.len()
        invariant
            i <= v@.len(),
            r@.len() == i,
            forall|k: int| 0 <= k < i ==> #[trigger] r@[k] == v@[k] as i128,
        decreases v.len() - i,
    {
        r.push(v[i] as i128);
        i += 1;
    }
    r
}

pub fn widen_u64(v: &Vec<u64>) -> (r: Vec<i128>)
    ensures
        r@.len() == v@.len(),
        forall|i: int| 0 <= i < v@.len() ==> #[trigger] r@[i] == v@[i] as i128,
{
    let mut r: Vec<i128> = Vec::new();
    let mut i: usize = 0;
    while i < v.len()
        invariant
            i <= v@.len(),
            r@.len() == i,
            forall|k: int| 0 <= k < i ==> #[trigger] r@[k] == v@[k] as i128,
        decreases v.len() - i,
    {
        r.push(v[i] as i128);
        i += 1;
    }
    r
}

pub fn widen_i8(v: &Vec<i8>) -> (r: Vec<i128>)
    ensures
        r@.len() == v@.len(),
        forall|i: int| 0 <= i < v@.len() ==> #[trigger] r@[i] == v@[i] as i128,
{
    let mut r: Vec<i128> = Vec::new();
    let mut i: usize = 0;
    while i < v.len()
        invariant
            i <= v@.len(),
            r@.len() == i,
            forall|k: int| 0 <= k < i ==> #[trigger] r@[k] == v@[k] as i128,
        decreases v.len() - i,
    {
        r.push(v[i] as i128);
        i += 1;
    }
    r
}

pub fn widen_i16(v: &Vec<i16>) -> (r: Vec<i128>)
    ensures
        r@.len() == v@.len(),
        forall|i: int| 0 <= i < v@.len() ==> #[trigger] r@[i] == v@[i] as i128,
{
    let mut r: Vec<i128> = Vec::new();
    let mut i: usize = 0;
    while i < v.len()
        invariant
            i <= v@.len(),
            r@.len() == i,
            forall|k: int| 0 <= k < i ==> #[trigger] r@[k] == v@[k] as i128,
        decreases v.len() - i,
    {
        r.push(v[i] as i128);
        i += 1;
    }
    r
}

pub fn widen_i32(v: &Vec<i32>) -> (r: Vec<i128>)
    ensures
        r@.len() == v@.len(),
        forall|i: int| 0 <= i < v@.len() ==> #[trigger] r@[i] == v@[i] as i128,
{
    let mut r: Vec<i128> = Vec::new();
    let mut i: usize = 0;
    while i < v.len()
        invariant
            i <= v@.len(),
            r@.len() == i,
            forall|k: int| 0 <= k < i ==> #[trigger] r@[k] == v@[k] as i128,
        decreases v.len() - i,
    {
        r.push(v[i] as i128);
        i += 1;
    }
    r
}

pub fn widen_i64(v: &Vec<i64>) -> (r: Vec<i128>)
    ensures
        r@.len() == v@.len(),
        forall|i: int| 0 <= i < v@.len() ==> #[trigger] r@[i] == v@[i] as i128,
{
    let mut r: Vec<i128> = Vec::new();
    let mut i: usize = 0;
    while i < v.len()
        invariant
            i <= v@.len(),
            r@.len() == i,
            forall|k: int| 0 <= k < i ==> #[trigger] r@[k] == v@[k] as i128,
        decreases v.len() - i,
    {
        r.push(v[i] as i128);
        i += 1;
    }
    r
}

} // verus!
