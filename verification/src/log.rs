//! Per-session message log: a bounded buffer that drops its oldest entry
//! when full, and the text forms of its entries.

use vstd::prelude::*;
use crate::secs2::{Secs2, Item, models, lemma_models};
use crate::numbers::{dec_str, int_str, hex_pair, u64_text, i64_text, hex_pair_text};
use crate::text::{chars_of, string_of, push_all, push_str, join, seqs_of, join_parts, replace_all, replace_text};
use crate::item_text::{widen_u8, widen_u16, widen_u32, widen_u64, widen_i8, widen_i16, widen_i32, widen_i64, int_text};
use crate::sml_write::{int_seq_u8, int_seq_u16, int_seq_u32, int_seq_u64, int_seq_i8, int_seq_i16, int_seq_i32, int_seq_i64};
use crate::secs2::strings_view;
use crate::flow_eval::{debug_list, int_parts};
use crate::flow_model::opt_view;
use crate::rules::HsmsHeader;
use crate::ids::new_id;

verus! {

/// Entries a log keeps unless told otherwise.
pub const DEFAULT_LOG_CAPACITY: usize = 5000;

/// Which way a logged message went.
#[derive(Clone, Copy, Debug, PartialEq, Eq, Structural)]
pub enum LogDirection {
    Tx,
    Rx,
    PassThrough,
    System,
}

/// One log line.
#[derive(Debug)]
pub struct LogEntry {
    pub id: String,
    pub timestamp_ms: u64,
    pub direction: LogDirection,
    pub stream: Option<u8>,
    pub function: Option<u8>,
    pub wbit: Option<bool>,
    pub system_bytes: Option<u32>,
    pub session: Option<i32>,
    pub summary: String,
    pub sml: Option<String>,
    pub hex: Option<String>,
}

/// Model of a [`LogEntry`].
pub struct LogEntryV {
    pub id: Seq<char>,
    pub timestamp_ms: u64,
    pub direction: LogDirection,
    pub stream: Option<u8>,
    pub function: Option<u8>,
    pub wbit: Option<bool>,
    pub system_bytes: Option<u32>,
    pub session: Option<i32>,
    pub summary: Seq<char>,
    pub sml: Option<Seq<char>>,
    pub hex: Option<Seq<char>>,
}

impl View for LogEntry {
    type V = LogEntryV;

    open spec fn view(&self) -> LogEntryV {
        LogEntryV {
            id: self.id@,
            timestamp_ms: self.timestamp_ms,
            direction: self.direction,
            stream: self.stream,
            function: self.function,
            wbit: self.wbit,
            system_bytes: self.system_bytes,
            session: self.session,
            summary: self.summary@,
            sml: opt_view(self.sml),
            hex: opt_view(self.hex),
        }
    }
}

fn copy_opt(s: &Option<String>) -> (r: Option<String>)
    ensures
        opt_view(r) == opt_view(*s),
{
    match s {
        Some(x) => Some(x.clone()),
        None => None,
    }
}

impl Clone for LogEntry {
    fn clone(&self) -> (r: Self)
        ensures
            r@ == self@,
    {
        LogEntry {
            id: self.id.clone(),
            timestamp_ms: self.timestamp_ms,
            direction: self.direction,
            stream: self.stream,
            function: self.function,
            wbit: self.wbit,
            system_bytes: self.system_bytes,
            session: self.session,
            summary: self.summary.clone(),
            sml: copy_opt(&self.sml),
            hex: copy_opt(&self.hex),
        }
    }
}

/// Milliseconds since the Unix epoch, from the system clock (0 if the
/// clock is before the epoch). Nothing is stated of the value.
#[verifier::external_body]
pub(crate) fn now_ms() -> (r: u64) {
    std::time::SystemTime::now().duration_since(std::time::UNIX_EPOCH).map(|d| d.as_millis() as u64).unwrap_or(0)
}

// ---------------------------------------------------------------------------
// Text of items for the log panel

/// Two hex digits per byte, a space between bytes.
pub open spec fn hex_spaced(b: Seq<u8>) -> Seq<char> {
    join(Seq::new(b.len(), |i: int| hex_pair(b[i])), " "@)
}

/// Bytes as upper-case hex pairs separated by single spaces.
pub fn hex_encode(b: &[u8]) -> (r: Vec<char>)
    ensures
        r@ == hex_spaced(b@),
{
    let mut parts: Vec<Vec<char>> = Vec::new();
    let mut i: usize = 0;
    while i < b.len()
        invariant
            i <= b@.len(),
            parts@.len() == i,
            forall|k: int| 0 <= k < i ==> (#[trigger] parts@[k])@ == hex_pair(b@[k]),
        decreases b.len() - i,
    {
        parts.push(hex_pair_text(b[i]));
        i += 1;
    }
    assert(seqs_of(parts@) =~= Seq::new(b@.len(), |i: int| hex_pair(b@[i])));
    join_parts(&parts, &chars_of(" "))
}

/// Lower-case hex digits of `n`, without leading zeros.
pub open spec fn hex_lower(n: nat) -> Seq<char>
    decreases n,
{
    let d = n % 16;
    let c = if d < 10 {
        ((d + 48) as u32) as char
    } else {
        ((d + 87) as u32) as char
    };
    if n < 16 {
        seq![c]
    } else {
        hex_lower(n / 16).push(c)
    }
}

/// `char::escape_default`.
pub open spec fn escape_char(c: char) -> Seq<char> {
    if c == '\t' {
        seq!['\\', 't']
    } else if c == '\r' {
        seq!['\\', 'r']
    } else if c == '\n' {
        seq!['\\', 'n']
    } else if c == '\'' || c == '"' || c == '\\' {
        seq!['\\', c]
    } else if 0x20 <= (c as u32) && (c as u32) <= 0x7e {
        seq![c]
    } else {
        seq!['\\', 'u', '{'] + hex_lower((c as u32) as nat) + seq!['}']
    }
}

/// `str::escape_default`.
pub open spec fn escape_text(s: Seq<char>) -> Seq<char>
    decreases s.len(),
{
    if s.len() == 0 {
        Seq::empty()
    } else {
        escape_text(s.drop_last()) + escape_char(s.last())
    }
}

fn hex_lower_text(n: u32) -> (r: Vec<char>)
    ensures
        r@ == hex_lower(n as nat),
    decreases n,
{
    let d = n % 16;
    let c = if d < 10 {
        crate::text::char_from_ascii(d + 48)
    } else {
        crate::text::char_from_ascii(d + 87)
    };
    if n < 16 {
        let mut r: Vec<char> = Vec::new();
        r.push(c);
        assert(r@ =~= hex_lower(n as nat));
        r
    } else {
        let mut r = hex_lower_text(n / 16);
        r.push(c);
        r
    }
}

/// `s.escape_default()` for the log panel.
pub fn escape_default_text(s: &[char]) -> (r: Vec<char>)
    ensures
        r@ == escape_text(s@),
{
    let mut r: Vec<char> = Vec::new();
    let mut i: usize = 0;
    assert(s@.take(0) =~= Seq::<char>::empty());
    while i < s.len()
        invariant
            i <= s@.len(),
            r@ == escape_text(s@.take(i as int)),
        decreases s.len() - i,
    {
        assert(s@.take(i + 1).drop_last() =~= s@.take(i as int));
        let c = s[i];
        let ghost before = r@;
        if c == '\t' {
            r.push('\\');
            r.push('t');
        } else if c == '\r' {
            r.push('\\');
            r.push('r');
        } else if c == '\n' {
            r.push('\\');
            r.push('n');
        } else if c == '\'' || c == '"' || c == '\\' {
            r.push('\\');
            r.push(c);
        } else if 0x20 <= (c as u32) && (c as u32) <= 0x7e {
            r.push(c);
        } else {
            r.push('\\');
            r.push('u');
            r.push('{');
            push_all(&mut r, &hex_lower_text(c as u32));
            r.push('}');
        }
        assert(r@ =~= before + escape_char(s@[i as int]));
        i += 1;
    }
    assert(s@.take(s@.len() as int) =~= s@);
    r
}


/// `S<stream>F<function>` with signed decimal numbers.
pub open spec fn sf_text(stream: int, function: int) -> Seq<char> {
    seq!['S'] + int_str(stream) + seq!['F'] + int_str(function)
}

/// `<tag[n] rest>` after `pad`.
pub open spec fn counted(pad: Seq<char>, tag: Seq<char>, n: nat, rest: Seq<char>) -> Seq<char> {
    pad + seq!['<'] + tag + seq!['['] + dec_str(n) + seq![']', ' '] + rest + seq!['>']
}

/// Multi-line rendering of an item for the log panel, each line after
/// `pad`; list children go one per line, two spaces further in.
pub open spec fn log_item(item: Item, pad: Seq<char>) -> Seq<char>
    decreases item, 0int,
{
    match item {
        Item::List(xs) => if xs.len() == 0 {
            pad + "<L[0]>"@
        } else {
            pad + "<L["@ + dec_str(xs.len()) + "]>"@ + seq!['\n'] + join(log_items(xs, pad + "  "@), seq!['\n'])
        },
        Item::Ascii(a) => pad + "<A["@ + dec_str(vstd::utf8::encode_utf8(a).len()) + "] \""@ + escape_text(a) + "\">"@,
        Item::Binary(b) => counted(pad, "B"@, b.len(), hex_spaced(b)),
        Item::Boolean(v) => counted(pad, "BOOLEAN"@, v.len(), join(Seq::new(v.len(), |i: int| if v[i] { seq!['T'] } else { seq!['F'] }), " "@)),
        Item::Int1(v) => counted(pad, "I1"@, v.len(), debug_list(int_parts(int_seq_i8(v)))),
        Item::Int2(v) => counted(pad, "I2"@, v.len(), debug_list(int_parts(int_seq_i16(v)))),
        Item::Int4(v) => counted(pad, "I4"@, v.len(), debug_list(int_parts(int_seq_i32(v)))),
        Item::Int8(v) => counted(pad, "I8"@, v.len(), debug_list(int_parts(int_seq_i64(v)))),
        Item::Uint1(v) => counted(pad, "U1"@, v.len(), debug_list(int_parts(int_seq_u8(v)))),
        Item::Uint2(v) => counted(pad, "U2"@, v.len(), debug_list(int_parts(int_seq_u16(v)))),
        Item::Uint4(v) => counted(pad, "U4"@, v.len(), debug_list(int_parts(int_seq_u32(v)))),
        Item::Uint8(v) => counted(pad, "U8"@, v.len(), debug_list(int_parts(int_seq_u64(v)))),
        Item::Float4(v) => counted(pad, "F4"@, v.len(), debug_list(v)),
        Item::Float8(v) => counted(pad, "F8"@, v.len(), debug_list(v)),
        Item::Jis8(v) => counted(pad, "J"@, v.len(), hex_spaced(v)),
        Item::Unicode(v) => counted(pad, "U2CHAR"@, v.len(), hex_spaced(v)),
        Item::Empty => pad + "<EMPTY>"@,
    }
}

pub open spec fn log_items(xs: Seq<Item>, pad: Seq<char>) -> Seq<Seq<char>>
    decreases xs, 1int,
{
    if xs.len() == 0 {
        Seq::empty()
    } else {
        log_items(xs.drop_last(), pad).push(log_item(xs.last(), pad))
    }
}

/// `S<stream>F<function>` (` W` with the wait bit), a newline, then the body.
pub open spec fn sml_like(stream: int, function: int, wbit: bool, body: Item) -> Seq<char> {
    sf_text(stream, function) + (if wbit { " W"@ } else { Seq::empty() }) + seq!['\n'] + log_item(body, Seq::empty())
}

fn counted_text(pad: &[char], tag: &str, n: usize, rest: &[char]) -> (r: Vec<char>)
    ensures
        r@ == counted(pad@, tag@, n as nat, rest@),
{
    let mut r: Vec<char> = Vec::new();
    push_all(&mut r, pad);
    r.push('<');
    push_str(&mut r, tag);
    r.push('[');
    push_all(&mut r, &u64_text(n as u64));
    r.push(']');
    r.push(' ');
    push_all(&mut r, rest);
    r.push('>');
    assert(r@ =~= counted(pad@, tag@, n as nat, rest@));
    r
}

fn ints_bracketed(v: &Vec<i128>) -> (r: Vec<char>)
    requires
        forall|i: int| 0 <= i < v@.len() ==> -0x8000_0000_0000_0000 <= #[trigger] v@[i] <= 0xffff_ffff_ffff_ffff,
    ensures
        r@ == debug_list(int_parts(Seq::new(v@.len(), |i: int| v@[i] as int))),
{
    let mut parts: Vec<Vec<char>> = Vec::new();
    let mut i: usize = 0;
    while i < v.len()
        invariant
            i <= v@.len(),
            forall|i: int| 0 <= i < v@.len() ==> -0x8000_0000_0000_0000 <= #[trigger] v@[i] <= 0xffff_ffff_ffff_ffff,
            parts@.len() == i,
            forall|k: int| 0 <= k < i ==> (#[trigger] parts@[k])@ == int_str(v@[k] as int),
        decreases v.len() - i,
    {
        parts.push(int_text(v[i]));
        i += 1;
    }
    assert(seqs_of(parts@) =~= int_parts(Seq::new(v@.len(), |i: int| v@[i] as int)));
    let inner = join_parts(&parts, &chars_of(", "));
    let mut r: Vec<char> = Vec::new();
    r.push('[');
    push_all(&mut r, &inner);
    r.push(']');
    proof {
        reveal_strlit("[");
        reveal_strlit("]");
    }
    assert(r@ =~= debug_list(seqs_of(parts@)));
    r
}

fn floats_bracketed(v: &Vec<String>) -> (r: Vec<char>)
    ensures
        r@ == debug_list(strings_view(v@)),
{
    let mut parts: Vec<Vec<char>> = Vec::new();
    let mut i: usize = 0;
    while i < v.len()
        invariant
            i <= v@.len(),
            parts@.len() == i,
            forall|k: int| 0 <= k < i ==> (#[trigger] parts@[k])@ == v@[k]@,
        decreases v.len() - i,
    {
        parts.push(chars_of(v[i].as_str()));
        i += 1;
    }
    assert(seqs_of(parts@) =~= strings_view(v@));
    let inner = join_parts(&parts, &chars_of(", "));
    let mut r: Vec<char> = Vec::new();
    r.push('[');
    push_all(&mut r, &inner);
    r.push(']');
    proof {
        reveal_strlit("[");
        reveal_strlit("]");
    }
    assert(r@ =~= debug_list(seqs_of(parts@)));
    r
}

/// Multi-line rendering of an item for the log panel.
pub fn log_item_text(item: &Secs2, pad: &[char]) -> (r: Vec<char>)
    ensures
        r@ == log_item(item@, pad@),
    decreases *item,
{
    match item {
        Secs2::List(xs) => {
            if xs.len() == 0 {
                let mut r: Vec<char> = Vec::new();
                push_all(&mut r, pad);
                push_str(&mut r, "<L[0]>");
                proof {
                    lemma_models(xs@);
                }
                assert(r@ =~= log_item(item@, pad@));
                r
            } else {
                let mut inner_pad: Vec<char> = Vec::new();
                push_all(&mut inner_pad, pad);
                push_str(&mut inner_pad, "  ");
                let parts = log_items_text(xs, &inner_pad);
                let mut nl: Vec<char> = Vec::new();
                nl.push('\n');
                let body = join_parts(&parts, &nl);
                let mut r: Vec<char> = Vec::new();
                push_all(&mut r, pad);
                push_str(&mut r, "<L[");
                proof {
                    lemma_models(xs@);
                }
                push_all(&mut r, &u64_text(xs.len() as u64));
                push_str(&mut r, "]>");
                r.push('\n');
                push_all(&mut r, &body);
                assert(nl@ =~= seq!['\n']);
                assert(inner_pad@ =~= pad@ + "  "@);
                assert(r@ =~= log_item(item@, pad@));
                r
            }
        },
        Secs2::Ascii(a) => {
            let n = a.as_str().as_bytes().len();
            let cs = chars_of(a.as_str());
            let mut r: Vec<char> = Vec::new();
            push_all(&mut r, pad);
            push_str(&mut r, "<A[");
            push_all(&mut r, &u64_text(n as u64));
            push_str(&mut r, "] \"");
            push_all(&mut r, &escape_default_text(&cs));
            push_str(&mut r, "\">");
            assert(r@ =~= log_item(item@, pad@));
            r
        },
        Secs2::Binary(b) => counted_text(pad, "B", b.len(), &hex_encode(b.as_slice())),
        Secs2::Boolean(v) => {
            let mut parts: Vec<Vec<char>> = Vec::new();
            let mut i: usize = 0;
            while i < v.len()
                invariant
                    i <= v@.len(),
                    parts@.len() == i,
                    forall|k: int| 0 <= k < i ==> (#[trigger] parts@[k])@ == if v@[k] { seq!['T'] } else { seq!['F'] },
                decreases v.len() - i,
            {
                let mut t: Vec<char> = Vec::new();
                if v[i] {
                    t.push('T');
                } else {
                    t.push('F');
                }
                parts.push(t);
                i += 1;
            }
            assert(seqs_of(parts@) =~= Seq::new(v@.len(), |i: int| if v@[i] { seq!['T'] } else { seq!['F'] }));
            counted_text(pad, "BOOLEAN", v.len(), &join_parts(&parts, &chars_of(" ")))
        },
        Secs2::Int1(v) => {
            let w = widen_i8(v);
            assert(Seq::new(w@.len(), |i: int| w@[i] as int) =~= int_seq_i8(v@));
            counted_text(pad, "I1", v.len(), &ints_bracketed(&w))
        },
        Secs2::Int2(v) => {
            let w = widen_i16(v);
            assert(Seq::new(w@.len(), |i: int| w@[i] as int) =~= int_seq_i16(v@));
            counted_text(pad, "I2", v.len(), &ints_bracketed(&w))
        },
        Secs2::Int4(v) => {
            let w = widen_i32(v);
            assert(Seq::new(w@.len(), |i: int| w@[i] as int) =~= int_seq_i32(v@));
            counted_text(pad, "I4", v.len(), &ints_bracketed(&w))
        },
        Secs2::Int8(v) => {
            let w = widen_i64(v);
            assert(Seq::new(w@.len(), |i: int| w@[i] as int) =~= int_seq_i64(v@));
            counted_text(pad, "I8", v.len(), &ints_bracketed(&w))
        },
        Secs2::Uint1(v) => {
            let w = widen_u8(v);
            assert(Seq::new(w@.len(), |i: int| w@[i] as int) =~= int_seq_u8(v@));
            counted_text(pad, "U1", v.len(), &ints_bracketed(&w))
        },
        Secs2::Uint2(v) => {
            let w = widen_u16(v);
            assert(Seq::new(w@.len(), |i: int| w@[i] as int) =~= int_seq_u16(v@));
            counted_text(pad, "U2", v.len(), &ints_bracketed(&w))
        },
        Secs2::Uint4(v) => {
            let w = widen_u32(v);
            assert(Seq::new(w@.len(), |i: int| w@[i] as int) =~= int_seq_u32(v@));
            counted_text(pad, "U4", v.len(), &ints_bracketed(&w))
        },
        Secs2::Uint8(v) => {
            let w = widen_u64(v);
            assert(Seq::new(w@.len(), |i: int| w@[i] as int) =~= int_seq_u64(v@));
            counted_text(pad, "U8", v.len(), &ints_bracketed(&w))
        },
        Secs2::Float4(v) => counted_text(pad, "F4", v.len(), &floats_bracketed(v)),
        Secs2::Float8(v) => counted_text(pad, "F8", v.len(), &floats_bracketed(v)),
        Secs2::Jis8(v) => counted_text(pad, "J", v.len(), &hex_encode(v.as_slice())),
        Secs2::Unicode(v) => counted_text(pad, "U2CHAR", v.len(), &hex_encode(v.as_slice())),
        Secs2::Empty => {
            let mut r: Vec<char> = Vec::new();
            push_all(&mut r, pad);
            push_str(&mut r, "<EMPTY>");
            assert(r@ =~= log_item(item@, pad@));
            r
        },
    }
}

fn log_items_text(v: &Vec<Secs2>, pad: &[char]) -> (r: Vec<Vec<char>>)
    ensures
        seqs_of(r@) == log_items(models(v@), pad@),
    decreases v@,
{
    let mut out: Vec<Vec<char>> = Vec::new();
    let mut i: usize = 0;
    assert(models(v@.take(0)) =~= Seq::<Item>::empty()) by {
        assert(v@.take(0) =~= Seq::<Secs2>::empty());
    }
    while i < v.len()
        invariant
            i <= v@.len(),
            seqs_of(out@) == log_items(models(v@.take(i as int)), pad@),
        decreases v.len() - i,
    {
        proof {
            crate::secs2::lemma_models_take(v@, i as int);
        }
        let t = log_item_text(&v[i], pad);
        let ghost prev = seqs_of(out@);
        out.push(t);
        assert(seqs_of(out@) =~= prev.push(log_item(v@[i as int]@, pad@)));
        i += 1;
    }
    assert(v@.take(v@.len() as int) =~= v@);
    out
}

/// Header line then the multi-line body, for the log panel.
pub fn format_sml_like(stream: i32, function: i32, wbit: bool, body: &Secs2) -> (r: String)
    ensures
        r@ == sml_like(stream as int, function as int, wbit, body@),
{
    let mut v: Vec<char> = Vec::new();
    v.push('S');
    push_all(&mut v, &i64_text(stream as i64));
    v.push('F');
    push_all(&mut v, &i64_text(function as i64));
    if wbit {
        push_str(&mut v, " W");
    }
    v.push('\n');
    let empty: Vec<char> = Vec::new();
    push_all(&mut v, &log_item_text(body, &empty));
    proof {
        assert(empty@ =~= Seq::<char>::empty());
    }
    assert(v@ =~= sml_like(stream as int, function as int, wbit, body@));
    string_of(&v)
}


// ---------------------------------------------------------------------------
// Entries

/// `S<stream>F<function>` and ` W` with the wait bit.
pub open spec fn data_summary(stream: int, function: int, wbit: bool) -> Seq<char> {
    sf_text(stream, function) + if wbit { " W"@ } else { Seq::empty() }
}

/// `e` is a system note with text `summary` (and a fresh id; its time is the
/// clock's).
pub open spec fn system_note(e: LogEntryV, summary: Seq<char>) -> bool {
    &&& e.direction == LogDirection::System
    &&& e.summary == summary
    &&& e.id.len() == 36
    &&& e.stream is None && e.function is None && e.wbit is None
    &&& e.system_bytes is None && e.session is None
    &&& e.sml is None && e.hex is None
}

impl LogEntry {
    /// A system note with a fresh id and the current time.
    pub fn system(summary: String) -> (r: LogEntry)
        ensures
            system_note(r@, summary@),
            r.direction == LogDirection::System,
            r.summary@ == summary@,
            r.id@.len() == 36,
            r.stream is None && r.function is None && r.wbit is None,
            r.system_bytes is None && r.session is None,
            r.sml is None && r.hex is None,
    {
        LogEntry {
            id: new_id(),
            timestamp_ms: now_ms(),
            direction: LogDirection::System,
            stream: None,
            function: None,
            wbit: None,
            system_bytes: None,
            session: None,
            summary,
            sml: None,
            hex: None,
        }
    }

    /// Entry for a message that went `direction`, with a fresh id and the
    /// current time. Data messages get stream, function, wait bit, an
    /// `SxFy` summary and the multi-line body; control messages are
    /// summarised by `control_name` (the control message kind). `frame` is the encoded message, shown as
    /// hex when there is one.
    pub fn from_hsms(header: &HsmsHeader, body: &Secs2, control_name: &str, frame: Option<&[u8]>, direction: LogDirection) -> (r: LogEntry)
        ensures
            r.direction == direction,
            r.id@.len() == 36,
            r.system_bytes == Some(header.system_bytes),
            r.session == Some(header.session_id as i32),
            if header.s_type == 0 {
                &&& r.stream == Some(header.stream)
                &&& r.function == Some(header.function)
                &&& r.wbit == Some(header.wbit)
                &&& r.summary@ == data_summary(header.stream as int, header.function as int, header.wbit)
                &&& opt_view(r.sml) == Some(sml_like(header.stream as int, header.function as int, header.wbit, body@))
            } else {
                &&& r.stream is None && r.function is None && r.wbit is None
                &&& r.summary@ == control_name@
                &&& r.sml is None
            },
            opt_view(r.hex) == match frame {
                Some(f) => Some(hex_spaced(f@)),
                None => None,
            },
    {
        let is_data = header.is_data_message();
        let hex = match frame {
            Some(f) => Some(string_of(&hex_encode(f))),
            None => None,
        };
        let (stream, function, wbit, summary, sml) = if is_data {
            let mut v: Vec<char> = Vec::new();
            v.push('S');
            push_all(&mut v, &i64_text(header.stream as i64));
            v.push('F');
            push_all(&mut v, &i64_text(header.function as i64));
            if header.wbit {
                push_str(&mut v, " W");
            }
            assert(v@ =~= data_summary(header.stream as int, header.function as int, header.wbit));
            (
                Some(header.stream),
                Some(header.function),
                Some(header.wbit),
                string_of(&v),
                Some(format_sml_like(header.stream as i32, header.function as i32, header.wbit, body)),
            )
        } else {
            (None, None, None, control_name.to_string(), None)
        };
        LogEntry {
            id: new_id(),
            timestamp_ms: now_ms(),
            direction,
            stream,
            function,
            wbit,
            system_bytes: Some(header.system_bytes),
            session: Some(header.session_id as i32),
            summary,
            sml,
            hex,
        }
    }
}

/// Views of entries.
pub open spec fn entries_view(v: Seq<LogEntry>) -> Seq<LogEntryV> {
    Seq::new(v.len(), |i: int| v[i]@)
}

/// What a log holding `s` holds after `e` is pushed with capacity `cap`:
/// the oldest entry goes when the log is full.
pub open spec fn pushed(s: Seq<LogEntryV>, e: LogEntryV, cap: nat) -> Seq<LogEntryV> {
    if s.len() >= cap {
        s.drop_first().push(e)
    } else {
        s.push(e)
    }
}

/// `es` pushed one by one.
pub open spec fn pushed_all(s: Seq<LogEntryV>, es: Seq<LogEntryV>, cap: nat) -> Seq<LogEntryV>
    decreases es.len(),
{
    if es.len() == 0 {
        s
    } else {
        pushed(pushed_all(s, es.drop_last(), cap), es.last(), cap)
    }
}

/// A bounded log keeps the newest entries: after any pushes into a log
/// holding at most `cap` (at least one) entries, it holds the last `cap`
/// entries of everything pushed, oldest first.
pub proof fn lemma_log_keeps_newest(s: Seq<LogEntryV>, es: Seq<LogEntryV>, cap: nat)
    requires
        cap >= 1,
        s.len() <= cap,
    ensures
        pushed_all(s, es, cap) == (s + es).skip(
            if (s + es).len() > cap {
                (s + es).len() - cap
            } else {
                0
            },
        ),
        pushed_all(s, es, cap).len() <= cap,
    decreases es.len(),
{
    if es.len() > 0 {
        lemma_log_keeps_newest(s, es.drop_last(), cap);
        let all = s + es;
        let prev = s + es.drop_last();
        assert(prev =~= all.drop_last());
        let p = pushed_all(s, es.drop_last(), cap);
        let k = if prev.len() > cap { prev.len() - cap } else { 0 };
        assert(p == prev.skip(k));
        if p.len() >= cap {
            assert(p.drop_first().push(es.last()) =~= all.skip(all.len() - cap));
        } else {
            assert(p.push(es.last()) =~= all.skip(0));
            assert(all.skip(0) =~= all);
        }
    }
}

/// Bounded message log: at most `capacity` entries, oldest first.
#[derive(Debug)]
pub struct SessionLog {
    entries: Vec<LogEntry>,
    capacity: usize,
}

impl SessionLog {
    #[verifier::type_invariant]
    spec fn within_capacity(self) -> bool {
        self.capacity >= 1 && self.entries@.len() <= self.capacity
    }

    /// The entries, oldest first.
    pub closed spec fn contents(self) -> Seq<LogEntryV> {
        entries_view(self.entries@)
    }

    /// Most entries kept.
    pub closed spec fn cap(self) -> nat {
        self.capacity as nat
    }

    /// Empty log keeping at most `capacity` entries (at least one).
    pub fn new(capacity: usize) -> (r: SessionLog)
        ensures
            r.contents().len() == 0,
            r.cap() == if capacity >= 1 { capacity as nat } else { 1 },
    {
        let cap = if capacity >= 1 { capacity } else { 1 };
        SessionLog { entries: Vec::new(), capacity: cap }
    }

    /// Appends `entry`, dropping the oldest entry when the log is full.
    pub fn push(&mut self, entry: LogEntry)
        ensures
            final(self).contents() == pushed(old(self).contents(), entry@, old(self).cap()),
            final(self).cap() == old(self).cap(),
            1 <= final(self).cap(),
            final(self).contents().len() <= final(self).cap(),
    {
        proof {
            use_type_invariant(&*self);
        }
        let ghost before = entries_view(self.entries@);
        let mut es: Vec<LogEntry> = Vec::new();
        std::mem::swap(&mut es, &mut self.entries);
        if es.len() >= self.capacity {
            es.remove(0);
            assert(entries_view(es@) =~= before.drop_first());
        }
        let ghost mid = entries_view(es@);
        es.push(entry);
        assert(entries_view(es@) =~= mid.push(entry@));
        self.entries = es;
    }

    /// Removes every entry.
    pub fn clear(&mut self)
        ensures
            final(self).contents().len() == 0,
            final(self).cap() == old(self).cap(),
    {
        proof {
            use_type_invariant(&*self);
        }
        self.entries = Vec::new();
    }

    /// Copy of the entries, oldest first.
    pub fn entries(&self) -> (r: Vec<LogEntry>)
        ensures
            entries_view(r@) == self.contents(),
    {
        let mut out: Vec<LogEntry> = Vec::new();
        let mut i: usize = 0;
        while i < self.entries.len()
            invariant
                i <= self.entries@.len(),
                out@.len() == i,
                forall|k: int| 0 <= k < i ==> (#[trigger] out@[k])@ == self.entries@[k]@,
            decreases self.entries.len() - i,
        {
            out.push(self.entries[i].clone());
            i += 1;
        }
        assert(entries_view(out@) =~= entries_view(self.entries@));
        out
    }

    pub fn len(&self) -> (r: usize)
        ensures
            r == self.contents().len(),
            r <= self.cap(),
    {
        proof {
            use_type_invariant(self);
        }
        self.entries.len()
    }

    pub fn is_empty(&self) -> (r: bool)
        ensures
            r == (self.contents().len() == 0),
    {
        self.entries.len() == 0
    }

    /// Entries of data messages `S<stream>F<function>`, either direction.
    pub fn count_data_sf(&self, stream: u8, function: u8) -> (r: usize)
        ensures
            r == count_sf(self.contents(), stream, function),
    {
        let mut n: usize = 0;
        let mut i: usize = 0;
        while i < self.entries.len()
            invariant
                i <= self.entries@.len(),
                n <= i,
                n == count_sf(entries_view(self.entries@).take(i as int), stream, function),
            decreases self.entries.len() - i,
        {
            assert(entries_view(self.entries@).take(i + 1).drop_last() =~= entries_view(self.entries@).take(i as int));
            let e = &self.entries[i];
            if e.stream == Some(stream) && e.function == Some(function) {
                n += 1;
            }
            i += 1;
        }
        assert(entries_view(self.entries@).take(i as int) =~= entries_view(self.entries@));
        n
    }

    /// Entries that went `dir`.
    pub fn count_direction(&self, dir: LogDirection) -> (r: usize)
        ensures
            r == count_dir(self.contents(), dir),
    {
        let mut n: usize = 0;
        let mut i: usize = 0;
        while i < self.entries.len()
            invariant
                i <= self.entries@.len(),
                n <= i,
                n == count_dir(entries_view(self.entries@).take(i as int), dir),
            decreases self.entries.len() - i,
        {
            assert(entries_view(self.entries@).take(i + 1).drop_last() =~= entries_view(self.entries@).take(i as int));
            if self.entries[i].direction == dir {
                n += 1;
            }
            i += 1;
        }
        assert(entries_view(self.entries@).take(i as int) =~= entries_view(self.entries@));
        n
    }
}

impl Default for SessionLog {
    fn default() -> (r: SessionLog)
        ensures
            r.contents().len() == 0,
            r.cap() == DEFAULT_LOG_CAPACITY,
    {
        SessionLog::new(DEFAULT_LOG_CAPACITY)
    }
}

/// Entries with stream `stream` and function `function`.
pub open spec fn count_sf(s: Seq<LogEntryV>, stream: u8, function: u8) -> nat
    decreases s.len(),
{
    if s.len() == 0 {
        0
    } else {
        count_sf(s.drop_last(), stream, function) + if s.last().stream == Some(stream) && s.last().function == Some(function) {
            1nat
        } else {
            0nat
        }
    }
}

/// Entries that went `dir`.
pub open spec fn count_dir(s: Seq<LogEntryV>, dir: LogDirection) -> nat
    decreases s.len(),
{
    if s.len() == 0 {
        0
    } else {
        count_dir(s.drop_last(), dir) + if s.last().direction == dir {
            1nat
        } else {
            0nat
        }
    }
}

// ---------------------------------------------------------------------------
// Export

/// Export formats of a log.
#[derive(Clone, Copy, Debug, PartialEq, Eq, Structural)]
pub enum LogExportFormat {
    Json,
    Text,
}

/// Short label of a direction.
pub open spec fn dir_label(d: LogDirection) -> Seq<char> {
    match d {
        LogDirection::Tx => "TX"@,
        LogDirection::Rx => "RX"@,
        LogDirection::PassThrough => "PT"@,
        LogDirection::System => "SYS"@,
    }
}

/// A number, or `-` when there is none.
pub open spec fn num_or_dash(v: Option<int>) -> Seq<char> {
    match v {
        Some(n) => int_str(n),
        None => "-"@,
    }
}

/// One tab-separated export line: time, direction, summary (tabs made
/// spaces), system bytes, session, SML (newlines written `\n`) and hex.
pub open spec fn export_line(e: LogEntryV) -> Seq<char> {
    dec_str(e.timestamp_ms as nat) + seq!['\t'] + dir_label(e.direction) + seq!['\t']
        + replace_all(e.summary, seq!['\t'], seq![' ']) + seq!['\t']
        + num_or_dash(match e.system_bytes { Some(v) => Some(v as int), None => None }) + seq!['\t']
        + num_or_dash(match e.session { Some(v) => Some(v as int), None => None }) + seq!['\t']
        + replace_all(match e.sml { Some(t) => t, None => Seq::empty() }, seq!['\n'], seq!['\\', 'n']) + seq!['\t']
        + match e.hex { Some(t) => t, None => Seq::empty() } + seq!['\n']
}

/// The two header lines of a text export.
pub open spec fn export_head() -> Seq<char> {
    "# SECS Simulator log export\n"@ + "# time\tdir\tsummary\tsys\tsession\tsml\thex\n"@
}

/// Text export of `es`: the header, then one line per entry.
pub open spec fn export_text(es: Seq<LogEntryV>) -> Seq<char>
    decreases es.len(),
{
    if es.len() == 0 {
        export_head()
    } else {
        export_text(es.drop_last()) + export_line(es.last())
    }
}

fn dir_label_text(d: LogDirection) -> (r: Vec<char>)
    ensures
        r@ == dir_label(d),
{
    match d {
        LogDirection::Tx => chars_of("TX"),
        LogDirection::Rx => chars_of("RX"),
        LogDirection::PassThrough => chars_of("PT"),
        LogDirection::System => chars_of("SYS"),
    }
}

fn num_or_dash_u32(v: Option<u32>) -> (r: Vec<char>)
    ensures
        r@ == num_or_dash(match v { Some(x) => Some(x as int), None => None }),
{
    match v {
        Some(x) => u64_text(x as u64),
        None => {
            proof {
                reveal_strlit("-");
            }
            chars_of("-")
        },
    }
}

fn num_or_dash_i32(v: Option<i32>) -> (r: Vec<char>)
    ensures
        r@ == num_or_dash(match v { Some(x) => Some(x as int), None => None }),
{
    match v {
        Some(x) => i64_text(x as i64),
        None => {
            proof {
                reveal_strlit("-");
            }
            chars_of("-")
        },
    }
}

fn export_line_text(e: &LogEntry) -> (r: Vec<char>)
    ensures
        r@ == export_line(e@),
{
    proof {
        reveal_strlit("\t");
        reveal_strlit(" ");
        reveal_strlit("\n");
        reveal_strlit("\\n");
        assert("\t"@ =~= seq!['\t']);
        assert(" "@ =~= seq![' ']);
        assert("\n"@ =~= seq!['\n']);
        assert("\\n"@ =~= seq!['\\', 'n']);
    }
    let mut v = u64_text(e.timestamp_ms);
    v.push('\t');
    push_all(&mut v, &dir_label_text(e.direction));
    v.push('\t');
    let sum = replace_text(&chars_of(e.summary.as_str()), "\t", " ");
    assert(sum@ == replace_all(e.summary@, seq!['\t'], seq![' ']));
    push_all(&mut v, &sum);
    v.push('\t');
    push_all(&mut v, &num_or_dash_u32(e.system_bytes));
    v.push('\t');
    push_all(&mut v, &num_or_dash_i32(e.session));
    v.push('\t');
    let sml: Vec<char> = match &e.sml {
        Some(t) => chars_of(t.as_str()),
        None => Vec::new(),
    };
    let sml_line = replace_text(&sml, "\n", "\\n");
    assert(sml_line@ == replace_all(match e@.sml { Some(t) => t, None => Seq::empty() }, seq!['\n'], seq!['\\', 'n']));
    push_all(&mut v, &sml_line);
    v.push('\t');
    let hex: Vec<char> = match &e.hex {
        Some(t) => chars_of(t.as_str()),
        None => Vec::new(),
    };
    push_all(&mut v, &hex);
    v.push('\n');
    assert(v@ =~= export_line(e@));
    v
}

/// Line-oriented text export: two header lines, then per entry its time,
/// direction, summary, system bytes, session, SML and hex, tab-separated.
pub fn export_logs_text(entries: &[LogEntry]) -> (r: String)
    ensures
        r@ == export_text(entries_view(entries@)),
{
    let mut out = chars_of("# SECS Simulator log export\n");
    push_str(&mut out, "# time\tdir\tsummary\tsys\tsession\tsml\thex\n");
    let mut i: usize = 0;
    assert(entries_view(entries@).take(0) =~= Seq::<LogEntryV>::empty());
    while i < entries.len()
        invariant
            i <= entries@.len(),
            out@ == export_text(entries_view(entries@).take(i as int)),
        decreases entries.len() - i,
    {
        assert(entries_view(entries@).take(i + 1).drop_last() =~= entries_view(entries@).take(i as int));
        push_all(&mut out, &export_line_text(&entries[i]));
        i += 1;
    }
    assert(entries_view(entries@).take(i as int) =~= entries_view(entries@));
    string_of(&out)
}

} // verus!
