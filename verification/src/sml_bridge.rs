//! SML parsing entry points: whole messages, previews and bare bodies.

use vstd::prelude::*;
use crate::numbers::{dec_str, u64_text};
use crate::secs2::{Item, Secs2};
use crate::sml_read::{SmlMessage, SmlMessageV, read_message, sml_message};
use crate::rules::HsmsHeader;
use crate::log::{LogEntry, LogDirection, data_summary, sml_like, hex_spaced};
use crate::flow_model::opt_view;
use crate::text::{chars_of, concat_chars, push_str, string_of, trim, trim_chars, chars_eq_str};

verus! {

/// SML text that is not a message.
#[derive(Debug)]
pub enum SmlError {
    /// Text that the reader rejects (`SML: invalid SML`).
    Invalid,
}

impl SmlError {
    /// The error text (it names SML).
    pub fn message(&self) -> (r: String)
        ensures
            r@ == "SML: invalid SML"@,
    {
        String::from_str("SML: invalid SML")
    }
}

/// Parses a whole SML message, surrounding whitespace ignored.
pub fn parse_sml(text: &str) -> (r: Result<SmlMessage, SmlError>)
    ensures
        match r {
            Ok(m) => sml_message(text@) == Some(m@),
            Err(_) => sml_message(text@) is None,
        },
{
    match read_message(text) {
        Some(m) => Ok(m),
        None => Err(SmlError::Invalid),
    }
}

/// Header of a parsed SML message, for display.
#[derive(Debug)]
pub struct ParsedSml {
    pub stream: i32,
    pub function: i32,
    pub wbit: bool,
    pub summary: String,
}

/// `SxFy`, then ` W` when the wait bit is set.
pub open spec fn header_summary(stream: nat, function: nat, wbit: bool) -> Seq<char> {
    seq!['S'] + dec_str(stream) + seq!['F'] + dec_str(function) + if wbit {
        " W"@
    } else {
        Seq::<char>::empty()
    }
}

/// Text of `header_summary`.
pub fn header_summary_text(stream: u64, function: u64, wbit: bool) -> (r: String)
    ensures
        r@ == header_summary(stream as nat, function as nat, wbit),
{
    let mut v: Vec<char> = Vec::new();
    v.push('S');
    let a = u64_text(stream);
    crate::text::push_all(&mut v, &a);
    v.push('F');
    let b = u64_text(function);
    crate::text::push_all(&mut v, &b);
    if wbit {
        push_str(&mut v, " W");
    } else {
        assert(v@ + Seq::<char>::empty() =~= v@);
    }
    string_of(&v)
}

/// Header fields and summary of an SML message, without sending.
pub fn parsed_preview(text: &str) -> (r: Result<ParsedSml, SmlError>)
    ensures
        match r {
            Ok(p) => match sml_message(text@) {
                Some(m) => p.stream == m.stream as i32 && p.function == m.function as i32
                    && p.wbit == m.wbit && p.summary@ == header_summary(
                    m.stream as nat,
                    m.function as nat,
                    m.wbit,
                ),
                None => false,
            },
            Err(_) => sml_message(text@) is None,
        },
{
    let m = parse_sml(text)?;
    let summary = header_summary_text(m.stream as u64, m.function as u64, m.wbit);
    Ok(ParsedSml {
        stream: m.stream as i32,
        function: m.function as i32,
        wbit: m.wbit,
        summary,
    })
}

/// The body item an SML body field stands for: blank or `.` is the empty
/// item; text starting with `S`/`s` is a whole message; anything else is a
/// bare body, read as the body of message `S0F0` (with a `.` added unless
/// the text ends with one).
pub open spec fn body_sml_item(body: Seq<char>) -> Option<Item> {
    let t = trim(body);
    if t.len() == 0 || t == "."@ {
        Some(Item::Empty)
    } else {
        let text = if t[0] == 'S' || t[0] == 's' {
            t
        } else if t.last() == '.' {
            "S0F0 "@ + t
        } else {
            "S0F0 "@ + t + "."@
        };
        match sml_message(text) {
            Some(m) => Some(m.body),
            None => None,
        }
    }
}

/// The body item of an SML body field.
pub fn parse_body_sml(body: &str) -> (r: Result<Secs2, SmlError>)
    ensures
        match r {
            Ok(x) => body_sml_item(body@) == Some(x@),
            Err(_) => body_sml_item(body@) is None,
        },
{
    let raw = chars_of(body);
    let t = trim_chars(&raw);
    if t.len() == 0 || chars_eq_str(&t, ".") {
        return Ok(Secs2::Empty);
    }
    let text: Vec<char> = if t[0] == 'S' || t[0] == 's' {
        t
    } else if t[t.len() - 1] == '.' {
        let mut v = chars_of("S0F0 ");
        crate::text::push_all(&mut v, &t);
        v
    } else {
        let mut v = chars_of("S0F0 ");
        crate::text::push_all(&mut v, &t);
        push_str(&mut v, ".");
        v
    };
    let st = string_of(&text);
    let m = parse_sml(st.as_str())?;
    Ok(m.body)
}

/// The body item of a rule's reply text: blank is the empty item; text
/// starting with `<` is a bare body, read as the body of `S0F0 <text>.`; other
/// text is a whole message (a `.` added unless it ends with one).
pub open spec fn rule_body_item(text: Seq<char>) -> Option<Item> {
    let t = trim(text);
    if t.len() == 0 {
        Some(Item::Empty)
    } else {
        let w = if t[0] == '<' {
            "S0F0 "@ + t + "."@
        } else if t.last() == '.' {
            t
        } else {
            t + "."@
        };
        match sml_message(w) {
            Some(m) => Some(m.body),
            None => None,
        }
    }
}

/// The body item of a rule's reply text.
pub fn parse_secs2_body(text: &str) -> (r: Result<Secs2, SmlError>)
    ensures
        match r {
            Ok(x) => rule_body_item(text@) == Some(x@),
            Err(_) => rule_body_item(text@) is None,
        },
{
    let raw = chars_of(text);
    let t = trim_chars(&raw);
    if t.len() == 0 {
        return Ok(Secs2::Empty);
    }
    let w: Vec<char> = if t[0] == '<' {
        let mut v = chars_of("S0F0 ");
        crate::text::push_all(&mut v, &t);
        push_str(&mut v, ".");
        v
    } else if t[t.len() - 1] == '.' {
        t
    } else {
        let mut v = t;
        push_str(&mut v, ".");
        v
    };
    let st = string_of(&w);
    let m = parse_sml(st.as_str())?;
    Ok(m.body)
}


/// Result of sending an SML primary.
#[derive(Debug)]
pub struct SendSmlResult {
    pub stream: i32,
    pub function: i32,
    pub wbit: bool,
    pub summary: String,
    /// The reply, when the primary waited and one came in time.
    pub reply: Option<ReplyInfo>,
    /// The reply will come later, as a session event.
    pub waiting: bool,
}

/// A received reply, for display.
#[derive(Debug)]
pub struct ReplyInfo {
    pub stream: i32,
    pub function: i32,
    pub summary: String,
    pub sml: Option<String>,
    pub hex: Option<String>,
}

/// Display form of a received reply: its header, and the summary, SML
/// text and hex of its log entry (see [`LogEntry::from_hsms`]).
pub fn reply_info(header: &HsmsHeader, body: &Secs2, control_name: &str, frame: Option<&[u8]>) -> (r: ReplyInfo)
    ensures
        r.stream == header.stream as i32,
        r.function == header.function as i32,
        if header.s_type == 0 {
            &&& r.summary@ == data_summary(header.stream as int, header.function as int, header.wbit)
            &&& opt_view(r.sml) == Some(sml_like(header.stream as int, header.function as int, header.wbit, body@))
        } else {
            &&& r.summary@ == control_name@
            &&& r.sml is None
        },
        opt_view(r.hex) == match frame {
            Some(f) => Some(hex_spaced(f@)),
            None => None,
        },
{
    let entry = LogEntry::from_hsms(header, body, control_name, frame, LogDirection::Rx);
    ReplyInfo {
        stream: header.stream as i32,
        function: header.function as i32,
        summary: entry.summary,
        sml: entry.sml,
        hex: entry.hex,
    }
}

/// What sending the SML primary `msg` reports: its header, its summary
/// `S<stream>F<function>[ W]` and the reply, when one came.
pub fn send_sml_result(msg: &SmlMessage, reply: Option<ReplyInfo>) -> (r: SendSmlResult)
    ensures
        r.stream == msg.stream as i32,
        r.function == msg.function as i32,
        r.wbit == msg.wbit,
        r.summary@ == header_summary(msg.stream as nat, msg.function as nat, msg.wbit),
        r.reply == reply,
        !r.waiting,
{
    SendSmlResult {
        stream: msg.stream as i32,
        function: msg.function as i32,
        wbit: msg.wbit,
        summary: header_summary_text(msg.stream as u64, msg.function as u64, msg.wbit),
        reply,
        waiting: false,
    }
}

/// A primary sent from the user interface waits for its reply in the
/// background: it has the wait bit, an odd function, and there is a window
/// to tell when the reply comes.
pub fn waits_in_background(wbit: bool, function: i32, has_window: bool) -> (r: bool)
    ensures
        r == (wbit && function >= 0 && function % 2 == 1 && has_window),
{
    wbit && function % 2 == 1 && has_window
}

/// The note a background wait ends with: `S<stream>F<function> W → <reply summary>`.
pub fn send_done_note(stream: i32, function: i32, reply: &ReplyInfo) -> (r: String)
    ensures
        r@ == crate::catalog::sx_fy_text(stream as int, function as int) + " W \u{2192} "@ + reply.summary@,
{
    let mut v: Vec<char> = Vec::new();
    v.push('S');
    crate::text::push_all(&mut v, &crate::numbers::i64_text(stream as i64));
    v.push('F');
    crate::text::push_all(&mut v, &crate::numbers::i64_text(function as i64));
    push_str(&mut v, " W \u{2192} ");
    crate::text::push_all(&mut v, &chars_of(reply.summary.as_str()));
    string_of(&v)
}

} // verus!
