//! Built-in GEM auto-replies: which ones a session answers and which one an
//! inbound primary calls for.

use vstd::prelude::*;
use crate::config::{Role, ClockType, SessionConfig};
use crate::rules::{HsmsHeader, BuiltinKind, builtin_of};
use crate::numbers::dec_str;
use crate::text::lower;

verus! {

/// Per-session switches of the built-in auto-replies.
#[derive(Clone, Copy, Debug, PartialEq, Eq, Structural)]
pub struct BuiltinHandlers {
    /// Equipment: S1F13 answered by S1F14.
    pub s1f13: bool,
    /// Equipment: S1F17 answered by S1F18.
    pub s1f17: bool,
    /// Equipment: S1F15 answered by S1F16.
    pub s1f15: bool,
    /// Equipment: S1F1 answered by S1F2.
    pub s1f1: bool,
    /// Equipment: S2F17 answered by S2F18.
    pub s2f17: bool,
    /// Either side: S6F11 answered by S6F12.
    pub s6f11: bool,
    /// Either side: S5F1 answered by S5F2.
    pub s5f1: bool,
}

/// Switches for `role`: the equipment-only replies on for equipment, the
/// event and alarm replies on for both.
pub open spec fn handlers_for(role: Role) -> BuiltinHandlers {
    let equip = role == Role::Equipment;
    BuiltinHandlers { s1f13: equip, s1f17: equip, s1f15: equip, s1f1: equip, s2f17: equip, s6f11: true, s5f1: true }
}

impl BuiltinHandlers {
    pub fn for_role(role: &Role) -> (r: BuiltinHandlers)
        ensures
            r == handlers_for(*role),
    {
        let equip = match role {
            Role::Equipment => true,
            Role::Host => false,
        };
        BuiltinHandlers { s1f13: equip, s1f17: equip, s1f15: equip, s1f1: equip, s2f17: equip, s6f11: true, s5f1: true }
    }
}

impl Default for BuiltinHandlers {
    fn default() -> (r: BuiltinHandlers)
        ensures
            r == handlers_for(Role::Equipment),
    {
        BuiltinHandlers::for_role(&Role::Equipment)
    }
}

/// GEM identity of a session: its side, model name, software revision and
/// clock format.
#[derive(Debug)]
pub struct GemSettings {
    pub is_equip: bool,
    pub mdln: String,
    pub softrev: String,
    pub clock_type: ClockType,
}

/// GEM identity taken from a session configuration.
pub fn gem_config_from_session(cfg: &SessionConfig) -> (r: GemSettings)
    ensures
        r.is_equip == (cfg.role == Role::Equipment),
        r.mdln@ == cfg.mdln@,
        r.softrev@ == cfg.softrev@,
        r.clock_type == cfg.clock_type,
{
    GemSettings {
        is_equip: cfg.role == Role::Equipment,
        mdln: cfg.mdln.clone(),
        softrev: cfg.softrev.clone(),
        clock_type: cfg.clock_type,
    }
}

/// GEM state of an open session.
#[derive(Debug)]
pub struct LiveGem {
    pub config: GemSettings,
    pub handlers: BuiltinHandlers,
}

impl LiveGem {
    pub fn new(cfg: &SessionConfig, handlers: BuiltinHandlers) -> (r: LiveGem)
        ensures
            r.config.is_equip == (cfg.role == Role::Equipment),
            r.config.mdln@ == cfg.mdln@,
            r.config.softrev@ == cfg.softrev@,
            r.config.clock_type == cfg.clock_type,
            r.handlers == handlers,
    {
        LiveGem { config: gem_config_from_session(cfg), handlers }
    }
}

/// The built-in reply a primary with header `h` calls for: a data message
/// with the wait bit, whose stream and function have a switched-on
/// handler (the equipment-only ones only when `is_equip`).
pub open spec fn auto_reply_for(h: HsmsHeader, handlers: BuiltinHandlers, is_equip: bool) -> Option<BuiltinKind> {
    if !h.wbit || h.s_type != 0 {
        None
    } else if h.stream == 1 && h.function == 13 && handlers.s1f13 && is_equip {
        Some(BuiltinKind::S1F14)
    } else if h.stream == 1 && h.function == 17 && handlers.s1f17 && is_equip {
        Some(BuiltinKind::S1F18)
    } else if h.stream == 1 && h.function == 15 && handlers.s1f15 && is_equip {
        Some(BuiltinKind::S1F16)
    } else if h.stream == 1 && h.function == 1 && handlers.s1f1 && is_equip {
        Some(BuiltinKind::S1F2)
    } else if h.stream == 2 && h.function == 17 && handlers.s2f17 && is_equip {
        Some(BuiltinKind::S2F18)
    } else if h.stream == 6 && h.function == 11 && handlers.s6f11 {
        Some(BuiltinKind::S6F12)
    } else if h.stream == 5 && h.function == 1 && handlers.s5f1 {
        Some(BuiltinKind::S5F2)
    } else {
        None
    }
}

/// The built-in reply that `h` calls for, if any.
pub fn try_auto_reply(h: &HsmsHeader, handlers: &BuiltinHandlers, is_equip: bool) -> (r: Option<BuiltinKind>)
    ensures
        r == auto_reply_for(*h, *handlers, is_equip),
{
    if !h.wbit || !h.is_data_message() {
        return None;
    }
    let s = h.stream;
    let f = h.function;
    if s == 1 && f == 13 && handlers.s1f13 && is_equip {
        Some(BuiltinKind::S1F14)
    } else if s == 1 && f == 17 && handlers.s1f17 && is_equip {
        Some(BuiltinKind::S1F18)
    } else if s == 1 && f == 15 && handlers.s1f15 && is_equip {
        Some(BuiltinKind::S1F16)
    } else if s == 1 && f == 1 && handlers.s1f1 && is_equip {
        Some(BuiltinKind::S1F2)
    } else if s == 2 && f == 17 && handlers.s2f17 && is_equip {
        Some(BuiltinKind::S2F18)
    } else if s == 6 && f == 11 && handlers.s6f11 {
        Some(BuiltinKind::S6F12)
    } else if s == 5 && f == 1 && handlers.s5f1 {
        Some(BuiltinKind::S5F2)
    } else {
        None
    }
}

/// Name of the reply a built-in sends.
pub open spec fn builtin_name(k: BuiltinKind) -> Seq<char> {
    match k {
        BuiltinKind::S1F14 => "s1f14"@,
        BuiltinKind::S1F18 => "s1f18"@,
        BuiltinKind::S1F16 => "s1f16"@,
        BuiltinKind::S1F2 => "s1f2"@,
        BuiltinKind::S2F18 => "s2f18"@,
        BuiltinKind::S6F12 => "s6f12"@,
        BuiltinKind::S5F2 => "s5f2"@,
    }
}

/// Name of the reply a built-in sends (`s1f14`, ...).
pub fn builtin_label(k: BuiltinKind) -> (r: &'static str)
    ensures
        r@ == builtin_name(k),
{
    match k {
        BuiltinKind::S1F14 => "s1f14",
        BuiltinKind::S1F18 => "s1f18",
        BuiltinKind::S1F16 => "s1f16",
        BuiltinKind::S1F2 => "s1f2",
        BuiltinKind::S2F18 => "s2f18",
        BuiltinKind::S6F12 => "s6f12",
        BuiltinKind::S5F2 => "s5f2",
    }
}

/// `s<stream>f<function>`: the lower-case name of a message header.
pub open spec fn sf_name(stream: nat, function: nat) -> Seq<char> {
    "s"@ + dec_str(stream) + "f"@ + dec_str(function)
}

/// Every built-in reply switched on.
pub open spec fn all_handlers() -> BuiltinHandlers {
    BuiltinHandlers { s1f13: true, s1f17: true, s1f15: true, s1f1: true, s2f17: true, s6f11: true, s5f1: true }
}

/// Decimal text of the stream and function numbers of the built-in pairs.
proof fn lemma_digit_names()
    ensures
        dec_str(1) == "1"@, dec_str(2) == "2"@, dec_str(5) == "5"@, dec_str(6) == "6"@,
        dec_str(11) == "11"@, dec_str(12) == "12"@, dec_str(13) == "13"@, dec_str(14) == "14"@,
        dec_str(15) == "15"@, dec_str(16) == "16"@, dec_str(17) == "17"@, dec_str(18) == "18"@,
{
    reveal_strlit("1");
    reveal_strlit("2");
    reveal_strlit("5");
    reveal_strlit("6");
    reveal_strlit("11");
    reveal_strlit("12");
    reveal_strlit("13");
    reveal_strlit("14");
    reveal_strlit("15");
    reveal_strlit("16");
    reveal_strlit("17");
    reveal_strlit("18");
    assert(dec_str(1) =~= "1"@);
    assert(dec_str(2) =~= "2"@);
    assert(dec_str(5) =~= "5"@);
    assert(dec_str(6) =~= "6"@);
    assert(dec_str(11) =~= "11"@);
    assert(dec_str(12) =~= "12"@);
    assert(dec_str(13) =~= "13"@);
    assert(dec_str(14) =~= "14"@);
    assert(dec_str(15) =~= "15"@);
    assert(dec_str(16) =~= "16"@);
    assert(dec_str(17) =~= "17"@);
    assert(dec_str(18) =~= "18"@);
}

/// What each pair name stands for, one literal at a time.
proof fn lemma_builtin_literal_names()
    ensures
        builtin_of("s1f13"@) == Some(BuiltinKind::S1F14),
        builtin_of("s1f14"@) == Some(BuiltinKind::S1F14),
        builtin_of("s1f17"@) == Some(BuiltinKind::S1F18),
        builtin_of("s1f18"@) == Some(BuiltinKind::S1F18),
        builtin_of("s1f15"@) == Some(BuiltinKind::S1F16),
        builtin_of("s1f16"@) == Some(BuiltinKind::S1F16),
        builtin_of("s1f1"@) == Some(BuiltinKind::S1F2),
        builtin_of("s1f2"@) == Some(BuiltinKind::S1F2),
        builtin_of("s2f17"@) == Some(BuiltinKind::S2F18),
        builtin_of("s2f18"@) == Some(BuiltinKind::S2F18),
        builtin_of("s6f11"@) == Some(BuiltinKind::S6F12),
        builtin_of("s6f12"@) == Some(BuiltinKind::S6F12),
        builtin_of("s5f1"@) == Some(BuiltinKind::S5F2),
        builtin_of("s5f2"@) == Some(BuiltinKind::S5F2),
{
    reveal_strlit("s1f13");
    reveal_strlit("s1f14");
    reveal_strlit("s1f17");
    reveal_strlit("s1f18");
    reveal_strlit("s1f15");
    reveal_strlit("s1f16");
    reveal_strlit("s1f1");
    reveal_strlit("s1f2");
    reveal_strlit("s2f17");
    reveal_strlit("s2f18");
    reveal_strlit("s6f11");
    reveal_strlit("s6f12");
    reveal_strlit("s5f1");
    reveal_strlit("s5f2");
    assert(lower("s1f13"@) =~= "s1f13"@);
    assert(lower("s1f14"@) =~= "s1f14"@);
    assert(lower("s1f17"@) =~= "s1f17"@);
    assert(lower("s1f18"@) =~= "s1f18"@);
    assert(lower("s1f15"@) =~= "s1f15"@);
    assert(lower("s1f16"@) =~= "s1f16"@);
    assert(lower("s1f1"@) =~= "s1f1"@);
    assert(lower("s1f2"@) =~= "s1f2"@);
    assert(lower("s2f17"@) =~= "s2f17"@);
    assert(lower("s2f18"@) =~= "s2f18"@);
    assert(lower("s6f11"@) =~= "s6f11"@);
    assert(lower("s6f12"@) =~= "s6f12"@);
    assert(lower("s5f1"@) =~= "s5f1"@);
    assert(lower("s5f2"@) =~= "s5f2"@);
    assert("s1f13"@[4] != "s1f14"@[4]);
    assert("s1f18"@[4] != "s1f14"@[4]);
    assert("s1f18"@[4] != "s1f13"@[4]);
    assert("s1f17"@[4] != "s1f14"@[4]);
    assert("s1f17"@[4] != "s1f13"@[4]);
    assert("s1f17"@[4] != "s1f18"@[4]);
    assert("s1f16"@[4] != "s1f14"@[4]);
    assert("s1f16"@[4] != "s1f13"@[4]);
    assert("s1f16"@[4] != "s1f18"@[4]);
    assert("s1f16"@[4] != "s1f17"@[4]);
    assert("s1f15"@[4] != "s1f14"@[4]);
    assert("s1f15"@[4] != "s1f13"@[4]);
    assert("s1f15"@[4] != "s1f18"@[4]);
    assert("s1f15"@[4] != "s1f17"@[4]);
    assert("s1f15"@[4] != "s1f16"@[4]);
    assert("s1f2"@.len() != "s1f14"@.len());
    assert("s1f2"@.len() != "s1f13"@.len());
    assert("s1f2"@.len() != "s1f18"@.len());
    assert("s1f2"@.len() != "s1f17"@.len());
    assert("s1f2"@.len() != "s1f16"@.len());
    assert("s1f2"@.len() != "s1f15"@.len());
    assert("s1f1"@.len() != "s1f14"@.len());
    assert("s1f1"@.len() != "s1f13"@.len());
    assert("s1f1"@.len() != "s1f18"@.len());
    assert("s1f1"@.len() != "s1f17"@.len());
    assert("s1f1"@.len() != "s1f16"@.len());
    assert("s1f1"@.len() != "s1f15"@.len());
    assert("s1f1"@[3] != "s1f2"@[3]);
    assert("s2f18"@[1] != "s1f14"@[1]);
    assert("s2f18"@[1] != "s1f13"@[1]);
    assert("s2f18"@[1] != "s1f18"@[1]);
    assert("s2f18"@[1] != "s1f17"@[1]);
    assert("s2f18"@[1] != "s1f16"@[1]);
    assert("s2f18"@[1] != "s1f15"@[1]);
    assert("s2f18"@.len() != "s1f2"@.len());
    assert("s2f18"@.len() != "s1f1"@.len());
    assert("s2f17"@[1] != "s1f14"@[1]);
    assert("s2f17"@[1] != "s1f13"@[1]);
    assert("s2f17"@[1] != "s1f18"@[1]);
    assert("s2f17"@[1] != "s1f17"@[1]);
    assert("s2f17"@[1] != "s1f16"@[1]);
    assert("s2f17"@[1] != "s1f15"@[1]);
    assert("s2f17"@.len() != "s1f2"@.len());
    assert("s2f17"@.len() != "s1f1"@.len());
    assert("s2f17"@[4] != "s2f18"@[4]);
    assert("s6f12"@[1] != "s1f14"@[1]);
    assert("s6f12"@[1] != "s1f13"@[1]);
    assert("s6f12"@[1] != "s1f18"@[1]);
    assert("s6f12"@[1] != "s1f17"@[1]);
    assert("s6f12"@[1] != "s1f16"@[1]);
    assert("s6f12"@[1] != "s1f15"@[1]);
    assert("s6f12"@.len() != "s1f2"@.len());
    assert("s6f12"@.len() != "s1f1"@.len());
    assert("s6f12"@[1] != "s2f18"@[1]);
    assert("s6f12"@[1] != "s2f17"@[1]);
    assert("s6f11"@[1] != "s1f14"@[1]);
    assert("s6f11"@[1] != "s1f13"@[1]);
    assert("s6f11"@[1] != "s1f18"@[1]);
    assert("s6f11"@[1] != "s1f17"@[1]);
    assert("s6f11"@[1] != "s1f16"@[1]);
    assert("s6f11"@[1] != "s1f15"@[1]);
    assert("s6f11"@.len() != "s1f2"@.len());
    assert("s6f11"@.len() != "s1f1"@.len());
    assert("s6f11"@[1] != "s2f18"@[1]);
    assert("s6f11"@[1] != "s2f17"@[1]);
    assert("s6f11"@[4] != "s6f12"@[4]);
    assert("s5f2"@.len() != "s1f14"@.len());
    assert("s5f2"@.len() != "s1f13"@.len());
    assert("s5f2"@.len() != "s1f18"@.len());
    assert("s5f2"@.len() != "s1f17"@.len());
    assert("s5f2"@.len() != "s1f16"@.len());
    assert("s5f2"@.len() != "s1f15"@.len());
    assert("s5f2"@[1] != "s1f2"@[1]);
    assert("s5f2"@[1] != "s1f1"@[1]);
    assert("s5f2"@.len() != "s2f18"@.len());
    assert("s5f2"@.len() != "s2f17"@.len());
    assert("s5f2"@.len() != "s6f12"@.len());
    assert("s5f2"@.len() != "s6f11"@.len());
    assert("s5f1"@.len() != "s1f14"@.len());
    assert("s5f1"@.len() != "s1f13"@.len());
    assert("s5f1"@.len() != "s1f18"@.len());
    assert("s5f1"@.len() != "s1f17"@.len());
    assert("s5f1"@.len() != "s1f16"@.len());
    assert("s5f1"@.len() != "s1f15"@.len());
    assert("s5f1"@[1] != "s1f2"@[1]);
    assert("s5f1"@[1] != "s1f1"@[1]);
    assert("s5f1"@.len() != "s2f18"@.len());
    assert("s5f1"@.len() != "s2f17"@.len());
    assert("s5f1"@.len() != "s6f12"@.len());
    assert("s5f1"@.len() != "s6f11"@.len());
    assert("s5f1"@[3] != "s5f2"@[3]);
}

/// The built-in pair names, built from their numbers.
proof fn lemma_sf_names()
    ensures
        sf_name(1, 13) == "s1f13"@,
        sf_name(1, 14) == "s1f14"@,
        sf_name(1, 17) == "s1f17"@,
        sf_name(1, 18) == "s1f18"@,
        sf_name(1, 15) == "s1f15"@,
        sf_name(1, 16) == "s1f16"@,
        sf_name(1, 1) == "s1f1"@,
        sf_name(1, 2) == "s1f2"@,
        sf_name(2, 17) == "s2f17"@,
        sf_name(2, 18) == "s2f18"@,
        sf_name(6, 11) == "s6f11"@,
        sf_name(6, 12) == "s6f12"@,
        sf_name(5, 1) == "s5f1"@,
        sf_name(5, 2) == "s5f2"@,
{
    lemma_digit_names();
    reveal_strlit("s");
    reveal_strlit("f");
    reveal_strlit("s1f13");
    reveal_strlit("s1f14");
    reveal_strlit("s1f17");
    reveal_strlit("s1f18");
    reveal_strlit("s1f15");
    reveal_strlit("s1f16");
    reveal_strlit("s1f1");
    reveal_strlit("s1f2");
    reveal_strlit("s2f17");
    reveal_strlit("s2f18");
    reveal_strlit("s6f11");
    reveal_strlit("s6f12");
    reveal_strlit("s5f1");
    reveal_strlit("s5f2");
    assert(sf_name(1, 13) =~= "s1f13"@);
    assert(sf_name(1, 14) =~= "s1f14"@);
    assert(sf_name(1, 17) =~= "s1f17"@);
    assert(sf_name(1, 18) =~= "s1f18"@);
    assert(sf_name(1, 15) =~= "s1f15"@);
    assert(sf_name(1, 16) =~= "s1f16"@);
    assert(sf_name(1, 1) =~= "s1f1"@);
    assert(sf_name(1, 2) =~= "s1f2"@);
    assert(sf_name(2, 17) =~= "s2f17"@);
    assert(sf_name(2, 18) =~= "s2f18"@);
    assert(sf_name(6, 11) =~= "s6f11"@);
    assert(sf_name(6, 12) =~= "s6f12"@);
    assert(sf_name(5, 1) =~= "s5f1"@);
    assert(sf_name(5, 2) =~= "s5f2"@);
}

/// A built-in handler named after either message of a pair that the GEM
/// answers stands for the reply the GEM sends to that pair's primary, and
/// that reply bears the pair's secondary name: `s5f1` and `s5f2` both name
/// the S5F2 alarm acknowledgement, `s6f11` and `s6f12` the S6F12 event
/// acknowledgement.
pub proof fn lemma_builtin_names_answer_their_pair(h: HsmsHeader)
    requires
        auto_reply_for(h, all_handlers(), true) is Some,
    ensures
        builtin_of(sf_name(h.stream as nat, h.function as nat)) == auto_reply_for(h, all_handlers(), true),
        builtin_of(sf_name(h.stream as nat, h.function as nat + 1)) == auto_reply_for(h, all_handlers(), true),
        auto_reply_for(h, all_handlers(), true) matches Some(k) && builtin_name(k) == sf_name(
            h.stream as nat,
            h.function as nat + 1,
        ),
{
    lemma_builtin_literal_names();
    lemma_sf_names();
    reveal_strlit("s1f14");
    reveal_strlit("s1f18");
    reveal_strlit("s1f16");
    reveal_strlit("s1f2");
    reveal_strlit("s2f18");
    reveal_strlit("s6f12");
    reveal_strlit("s5f2");
}

/// A handler name stands for a built-in only when it names, letter case
/// aside, the primary or the secondary of a pair whose primary the GEM
/// answers with that very built-in.
pub proof fn lemma_builtin_name_is_of_a_pair(name: Seq<char>)
    requires
        builtin_of(name) is Some,
    ensures
        exists|h: HsmsHeader| #[trigger] auto_reply_for(h, all_handlers(), true) == builtin_of(name) && (lower(name)
            == sf_name(h.stream as nat, h.function as nat) || lower(name) == sf_name(h.stream as nat, h.function as nat + 1)),
{
    lemma_sf_names();
    let l = lower(name);
    if l == "s1f14"@ || l == "s1f13"@ {
        let w = HsmsHeader { session_id: 0, stream: 1, wbit: true, function: 13, p_type: 0, s_type: 0, system_bytes: 0 };
        assert(auto_reply_for(w, all_handlers(), true) == builtin_of(name)
            && (l == sf_name(w.stream as nat, w.function as nat) || l == sf_name(w.stream as nat, w.function as nat + 1)));
    } else if l == "s1f18"@ || l == "s1f17"@ {
        let w = HsmsHeader { session_id: 0, stream: 1, wbit: true, function: 17, p_type: 0, s_type: 0, system_bytes: 0 };
        assert(auto_reply_for(w, all_handlers(), true) == builtin_of(name)
            && (l == sf_name(w.stream as nat, w.function as nat) || l == sf_name(w.stream as nat, w.function as nat + 1)));
    } else if l == "s1f16"@ || l == "s1f15"@ {
        let w = HsmsHeader { session_id: 0, stream: 1, wbit: true, function: 15, p_type: 0, s_type: 0, system_bytes: 0 };
        assert(auto_reply_for(w, all_handlers(), true) == builtin_of(name)
            && (l == sf_name(w.stream as nat, w.function as nat) || l == sf_name(w.stream as nat, w.function as nat + 1)));
    } else if l == "s1f2"@ || l == "s1f1"@ {
        let w = HsmsHeader { session_id: 0, stream: 1, wbit: true, function: 1, p_type: 0, s_type: 0, system_bytes: 0 };
        assert(auto_reply_for(w, all_handlers(), true) == builtin_of(name)
            && (l == sf_name(w.stream as nat, w.function as nat) || l == sf_name(w.stream as nat, w.function as nat + 1)));
    } else if l == "s2f18"@ || l == "s2f17"@ {
        let w = HsmsHeader { session_id: 0, stream: 2, wbit: true, function: 17, p_type: 0, s_type: 0, system_bytes: 0 };
        assert(auto_reply_for(w, all_handlers(), true) == builtin_of(name)
            && (l == sf_name(w.stream as nat, w.function as nat) || l == sf_name(w.stream as nat, w.function as nat + 1)));
    } else if l == "s6f12"@ || l == "s6f11"@ {
        let w = HsmsHeader { session_id: 0, stream: 6, wbit: true, function: 11, p_type: 0, s_type: 0, system_bytes: 0 };
        assert(auto_reply_for(w, all_handlers(), true) == builtin_of(name)
            && (l == sf_name(w.stream as nat, w.function as nat) || l == sf_name(w.stream as nat, w.function as nat + 1)));
    } else if l == "s5f2"@ || l == "s5f1"@ {
        let w = HsmsHeader { session_id: 0, stream: 5, wbit: true, function: 1, p_type: 0, s_type: 0, system_bytes: 0 };
        assert(auto_reply_for(w, all_handlers(), true) == builtin_of(name)
            && (l == sf_name(w.stream as nat, w.function as nat) || l == sf_name(w.stream as nat, w.function as nat + 1)));
    }
}

} // verus!
