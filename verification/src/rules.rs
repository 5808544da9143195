//! Declarative auto-reply rules: which rules answer an inbound primary, in
//! which order, and what the rule run concludes. Sending and sleeping are
//! the caller's: it asks [`plan_action`] what a rule wants, does it, and
//! reports the [`RuleEffect`] to [`RuleRun::apply`].

use vstd::prelude::*;
use crate::secs2::{Secs2, Item};
use crate::text::{chars_of, string_of, push_all, push_str, to_lower, lower, chars_eq_str};
use crate::numbers::{dec_str, u64_text};
use crate::sml_bridge::{parse_secs2_body, rule_body_item};
use crate::sml_read::{read_message, sml_message};

verus! {

/// Header of an HSMS message: the fields a rule looks at, read from the
/// ten header bytes.
#[derive(Clone, Copy, Debug)]
pub struct HsmsHeader {
    pub session_id: u16,
    pub stream: u8,
    pub wbit: bool,
    pub function: u8,
    pub p_type: u8,
    pub s_type: u8,
    pub system_bytes: u32,
}

/// The header that ten bytes `h` encode (big-endian session id and system
/// bytes; the top bit of byte 2 is the wait bit).
pub open spec fn header_of(h: Seq<u8>) -> HsmsHeader {
    HsmsHeader {
        session_id: (h[0] as int * 256 + h[1] as int) as u16,
        stream: (h[2] as int % 128) as u8,
        wbit: h[2] >= 128,
        function: h[3],
        p_type: h[4],
        s_type: h[5],
        system_bytes: (((h[6] as int * 256 + h[7] as int) * 256 + h[8] as int) * 256 + h[9] as int) as u32,
    }
}

impl HsmsHeader {
    /// Decodes a ten-byte HSMS header.
    pub fn from_bytes(h: &[u8]) -> (r: HsmsHeader)
        requires
            h@.len() == 10,
        ensures
            r == header_of(h@),
    {
        let sys: u32 = (((h[6] as u32 * 256 + h[7] as u32) * 256 + h[8] as u32) * 256) + h[9] as u32;
        HsmsHeader {
            session_id: (h[0] as u16) * 256 + h[1] as u16,
            stream: h[2] % 128,
            wbit: h[2] >= 128,
            function: h[3],
            p_type: h[4],
            s_type: h[5],
            system_bytes: sys,
        }
    }

    /// A data message (session type 0) rather than a control message.
    pub fn is_data_message(&self) -> (r: bool)
        ensures
            r == (self.s_type == 0),
    {
        self.s_type == 0
    }
}

/// Which primaries a rule answers; `None` matches anything.
#[derive(Clone, Copy, Debug, PartialEq, Eq, Structural)]
pub struct RuleMatch {
    pub stream: Option<u8>,
    pub function: Option<u8>,
    pub wbit: Option<bool>,
}

/// `m` accepts header `h`: a data message whose stream, function and wait
/// bit agree with every field `m` sets.
pub open spec fn match_spec(m: RuleMatch, h: HsmsHeader) -> bool {
    &&& h.s_type == 0
    &&& (m.stream matches Some(s) ==> s == h.stream)
    &&& (m.function matches Some(f) ==> f == h.function)
    &&& (m.wbit matches Some(w) ==> w == h.wbit)
}

/// 2 for a set stream, 2 for a set function, 1 for a set wait bit.
pub open spec fn specificity_spec(m: RuleMatch) -> nat {
    (if m.stream is Some { 2nat } else { 0nat }) + (if m.function is Some { 2nat } else { 0nat }) + (if m.wbit is Some { 1nat } else { 0nat })
}

impl RuleMatch {
    /// Whether the rule answers the message with header `h`.
    pub fn matches(&self, h: &HsmsHeader) -> (r: bool)
        ensures
            r == match_spec(*self, *h),
    {
        if !h.is_data_message() {
            return false;
        }
        if let Some(s) = self.stream {
            if h.stream != s {
                return false;
            }
        }
        if let Some(f) = self.function {
            if h.function != f {
                return false;
            }
        }
        if let Some(w) = self.wbit {
            if h.wbit != w {
                return false;
            }
        }
        true
    }

    /// Higher is more specific: exact fields before wildcards.
    pub fn specificity(&self) -> (r: u8)
        ensures
            r == specificity_spec(*self),
            r <= 5,
    {
        let mut n: u8 = 0;
        if self.stream.is_some() {
            n += 2;
        }
        if self.function.is_some() {
            n += 2;
        }
        if self.wbit.is_some() {
            n += 1;
        }
        n
    }
}

/// What a rule does when it answers.
#[derive(Debug)]
pub enum RuleAction {
    /// A built-in GEM reply; `params` is kept as JSON text.
    Builtin { handler: String, params: Option<String> },
    /// Reply with this body (a bare item or a whole message, whose header
    /// is ignored), after `delay_ms`.
    SmlReply { body: String, delay_ms: u64 },
    /// Send this primary, after `delay_ms`.
    SmlPrimary { sml: String, delay_ms: u64 },
    /// Answer nothing, and suppress the built-in replies.
    Drop,
    /// Only log.
    LogOnly,
}

/// One rule.
#[derive(Debug)]
pub struct Rule {
    pub id: String,
    pub enabled: bool,
    pub match_spec: RuleMatch,
    pub action: RuleAction,
    /// Keep evaluating less specific rules after this one.
    pub continue_match: bool,
}

/// A versioned list of rules.
#[derive(Debug)]
pub struct RuleSet {
    pub version: u32,
    pub rules: Vec<Rule>,
}

impl Default for RuleSet {
    fn default() -> (r: RuleSet)
        ensures
            r.version == 1,
            r.rules@.len() == 0,
    {
        RuleSet { version: 1, rules: Vec::new() }
    }
}

/// What a rule run concluded.
#[derive(Debug)]
pub enum RuleOutcome {
    /// No rule matched.
    NoMatch,
    /// A rule matched and ran; the built-in fallback does not run.
    Handled { rule_id: String, note: String },
    /// A drop rule matched: no built-in reply.
    Dropped { rule_id: String },
}

/// Rule `k` is enabled and answers `h`.
pub open spec fn candidate(rules: Seq<Rule>, k: int, h: HsmsHeader) -> bool {
    0 <= k < rules.len() && rules[k].enabled && match_spec(rules[k].match_spec, h)
}

/// Rule `a` is tried before rule `b`: more specific first, then in list
/// order.
pub open spec fn tried_before(rules: Seq<Rule>, a: int, b: int) -> bool {
    let sa = specificity_spec(rules[a].match_spec);
    let sb = specificity_spec(rules[b].match_spec);
    sa > sb || (sa == sb && a < b)
}

/// Rule `k` answers `h` and belongs before position `i` at level `lvl`:
/// more specific than `lvl`, or exactly `lvl` and before `i` in the list.
pub open spec fn placed(rules: Seq<Rule>, k: int, h: HsmsHeader, lvl: int, i: int) -> bool {
    candidate(rules, k, h) && (specificity_spec(rules[k].match_spec) > lvl || (
    specificity_spec(rules[k].match_spec) == lvl && k < i))
}

/// The rules that answer `h`, most specific first and, among equally
/// specific ones, in list order: exactly the enabled matching rules, each
/// once.
pub fn candidates(rules: &RuleSet, h: &HsmsHeader) -> (r: Vec<usize>)
    ensures
        forall|p: int| 0 <= p < r@.len() ==> #[trigger] candidate(rules.rules@, r@[p] as int, *h),
        forall|k: int| #[trigger] candidate(rules.rules@, k, *h) ==> r@.contains(k as usize),
        forall|p: int, q: int| 0 <= p < q < r@.len() ==> tried_before(rules.rules@, #[trigger] r@[p] as int, #[trigger] r@[q] as int),
{
    let n = rules.rules.len();
    let mut out: Vec<usize> = Vec::new();
    let mut lvl: u8 = 6;
    while lvl > 0
        invariant
            lvl <= 6,
            n == rules.rules@.len(),
            forall|p: int| 0 <= p < out@.len() ==> #[trigger] placed(rules.rules@, out@[p] as int, *h, lvl - 1, 0),
            forall|k: int| #[trigger] placed(rules.rules@, k, *h, lvl - 1, 0) ==> out@.contains(k as usize),
            forall|p: int, q: int| 0 <= p < q < out@.len() ==> tried_before(rules.rules@, #[trigger] out@[p] as int, #[trigger] out@[q] as int),
        decreases lvl,
    {
        lvl = lvl - 1;
        let mut i: usize = 0;
        assert forall|p: int| 0 <= p < out@.len() implies #[trigger] placed(rules.rules@, out@[p] as int, *h, lvl as int, 0) by {
            assert(placed(rules.rules@, out@[p] as int, *h, lvl as int, 0));
        }
        while i < n
            invariant
                lvl < 6,
                i <= n,
                n == rules.rules@.len(),
                forall|p: int| 0 <= p < out@.len() ==> #[trigger] placed(rules.rules@, out@[p] as int, *h, lvl as int, i as int),
                forall|k: int| #[trigger] placed(rules.rules@, k, *h, lvl as int, i as int) ==> out@.contains(k as usize),
                forall|p: int, q: int| 0 <= p < q < out@.len() ==> tried_before(rules.rules@, #[trigger] out@[p] as int, #[trigger] out@[q] as int),
            decreases n - i,
        {
            let r = &rules.rules[i];
            let ghost prev = out@;
            let take = r.enabled && r.match_spec.matches(h) && r.match_spec.specificity() == lvl;
            if take {
                out.push(i);
            }
            assert forall|p: int| 0 <= p < out@.len() implies #[trigger] placed(rules.rules@, out@[p] as int, *h, lvl as int, i + 1) by {
                if p < prev.len() {
                    assert(placed(rules.rules@, prev[p] as int, *h, lvl as int, i as int));
                }
            }
            assert forall|k: int| #[trigger] placed(rules.rules@, k, *h, lvl as int, i + 1) implies out@.contains(k as usize) by {
                if k == i && take {
                    assert(out@[prev.len() as int] == i);
                } else {
                    assert(placed(rules.rules@, k, *h, lvl as int, i as int));
                    assert(prev.contains(k as usize));
                    let j = choose|j: int| 0 <= j < prev.len() && prev[j] == k as usize;
                    assert(out@[j] == k as usize);
                }
            }
            assert forall|p: int, q: int| 0 <= p < q < out@.len() implies tried_before(rules.rules@, #[trigger] out@[p] as int, #[trigger] out@[q] as int) by {
                if q == prev.len() {
                    assert(placed(rules.rules@, prev[p] as int, *h, lvl as int, i as int));
                }
            }
            i += 1;
        }
        assert forall|k: int| #[trigger] placed(rules.rules@, k, *h, lvl - 1, 0) implies out@.contains(k as usize) by {
            assert(placed(rules.rules@, k, *h, lvl as int, n as int));
        }
        assert forall|p: int| 0 <= p < out@.len() implies #[trigger] placed(rules.rules@, out@[p] as int, *h, lvl - 1, 0) by {
            assert(placed(rules.rules@, out@[p] as int, *h, lvl as int, n as int));
        }
    }
    assert forall|p: int| 0 <= p < out@.len() implies #[trigger] candidate(rules.rules@, out@[p] as int, *h) by {
        assert(placed(rules.rules@, out@[p] as int, *h, -1, 0));
    }
    assert forall|k: int| #[trigger] candidate(rules.rules@, k, *h) implies out@.contains(k as usize) by {
        assert(placed(rules.rules@, k, *h, -1, 0));
    }
    out
}

/// Built-in replies a rule can name (either message of the pair).
#[derive(Clone, Copy, Debug, PartialEq, Eq, Structural)]
pub enum BuiltinKind {
    S1F14,
    S1F18,
    S1F16,
    S1F2,
    S2F18,
    S6F12,
    S5F2,
}

/// The built-in a handler name (letter case ignored) stands for.
pub open spec fn builtin_of(h: Seq<char>) -> Option<BuiltinKind> {
    let l = lower(h);
    if l == "s1f14"@ || l == "s1f13"@ {
        Some(BuiltinKind::S1F14)
    } else if l == "s1f18"@ || l == "s1f17"@ {
        Some(BuiltinKind::S1F18)
    } else if l == "s1f16"@ || l == "s1f15"@ {
        Some(BuiltinKind::S1F16)
    } else if l == "s1f2"@ || l == "s1f1"@ {
        Some(BuiltinKind::S1F2)
    } else if l == "s2f18"@ || l == "s2f17"@ {
        Some(BuiltinKind::S2F18)
    } else if l == "s6f12"@ || l == "s6f11"@ {
        Some(BuiltinKind::S6F12)
    } else if l == "s5f2"@ || l == "s5f1"@ {
        Some(BuiltinKind::S5F2)
    } else {
        None
    }
}

/// The built-in a handler name stands for.
pub fn builtin_kind(handler: &str) -> (r: Option<BuiltinKind>)
    ensures
        r == builtin_of(handler@),
{
    let l = to_lower(&chars_of(handler));
    if chars_eq_str(&l, "s1f14") || chars_eq_str(&l, "s1f13") {
        Some(BuiltinKind::S1F14)
    } else if chars_eq_str(&l, "s1f18") || chars_eq_str(&l, "s1f17") {
        Some(BuiltinKind::S1F18)
    } else if chars_eq_str(&l, "s1f16") || chars_eq_str(&l, "s1f15") {
        Some(BuiltinKind::S1F16)
    } else if chars_eq_str(&l, "s1f2") || chars_eq_str(&l, "s1f1") {
        Some(BuiltinKind::S1F2)
    } else if chars_eq_str(&l, "s2f18") || chars_eq_str(&l, "s2f17") {
        Some(BuiltinKind::S2F18)
    } else if chars_eq_str(&l, "s6f12") || chars_eq_str(&l, "s6f11") {
        Some(BuiltinKind::S6F12)
    } else if chars_eq_str(&l, "s5f2") || chars_eq_str(&l, "s5f1") {
        Some(BuiltinKind::S5F2)
    } else {
        None
    }
}

/// What a rule asks the caller to do for one primary.
#[derive(Debug)]
pub enum RulePlan {
    Drop,
    LogOnly,
    /// A reply rule met a primary without the wait bit.
    SkipReply { delay_ms: u64 },
    /// The reply body does not read; `error` says why.
    BadReplyBody { delay_ms: u64, error: String },
    /// Send this reply to the primary.
    SendReply { delay_ms: u64, stream: u8, function: u16, body: Secs2 },
    /// The primary text does not read; `error` says why.
    BadPrimary { delay_ms: u64, error: String },
    /// Send this primary.
    SendPrimary { delay_ms: u64, stream: u8, function: u8, wbit: bool, body: Secs2 },
    /// Run a built-in; `kind` is `None` for an unknown handler name.
    Builtin { handler: String, kind: Option<BuiltinKind> },
}

/// Message of a reply body that does not read.
pub open spec fn bad_body_text() -> Seq<char> {
    "rule body SML: invalid SML"@
}

/// Message of a primary that does not read.
pub open spec fn bad_primary_text() -> Seq<char> {
    "invalid SML"@
}

/// `p` is what `action` asks for, answering a primary with header `h`.
pub open spec fn plan_spec(action: RuleAction, h: HsmsHeader, p: RulePlan) -> bool {
    match action {
        RuleAction::Drop => p is Drop,
        RuleAction::LogOnly => p is LogOnly,
        RuleAction::SmlReply { body, delay_ms } => if !h.wbit {
            p matches RulePlan::SkipReply { delay_ms: d } && d == delay_ms
        } else {
            match rule_body_item(body@) {
                None => p matches RulePlan::BadReplyBody { delay_ms: d, error } && d == delay_ms
                    && error@ == bad_body_text(),
                Some(item) => p matches RulePlan::SendReply { delay_ms: d, stream, function, body: b }
                    && d == delay_ms && stream == h.stream && function == h.function + 1 && b@ == item,
            }
        },
        RuleAction::SmlPrimary { sml, delay_ms } => match sml_message(sml@) {
            None => p matches RulePlan::BadPrimary { delay_ms: d, error } && d == delay_ms && error@
                == bad_primary_text(),
            Some(m) => p matches RulePlan::SendPrimary { delay_ms: d, stream, function, wbit, body }
                && d == delay_ms && stream == m.stream && function == m.function && wbit == m.wbit
                && body@ == m.body,
        },
        RuleAction::Builtin { handler, .. } => p matches RulePlan::Builtin { handler: hh, kind }
            && hh@ == handler@ && kind == builtin_of(handler@),
    }
}

/// What `action` asks for, answering a primary with header `h`.
pub fn plan_action(action: &RuleAction, h: &HsmsHeader) -> (r: RulePlan)
    ensures
        plan_spec(*action, *h, r),
{
    match action {
        RuleAction::Drop => RulePlan::Drop,
        RuleAction::LogOnly => RulePlan::LogOnly,
        RuleAction::SmlReply { body, delay_ms } => {
            if !h.wbit {
                return RulePlan::SkipReply { delay_ms: *delay_ms };
            }
            match parse_secs2_body(body.as_str()) {
                Ok(b) => RulePlan::SendReply {
                    delay_ms: *delay_ms,
                    stream: h.stream,
                    function: h.function as u16 + 1,
                    body: b,
                },
                Err(_) => RulePlan::BadReplyBody {
                    delay_ms: *delay_ms,
                    error: "rule body SML: invalid SML".to_string(),
                },
            }
        },
        RuleAction::SmlPrimary { sml, delay_ms } => match read_message(sml.as_str()) {
            Some(m) => RulePlan::SendPrimary {
                delay_ms: *delay_ms,
                stream: m.stream,
                function: m.function,
                wbit: m.wbit,
                body: m.body,
            },
            None => RulePlan::BadPrimary { delay_ms: *delay_ms, error: "invalid SML".to_string() },
        },
        RuleAction::Builtin { handler, .. } => RulePlan::Builtin {
            handler: handler.clone(),
            kind: builtin_kind(handler.as_str()),
        },
    }
}

/// What came of a rule's action.
#[derive(Debug)]
pub enum RuleEffect {
    Dropped,
    Logged,
    /// A reply rule met a primary without the wait bit.
    ReplySkipped,
    ReplySent { stream: u8, function: u16 },
    ReplyFailed { error: String },
    ReplyUnparsed { error: String },
    PrimarySent { stream: u8, function: u8 },
    PrimaryFailed { error: String },
    PrimaryUnparsed { error: String },
    /// The built-in ran; `replied` says whether it answered.
    BuiltinRan { handler: String, replied: bool },
    BuiltinFailed { handler: String, error: String },
}

/// Text of `unknown builtin handler: <lower-case name>`.
pub open spec fn unknown_builtin_text(handler: Seq<char>) -> Seq<char> {
    "unknown builtin handler: "@ + lower(handler)
}

impl RulePlan {
    /// The effect, when the plan needs no sending: drops, logs, skipped
    /// replies, texts that do not read and unknown built-ins.
    pub fn settled(&self) -> (r: Option<RuleEffect>)
        ensures
            match self {
                RulePlan::Drop => r matches Some(RuleEffect::Dropped),
                RulePlan::LogOnly => r matches Some(RuleEffect::Logged),
                RulePlan::SkipReply { .. } => r matches Some(RuleEffect::ReplySkipped),
                RulePlan::BadReplyBody { error, .. } => r matches Some(RuleEffect::ReplyUnparsed { error: e }) && e@ == error@,
                RulePlan::BadPrimary { error, .. } => r matches Some(RuleEffect::PrimaryUnparsed { error: e }) && e@ == error@,
                RulePlan::Builtin { handler, kind: None } => r matches Some(RuleEffect::BuiltinFailed { handler: hh, error })
                    && hh@ == handler@ && error@ == unknown_builtin_text(handler@),
                _ => r is None,
            },
    {
        match self {
            RulePlan::Drop => Some(RuleEffect::Dropped),
            RulePlan::LogOnly => Some(RuleEffect::Logged),
            RulePlan::SkipReply { .. } => Some(RuleEffect::ReplySkipped),
            RulePlan::BadReplyBody { error, .. } => Some(RuleEffect::ReplyUnparsed { error: error.clone() }),
            RulePlan::BadPrimary { error, .. } => Some(RuleEffect::PrimaryUnparsed { error: error.clone() }),
            RulePlan::Builtin { handler, kind: None } => {
                let mut v = chars_of("unknown builtin handler: ");
                push_all(&mut v, &to_lower(&chars_of(handler.as_str())));
                Some(RuleEffect::BuiltinFailed { handler: handler.clone(), error: string_of(&v) })
            },
            _ => None,
        }
    }
}

/// State of a rule run over the candidates of one primary.
#[derive(Debug)]
pub struct RuleRun {
    /// The note of the last rule that ran.
    pub last_note: String,
    /// The id of the last rule that ran.
    pub last_id: String,
    /// Some rule matched and ran (whatever came of its action).
    pub any_handled: bool,
    /// A drop rule ran.
    pub dropped: bool,
}

/// The note a rule run records for `effect`.
pub open spec fn note_of(effect: RuleEffect) -> Seq<char> {
    match effect {
        RuleEffect::Dropped => "drop"@,
        RuleEffect::Logged => "log_only"@,
        RuleEffect::ReplySkipped => "sml_reply skipped (no W-bit)"@,
        RuleEffect::ReplySent { stream, function } => "sml_reply S"@ + dec_str(stream as nat) + "F"@ + dec_str(function as nat),
        RuleEffect::ReplyFailed { error } => "sml_reply error: "@ + error@,
        RuleEffect::ReplyUnparsed { error } => "sml_reply parse: "@ + error@,
        RuleEffect::PrimarySent { stream, function } => "sml_primary S"@ + dec_str(stream as nat) + "F"@ + dec_str(function as nat),
        RuleEffect::PrimaryFailed { error } => "sml_primary error: "@ + error@,
        RuleEffect::PrimaryUnparsed { error } => "sml_primary parse: "@ + error@,
        RuleEffect::BuiltinRan { handler, replied } => if replied {
            "builtin:"@ + handler@
        } else {
            "builtin:"@ + handler@ + " skipped"@
        },
        RuleEffect::BuiltinFailed { handler, error } => "builtin:"@ + handler@ + " error: "@ + error@,
    }
}

/// The outcome a run in state `run` concludes: dropped when a drop rule ran,
/// else handled (with the last rule's id and note) when any rule matched and
/// ran, a reply skipped for want of the wait bit included, else no match.
pub open spec fn outcome_spec(run: RuleRun, r: RuleOutcome) -> bool {
    if run.dropped {
        r matches RuleOutcome::Dropped { rule_id } && rule_id@ == run.last_id@
    } else if run.any_handled {
        r matches RuleOutcome::Handled { rule_id, note } && rule_id@ == run.last_id@ && note@ == run.last_note@
    } else {
        r is NoMatch
    }
}

/// A run in which some rule matched and ran never concludes "no match": it
/// concludes dropped or handled, whatever came of the rule's action.
pub proof fn lemma_matched_run_concludes(run: RuleRun, r: RuleOutcome)
    requires
        run.any_handled,
        outcome_spec(run, r),
    ensures
        r is Dropped || r is Handled,
        !run.dropped ==> (r matches RuleOutcome::Handled { rule_id, note } && rule_id@ == run.last_id@ && note@
            == run.last_note@),
{
}

fn note_text(effect: &RuleEffect) -> (r: String)
    ensures
        r@ == note_of(*effect),
{
    let v: Vec<char> = match effect {
        RuleEffect::Dropped => chars_of("drop"),
        RuleEffect::Logged => chars_of("log_only"),
        RuleEffect::ReplySkipped => chars_of("sml_reply skipped (no W-bit)"),
        RuleEffect::ReplySent { stream, function } => {
            let mut v = chars_of("sml_reply S");
            push_all(&mut v, &u64_text(*stream as u64));
            push_str(&mut v, "F");
            push_all(&mut v, &u64_text(*function as u64));
            v
        },
        RuleEffect::ReplyFailed { error } => {
            let mut v = chars_of("sml_reply error: ");
            push_str(&mut v, error.as_str());
            v
        },
        RuleEffect::ReplyUnparsed { error } => {
            let mut v = chars_of("sml_reply parse: ");
            push_str(&mut v, error.as_str());
            v
        },
        RuleEffect::PrimarySent { stream, function } => {
            let mut v = chars_of("sml_primary S");
            push_all(&mut v, &u64_text(*stream as u64));
            push_str(&mut v, "F");
            push_all(&mut v, &u64_text(*function as u64));
            v
        },
        RuleEffect::PrimaryFailed { error } => {
            let mut v = chars_of("sml_primary error: ");
            push_str(&mut v, error.as_str());
            v
        },
        RuleEffect::PrimaryUnparsed { error } => {
            let mut v = chars_of("sml_primary parse: ");
            push_str(&mut v, error.as_str());
            v
        },
        RuleEffect::BuiltinRan { handler, replied } => {
            let mut v = chars_of("builtin:");
            push_str(&mut v, handler.as_str());
            if !*replied {
                push_str(&mut v, " skipped");
            }
            v
        },
        RuleEffect::BuiltinFailed { handler, error } => {
            let mut v = chars_of("builtin:");
            push_str(&mut v, handler.as_str());
            push_str(&mut v, " error: ");
            push_str(&mut v, error.as_str());
            v
        },
    };
    string_of(&v)
}

impl RuleRun {
    /// A run before any rule: it concludes [`RuleOutcome::NoMatch`].
    pub fn new() -> (r: RuleRun)
        ensures
            !r.any_handled,
            !r.dropped,
            r.last_id@.len() == 0,
            r.last_note@.len() == 0,
    {
        RuleRun { last_note: String::new(), last_id: String::new(), any_handled: false, dropped: false }
    }

    /// Records what came of `rule`'s action. Returns whether to go on to
    /// the next candidate: only when the rule says `continue_match`.
    pub fn apply(&mut self, rule: &Rule, effect: &RuleEffect) -> (go_on: bool)
        ensures
            go_on == rule.continue_match,
            final(self).last_id@ == rule.id@,
            final(self).last_note@ == note_of(*effect),
            final(self).dropped == (old(self).dropped || effect is Dropped),
            final(self).any_handled,
    {
        self.last_id = rule.id.clone();
        self.last_note = note_text(effect);
        match effect {
            RuleEffect::Dropped => {
                self.dropped = true;
                self.any_handled = true;
            },
            _ => {
                self.any_handled = true;
            },
        }
        rule.continue_match
    }

    /// What the run concludes: dropped if a drop rule ran, else handled if
    /// any rule matched and ran, else no match.
    pub fn outcome(&self) -> (r: RuleOutcome)
        ensures
            outcome_spec(*self, r),
    {
        if self.dropped {
            RuleOutcome::Dropped { rule_id: self.last_id.clone() }
        } else if self.any_handled {
            RuleOutcome::Handled { rule_id: self.last_id.clone(), note: self.last_note.clone() }
        } else {
            RuleOutcome::NoMatch
        }
    }
}

} // verus!
