//! Session events for the user interface, link states, the primary kept
//! for a manual reply, and the socket address a session uses.

use vstd::prelude::*;
use crate::text::{chars_of, contains_char, starts_with_chars, string_of, push_all, push_str, trim, trim_chars};
use crate::numbers::{dec_str, u64_text, int_str, i64_text};
use crate::log::LogEntry;
use crate::config::{ConnectionMode, Role, SessionConfig};
use crate::flow_model::opt_view;

verus! {

/// One event for the user interface; `event_type` says which fields mean
/// something.
#[derive(Debug)]
pub struct SessionEvent {
    pub session_id: String,
    pub event_type: String,
    pub open: Option<bool>,
    pub hsms: Option<String>,
    pub message: Option<String>,
    pub entry: Option<LogEntry>,
    pub rule_id: Option<String>,
    pub sx_fy: Option<String>,
    pub flow_id: Option<String>,
    pub node_id: Option<String>,
}

/// An event of type `t` for session `sid` with every optional field empty.
pub open spec fn bare_event(e: SessionEvent, sid: Seq<char>, t: Seq<char>) -> bool {
    e.session_id@ == sid && e.event_type@ == t
}

fn base(session_id: String, event_type: &str) -> (r: SessionEvent)
    ensures
        bare_event(r, session_id@, event_type@),
        r.open is None && r.hsms is None && r.message is None && r.entry is None,
        r.rule_id is None && r.sx_fy is None && r.flow_id is None && r.node_id is None,
{
    SessionEvent {
        session_id,
        event_type: event_type.to_string(),
        open: None,
        hsms: None,
        message: None,
        entry: None,
        rule_id: None,
        sx_fy: None,
        flow_id: None,
        node_id: None,
    }
}

impl SessionEvent {
    /// `state`: whether the session is open and its link state.
    pub fn state(session_id: String, open: bool, hsms: String) -> (r: SessionEvent)
        ensures
            bare_event(r, session_id@, "state"@),
            r.open == Some(open),
            opt_view(r.hsms) == Some(hsms@),
            r.message is None && r.entry is None && r.rule_id is None,
            r.sx_fy is None && r.flow_id is None && r.node_id is None,
    {
        let mut e = base(session_id, "state");
        e.open = Some(open);
        e.hsms = Some(hsms);
        e
    }

    /// `error` with its message.
    pub fn error(session_id: String, message: String) -> (r: SessionEvent)
        ensures
            bare_event(r, session_id@, "error"@),
            opt_view(r.message) == Some(message@),
            r.open is None && r.hsms is None && r.entry is None && r.rule_id is None,
            r.sx_fy is None && r.flow_id is None && r.node_id is None,
    {
        let mut e = base(session_id, "error");
        e.message = Some(message);
        e
    }

    /// `log` carrying a new log entry.
    pub fn log(session_id: String, entry: LogEntry) -> (r: SessionEvent)
        ensures
            bare_event(r, session_id@, "log"@),
            r.entry matches Some(x) && x@ == entry@,
            r.open is None && r.hsms is None && r.message is None && r.rule_id is None,
            r.sx_fy is None && r.flow_id is None && r.node_id is None,
    {
        let mut e = base(session_id, "log");
        e.entry = Some(entry);
        e
    }

    /// `rule_hit`: which rule answered which message.
    pub fn rule_hit(session_id: String, rule_id: String, sx_fy: String) -> (r: SessionEvent)
        ensures
            bare_event(r, session_id@, "rule_hit"@),
            opt_view(r.rule_id) == Some(rule_id@),
            opt_view(r.sx_fy) == Some(sx_fy@),
            r.open is None && r.hsms is None && r.message is None && r.entry is None,
            r.flow_id is None && r.node_id is None,
    {
        let mut e = base(session_id, "rule_hit");
        e.rule_id = Some(rule_id);
        e.sx_fy = Some(sx_fy);
        e
    }

    /// `send_done` with a note on the reply.
    pub fn send_done(session_id: String, message: String) -> (r: SessionEvent)
        ensures
            bare_event(r, session_id@, "send_done"@),
            opt_view(r.message) == Some(message@),
            r.open is None && r.hsms is None && r.entry is None && r.rule_id is None,
            r.sx_fy is None && r.flow_id is None && r.node_id is None,
    {
        let mut e = base(session_id, "send_done");
        e.message = Some(message);
        e
    }

    /// `flow_progress`: a node of a flow changed state.
    pub fn flow_progress(session_id: String, flow_id: String, node_id: String, message: String) -> (r: SessionEvent)
        ensures
            bare_event(r, session_id@, "flow_progress"@),
            opt_view(r.flow_id) == Some(flow_id@),
            opt_view(r.node_id) == Some(node_id@),
            opt_view(r.message) == Some(message@),
            r.open is None && r.hsms is None && r.entry is None && r.rule_id is None,
            r.sx_fy is None,
    {
        let mut e = base(session_id, "flow_progress");
        e.flow_id = Some(flow_id);
        e.node_id = Some(node_id);
        e.message = Some(message);
        e
    }

    /// `flow_done`: a flow ended, with how.
    pub fn flow_done(session_id: String, flow_id: String, message: String) -> (r: SessionEvent)
        ensures
            bare_event(r, session_id@, "flow_done"@),
            opt_view(r.flow_id) == Some(flow_id@),
            opt_view(r.message) == Some(message@),
            r.open is None && r.hsms is None && r.entry is None && r.rule_id is None,
            r.sx_fy is None && r.node_id is None,
    {
        let mut e = base(session_id, "flow_done");
        e.flow_id = Some(flow_id);
        e.message = Some(message);
        e
    }
}

/// State of an HSMS link.
#[derive(Clone, Copy, Debug, PartialEq, Eq, Structural)]
pub enum HsmsState {
    NotConnected,
    NotSelected,
    Selected,
}

/// Name of a link state.
pub open spec fn state_label(s: HsmsState) -> Seq<char> {
    match s {
        HsmsState::NotConnected => "NotConnected"@,
        HsmsState::NotSelected => "NotSelected"@,
        HsmsState::Selected => "Selected"@,
    }
}

/// Name of a link state.
pub fn hsms_state_label(state: HsmsState) -> (r: &'static str)
    ensures
        r@ == state_label(state),
{
    match state {
        HsmsState::NotConnected => "NotConnected",
        HsmsState::NotSelected => "NotSelected",
        HsmsState::Selected => "Selected",
    }
}

/// An inbound primary kept so that a manual secondary can answer it.
pub struct PendingPrimary<M> {
    pub slot: Option<(i32, i32, M)>,
}

/// A received primary is kept for a manual reply when it waits for one
/// (wait bit, odd function) and no catalog auto-reply answered it.
pub open spec fn holds_for_reply(wbit: bool, function: i32, auto_replied: bool) -> bool {
    !auto_replied && wbit && function >= 0 && function % 2 == 1
}

/// Whether a received primary is kept for a manual reply.
pub fn should_hold_primary(wbit: bool, function: i32, auto_replied: bool) -> (r: bool)
    ensures
        r == holds_for_reply(wbit, function, auto_replied),
{
    !auto_replied && wbit && function % 2 == 1
}

impl<M> PendingPrimary<M> {
    pub fn new() -> (r: Self)
        ensures
            r.slot is None,
    {
        PendingPrimary { slot: None }
    }

    /// Keeps `msg` (header `stream`, `function`), replacing any earlier one.
    pub fn hold(&mut self, stream: i32, function: i32, msg: M)
        ensures
            final(self).slot == Some((stream, function, msg)),
    {
        self.slot = Some((stream, function, msg));
    }

    /// Takes the kept primary when `S<stream>F<function>` is its secondary
    /// (same stream, next function); otherwise leaves it.
    pub fn take_pending_reply(&mut self, stream: i32, function: i32) -> (r: Option<M>)
        ensures
            match old(self).slot {
                Some((s, f, m)) => if s == stream && f as int + 1 == function as int {
                    r == Some(m) && final(self).slot is None
                } else {
                    r is None && final(self).slot == old(self).slot
                },
                None => r is None && final(self).slot is None,
            },
    {
        let matches = match &self.slot {
            Some((s, f, _)) => *s == stream && (*f as i64) + 1 == function as i64,
            None => false,
        };
        if matches {
            match self.slot.take() {
                Some((_, _, m)) => Some(m),
                None => None,
            }
        } else {
            None
        }
    }
}

impl<M> PendingPrimary<M> {
    /// The primary that an outgoing `S<stream>F<function>` answers:
    /// for an even function, the kept primary when this is its
    /// secondary, taken out; for an odd function none, and the kept primary
    /// stays.
    pub fn reply_target(&mut self, stream: i32, function: i32) -> (r: Option<M>)
        ensures
            function % 2 != 0 ==> r is None && final(self).slot == old(self).slot,
            function % 2 == 0 ==> match old(self).slot {
                Some((s, f, m)) => if s == stream && f as int + 1 == function as int {
                    r == Some(m) && final(self).slot is None
                } else {
                    r is None && final(self).slot == old(self).slot
                },
                None => r is None && final(self).slot is None,
            },
    {
        if function % 2 == 0 {
            self.take_pending_reply(stream, function)
        } else {
            None
        }
    }
}

/// The address text looks like IPv6: it holds a `:`.
pub open spec fn ipv6_like(ip: Seq<char>) -> bool {
    ip.contains(':')
}

/// Whether `ip` looks like an IPv6 address.
pub fn looks_like_ipv6(ip: &str) -> (r: bool)
    ensures
        r == ipv6_like(ip@),
{
    let cs = chars_of(ip);
    contains_char(&cs, ':')
}

/// `ip:port`, with an IPv6 address put in brackets unless it already is.
pub open spec fn socket_text(ip: Seq<char>, port: u16) -> Seq<char> {
    if ip.contains(':') && !(ip.len() > 0 && ip[0] == '[') {
        seq!['['] + ip + seq![']', ':'] + dec_str(port as nat)
    } else {
        ip + seq![':'] + dec_str(port as nat)
    }
}

/// `ip:port` text for the socket address parser.
pub fn socket_spec(ip: &str, port: u16) -> (r: String)
    ensures
        r@ == socket_text(ip@, port),
{
    let cs = chars_of(ip);
    let mut v: Vec<char> = Vec::new();
    if contains_char(&cs, ':') && !(cs.len() > 0 && cs[0] == '[') {
        v.push('[');
        push_all(&mut v, &cs);
        v.push(']');
        v.push(':');
    } else {
        push_all(&mut v, &cs);
        v.push(':');
    }
    push_all(&mut v, &u64_text(port as u64));
    assert(v@ =~= socket_text(ip@, port));
    string_of(&v)
}

/// Where a session's socket goes.
#[derive(Debug)]
pub enum SocketPlan {
    /// Listen on every interface: `::` for an IPv6-looking configured
    /// address, else `0.0.0.0`, at the configured port.
    Listen { spec: String },
    /// Connect to the configured host (trimmed), at the configured port.
    Connect { host: String, port: u16 },
    /// An active session without a host.
    EmptyHost,
}

/// The socket plan for `cfg`.
pub open spec fn socket_plan_spec(cfg: SessionConfig, p: SocketPlan) -> bool {
    match cfg.mode {
        ConnectionMode::Passive => p matches SocketPlan::Listen { spec } && spec@ == socket_text(
            if ipv6_like(cfg.ip@) {
                "::"@
            } else {
                "0.0.0.0"@
            },
            cfg.port,
        ),
        ConnectionMode::Active => if trim(cfg.ip@).len() == 0 {
            p is EmptyHost
        } else {
            p matches SocketPlan::Connect { host, port } && host@ == trim(cfg.ip@) && port == cfg.port
        },
    }
}

/// Where `cfg`'s socket goes: passive sessions bind all interfaces, active
/// ones connect to the configured host.
pub fn socket_plan(cfg: &SessionConfig) -> (r: SocketPlan)
    ensures
        socket_plan_spec(*cfg, r),
{
    match cfg.mode {
        ConnectionMode::Passive => {
            let listen = if looks_like_ipv6(cfg.ip.as_str()) {
                "::"
            } else {
                "0.0.0.0"
            };
            SocketPlan::Listen { spec: socket_spec(listen, cfg.port) }
        },
        ConnectionMode::Active => {
            let t = trim_chars(&chars_of(cfg.ip.as_str()));
            if t.len() == 0 {
                SocketPlan::EmptyHost
            } else {
                SocketPlan::Connect { host: string_of(&t), port: cfg.port }
            }
        },
    }
}

/// What an HSMS-SS link is opened with, taken from a session configuration.
#[derive(Debug)]
pub struct HsmsSettings {
    pub session_id: u16,
    pub active: bool,
    pub socket: SocketPlan,
    pub t3: String,
    pub t5: String,
    pub t6: String,
    pub t7: String,
    pub t8: String,
    pub is_equip: bool,
    /// Linktest period in seconds, when linktest is on.
    pub linktest_seconds: Option<String>,
    /// Rebind a passive socket, every T5 seconds (at least one second, a floor
    /// the link applies to the number).
    pub rebind_if_passive: bool,
}

/// Link settings for `cfg`: refused unless the session
/// id is in `0..=0x7FFF`.
pub fn hsms_settings(cfg: &SessionConfig) -> (r: Result<HsmsSettings, String>)
    ensures
        !(0 <= cfg.session_id <= 0x7FFF) ==> (r matches Err(e) && e@ == "invalid session id: "@ + int_str(cfg.session_id as int)),
        (0 <= cfg.session_id <= 0x7FFF) ==> (r matches Ok(h) && {
            &&& h.session_id as int == cfg.session_id as int
            &&& h.active == (cfg.mode == ConnectionMode::Active)
            &&& socket_plan_spec(*cfg, h.socket)
            &&& h.t3@ == cfg.t3@ && h.t5@ == cfg.t5@ && h.t6@ == cfg.t6@ && h.t7@ == cfg.t7@ && h.t8@ == cfg.t8@
            &&& h.is_equip == (cfg.role == Role::Equipment)
            &&& opt_view(h.linktest_seconds) == if cfg.linktest_enabled { Some(cfg.linktest_seconds@) } else { None }
            &&& h.rebind_if_passive == cfg.rebind_if_passive
        }),
{
    if !(0 <= cfg.session_id && cfg.session_id <= 0x7FFF) {
        let mut v = chars_of("invalid session id: ");
        push_all(&mut v, &i64_text(cfg.session_id as i64));
        return Err(string_of(&v));
    }
    Ok(HsmsSettings {
        session_id: cfg.session_id as u16,
        active: match cfg.mode {
            ConnectionMode::Active => true,
            ConnectionMode::Passive => false,
        },
        socket: socket_plan(cfg),
        t3: cfg.t3.clone(),
        t5: cfg.t5.clone(),
        t6: cfg.t6.clone(),
        t7: cfg.t7.clone(),
        t8: cfg.t8.clone(),
        is_equip: match cfg.role {
            Role::Equipment => true,
            Role::Host => false,
        },
        linktest_seconds: if cfg.linktest_enabled {
            Some(cfg.linktest_seconds.clone())
        } else {
            None
        },
        rebind_if_passive: cfg.rebind_if_passive,
    })
}

/// `true` / `false`.
pub open spec fn bool_text(b: bool) -> Seq<char> {
    if b {
        "true"@
    } else {
        "false"@
    }
}

/// The log line written when a session opens its link.
pub open spec fn open_note_text(cfg: SessionConfig, socket: Seq<char>, socket_is_loopback: bool, lan: Option<Seq<char>>) -> Seq<char> {
    let how = match cfg.mode {
        ConnectionMode::Active => "Active connect"@,
        ConnectionMode::Passive => "Passive listen"@,
    };
    let extra = if cfg.mode == ConnectionMode::Active && socket_is_loopback {
        " (loopback: remote hosts unreachable; set peer LAN IP)"@
    } else {
        Seq::empty()
    };
    let hint = match lan {
        Some(ip) => if cfg.mode == ConnectionMode::Passive {
            "; peer Active should connect "@ + ip + ":"@ + dec_str(cfg.port as nat)
        } else {
            Seq::empty()
        },
        None => Seq::empty(),
    };
    "open "@ + how + " "@ + socket + " sessionId="@ + int_str(cfg.session_id as int) + " equip="@
        + bool_text(cfg.role == Role::Equipment) + extra + hint
}

/// The log line written when a session opens its link to `socket` (its
/// text), given whether that address is a loopback one and the machine's
/// LAN address when known.
pub fn open_note(cfg: &SessionConfig, socket: &str, socket_is_loopback: bool, lan: Option<&str>) -> (r: String)
    ensures
        r@ == open_note_text(*cfg, socket@, socket_is_loopback, match lan {
            Some(ip) => Some(ip@),
            None => None,
        }),
{
    let mut v = chars_of("open ");
    match cfg.mode {
        ConnectionMode::Active => push_str(&mut v, "Active connect"),
        ConnectionMode::Passive => push_str(&mut v, "Passive listen"),
    }
    push_str(&mut v, " ");
    push_all(&mut v, &chars_of(socket));
    push_str(&mut v, " sessionId=");
    push_all(&mut v, &i64_text(cfg.session_id as i64));
    push_str(&mut v, " equip=");
    match cfg.role {
        Role::Equipment => push_str(&mut v, "true"),
        Role::Host => push_str(&mut v, "false"),
    }
    if socket_is_loopback {
        if let ConnectionMode::Active = cfg.mode {
            push_str(&mut v, " (loopback: remote hosts unreachable; set peer LAN IP)");
        }
    }
    if let Some(ip) = lan {
        if let ConnectionMode::Passive = cfg.mode {
            push_str(&mut v, "; peer Active should connect ");
            push_all(&mut v, &chars_of(ip));
            push_str(&mut v, ":");
            push_all(&mut v, &u64_text(cfg.port as u64));
        }
    }
    string_of(&v)
}

/// What the watcher of an open link has seen last: the link state label and
/// the last open error.
#[derive(Debug)]
pub struct LinkWatch {
    pub last_label: String,
    pub last_error: String,
}

/// What one look at the link brings: a log line about a new open error, and
/// the new state label when it changed.
#[derive(Debug)]
pub struct LinkNews {
    pub note: Option<String>,
    pub state: Option<String>,
}

impl LinkWatch {
    /// Nothing seen yet.
    pub fn new() -> (r: LinkWatch)
        ensures
            r.last_label@ == Seq::<char>::empty(),
            r.last_error@ == Seq::<char>::empty(),
    {
        LinkWatch { last_label: String::new(), last_error: String::new() }
    }

    /// One look at the link: its pending open error, if any, and its state
    /// label. An error other than the last one is logged as
    /// `open failed: <error>`; a label other than the last one is reported.
    pub fn observe(&mut self, error: Option<String>, label: String) -> (r: LinkNews)
        ensures
            match error {
                Some(e) => if e@ != old(self).last_error@ {
                    (r.note matches Some(n) && n@ == "open failed: "@ + e@) && final(self).last_error@ == e@
                } else {
                    r.note is None && final(self).last_error@ == old(self).last_error@
                },
                None => r.note is None && final(self).last_error@ == old(self).last_error@,
            },
            if label@ != old(self).last_label@ {
                r.state matches Some(l) && l@ == label@
            } else {
                r.state is None
            },
            final(self).last_label@ == label@,
    {
        let mut note: Option<String> = None;
        if let Some(e) = error {
            let ec = chars_of(e.as_str());
            let lc = chars_of(self.last_error.as_str());
            if !crate::text::chars_eq(&ec, &lc) {
                let mut v = chars_of("open failed: ");
                push_all(&mut v, &ec);
                note = Some(string_of(&v));
                self.last_error = e;
            }
        }
        let nc = chars_of(label.as_str());
        let oc = chars_of(self.last_label.as_str());
        let state = if crate::text::chars_eq(&nc, &oc) {
            None
        } else {
            Some(label.clone())
        };
        self.last_label = label;
        LinkNews { note, state }
    }
}

} // verus!
