//! Decisions of the flow scheduler: which catalog message a send node sends,
//! which flows a link event starts, when an interval trigger fires, and the
//! set of runs in progress. Threads, channels and clocks stay with the caller.

use vstd::prelude::*;
use crate::catalog::{
    MessageCatalog, PrefabMessage, PrefabV, first_where, lemma_first_where_unique, id_is,
    outbound_for, sx_fy_text,
};
use crate::config::Role;
use crate::flow_model::{Flow, SendData, WaitData, opt_view, trigger_of, inbound_trigger, first_index, lemma_first_index_at};
use crate::flow_eval::{NodeResult, compact_sml, compact_sml_spec};
use crate::rules::HsmsHeader;
use crate::secs2::Secs2;
use crate::numbers::i64_text;
use crate::text::{chars_of, chars_eq, chars_eq_str, push_all, push_str, replace_all, replace_text, string_of};

verus! {

/// Direction text compared loosely: `&gt;` / `&lt;` decoded, spaces removed.
pub open spec fn dir_norm(s: Seq<char>) -> Seq<char> {
    replace_all(replace_all(replace_all(s, "&gt;"@, ">"@), "&lt;"@, "<"@), " "@, ""@)
}

fn dir_norm_text(s: &[char]) -> (r: Vec<char>)
    ensures
        r@ == dir_norm(s@),
{
    let a = replace_text(s, "&gt;", ">");
    let b = replace_text(&a, "&lt;", "<");
    replace_text(&b, " ", "")
}

/// Why a send node names no catalog message.
#[derive(Clone, Copy, Debug, PartialEq, Eq, Structural)]
pub enum SendPickError {
    MissingStream,
    MissingFunction,
    NotInCatalog { stream: i32, function: i32 },
}

pub open spec fn send_pick_text(e: SendPickError) -> Seq<char> {
    match e {
        SendPickError::MissingStream => "send node missing stream"@,
        SendPickError::MissingFunction => "send node missing function"@,
        SendPickError::NotInCatalog { stream, function } => "catalog has no "@ + sx_fy_text(
            stream as int,
            function as int,
        ),
    }
}

impl SendPickError {
    pub fn message(&self) -> (r: String)
        ensures
            r@ == send_pick_text(*self),
    {
        match self {
            SendPickError::MissingStream => String::from_str("send node missing stream"),
            SendPickError::MissingFunction => String::from_str("send node missing function"),
            SendPickError::NotInCatalog { stream, function } => {
                let mut v = chars_of("catalog has no S");
                push_all(&mut v, &i64_text(*stream as i64));
                v.push('F');
                push_all(&mut v, &i64_text(*function as i64));
                proof {
                    reveal_strlit("catalog has no S");
                    reveal_strlit("catalog has no ");
                    assert(v@ =~= "catalog has no "@ + sx_fy_text(*stream as int, *function as int));
                }
                string_of(&v)
            },
        }
    }
}

/// `S<stream>F<function>` with the given direction (when one is given).
pub open spec fn same_dir(stream: i32, function: i32, dir: Seq<char>) -> spec_fn(PrefabV) -> bool {
    |m: PrefabV|
        m.stream == stream && m.function == function && dir.len() > 0 && dir_norm(m.direction)
            == dir_norm(dir)
}

/// `S<stream>F<function>` sent by `role`.
pub open spec fn sent_by(stream: i32, function: i32, role: Role) -> spec_fn(PrefabV) -> bool {
    |m: PrefabV| m.stream == stream && m.function == function && outbound_for(m, role)
}

/// `S<stream>F<function>`, any direction.
pub open spec fn any_dir(stream: i32, function: i32) -> spec_fn(PrefabV) -> bool {
    |m: PrefabV| m.stream == stream && m.function == function
}

/// The catalog message a send node sends, by position: the message with the
/// node's (non-empty) message id; else the first `S<stream>F<function>` with
/// the node's direction, then the first one `role` sends, then the first one
/// at all.
pub open spec fn send_pick(
    ms: Seq<PrefabV>,
    role: Role,
    message_id: Option<Seq<char>>,
    stream: Option<i32>,
    function: Option<i32>,
    direction: Option<Seq<char>>,
) -> Result<int, SendPickError> {
    let by_id = match message_id {
        Some(id) => if id.len() > 0 {
            first_where(ms, id_is(id))
        } else {
            None
        },
        None => None,
    };
    match by_id {
        Some(i) => Ok(i),
        None => match stream {
            None => Err(SendPickError::MissingStream),
            Some(s) => match function {
                None => Err(SendPickError::MissingFunction),
                Some(f) => {
                    let dir = match direction {
                        Some(d) => d,
                        None => Seq::empty(),
                    };
                    match first_where(ms, same_dir(s, f, dir)) {
                        Some(i) => Ok(i),
                        None => match first_where(ms, sent_by(s, f, role)) {
                            Some(i) => Ok(i),
                            None => match first_where(ms, any_dir(s, f)) {
                                Some(i) => Ok(i),
                                None => Err(SendPickError::NotInCatalog { stream: s, function: f }),
                            },
                        },
                    }
                },
            },
        },
    }
}

fn find_same_dir(ms: &Vec<PrefabMessage>, stream: i32, function: i32, dir: &[char]) -> (r: Option<usize>)
    ensures
        match r {
            Some(i) => first_where(prefab_seq(ms@), same_dir(stream, function, dir@)) == Some(i as int),
            None => first_where(prefab_seq(ms@), same_dir(stream, function, dir@)) is None,
        },
{
    let ghost p = same_dir(stream, function, dir@);
    let nd = dir_norm_text(dir);
    let mut i: usize = 0;
    while i < ms.len()
        invariant
            i <= ms@.len(),
            p == same_dir(stream, function, dir@),
            nd@ == dir_norm(dir@),
            forall|k: int| 0 <= k < i ==> !p(#[trigger] prefab_seq(ms@)[k]),
        decreases ms.len() - i,
    {
        let m = &ms[i];
        if m.stream == stream && m.function == function && dir.len() > 0 {
            let md = chars_of(m.direction.as_str());
            let mn = dir_norm_text(&md);
            if chars_eq(&mn, &nd) {
                proof {
                    lemma_first_where_unique(prefab_seq(ms@), p, i as int);
                }
                return Some(i);
            }
        }
        i += 1;
    }
    proof {
        lemma_first_where_unique(prefab_seq(ms@), p, i as int);
    }
    None
}

fn find_sent_by(ms: &Vec<PrefabMessage>, stream: i32, function: i32, role: &Role) -> (r: Option<usize>)
    ensures
        match r {
            Some(i) => first_where(prefab_seq(ms@), sent_by(stream, function, *role)) == Some(i as int),
            None => first_where(prefab_seq(ms@), sent_by(stream, function, *role)) is None,
        },
{
    let ghost p = sent_by(stream, function, *role);
    let mut i: usize = 0;
    while i < ms.len()
        invariant
            i <= ms@.len(),
            p == sent_by(stream, function, *role),
            forall|k: int| 0 <= k < i ==> !p(#[trigger] prefab_seq(ms@)[k]),
        decreases ms.len() - i,
    {
        let m = &ms[i];
        if m.stream == stream && m.function == function && m.is_outbound_for(role) {
            proof {
                lemma_first_where_unique(prefab_seq(ms@), p, i as int);
            }
            return Some(i);
        }
        i += 1;
    }
    proof {
        lemma_first_where_unique(prefab_seq(ms@), p, i as int);
    }
    None
}

fn find_any_dir(ms: &Vec<PrefabMessage>, stream: i32, function: i32) -> (r: Option<usize>)
    ensures
        match r {
            Some(i) => first_where(prefab_seq(ms@), any_dir(stream, function)) == Some(i as int),
            None => first_where(prefab_seq(ms@), any_dir(stream, function)) is None,
        },
{
    let ghost p = any_dir(stream, function);
    let mut i: usize = 0;
    while i < ms.len()
        invariant
            i <= ms@.len(),
            p == any_dir(stream, function),
            forall|k: int| 0 <= k < i ==> !p(#[trigger] prefab_seq(ms@)[k]),
        decreases ms.len() - i,
    {
        let m = &ms[i];
        if m.stream == stream && m.function == function {
            proof {
                lemma_first_where_unique(prefab_seq(ms@), p, i as int);
            }
            return Some(i);
        }
        i += 1;
    }
    proof {
        lemma_first_where_unique(prefab_seq(ms@), p, i as int);
    }
    None
}

/// Models of a sequence of messages.
pub open spec fn prefab_seq(v: Seq<PrefabMessage>) -> Seq<PrefabV> {
    Seq::new(v.len(), |i: int| v[i]@)
}

/// The catalog message a send node sends.
pub fn resolve_send(cat: &MessageCatalog, role: &Role, data: &SendData) -> (r: Result<PrefabMessage, SendPickError>)
    ensures
        match send_pick(
            cat@.messages,
            *role,
            opt_view(data.message_id),
            data.stream,
            data.function,
            opt_view(data.direction),
        ) {
            Ok(i) => 0 <= i < cat@.messages.len() && (r matches Ok(m) && m@ == cat@.messages[i]),
            Err(e) => r matches Err(e2) && e2 == e,
        },
{
    if let Some(id) = &data.message_id {
        let idc = chars_of(id.as_str());
        if idc.len() > 0 {
            proof {
                crate::catalog::lemma_first_where(cat@.messages, id_is(id@));
            }
            if let Some(m) = cat.get(id.as_str()) {
                return Ok(m.clone());
            }
        }
    }
    let stream = match data.stream {
        Some(s) => s,
        None => {
            return Err(SendPickError::MissingStream);
        },
    };
    let function = match data.function {
        Some(f) => f,
        None => {
            return Err(SendPickError::MissingFunction);
        },
    };
    let dir: Vec<char> = match &data.direction {
        Some(d) => chars_of(d.as_str()),
        None => Vec::new(),
    };
    assert(prefab_seq(cat.messages@) =~= cat@.messages);
    proof {
        crate::catalog::lemma_first_where(cat@.messages, same_dir(stream, function, dir@));
        crate::catalog::lemma_first_where(cat@.messages, sent_by(stream, function, *role));
        crate::catalog::lemma_first_where(cat@.messages, any_dir(stream, function));
    }
    if let Some(i) = find_same_dir(&cat.messages, stream, function, &dir) {
        return Ok(cat.messages[i].clone());
    }
    if let Some(i) = find_sent_by(&cat.messages, stream, function, role) {
        return Ok(cat.messages[i].clone());
    }
    if let Some(i) = find_any_dir(&cat.messages, stream, function) {
        return Ok(cat.messages[i].clone());
    }
    Err(SendPickError::NotInCatalog { stream, function })
}

/// An enabled flow whose trigger is of kind `kind`.
pub open spec fn starts_on(f: Flow, kind: Seq<char>) -> bool {
    f.enabled && match trigger_of(f.nodes@) {
        Some(t) => t.kind@ == kind,
        None => false,
    }
}

/// An enabled flow triggered by an inbound `S<stream>F<function>`.
pub open spec fn starts_on_inbound(f: Flow, stream: u8, function: u8) -> bool {
    f.enabled && inbound_trigger(f.nodes@, stream as i32, function as i32)
}

fn flow_starts_on(f: &Flow, kind: &str) -> (r: bool)
    ensures
        r == starts_on(*f, kind@),
{
    if !f.enabled {
        return false;
    }
    match f.trigger_data() {
        Some(t) => {
            let k = chars_of(t.kind.as_str());
            chars_eq_str(&k, kind)
        },
        None => false,
    }
}

/// The link state went to `Selected` from another state.
pub fn selected_edge(prev: &str, label: &str) -> (r: bool)
    ensures
        r == (label@ == "Selected"@ && prev@ != "Selected"@),
{
    let l = chars_of(label);
    let p = chars_of(prev);
    chars_eq_str(&l, "Selected") && !chars_eq_str(&p, "Selected")
}

/// Positions of the flows that a link becoming selected starts: enabled,
/// with an `onSelected` trigger, in list order.
pub fn flows_on_selected(flows: &[Flow]) -> (r: Vec<usize>)
    ensures
        forall|a: int, b: int| 0 <= a < b < r@.len() ==> r@[a] < r@[b],
        forall|k: int| 0 <= k < r@.len() ==> r@[k] < flows@.len(),
        forall|i: int| 0 <= i < flows@.len() ==> (starts_on(flows@[i], "onSelected"@) <==> r@.contains(i as usize)),
{
    let mut r: Vec<usize> = Vec::new();
    let mut i: usize = 0;
    while i < flows.len()
        invariant
            i <= flows@.len(),
            forall|a: int, b: int| 0 <= a < b < r@.len() ==> r@[a] < r@[b],
            forall|k: int| 0 <= k < r@.len() ==> r@[k] < i,
            forall|j: int| 0 <= j < i ==> (starts_on(flows@[j], "onSelected"@) <==> r@.contains(j as usize)),
        decreases flows.len() - i,
    {
        let ghost prev = r@;
        if flow_starts_on(&flows[i], "onSelected") {
            r.push(i);
        }
        proof {
            assert forall|j: int| 0 <= j <= i implies (starts_on(flows@[j], "onSelected"@) <==> r@.contains(j as usize)) by {
                if j < i {
                    if prev.contains(j as usize) {
                        let k = choose|k: int| 0 <= k < prev.len() && prev[k] == j as usize;
                        assert(r@[k] == j as usize);
                    }
                    if r@.contains(j as usize) {
                        let k = choose|k: int| 0 <= k < r@.len() && r@[k] == j as usize;
                        if k < prev.len() {
                            assert(prev[k] == j as usize);
                        }
                    }
                } else {
                    if r@.contains(j as usize) {
                        let k = choose|k: int| 0 <= k < r@.len() && r@[k] == j as usize;
                        if k < prev.len() {
                            assert(prev[k] < i);
                        }
                    }
                    if r@.len() > prev.len() {
                        assert(r@[prev.len() as int] == i);
                    }
                }
            }
        }
        i += 1;
    }
    r
}

/// Positions of the flows that a received message starts: none unless it
/// is a data message; else the enabled flows triggered by its
/// `S<stream>F<function>`, in list order.
pub fn flows_for_inbound(flows: &[Flow], header: &HsmsHeader) -> (r: Vec<usize>)
    ensures
        forall|a: int, b: int| 0 <= a < b < r@.len() ==> r@[a] < r@[b],
        forall|k: int| 0 <= k < r@.len() ==> r@[k] < flows@.len(),
        forall|i: int| 0 <= i < flows@.len() ==> ((header.s_type == 0 && starts_on_inbound(flows@[i], header.stream, header.function))
            <==> r@.contains(i as usize)),
{
    let mut r: Vec<usize> = Vec::new();
    if !header.is_data_message() {
        return r;
    }
    let mut i: usize = 0;
    while i < flows.len()
        invariant
            i <= flows@.len(),
            header.s_type == 0,
            forall|a: int, b: int| 0 <= a < b < r@.len() ==> r@[a] < r@[b],
            forall|k: int| 0 <= k < r@.len() ==> r@[k] < i,
            forall|j: int| 0 <= j < i ==> (starts_on_inbound(flows@[j], header.stream, header.function) <==> r@.contains(j as usize)),
        decreases flows.len() - i,
    {
        let ghost prev = r@;
        let f = &flows[i];
        if f.enabled && f.matches_inbound(header.stream as i32, header.function as i32) {
            r.push(i);
        }
        proof {
            assert forall|j: int| 0 <= j <= i implies (starts_on_inbound(flows@[j], header.stream, header.function) <==> r@.contains(j as usize)) by {
                if j < i {
                    if prev.contains(j as usize) {
                        let k = choose|k: int| 0 <= k < prev.len() && prev[k] == j as usize;
                        assert(r@[k] == j as usize);
                    }
                    if r@.contains(j as usize) {
                        let k = choose|k: int| 0 <= k < r@.len() && r@[k] == j as usize;
                        if k < prev.len() {
                            assert(prev[k] == j as usize);
                        }
                    }
                } else {
                    if r@.contains(j as usize) {
                        let k = choose|k: int| 0 <= k < r@.len() && r@[k] == j as usize;
                        if k < prev.len() {
                            assert(prev[k] < i);
                        }
                    }
                    if r@.len() > prev.len() {
                        assert(r@[prev.len() as int] == i);
                    }
                }
            }
        }
        i += 1;
    }
    r
}

/// What the interval scheduler does with a flow on one tick.
#[derive(Clone, Copy, Debug, PartialEq, Eq, Structural)]
pub enum IntervalTick {
    /// Not an enabled interval flow, or its period has not yet passed.
    Skip,
    /// First sight of the flow: start its clock without running it.
    Arm,
    /// The period has passed: restart the clock and run the flow.
    Fire,
}

/// The period of an interval trigger: its `interval_ms` (5000 when unset),
/// at least 200.
pub open spec fn interval_period(ms: Option<u64>) -> int {
    let iv: int = match ms {
        Some(v) => v as int,
        None => 5000,
    };
    if iv < 200 {
        200
    } else {
        iv
    }
}

/// One tick for `f`, given the milliseconds since its clock started (none
/// when it has no clock yet).
pub open spec fn tick_of(f: Flow, elapsed_ms: Option<u64>) -> IntervalTick {
    if !f.enabled {
        IntervalTick::Skip
    } else {
        match trigger_of(f.nodes@) {
            Some(t) => if t.kind@ != "interval"@ {
                IntervalTick::Skip
            } else {
                match elapsed_ms {
                    None => IntervalTick::Arm,
                    Some(e) => if e as int >= interval_period(t.interval_ms) {
                        IntervalTick::Fire
                    } else {
                        IntervalTick::Skip
                    },
                }
            },
            None => IntervalTick::Skip,
        }
    }
}

/// The interval scheduler's decision for one flow on one tick.
pub fn interval_tick(f: &Flow, elapsed_ms: Option<u64>) -> (r: IntervalTick)
    ensures
        r == tick_of(*f, elapsed_ms),
{
    if !f.enabled {
        return IntervalTick::Skip;
    }
    let t = match f.trigger_data() {
        Some(t) => t,
        None => {
            return IntervalTick::Skip;
        },
    };
    let k = chars_of(t.kind.as_str());
    if !chars_eq_str(&k, "interval") {
        return IntervalTick::Skip;
    }
    let iv: u64 = match t.interval_ms {
        Some(v) => v,
        None => 5000,
    };
    let iv: u64 = if iv < 200 { 200 } else { iv };
    match elapsed_ms {
        None => IntervalTick::Arm,
        Some(e) => if e >= iv {
            IntervalTick::Fire
        } else {
            IntervalTick::Skip
        },
    }
}

/// A received message ends a wait node: a data message `S<stream>F<function>`
/// of the node.
pub fn wait_accepts(wd: &WaitData, header: &HsmsHeader) -> (r: bool)
    ensures
        r == (header.s_type == 0 && header.stream as int == wd.stream as int && header.function as int
            == wd.function as int),
{
    header.is_data_message() && header.stream as i32 == wd.stream && header.function as i32 == wd.function
}

/// Error text of a wait node whose time ran out.
pub fn wait_timeout_text(wd: &WaitData) -> (r: String)
    ensures
        r@ == "wait "@ + sx_fy_text(wd.stream as int, wd.function as int) + " timeout"@,
{
    let mut v = chars_of("wait S");
    push_all(&mut v, &i64_text(wd.stream as i64));
    v.push('F');
    push_all(&mut v, &i64_text(wd.function as i64));
    push_str(&mut v, " timeout");
    proof {
        reveal_strlit("wait S");
        reveal_strlit("wait ");
        assert(v@ =~= "wait "@ + sx_fy_text(wd.stream as int, wd.function as int) + " timeout"@);
    }
    string_of(&v)
}

/// The result a send node records: the reply when one came, else the
/// message that was sent.
pub fn sent_result(stream: i32, function: i32, sent_body: Secs2, reply: Option<NodeResult>) -> (r: NodeResult)
    ensures
        match reply {
            Some(x) => r == x,
            None => r.stream == stream && r.function == function && r.body@ == sent_body@
                && r.sml@ == compact_sml_spec(stream as int, function as int, sent_body@),
        },
{
    match reply {
        Some(x) => x,
        None => {
            let sml = compact_sml(stream, function, &sent_body);
            NodeResult { stream, function, body: sent_body, sml }
        },
    }
}

/// Log text about flow `name`: "flow `name` " and `what`.
pub fn flow_note(name: &str, what: &str) -> (r: String)
    ensures
        r@ == "flow `"@ + name@ + "` "@ + what@,
{
    let mut v = chars_of("flow `");
    push_all(&mut v, &chars_of(name));
    push_str(&mut v, "` ");
    push_all(&mut v, &chars_of(what));
    string_of(&v)
}

/// Why a flow run does not start.
#[derive(Debug)]
pub enum FlowStartError {
    /// The session's scheduler is shut down.
    Closed,
    /// No flow has this id.
    NotFound(String),
    /// The flow is running and a second start was asked to fail.
    AlreadyRunning,
}

impl FlowStartError {
    pub fn message(&self) -> (r: String)
        ensures
            r@ == match self {
                FlowStartError::Closed => "session closed"@,
                FlowStartError::NotFound(id) => "flow not found: "@ + id@,
                FlowStartError::AlreadyRunning => "flow already running"@,
            },
    {
        match self {
            FlowStartError::Closed => String::from_str("session closed"),
            FlowStartError::NotFound(id) => {
                let mut v = chars_of("flow not found: ");
                push_all(&mut v, &chars_of(id.as_str()));
                string_of(&v)
            },
            FlowStartError::AlreadyRunning => String::from_str("flow already running"),
        }
    }
}

/// Flow with id `id`.
pub open spec fn flow_is(id: Seq<char>) -> spec_fn(Flow) -> bool {
    |f: Flow| f.id@ == id
}

/// Run of flow `id`.
pub open spec fn run_is(id: Seq<char>) -> spec_fn((Seq<char>, bool)) -> bool {
    |e: (Seq<char>, bool)| e.0 == id
}

/// Position of the first flow with id `id`.
fn flow_position(flows: &[Flow], id: &str) -> (r: Option<usize>)
    ensures
        match r {
            Some(i) => i < flows@.len() && first_index(flows@, flow_is(id@)) == Some(i as int),
            None => first_index(flows@, flow_is(id@)) is None,
        },
{
    let ghost p = flow_is(id@);
    let want = chars_of(id);
    let mut i: usize = 0;
    while i < flows.len()
        invariant
            i <= flows@.len(),
            p == flow_is(id@),
            want@ == id@,
            forall|k: int| 0 <= k < i ==> !p(#[trigger] flows@[k]),
        decreases flows.len() - i,
    {
        let have = chars_of(flows[i].id.as_str());
        if chars_eq(&have, &want) {
            proof {
                lemma_first_index_at(flows@, p, i as int);
            }
            return Some(i);
        }
        i += 1;
    }
    proof {
        lemma_first_index_at(flows@, p, i as int);
    }
    None
}

/// One run in progress: the flow's id and whether it was asked to stop.
#[derive(Debug)]
struct RunEntry {
    flow_id: String,
    stopping: bool,
}

/// The runs of a session's flows in progress, each flow at most once, and
/// whether the scheduler is shut down.
#[derive(Debug)]
pub struct FlowRuns {
    closed: bool,
    runs: Vec<RunEntry>,
}

pub open spec fn runs_view(v: Seq<(Seq<char>, bool)>) -> bool {
    forall|a: int, b: int| 0 <= a < b < v.len() ==> (#[trigger] v[a]).0 != (#[trigger] v[b]).0
}

impl FlowRuns {
    #[verifier::type_invariant]
    spec fn one_run_per_flow(self) -> bool {
        runs_view(self.entries())
    }

    /// Runs in progress, oldest first: flow id and whether it was asked to stop.
    pub closed spec fn entries(self) -> Seq<(Seq<char>, bool)> {
        Seq::new(self.runs@.len(), |i: int| (self.runs@[i].flow_id@, self.runs@[i].stopping))
    }

    /// The scheduler is shut down.
    pub closed spec fn is_shut(self) -> bool {
        self.closed
    }

    /// No run, not shut down.
    pub fn new() -> (r: FlowRuns)
        ensures
            r.entries().len() == 0,
            !r.is_shut(),
    {
        let r = FlowRuns { closed: false, runs: Vec::new() };
        assert(r.entries() =~= Seq::<(Seq<char>, bool)>::empty());
        r
    }

    /// The scheduler is shut down.
    pub fn is_closed(&self) -> (r: bool)
        ensures
            r == self.is_shut(),
    {
        self.closed
    }

    fn position(&self, id: &str) -> (r: Option<usize>)
        ensures
            match r {
                Some(i) => i < self.runs@.len() && first_index(self.entries(), run_is(id@)) == Some(i as int),
                None => first_index(self.entries(), run_is(id@)) is None,
            },
    {
        let ghost p = run_is(id@);
        let want = chars_of(id);
        let mut i: usize = 0;
        while i < self.runs.len()
            invariant
                i <= self.runs@.len(),
                p == run_is(id@),
                want@ == id@,
                forall|k: int| 0 <= k < i ==> !p(#[trigger] self.entries()[k]),
            decreases self.runs.len() - i,
        {
            let have = chars_of(self.runs[i].flow_id.as_str());
            if chars_eq(&have, &want) {
                proof {
                    lemma_first_index_at(self.entries(), p, i as int);
                }
                return Some(i);
            }
            i += 1;
        }
        proof {
            lemma_first_index_at(self.entries(), p, i as int);
        }
        None
    }

    /// A run of flow `id` is in progress.
    pub fn is_running(&self, id: &str) -> (r: bool)
        ensures
            r == (first_index(self.entries(), run_is(id@)) is Some),
    {
        self.position(id).is_some()
    }

    /// Ids of the flows running, oldest run first.
    pub fn running_ids(&self) -> (r: Vec<String>)
        ensures
            r@.len() == self.entries().len(),
            forall|k: int| 0 <= k < r@.len() ==> (#[trigger] r@[k])@ == self.entries()[k].0,
    {
        let mut out: Vec<String> = Vec::new();
        let mut i: usize = 0;
        while i < self.runs.len()
            invariant
                i <= self.runs@.len(),
                out@.len() == i,
                forall|k: int| 0 <= k < i ==> (#[trigger] out@[k])@ == self.entries()[k].0,
            decreases self.runs.len() - i,
        {
            out.push(self.runs[i].flow_id.clone());
            i += 1;
        }
        out
    }

    /// Whether the walk of flow `id` should stop: the scheduler is shut down
    /// or that run was asked to stop.
    pub fn should_stop(&self, id: &str) -> (r: bool)
        ensures
            r == (self.is_shut() || match first_index(self.entries(), run_is(id@)) {
                Some(i) => self.entries()[i].1,
                None => false,
            }),
    {
        if self.closed {
            return true;
        }
        match self.position(id) {
            Some(i) => self.runs[i].stopping,
            None => false,
        }
    }

    /// Asks the run of flow `id` to stop; it stays listed until it ends.
    pub fn stop_flow(&mut self, id: &str)
        ensures
            final(self).is_shut() == old(self).is_shut(),
            final(self).entries() == match first_index(old(self).entries(), run_is(id@)) {
                Some(i) => old(self).entries().update(i, (id@, true)),
                None => old(self).entries(),
            },
    {
        proof {
            use_type_invariant(&*self);
        }
        if let Some(i) = self.position(id) {
            let ghost before = self.entries();
            proof {
                crate::flow_model::lemma_first_index(before, run_is(id@));
            }
            let mut runs: Vec<RunEntry> = Vec::new();
            std::mem::swap(&mut runs, &mut self.runs);
            let fid = runs[i].flow_id.clone();
            runs.set(i, RunEntry { flow_id: fid, stopping: true });
            proof {
                let n = Seq::new(runs@.len(), |k: int| (runs@[k].flow_id@, runs@[k].stopping));
                assert(n =~= before.update(i as int, (id@, true)));
                assert forall|a: int, b: int| 0 <= a < b < n.len() implies (#[trigger] n[a]).0 != (#[trigger] n[b]).0 by {
                    assert(n[a].0 == before[a].0);
                    assert(n[b].0 == before[b].0);
                }
            }
            self.runs = runs;
        }
    }

    /// Shuts the scheduler down: every run is asked to stop and the list is
    /// emptied.
    pub fn shutdown(&mut self)
        ensures
            final(self).is_shut(),
            final(self).entries().len() == 0,
    {
        *self = FlowRuns { closed: true, runs: Vec::new() };
        assert(self.entries() =~= Seq::<(Seq<char>, bool)>::empty());
    }

    /// The run of flow `id` ended: it leaves the list.
    pub fn finish(&mut self, id: &str)
        ensures
            final(self).is_shut() == old(self).is_shut(),
            final(self).entries() == match first_index(old(self).entries(), run_is(id@)) {
                Some(i) => old(self).entries().remove(i),
                None => old(self).entries(),
            },
    {
        proof {
            use_type_invariant(&*self);
        }
        if let Some(i) = self.position(id) {
            let ghost before = self.entries();
            let mut runs: Vec<RunEntry> = Vec::new();
            std::mem::swap(&mut runs, &mut self.runs);
            runs.remove(i);
            assert(Seq::new(runs@.len(), |k: int| (runs@[k].flow_id@, runs@[k].stopping)) =~= before.remove(i as int));
            proof {
                let n = before.remove(i as int);
                assert forall|a: int, b: int| 0 <= a < b < n.len() implies (#[trigger] n[a]).0 != (#[trigger] n[b]).0 by {
                    let aa = if a < i { a } else { a + 1 };
                    let bb = if b < i { b } else { b + 1 };
                    assert(n[a] == before[aa]);
                    assert(n[b] == before[bb]);
                }
            }
            self.runs = runs;
        }
    }

    /// Starts a run of flow `flow_id` among `flows`: refused
    /// when shut down or when no flow has that id; when the flow is already
    /// running, refused if `fail_if_running`, else nothing happens (`Ok(None)`);
    /// otherwise the run is listed, not stopping, and the flow's position is
    /// returned.
    pub fn begin(&mut self, flows: &[Flow], flow_id: &str, fail_if_running: bool) -> (r: Result<Option<usize>, FlowStartError>)
        ensures
            final(self).is_shut() == old(self).is_shut(),
            old(self).is_shut() ==> (r matches Err(FlowStartError::Closed) && final(self).entries() == old(self).entries()),
            !old(self).is_shut() ==> match first_index(flows@, flow_is(flow_id@)) {
                None => (r matches Err(FlowStartError::NotFound(x)) && x@ == flow_id@ && final(self).entries() == old(self).entries()),
                Some(i) => if first_index(old(self).entries(), run_is(flow_id@)) is Some {
                    final(self).entries() == old(self).entries() && if fail_if_running {
                        r matches Err(FlowStartError::AlreadyRunning)
                    } else {
                        r matches Ok(None)
                    }
                } else {
                    r == Ok::<Option<usize>, FlowStartError>(Some(i as usize)) && 0 <= i < flows@.len()
                        && final(self).entries() == old(self).entries().push((flow_id@, false))
                },
            },
    {
        proof {
            use_type_invariant(&*self);
        }
        if self.closed {
            return Err(FlowStartError::Closed);
        }
        let i = match flow_position(flows, flow_id) {
            Some(i) => i,
            None => {
                return Err(FlowStartError::NotFound(flow_id.to_string()));
            },
        };
        if self.position(flow_id).is_some() {
            if fail_if_running {
                return Err(FlowStartError::AlreadyRunning);
            }
            return Ok(None);
        }
        let ghost before = self.entries();
        proof {
            crate::flow_model::lemma_first_index(before, run_is(flow_id@));
        }
        let mut runs: Vec<RunEntry> = Vec::new();
        std::mem::swap(&mut runs, &mut self.runs);
        runs.push(RunEntry { flow_id: flow_id.to_string(), stopping: false });
        proof {
            let n = Seq::new(runs@.len(), |k: int| (runs@[k].flow_id@, runs@[k].stopping));
            assert(n =~= before.push((flow_id@, false)));
            assert forall|a: int, b: int| 0 <= a < b < n.len() implies (#[trigger] n[a]).0 != (#[trigger] n[b]).0 by {
                if b == n.len() - 1 {
                    assert(!run_is(flow_id@)(before[a]));
                } else {
                    assert(n[a] == before[a]);
                    assert(n[b] == before[b]);
                }
            }
        }
        self.runs = runs;
        Ok(Some(i))
    }
}

} // verus!
