//! Single-token walk over a flow graph, as a state machine: the walker says
//! what the next node asks for (send, wait, delay, a branch decision), the
//! caller does it and reports back.

use vstd::prelude::*;
use crate::text::{chars_of, chars_eq_str, string_of, push_all, push_str};
use crate::numbers::u64_text;
use crate::flow_model::{
    Flow, FlowNode, NodeData, SendData, WaitData, BranchData, BranchClause, MAX_WALK_STEPS,
    first_index, lemma_first_index, node_is, is_trigger_node, edge_from, opt_view, clone_opt,
};
use crate::flow_eval::{
    NodeResult, NumOrder, FlowContext, clause_left, branch_holds, branch_operands, eval_branch,
    opt_str,
};

verus! {

/// Why a walk stopped early.
#[derive(Debug)]
pub enum FlowError {
    NoTrigger,
    Stopped,
    StepLimit,
    MissingNode(String),
    UnknownNodeType(String),
    BadNodeData { id: String, reason: String },
}

/// Message text of a walk error.
pub open spec fn flow_error_text(e: FlowError) -> Seq<char> {
    match e {
        FlowError::NoTrigger => "flow has no trigger"@,
        FlowError::Stopped => "flow stopped"@,
        FlowError::StepLimit => "flow exceeded 128 steps"@,
        FlowError::MissingNode(id) => "missing node "@ + id@,
        FlowError::UnknownNodeType(t) => "unknown node type "@ + t@,
        FlowError::BadNodeData { id, reason } => "node "@ + id@ + ": "@ + reason@,
    }
}

impl FlowError {
    pub fn message(&self) -> (r: String)
        ensures
            r@ == flow_error_text(*self),
    {
        match self {
            FlowError::NoTrigger => "flow has no trigger".to_string(),
            FlowError::Stopped => "flow stopped".to_string(),
            FlowError::StepLimit => {
                let mut v = chars_of("flow exceeded ");
                push_all(&mut v, &u64_text(MAX_WALK_STEPS as u64));
                push_str(&mut v, " steps");
                proof {
                    reveal_strlit("flow exceeded ");
                    reveal_strlit(" steps");
                    reveal_strlit("flow exceeded 128 steps");
                    reveal_with_fuel(crate::numbers::dec_str, 4);
                }
                assert(v@ =~= "flow exceeded 128 steps"@);
                string_of(&v)
            },
            FlowError::MissingNode(id) => {
                let mut v = chars_of("missing node ");
                push_str(&mut v, id.as_str());
                string_of(&v)
            },
            FlowError::UnknownNodeType(t) => {
                let mut v = chars_of("unknown node type ");
                push_str(&mut v, t.as_str());
                string_of(&v)
            },
            FlowError::BadNodeData { id, reason } => {
                let mut v = chars_of("node ");
                push_str(&mut v, id.as_str());
                push_str(&mut v, ": ");
                push_str(&mut v, reason.as_str());
                assert(v@ =~= "node "@ + id@ + ": "@ + reason@);
                string_of(&v)
            },
        }
    }
}

/// Walk position: the node to visit next, how many nodes were visited, the
/// last node that produced a result and every result so far.
#[derive(Debug)]
pub struct Walker {
    pub current: Option<String>,
    pub steps: u32,
    pub last_id: Option<String>,
    pub ctx: FlowContext,
}

/// What the next node asks of the caller.
#[derive(Debug)]
pub enum WalkStep {
    /// No next node: the walk is complete.
    Finished,
    /// The walk ends with `error`; `running` is the node already reported
    /// as running, if any.
    Failed { running: Option<String>, error: FlowError },
    /// A trigger node was passed.
    Trigger { id: String },
    /// Send a message; report its reply with [`Walker::record`].
    Send { id: String, data: SendData },
    /// Sleep `ms` milliseconds.
    Delay { id: String, ms: u64 },
    /// Wait for a message; report it with [`Walker::record`].
    Wait { id: String, data: WaitData },
    /// Compare the operands as numbers and call [`Walker::take_branch`].
    Branch { id: String, data: BranchData, operands: Vec<Option<(String, String)>> },
}

/// Target of the first edge leaving `source` through `handle`.
pub open spec fn next_target(flow: Flow, source: Seq<char>, handle: Option<Seq<char>>) -> Option<Seq<char>> {
    match first_index(flow.edges@, edge_from(source, handle)) {
        Some(i) => Some(flow.edges@[i].target@),
        None => None,
    }
}

/// Why the data of node `n` cannot serve its type.
pub open spec fn data_fault(n: FlowNode) -> Seq<char> {
    match n.data {
        NodeData::Unreadable(e) => e@,
        _ => "data does not match the node type"@,
    }
}

pub open spec fn same_send(a: SendData, b: SendData) -> bool {
    a.stream == b.stream && a.function == b.function && opt_view(a.message_id) == opt_view(
        b.message_id,
    ) && opt_view(a.direction) == opt_view(b.direction)
}

pub open spec fn same_clause(a: BranchClause, b: BranchClause) -> bool {
    opt_view(a.node_id) == opt_view(b.node_id) && a.field@ == b.field@ && opt_view(a.path)
        == opt_view(b.path) && a.op@ == b.op@ && a.value@ == b.value@
}

pub open spec fn same_branch(a: BranchData, b: BranchData) -> bool {
    a.combinator@ == b.combinator@ && a.clauses@.len() == b.clauses@.len() && forall|i: int|
        0 <= i < a.clauses@.len() ==> #[trigger] same_clause(a.clauses@[i], b.clauses@[i])
}

/// `ops` are the operands of every clause of `d`, in order.
pub open spec fn operands_of(ops: Seq<Option<(String, String)>>, d: BranchData, last_id: Option<Seq<char>>, ctx: Seq<(String, NodeResult)>) -> bool {
    ops.len() == d.clauses@.len() && forall|i: int|
        0 <= i < ops.len() ==> match (#[trigger] ops[i], clause_left(d.clauses@[i], last_id, ctx)) {
            (Some((a, b)), Some(l)) => a@ == l && b@ == d.clauses@[i].value@,
            (None, None) => true,
            _ => false,
        }
}

/// The step a visit of node `n` (with id `id`) yields, and where the walk
/// goes next, for a walker whose last result came from `last_id` and whose
/// results are `ctx`.
pub open spec fn visit(flow: Flow, n: FlowNode, id: Seq<char>, last_id: Option<Seq<char>>, ctx: Seq<(String, NodeResult)>, r: WalkStep, next: Option<Seq<char>>) -> bool {
    let t = n.node_type@;
    if t == "trigger"@ {
        r matches WalkStep::Trigger { id: i } && i@ == id && next == next_target(flow, id, None)
    } else if t == "send"@ {
        match n.data {
            NodeData::Send(d) => r matches WalkStep::Send { id: i, data } && i@ == id && same_send(
                data,
                d,
            ) && next == next_target(flow, id, None),
            _ => r matches WalkStep::Failed { running: Some(i), error: FlowError::BadNodeData { id: j, reason } }
                && i@ == id && j@ == id && reason@ == data_fault(n),
        }
    } else if t == "delay"@ {
        r matches WalkStep::Delay { id: i, ms } && i@ == id && ms == match n.data {
            NodeData::Delay(d) => d.ms,
            _ => 0,
        } && next == next_target(flow, id, None)
    } else if t == "wait"@ {
        match n.data {
            NodeData::Wait(d) => r matches WalkStep::Wait { id: i, data } && i@ == id && data == d
                && next == next_target(flow, id, None),
            _ => r matches WalkStep::Failed { running: Some(i), error: FlowError::BadNodeData { id: j, reason } }
                && i@ == id && j@ == id && reason@ == data_fault(n),
        }
    } else if t == "branch"@ {
        match n.data {
            NodeData::Branch(d) => r matches WalkStep::Branch { id: i, data, operands } && i@ == id
                && same_branch(data, d) && operands_of(operands@, d, last_id, ctx) && next is None,
            _ => r matches WalkStep::Failed { running: Some(i), error: FlowError::BadNodeData { id: j, reason } }
                && i@ == id && j@ == id && reason@ == data_fault(n),
        }
    } else {
        r matches WalkStep::Failed { running: Some(i), error: FlowError::UnknownNodeType(u) }
            && i@ == id && u@ == t
    }
}

impl Clone for BranchClause {
    fn clone(&self) -> (r: Self)
        ensures
            same_clause(r, *self),
    {
        BranchClause {
            node_id: clone_opt(&self.node_id),
            field: self.field.clone(),
            path: clone_opt(&self.path),
            op: self.op.clone(),
            value: self.value.clone(),
        }
    }
}

impl Clone for BranchData {
    fn clone(&self) -> (r: Self)
        ensures
            same_branch(r, *self),
    {
        let mut cs: Vec<BranchClause> = Vec::new();
        let mut i: usize = 0;
        while i < self.clauses.len()
            invariant
                i <= self.clauses@.len(),
                cs@.len() == i,
                forall|k: int| 0 <= k < i ==> #[trigger] same_clause(cs@[k], self.clauses@[k]),
            decreases self.clauses.len() - i,
        {
            cs.push(self.clauses[i].clone());
            i += 1;
        }
        BranchData { combinator: self.combinator.clone(), clauses: cs }
    }
}

/// Target of the first edge leaving `source` through `handle`.
fn target_from(flow: &Flow, source: &str, handle: Option<&str>) -> (r: Option<String>)
    ensures
        opt_view(r) == next_target(*flow, source@, opt_str(handle)),
{
    proof {
        lemma_first_index(flow.edges@, edge_from(source@, opt_str(handle)));
    }
    match flow.outgoing(source, handle) {
        Some(e) => Some(e.target.clone()),
        None => None,
    }
}

fn bad_data(n: &FlowNode) -> (r: WalkStep)
    ensures
        r matches WalkStep::Failed { running: Some(i), error: FlowError::BadNodeData { id: j, reason } }
            && i@ == n.id@ && j@ == n.id@ && reason@ == data_fault(*n),
{
    let reason = match &n.data {
        NodeData::Unreadable(e) => e.clone(),
        _ => "data does not match the node type".to_string(),
    };
    WalkStep::Failed {
        running: Some(n.id.clone()),
        error: FlowError::BadNodeData { id: n.id.clone(), reason },
    }
}

impl Walker {
    /// Starts a walk at the flow's trigger node; `start` is the result the
    /// trigger carries (the inbound message of an inbound trigger). Returns
    /// the walker and the trigger node's id.
    pub fn begin(flow: &Flow, start: Option<NodeResult>) -> (r: Result<(Walker, String), FlowError>)
        ensures
            match r {
                Ok((w, tid)) => match first_index(flow.nodes@, is_trigger_node()) {
                    Some(i) => {
                        &&& tid@ == flow.nodes@[i].id@
                        &&& w.steps == 0
                        &&& opt_view(w.current) == next_target(*flow, tid@, None)
                        &&& match start {
                            Some(s) => opt_view(w.last_id) == Some(tid@) && w.ctx.entries@.len() == 1
                                && w.ctx.entries@[0].0@ == tid@ && w.ctx.entries@[0].1 == s,
                            None => w.last_id is None && w.ctx.entries@.len() == 0,
                        }
                    },
                    None => false,
                },
                Err(e) => first_index(flow.nodes@, is_trigger_node()) is None && e is NoTrigger,
            },
    {
        let trigger = match flow.trigger_node() {
            Some(t) => t,
            None => {
                return Err(FlowError::NoTrigger);
            },
        };
        proof {
            lemma_first_index(flow.nodes@, is_trigger_node());
        }
        let mut ctx = FlowContext::new();
        let mut last_id: Option<String> = None;
        match start {
            Some(s) => {
                last_id = Some(trigger.id.clone());
                ctx.insert(trigger.id.clone(), s);
            },
            None => {},
        }
        let current = target_from(flow, trigger.id.as_str(), None);
        Ok((Walker { current, steps: 0, last_id, ctx }, trigger.id.clone()))
    }

    /// Visits the next node. `stopped` says the walk was asked to stop.
    /// At most [`MAX_WALK_STEPS`] nodes are visited: the visit after that
    /// fails with [`FlowError::StepLimit`].
    pub fn next(&mut self, flow: &Flow, stopped: bool) -> (r: WalkStep)
        requires
            old(self).steps <= MAX_WALK_STEPS,
        ensures
            final(self).steps <= MAX_WALK_STEPS,
            opt_view(final(self).last_id) == opt_view(old(self).last_id),
            final(self).ctx.entries@ == old(self).ctx.entries@,
            match old(self).current {
                None => r is Finished && final(self).steps == old(self).steps && final(self).current is None,
                Some(id) => if stopped {
                    r matches WalkStep::Failed { running: None, error: FlowError::Stopped }
                        && final(self).steps == old(self).steps
                } else if old(self).steps == MAX_WALK_STEPS {
                    r matches WalkStep::Failed { running: None, error: FlowError::StepLimit }
                        && final(self).steps == old(self).steps
                } else {
                    final(self).steps == old(self).steps + 1 && match first_index(flow.nodes@, node_is(id@)) {
                        None => r matches WalkStep::Failed { running: None, error: FlowError::MissingNode(m) } && m@ == id@,
                        Some(k) => match r {
                            WalkStep::Failed { .. } => visit(*flow, flow.nodes@[k], id@, opt_view(old(self).last_id), old(self).ctx.entries@, r, None),
                            _ => visit(*flow, flow.nodes@[k], id@, opt_view(old(self).last_id), old(self).ctx.entries@, r, opt_view(final(self).current)),
                        },
                    }
                },
            },
    {
        let id = match &self.current {
            None => {
                return WalkStep::Finished;
            },
            Some(id) => id.clone(),
        };
        if stopped {
            return WalkStep::Failed { running: None, error: FlowError::Stopped };
        }
        if self.steps >= MAX_WALK_STEPS {
            return WalkStep::Failed { running: None, error: FlowError::StepLimit };
        }
        self.steps = self.steps + 1;
        let node = match flow.node(id.as_str()) {
            Some(n) => n,
            None => {
                return WalkStep::Failed { running: None, error: FlowError::MissingNode(id) };
            },
        };
        proof {
            lemma_first_index(flow.nodes@, node_is(id@));
        }
        let t = chars_of(node.node_type.as_str());
        if chars_eq_str(&t, "trigger") {
            self.current = target_from(flow, id.as_str(), None);
            WalkStep::Trigger { id }
        } else if chars_eq_str(&t, "send") {
            match &node.data {
                NodeData::Send(d) => {
                    self.current = target_from(flow, id.as_str(), None);
                    WalkStep::Send { id, data: d.clone() }
                },
                _ => bad_data(node),
            }
        } else if chars_eq_str(&t, "delay") {
            let ms: u64 = match &node.data {
                NodeData::Delay(d) => d.ms,
                _ => 0,
            };
            self.current = target_from(flow, id.as_str(), None);
            WalkStep::Delay { id, ms }
        } else if chars_eq_str(&t, "wait") {
            match &node.data {
                NodeData::Wait(d) => {
                    self.current = target_from(flow, id.as_str(), None);
                    WalkStep::Wait { id, data: d.clone() }
                },
                _ => bad_data(node),
            }
        } else if chars_eq_str(&t, "branch") {
            match &node.data {
                NodeData::Branch(d) => {
                    let last: Option<&str> = match &self.last_id {
                        Some(s) => Some(s.as_str()),
                        None => None,
                    };
                    let operands = branch_operands(d, last, &self.ctx);
                    self.current = None;
                    WalkStep::Branch { id, data: d.clone(), operands }
                },
                _ => bad_data(node),
            }
        } else {
            WalkStep::Failed {
                running: Some(id),
                error: FlowError::UnknownNodeType(node.node_type.clone()),
            }
        }
    }

    /// Records the result that node `id` produced (a reply or a received
    /// message); later branches read it.
    pub fn record(&mut self, id: String, result: NodeResult)
        ensures
            final(self).ctx.entries@ == old(self).ctx.entries@.push((id, result)),
            opt_view(final(self).last_id) == Some(id@),
            opt_view(final(self).current) == opt_view(old(self).current),
            final(self).steps == old(self).steps,
    {
        self.last_id = Some(id.clone());
        self.ctx.insert(id, result);
    }

    /// Decides branch node `id` with `data`, given the numeric order of each
    /// clause's operands, and moves to its `then` or `else` exit. Returns
    /// whether the branch held.
    pub fn take_branch(&mut self, flow: &Flow, id: &str, data: &BranchData, orders: &Vec<Option<NumOrder>>) -> (r: bool)
        requires
            orders@.len() == data.clauses@.len(),
        ensures
            r == branch_holds(*data, opt_view(old(self).last_id), old(self).ctx.entries@, orders@),
            opt_view(final(self).current) == next_target(
                *flow,
                id@,
                Some(
                    if r {
                        "then"@
                    } else {
                        "else"@
                    },
                ),
            ),
            final(self).steps == old(self).steps,
            opt_view(final(self).last_id) == opt_view(old(self).last_id),
            final(self).ctx.entries@ == old(self).ctx.entries@,
    {
        let last: Option<&str> = match &self.last_id {
            Some(s) => Some(s.as_str()),
            None => None,
        };
        let ok = eval_branch(data, last, &self.ctx, orders);
        let handle = if ok {
            "then"
        } else {
            "else"
        };
        self.current = target_from(flow, id, Some(handle));
        ok
    }
}

} // verus!
