//! Flow graphs: nodes, edges and the typed data each node kind carries.

use vstd::prelude::*;
use crate::text::{chars_of, chars_eq, chars_eq_str};

verus! {

/// Most nodes a single walk may visit.
pub const MAX_WALK_STEPS: u32 = 128;

/// Directed edge between two nodes; `source_handle` selects a branch exit.
#[derive(Debug)]
pub struct FlowEdge {
    pub id: String,
    pub source: String,
    pub target: String,
    pub source_handle: Option<String>,
    pub target_handle: Option<String>,
}

/// Data of a trigger node.
#[derive(Debug)]
pub struct TriggerData {
    pub kind: String,
    pub stream: Option<i32>,
    pub function: Option<i32>,
    pub interval_ms: Option<u64>,
}

/// Data of a send node.
#[derive(Debug)]
pub struct SendData {
    pub message_id: Option<String>,
    pub stream: Option<i32>,
    pub function: Option<i32>,
    pub direction: Option<String>,
}

/// Data of a delay node.
#[derive(Debug)]
pub struct DelayData {
    pub ms: u64,
}

/// Data of a wait node.
#[derive(Debug)]
pub struct WaitData {
    pub stream: i32,
    pub function: i32,
    pub timeout_ms: u64,
}

/// One condition of a branch node.
#[derive(Debug)]
pub struct BranchClause {
    pub node_id: Option<String>,
    pub field: String,
    pub path: Option<String>,
    pub op: String,
    pub value: String,
}

/// Data of a branch node: its clauses and how they combine (`and` / `or`).
#[derive(Debug)]
pub struct BranchData {
    pub combinator: String,
    pub clauses: Vec<BranchClause>,
}

/// The data of a node, read according to its type; `Unreadable` keeps why
/// the data could not be read.
#[derive(Debug)]
pub enum NodeData {
    Trigger(TriggerData),
    Send(SendData),
    Delay(DelayData),
    Wait(WaitData),
    Branch(BranchData),
    Unreadable(String),
}

/// A node of a flow graph.
#[derive(Debug)]
pub struct FlowNode {
    pub id: String,
    pub node_type: String,
    pub data: NodeData,
}

/// A flow graph.
#[derive(Debug)]
pub struct Flow {
    pub id: String,
    pub name: String,
    pub enabled: bool,
    pub nodes: Vec<FlowNode>,
    pub edges: Vec<FlowEdge>,
}

/// Index of the first element satisfying `p`.
pub open spec fn first_index<T>(s: Seq<T>, p: spec_fn(T) -> bool) -> Option<int>
    decreases s.len(),
{
    if s.len() == 0 {
        None
    } else if p(s[0]) {
        Some(0)
    } else {
        match first_index(s.drop_first(), p) {
            Some(i) => Some(i + 1),
            None => None,
        }
    }
}

pub proof fn lemma_first_index<T>(s: Seq<T>, p: spec_fn(T) -> bool)
    ensures
        match first_index(s, p) {
            Some(i) => 0 <= i < s.len() && p(s[i]) && forall|k: int| 0 <= k < i ==> !p(#[trigger] s[k]),
            None => forall|k: int| 0 <= k < s.len() ==> !p(#[trigger] s[k]),
        },
    decreases s.len(),
{
    if s.len() > 0 && !p(s[0]) {
        lemma_first_index(s.drop_first(), p);
        assert forall|k: int| 0 < k < s.len() implies #[trigger] s[k] == s.drop_first()[k - 1] by {}
    }
}

pub proof fn lemma_first_index_at<T>(s: Seq<T>, p: spec_fn(T) -> bool, i: int)
    requires
        0 <= i <= s.len(),
        i < s.len() ==> p(s[i]),
        forall|k: int| 0 <= k < i ==> !p(#[trigger] s[k]),
    ensures
        first_index(s, p) == if i < s.len() {
            Some(i)
        } else {
            None::<int>
        },
{
    lemma_first_index(s, p);
}

/// Node whose id is `id`.
pub open spec fn node_is(id: Seq<char>) -> spec_fn(FlowNode) -> bool {
    |n: FlowNode| n.id@ == id
}

/// Node of type `trigger`.
pub open spec fn is_trigger_node() -> spec_fn(FlowNode) -> bool {
    |n: FlowNode| n.node_type@ == "trigger"@
}

/// An edge leaving `source` through `handle`; with no handle, through the
/// default exit (no handle, an empty one or `source`).
pub open spec fn edge_from(source: Seq<char>, handle: Option<Seq<char>>) -> spec_fn(FlowEdge) -> bool {
    |e: FlowEdge|
        e.source@ == source && match handle {
            Some(h) => e.source_handle matches Some(s) && s@ == h,
            None => match e.source_handle {
                None => true,
                Some(s) => s@.len() == 0 || s@ == "source"@,
            },
        }
}

/// Trigger data of the first trigger node, when it was read as such.
pub open spec fn trigger_of(nodes: Seq<FlowNode>) -> Option<TriggerData> {
    match first_index(nodes, is_trigger_node()) {
        Some(i) => match nodes[i].data {
            NodeData::Trigger(t) => Some(t),
            _ => None,
        },
        None => None,
    }
}

/// The flow starts on an inbound `S<stream>F<function>`.
pub open spec fn inbound_trigger(nodes: Seq<FlowNode>, stream: i32, function: i32) -> bool {
    match trigger_of(nodes) {
        Some(t) => t.kind@ == "onInbound"@ && t.stream == Some(stream) && t.function == Some(function),
        None => false,
    }
}

impl Clone for TriggerData {
    fn clone(&self) -> (r: Self)
        ensures
            r.kind@ == self.kind@,
            r.stream == self.stream,
            r.function == self.function,
            r.interval_ms == self.interval_ms,
    {
        TriggerData {
            kind: self.kind.clone(),
            stream: self.stream,
            function: self.function,
            interval_ms: self.interval_ms,
        }
    }
}

/// Copy of an optional string.
pub fn clone_opt(s: &Option<String>) -> (r: Option<String>)
    ensures
        match (r, *s) {
            (Some(a), Some(b)) => a@ == b@,
            (None, None) => true,
            _ => false,
        },
{
    match s {
        Some(x) => Some(x.clone()),
        None => None,
    }
}

impl Clone for SendData {
    fn clone(&self) -> (r: Self)
        ensures
            r.stream == self.stream,
            r.function == self.function,
            opt_view(r.message_id) == opt_view(self.message_id),
            opt_view(r.direction) == opt_view(self.direction),
    {
        SendData {
            message_id: clone_opt(&self.message_id),
            stream: self.stream,
            function: self.function,
            direction: clone_opt(&self.direction),
        }
    }
}

impl Clone for WaitData {
    fn clone(&self) -> (r: Self)
        ensures
            r == *self,
    {
        WaitData { stream: self.stream, function: self.function, timeout_ms: self.timeout_ms }
    }
}

/// View of an optional string.
pub open spec fn opt_view(s: Option<String>) -> Option<Seq<char>> {
    match s {
        Some(x) => Some(x@),
        None => None,
    }
}

impl Flow {
    /// Index of the first node with id `id`.
    pub fn node_index(&self, id: &str) -> (r: Option<usize>)
        ensures
            match r {
                Some(i) => first_index(self.nodes@, node_is(id@)) == Some(i as int),
                None => first_index(self.nodes@, node_is(id@)) is None,
            },
    {
        let want = chars_of(id);
        let mut i: usize = 0;
        while i < self.nodes.len()
            invariant
                i <= self.nodes@.len(),
                want@ == id@,
                forall|k: int| 0 <= k < i ==> !(node_is(id@))(#[trigger] self.nodes@[k]),
            decreases self.nodes.len() - i,
        {
            let have = chars_of(self.nodes[i].id.as_str());
            if chars_eq(&have, &want) {
                proof {
                    lemma_first_index_at(self.nodes@, node_is(id@), i as int);
                }
                return Some(i);
            }
            i += 1;
        }
        proof {
            lemma_first_index_at(self.nodes@, node_is(id@), i as int);
        }
        None
    }

    /// The first node with id `id`.
    pub fn node(&self, id: &str) -> (r: Option<&FlowNode>)
        ensures
            r == match first_index(self.nodes@, node_is(id@)) {
                Some(i) => Some(&self.nodes@[i]),
                None => None,
            },
    {
        proof {
            lemma_first_index(self.nodes@, node_is(id@));
        }
        match self.node_index(id) {
            Some(i) => Some(&self.nodes[i]),
            None => None,
        }
    }

    /// The first node of type `trigger`.
    pub fn trigger_node(&self) -> (r: Option<&FlowNode>)
        ensures
            r == match first_index(self.nodes@, is_trigger_node()) {
                Some(i) => Some(&self.nodes@[i]),
                None => None,
            },
    {
        let mut i: usize = 0;
        while i < self.nodes.len()
            invariant
                i <= self.nodes@.len(),
                forall|k: int| 0 <= k < i ==> !(is_trigger_node())(#[trigger] self.nodes@[k]),
            decreases self.nodes.len() - i,
        {
            let ty = chars_of(self.nodes[i].node_type.as_str());
            if chars_eq_str(&ty, "trigger") {
                proof {
                    lemma_first_index_at(self.nodes@, is_trigger_node(), i as int);
                }
                return Some(&self.nodes[i]);
            }
            i += 1;
        }
        proof {
            lemma_first_index_at(self.nodes@, is_trigger_node(), i as int);
        }
        None
    }

    /// The trigger node's data, when it reads as trigger data.
    pub fn trigger_data(&self) -> (r: Option<TriggerData>)
        ensures
            match (r, trigger_of(self.nodes@)) {
                (Some(a), Some(b)) => a.kind@ == b.kind@ && a.stream == b.stream && a.function
                    == b.function && a.interval_ms == b.interval_ms,
                (None, None) => true,
                _ => false,
            },
    {
        match self.trigger_node() {
            Some(n) => match &n.data {
                NodeData::Trigger(t) => Some(t.clone()),
                _ => None,
            },
            None => None,
        }
    }

    /// The flow is triggered by an inbound `S<stream>F<function>`.
    pub fn matches_inbound(&self, stream: i32, function: i32) -> (r: bool)
        ensures
            r == inbound_trigger(self.nodes@, stream, function),
    {
        match self.trigger_data() {
            Some(t) => {
                let k = chars_of(t.kind.as_str());
                chars_eq_str(&k, "onInbound") && t.stream == Some(stream) && t.function == Some(
                    function,
                )
            },
            None => false,
        }
    }

    /// The first edge leaving `source` through `handle` (or the default exit).
    pub fn outgoing(&self, source: &str, handle: Option<&str>) -> (r: Option<&FlowEdge>)
        ensures
            r == match first_index(
                self.edges@,
                edge_from(
                    source@,
                    match handle {
                        Some(h) => Some(h@),
                        None => None,
                    },
                ),
            ) {
                Some(i) => Some(&self.edges@[i]),
                None => None,
            },
    {
        let ghost h = match handle {
            Some(h) => Some(h@),
            None => None::<Seq<char>>,
        };
        let src = chars_of(source);
        let mut i: usize = 0;
        while i < self.edges.len()
            invariant
                i <= self.edges@.len(),
                src@ == source@,
                h == match handle {
                    Some(x) => Some(x@),
                    None => None,
                },
                forall|k: int| 0 <= k < i ==> !(edge_from(source@, h))(#[trigger] self.edges@[k]),
            decreases self.edges.len() - i,
        {
            let e = &self.edges[i];
            let es = chars_of(e.source.as_str());
            let ok = if chars_eq(&es, &src) {
                match handle {
                    Some(want) => match &e.source_handle {
                        Some(s) => {
                            let a = chars_of(s.as_str());
                            let b = chars_of(want);
                            chars_eq(&a, &b)
                        },
                        None => false,
                    },
                    None => match &e.source_handle {
                        None => true,
                        Some(s) => {
                            let a = chars_of(s.as_str());
                            a.len() == 0 || chars_eq_str(&a, "source")
                        },
                    },
                }
            } else {
                false
            };
            if ok {
                proof {
                    lemma_first_index_at(self.edges@, edge_from(source@, h), i as int);
                }
                return Some(e);
            }
            i += 1;
        }
        proof {
            lemma_first_index_at(self.edges@, edge_from(source@, h), i as int);
        }
        None
    }
}

} // verus!
