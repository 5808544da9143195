use secs_sim::flow_eval::{
    branch_operands, compact_sml, compare, eval_branch, field_value, first_ack_value, item_at_path,
    parse_path, FlowContext, NodeResult, NumOrder,
};
use secs_sim::flow_model::{
    BranchClause, BranchData, DelayData, Flow, FlowEdge, FlowNode, NodeData, SendData,
    TriggerData, MAX_WALK_STEPS,
};
use secs_sim::flow_walk::{FlowError, WalkStep, Walker};
use secs_sim::secs2::Secs2;

/// Numeric order of two texts, as `f64` reads them.
fn num_order(a: &str, b: &str) -> Option<NumOrder> {
    let x = a.parse::<f64>().ok()?;
    let y = b.parse::<f64>().ok()?;
    Some(if x < y {
        NumOrder::Less
    } else if x > y {
        NumOrder::Greater
    } else if x == y {
        NumOrder::Equal
    } else {
        NumOrder::Unordered
    })
}

fn cmp(op: &str, a: &str, b: &str) -> bool {
    compare(op, a, b, num_order(a, b))
}

fn orders_of(ops: &[Option<(String, String)>]) -> Vec<Option<NumOrder>> {
    ops.iter()
        .map(|o| match o {
            Some((a, b)) => num_order(a, b),
            None => None,
        })
        .collect()
}

fn commack_list(v: u8) -> NodeResult {
    NodeResult {
        stream: 1,
        function: 14,
        body: Secs2::List(vec![Secs2::Binary(vec![v]), Secs2::List(vec![])]),
        sml: format!("S1F14 COMMACK={v}"),
    }
}

fn commack(v: u8) -> NodeResult {
    NodeResult { stream: 1, function: 14, body: Secs2::Binary(vec![v]), sml: String::new() }
}

fn clause(node_id: Option<&str>, value: &str) -> BranchClause {
    BranchClause {
        node_id: node_id.map(|s| s.to_string()),
        field: "ack".to_string(),
        path: None,
        op: "eq".to_string(),
        value: value.to_string(),
    }
}

fn trigger(id: &str, kind: &str) -> FlowNode {
    FlowNode {
        id: id.to_string(),
        node_type: "trigger".to_string(),
        data: NodeData::Trigger(TriggerData {
            kind: kind.to_string(),
            stream: None,
            function: None,
            interval_ms: None,
        }),
    }
}

fn send(id: &str, stream: i32, function: i32) -> FlowNode {
    FlowNode {
        id: id.to_string(),
        node_type: "send".to_string(),
        data: NodeData::Send(SendData {
            message_id: None,
            stream: Some(stream),
            function: Some(function),
            direction: None,
        }),
    }
}

fn edge(id: &str, source: &str, target: &str, handle: Option<&str>) -> FlowEdge {
    FlowEdge {
        id: id.to_string(),
        source: source.to_string(),
        target: target.to_string(),
        source_handle: handle.map(|s| s.to_string()),
        target_handle: None,
    }
}

fn online_flow() -> Flow {
    Flow {
        id: "f".to_string(),
        name: "online".to_string(),
        enabled: true,
        nodes: vec![
            trigger("t1", "manual"),
            send("s13", 1, 13),
            FlowNode {
                id: "br".to_string(),
                node_type: "branch".to_string(),
                data: NodeData::Branch(BranchData {
                    combinator: "and".to_string(),
                    clauses: vec![clause(None, "0")],
                }),
            },
            send("s17", 1, 17),
        ],
        edges: vec![
            edge("e1", "t1", "s13", None),
            edge("e2", "s13", "br", None),
            edge("e3", "br", "s17", Some("then")),
        ],
    }
}

/// Runs a walk to its end, sending with `on_send` and recording its replies.
fn run(flow: &Flow, mut on_send: impl FnMut(&SendData) -> Option<NodeResult>) -> Result<Vec<String>, FlowError> {
    let mut visited = Vec::new();
    let (mut w, tid) = Walker::begin(flow, None)?;
    visited.push(tid);
    loop {
        match w.next(flow, false) {
            WalkStep::Finished => return Ok(visited),
            WalkStep::Failed { error, .. } => return Err(error),
            WalkStep::Trigger { id } => visited.push(id),
            WalkStep::Send { id, data } => {
                visited.push(id.clone());
                if let Some(r) = on_send(&data) {
                    w.record(id, r);
                }
            }
            WalkStep::Delay { id, .. } => visited.push(id),
            WalkStep::Wait { .. } => unreachable!(),
            WalkStep::Branch { id, data, operands } => {
                let orders = orders_of(&operands);
                visited.push(id.clone());
                w.take_branch(flow, &id, &data, &orders);
            }
        }
    }
}

#[test]
fn ack_eq_zero() {
    let r = commack_list(0);
    assert_eq!(first_ack_value(&r.body).as_deref(), Some("0"));
    assert!(cmp("eq", "0", "0"));
    assert!(!cmp("eq", "1", "0"));
}

#[test]
fn body_path_nested() {
    let body = Secs2::List(vec![
        Secs2::Binary(vec![0]),
        Secs2::List(vec![Secs2::Ascii("SIM".to_string())]),
    ]);
    let item = item_at_path(&body, "1.0").unwrap();
    assert_eq!(first_ack_value(&item).as_deref(), Some("SIM"));
}

#[test]
fn branch_and_or() {
    let mut ctx = FlowContext::new();
    ctx.insert("s1".to_string(), commack_list(0));
    let ok = clause(Some("s1"), "0");
    let bad = clause(Some("s1"), "1");
    let eval = |data: &BranchData| {
        let ops = branch_operands(data, None, &ctx);
        eval_branch(data, None, &ctx, &orders_of(&ops))
    };
    assert!(eval(&BranchData { combinator: "and".to_string(), clauses: vec![ok.clone()] }));
    assert!(!eval(&BranchData { combinator: "and".to_string(), clauses: vec![ok.clone(), bad.clone()] }));
    assert!(eval(&BranchData { combinator: "or".to_string(), clauses: vec![ok, bad] }));
}

#[test]
fn json_roundtrip_vue_flow_shape() {
    let f = Flow {
        id: "f1".to_string(),
        name: "online".to_string(),
        enabled: true,
        nodes: vec![trigger("t1", "onSelected")],
        edges: vec![edge("e1", "t1", "s1", None)],
    };
    assert_eq!(f.trigger_data().unwrap().kind, "onSelected");
    assert_eq!(f.outgoing("t1", None).unwrap().target, "s1");
}

#[test]
fn walk_branch_then_sends_s1f17() {
    let flow = online_flow();
    let mut sent = Vec::new();
    run(&flow, |s| {
        sent.push(s.function.unwrap());
        Some(commack(0))
    })
    .unwrap();
    assert_eq!(sent, vec![13, 17]);
}

#[test]
fn walk_branch_else_skips_s1f17() {
    let flow = online_flow();
    let mut sent = Vec::new();
    run(&flow, |s| {
        sent.push(s.function.unwrap());
        Some(commack(1))
    })
    .unwrap();
    assert_eq!(sent, vec![13]);
}

#[test]
fn walk_step_cap() {
    let flow = Flow {
        id: "loop".to_string(),
        name: "loop".to_string(),
        enabled: true,
        nodes: vec![
            trigger("t1", "manual"),
            FlowNode {
                id: "d1".to_string(),
                node_type: "delay".to_string(),
                data: NodeData::Delay(DelayData { ms: 0 }),
            },
        ],
        edges: vec![edge("e1", "t1", "d1", None), edge("e2", "d1", "d1", None)],
    };
    let err = run(&flow, |_| None).unwrap_err();
    assert!(err.message().contains("128"), "{}", err.message());
}

#[test]
fn ack_helper() {
    assert_eq!(first_ack_value(&Secs2::Binary(vec![0])).as_deref(), Some("0"));
}

#[test]
fn walk_visits_at_most_the_step_limit() {
    let flow = Flow {
        id: "loop".to_string(),
        name: "loop".to_string(),
        enabled: true,
        nodes: vec![
            trigger("t1", "manual"),
            FlowNode {
                id: "d1".to_string(),
                node_type: "delay".to_string(),
                data: NodeData::Delay(DelayData { ms: 0 }),
            },
        ],
        edges: vec![edge("e1", "t1", "d1", None), edge("e2", "d1", "d1", None)],
    };
    let (mut w, _) = Walker::begin(&flow, None).unwrap();
    let mut visits = 0u32;
    loop {
        match w.next(&flow, false) {
            WalkStep::Delay { ms, .. } => {
                assert_eq!(ms, 0);
                visits += 1;
            }
            WalkStep::Failed { error: FlowError::StepLimit, .. } => break,
            _ => panic!("unexpected step"),
        }
    }
    assert_eq!(visits, MAX_WALK_STEPS);
    assert_eq!(w.steps, 128);
}

#[test]
fn walk_without_trigger_fails() {
    let flow = Flow {
        id: "x".to_string(),
        name: "x".to_string(),
        enabled: true,
        nodes: vec![send("s1", 1, 1)],
        edges: vec![],
    };
    match Walker::begin(&flow, None) {
        Err(e) => assert_eq!(e.message(), "flow has no trigger"),
        Ok(_) => panic!("a flow without a trigger must not start"),
    }
}

#[test]
fn walk_reports_missing_and_unknown_nodes() {
    let mut flow = online_flow();
    flow.edges = vec![edge("e1", "t1", "ghost", None)];
    let (mut w, _) = Walker::begin(&flow, None).unwrap();
    match w.next(&flow, false) {
        WalkStep::Failed { error, .. } => assert_eq!(error.message(), "missing node ghost"),
        _ => panic!("expected a failure"),
    }
    let mut flow = online_flow();
    flow.nodes[1].node_type = "mystery".to_string();
    let (mut w, _) = Walker::begin(&flow, None).unwrap();
    match w.next(&flow, false) {
        WalkStep::Failed { running, error } => {
            assert_eq!(running.as_deref(), Some("s13"));
            assert_eq!(error.message(), "unknown node type mystery");
        }
        _ => panic!("expected a failure"),
    }
    let mut flow = online_flow();
    flow.nodes[1].data = NodeData::Unreadable("missing field".to_string());
    let (mut w, _) = Walker::begin(&flow, None).unwrap();
    match w.next(&flow, false) {
        WalkStep::Failed { error, .. } => assert_eq!(error.message(), "node s13: missing field"),
        _ => panic!("expected a failure"),
    }
}

#[test]
fn walk_stops_when_asked() {
    let flow = online_flow();
    let (mut w, _) = Walker::begin(&flow, None).unwrap();
    match w.next(&flow, true) {
        WalkStep::Failed { error, .. } => assert_eq!(error.message(), "flow stopped"),
        _ => panic!("expected a stop"),
    }
}

#[test]
fn inbound_trigger_matches_header() {
    let mut flow = online_flow();
    flow.nodes[0] = FlowNode {
        id: "t1".to_string(),
        node_type: "trigger".to_string(),
        data: NodeData::Trigger(TriggerData {
            kind: "onInbound".to_string(),
            stream: Some(6),
            function: Some(11),
            interval_ms: None,
        }),
    };
    assert!(flow.matches_inbound(6, 11));
    assert!(!flow.matches_inbound(6, 12));
    assert!(!online_flow().matches_inbound(6, 11));
}

#[test]
fn outgoing_picks_handle_or_default_exit() {
    let flow = Flow {
        id: "f".to_string(),
        name: "f".to_string(),
        enabled: true,
        nodes: vec![],
        edges: vec![
            edge("a", "b", "x", Some("else")),
            edge("b", "b", "y", Some("source")),
            edge("c", "b", "z", Some("then")),
        ],
    };
    assert_eq!(flow.outgoing("b", None).unwrap().target, "y");
    assert_eq!(flow.outgoing("b", Some("then")).unwrap().target, "z");
    assert_eq!(flow.outgoing("b", Some("else")).unwrap().target, "x");
    assert!(flow.outgoing("q", None).is_none());
}

#[test]
fn compare_by_number_and_text() {
    assert!(cmp("eq", "1.0", "1"));
    assert!(!cmp("eq", "1.0", "1x"));
    assert!(cmp("gt", "10", "9"));
    assert!(!cmp("gt", "10", "9x"));
    assert!(cmp("lt", "abc", "abd"));
    assert!(cmp("ne", "NaN", "NaN"));
    assert!(cmp("contains", "S1F14 COMMACK", "COMMACK"));
    assert!(cmp("whatever", "a", "a"));
}

#[test]
fn parse_path_skips_non_indices() {
    assert_eq!(parse_path("1.0"), vec![1, 0]);
    assert_eq!(parse_path("2..x.+3"), vec![2, 3]);
    assert!(parse_path("").is_empty());
}

#[test]
fn first_ack_value_of_each_kind() {
    assert_eq!(first_ack_value(&Secs2::Boolean(vec![true])).as_deref(), Some("1"));
    assert_eq!(first_ack_value(&Secs2::Int2(vec![-7, 3])).as_deref(), Some("-7"));
    assert_eq!(first_ack_value(&Secs2::Float4(vec!["1.5".to_string()])).as_deref(), Some("1.5"));
    assert_eq!(first_ack_value(&Secs2::Empty), None);
    assert_eq!(first_ack_value(&Secs2::Uint1(vec![])), None);
    assert_eq!(
        first_ack_value(&Secs2::List(vec![Secs2::Uint2(vec![]), Secs2::Ascii("OK".to_string())])).as_deref(),
        Some("OK")
    );
}

#[test]
fn field_values() {
    let r = commack_list(0);
    assert_eq!(field_value(&r, "sxFy", None).as_deref(), Some("S1F14"));
    assert_eq!(field_value(&r, "sml", None).as_deref(), Some("S1F14 COMMACK=0"));
    assert_eq!(field_value(&r, "bodyPath", Some("1")), None);
    assert_eq!(field_value(&r, "bodyPath", Some("0")).as_deref(), Some("0"));
    assert_eq!(field_value(&r, "ack", None).as_deref(), Some("0"));
}

#[test]
fn compact_sml_text() {
    let body = Secs2::List(vec![
        Secs2::Binary(vec![0x0A]),
        Secs2::Ascii("OK".to_string()),
        Secs2::Uint2(vec![1, 2]),
        Secs2::Int1(vec![-3]),
    ]);
    assert_eq!(compact_sml(1, 14, &body), "S1F14 <L <B 0x0A> <A \"OK\"> <Uint2([1, 2])> <I1 -3>>");
    assert_eq!(compact_sml(1, 1, &Secs2::Empty), "S1F1 ");
    let r = NodeResult::from_hsms(2, 18, Secs2::List(vec![]));
    assert_eq!(r.sml, "S2F18 <L >");
    assert_eq!(r.sx_fy(), "S2F18");
}

#[test]
fn later_result_replaces_earlier() {
    let mut ctx = FlowContext::new();
    ctx.insert("s1".to_string(), commack(0));
    ctx.insert("s1".to_string(), commack(4));
    let r = ctx.get("s1").unwrap();
    assert_eq!(first_ack_value(&r.body).as_deref(), Some("4"));
    assert!(ctx.get("s2").is_none());
}

#[test]
fn comparison_operators_relate() {
    for (a, b) in [("10", "9"), ("abc", "abd"), ("2", "2"), ("x", "1")] {
        assert_eq!(cmp("ne", a, b), !cmp("eq", a, b));
        assert_eq!(cmp("gt", a, b), cmp("lt", b, a));
        assert_eq!(cmp("whatever", a, b), cmp("eq", a, b));
    }
    assert!(cmp("gt", "10", "9"));
    assert!(!cmp("gt", "abc", "abd"));
}
