use secs_sim::catalog::{new_blank_message, MessageCatalog, PrefabMessage};
use secs_sim::config::Role;
use secs_sim::flow_eval::NodeResult;
use secs_sim::flow_model::{Flow, FlowNode, NodeData, SendData, TriggerData, WaitData};
use secs_sim::flow_run::{
    flow_note, flows_for_inbound, flows_on_selected, interval_tick, resolve_send, selected_edge,
    sent_result, wait_accepts, wait_timeout_text, FlowRuns, FlowStartError, IntervalTick,
    SendPickError,
};
use secs_sim::rules::HsmsHeader;
use secs_sim::secs2::Secs2;

fn msg(id: &str, stream: i32, function: i32, direction: &str) -> PrefabMessage {
    let mut m = new_blank_message();
    m.id = id.to_string();
    m.stream = stream;
    m.function = function;
    m.direction = direction.to_string();
    m
}

fn catalog() -> MessageCatalog {
    MessageCatalog {
        source: "test".to_string(),
        messages: vec![
            msg("a", 1, 1, "H<-E"),
            msg("b", 1, 1, "H-&gt;E"),
            msg("c", 2, 41, "H<-E"),
        ],
    }
}

fn send_data(id: Option<&str>, stream: Option<i32>, function: Option<i32>, dir: Option<&str>) -> SendData {
    SendData {
        message_id: id.map(|s| s.to_string()),
        stream,
        function,
        direction: dir.map(|s| s.to_string()),
    }
}

fn flow(id: &str, enabled: bool, kind: &str, stream: Option<i32>, function: Option<i32>, interval_ms: Option<u64>) -> Flow {
    Flow {
        id: id.to_string(),
        name: id.to_string(),
        enabled,
        nodes: vec![FlowNode {
            id: "t".to_string(),
            node_type: "trigger".to_string(),
            data: NodeData::Trigger(TriggerData { kind: kind.to_string(), stream, function, interval_ms }),
        }],
        edges: vec![],
    }
}

fn header(stream: u8, function: u8, s_type: u8) -> HsmsHeader {
    HsmsHeader { session_id: 0, stream, wbit: false, function, p_type: 0, s_type, system_bytes: 1 }
}

#[test]
fn send_node_picks_message_by_id_first() {
    let m = resolve_send(&catalog(), &Role::Host, &send_data(Some("c"), Some(1), Some(1), None)).unwrap();
    assert_eq!(m.id, "c");
}

#[test]
fn send_node_with_unknown_id_falls_back_to_stream_and_function() {
    let m = resolve_send(&catalog(), &Role::Equipment, &send_data(Some("zz"), Some(1), Some(1), None)).unwrap();
    assert_eq!(m.id, "a");
}

#[test]
fn send_node_direction_matches_loosely() {
    let m = resolve_send(&catalog(), &Role::Equipment, &send_data(None, Some(1), Some(1), Some("H -> E"))).unwrap();
    assert_eq!(m.id, "b");
}

#[test]
fn send_node_prefers_what_the_role_sends() {
    let m = resolve_send(&catalog(), &Role::Host, &send_data(Some(""), Some(1), Some(1), None)).unwrap();
    assert_eq!(m.id, "b");
    let m = resolve_send(&catalog(), &Role::Equipment, &send_data(None, Some(1), Some(1), None)).unwrap();
    assert_eq!(m.id, "a");
}

#[test]
fn send_node_takes_any_direction_last() {
    let m = resolve_send(&catalog(), &Role::Host, &send_data(None, Some(2), Some(41), None)).unwrap();
    assert_eq!(m.id, "c");
}

#[test]
fn send_node_errors() {
    let e = resolve_send(&catalog(), &Role::Host, &send_data(None, None, Some(1), None)).unwrap_err();
    assert_eq!(e, SendPickError::MissingStream);
    assert_eq!(e.message(), "send node missing stream");
    let e = resolve_send(&catalog(), &Role::Host, &send_data(None, Some(1), None, None)).unwrap_err();
    assert_eq!(e.message(), "send node missing function");
    let e = resolve_send(&catalog(), &Role::Host, &send_data(None, Some(7), Some(1), None)).unwrap_err();
    assert_eq!(e, SendPickError::NotInCatalog { stream: 7, function: 1 });
    assert_eq!(e.message(), "catalog has no S7F1");
}

#[test]
fn selected_edge_only_on_change() {
    assert!(selected_edge("Connected", "Selected"));
    assert!(!selected_edge("Selected", "Selected"));
    assert!(!selected_edge("Selected", "Connected"));
}

#[test]
fn flows_started_by_selection_and_inbound() {
    let flows = vec![
        flow("f0", true, "onSelected", None, None, None),
        flow("f1", false, "onSelected", None, None, None),
        flow("f2", true, "onInbound", Some(6), Some(11), None),
        flow("f3", true, "onSelected", None, None, None),
        flow("f4", true, "onInbound", Some(6), Some(12), None),
    ];
    assert_eq!(flows_on_selected(&flows), vec![0, 3]);
    assert_eq!(flows_for_inbound(&flows, &header(6, 11, 0)), vec![2]);
    assert_eq!(flows_for_inbound(&flows, &header(6, 11, 1)), Vec::<usize>::new());
    assert_eq!(flows_for_inbound(&flows, &header(1, 1, 0)), Vec::<usize>::new());
}

#[test]
fn interval_ticks() {
    let f = flow("f", true, "interval", None, None, Some(1000));
    assert_eq!(interval_tick(&f, None), IntervalTick::Arm);
    assert_eq!(interval_tick(&f, Some(999)), IntervalTick::Skip);
    assert_eq!(interval_tick(&f, Some(1000)), IntervalTick::Fire);
    let short = flow("s", true, "interval", None, None, Some(10));
    assert_eq!(interval_tick(&short, Some(150)), IntervalTick::Skip);
    assert_eq!(interval_tick(&short, Some(200)), IntervalTick::Fire);
    let unset = flow("u", true, "interval", None, None, None);
    assert_eq!(interval_tick(&unset, Some(4999)), IntervalTick::Skip);
    assert_eq!(interval_tick(&unset, Some(5000)), IntervalTick::Fire);
    let off = flow("o", false, "interval", None, None, Some(1000));
    assert_eq!(interval_tick(&off, None), IntervalTick::Skip);
    let manual = flow("m", true, "manual", None, None, Some(1000));
    assert_eq!(interval_tick(&manual, Some(5000)), IntervalTick::Skip);
}

#[test]
fn wait_node_accepts_its_data_message() {
    let wd = WaitData { stream: 6, function: 12, timeout_ms: 100 };
    assert!(wait_accepts(&wd, &header(6, 12, 0)));
    assert!(!wait_accepts(&wd, &header(6, 11, 0)));
    assert!(!wait_accepts(&wd, &header(6, 12, 5)));
    assert_eq!(wait_timeout_text(&wd), "wait S6F12 timeout");
}

#[test]
fn send_result_is_reply_or_sent_message() {
    let reply = NodeResult { stream: 1, function: 14, body: Secs2::Binary(vec![0]), sml: "x".to_string() };
    let r = sent_result(1, 13, Secs2::List(vec![]), Some(reply));
    assert_eq!(r.function, 14);
    assert_eq!(r.sml, "x");
    let r = sent_result(1, 13, Secs2::List(vec![]), None);
    assert_eq!(r.function, 13);
    assert_eq!(r.sml, "S1F13 <L >");
    assert_eq!(flow_note("demo", "start"), "flow `demo` start");
}

#[test]
fn runs_start_once_and_stop() {
    let flows = vec![flow("f0", true, "manual", None, None, None), flow("f1", true, "manual", None, None, None)];
    let mut runs = FlowRuns::new();
    assert_eq!(runs.begin(&flows, "f1", true).unwrap(), Some(1));
    assert!(runs.is_running("f1"));
    assert_eq!(runs.begin(&flows, "f1", false).unwrap(), None);
    assert!(matches!(runs.begin(&flows, "f1", true), Err(FlowStartError::AlreadyRunning)));
    let e = runs.begin(&flows, "nope", true).unwrap_err();
    assert_eq!(e.message(), "flow not found: nope");
    assert_eq!(runs.begin(&flows, "f0", false).unwrap(), Some(0));
    assert_eq!(runs.running_ids(), vec!["f1".to_string(), "f0".to_string()]);
    assert!(!runs.should_stop("f0"));
    runs.stop_flow("f0");
    assert!(runs.should_stop("f0"));
    assert!(!runs.should_stop("f1"));
    assert!(runs.is_running("f0"));
    runs.finish("f0");
    assert!(!runs.is_running("f0"));
    assert_eq!(runs.running_ids(), vec!["f1".to_string()]);
    runs.shutdown();
    assert!(runs.should_stop("f1"));
    assert!(runs.running_ids().is_empty());
    let e = runs.begin(&flows, "f0", false).unwrap_err();
    assert_eq!(e.message(), "session closed");
}
